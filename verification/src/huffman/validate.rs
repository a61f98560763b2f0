//! Checks on the bytes of header names and values.
use crate::http_types;
use vstd::prelude::*;

verus! {

/// A byte that may stand in a header value: a tab, or anything from the space on
/// but DEL.
pub open spec fn value_byte(b: u8) -> bool {
    b == 0x09 || (b >= 0x20 && b != 0x7f)
}

/// A byte that the quick check on header names lets pass: no control character,
/// no space, no DEL, no capital letter.
pub open spec fn name_byte(b: u8) -> bool {
    b >= 0x21 && b != 0x7f && !(0x41 <= b <= 0x5a)
}

/// Whether all bytes may stand in a header value.
pub fn validate_header_value(data: &[u8]) -> (r: bool)
    ensures
        r == (forall|i: int| 0 <= i < data@.len() ==> value_byte(#[trigger] data@[i])),
{
    let mut i: usize = 0;
    while i < data.len()
        invariant
            i <= data@.len(),
            forall|j: int| 0 <= j < i ==> value_byte(#[trigger] data@[j]),
        decreases data@.len() - i,
    {
        let b: u8 = data[i];
        if !(b == 0x09 || (b >= 0x20 && b != 0x7f)) {
            assert(!value_byte(data@[i as int]));
            return false;
        }
        i = i + 1;
    }
    true
}

/// Whether all bytes pass the quick check on header names.
pub fn validate_header_name(data: &[u8]) -> (r: bool)
    ensures
        r == (forall|i: int| 0 <= i < data@.len() ==> name_byte(#[trigger] data@[i])),
{
    let mut i: usize = 0;
    while i < data.len()
        invariant
            i <= data@.len(),
            forall|j: int| 0 <= j < i ==> name_byte(#[trigger] data@[j]),
        decreases data@.len() - i,
    {
        let b: u8 = data[i];
        if !(b >= 0x21 && b != 0x7f && !(b >= 0x41 && b <= 0x5a)) {
            assert(!name_byte(data@[i as int]));
            return false;
        }
        i = i + 1;
    }
    true
}

/// The check on values lets pass exactly the header values.
pub proof fn law_values_checked(data: Seq<u8>)
    ensures
        http_types::is_value(data) <==> (forall|i: int|
            0 <= i < data.len() ==> value_byte(#[trigger] data[i])),
{
    assert forall|i: int| 0 <= i < data.len() implies http_types::is_value_byte(data[i])
        == value_byte(#[trigger] data[i]) by {}
}

/// The quick check on names lets every header name pass.
pub proof fn law_names_pass(data: Seq<u8>)
    requires
        http_types::is_name(data),
    ensures
        forall|i: int| 0 <= i < data.len() ==> name_byte(#[trigger] data[i]),
{
    assert forall|i: int| 0 <= i < data.len() implies name_byte(#[trigger] data[i]) by {
        assert(http_types::is_name_byte(data[i]));
    }
}

} // verus!
