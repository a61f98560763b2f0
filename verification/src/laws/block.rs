//! How a block is read.
use crate::arena;
use crate::arena::RawHeader;
use crate::block;
use crate::block::{Progress, RawName};
use crate::dyn_table::Table;
use crate::error::{DecoderError, NeedMore};
use crate::headers::HeaderView;
use crate::integer;
use crate::laws::table;
use crate::static_table;
use vstd::prelude::*;

verus! {

/// The input ended too early.
pub open spec fn wants_more(result: Result<(), DecoderError>) -> bool {
    result matches Err(DecoderError::NeedMore(_))
}

proof fn lemma_continuation_local(
    data: Seq<u8>,
    more: Seq<u8>,
    pos: nat,
    value: nat,
    weight: nat,
    left: nat,
)
    requires
        integer::continuation(data, pos, value, weight, left).result != Err::<nat, DecoderError>(
            DecoderError::NeedMore(NeedMore::IntegerUnderflow),
        ),
    ensures
        integer::continuation(data + more, pos, value, weight, left) == integer::continuation(
            data,
            pos,
            value,
            weight,
            left,
        ),
    decreases left,
{
    if left > 0 && pos < data.len() && data[pos as int] >= 128 {
        let b = data[pos as int] as nat;
        lemma_continuation_local(
            data,
            more,
            pos + 1,
            value + (b % 128) * weight,
            weight * 128,
            (left - 1) as nat,
        );
    }
}

/// Bytes that follow an integer do not matter to it.
pub proof fn law_integer_local(data: Seq<u8>, more: Seq<u8>, pos: nat, prefix: nat)
    ensures
        ({
            let read = integer::integer(data, pos, prefix);
            ||| read.result == Err::<nat, DecoderError>(
                DecoderError::NeedMore(NeedMore::IntegerUnderflow),
            )
            ||| integer::integer(data + more, pos, prefix) == read
        }),
{
    let read = integer::integer(data, pos, prefix);
    if read.result != Err::<nat, DecoderError>(DecoderError::NeedMore(NeedMore::IntegerUnderflow)) {
        let value = data[pos as int] as nat % vstd::arithmetic::power2::pow2(prefix);
        if value >= vstd::arithmetic::power2::pow2(prefix) - 1 {
            lemma_continuation_local(data, more, pos + 1, value, 1, 4);
        }
    }
}

/// Bytes that follow a string do not matter to it.
pub proof fn law_string_local(data: Seq<u8>, more: Seq<u8>, pos: nat)
    ensures
        ({
            let read = block::string(data, pos);
            ||| read.result matches Err(DecoderError::NeedMore(_))
            ||| block::string(data + more, pos) == read
        }),
{
    law_integer_local(data, more, pos, 7);
    let size = integer::integer(data, pos, 7);
    if pos < data.len() {
        if let Ok(len) = size.result {
            if size.pos + len <= data.len() {
                assert((data + more).subrange(size.pos as int, (size.pos + len) as int)
                    =~= data.subrange(size.pos as int, (size.pos + len) as int));
            }
        }
    }
}

proof fn lemma_with_value_local(
    data: Seq<u8>,
    more: Seq<u8>,
    at: Progress,
    name: RawName,
    index: bool,
)
    ensures
        ({
            let next = block::with_value(data, at, name, index);
            wants_more(next.result) || block::with_value(data + more, at, name, index) == next
        }),
{
    reveal(block::with_value);
    law_string_local(data, more, at.pos);
}

proof fn lemma_literal_local(data: Seq<u8>, more: Seq<u8>, at: Progress, prefix: nat, index: bool)
    ensures
        ({
            let next = block::literal(data, at, prefix, index);
            wants_more(next.result) || block::literal(data + more, at, prefix, index) == next
        }),
{
    reveal(block::literal);
    law_integer_local(data, more, at.pos, prefix);
    let place = integer::integer(data, at.pos, prefix);
    if let Ok(idx) = place.result {
        let after = Progress { pos: place.pos, ..at };
        if idx == 0 {
            law_string_local(data, more, place.pos);
            let read = block::string(data, place.pos);
            if let Ok(text) = read.result {
                lemma_with_value_local(
                    data,
                    more,
                    after.read_string(read),
                    RawName::Text(arena::kept(at.arena, text)),
                    index,
                );
            }
        } else if idx <= static_table::STATIC_LEN {
            lemma_with_value_local(data, more, after, RawName::Static(idx as int), index);
        } else if idx - static_table::FIRST_DYNAMIC < at.table.entries.len() {
            let text = at.table.entries[idx - static_table::FIRST_DYNAMIC].name;
            lemma_with_value_local(
                data,
                more,
                after.written(text),
                RawName::Text(arena::kept(at.arena, text)),
                index,
            );
        }
    }
}

/// Bytes that follow a representation do not matter to it.
pub proof fn law_representation_local(data: Seq<u8>, more: Seq<u8>, at: Progress, limit: nat)
    requires
        at.pos < data.len(),
    ensures
        ({
            let next = block::representation(data, at, limit);
            wants_more(next.result) || block::representation(data + more, at, limit) == next
        }),
{
    reveal(block::representation);
    let header = Progress { can_resize: false, ..at };
    law_integer_local(data, more, at.pos, 7);
    law_integer_local(data, more, at.pos, 5);
    lemma_literal_local(data, more, header, 6, true);
    lemma_literal_local(data, more, header, 4, false);
}

/// A block is read from front to back. What was read of its beginning stands,
/// whatever follows; and so does an error, unless it is that the input ended too
/// early.
pub proof fn law_block_continues(data: Seq<u8>, more: Seq<u8>, at: Progress, limit: nat)
    requires
        at.pos <= data.len(),
    ensures
        ({
            let first = block::block(data, at, limit);
            let whole = block::block(data + more, at, limit);
            if first.result is Ok {
                &&& first.state.pos == data.len()
                &&& whole == block::block(data + more, first.state, limit)
            } else {
                wants_more(first.result) || whole == first
            }
        }),
    decreases data.len() - at.pos,
{
    if at.pos < data.len() {
        law_representation_local(data, more, at, limit);
        block::lemma_representation(data, at, limit);
        let next = block::representation(data, at, limit);
        if next.result is Ok {
            law_block_continues(data, more, next.state, limit);
        }
    }
}

/// A block that was cut short is answered with its headers so far, or with a
/// demand for more input; never with another error.
pub proof fn law_cut_short(data: Seq<u8>, n: nat, at: Progress, limit: nat)
    requires
        at.pos <= n <= data.len(),
        block::block(data, at, limit).result is Ok,
    ensures
        ({
            let result = block::block(data.take(n as int), at, limit).result;
            result is Ok || wants_more(result)
        }),
{
    law_block_continues(data.take(n as int), data.skip(n as int), at, limit);
    assert(data.take(n as int) + data.skip(n as int) =~= data);
}

/// Size updates come before headers.
pub open spec fn updates_first(at: Progress) -> bool {
    at.headers.len() > 0 ==> !at.can_resize
}

proof fn lemma_with_value_headers(data: Seq<u8>, at: Progress, name: RawName, index: bool)
    ensures
        ({
            let next = block::with_value(data, at, name, index).state;
            &&& next.can_resize == at.can_resize
            &&& next.headers.len() >= at.headers.len()
            &&& next.headers.take(at.headers.len() as int) == at.headers
        }),
{
    reveal(block::with_value);
    let next = block::with_value(data, at, name, index).state;
    assert(next.headers.take(at.headers.len() as int) =~= at.headers);
}

proof fn lemma_literal_headers(data: Seq<u8>, at: Progress, prefix: nat, index: bool)
    ensures
        ({
            let next = block::literal(data, at, prefix, index).state;
            &&& next.can_resize == at.can_resize
            &&& next.headers.len() >= at.headers.len()
            &&& next.headers.take(at.headers.len() as int) == at.headers
        }),
{
    reveal(block::literal);
    let next = block::literal(data, at, prefix, index).state;
    let place = integer::integer(data, at.pos, prefix);
    assert(at.headers.take(at.headers.len() as int) =~= at.headers);
    if let Ok(idx) = place.result {
        let after = Progress { pos: place.pos, ..at };
        if idx == 0 {
            let read = block::string(data, place.pos);
            if let Ok(text) = read.result {
                lemma_with_value_headers(
                    data,
                    after.read_string(read),
                    RawName::Text(arena::kept(at.arena, text)),
                    index,
                );
            }
        } else if idx <= static_table::STATIC_LEN {
            lemma_with_value_headers(data, after, RawName::Static(idx as int), index);
        } else if idx - static_table::FIRST_DYNAMIC < at.table.entries.len() {
            let text = at.table.entries[idx - static_table::FIRST_DYNAMIC].name;
            lemma_with_value_headers(
                data,
                after.written(text),
                RawName::Text(arena::kept(at.arena, text)),
                index,
            );
        }
    }
}

/// A size update is refused once there has been a header, and one is never taken
/// again after that.
pub proof fn law_late_update_refused(data: Seq<u8>, at: Progress, limit: nat)
    requires
        at.pos < data.len(),
        updates_first(at),
    ensures
        ({
            let next = block::representation(data, at, limit);
            &&& updates_first(next.state)
            &&& next.state.can_resize ==> at.can_resize
            &&& 32 <= data[at.pos as int] < 64 && at.headers.len() > 0 ==> next.result == Err::<
                (),
                DecoderError,
            >(DecoderError::InvalidMaxDynamicSize)
        }),
{
    reveal(block::representation);
    let header = Progress { can_resize: false, ..at };
    lemma_literal_headers(data, header, 6, true);
    lemma_literal_headers(data, header, 4, false);
}

/// What the dynamic table keeps to, in a block: its size, its limit, the lengths of
/// its strings, and what its entries count for.
pub open spec fn table_kept(before: Table, after: Table, limit: nat) -> bool {
    &&& before.wf() ==> after.wf()
    &&& after.max_size == before.max_size || after.max_size <= limit
    &&& before.short() ==> after.short()
    &&& before.exact() ==> after.exact()
}

proof fn lemma_with_value_table(
    data: Seq<u8>,
    at: Progress,
    name: RawName,
    index: bool,
    limit: nat,
)
    requires
        name.bytes().len() < 0x1_0000,
    ensures
        table_kept(at.table, block::with_value(data, at, name, index).state.table, limit),
{
    reveal(block::with_value);
    if let Ok(text) = block::string(data, at.pos).result {
        let value = arena::kept(at.arena, text);
        if at.table.wf() {
            table::law_within_limit(at.table, name.bytes(), value, 0);
        }
        if at.table.short() {
            table::law_strings_short(at.table, name.bytes(), value, 0);
        }
        arena::lemma_kept(at.arena, text, Seq::empty());
        if at.table.exact() {
            table::law_exact_kept(at.table, name.bytes(), value, 0);
        }
    }
}

proof fn lemma_literal_table(data: Seq<u8>, at: Progress, prefix: nat, index: bool, limit: nat)
    ensures
        table_kept(at.table, block::literal(data, at, prefix, index).state.table, limit),
{
    reveal(block::literal);
    let place = integer::integer(data, at.pos, prefix);
    if let Ok(idx) = place.result {
        let after = Progress { pos: place.pos, ..at };
        if idx == 0 {
            let read = block::string(data, place.pos);
            if let Ok(text) = read.result {
                arena::lemma_kept(at.arena, text, Seq::empty());
                lemma_with_value_table(
                    data,
                    after.read_string(read),
                    RawName::Text(arena::kept(at.arena, text)),
                    index,
                    limit,
                );
            }
        } else if idx <= static_table::STATIC_LEN {
            static_table::lemma_name_len(idx as int);
            lemma_with_value_table(data, after, RawName::Static(idx as int), index, limit);
        } else if idx - static_table::FIRST_DYNAMIC < at.table.entries.len() {
            let text = at.table.entries[idx - static_table::FIRST_DYNAMIC].name;
            arena::lemma_kept(at.arena, text, Seq::empty());
            lemma_with_value_table(
                data,
                after.written(text),
                RawName::Text(arena::kept(at.arena, text)),
                index,
                limit,
            );
        }
    }
}

/// A representation leaves a table that keeps to its limit. The limit is as before,
/// or one that a size update may set.
pub proof fn law_representation_table(data: Seq<u8>, at: Progress, limit: nat)
    ensures
        table_kept(at.table, block::representation(data, at, limit).state.table, limit),
{
    reveal(block::representation);
    let header = Progress { can_resize: false, ..at };
    lemma_literal_table(data, header, 6, true, limit);
    lemma_literal_table(data, header, 4, false, limit);
    if let Ok(size) = integer::integer(data, at.pos, 5).result {
        if at.table.wf() {
            table::law_within_limit(at.table, Seq::empty(), Seq::empty(), size);
        }
        if at.table.short() {
            table::law_strings_short(at.table, Seq::empty(), Seq::empty(), size);
        }
        if at.table.exact() {
            table::law_exact_kept(at.table, Seq::empty(), Seq::empty(), size);
        }
    }
}

/// A block leaves a table that keeps to its limit. The limit is as before, or one
/// that a size update may set.
pub proof fn law_block_table(data: Seq<u8>, at: Progress, limit: nat)
    requires
        at.pos <= data.len(),
    ensures
        table_kept(at.table, block::block(data, at, limit).state.table, limit),
    decreases data.len() - at.pos,
{
    if at.pos < data.len() {
        law_representation_table(data, at, limit);
        block::lemma_representation(data, at, limit);
        let next = block::representation(data, at, limit);
        if next.result is Ok {
            law_block_table(data, next.state, limit);
        }
    }
}

/// Headers are delivered in their order: all of them, or those before the first
/// that cannot be made.
pub proof fn law_delivered(headers: Seq<RawHeader>)
    ensures
        ({
            let (made, result) = block::delivered(headers);
            &&& made.len() <= headers.len()
            &&& forall|i: int|
                0 <= i < made.len() ==> (#[trigger] headers[i]).made() == Ok::<
                    HeaderView,
                    DecoderError,
                >(made[i])
            &&& match result {
                Ok(_) => made.len() == headers.len(),
                Err(e) => made.len() < headers.len() && headers[made.len() as int].made() == Err::<
                    HeaderView,
                    DecoderError,
                >(e),
            }
        }),
    decreases headers.len(),
{
    if headers.len() > 0 {
        let fewer = headers.drop_last();
        law_delivered(fewer);
        let (made, result) = block::delivered(headers);
        assert forall|i: int| 0 <= i < made.len() implies (#[trigger] headers[i]).made() == Ok::<
            HeaderView,
            DecoderError,
        >(made[i]) by {
            if i < fewer.len() {
                assert(fewer[i] == headers[i]);
            }
        }
    }
}

} // verus!
