//! What each representation stands for and what it does to the table.
use crate::arena;
use crate::arena::RawHeader;
use crate::bits;
use crate::block;
use crate::block::Progress;
use crate::dyn_table::Table;
use crate::error::{DecoderError, NeedMore};
use crate::headers;
use crate::headers::HeaderView;
use crate::huffman::code;
use crate::huffman::slice;
use crate::integer;
use crate::static_table;
use vstd::prelude::*;

verus! {

/// A string is cut short if the input ends before it, in its length, or in its bytes.
pub proof fn law_string_cut(data: Seq<u8>, pos: nat)
    ensures
        ({
            let read = block::string(data, pos);
            let size = integer::integer(data, pos, 7);
            &&& pos >= data.len() ==> read.result == Err::<Seq<u8>, DecoderError>(
                DecoderError::NeedMore(NeedMore::UnexpectedEndOfStream),
            ) && read.pos == pos && read.written.len() == 0
            &&& pos < data.len() ==> (size.result matches Err(e) ==> read.result == Err::<
                Seq<u8>,
                DecoderError,
            >(e) && read.pos == size.pos && read.written.len() == 0)
            &&& pos < data.len() ==> (size.result matches Ok(len) ==> (size.pos + len > data.len()
                ==> read.result == Err::<Seq<u8>, DecoderError>(
                DecoderError::NeedMore(NeedMore::StringUnderflow),
            ) && read.pos == size.pos && read.written.len() == 0))
        }),
{
}

/// A string with the high bit clear is the bytes after its length.
pub proof fn law_plain_string(data: Seq<u8>, pos: nat, len: nat)
    requires
        pos < data.len(),
        data[pos as int] < 128,
        integer::integer(data, pos, 7).result == Ok::<nat, DecoderError>(len),
        integer::integer(data, pos, 7).pos + len <= data.len(),
    ensures
        ({
            let read = block::string(data, pos);
            let from = integer::integer(data, pos, 7).pos;
            &&& read.result matches Ok(text)
            &&& text.len() == len
            &&& forall|i: int| 0 <= i < len ==> #[trigger] text[i] == data[from + i]
            &&& read.written == text
            &&& read.pos == from + len
            &&& read.room == len
        }),
{
}

/// A string with the high bit set is what the bytes after its length are the code of.
pub proof fn law_coded_string(data: Seq<u8>, pos: nat, len: nat)
    requires
        pos < data.len(),
        data[pos as int] >= 128,
        integer::integer(data, pos, 7).result == Ok::<nat, DecoderError>(len),
        integer::integer(data, pos, 7).pos + len <= data.len(),
    ensures
        ({
            let read = block::string(data, pos);
            let from = integer::integer(data, pos, 7).pos;
            let raw = data.subrange(from as int, (from + len) as int);
            &&& read.pos == from + len
            &&& read.room == 2 * len
            &&& slice::is_accepted(raw) ==> read.result == Ok::<Seq<u8>, DecoderError>(
                code::read(bits::bits_of(raw)).symbols,
            ) && read.written == code::read(bits::bits_of(raw)).symbols
            &&& !slice::is_accepted(raw) ==> read.result == Err::<Seq<u8>, DecoderError>(
                DecoderError::InvalidHuffmanCode,
            ) && read.written.len() == 2 * len
        }),
{
    code::lemma_symbols_len(
        data.subrange(
            integer::integer(data, pos, 7).pos as int,
            (integer::integer(data, pos, 7).pos + len) as int,
        ),
    );
}

/// Only a literal of the second form, whose first byte is from 64 to 127, enters a
/// field into the table, and only a size update changes the table otherwise: after
/// every other representation, refused or not, the table is as before.
#[verifier::spinoff_prover]
#[verifier::rlimit(40)]
pub proof fn law_table_untouched(data: Seq<u8>, at: Progress, limit: nat)
    requires
        at.pos < data.len(),
        !(32 <= data[at.pos as int] < 128),
    ensures
        block::representation(data, at, limit).state.table == at.table,
{
    reveal(block::representation);
    reveal(block::literal);
    reveal(block::with_value);
}

/// A representation that is refused leaves the table and the headers as before.
#[verifier::spinoff_prover]
#[verifier::rlimit(40)]
pub proof fn law_refused_untouched(data: Seq<u8>, at: Progress, limit: nat)
    requires
        at.pos < data.len(),
        block::representation(data, at, limit).result is Err,
    ensures
        block::representation(data, at, limit).state.table == at.table,
        block::representation(data, at, limit).state.headers == at.headers,
{
    reveal(block::representation);
    reveal(block::literal);
    reveal(block::with_value);
}

/// A first byte from 128 on is a reference. Up to 61 it is to the static table; from
/// 62 on to the dynamic table, whose newest entry has the lowest index. A reference
/// to nothing is refused.
pub proof fn law_reference(data: Seq<u8>, at: Progress, limit: nat, index: nat)
    requires
        at.pos < data.len(),
        data[at.pos as int] >= 128,
        integer::integer(data, at.pos, 7).result == Ok::<nat, DecoderError>(index),
    ensures
        ({
            let next = block::representation(data, at, limit);
            let after = integer::integer(data, at.pos, 7).pos;
            &&& index == 0 || index >= 62 + at.table.entries.len() ==> next.result == Err::<
                (),
                DecoderError,
            >(DecoderError::InvalidTableIndex)
            &&& 1 <= index <= 61 ==> {
                &&& next.result is Ok
                &&& next.state.pos == after
                &&& next.state.headers == at.headers.push(RawHeader::Entry(index as int))
                &&& next.state.arena == at.arena
                &&& next.state.peak == at.peak
                &&& !next.state.can_resize
            }
            &&& 62 <= index < 62 + at.table.entries.len() ==> {
                let entry = at.table.entries[index - 62];
                &&& next.result is Ok
                &&& next.state.pos == after
                &&& next.state.headers == at.headers.push(
                    RawHeader::Literal {
                        name: arena::kept(at.arena, entry.name),
                        value: arena::kept(at.arena + entry.name, entry.value),
                    },
                )
                &&& next.state.arena == at.arena + entry.name + entry.value
                &&& next.state.peak == at.peak || next.state.peak <= next.state.arena.len()
                &&& !next.state.can_resize
            }
        }),
{
    reveal(block::representation);
}

/// A reference whose index cannot be read is refused for that.
pub proof fn law_reference_unread(data: Seq<u8>, at: Progress, limit: nat, e: DecoderError)
    requires
        at.pos < data.len(),
        data[at.pos as int] >= 128,
        integer::integer(data, at.pos, 7).result == Err::<nat, DecoderError>(e),
    ensures
        block::representation(data, at, limit).result == Err::<(), DecoderError>(e),
{
    reveal(block::representation);
}

/// How many bits the index of a literal's name has: six in the form that is entered
/// into the table, four in the two forms that are not.
pub open spec fn name_bits(first: u8) -> nat {
    if first >= 64 {
        6
    } else {
        4
    }
}

/// The first byte is that of a literal header.
pub open spec fn is_literal(first: u8) -> bool {
    first < 32 || 64 <= first < 128
}

/// A literal header with a name of its own, in any of the three forms: the header has
/// that name and the value that follows. In the form with the first byte from 64 on
/// it is entered into the table, in the others not.
#[verifier::spinoff_prover]
#[verifier::rlimit(40)]
pub proof fn law_literal(data: Seq<u8>, at: Progress, limit: nat, name: Seq<u8>, value: Seq<u8>)
    requires
        at.pos < data.len(),
        is_literal(data[at.pos as int]),
        ({
            let place = integer::integer(data, at.pos, name_bits(data[at.pos as int]));
            let first = block::string(data, place.pos);
            let second = block::string(data, first.pos);
            &&& place.result == Ok::<nat, DecoderError>(0)
            &&& first.result == Ok::<Seq<u8>, DecoderError>(name)
            &&& second.result == Ok::<Seq<u8>, DecoderError>(value)
        }),
    ensures
        ({
            let next = block::representation(data, at, limit);
            let place = integer::integer(data, at.pos, name_bits(data[at.pos as int]));
            let first = block::string(data, place.pos);
            let kept_name = arena::kept(at.arena, name);
            let kept_value = arena::kept(at.arena + name, value);
            &&& next.result is Ok
            &&& next.state.pos == block::string(data, first.pos).pos
            &&& next.state.headers == at.headers.push(
                RawHeader::Literal { name: kept_name, value: kept_value },
            )
            &&& next.state.arena == at.arena + name + value
            &&& next.state.table == (if data[at.pos as int] >= 64 {
                at.table.inserted(kept_name, kept_value)
            } else {
                at.table
            })
            &&& {
                ||| next.state.peak == at.peak
                ||| next.state.peak == at.arena.len() + first.room
                ||| next.state.peak == at.arena.len() + name.len() + block::string(
                    data,
                    first.pos,
                ).room
            }
            &&& !next.state.can_resize
        }),
{
    reveal(block::representation);
    reveal(block::literal);
    reveal(block::with_value);
    let place = integer::integer(data, at.pos, name_bits(data[at.pos as int]));
    lemma_written(data, place.pos);
    lemma_written(data, block::string(data, place.pos).pos);
}

/// A literal header with a name of the static table.
#[verifier::spinoff_prover]
#[verifier::rlimit(40)]
pub proof fn law_static_literal(
    data: Seq<u8>,
    at: Progress,
    limit: nat,
    idx: nat,
    value: Seq<u8>,
)
    requires
        at.pos < data.len(),
        is_literal(data[at.pos as int]),
        1 <= idx <= 61,
        ({
            let place = integer::integer(data, at.pos, name_bits(data[at.pos as int]));
            &&& place.result == Ok::<nat, DecoderError>(idx)
            &&& block::string(data, place.pos).result == Ok::<Seq<u8>, DecoderError>(value)
        }),
    ensures
        ({
            let next = block::representation(data, at, limit);
            let place = integer::integer(data, at.pos, name_bits(data[at.pos as int]));
            let kept_value = arena::kept(at.arena, value);
            &&& next.result is Ok
            &&& next.state.pos == block::string(data, place.pos).pos
            &&& next.state.headers == at.headers.push(
                RawHeader::Named { idx: idx as int, value: kept_value },
            )
            &&& next.state.arena == at.arena + value
            &&& next.state.peak == at.peak || next.state.peak == at.arena.len() + block::string(
                data,
                place.pos,
            ).room
            &&& next.state.table == (if data[at.pos as int] >= 64 {
                at.table.inserted(static_table::static_name(idx as int), kept_value)
            } else {
                at.table
            })
            &&& !next.state.can_resize
        }),
{
    reveal(block::representation);
    reveal(block::literal);
    reveal(block::with_value);
    lemma_written(data, integer::integer(data, at.pos, name_bits(data[at.pos as int])).pos);
}

/// A literal header with a name of the dynamic table: that of the entry at `i`,
/// counted from the newest.
#[verifier::spinoff_prover]
#[verifier::rlimit(40)]
pub proof fn law_dynamic_literal(data: Seq<u8>, at: Progress, limit: nat, i: nat, value: Seq<u8>)
    requires
        at.pos < data.len(),
        is_literal(data[at.pos as int]),
        i < at.table.entries.len(),
        ({
            let place = integer::integer(data, at.pos, name_bits(data[at.pos as int]));
            &&& place.result == Ok::<nat, DecoderError>(62 + i)
            &&& block::string(data, place.pos).result == Ok::<Seq<u8>, DecoderError>(value)
        }),
    ensures
        ({
            let next = block::representation(data, at, limit);
            let place = integer::integer(data, at.pos, name_bits(data[at.pos as int]));
            let name = at.table.entries[i as int].name;
            let kept_name = arena::kept(at.arena, name);
            let kept_value = arena::kept(at.arena + name, value);
            &&& next.result is Ok
            &&& next.state.pos == block::string(data, place.pos).pos
            &&& next.state.headers == at.headers.push(
                RawHeader::Literal { name: kept_name, value: kept_value },
            )
            &&& next.state.arena == at.arena + name + value
            &&& {
                ||| next.state.peak == at.peak
                ||| next.state.peak == at.arena.len() + name.len()
                ||| next.state.peak == at.arena.len() + name.len() + block::string(
                    data,
                    place.pos,
                ).room
            }
            &&& next.state.table == (if data[at.pos as int] >= 64 {
                at.table.inserted(kept_name, kept_value)
            } else {
                at.table
            })
            &&& !next.state.can_resize
        }),
{
    reveal(block::representation);
    reveal(block::literal);
    reveal(block::with_value);
    lemma_written(data, integer::integer(data, at.pos, name_bits(data[at.pos as int])).pos);
}

proof fn lemma_written(data: Seq<u8>, pos: nat)
    ensures
        block::string(data, pos).result matches Ok(text) ==> block::string(data, pos).written
            == text,
{
}

/// A literal header is refused if the index of its name cannot be read or refers to
/// nothing, or if one of its strings cannot be read; for the first of these.
#[verifier::spinoff_prover]
#[verifier::rlimit(40)]
pub proof fn law_literal_refused(data: Seq<u8>, at: Progress, limit: nat, e: DecoderError)
    requires
        at.pos < data.len(),
        is_literal(data[at.pos as int]),
    ensures
        ({
            let result = block::representation(data, at, limit).result;
            let place = integer::integer(data, at.pos, name_bits(data[at.pos as int]));
            let first = block::string(data, place.pos);
            let refused = Err::<(), DecoderError>(e);
            let unread = Err::<Seq<u8>, DecoderError>(e);
            &&& place.result == Err::<nat, DecoderError>(e) ==> result == refused
            &&& place.result matches Ok(idx) ==> {
                &&& idx >= 62 + at.table.entries.len() ==> result == Err::<(), DecoderError>(
                    DecoderError::InvalidTableIndex,
                )
                &&& idx < 62 + at.table.entries.len() && first.result == unread ==> result
                    == refused
                &&& idx == 0 && first.result is Ok && block::string(data, first.pos).result
                    == unread ==> result == refused
            }
        }),
{
    reveal(block::representation);
    reveal(block::literal);
    reveal(block::with_value);
}

/// A first byte from 32 to 63 is a size update. Before all headers, and up to the
/// decoder's own limit, it sets the table's limit; otherwise it is refused.
pub proof fn law_size_update(data: Seq<u8>, at: Progress, limit: nat)
    requires
        at.pos < data.len(),
        32 <= data[at.pos as int] < 64,
    ensures
        ({
            let next = block::representation(data, at, limit);
            let size = integer::integer(data, at.pos, 5);
            let refused = Err::<(), DecoderError>(DecoderError::InvalidMaxDynamicSize);
            &&& !at.can_resize ==> next.result == refused
            &&& at.can_resize ==> {
                &&& size.result matches Err(e) ==> next.result == Err::<(), DecoderError>(e)
                &&& size.result matches Ok(n) ==> (n > limit ==> next.result == refused)
                &&& size.result matches Ok(n) ==> (n <= limit ==> {
                    &&& next.result is Ok
                    &&& next.state.pos == size.pos
                    &&& next.state.table == at.table.resized(n)
                    &&& next.state.headers == at.headers
                    &&& next.state.arena == at.arena
                    &&& next.state.can_resize
                })
            }
        }),
{
    reveal(block::representation);
}

/// A block starts with nothing read, and is read one representation after the other,
/// to its end or to the first that is refused.
pub proof fn law_block_steps(data: Seq<u8>, at: Progress, limit: nat, table: Table)
    requires
        at.pos <= data.len(),
    ensures
        ({
            let start = Progress::start(table);
            &&& start.pos == 0
            &&& start.table == table
            &&& start.arena.len() == 0
            &&& start.headers.len() == 0
            &&& start.can_resize
            &&& start.peak == 0
        }),
        ({
            let next = block::representation(data, at, limit);
            let whole = block::block(data, at, limit);
            &&& at.pos == data.len() ==> whole.result is Ok && whole.state == at
            &&& at.pos < data.len() && next.result is Err ==> whole == next
            &&& at.pos < data.len() && next.result is Ok ==> whole == block::block(
                data,
                next.state,
                limit,
            )
        }),
{
    if at.pos < data.len() {
        block::lemma_representation(data, at, limit);
    }
}

/// What is read makes a header: an entry of the static table is that entry, and what
/// was read with a name and a value has these.
pub proof fn law_made(idx: int, name: Seq<u8>, value: Seq<u8>)
    ensures
        RawHeader::Entry(idx).made() == Ok::<HeaderView, DecoderError>(headers::static_entry(idx)),
        (RawHeader::Named { idx, value }).made() == headers::static_header(idx, value),
        (RawHeader::Literal { name, value }).made() == headers::header_of(name, value),
{
}

} // verus!
