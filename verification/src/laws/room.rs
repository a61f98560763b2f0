//! How much room a block takes up.
use crate::arena;
use crate::block;
use crate::block::{Progress, RawName};
use crate::fast_decoder::State;
use crate::integer;
use crate::laws::block as reading;
use crate::static_table;
use vstd::prelude::*;

verus! {

/// The most bytes of strings that one byte of input can stand for: a name and a
/// value of the dynamic table.
pub const MOST: usize = 131070;

/// The room that the strings of a block may take up from `at` on.
pub open spec fn budget(data: Seq<u8>, at: Progress) -> int {
    at.arena.len() + MOST * (data.len() - at.pos)
}

/// The length that the log may grow to from `at` on.
pub open spec fn log_budget(data: Seq<u8>, at: Progress) -> int {
    at.table.log.len() + MOST * (data.len() - at.pos)
}

/// What happened between two states kept to the room that there was.
pub open spec fn in_budget(data: Seq<u8>, at: Progress, next: block::Decoded) -> bool {
    &&& next.state.peak <= at.peak || next.state.peak <= budget(data, at)
    &&& next.state.table.log.len() <= log_budget(data, at)
    &&& next.result is Ok ==> {
        &&& budget(data, next.state) <= budget(data, at)
        &&& log_budget(data, next.state) <= log_budget(data, at)
        &&& next.state.pos <= data.len()
    }
}

proof fn lemma_with_value_room(data: Seq<u8>, at: Progress, name: RawName, index: bool)
    requires
        at.pos <= data.len(),
        name.bytes().len() < 0x1_0000,
    ensures
        in_budget(data, at, block::with_value(data, at, name, index)),
{
    reveal(block::with_value);
    block::lemma_string(data, at.pos);
    if let Ok(text) = block::string(data, at.pos).result {
        arena::lemma_kept(at.arena, text, Seq::empty());
    }
}

proof fn lemma_literal_room(data: Seq<u8>, at: Progress, prefix: nat, index: bool)
    requires
        at.pos < data.len(),
        prefix <= 8,
        at.table.short(),
    ensures
        in_budget(data, at, block::literal(data, at, prefix, index)),
{
    reveal(block::literal);
    integer::lemma_integer_span(data, at.pos, prefix);
    let place = integer::integer(data, at.pos, prefix);
    if let Ok(idx) = place.result {
        let after = Progress { pos: place.pos, ..at };
        if idx == 0 {
            block::lemma_string(data, place.pos);
            let read = block::string(data, place.pos);
            if let Ok(text) = read.result {
                arena::lemma_kept(at.arena, text, Seq::empty());
                lemma_with_value_room(
                    data,
                    after.read_string(read),
                    RawName::Text(arena::kept(at.arena, text)),
                    index,
                );
            }
        } else if idx <= static_table::STATIC_LEN {
            static_table::lemma_name_len(idx as int);
            lemma_with_value_room(data, after, RawName::Static(idx as int), index);
        } else if idx - static_table::FIRST_DYNAMIC < at.table.entries.len() {
            let text = at.table.entries[idx - static_table::FIRST_DYNAMIC].name;
            arena::lemma_kept(at.arena, text, Seq::empty());
            lemma_with_value_room(
                data,
                after.written(text),
                RawName::Text(arena::kept(at.arena, text)),
                index,
            );
        }
    }
}

proof fn lemma_representation_room(data: Seq<u8>, at: Progress, limit: nat)
    requires
        at.pos < data.len(),
        at.table.short(),
    ensures
        in_budget(data, at, block::representation(data, at, limit)),
{
    reveal(block::representation);
    let header = Progress { can_resize: false, ..at };
    integer::lemma_integer_span(data, at.pos, 7);
    integer::lemma_integer_span(data, at.pos, 5);
    lemma_literal_room(data, header, 6, true);
    lemma_literal_room(data, header, 4, false);
}

/// The strings of a block, and what it adds to the log, stay within 131070 bytes
/// for each byte of input.
pub proof fn law_block_room(data: Seq<u8>, at: Progress, limit: nat)
    requires
        at.pos <= data.len(),
        at.table.short(),
    ensures
        ({
            let end = block::block(data, at, limit).state;
            &&& end.peak <= at.peak || end.peak <= budget(data, at)
            &&& end.table.log.len() <= log_budget(data, at)
        }),
    decreases data.len() - at.pos,
{
    if at.pos < data.len() {
        lemma_representation_room(data, at, limit);
        reading::law_representation_table(data, at, limit);
        block::lemma_representation(data, at, limit);
        let next = block::representation(data, at, limit);
        if next.result is Ok {
            law_block_room(data, next.state, limit);
        }
    }
}

/// A decoder can take in every block that is short enough for its buffers.
pub proof fn law_short_blocks_fit(state: State, data: Seq<u8>)
    requires
        state.table.short(),
        state.table.log.len() + MOST * data.len() <= isize::MAX,
    ensures
        state.fits(data),
{
    law_block_room(data, Progress::start(state.table), state.next_limit());
}

/// One byte of input can stand for two strings of the dynamic table, each of a length
/// of sixteen bits.
pub proof fn law_most()
    ensures
        MOST == 2 * 65535,
{
}

/// What the arena has had to hold: at least what it holds, and no more than that and
/// what the string that was read last took up.
pub proof fn law_peak(at: Progress, read: block::StringRead, text: Seq<u8>)
    ensures
        ({
            let next = at.read_string(read);
            &&& next.peak >= at.peak
            &&& next.peak >= at.arena.len() + read.room
            &&& next.peak == at.peak || next.peak == at.arena.len() + read.room
            &&& next.pos == read.pos
            &&& next.arena == at.arena + read.written
            &&& next.table == at.table
            &&& next.headers == at.headers
            &&& next.can_resize == at.can_resize
        }),
        ({
            let next = at.written(text);
            &&& next.peak >= at.peak
            &&& next.peak >= at.arena.len() + text.len()
            &&& next.peak == at.peak || next.peak == at.arena.len() + text.len()
            &&& next.pos == at.pos
            &&& next.arena == at.arena + text
            &&& next.table == at.table
            &&& next.headers == at.headers
            &&& next.can_resize == at.can_resize
        }),
{
}

/// A block fits if neither the arena nor the log has to be longer than a buffer can
/// be.
pub proof fn law_fits(state: State, data: Seq<u8>)
    ensures
        state.fits(data) <==> state.read(data).state.peak <= isize::MAX && state.read(
            data,
        ).state.table.log.len() <= isize::MAX,
{
}

} // verus!
