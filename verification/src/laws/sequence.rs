//! Two blocks, one after the other, and the same bytes as one block.
use crate::arena;
use crate::arena::RawHeader;
use crate::block;
use crate::block::{Progress, RawName};
use crate::error::DecoderError;
use crate::fast_decoder::State;
use crate::headers::HeaderView;
use crate::integer;
use crate::laws::block as reading;
use crate::static_table;
use vstd::prelude::*;

verus! {

/// None of the representations from `at` on is a size update.
pub open spec fn no_update(data: Seq<u8>, at: Progress, limit: nat) -> bool
    decreases data.len() - at.pos,
    when at.pos <= data.len()
    via no_update_ends
{
    at.pos < data.len() ==> {
        let next = block::representation(data, at, limit);
        &&& !(32 <= data[at.pos as int] < 64)
        &&& next.result is Ok ==> no_update(data, next.state, limit)
    }
}

#[via_fn]
proof fn no_update_ends(data: Seq<u8>, at: Progress, limit: nat) {
    if at.pos < data.len() {
        block::lemma_representation(data, at, limit);
    }
}

/// A state in a block and the state at the same place of a longer block, which
/// has `len` bytes, `strings` bytes of strings and some headers before it.
pub open spec fn shifted(
    short: Progress,
    long: Progress,
    len: nat,
    strings: nat,
    before: Seq<RawHeader>,
) -> bool {
    &&& long.pos == len + short.pos
    &&& long.table == short.table
    &&& long.arena.len() == strings + short.arena.len()
    &&& long.headers == before + short.headers
}

proof fn lemma_continuation_shifted(
    a: Seq<u8>,
    b: Seq<u8>,
    pos: nat,
    value: nat,
    weight: nat,
    left: nat,
)
    ensures
        ({
            let short = integer::continuation(b, pos, value, weight, left);
            let long = integer::continuation(a + b, a.len() + pos, value, weight, left);
            long.result == short.result && long.pos == a.len() + short.pos
        }),
    decreases left,
{
    if left > 0 && pos < b.len() && b[pos as int] >= 128 {
        let byte = b[pos as int] as nat;
        lemma_continuation_shifted(
            a,
            b,
            pos + 1,
            value + (byte % 128) * weight,
            weight * 128,
            (left - 1) as nat,
        );
    }
}

/// Bytes that come before an integer do not matter to it.
pub proof fn law_integer_shifted(a: Seq<u8>, b: Seq<u8>, pos: nat, prefix: nat)
    ensures
        ({
            let short = integer::integer(b, pos, prefix);
            let long = integer::integer(a + b, a.len() + pos, prefix);
            long.result == short.result && long.pos == a.len() + short.pos
        }),
{
    if pos < b.len() {
        let value = b[pos as int] as nat % vstd::arithmetic::power2::pow2(prefix);
        lemma_continuation_shifted(a, b, pos + 1, value, 1, 4);
    }
}

/// Bytes that come before a string do not matter to it.
pub proof fn law_string_shifted(a: Seq<u8>, b: Seq<u8>, pos: nat)
    ensures
        ({
            let short = block::string(b, pos);
            let long = block::string(a + b, a.len() + pos);
            &&& long.result == short.result
            &&& long.pos == a.len() + short.pos
            &&& long.room == short.room
            &&& long.written == short.written
        }),
{
    law_integer_shifted(a, b, pos, 7);
    if pos < b.len() {
        let size = integer::integer(b, pos, 7);
        if let Ok(len) = size.result {
            if size.pos + len <= b.len() {
                let from = (a.len() + size.pos) as int;
                assert((a + b).subrange(from, from + len) =~= b.subrange(
                    size.pos as int,
                    (size.pos + len) as int,
                ));
            }
        }
    }
}

/// What is found again of a string that starts below 2^32 does not depend on where
/// it stands.
proof fn lemma_kept_low(before: Seq<u8>, text: Seq<u8>)
    requires
        arena::is_low(before.len(), text),
    ensures
        arena::kept(before, text) == text.take((text.len() % 0x1_0000) as int),
{
    assert(arena::kept(before, text) =~= text.take((text.len() % 0x1_0000) as int));
}

proof fn lemma_with_value_highest(data: Seq<u8>, at: Progress, name: RawName, index: bool)
    ensures
        at.highest <= block::with_value(data, at, name, index).state.highest,
{
    reveal(block::with_value);
}

proof fn lemma_literal_highest(data: Seq<u8>, at: Progress, prefix: nat, index: bool)
    ensures
        at.highest <= block::literal(data, at, prefix, index).state.highest,
{
    reveal(block::literal);
    let place = integer::integer(data, at.pos, prefix);
    if let Ok(idx) = place.result {
        let after = Progress { pos: place.pos, ..at };
        if idx == 0 {
            let read = block::string(data, place.pos);
            if let Ok(text) = read.result {
                lemma_with_value_highest(
                    data,
                    after.read_string(read),
                    RawName::Text(arena::kept(at.arena, text)),
                    index,
                );
            }
        } else if idx <= static_table::STATIC_LEN {
            lemma_with_value_highest(data, after, RawName::Static(idx as int), index);
        } else if idx - static_table::FIRST_DYNAMIC < at.table.entries.len() {
            let text = at.table.entries[idx - static_table::FIRST_DYNAMIC].name;
            lemma_with_value_highest(
                data,
                after.written(text),
                RawName::Text(arena::kept(at.arena, text)),
                index,
            );
        }
    }
}

proof fn lemma_representation_highest(data: Seq<u8>, at: Progress, limit: nat)
    ensures
        at.highest <= block::representation(data, at, limit).state.highest,
{
    reveal(block::representation);
    let header = Progress { can_resize: false, ..at };
    lemma_literal_highest(data, header, 6, true);
    lemma_literal_highest(data, header, 4, false);
}

proof fn lemma_block_highest(data: Seq<u8>, at: Progress, limit: nat)
    requires
        at.pos <= data.len(),
    ensures
        at.highest <= block::block(data, at, limit).state.highest,
    decreases data.len() - at.pos,
{
    if at.pos < data.len() {
        lemma_representation_highest(data, at, limit);
        block::lemma_representation(data, at, limit);
        let next = block::representation(data, at, limit);
        if next.result is Ok {
            lemma_block_highest(data, next.state, limit);
        }
    }
}

proof fn lemma_with_value_shifted(
    a: Seq<u8>,
    b: Seq<u8>,
    short: Progress,
    long: Progress,
    strings: nat,
    before: Seq<RawHeader>,
    name: RawName,
    index: bool,
)
    requires
        shifted(short, long, a.len(), strings, before),
        block::with_value(a + b, long, name, index).state.highest < arena::OFFSETS,
    ensures
        ({
            let x = block::with_value(b, short, name, index);
            let y = block::with_value(a + b, long, name, index);
            x.result == y.result && shifted(x.state, y.state, a.len(), strings, before)
        }),
{
    reveal(block::with_value);
    law_string_shifted(a, b, short.pos);
    let x = block::with_value(b, short, name, index);
    let y = block::with_value(a + b, long, name, index);
    let read = block::string(b, short.pos);
    if let Ok(text) = read.result {
        lemma_kept_low(short.arena, text);
        lemma_kept_low(long.arena, text);
        let value = arena::kept(short.arena, text);
        assert(before + short.headers.push(name.with(value)) =~= (before + short.headers).push(
            name.with(value),
        ));
    }
}

proof fn lemma_literal_shifted(
    a: Seq<u8>,
    b: Seq<u8>,
    short: Progress,
    long: Progress,
    strings: nat,
    before: Seq<RawHeader>,
    prefix: nat,
    index: bool,
)
    requires
        shifted(short, long, a.len(), strings, before),
        block::literal(a + b, long, prefix, index).state.highest < arena::OFFSETS,
    ensures
        ({
            let x = block::literal(b, short, prefix, index);
            let y = block::literal(a + b, long, prefix, index);
            x.result == y.result && shifted(x.state, y.state, a.len(), strings, before)
        }),
{
    reveal(block::literal);
    law_integer_shifted(a, b, short.pos, prefix);
    let place = integer::integer(b, short.pos, prefix);
    if let Ok(idx) = place.result {
        let s = Progress { pos: place.pos, ..short };
        let l = Progress { pos: a.len() + place.pos, ..long };
        if idx == 0 {
            law_string_shifted(a, b, place.pos);
            let read = block::string(b, place.pos);
            let far = block::string(a + b, a.len() + place.pos);
            if let Ok(text) = read.result {
                let name = RawName::Text(arena::kept(long.arena, text));
                lemma_with_value_highest(a + b, l.read_string(far), name, index);
                lemma_kept_low(short.arena, text);
                lemma_kept_low(long.arena, text);
                lemma_with_value_shifted(
                    a,
                    b,
                    s.read_string(read),
                    l.read_string(far),
                    strings,
                    before,
                    name,
                    index,
                );
            }
        } else if idx <= static_table::STATIC_LEN {
            lemma_with_value_shifted(
                a,
                b,
                s,
                l,
                strings,
                before,
                RawName::Static(idx as int),
                index,
            );
        } else if idx - static_table::FIRST_DYNAMIC < short.table.entries.len() {
            let text = short.table.entries[idx - static_table::FIRST_DYNAMIC].name;
            let name = RawName::Text(arena::kept(long.arena, text));
            lemma_with_value_highest(a + b, l.written(text), name, index);
            lemma_kept_low(short.arena, text);
            lemma_kept_low(long.arena, text);
            lemma_with_value_shifted(
                a,
                b,
                s.written(text),
                l.written(text),
                strings,
                before,
                name,
                index,
            );
        }
    }
}

proof fn lemma_indexed_shifted(
    short: Progress,
    long: Progress,
    len: nat,
    strings: nat,
    before: Seq<RawHeader>,
    index: nat,
)
    requires
        shifted(short, long, len, strings, before),
        block::indexed(long, index).state.highest < arena::OFFSETS,
    ensures
        ({
            let x = block::indexed(short, index);
            let y = block::indexed(long, index);
            x.result == y.result && shifted(x.state, y.state, len, strings, before)
        }),
{
    let x = block::indexed(short, index);
    let y = block::indexed(long, index);
    if index > static_table::STATIC_LEN && index - static_table::FIRST_DYNAMIC
        < short.table.entries.len() {
        let entry = short.table.entries[index - static_table::FIRST_DYNAMIC];
        lemma_kept_low(short.arena, entry.name);
        lemma_kept_low(long.arena, entry.name);
        lemma_kept_low(short.arena + entry.name, entry.value);
        lemma_kept_low(long.arena + entry.name, entry.value);
    }
    assert(y.state.headers =~= before + x.state.headers);
}

proof fn lemma_representation_shifted(
    a: Seq<u8>,
    b: Seq<u8>,
    short: Progress,
    long: Progress,
    strings: nat,
    before: Seq<RawHeader>,
    x_limit: nat,
    y_limit: nat,
)
    requires
        short.pos < b.len(),
        shifted(short, long, a.len(), strings, before),
        !(32 <= b[short.pos as int] < 64),
        block::representation(a + b, long, y_limit).state.highest < arena::OFFSETS,
    ensures
        ({
            let x = block::representation(b, short, x_limit);
            let y = block::representation(a + b, long, y_limit);
            x.result == y.result && shifted(x.state, y.state, a.len(), strings, before)
        }),
{
    reveal(block::representation);
    let s = Progress { can_resize: false, ..short };
    let l = Progress { can_resize: false, ..long };
    let byte = b[short.pos as int];
    assert((a + b)[long.pos as int] == byte);
    if byte >= 128 {
        law_integer_shifted(a, b, short.pos, 7);
        let place = integer::integer(b, short.pos, 7);
        if let Ok(idx) = place.result {
            lemma_indexed_shifted(
                Progress { pos: place.pos, ..s },
                Progress { pos: a.len() + place.pos, ..l },
                a.len(),
                strings,
                before,
                idx,
            );
        }
    } else if byte >= 64 {
        lemma_literal_shifted(a, b, s, l, strings, before, 6, true);
    } else {
        lemma_literal_shifted(a, b, s, l, strings, before, 4, false);
    }
}

proof fn lemma_block_shifted(
    a: Seq<u8>,
    b: Seq<u8>,
    short: Progress,
    long: Progress,
    strings: nat,
    before: Seq<RawHeader>,
    x_limit: nat,
    y_limit: nat,
)
    requires
        short.pos <= b.len(),
        shifted(short, long, a.len(), strings, before),
        no_update(b, short, x_limit),
        block::block(a + b, long, y_limit).state.highest < arena::OFFSETS,
    ensures
        ({
            let x = block::block(b, short, x_limit);
            let y = block::block(a + b, long, y_limit);
            x.result == y.result && shifted(x.state, y.state, a.len(), strings, before)
        }),
    decreases b.len() - short.pos,
{
    if short.pos < b.len() {
        let x = block::representation(b, short, x_limit);
        let y = block::representation(a + b, long, y_limit);
        block::lemma_representation(b, short, x_limit);
        block::lemma_representation(a + b, long, y_limit);
        if y.result is Ok {
            lemma_block_highest(a + b, y.state, y_limit);
        }
        lemma_representation_shifted(a, b, short, long, strings, before, x_limit, y_limit);
        if x.result is Ok {
            lemma_block_shifted(a, b, x.state, y.state, strings, before, x_limit, y_limit);
        }
    }
}

/// Two deliveries, one after the other; the second does not come about if the
/// first ends with an error.
pub open spec fn joined(
    first: (Seq<HeaderView>, Result<(), DecoderError>),
    second: (Seq<HeaderView>, Result<(), DecoderError>),
) -> (Seq<HeaderView>, Result<(), DecoderError>) {
    if first.1 is Err {
        first
    } else {
        (first.0 + second.0, second.1)
    }
}

/// Headers that are delivered together are delivered as in two parts.
pub proof fn law_delivered_joined(a: Seq<RawHeader>, b: Seq<RawHeader>)
    ensures
        block::delivered(a + b) == joined(block::delivered(a), block::delivered(b)),
    decreases b.len(),
{
    if b.len() == 0 {
        assert(a + b =~= a);
        assert(block::delivered(a).0 + block::delivered(b).0 =~= block::delivered(a).0);
    } else {
        assert((a + b).drop_last() =~= a + b.drop_last());
        law_delivered_joined(a, b.drop_last());
        if let Ok(header) = b.last().made() {
            assert((block::delivered(a).0 + block::delivered(b.drop_last()).0).push(header)
                =~= block::delivered(a).0 + block::delivered(b.drop_last()).0.push(header));
        }
    }
}

/// Decoding one block and then another, which holds no size update, comes to the
/// same as decoding both as one block: the same state, the same end, and the same
/// headers, if the second block can be read. No string of the one block may start at
/// 2^32 or beyond, where offsets of 32 bits do not reach.
pub proof fn law_blocks_joined(state: State, a: Seq<u8>, b: Seq<u8>)
    requires
        state.read(a).result is Ok,
        no_update(
            b,
            Progress::start(state.after(a).table),
            state.after(a).next_limit(),
        ),
        state.read(a + b).state.highest < arena::OFFSETS,
    ensures
        state.after(a + b) == state.after(a).after(b),
        state.read(a + b).result == state.after(a).read(b).result,
        state.after(a).read(b).result is Ok ==> state.outcome(a + b) == joined(
            state.outcome(a),
            state.after(a).outcome(b),
        ),
{
    let limit = state.next_limit();
    let start = Progress::start(state.table);
    let first = state.read(a).state;
    let later = state.after(a);
    reading::law_block_continues(a, b, start, limit);
    let short = Progress::start(later.table);
    assert(first.headers + short.headers =~= first.headers);
    lemma_block_shifted(
        a,
        b,
        short,
        first,
        first.arena.len(),
        first.headers,
        later.next_limit(),
        limit,
    );
    law_delivered_joined(first.headers, later.read(b).state.headers);
}

} // verus!
