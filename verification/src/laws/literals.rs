//! Literal headers of all three forms are read back: those that are entered into the
//! dynamic table, those that are not, and those that never are to be.
use crate::arena;
use crate::arena::RawHeader;
use crate::block;
use crate::block::{Progress, RawName};
use crate::fast_decoder::State;
use crate::headers;
use crate::laws::huffman;
use crate::laws::wire;
use crate::static_table;
use vstd::arithmetic::power2::*;
use vstd::prelude::*;

verus! {

/// The index of a literal's name has `prefix` bits, below the bits `top`: six below
/// `01` in a literal that is entered into the table, four below `0000` in one that is
/// not, and four below `0001` in one that never is to be.
pub open spec fn is_form(prefix: nat, top: u8) -> bool {
    ||| prefix == 6 && top == 64
    ||| prefix == 4 && top == 0
    ||| prefix == 4 && top == 16
}

/// The first byte of a literal tells its form.
proof fn lemma_first_byte(data: Seq<u8>, pos: nat, idx: nat, prefix: nat, top: u8)
    requires
        is_form(prefix, top),
        wire::stands_at(data, pos, wire::integer_wire(idx, prefix, top)),
    ensures
        prefix == 6 ==> 64 <= data[pos as int] < 128,
        prefix == 4 ==> data[pos as int] < 32,
        wire::integer_wire(idx, prefix, top).len() > 0,
{
    lemma2_to64();
    let first = wire::integer_wire(idx, prefix, top);
    assert(data.subrange(pos as int, (pos + first.len()) as int)[0] == data[pos as int]);
}

/// A literal header with a name of its own is read back in every form, its strings as
/// they are or Huffman-coded. The form with six bits alone is entered into the table.
#[verifier::spinoff_prover]
#[verifier::rlimit(40)]
pub proof fn law_new_name(
    data: Seq<u8>,
    at: Progress,
    limit: nat,
    name: Seq<u8>,
    value: Seq<u8>,
    prefix: nat,
    top: u8,
    name_huff: bool,
    value_huff: bool,
)
    requires
        is_form(prefix, top),
        name.len() < 65536,
        value.len() < 65536,
        at.arena.len() + name.len() < 4294967296,
        wire::stands_at(
            data,
            at.pos,
            wire::integer_wire(0, prefix, top) + wire::string_wire(name, name_huff)
                + wire::string_wire(value, value_huff),
        ),
    ensures
        ({
            let next = block::representation(data, at, limit);
            &&& next.result is Ok
            &&& next.state.pos == at.pos + wire::integer_wire(0, prefix, top).len()
                + wire::string_wire(name, name_huff).len() + wire::string_wire(
                value,
                value_huff,
            ).len()
            &&& next.state.headers == at.headers.push(RawHeader::Literal { name, value })
            &&& next.state.arena == at.arena + name + value
            &&& prefix == 6 ==> next.state.table == at.table.inserted(name, value)
            &&& prefix == 4 ==> next.state.table == at.table
        }),
{
    reveal(block::representation);
    reveal(block::literal);
    lemma2_to64();
    let first = wire::integer_wire(0, prefix, top);
    let name_wire = wire::string_wire(name, name_huff);
    let value_wire = wire::string_wire(value, value_huff);
    wire::lemma_stands_parts(data, at.pos, first + name_wire, value_wire);
    wire::lemma_stands_parts(data, at.pos, first, name_wire);
    lemma_first_byte(data, at.pos, 0, prefix, top);
    wire::law_integer_read_back(data, at.pos, 0, prefix, top);
    huffman::law_expansion(name);
    wire::law_string_read_back(data, at.pos + first.len(), name, name_huff);
    arena::law_kept_whole(at.arena, name);
    let after = Progress { pos: at.pos + first.len(), can_resize: false, ..at };
    let named = after.read_string(block::string(data, after.pos));
    wire::lemma_value_read_back(data, named, RawName::Text(name), value, prefix == 6, value_huff);
}

/// A literal header with a name of the static table is read back in every form.
#[verifier::spinoff_prover]
#[verifier::rlimit(40)]
pub proof fn law_static_name(
    data: Seq<u8>,
    at: Progress,
    limit: nat,
    idx: nat,
    value: Seq<u8>,
    prefix: nat,
    top: u8,
    huff: bool,
)
    requires
        is_form(prefix, top),
        1 <= idx <= 61,
        value.len() < 65536,
        at.arena.len() < 4294967296,
        wire::stands_at(
            data,
            at.pos,
            wire::integer_wire(idx, prefix, top) + wire::string_wire(value, huff),
        ),
    ensures
        ({
            let next = block::representation(data, at, limit);
            &&& next.result is Ok
            &&& next.state.pos == at.pos + wire::integer_wire(idx, prefix, top).len()
                + wire::string_wire(value, huff).len()
            &&& next.state.headers == at.headers.push(RawHeader::Named { idx: idx as int, value })
            &&& next.state.arena == at.arena + value
            &&& prefix == 6 ==> next.state.table == at.table.inserted(
                static_table::static_name(idx as int),
                value,
            )
            &&& prefix == 4 ==> next.state.table == at.table
        }),
{
    reveal(block::representation);
    reveal(block::literal);
    lemma2_to64();
    let first = wire::integer_wire(idx, prefix, top);
    wire::lemma_stands_parts(data, at.pos, first, wire::string_wire(value, huff));
    lemma_first_byte(data, at.pos, idx, prefix, top);
    wire::law_integer_read_back(data, at.pos, idx, prefix, top);
    let after = Progress { pos: at.pos + first.len(), can_resize: false, ..at };
    wire::lemma_value_read_back(
        data,
        after,
        RawName::Static(idx as int),
        value,
        prefix == 6,
        huff,
    );
}

/// A literal header with a name of the dynamic table is read back in every form: its
/// name is that of the entry at `i`, where the newest entry is at 0.
#[verifier::spinoff_prover]
#[verifier::rlimit(40)]
pub proof fn law_dynamic_name(
    data: Seq<u8>,
    at: Progress,
    limit: nat,
    i: nat,
    value: Seq<u8>,
    prefix: nat,
    top: u8,
    huff: bool,
)
    requires
        is_form(prefix, top),
        i < at.table.entries.len(),
        62 + i < (if prefix == 6 {
            63nat
        } else {
            15nat
        }) + 0x1000_0000,
        at.table.entries[i as int].name.len() < 65536,
        value.len() < 65536,
        at.arena.len() + at.table.entries[i as int].name.len() < 4294967296,
        wire::stands_at(
            data,
            at.pos,
            wire::integer_wire(62 + i, prefix, top) + wire::string_wire(value, huff),
        ),
    ensures
        ({
            let next = block::representation(data, at, limit);
            let name = at.table.entries[i as int].name;
            &&& next.result is Ok
            &&& next.state.pos == at.pos + wire::integer_wire(62 + i, prefix, top).len()
                + wire::string_wire(value, huff).len()
            &&& next.state.headers == at.headers.push(RawHeader::Literal { name, value })
            &&& next.state.arena == at.arena + name + value
            &&& next.state.table == wire::entered_into(at.table, name, value, prefix == 6)
            &&& prefix == 6 ==> next.state.table == at.table.inserted(name, value)
            &&& prefix == 4 ==> next.state.table == at.table
        }),
{
    reveal(block::representation);
    reveal(block::literal);
    lemma2_to64();
    let name = at.table.entries[i as int].name;
    let first = wire::integer_wire(62 + i, prefix, top);
    wire::lemma_stands_parts(data, at.pos, first, wire::string_wire(value, huff));
    lemma_first_byte(data, at.pos, 62 + i, prefix, top);
    wire::law_integer_read_back(data, at.pos, 62 + i, prefix, top);
    arena::law_kept_whole(at.arena, name);
    let after = Progress { pos: at.pos + first.len(), can_resize: false, ..at };
    wire::lemma_value_read_back(
        data,
        after.written(name),
        RawName::Text(name),
        value,
        prefix == 6,
        huff,
    );
}

/// A block of one representation delivers the header that it is.
proof fn lemma_one(state: State, data: Seq<u8>, header: RawHeader)
    requires
        data.len() > 0,
        ({
            let next = block::representation(
                data,
                Progress::start(state.table),
                state.next_limit(),
            );
            &&& next.result is Ok
            &&& next.state.pos == data.len()
            &&& next.state.headers == Seq::<RawHeader>::empty().push(header)
        }),
    ensures
        state.outcome(data) == wire::single(header.made()),
        state.after(data).table == block::representation(
            data,
            Progress::start(state.table),
            state.next_limit(),
        ).state.table,
{
    reveal_with_fuel(block::block, 2);
    assert(Seq::<RawHeader>::empty().push(header) =~= seq![header]);
    wire::lemma_single(header);
}

/// A block of one literal header with a name of its own delivers the header with that
/// name and that value, whatever the form. The form decides only whether it is
/// entered.
pub proof fn law_new_name_block(
    state: State,
    name: Seq<u8>,
    value: Seq<u8>,
    prefix: nat,
    top: u8,
    name_huff: bool,
    value_huff: bool,
)
    requires
        is_form(prefix, top),
        name.len() < 65536,
        value.len() < 65536,
    ensures
        ({
            let data = wire::integer_wire(0, prefix, top) + wire::string_wire(name, name_huff)
                + wire::string_wire(value, value_huff);
            &&& state.outcome(data) == wire::single(headers::header_of(name, value))
            &&& prefix == 6 ==> state.after(data).table == state.table.inserted(name, value)
            &&& prefix == 4 ==> state.after(data).table == state.table
        }),
{
    let data = wire::integer_wire(0, prefix, top) + wire::string_wire(name, name_huff)
        + wire::string_wire(value, value_huff);
    let at = Progress::start(state.table);
    assert(data.subrange(0, data.len() as int) =~= data);
    wire::lemma_stands_parts(
        data,
        0,
        wire::integer_wire(0, prefix, top) + wire::string_wire(name, name_huff),
        wire::string_wire(value, value_huff),
    );
    wire::lemma_stands_parts(
        data,
        0,
        wire::integer_wire(0, prefix, top),
        wire::string_wire(name, name_huff),
    );
    lemma_first_byte(data, 0, 0, prefix, top);
    law_new_name(
        data,
        at,
        state.next_limit(),
        name,
        value,
        prefix,
        top,
        name_huff,
        value_huff,
    );
    lemma_one(state, data, RawHeader::Literal { name, value });
}

/// A block of one literal header with a name of the static table.
pub proof fn law_static_name_block(
    state: State,
    idx: nat,
    value: Seq<u8>,
    prefix: nat,
    top: u8,
    huff: bool,
)
    requires
        is_form(prefix, top),
        1 <= idx <= 61,
        value.len() < 65536,
    ensures
        ({
            let data = wire::integer_wire(idx, prefix, top) + wire::string_wire(value, huff);
            &&& state.outcome(data) == wire::single(headers::static_header(idx as int, value))
            &&& prefix == 6 ==> state.after(data).table == state.table.inserted(
                static_table::static_name(idx as int),
                value,
            )
            &&& prefix == 4 ==> state.after(data).table == state.table
        }),
{
    let data = wire::integer_wire(idx, prefix, top) + wire::string_wire(value, huff);
    let at = Progress::start(state.table);
    assert(data.subrange(0, data.len() as int) =~= data);
    wire::lemma_stands_parts(
        data,
        0,
        wire::integer_wire(idx, prefix, top),
        wire::string_wire(value, huff),
    );
    lemma_first_byte(data, 0, idx, prefix, top);
    law_static_name(data, at, state.next_limit(), idx, value, prefix, top, huff);
    lemma_one(state, data, RawHeader::Named { idx: idx as int, value });
}

/// A block of one literal header with a name of the dynamic table delivers the header
/// with the name of that entry.
pub proof fn law_dynamic_name_block(
    state: State,
    i: nat,
    value: Seq<u8>,
    prefix: nat,
    top: u8,
    huff: bool,
)
    requires
        is_form(prefix, top),
        i < state.table.entries.len(),
        62 + i < (if prefix == 6 {
            63nat
        } else {
            15nat
        }) + 0x1000_0000,
        state.table.entries[i as int].name.len() < 65536,
        value.len() < 65536,
    ensures
        ({
            let data = wire::integer_wire(62 + i, prefix, top) + wire::string_wire(value, huff);
            let name = state.table.entries[i as int].name;
            &&& state.outcome(data) == wire::single(headers::header_of(name, value))
            &&& prefix == 6 ==> state.after(data).table == state.table.inserted(name, value)
            &&& prefix == 4 ==> state.after(data).table == state.table
        }),
{
    let data = wire::integer_wire(62 + i, prefix, top) + wire::string_wire(value, huff);
    let at = Progress::start(state.table);
    let name = state.table.entries[i as int].name;
    assert(data.subrange(0, data.len() as int) =~= data);
    wire::lemma_stands_parts(
        data,
        0,
        wire::integer_wire(62 + i, prefix, top),
        wire::string_wire(value, huff),
    );
    lemma_first_byte(data, 0, 62 + i, prefix, top);
    law_dynamic_name(data, at, state.next_limit(), i, value, prefix, top, huff);
    lemma_one(state, data, RawHeader::Literal { name, value });
}

} // verus!
