//! What is written down in the form of a block is read back.
use crate::arena;
use crate::arena::RawHeader;
use crate::block;
use crate::block::{Progress, RawName};
use crate::dyn_table::Table;
use crate::error::DecoderError;
use crate::fast_decoder::State;
use crate::headers;
use crate::headers::HeaderView;
use crate::huffman::code;
use crate::integer;
use crate::laws::huffman;
use crate::laws::table;
use crate::static_table;
use vstd::arithmetic::power2::*;
use vstd::prelude::*;

verus! {

/// `wire` stands in `data` at `pos`.
pub open spec fn stands_at(data: Seq<u8>, pos: nat, wire: Seq<u8>) -> bool {
    &&& pos + wire.len() <= data.len()
    &&& data.subrange(pos as int, (pos + wire.len()) as int) == wire
}

pub proof fn lemma_stands_parts(data: Seq<u8>, pos: nat, a: Seq<u8>, b: Seq<u8>)
    requires
        stands_at(data, pos, a + b),
    ensures
        stands_at(data, pos, a),
        stands_at(data, pos + a.len(), b),
{
    let whole = data.subrange(pos as int, (pos + (a + b).len()) as int);
    assert(whole.take(a.len() as int) =~= a);
    assert(whole.skip(a.len() as int) =~= b);
    assert(data.subrange(pos as int, (pos + a.len()) as int) =~= whole.take(a.len() as int));
    assert(data.subrange((pos + a.len()) as int, (pos + a.len() + b.len()) as int) =~= whole.skip(
        a.len() as int,
    ));
}

/// A number in groups of seven bits, the lowest first; all but the last byte have
/// the high bit.
pub open spec fn groups(value: nat) -> Seq<u8>
    decreases value,
{
    if value < 128 {
        seq![value as u8]
    } else {
        seq![(128 + value % 128) as u8] + groups(value / 128)
    }
}

/// An integer with a prefix of `prefix` bits, under the bits of `top`.
pub open spec fn integer_wire(value: nat, prefix: nat, top: u8) -> Seq<u8> {
    let most = (pow2(prefix) - 1) as nat;
    if value < most {
        seq![(top + value) as u8]
    } else {
        seq![(top + most) as u8] + groups((value - most) as nat)
    }
}

proof fn lemma_groups_len(value: nat)
    requires
        value < 0x1000_0000,
    ensures
        1 <= groups(value).len() <= 4,
{
    reveal_with_fuel(groups, 4);
}

proof fn lemma_groups_read(
    data: Seq<u8>,
    pos: nat,
    number: nat,
    value: nat,
    weight: nat,
    left: nat,
)
    requires
        stands_at(data, pos, groups(number)),
        groups(number).len() <= left,
    ensures
        integer::continuation(data, pos, value, weight, left) == (integer::IntegerRead {
            result: Ok(value + number * weight),
            pos: pos + groups(number).len(),
        }),
    decreases number,
{
    let wire = groups(number);
    assert(data[pos as int] == data.subrange(pos as int, (pos + wire.len()) as int)[0]);
    if number >= 128 {
        let b = seq![(128 + number % 128) as u8];
        lemma_stands_parts(data, pos, b, groups(number / 128));
        lemma_groups_read(
            data,
            pos + 1,
            number / 128,
            value + (number % 128) * weight,
            weight * 128,
            (left - 1) as nat,
        );
        assert((number % 128) * weight + (number / 128) * (weight * 128) == number * weight)
            by (nonlinear_arith)
            requires
                number == 128 * (number / 128) + number % 128,
        ;
    }
}

/// Integers are read back, if they are less than 2^28 beyond their prefix.
#[verifier::spinoff_prover]
#[verifier::rlimit(40)]
pub proof fn law_integer_read_back(data: Seq<u8>, pos: nat, value: nat, prefix: nat, top: u8)
    requires
        1 <= prefix <= 8,
        top as nat % pow2(prefix) == 0,
        value < pow2(prefix) - 1 + 0x1000_0000,
        stands_at(data, pos, integer_wire(value, prefix, top)),
    ensures
        integer::integer(data, pos, prefix) == (integer::IntegerRead {
            result: Ok(value),
            pos: pos + integer_wire(value, prefix, top).len(),
        }),
        integer_wire(value, prefix, top).len() >= 1,
        top <= data[pos as int] < top + pow2(prefix),
{
    lemma2_to64();
    lemma_pow2_pos(prefix);
    let p = pow2(prefix);
    let most = (p - 1) as nat;
    let wire = integer_wire(value, prefix, top);
    let low = if value < most {
        value
    } else {
        most
    };
    lemma_top(top, prefix);
    assert(wire[0] == (top + low) as u8);
    assert(data[pos as int] == data.subrange(pos as int, (pos + wire.len()) as int)[0]);
    assert((top + low) as int % p as int == low as int) by {
        vstd::arithmetic::div_mod::lemma_fundamental_div_mod(top as int, p as int);
        let q = top as int / p as int;
        assert(p as int * q == q * p as int) by (nonlinear_arith);
        vstd::arithmetic::div_mod::lemma_fundamental_div_mod_converse_mod(
            (top + low) as int,
            p as int,
            q,
            low as int,
        );
    }
    if value >= most {
        let number = (value - most) as nat;
        lemma_groups_len(number);
        lemma_stands_parts(data, pos, seq![(top + most) as u8], groups(number));
        lemma_groups_read(data, pos + 1, number, most, 1, 4);
    }
}

/// The bits above a prefix leave room for it.
proof fn lemma_top(top: u8, prefix: nat)
    requires
        1 <= prefix <= 8,
        top as nat % pow2(prefix) == 0,
    ensures
        top + pow2(prefix) <= 256,
{
    lemma2_to64();
    lemma_pow2_pos(prefix);
    lemma_pow2_adds(prefix, (8 - prefix) as nat);
    let p = pow2(prefix) as int;
    let m = pow2((8 - prefix) as nat) as int;
    vstd::arithmetic::div_mod::lemma_fundamental_div_mod(top as int, p);
    let q = top as int / p;
    assert(p * q + p <= p * m) by (nonlinear_arith)
        requires
            p > 0,
            p * q < p * m,
    ;
}

/// The bytes that a string is written as.
pub open spec fn string_body(text: Seq<u8>, huff: bool) -> Seq<u8> {
    if huff {
        code::encoding(text)
    } else {
        text
    }
}

/// A string, as it is or Huffman-coded.
pub open spec fn string_wire(text: Seq<u8>, huff: bool) -> Seq<u8> {
    let top = if huff {
        128u8
    } else {
        0u8
    };
    integer_wire(string_body(text, huff).len(), 7, top) + string_body(text, huff)
}

/// Strings are read back, as they are or Huffman-coded.
pub proof fn law_string_read_back(data: Seq<u8>, pos: nat, text: Seq<u8>, huff: bool)
    requires
        string_body(text, huff).len() < 127 + 0x1000_0000,
        stands_at(data, pos, string_wire(text, huff)),
    ensures
        block::string(data, pos).result == Ok::<Seq<u8>, DecoderError>(text),
        block::string(data, pos).written == text,
        block::string(data, pos).pos == pos + string_wire(text, huff).len(),
{
    lemma2_to64();
    let body = string_body(text, huff);
    let top: u8 = if huff {
        128
    } else {
        0
    };
    let size = integer_wire(body.len(), 7, top);
    lemma_stands_parts(data, pos, size, body);
    law_integer_read_back(data, pos, body.len(), 7, top);
    if huff {
        huffman::law_slice_encode(text);
    }
}

/// A literal header with a new name. It is to be entered into the dynamic table if
/// `entered`.
pub open spec fn literal_wire(name: Seq<u8>, value: Seq<u8>, entered: bool, huff: bool) -> Seq<u8> {
    let first = if entered {
        integer_wire(0, 6, 64)
    } else {
        integer_wire(0, 4, 0)
    };
    first + string_wire(name, huff) + string_wire(value, huff)
}

/// A literal header whose name is at `idx` of the static table.
pub open spec fn named_wire(idx: nat, value: Seq<u8>, entered: bool, huff: bool) -> Seq<u8> {
    let first = if entered {
        integer_wire(idx, 6, 64)
    } else {
        integer_wire(idx, 4, 0)
    };
    first + string_wire(value, huff)
}

/// The table after a field has been read, and entered if `entered`.
pub open spec fn entered_into(
    before: Table,
    name: Seq<u8>,
    value: Seq<u8>,
    entered: bool,
) -> Table {
    if entered {
        before.inserted(name, value)
    } else {
        before
    }
}

/// A state after a header has been read: everything but how much room that took.
pub open spec fn has_read(
    at: Progress,
    next: Progress,
    len: nat,
    table: Table,
    strings: Seq<u8>,
    header: RawHeader,
) -> bool {
    &&& next.pos == at.pos + len
    &&& next.table == table
    &&& next.arena == at.arena + strings
    &&& next.headers == at.headers.push(header)
    &&& !next.can_resize
}

/// The value of a literal header is read back.
pub proof fn lemma_value_read_back(
    data: Seq<u8>,
    at: Progress,
    name: RawName,
    value: Seq<u8>,
    entered: bool,
    huff: bool,
)
    requires
        value.len() < 0x1_0000,
        arena::is_low(at.arena.len(), value),
        !at.can_resize,
        stands_at(data, at.pos, string_wire(value, huff)),
    ensures
        ({
            let next = block::with_value(data, at, name, entered);
            &&& next.result is Ok
            &&& has_read(
                at,
                next.state,
                string_wire(value, huff).len(),
                entered_into(at.table, name.bytes(), value, entered),
                value,
                name.with(value),
            )
        }),
{
    reveal(block::with_value);
    huffman::law_expansion(value);
    law_string_read_back(data, at.pos, value, huff);
    arena::law_kept_whole(at.arena, value);
}

/// A literal header is read back, with its name and its value.
#[verifier::spinoff_prover]
#[verifier::rlimit(40)]
pub proof fn law_literal_read_back(
    data: Seq<u8>,
    at: Progress,
    limit: nat,
    name: Seq<u8>,
    value: Seq<u8>,
    entered: bool,
    huff: bool,
)
    requires
        name.len() < 0x1_0000,
        value.len() < 0x1_0000,
        arena::is_low(at.arena.len(), name),
        arena::is_low(at.arena.len() + name.len(), value),
        stands_at(data, at.pos, literal_wire(name, value, entered, huff)),
    ensures
        ({
            let next = block::representation(data, at, limit);
            &&& next.result is Ok
            &&& has_read(
                at,
                next.state,
                literal_wire(name, value, entered, huff).len(),
                entered_into(at.table, name, value, entered),
                name + value,
                RawHeader::Literal { name, value },
            )
        }),
{
    reveal(block::representation);
    reveal(block::literal);
    lemma2_to64();
    let prefix: nat = if entered {
        6
    } else {
        4
    };
    let top: u8 = if entered {
        64
    } else {
        0
    };
    let first = integer_wire(0, prefix, top);
    let name_wire = string_wire(name, huff);
    let value_wire = string_wire(value, huff);
    lemma_stands_parts(data, at.pos, first + name_wire, value_wire);
    lemma_stands_parts(data, at.pos, first, name_wire);
    law_integer_read_back(data, at.pos, 0, prefix, top);
    huffman::law_expansion(name);
    law_string_read_back(data, at.pos + first.len(), name, huff);
    arena::law_kept_whole(at.arena, name);
    let after = Progress { pos: at.pos + first.len(), can_resize: false, ..at };
    let named = after.read_string(block::string(data, after.pos));
    lemma_value_read_back(data, named, RawName::Text(name), value, entered, huff);
    assert(at.arena + name + value =~= at.arena + (name + value));
}

/// A literal header with a name of the static table is read back.
#[verifier::spinoff_prover]
#[verifier::rlimit(40)]
pub proof fn law_named_read_back(
    data: Seq<u8>,
    at: Progress,
    limit: nat,
    idx: nat,
    value: Seq<u8>,
    entered: bool,
    huff: bool,
)
    requires
        1 <= idx <= static_table::STATIC_LEN,
        value.len() < 0x1_0000,
        arena::is_low(at.arena.len(), value),
        stands_at(data, at.pos, named_wire(idx, value, entered, huff)),
    ensures
        ({
            let next = block::representation(data, at, limit);
            &&& next.result is Ok
            &&& has_read(
                at,
                next.state,
                named_wire(idx, value, entered, huff).len(),
                entered_into(at.table, static_table::static_name(idx as int), value, entered),
                value,
                RawHeader::Named { idx: idx as int, value },
            )
        }),
{
    reveal(block::representation);
    reveal(block::literal);
    lemma2_to64();
    let prefix: nat = if entered {
        6
    } else {
        4
    };
    let top: u8 = if entered {
        64
    } else {
        0
    };
    let first = integer_wire(idx, prefix, top);
    lemma_stands_parts(data, at.pos, first, string_wire(value, huff));
    law_integer_read_back(data, at.pos, idx, prefix, top);
    let after = Progress { pos: at.pos + first.len(), can_resize: false, ..at };
    lemma_value_read_back(data, after, RawName::Static(idx as int), value, entered, huff);
}

/// A reference to an entry of the static table is read back.
pub proof fn law_entry_read_back(data: Seq<u8>, at: Progress, limit: nat, idx: nat)
    requires
        1 <= idx <= static_table::STATIC_LEN,
        stands_at(data, at.pos, integer_wire(idx, 7, 128)),
    ensures
        ({
            let next = block::representation(data, at, limit);
            &&& next.result is Ok
            &&& has_read(
                at,
                next.state,
                1,
                at.table,
                Seq::empty(),
                RawHeader::Entry(idx as int),
            )
        }),
{
    reveal(block::representation);
    lemma2_to64();
    law_integer_read_back(data, at.pos, idx, 7, 128);
    assert(at.arena + Seq::<u8>::empty() =~= at.arena);
}

/// A reference to an entry of the dynamic table is read back: the entry at `i`,
/// newest first, has the index after those of the static table.
pub proof fn law_reference_read_back(data: Seq<u8>, at: Progress, limit: nat, i: nat)
    requires
        at.table.short(),
        i < at.table.entries.len(),
        static_table::FIRST_DYNAMIC + i < 127 + 0x1000_0000,
        ({
            let entry = at.table.entries[i as int];
            &&& arena::is_low(at.arena.len(), entry.name)
            &&& arena::is_low(at.arena.len() + entry.name.len(), entry.value)
        }),
        stands_at(data, at.pos, integer_wire(static_table::FIRST_DYNAMIC as nat + i, 7, 128)),
    ensures
        ({
            let next = block::representation(data, at, limit);
            let entry = at.table.entries[i as int];
            &&& next.result is Ok
            &&& has_read(
                at,
                next.state,
                integer_wire(static_table::FIRST_DYNAMIC as nat + i, 7, 128).len(),
                at.table,
                entry.name + entry.value,
                RawHeader::Literal { name: entry.name, value: entry.value },
            )
        }),
{
    reveal(block::representation);
    lemma2_to64();
    let entry = at.table.entries[i as int];
    law_integer_read_back(data, at.pos, static_table::FIRST_DYNAMIC as nat + i, 7, 128);
    arena::law_kept_whole(at.arena, entry.name);
    arena::law_kept_whole(at.arena + entry.name, entry.value);
    assert(at.arena + entry.name + entry.value =~= at.arena + (entry.name + entry.value));
}

/// A size update before all headers sets the table's limit, if the decoder's own
/// limit allows it, and is refused otherwise.
pub proof fn law_size_update_read_back(data: Seq<u8>, at: Progress, limit: nat, size: nat)
    requires
        at.can_resize,
        size < 31 + 0x1000_0000,
        stands_at(data, at.pos, integer_wire(size, 5, 32)),
    ensures
        ({
            let next = block::representation(data, at, limit);
            if size <= limit {
                &&& next.result is Ok
                &&& next.state == (Progress {
                    pos: at.pos + integer_wire(size, 5, 32).len(),
                    table: at.table.resized(size),
                    ..at
                })
            } else {
                next.result == Err::<(), DecoderError>(DecoderError::InvalidMaxDynamicSize)
            }
        }),
{
    reveal(block::representation);
    lemma2_to64();
    law_integer_read_back(data, at.pos, size, 5, 32);
}

/// A name and a value.
pub struct Field {
    pub name: Seq<u8>,
    pub value: Seq<u8>,
}

impl Field {
    /// Its strings have lengths of sixteen bits.
    pub open spec fn short(self) -> bool {
        self.name.len() < 0x1_0000 && self.value.len() < 0x1_0000
    }

    pub open spec fn raw(self) -> RawHeader {
        RawHeader::Literal { name: self.name, value: self.value }
    }
}

/// Fields as literal headers, one after the other.
pub open spec fn fields_wire(fields: Seq<Field>, entered: bool, huff: bool) -> Seq<u8>
    decreases fields.len(),
{
    if fields.len() == 0 {
        Seq::empty()
    } else {
        literal_wire(fields[0].name, fields[0].value, entered, huff) + fields_wire(
            fields.skip(1),
            entered,
            huff,
        )
    }
}

/// All strings start below 2^32, if the first starts at `start`.
pub open spec fn start_low(start: nat, fields: Seq<Field>) -> bool
    decreases fields.len(),
{
    fields.len() == 0 || {
        let middle = start + fields[0].name.len();
        &&& arena::is_low(start, fields[0].name)
        &&& arena::is_low(middle, fields[0].value)
        &&& start_low(middle + fields[0].value.len(), fields.skip(1))
    }
}

/// The table after fields have been read, and entered if `entered`.
pub open spec fn all_entered_into(before: Table, fields: Seq<Field>, entered: bool) -> Table
    decreases fields.len(),
{
    if fields.len() == 0 {
        before
    } else {
        all_entered_into(
            entered_into(before, fields[0].name, fields[0].value, entered),
            fields.skip(1),
            entered,
        )
    }
}

/// The headers that the fields are.
pub open spec fn raws(fields: Seq<Field>) -> Seq<RawHeader> {
    fields.map_values(|field: Field| field.raw())
}

proof fn lemma_fields_read(
    data: Seq<u8>,
    at: Progress,
    limit: nat,
    fields: Seq<Field>,
    entered: bool,
    huff: bool,
)
    requires
        forall|i: int| 0 <= i < fields.len() ==> (#[trigger] fields[i]).short(),
        start_low(at.arena.len(), fields),
        stands_at(data, at.pos, fields_wire(fields, entered, huff)),
        at.pos + fields_wire(fields, entered, huff).len() == data.len(),
    ensures
        ({
            let end = block::block(data, at, limit);
            &&& end.result is Ok
            &&& end.state.headers == at.headers + raws(fields)
            &&& end.state.table == all_entered_into(at.table, fields, entered)
        }),
    decreases fields.len(),
{
    if fields.len() == 0 {
        assert(at.headers + raws(fields) =~= at.headers);
    } else {
        let field = fields[0];
        let rest = fields.skip(1);
        let wire = literal_wire(field.name, field.value, entered, huff);
        assert(field.short());
        lemma_stands_parts(data, at.pos, wire, fields_wire(rest, entered, huff));
        law_literal_read_back(data, at, limit, field.name, field.value, entered, huff);
        lemma_wire_len(field.name, field.value, entered, huff);
        let next = block::representation(data, at, limit).state;
        assert forall|i: int| 0 <= i < rest.len() implies (#[trigger] rest[i]).short() by {
            assert(rest[i] == fields[i + 1]);
        }
        lemma_fields_read(data, next, limit, rest, entered, huff);
        assert(at.headers.push(field.raw()) + raws(rest) =~= at.headers + raws(fields));
    }
}

proof fn lemma_wire_len(name: Seq<u8>, value: Seq<u8>, entered: bool, huff: bool)
    ensures
        literal_wire(name, value, entered, huff).len() > 0,
{
    lemma2_to64();
}

/// A block of literal headers is read back: it delivers the headers with these
/// names and values, in their order, and enters them into the table if it is to.
pub proof fn law_fields_read_back(state: State, fields: Seq<Field>, entered: bool, huff: bool)
    requires
        forall|i: int| 0 <= i < fields.len() ==> (#[trigger] fields[i]).short(),
        start_low(0, fields),
    ensures
        ({
            let data = fields_wire(fields, entered, huff);
            &&& state.outcome(data) == block::delivered(raws(fields))
            &&& state.after(data).table == all_entered_into(state.table, fields, entered)
        }),
{
    let data = fields_wire(fields, entered, huff);
    let at = Progress::start(state.table);
    assert(data.subrange(0, data.len() as int) =~= data);
    lemma_fields_read(data, at, state.next_limit(), fields, entered, huff);
    assert(at.headers + raws(fields) =~= raws(fields));
}

/// What a block of one header comes to.
pub open spec fn single(made: Result<HeaderView, DecoderError>) -> (
    Seq<HeaderView>,
    Result<(), DecoderError>,
) {
    match made {
        Ok(header) => (seq![header], Ok(())),
        Err(e) => (Seq::empty(), Err(e)),
    }
}

pub proof fn lemma_single(header: RawHeader)
    ensures
        block::delivered(seq![header]) == single(header.made()),
{
    let all = seq![header];
    assert(all.drop_last() =~= Seq::<RawHeader>::empty());
    assert(block::delivered(all.drop_last()) == (Seq::<HeaderView>::empty(), Ok::<
        (),
        DecoderError,
    >(())));
    if let Ok(view) = header.made() {
        assert(Seq::<HeaderView>::empty().push(view) =~= seq![view]);
    }
}

/// A block of one representation, which is a header.
proof fn lemma_block_of_one(state: State, data: Seq<u8>, header: RawHeader)
    requires
        data.len() > 0,
        ({
            let at = Progress::start(state.table);
            let next = block::representation(data, at, state.next_limit());
            &&& next.result is Ok
            &&& next.state.pos == data.len()
            &&& next.state.table == state.table
            &&& next.state.headers == at.headers.push(header)
        }),
    ensures
        state.outcome(data) == single(header.made()),
        state.after(data).table == state.table,
{
    reveal_with_fuel(block::block, 2);
    let at = Progress::start(state.table);
    assert(at.headers.push(header) =~= seq![header]);
    lemma_single(header);
}

/// A block that refers to an entry of the static table delivers that entry and
/// changes nothing in the dynamic table.
pub proof fn law_entry_block(state: State, idx: nat)
    requires
        1 <= idx <= static_table::STATIC_LEN,
    ensures
        ({
            let data = integer_wire(idx, 7, 128);
            &&& state.outcome(data) == single(Ok(headers::static_entry(idx as int)))
            &&& state.after(data).table == state.table
        }),
{
    lemma2_to64();
    let data = integer_wire(idx, 7, 128);
    let at = Progress::start(state.table);
    assert(data.subrange(0, data.len() as int) =~= data);
    law_entry_read_back(data, at, state.next_limit(), idx);
    lemma_block_of_one(state, data, RawHeader::Entry(idx as int));
}

/// A block that refers to an entry of the dynamic table delivers the header with
/// its name and its value, and changes nothing in the table.
pub proof fn law_reference_block(state: State, i: nat)
    requires
        state.table.short(),
        i < state.table.entries.len(),
        static_table::FIRST_DYNAMIC + i < 127 + 0x1000_0000,
    ensures
        ({
            let data = integer_wire(static_table::FIRST_DYNAMIC as nat + i, 7, 128);
            let entry = state.table.entries[i as int];
            &&& state.outcome(data) == single(headers::header_of(entry.name, entry.value))
            &&& state.after(data).table == state.table
        }),
{
    lemma2_to64();
    let data = integer_wire(static_table::FIRST_DYNAMIC as nat + i, 7, 128);
    let at = Progress::start(state.table);
    let entry = state.table.entries[i as int];
    assert(data.subrange(0, data.len() as int) =~= data);
    law_reference_read_back(data, at, state.next_limit(), i);
    lemma_block_of_one(
        state,
        data,
        RawHeader::Literal { name: entry.name, value: entry.value },
    );
}

/// A block of one size update delivers nothing. It is accepted, and the table gets
/// that limit, if and only if the decoder's own limit allows it.
pub proof fn law_size_update_block(state: State, size: nat)
    requires
        size < 31 + 0x1000_0000,
    ensures
        ({
            let data = integer_wire(size, 5, 32);
            if size <= state.next_limit() {
                &&& state.outcome(data) == (Seq::<HeaderView>::empty(), Ok::<(), DecoderError>(()))
                &&& state.after(data).table == state.table.resized(size)
            } else {
                state.outcome(data) == (Seq::<HeaderView>::empty(), Err::<(), DecoderError>(
                    DecoderError::InvalidMaxDynamicSize,
                ))
            }
        }),
{
    reveal_with_fuel(block::block, 2);
    lemma2_to64();
    let data = integer_wire(size, 5, 32);
    assert(data.subrange(0, data.len() as int) =~= data);
    law_size_update_read_back(data, Progress::start(state.table), state.next_limit(), size);
}

/// A field that one block has entered, the next can refer to: it delivers the same
/// header as the first did.
pub proof fn law_entered_then_referred(state: State, field: Field, huff: bool)
    requires
        field.short(),
        state.table.short(),
        table::cost(field.name, field.value) <= state.table.max_size,
        arena::is_low(state.table.log.len(), field.name),
        arena::is_low(state.table.log.len() + field.name.len(), field.value),
    ensures
        ({
            let first = fields_wire(seq![field], true, huff);
            let second = integer_wire(static_table::FIRST_DYNAMIC as nat, 7, 128);
            let made = single(headers::header_of(field.name, field.value));
            &&& state.outcome(first) == made
            &&& state.after(first).outcome(second) == made
            &&& state.after(first).after(second).table == state.after(first).table
        }),
{
    lemma2_to64();
    reveal_with_fuel(start_low, 2);
    reveal_with_fuel(all_entered_into, 2);
    let fields = seq![field];
    let first = fields_wire(fields, true, huff);
    law_fields_read_back(state, fields, true, huff);
    assert(raws(fields) =~= seq![field.raw()]);
    lemma_single(field.raw());
    table::law_inserted_first(state.table, field.name, field.value);
    table::law_strings_short(state.table, field.name, field.value, 0);
    law_reference_block(state.after(first), 0);
}

} // verus!
