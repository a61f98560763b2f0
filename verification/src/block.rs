//! What a header block means: the representations that it is made of, one after
//! the other, and what each does to the dynamic table.
use crate::arena;
use crate::arena::RawHeader;
use crate::dyn_table::Table;
use crate::error::{DecoderError, NeedMore};
use crate::headers::HeaderView;
use crate::huffman::code;
use crate::huffman::slice;
use crate::integer;
use crate::static_table;
use vstd::prelude::*;

verus! {

/// A string that was read, or why not, and where to read on.
pub struct StringRead {
    pub result: Result<Seq<u8>, DecoderError>,
    pub pos: nat,
    /// How many bytes of room were taken up to read it.
    pub room: nat,
    /// What was appended to the arena: the string, or what a string that could not
    /// be decoded has left there.
    pub written: Seq<u8>,
}

/// No string was read, and nothing was appended to the arena.
pub open spec fn unread_string(e: DecoderError, pos: nat) -> StringRead {
    StringRead { result: Err(e), pos, room: 0, written: Seq::empty() }
}

/// The string at `pos`: its length, with a bit in front that says whether it is
/// Huffman-coded, and its bytes.
pub open spec fn string(data: Seq<u8>, pos: nat) -> StringRead {
    if pos >= data.len() {
        unread_string(DecoderError::NeedMore(NeedMore::UnexpectedEndOfStream), pos)
    } else {
        let size = integer::integer(data, pos, 7);
        match size.result {
            Err(e) => unread_string(e, size.pos),
            Ok(len) => if size.pos + len > data.len() {
                unread_string(DecoderError::NeedMore(NeedMore::StringUnderflow), size.pos)
            } else {
                let end = size.pos + len;
                let raw = data.subrange(size.pos as int, end as int);
                if data[pos as int] < 128 {
                    StringRead { result: Ok(raw), pos: end, room: len, written: raw }
                } else {
                    let result = match slice::decoded(raw) {
                        Some(text) => Ok(text),
                        None => Err(DecoderError::InvalidHuffmanCode),
                    };
                    StringRead {
                        result,
                        pos: end,
                        room: 2 * len,
                        written: arena::decoding_leaves(raw),
                    }
                }
            },
        }
    }
}

/// How far a block has been decoded.
#[verifier::ext_equal]
pub struct Progress {
    /// Where to read on.
    pub pos: nat,
    pub table: Table,
    /// The strings so far.
    pub arena: Seq<u8>,
    /// The headers so far.
    pub headers: Seq<RawHeader>,
    /// Whether a size update may still come.
    pub can_resize: bool,
    /// The most bytes that the arena has had to hold.
    pub peak: nat,
    /// The highest place in the arena where a string starts that is not empty.
    pub highest: nat,
}

impl Progress {
    /// The start of a block.
    pub open spec fn start(table: Table) -> Progress {
        Progress {
            pos: 0,
            table,
            arena: Seq::empty(),
            headers: Seq::empty(),
            can_resize: true,
            peak: 0,
            highest: 0,
        }
    }

    /// The state after the arena has had to take in `room` more bytes.
    pub open spec fn stretched(self, room: nat) -> Progress {
        let need = self.arena.len() + room;
        Progress {
            peak: if need > self.peak {
                need
            } else {
                self.peak
            },
            ..self
        }
    }

    /// The highest start of a string once `text` has been appended to the arena.
    pub open spec fn highest_with(self, text: Seq<u8>) -> nat {
        if text.len() > 0 && self.arena.len() > self.highest {
            self.arena.len()
        } else {
            self.highest
        }
    }

    /// The state after a string has been read, or not.
    pub open spec fn read_string(self, read: StringRead) -> Progress {
        let next = self.stretched(read.room);
        let highest = if read.result is Ok {
            self.highest_with(read.written)
        } else {
            self.highest
        };
        Progress { pos: read.pos, arena: self.arena + read.written, highest, ..next }
    }

    /// The state after a string has been appended to the arena.
    pub open spec fn written(self, text: Seq<u8>) -> Progress {
        let next = self.stretched(text.len());
        Progress { arena: self.arena + text, highest: self.highest_with(text), ..next }
    }
}

/// How far a block was decoded, and why no further.
#[verifier::ext_equal]
pub struct Decoded {
    pub result: Result<(), DecoderError>,
    pub state: Progress,
}

pub open spec fn failed(e: DecoderError, state: Progress) -> Decoded {
    Decoded { result: Err(e), state }
}

pub open spec fn moved(state: Progress) -> Decoded {
    Decoded { result: Ok(()), state }
}

/// A whole header at `index`: the static table comes first, the dynamic one
/// follows it.
pub open spec fn indexed(at: Progress, index: nat) -> Decoded {
    if index == 0 {
        failed(DecoderError::InvalidTableIndex, at)
    } else if index <= static_table::STATIC_LEN {
        moved(Progress { headers: at.headers.push(RawHeader::Entry(index as int)), ..at })
    } else if index - static_table::FIRST_DYNAMIC < at.table.entries.len() {
        let entry = at.table.entries[index - static_table::FIRST_DYNAMIC];
        let named = at.written(entry.name);
        let valued = named.written(entry.value);
        let header = RawHeader::Literal {
            name: arena::kept(at.arena, entry.name),
            value: arena::kept(named.arena, entry.value),
        };
        moved(Progress { headers: at.headers.push(header), ..valued })
    } else {
        failed(DecoderError::InvalidTableIndex, at)
    }
}

/// The name of a literal header.
pub enum RawName {
    /// The one at a place of the static table.
    Static(int),
    Text(Seq<u8>),
}

impl RawName {
    pub open spec fn bytes(self) -> Seq<u8> {
        match self {
            RawName::Static(idx) => static_table::static_name(idx),
            RawName::Text(text) => text,
        }
    }

    pub open spec fn with(self, value: Seq<u8>) -> RawHeader {
        match self {
            RawName::Static(idx) => RawHeader::Named { idx, value },
            RawName::Text(name) => RawHeader::Literal { name, value },
        }
    }
}

/// The rest of a literal header, once its name is known: the value. The field
/// goes into the dynamic table if `index`.
#[verifier::opaque]
pub open spec fn with_value(data: Seq<u8>, at: Progress, name: RawName, index: bool) -> Decoded {
    let read = string(data, at.pos);
    let next = at.read_string(read);
    match read.result {
        Err(e) => failed(e, next),
        Ok(text) => {
            let value = arena::kept(at.arena, text);
            let table = if index {
                at.table.inserted(name.bytes(), value)
            } else {
                at.table
            };
            moved(
                Progress { table, headers: at.headers.push(name.with(value)), ..next },
            )
        },
    }
}

/// A literal header whose name's index has `prefix` bits: the name, by its index
/// or as a string, and the value.
#[verifier::opaque]
pub open spec fn literal(data: Seq<u8>, at: Progress, prefix: nat, index: bool) -> Decoded {
    let place = integer::integer(data, at.pos, prefix);
    match place.result {
        Err(e) => failed(e, at),
        Ok(idx) => {
            let after = Progress { pos: place.pos, ..at };
            if idx == 0 {
                let read = string(data, place.pos);
                let next = after.read_string(read);
                match read.result {
                    Err(e) => failed(e, next),
                    Ok(text) => with_value(
                        data,
                        next,
                        RawName::Text(arena::kept(at.arena, text)),
                        index,
                    ),
                }
            } else if idx <= static_table::STATIC_LEN {
                with_value(data, after, RawName::Static(idx as int), index)
            } else if idx - static_table::FIRST_DYNAMIC < at.table.entries.len() {
                let text = at.table.entries[idx - static_table::FIRST_DYNAMIC].name;
                with_value(
                    data,
                    after.written(text),
                    RawName::Text(arena::kept(at.arena, text)),
                    index,
                )
            } else {
                failed(DecoderError::InvalidTableIndex, after)
            }
        },
    }
}

/// A size update: it stands before all headers and does not go beyond `limit`.
pub open spec fn size_update(data: Seq<u8>, at: Progress, limit: nat) -> Decoded {
    if !at.can_resize {
        failed(DecoderError::InvalidMaxDynamicSize, at)
    } else {
        let size = integer::integer(data, at.pos, 5);
        match size.result {
            Err(e) => failed(e, at),
            Ok(max_size) => if max_size > limit {
                failed(DecoderError::InvalidMaxDynamicSize, at)
            } else {
                moved(Progress { pos: size.pos, table: at.table.resized(max_size), ..at })
            },
        }
    }
}

/// The representation at the current position. Its first bits tell which it is:
/// `1` an indexed header, `01` a literal that is entered into the table, `001` a
/// size update, `000` a literal that is not entered.
#[verifier::opaque]
pub open spec fn representation(data: Seq<u8>, at: Progress, limit: nat) -> Decoded {
    let byte = data[at.pos as int];
    let header = Progress { can_resize: false, ..at };
    if byte >= 128 {
        let index = integer::integer(data, at.pos, 7);
        match index.result {
            Err(e) => failed(e, header),
            Ok(idx) => indexed(Progress { pos: index.pos, ..header }, idx),
        }
    } else if byte >= 64 {
        literal(data, header, 6, true)
    } else if byte >= 32 {
        size_update(data, at, limit)
    } else {
        literal(data, header, 4, false)
    }
}

/// The rest of a block: representations up to the end, or to the first that is
/// refused.
pub open spec fn block(data: Seq<u8>, at: Progress, limit: nat) -> Decoded
    decreases data.len() - at.pos,
    when at.pos <= data.len()
    via block_ends
{
    if at.pos >= data.len() {
        moved(at)
    } else {
        let next = representation(data, at, limit);
        if next.result is Ok {
            block(data, next.state, limit)
        } else {
            next
        }
    }
}

#[via_fn]
proof fn block_ends(data: Seq<u8>, at: Progress, limit: nat) {
    if at.pos < data.len() {
        lemma_representation(data, at, limit);
    }
}

/// A string lies within the input, and takes up at most twice as much room as it
/// has bytes there.
pub proof fn lemma_string(data: Seq<u8>, pos: nat)
    requires
        pos <= data.len(),
    ensures
        ({
            let read = string(data, pos);
            &&& pos <= read.pos <= data.len()
            &&& read.room <= 2 * (read.pos - pos)
            &&& read.written.len() <= read.room
            &&& read.result matches Ok(text) ==> pos < read.pos && read.written == text
        }),
{
    if pos < data.len() {
        integer::lemma_integer_span(data, pos, 7);
        let size = integer::integer(data, pos, 7);
        if let Ok(len) = size.result {
            if size.pos + len <= data.len() {
                code::lemma_symbols_len(data.subrange(size.pos as int, (size.pos + len) as int));
            }
        }
    }
}

proof fn lemma_with_value(data: Seq<u8>, at: Progress, name: RawName, index: bool)
    requires
        at.pos <= data.len(),
    ensures
        ({
            let next = with_value(data, at, name, index);
            next.result is Ok ==> at.pos < next.state.pos <= data.len()
        }),
{
    reveal(with_value);
    lemma_string(data, at.pos);
}

proof fn lemma_literal(data: Seq<u8>, at: Progress, prefix: nat, index: bool)
    requires
        at.pos < data.len(),
        prefix <= 8,
    ensures
        ({
            let next = literal(data, at, prefix, index);
            next.result is Ok ==> at.pos < next.state.pos <= data.len()
        }),
{
    reveal(literal);
    integer::lemma_integer_span(data, at.pos, prefix);
    let place = integer::integer(data, at.pos, prefix);
    if let Ok(idx) = place.result {
        let after = Progress { pos: place.pos, ..at };
        lemma_string(data, place.pos);
        let read = string(data, place.pos);
        if idx == 0 {
            if let Ok(text) = read.result {
                lemma_with_value(
                    data,
                    after.read_string(read),
                    RawName::Text(arena::kept(at.arena, text)),
                    index,
                );
            }
        } else if idx <= static_table::STATIC_LEN {
            lemma_with_value(data, after, RawName::Static(idx as int), index);
        } else if idx - static_table::FIRST_DYNAMIC < at.table.entries.len() {
            let text = at.table.entries[idx - static_table::FIRST_DYNAMIC].name;
            lemma_with_value(
                data,
                after.written(text),
                RawName::Text(arena::kept(at.arena, text)),
                index,
            );
        }
    }
}

/// A representation takes up one byte at least.
pub proof fn lemma_representation(data: Seq<u8>, at: Progress, limit: nat)
    requires
        at.pos < data.len(),
    ensures
        ({
            let next = representation(data, at, limit);
            next.result is Ok ==> at.pos < next.state.pos <= data.len()
        }),
{
    reveal(representation);
    let header = Progress { can_resize: false, ..at };
    integer::lemma_integer_span(data, at.pos, 7);
    integer::lemma_integer_span(data, at.pos, 5);
    lemma_literal(data, header, 6, true);
    lemma_literal(data, header, 4, false);
}

/// What becomes of the headers of a block, one after the other: those that were
/// made, and the error that ended it.
pub open spec fn delivered(headers: Seq<RawHeader>) -> (Seq<HeaderView>, Result<(), DecoderError>)
    decreases headers.len(),
{
    if headers.len() == 0 {
        (Seq::empty(), Ok(()))
    } else {
        let (made, result) = delivered(headers.drop_last());
        if result is Err {
            (made, result)
        } else {
            match headers.last().made() {
                Ok(header) => (made.push(header), Ok(())),
                Err(e) => (made, Err(e)),
            }
        }
    }
}

/// After an error no more headers are made.
pub proof fn lemma_delivered_ends(headers: Seq<RawHeader>, n: nat)
    requires
        n <= headers.len(),
        delivered(headers.take(n as int)).1 is Err,
    ensures
        delivered(headers) == delivered(headers.take(n as int)),
    decreases headers.len(),
{
    if n == headers.len() {
        assert(headers.take(n as int) =~= headers);
    } else {
        assert(headers.drop_last().take(n as int) =~= headers.take(n as int));
        lemma_delivered_ends(headers.drop_last(), n);
    }
}

/// The headers that are made first stay, however many follow.
pub proof fn lemma_delivered_begins(headers: Seq<RawHeader>, n: nat)
    requires
        n <= headers.len(),
    ensures
        delivered(headers.take(n as int)).0.is_prefix_of(delivered(headers).0),
    decreases headers.len(),
{
    if n == headers.len() {
        assert(headers.take(n as int) =~= headers);
    } else {
        assert(headers.drop_last().take(n as int) =~= headers.take(n as int));
        lemma_delivered_begins(headers.drop_last(), n);
    }
}

/// From one state to a later one the log has grown, and the peak has not fallen.
pub open spec fn grows(at: Progress, next: Progress) -> bool {
    &&& at.peak <= next.peak
    &&& at.table.log.len() <= next.table.log.len()
}

pub proof fn lemma_with_value_grows(data: Seq<u8>, at: Progress, name: RawName, index: bool)
    ensures
        grows(at, with_value(data, at, name, index).state),
{
    reveal(with_value);
}

proof fn lemma_literal_grows(data: Seq<u8>, at: Progress, prefix: nat, index: bool)
    ensures
        grows(at, literal(data, at, prefix, index).state),
{
    reveal(literal);
    let place = integer::integer(data, at.pos, prefix);
    if let Ok(idx) = place.result {
        let after = Progress { pos: place.pos, ..at };
        if idx == 0 {
            let read = string(data, place.pos);
            if let Ok(text) = read.result {
                lemma_with_value_grows(
                    data,
                    after.read_string(read),
                    RawName::Text(arena::kept(at.arena, text)),
                    index,
                );
            }
        } else if idx <= static_table::STATIC_LEN {
            lemma_with_value_grows(data, after, RawName::Static(idx as int), index);
        } else if idx - static_table::FIRST_DYNAMIC < at.table.entries.len() {
            let text = at.table.entries[idx - static_table::FIRST_DYNAMIC].name;
            lemma_with_value_grows(
                data,
                after.written(text),
                RawName::Text(arena::kept(at.arena, text)),
                index,
            );
        }
    }
}

/// What a representation needs covers what was needed before it.
pub proof fn lemma_representation_grows(data: Seq<u8>, at: Progress, limit: nat)
    ensures
        grows(at, representation(data, at, limit).state),
{
    reveal(representation);
    let header = Progress { can_resize: false, ..at };
    lemma_literal_grows(data, header, 6, true);
    lemma_literal_grows(data, header, 4, false);
}

/// What a block needs covers what each of its representations needs.
pub proof fn lemma_block_grows(data: Seq<u8>, at: Progress, limit: nat)
    requires
        at.pos <= data.len(),
    ensures
        grows(at, block(data, at, limit).state),
    decreases data.len() - at.pos,
{
    if at.pos < data.len() {
        let next = representation(data, at, limit);
        lemma_representation_grows(data, at, limit);
        lemma_representation(data, at, limit);
        if next.result is Ok {
            lemma_block_grows(data, next.state, limit);
        }
    }
}

} // verus!
