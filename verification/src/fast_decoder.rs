//! The decoder of header blocks.
//!
//! All strings of a block are written to one buffer, which is then frozen; the
//! headers share it.
use crate::arena;
use crate::arena::{DecodedHeader, RawHeader, WriteArena};
use crate::block;
use crate::buffers;
use crate::dyn_table;
use crate::dyn_table::DynTable;
use crate::error::{DecoderError, NeedMore};
use crate::headers;
use crate::headers::Header;
use crate::huffman::peek;
use crate::integer;
use crate::laws::room;
use crate::laws::table;
use crate::sink;
use crate::sink::{Callback, Sink};
use crate::static_table;
use bytes::{Bytes, BytesMut};
use std::io::Cursor;
use vstd::prelude::*;

verus! {

/// The state of a decoder between two blocks.
#[verifier::ext_equal]
pub struct State {
    pub table: dyn_table::Table,
    /// The limit for size updates that holds from the next block on, if it is to
    /// change.
    pub queued: Option<nat>,
    /// The limit for size updates.
    pub limit: nat,
}

impl State {
    /// The limit for size updates in the next block.
    pub open spec fn next_limit(self) -> nat {
        match self.queued {
            Some(size) => size,
            None => self.limit,
        }
    }

    /// The state after a limit for size updates has been queued: of several, the
    /// largest stays.
    pub open spec fn queue(self, size: nat) -> State {
        let largest = match self.queued {
            Some(before) => if before > size {
                before
            } else {
                size
            },
            None => size,
        };
        State { queued: Some(largest), ..self }
    }

    /// What reading a block comes to.
    pub open spec fn read(self, data: Seq<u8>) -> block::Decoded {
        block::block(data, block::Progress::start(self.table), self.next_limit())
    }

    /// Whether the buffers that a block needs can be had at all.
    pub open spec fn fits(self, data: Seq<u8>) -> bool {
        &&& self.read(data).state.peak <= isize::MAX
        &&& self.read(data).state.table.log.len() <= isize::MAX
    }

    /// The headers that a block delivers, and how it ends. A block that cannot be
    /// read to its end delivers none.
    pub open spec fn outcome(self, data: Seq<u8>) -> (
        Seq<headers::HeaderView>,
        Result<(), DecoderError>,
    ) {
        let read = self.read(data);
        if read.result is Err {
            (Seq::empty(), read.result)
        } else {
            block::delivered(read.state.headers)
        }
    }

    /// The state after a block, whether or not it was refused.
    pub open spec fn after(self, data: Seq<u8>) -> State {
        State { table: self.read(data).state.table, queued: None, limit: self.next_limit() }
    }
}

/// What a cursor has not read yet.
pub open spec fn unread(src: Cursor<&mut BytesMut>) -> Seq<u8> {
    buffers::cursor_bytes(src).skip(buffers::cursor_position(src) as int)
}

/// What becomes of the input: an accepted block is taken out of it, a refused one
/// stays there.
pub open spec fn taken(
    before: Cursor<&mut BytesMut>,
    after: Cursor<&mut BytesMut>,
    accepted: bool,
) -> bool {
    if accepted {
        &&& buffers::cursor_bytes(after) == Seq::<u8>::empty()
        &&& buffers::cursor_position(after) == 0
    } else {
        &&& buffers::cursor_bytes(after) == buffers::cursor_bytes(before)
        &&& buffers::cursor_position(after) == buffers::cursor_position(before)
    }
}

/// What headers say.
pub open spec fn views(headers: Seq<Header>) -> Seq<headers::HeaderView> {
    headers.map_values(|header: Header| header@)
}

/// The callback may be handed these headers, each once it has been handed those
/// before it.
pub open spec fn may_be_handed<F: FnMut(Header)>(f: F, due: Seq<headers::HeaderView>) -> bool {
    forall|sent: Seq<Header>, next: Header|
        #![trigger sink::handed(f, sent), call_requires(f, (next,))]
        sink::handed(f, sent) && sent.len() < due.len() && views(sent) == due.take(
            sent.len() as int,
        ) && next@ == due[sent.len() as int] ==> call_requires(f, (next,))
}

/// The headers that were read are those in `raws`, with their strings in `arena`.
spec fn stand_for(decoded: Seq<DecodedHeader>, arena: Seq<u8>, raws: Seq<RawHeader>) -> bool {
    &&& decoded.len() == raws.len()
    &&& forall|i: int|
        0 <= i < decoded.len() ==> {
            &&& (#[trigger] decoded[i]).within(arena)
            &&& decoded[i].raw(arena) == raws[i]
        }
}

proof fn lemma_stand_for_push(
    decoded: Seq<DecodedHeader>,
    arena: Seq<u8>,
    raws: Seq<RawHeader>,
    grown: Seq<u8>,
    header: DecodedHeader,
)
    requires
        stand_for(decoded, arena, raws),
        arena.len() <= grown.len(),
        arena == grown.take(arena.len() as int),
        header.within(grown),
    ensures
        stand_for(decoded.push(header), grown, raws.push(header.raw(grown))),
{
    let after = grown.skip(arena.len() as int);
    assert(arena + after =~= grown);
    let all = decoded.push(header);
    assert forall|i: int| 0 <= i < all.len() implies (#[trigger] all[i]).within(grown) && all[i].raw(
        grown,
    ) == raws.push(header.raw(grown))[i] by {
        if i < decoded.len() {
            decoded[i].lemma_raw_later(arena, after);
        }
    }
}

/// Where the name of a literal header comes from.
enum NameSource {
    Static(u8),
    Arena { offset: u32, len: u16 },
}

impl NameSource {
    spec fn within(self, arena: Seq<u8>) -> bool {
        match self {
            NameSource::Static(idx) => 1 <= idx <= 61,
            NameSource::Arena { offset, len } => offset + len <= arena.len(),
        }
    }

    spec fn name(self, arena: Seq<u8>) -> block::RawName {
        match self {
            NameSource::Static(idx) => block::RawName::Static(idx as int),
            NameSource::Arena { offset, len } => block::RawName::Text(
                arena::bytes_at(arena, offset, len),
            ),
        }
    }
}

/// The decoder. Its dynamic table lives on from block to block.
pub struct FastDecoder {
    max_size_update: Option<usize>,
    last_max_update: usize,
    dyn_table: DynTable,
    /// The headers of the current block; kept to be used again.
    decoded_headers: Vec<DecodedHeader>,
    peek_table: [(u8, u8); 1024],
}

impl View for FastDecoder {
    type V = State;

    closed spec fn view(&self) -> State {
        State {
            table: self.dyn_table@,
            queued: match self.max_size_update {
                Some(size) => Some(size as nat),
                None => None,
            },
            limit: self.last_max_update as nat,
        }
    }
}

impl FastDecoder {
    /// The dynamic table and the look-ahead table are in order.
    pub closed spec fn wf(self) -> bool {
        &&& self.dyn_table.wf()
        &&& self.dyn_table@.exact()
        &&& peek::is_peek_table(self.peek_table@)
    }

    /// The dynamic table of a well-formed decoder keeps to its limit, its strings
    /// are short, and its entries count for what they cost.
    pub proof fn lemma_wf(self)
        requires
            self.wf(),
        ensures
            self@.table.wf(),
            self@.table.short(),
            self@.table.exact(),
    {
        self.dyn_table.lemma_wf();
    }

    /// A decoder whose dynamic table may grow to `size`.
    pub fn new(size: usize) -> (decoder: FastDecoder)
        ensures
            decoder.wf(),
            decoder@ == (State {
                table: dyn_table::Table::empty(size as nat),
                queued: None,
                limit: size as nat,
            }),
    {
        FastDecoder {
            max_size_update: None,
            last_max_update: size,
            dyn_table: DynTable::new(size),
            decoded_headers: Vec::with_capacity(32),
            peek_table: peek::build_peek_table(),
        }
    }

    /// Sets the limit for size updates from the next block on. Of several that
    /// were set since the last block, the largest holds.
    pub fn queue_size_update(&mut self, size: usize)
        requires
            old(self).wf(),
        ensures
            final(self).wf(),
            final(self)@ == old(self)@.queue(size as nat),
    {
        let size: usize = match self.max_size_update {
            Some(before) => if before > size {
                before
            } else {
                size
            },
            None => size,
        };
        self.max_size_update = Some(size);
    }

    /// Reads a string at `pos` and appends it to the arena.
    fn decode_string_fast(&self, data: &[u8], pos: &mut usize, arena: &mut WriteArena) -> (r: Result<
        (u32, u16),
        DecoderError,
    >)
        requires
            self.wf(),
            old(arena)@.len() + block::string(data@, *old(pos) as nat).room <= isize::MAX,
        ensures
            ({
                let read = block::string(data@, *old(pos) as nat);
                &&& *final(pos) == read.pos
                &&& final(arena)@ == old(arena)@ + read.written
                &&& match r {
                    Ok(at) => {
                        &&& read.result matches Ok(text)
                        &&& at == arena::region(old(arena)@.len(), text.len())
                    },
                    Err(e) => read.result == Err::<Seq<u8>, DecoderError>(e),
                }
            }),
    {
        if *pos >= data.len() {
            return Err(DecoderError::NeedMore(NeedMore::UnexpectedEndOfStream));
        }
        let huff: bool = data[*pos] >= 0x80;
        proof {
            integer::lemma_integer_span(data@, *pos as nat, 7);
        }
        let len: usize = match integer::decode_int_fast(data, pos, 7) {
            Ok(len) => len,
            Err(e) => {
                return Err(e);
            },
        };
        if len > data.len() - *pos {
            return Err(DecoderError::NeedMore(NeedMore::StringUnderflow));
        }
        let raw = vstd::slice::slice_subrange(data, *pos, *pos + len);
        *pos = *pos + len;
        if huff {
            arena::huffman_decode_to_arena(&self.peek_table, raw, arena)
        } else {
            Ok(arena.write(raw))
        }
    }

    /// The header at `index`, in the static table or the dynamic one. The block has
    /// been decoded up to `at`.
    fn get_indexed(
        &self,
        index: usize,
        arena: &mut WriteArena,
        Ghost(at): Ghost<block::Progress>,
    ) -> (r: Result<DecodedHeader, DecoderError>)
        requires
            self.wf(),
            at.table == self@.table,
            at.arena == old(arena)@,
            block::indexed(at, index as nat).state.peak <= isize::MAX,
        ensures
            ({
                let next = block::indexed(at, index as nat);
                &&& next.state.arena == final(arena)@
                &&& match r {
                    Ok(decoded) => {
                        &&& next.result is Ok
                        &&& at.arena == final(arena)@.take(at.arena.len() as int)
                        &&& decoded.within(final(arena)@)
                        &&& next.state.headers == at.headers.push(decoded.raw(final(arena)@))
                    },
                    Err(e) => next.result == Err::<(), DecoderError>(e),
                }
            }),
    {
        if index == 0 {
            return Err(DecoderError::InvalidTableIndex);
        }
        if index <= static_table::STATIC_LEN {
            assert(at.arena =~= arena@.take(at.arena.len() as int));
            return Ok(DecodedHeader::StaticFull(index as u8));
        }
        match self.dyn_table.get(index - static_table::FIRST_DYNAMIC) {
            Some(entry) => {
                let decoded = self.dyn_table.copy_to_arena(entry, arena);
                proof {
                    let field = entry.read(self.dyn_table@.log);
                    arena::lemma_kept(at.arena, field.name, field.value);
                    arena::lemma_kept(at.arena + field.name, field.value, Seq::empty());
                    assert(at.arena + field.name + field.value + Seq::<u8>::empty() =~= arena@);
                    assert(at.arena =~= arena@.take(at.arena.len() as int));
                }
                Ok(decoded)
            },
            None => Err(DecoderError::InvalidTableIndex),
        }
    }

    /// Reads the value of a literal header and enters the header into the dynamic
    /// table if `index`. The block has been decoded up to `at`.
    #[verifier::rlimit(40)]
    fn decode_value(
        &mut self,
        data: &[u8],
        pos: &mut usize,
        source: NameSource,
        index: bool,
        arena: &mut WriteArena,
        Ghost(at): Ghost<block::Progress>,
    ) -> (r: Result<DecodedHeader, DecoderError>)
        requires
            old(self).wf(),
            source.within(old(arena)@),
            at.pos == *old(pos) <= data@.len(),
            at.table == old(self)@.table,
            at.arena == old(arena)@,
            ({
                let next = block::with_value(data@, at, source.name(old(arena)@), index);
                &&& next.state.peak <= isize::MAX
                &&& next.state.table.log.len() <= isize::MAX
            }),
        ensures
            ({
                let next = block::with_value(data@, at, source.name(old(arena)@), index);
                &&& final(self).wf()
                &&& final(self)@ == (State { table: next.state.table, ..old(self)@ })
                &&& final(self).decoded_headers == old(self).decoded_headers
                &&& next.state.arena == final(arena)@
                &&& match r {
                    Ok(decoded) => {
                        &&& next.result is Ok
                        &&& *final(pos) == next.state.pos
                        &&& next.state.can_resize == at.can_resize
                        &&& at.arena.len() <= final(arena)@.len()
                        &&& at.arena == final(arena)@.take(at.arena.len() as int)
                        &&& decoded.within(final(arena)@)
                        &&& next.state.headers == at.headers.push(decoded.raw(final(arena)@))
                    },
                    Err(e) => next.result == Err::<(), DecoderError>(e),
                }
            }),
    {
        proof {
            reveal(block::with_value);
        }
        let (value_offset, value_len) = match self.decode_string_fast(data, pos, arena) {
            Ok(region) => region,
            Err(e) => {
                return Err(e);
            },
        };
        proof {
            let text = block::string(data@, at.pos).result->Ok_0;
            arena::lemma_kept(at.arena, text, Seq::empty());
            assert(at.arena + text + Seq::<u8>::empty() =~= arena@);
            assert(at.arena =~= arena@.take(at.arena.len() as int));
            if let NameSource::Arena { offset, len } = source {
                assert(arena::bytes_at(arena@, offset, len) =~= arena::bytes_at(
                    at.arena,
                    offset,
                    len,
                ));
            }
        }
        if index {
            let name: &[u8] = match source {
                NameSource::Static(idx) => {
                    proof {
                        static_table::lemma_name_len(idx as int);
                    }
                    static_table::static_name_bytes(idx)
                },
                NameSource::Arena { offset, len } => arena.slice_ref(offset, len),
            };
            let value = arena.slice_ref(value_offset, value_len);
            self.dyn_table.insert_raw(name, value);
        }
        match source {
            NameSource::Static(static_idx) => Ok(
                DecodedHeader::StaticName { static_idx, value_offset, value_len },
            ),
            NameSource::Arena { offset, len } => Ok(
                DecodedHeader::Arena {
                    name_offset: offset,
                    name_len: len,
                    value_offset,
                    value_len,
                },
            ),
        }
    }

    /// Reads a literal header whose name's index has `prefix` bits, and enters it
    /// into the dynamic table if `index`. The block has been decoded up to `at`.
    #[verifier::rlimit(40)]
    fn decode_literal_fast(
        &mut self,
        data: &[u8],
        pos: &mut usize,
        prefix: u8,
        index: bool,
        arena: &mut WriteArena,
        Ghost(at): Ghost<block::Progress>,
    ) -> (r: Result<DecodedHeader, DecoderError>)
        requires
            old(self).wf(),
            prefix <= 8,
            at.pos == *old(pos) < data@.len(),
            at.table == old(self)@.table,
            at.arena == old(arena)@,
            block::literal(data@, at, prefix as nat, index).state.peak <= isize::MAX,
            block::literal(data@, at, prefix as nat, index).state.table.log.len() <= isize::MAX,
        ensures
            ({
                let next = block::literal(data@, at, prefix as nat, index);
                &&& final(self).wf()
                &&& final(self)@ == (State { table: next.state.table, ..old(self)@ })
                &&& final(self).decoded_headers == old(self).decoded_headers
                &&& next.state.arena == final(arena)@
                &&& match r {
                    Ok(decoded) => {
                        &&& next.result is Ok
                        &&& *final(pos) == next.state.pos
                        &&& next.state.can_resize == at.can_resize
                        &&& at.arena.len() <= final(arena)@.len()
                        &&& at.arena == final(arena)@.take(at.arena.len() as int)
                        &&& decoded.within(final(arena)@)
                        &&& next.state.headers == at.headers.push(decoded.raw(final(arena)@))
                    },
                    Err(e) => next.result == Err::<(), DecoderError>(e),
                }
            }),
    {
        proof {
            reveal(block::literal);
            integer::lemma_integer_span(data@, at.pos, prefix as nat);
        }
        let table_idx: usize = match integer::decode_int_fast(data, pos, prefix) {
            Ok(idx) => idx,
            Err(e) => {
                return Err(e);
            },
        };
        let ghost mut named = block::Progress { pos: *pos as nat, ..at };
        let source = if table_idx == 0 {
            let ghost read = block::string(data@, *pos as nat);
            proof {
                block::lemma_string(data@, *pos as nat);
                named = named.read_string(read);
                if let Ok(text) = read.result {
                    block::lemma_with_value_grows(
                        data@,
                        named,
                        block::RawName::Text(arena::kept(at.arena, text)),
                        index,
                    );
                    arena::lemma_kept(at.arena, text, Seq::empty());
                    assert(at.arena + text + Seq::<u8>::empty() =~= at.arena + text);
                }
            }
            match self.decode_string_fast(data, pos, arena) {
                Ok((offset, len)) => NameSource::Arena { offset, len },
                Err(e) => {
                    return Err(e);
                },
            }
        } else if table_idx <= static_table::STATIC_LEN {
            NameSource::Static(table_idx as u8)
        } else {
            match self.dyn_table.get(table_idx - static_table::FIRST_DYNAMIC) {
                Some(entry) => {
                    let text = self.dyn_table.name_slice(entry);
                    proof {
                        named = named.written(text@);
                        block::lemma_with_value_grows(
                            data@,
                            named,
                            block::RawName::Text(arena::kept(at.arena, text@)),
                            index,
                        );
                        arena::lemma_kept(at.arena, text@, Seq::empty());
                        assert(at.arena + text@ + Seq::<u8>::empty() =~= at.arena + text@);
                    }
                    let (offset, len) = arena.write(text);
                    NameSource::Arena { offset, len }
                },
                None => {
                    return Err(DecoderError::InvalidTableIndex);
                },
            }
        };
        let ghost name = source.name(arena@);
        assert(block::literal(data@, at, prefix as nat, index) == block::with_value(
            data@,
            named,
            name,
            index,
        ));
        assert(at.arena =~= arena@.take(at.arena.len() as int));
        self.decode_value(data, pos, source, index, arena, Ghost(named))
    }

    /// Reads one representation: a header, or a size update. The block has been
    /// decoded up to `at`.
    #[verifier::rlimit(40)]
    fn decode_representation(
        &mut self,
        data: &[u8],
        pos: &mut usize,
        can_resize: &mut bool,
        arena: &mut WriteArena,
        Ghost(at): Ghost<block::Progress>,
    ) -> (r: Result<Option<DecodedHeader>, DecoderError>)
        requires
            old(self).wf(),
            at.pos == *old(pos) < data@.len(),
            at.table == old(self)@.table,
            at.arena == old(arena)@,
            at.can_resize == *old(can_resize),
            ({
                let next = block::representation(data@, at, old(self)@.limit);
                &&& next.state.peak <= isize::MAX
                &&& next.state.table.log.len() <= isize::MAX
            }),
        ensures
            ({
                let next = block::representation(data@, at, old(self)@.limit);
                &&& final(self).wf()
                &&& final(self)@ == (State { table: next.state.table, ..old(self)@ })
                &&& final(self).decoded_headers == old(self).decoded_headers
                &&& next.state.arena == final(arena)@
                &&& match r {
                    Ok(decoded) => {
                        &&& next.result is Ok
                        &&& *final(pos) == next.state.pos
                        &&& *final(can_resize) == next.state.can_resize
                        &&& at.arena.len() <= final(arena)@.len()
                        &&& at.arena == final(arena)@.take(at.arena.len() as int)
                        &&& match decoded {
                            Some(header) => {
                                &&& header.within(final(arena)@)
                                &&& next.state.headers == at.headers.push(
                                    header.raw(final(arena)@),
                                )
                            },
                            None => {
                                &&& final(arena)@ == at.arena
                                &&& next.state.headers == at.headers
                            },
                        }
                    },
                    Err(e) => next.result == Err::<(), DecoderError>(e),
                }
            }),
    {
        let byte: u8 = data[*pos];
        let ghost header = block::Progress { can_resize: false, ..at };
        assert(at.arena =~= arena@.take(at.arena.len() as int));
        proof {
            reveal(block::representation);
            integer::lemma_integer_span(data@, at.pos, 7);
        }
        if byte >= 0x80 {
            *can_resize = false;
            let index: usize = match integer::decode_int_fast(data, pos, 7) {
                Ok(index) => index,
                Err(e) => {
                    return Err(e);
                },
            };
            let ghost from = block::Progress { pos: *pos as nat, ..header };
            match self.get_indexed(index, arena, Ghost(from)) {
                Ok(decoded) => Ok(Some(decoded)),
                Err(e) => Err(e),
            }
        } else if byte >= 0x40 {
            *can_resize = false;
            match self.decode_literal_fast(data, pos, 6, true, arena, Ghost(header)) {
                Ok(decoded) => Ok(Some(decoded)),
                Err(e) => Err(e),
            }
        } else if byte >= 0x20 {
            if !*can_resize {
                return Err(DecoderError::InvalidMaxDynamicSize);
            }
            let new_size: usize = match integer::decode_int_fast(data, pos, 5) {
                Ok(size) => size,
                Err(e) => {
                    return Err(e);
                },
            };
            if new_size > self.last_max_update {
                return Err(DecoderError::InvalidMaxDynamicSize);
            }
            proof {
                table::law_exact_kept(self@.table, Seq::empty(), Seq::empty(), new_size as nat);
            }
            self.dyn_table.set_max_size(new_size);
            Ok(None)
        } else {
            *can_resize = false;
            match self.decode_literal_fast(data, pos, 4, false, arena, Ghost(header)) {
                Ok(decoded) => Ok(Some(decoded)),
                Err(e) => Err(e),
            }
        }
    }

    /// Reads a block to its end. Its headers are then in `decoded_headers`, their
    /// strings in the arena.
    #[verifier::rlimit(40)]
    fn decode_block(&mut self, data: &[u8]) -> (r: Result<WriteArena, DecoderError>)
        requires
            old(self).wf(),
            old(self)@.fits(data@),
        ensures
            final(self).wf(),
            final(self)@ == old(self)@.after(data@),
            ({
                let read = old(self)@.read(data@);
                match r {
                    Ok(arena) => {
                        &&& read.result is Ok
                        &&& stand_for(
                            final(self).decoded_headers@,
                            arena@,
                            read.state.headers,
                        )
                    },
                    Err(e) => read.result == Err::<(), DecoderError>(e),
                }
            }),
    {
        let ghost whole = self@.read(data@);
        let ghost limit = self@.next_limit();
        let ghost mut at = block::Progress::start(self@.table);
        let mut can_resize: bool = true;
        if let Some(size) = self.max_size_update {
            self.last_max_update = size;
        }
        self.max_size_update = None;
        let mut arena = WriteArena::new();
        self.decoded_headers.clear();
        let mut pos: usize = 0;
        while pos < data.len()
            invariant
                self.wf(),
                self@ == (State { table: at.table, queued: None, limit }),
                pos <= data@.len(),
                at.pos == pos,
                at.arena == arena@,
                at.can_resize == can_resize,
                stand_for(self.decoded_headers@, arena@, at.headers),
                block::block(data@, at, limit) == whole,
                whole == old(self)@.read(data@),
                limit == old(self)@.next_limit(),
                whole.state.peak <= isize::MAX,
                whole.state.table.log.len() <= isize::MAX,
            decreases data@.len() - pos,
        {
            let ghost next = block::representation(data@, at, limit);
            proof {
                block::lemma_representation(data@, at, limit);
                block::lemma_representation_grows(data@, at, limit);
                if next.result is Ok {
                    block::lemma_block_grows(data@, next.state, limit);
                }
            }
            let ghost before = self.decoded_headers@;
            match self.decode_representation(data, &mut pos, &mut can_resize, &mut arena, Ghost(at)) {
                Ok(Some(decoded)) => {
                    proof {
                        lemma_stand_for_push(before, at.arena, at.headers, arena@, decoded);
                    }
                    self.decoded_headers.push(decoded);
                },
                Ok(None) => {},
                Err(e) => {
                    return Err(e);
                },
            }
            proof {
                at = next.state;
            }
        }
        Ok(arena)
    }

    /// Takes what has been decoded out of the input.
    fn consume(src: &mut Cursor<&mut BytesMut>, count: usize)
        requires
            buffers::cursor_position(*old(src)) + count == buffers::cursor_bytes(*old(src)).len(),
        ensures
            buffers::cursor_bytes(*final(src)) == Seq::<u8>::empty(),
            buffers::cursor_position(*final(src)) == 0,
    {
        buffers::cursor_advance(src, count);
        let position: usize = buffers::cursor_at(src) as usize;
        buffers::cursor_drop_front(src, position);
        buffers::cursor_move(src, 0);
        assert(buffers::cursor_bytes(*src) =~= Seq::<u8>::empty());
    }

    /// Makes the headers that were read and gives them to `sink`, up to the first
    /// that cannot be made.
    fn deliver<S: Sink>(&self, frozen: &Bytes, sink: &mut S, Ghost(raws): Ghost<Seq<RawHeader>>) -> (r:
        Result<(), DecoderError>)
        requires
            stand_for(self.decoded_headers@, buffers::shared_bytes(*frozen), raws),
            old(sink).keeps(old(sink)),
            old(sink).in_turn(views(old(sink).got()) + block::delivered(raws).0),
        ensures
            r == block::delivered(raws).1,
            views(final(sink).got()) == views(old(sink).got()) + block::delivered(raws).0,
            final(sink).keeps(old(sink)),
    {
        let ghost due = views(sink.got()) + block::delivered(raws).0;
        let mut i: usize = 0;
        assert(raws.take(0) =~= Seq::<RawHeader>::empty());
        assert(views(sink.got()) =~= views(old(sink).got()) + block::delivered(raws.take(0)).0);
        while i < self.decoded_headers.len()
            invariant
                i <= self.decoded_headers@.len(),
                stand_for(self.decoded_headers@, buffers::shared_bytes(*frozen), raws),
                block::delivered(raws.take(i as int)).1 is Ok,
                views(sink.got()) == views(old(sink).got()) + block::delivered(
                    raws.take(i as int),
                ).0,
                sink.keeps(old(sink)),
                sink.keeps(sink),
                sink.in_turn(due),
                due == views(old(sink).got()) + block::delivered(raws).0,
            decreases self.decoded_headers@.len() - i,
        {
            proof {
                assert(raws.take(i + 1).drop_last() =~= raws.take(i as int));
                assert(raws.take(i + 1).last() == raws[i as int]);
                block::lemma_delivered_begins(raws, i as nat);
                block::lemma_delivered_begins(raws, (i + 1) as nat);
            }
            let ghost before = sink.got();
            match self.decoded_headers[i].materialize(frozen) {
                Ok(header) => {
                    proof {
                        let made = block::delivered(raws.take(i + 1)).0;
                        assert(made.last() == header@);
                        assert(block::delivered(raws).0[made.len() - 1] == header@);
                        assert(views(sink.got()) =~= due.take(sink.got().len() as int));
                        sink.lemma_next(due, header);
                    }
                    sink.put(header);
                    assert(views(sink.got()) =~= views(before).push(header@));
                },
                Err(e) => {
                    proof {
                        block::lemma_delivered_ends(raws, (i + 1) as nat);
                    }
                    return Err(e);
                },
            }
            i = i + 1;
        }
        assert(raws.take(i as int) =~= raws);
        Ok(())
    }

    /// Decodes a block and gives its headers to `sink`.
    fn decode_into<S: Sink>(&mut self, src: &mut Cursor<&mut BytesMut>, sink: &mut S) -> (r: Result<
        (),
        DecoderError,
    >)
        requires
            old(self).wf(),
            buffers::cursor_position(*old(src)) <= buffers::cursor_bytes(*old(src)).len(),
            old(self)@.fits(unread(*old(src))),
            old(sink).keeps(old(sink)),
            old(sink).in_turn(
                views(old(sink).got()) + old(self)@.outcome(unread(*old(src))).0,
            ),
        ensures
            final(self).wf(),
            final(self)@ == old(self)@.after(unread(*old(src))),
            r == old(self)@.outcome(unread(*old(src))).1,
            views(final(sink).got()) == views(old(sink).got()) + old(self)@.outcome(
                unread(*old(src)),
            ).0,
            final(sink).keeps(old(sink)),
            taken(*old(src), *final(src), r is Ok),
    {
        let data = buffers::cursor_chunk(src);
        let data_len: usize = data.len();
        let ghost raws = self@.read(data@).state.headers;
        let arena = match self.decode_block(data) {
            Ok(arena) => arena,
            Err(e) => {
                assert(views(sink.got()) =~= views(old(sink).got()) + Seq::<
                    headers::HeaderView,
                >::empty());
                return Err(e);
            },
        };
        let frozen = arena.freeze();
        match self.deliver(&frozen, sink, Ghost(raws)) {
            Ok(_) => {
                Self::consume(src, data_len);
                Ok(())
            },
            Err(e) => Err(e),
        }
    }

    /// Decodes a block and appends its headers to `out`.
    pub fn decode_to_vec(&mut self, src: &mut Cursor<&mut BytesMut>, out: &mut Vec<Header>) -> (r:
        Result<(), DecoderError>)
        requires
            old(self).wf(),
            buffers::cursor_position(*old(src)) <= buffers::cursor_bytes(*old(src)).len(),
            old(self)@.fits(unread(*old(src))),
        ensures
            final(self).wf(),
            final(self)@ == old(self)@.after(unread(*old(src))),
            r == old(self)@.outcome(unread(*old(src))).1,
            views(final(out)@) == views(old(out)@) + old(self)@.outcome(unread(*old(src))).0,
            taken(*old(src), *final(src), r is Ok),
    {
        self.decode_into(src, out)
    }

    /// Decodes a block and hands its headers to `f`, one after the other, and
    /// nothing else.
    ///
    /// `f` need only take a header once it has been handed all those before it, so it
    /// is handed them in their order. The contract leaves open how often it is handed
    /// one that it has had; `decode_to_vec` states the order and the number exactly,
    /// and both take the same way.
    pub fn decode<F>(&mut self, src: &mut Cursor<&mut BytesMut>, f: F) -> (r: Result<
        (),
        DecoderError,
    >) where F: FnMut(Header)
        requires
            old(self).wf(),
            buffers::cursor_position(*old(src)) <= buffers::cursor_bytes(*old(src)).len(),
            old(self)@.fits(unread(*old(src))),
            forall|sent: Seq<Header>, next: Header|
                #![trigger sink::handed(f, sent), call_requires(f, (next,))]
                {
                    let due = old(self)@.outcome(unread(*old(src))).0;
                    &&& sink::handed(f, sent)
                    &&& sent.len() < due.len()
                    &&& views(sent) == due.take(sent.len() as int)
                    &&& next@ == due[sent.len() as int]
                } ==> call_requires(f, (next,)),
        ensures
            final(self).wf(),
            final(self)@ == old(self)@.after(unread(*old(src))),
            r == old(self)@.outcome(unread(*old(src))).1,
            exists|sent: Seq<Header>| #[trigger]
                sink::handed(f, sent) && views(sent) == old(self)@.outcome(unread(*old(src))).0,
            taken(*old(src), *final(src), r is Ok),
    {
        let ghost due = self@.outcome(unread(*src)).0;
        let mut callback = Callback { f, sent: Ghost(Seq::empty()) };
        assert(views(callback.got()) + due =~= due);
        self.decode_into(src, &mut callback)
    }

    /// Whether the buffers that a block of `len` bytes can need can be had at all.
    pub fn has_room_for(&self, len: usize) -> (r: bool)
        requires
            self.wf(),
        ensures
            r == (self@.table.log.len() + room::MOST * len <= isize::MAX),
            r ==> forall|data: Seq<u8>| data.len() == len ==> #[trigger] self@.fits(data),
    {
        let log: usize = self.dyn_table.log_len();
        let most: usize = isize::MAX as usize;
        let r: bool = log <= most && len <= (most - log) / room::MOST;
        proof {
            self.lemma_wf();
            if r {
                assert forall|data: Seq<u8>| data.len() == len implies #[trigger] self@.fits(
                    data,
                ) by {
                    room::law_short_blocks_fit(self@, data);
                }
            }
        }
        r
    }

    /// Decodes a block, unless the cursor stands beyond its buffer or the block is
    /// too long to be sure of the buffers that it needs; then nothing happens.
    ///
    /// As with `decode`, `f` need only take a header once it has been handed all those
    /// before it; how often it is handed one that it has had is left open.
    pub fn try_decode<F>(&mut self, src: &mut Cursor<&mut BytesMut>, f: F) -> (r: Option<
        Result<(), DecoderError>,
    >) where F: FnMut(Header)
        requires
            old(self).wf(),
            forall|sent: Seq<Header>, next: Header|
                #![trigger sink::handed(f, sent), call_requires(f, (next,))]
                {
                    let due = old(self)@.outcome(unread(*old(src))).0;
                    &&& sink::handed(f, sent)
                    &&& sent.len() < due.len()
                    &&& views(sent) == due.take(sent.len() as int)
                    &&& next@ == due[sent.len() as int]
                } ==> call_requires(f, (next,)),
        ensures
            final(self).wf(),
            ({
                let data = unread(*old(src));
                match r {
                    Some(result) => {
                        &&& buffers::cursor_position(*old(src)) <= buffers::cursor_bytes(
                            *old(src),
                        ).len()
                        &&& old(self)@.table.log.len() + room::MOST * data.len() <= isize::MAX
                        &&& final(self)@ == old(self)@.after(data)
                        &&& result == old(self)@.outcome(data).1
                        &&& exists|sent: Seq<Header>| #[trigger]
                            sink::handed(f, sent) && views(sent) == old(self)@.outcome(data).0
                        &&& taken(*old(src), *final(src), result is Ok)
                    },
                    None => {
                        &&& buffers::cursor_position(*old(src)) > buffers::cursor_bytes(
                            *old(src),
                        ).len() || old(self)@.table.log.len() + room::MOST * data.len()
                            > isize::MAX
                        &&& final(self)@ == old(self)@
                        &&& taken(*old(src), *final(src), false)
                    },
                }
            }),
    {
        let position: u64 = buffers::cursor_at(src);
        let len: usize = buffers::cursor_len(src);
        if position > len as u64 {
            return None;
        }
        if !self.has_room_for(len - position as usize) {
            return None;
        }
        Some(self.decode(src, f))
    }

    /// What the entries of the dynamic table count for.
    pub fn dyn_table_size(&self) -> (n: usize)
        requires
            self.wf(),
        ensures
            n == self@.table.size(),
    {
        self.dyn_table.size()
    }

    /// The limit of the dynamic table.
    pub fn dyn_table_max(&self) -> (n: usize)
        ensures
            n == self@.table.max_size,
    {
        self.dyn_table.max_size()
    }

    /// How many entries the dynamic table has.
    pub fn dyn_table_len(&self) -> (n: usize)
        ensures
            n == self@.table.entries.len(),
    {
        self.dyn_table.len()
    }
}

impl Default for FastDecoder {
    /// A decoder whose dynamic table may grow to 4096.
    fn default() -> (decoder: FastDecoder)
        ensures
            decoder.wf(),
            decoder@ == (State {
                table: dyn_table::Table::empty(4096),
                queued: None,
                limit: 4096,
            }),
    {
        FastDecoder::new(4096)
    }
}

} // verus!
