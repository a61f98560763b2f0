//! What a decoder keeps to from block to block.
use crate::block;
use crate::block::Progress;
use crate::buffers;
use crate::error::DecoderError;
use crate::fast_decoder;
use crate::fast_decoder::{FastDecoder, State};
use crate::headers::{Header, HeaderView};
use crate::hpack_decode::HpackDecode;
use crate::laws::block as reading;
use crate::laws::table;
use crate::sink;
use bytes::BytesMut;
use std::io::Cursor;
use vstd::prelude::*;

verus! {

/// After every block, refused or not, the dynamic table keeps to its limit, and its
/// size is what the names and values in it cost. The limit is as before, or one
/// that the decoder's own limit allows.
pub proof fn law_table_kept(state: State, data: Seq<u8>)
    requires
        state.table.wf(),
        state.table.short(),
        state.table.exact(),
    ensures
        ({
            let after = state.after(data);
            &&& after.table.wf()
            &&& after.table.short()
            &&& after.table.exact()
            &&& after.table.size() == table::costs(after.table.entries)
            &&& after.table.max_size == state.table.max_size || after.table.max_size <= after.limit
        }),
{
    reading::law_block_table(data, Progress::start(state.table), state.next_limit());
    table::law_size_is_cost(state.after(data).table);
}

/// Limits that are queued may come in any order: the largest holds for the next
/// block, and for those after it until one is queued again.
pub proof fn law_queue(state: State, a: nat, b: nat, data: Seq<u8>)
    ensures
        state.queue(a).queue(b) == state.queue(b).queue(a),
        state.queued is None && a >= b ==> {
            &&& state.queue(a).queue(b).next_limit() == a
            &&& state.queue(a).queue(b).after(data).next_limit() == a
        },
{
}

/// A block without bytes delivers nothing and leaves the table as it is.
pub proof fn law_empty_block(state: State)
    ensures
        state.outcome(Seq::empty()) == (Seq::<HeaderView>::empty(), Ok::<(), DecoderError>(())),
        state.after(Seq::empty()).table == state.table,
{
}

/// The limit for the next block is the one that was queued, if one was, and otherwise
/// the one from before.
pub proof fn law_next_limit(state: State, size: nat)
    ensures
        state.queued is None ==> state.next_limit() == state.limit,
        state.queued == Some(size) ==> state.next_limit() == size,
{
}

/// Queueing a limit leaves the largest since the last block queued, and nothing else
/// changes.
pub proof fn law_queued(state: State, size: nat)
    ensures
        ({
            let after = state.queue(size);
            &&& after.table == state.table
            &&& after.limit == state.limit
            &&& after.queued matches Some(largest)
            &&& largest >= size
            &&& state.queued matches Some(before) ==> largest >= before
            &&& largest == size || state.queued == Some(largest)
        }),
{
}

/// A block is read from its start, with the table as it is and with the limit for the
/// next block.
pub proof fn law_read(state: State, data: Seq<u8>)
    ensures
        state.read(data) == block::block(data, Progress::start(state.table), state.next_limit()),
{
}

/// After a block, accepted or not, the table is as its representations have left it, no
/// limit is queued, and the limit is the one that held for the block.
pub proof fn law_after(state: State, data: Seq<u8>)
    ensures
        state.after(data).table == state.read(data).state.table,
        state.after(data).queued is None,
        state.after(data).limit == state.next_limit(),
{
}

/// A block that cannot be read to its end delivers nothing but its error. Another
/// delivers what its headers make, each in its place, up to the first that makes none,
/// whose error is then the block's.
pub proof fn law_outcome(state: State, data: Seq<u8>)
    ensures
        ({
            let (made, result) = state.outcome(data);
            let read = state.read(data);
            let raws = read.state.headers;
            &&& read.result is Err ==> made.len() == 0 && result == read.result
            &&& read.result is Ok ==> {
                &&& made.len() <= raws.len()
                &&& forall|i: int|
                    0 <= i < made.len() ==> (#[trigger] raws[i]).made() == Ok::<
                        HeaderView,
                        DecoderError,
                    >(made[i])
                &&& result is Ok ==> made.len() == raws.len()
                &&& result matches Err(e) ==> made.len() < raws.len()
                    && raws[made.len() as int].made() == Err::<HeaderView, DecoderError>(e)
            }
        }),
{
    reading::law_delivered(state.read(data).state.headers);
}

/// What headers say, each in its place.
pub proof fn law_views(headers: Seq<Header>)
    ensures
        fast_decoder::views(headers).len() == headers.len(),
        forall|i: int|
            0 <= i < headers.len() ==> #[trigger] fast_decoder::views(headers)[i] == headers[i]@,
{
}

/// Headers have been handed to a function if it has returned from being called with
/// each.
pub proof fn law_handed<F: FnMut(Header)>(f: F, headers: Seq<Header>)
    ensures
        sink::handed(f, headers) <==> forall|i: int|
            0 <= i < headers.len() ==> call_ensures(f, (#[trigger] headers[i],), ()),
{
}

/// A function that may be handed the headers that are due may be called with the next
/// of them, once it has been called with those before it.
pub proof fn law_may_be_handed<F: FnMut(Header)>(
    f: F,
    due: Seq<HeaderView>,
    sent: Seq<Header>,
    next: Header,
)
    requires
        fast_decoder::may_be_handed(f, due),
        sent.len() < due.len(),
        forall|i: int|
            0 <= i < sent.len() ==> call_ensures(f, (#[trigger] sent[i],), ()) && sent[i]@ == due[i],
        next@ == due[sent.len() as int],
    ensures
        call_requires(f, (next,)),
{
    assert(fast_decoder::views(sent) =~= due.take(sent.len() as int));
    assert(sink::handed(f, sent));
}

/// What a cursor has not read are the bytes from where it stands on.
pub proof fn law_unread(src: Cursor<&mut BytesMut>)
    requires
        buffers::cursor_position(src) <= buffers::cursor_bytes(src).len(),
    ensures
        fast_decoder::unread(src).len() == buffers::cursor_bytes(src).len()
            - buffers::cursor_position(src),
        forall|i: int|
            0 <= i < fast_decoder::unread(src).len() ==> #[trigger] fast_decoder::unread(src)[i]
                == buffers::cursor_bytes(src)[buffers::cursor_position(src) + i],
{
}

/// An accepted block leaves the input empty, with the cursor at its start; a refused
/// one leaves input and cursor as they were.
pub proof fn law_taken(before: Cursor<&mut BytesMut>, after: Cursor<&mut BytesMut>)
    ensures
        fast_decoder::taken(before, after, true) <==> buffers::cursor_bytes(after).len() == 0
            && buffers::cursor_position(after) == 0,
        fast_decoder::taken(before, after, false) <==> buffers::cursor_bytes(after)
            == buffers::cursor_bytes(before) && buffers::cursor_position(after)
            == buffers::cursor_position(before),
{
    if buffers::cursor_bytes(after).len() == 0 {
        assert(buffers::cursor_bytes(after) =~= Seq::<u8>::empty());
    }
}

/// What decoders have in common is, of this one, what its state says.
pub proof fn law_decoder(decoder: FastDecoder, after: FastDecoder, data: Seq<u8>)
    ensures
        decoder.can_decode(data) <==> decoder.wf() && decoder@.fits(data),
        decoder.decoding(data) == decoder@.outcome(data),
        decoder.becomes(data, &after) <==> after.wf() && after@ == decoder@.after(data),
{
}

} // verus!
