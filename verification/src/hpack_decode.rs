//! What decoders of header blocks have in common.
use crate::buffers;
use crate::error::DecoderError;
use crate::fast_decoder;
use crate::fast_decoder::FastDecoder;
use crate::headers;
use crate::headers::Header;
use crate::sink;
use bytes::BytesMut;
use std::io::Cursor;
use vstd::prelude::*;

verus! {

/// A decoder of header blocks.
pub trait HpackDecode: Sized {
    /// The decoder can take in this block.
    spec fn can_decode(&self, data: Seq<u8>) -> bool;

    /// The headers that the block delivers, and how it ends.
    spec fn decoding(&self, data: Seq<u8>) -> (
        Seq<headers::HeaderView>,
        Result<(), DecoderError>,
    );

    /// What the block makes of the decoder.
    spec fn becomes(&self, data: Seq<u8>, after: &Self) -> bool;

    /// Decodes a block and hands its headers to `f`, one after the other, and
    /// nothing else.
    ///
    /// `f` need only take a header once it has been handed all those before it, so it
    /// is handed them in their order. The contract leaves open how often it is handed
    /// one that it has had; for the number, see `FastDecoder::decode_to_vec`.
    fn decode<F>(&mut self, src: &mut Cursor<&mut BytesMut>, f: F) -> (r: Result<
        (),
        DecoderError,
    >) where F: FnMut(Header)
        requires
            old(self).can_decode(fast_decoder::unread(*old(src))),
            buffers::cursor_position(*old(src)) <= buffers::cursor_bytes(*old(src)).len(),
            forall|sent: Seq<Header>, next: Header|
                #![trigger sink::handed(f, sent), call_requires(f, (next,))]
                {
                    let due = old(self).decoding(fast_decoder::unread(*old(src))).0;
                    &&& sink::handed(f, sent)
                    &&& sent.len() < due.len()
                    &&& fast_decoder::views(sent) == due.take(sent.len() as int)
                    &&& next@ == due[sent.len() as int]
                } ==> call_requires(f, (next,)),
        ensures
            old(self).becomes(fast_decoder::unread(*old(src)), final(self)),
            r == old(self).decoding(fast_decoder::unread(*old(src))).1,
            exists|sent: Seq<Header>| #[trigger]
                sink::handed(f, sent) && fast_decoder::views(sent) == old(self).decoding(
                    fast_decoder::unread(*old(src)),
                ).0,
            fast_decoder::taken(*old(src), *final(src), r is Ok),
    ;
}

impl HpackDecode for FastDecoder {
    open spec fn can_decode(&self, data: Seq<u8>) -> bool {
        self.wf() && self@.fits(data)
    }

    open spec fn decoding(&self, data: Seq<u8>) -> (
        Seq<headers::HeaderView>,
        Result<(), DecoderError>,
    ) {
        self@.outcome(data)
    }

    open spec fn becomes(&self, data: Seq<u8>, after: &Self) -> bool {
        after.wf() && after@ == self@.after(data)
    }

    fn decode<F>(&mut self, src: &mut Cursor<&mut BytesMut>, f: F) -> (r: Result<
        (),
        DecoderError,
    >) where F: FnMut(Header) {
        FastDecoder::decode(self, src, f)
    }
}

} // verus!
