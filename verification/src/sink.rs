//! Where decoded headers go.
use crate::fast_decoder;
use crate::headers::{Header, HeaderView};
use vstd::prelude::*;

verus! {

/// Each of the headers was handed to `f`.
pub open spec fn handed<F: FnMut(Header)>(f: F, headers: Seq<Header>) -> bool {
    forall|i: int| 0 <= i < headers.len() ==> call_ensures(f, (#[trigger] headers[i],), ())
}

/// Takes headers, one after the other.
pub(crate) trait Sink: Sized {
    /// The headers that it has taken.
    spec fn got(&self) -> Seq<Header>;

    /// The sink may be given this header.
    spec fn accepts(&self, header: Header) -> bool;

    /// The sink may be given the headers of `due`, each once it has taken those
    /// before it.
    spec fn in_turn(&self, due: Seq<HeaderView>) -> bool;

    /// What stays true of the sink while it takes headers.
    spec fn keeps(&self, before: &Self) -> bool;

    /// The sink may be given the next header of `due`.
    proof fn lemma_next(&self, due: Seq<HeaderView>, header: Header)
        requires
            self.keeps(self),
            self.in_turn(due),
            self.got().len() < due.len(),
            fast_decoder::views(self.got()) == due.take(self.got().len() as int),
            header@ == due[self.got().len() as int],
        ensures
            self.accepts(header),
    ;

    /// Takes a header.
    fn put(&mut self, header: Header)
        requires
            old(self).accepts(header),
        ensures
            final(self).got() == old(self).got().push(header),
            forall|before: &Self| #[trigger] old(self).keeps(before) ==> final(self).keeps(before),
            forall|other: Header| #[trigger]
                final(self).accepts(other) == old(self).accepts(other),
            forall|due: Seq<HeaderView>| #[trigger]
                final(self).in_turn(due) == old(self).in_turn(due),
            old(self).keeps(old(self)) ==> final(self).keeps(final(self)),
    ;
}

impl Sink for Vec<Header> {
    open spec fn got(&self) -> Seq<Header> {
        self@
    }

    open spec fn accepts(&self, header: Header) -> bool {
        true
    }

    open spec fn in_turn(&self, due: Seq<HeaderView>) -> bool {
        true
    }

    open spec fn keeps(&self, before: &Self) -> bool {
        true
    }

    proof fn lemma_next(&self, due: Seq<HeaderView>, header: Header) {
    }

    fn put(&mut self, header: Header) {
        self.push(header);
    }
}

/// A function that headers are handed to, and those that it has been handed.
pub(crate) struct Callback<F> {
    pub f: F,
    pub sent: Ghost<Seq<Header>>,
}

impl<F: FnMut(Header)> Sink for Callback<F> {
    open spec fn got(&self) -> Seq<Header> {
        self.sent@
    }

    open spec fn accepts(&self, header: Header) -> bool {
        call_requires(self.f, (header,))
    }

    open spec fn in_turn(&self, due: Seq<HeaderView>) -> bool {
        fast_decoder::may_be_handed(self.f, due)
    }

    open spec fn keeps(&self, before: &Self) -> bool {
        self.f == before.f && handed(self.f, self.sent@)
    }

    proof fn lemma_next(&self, due: Seq<HeaderView>, header: Header) {
        assert(handed(self.f, self.sent@));
    }

    fn put(&mut self, header: Header) {
        proof {
            self.sent@ = self.sent@.push(header);
        }
        (self.f)(header);
    }
}

} // verus!
