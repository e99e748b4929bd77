//! The retrieval pipeline's cursor.
//!
//! A GET reassembles an object by fetching from the backend repeatedly:
//! each fetch starts at the cursor, the backend decides how many bytes
//! come back, and the cursor advances by exactly that many. The stream is
//! forward-only and not restartable, and the first fetch error is
//! terminal: a failed cursor issues no further fetch, so nothing is
//! emitted after an error.

use vstd::prelude::*;

verus! {

/// A forward-only read of one stored part of an object.
pub struct RetrievalCursor {
    backend_key: String,
    start: u64,
    cursor: u64,
    end: u64,
    failed: bool,
    emitted: Ghost<Seq<u8>>,
}

impl RetrievalCursor {
    pub closed spec fn backend_key_spec(self) -> Seq<char> {
        self.backend_key@
    }

    pub closed spec fn start_spec(self) -> int {
        self.start as int
    }

    pub closed spec fn cursor_spec(self) -> int {
        self.cursor as int
    }

    pub closed spec fn end_spec(self) -> int {
        self.end as int
    }

    pub closed spec fn failed_spec(self) -> bool {
        self.failed
    }

    /// Every byte handed downstream so far, in order.
    pub closed spec fn emitted_bytes(self) -> Seq<u8> {
        self.emitted@
    }

    pub open spec fn wf(self) -> bool {
        &&& self.start_spec() <= self.cursor_spec()
        &&& self.emitted_bytes().len() == self.cursor_spec() - self.start_spec()
    }

    /// The offset the next backend fetch must use — or nothing, once the
    /// span is exhausted or a fetch has failed.
    pub open spec fn next_fetch_spec(self) -> Option<int> {
        if self.failed_spec() || self.cursor_spec() >= self.end_spec() {
            None
        } else {
            Some(self.cursor_spec())
        }
    }

    /// Open a cursor over `[start, end)` of the part stored under
    /// `backend_key`.
    pub fn start(backend_key: String, start: u64, end: u64) -> (c: RetrievalCursor)
        ensures
            c.wf(),
            c.backend_key_spec() == backend_key@,
            c.start_spec() == start,
            c.cursor_spec() == start,
            c.end_spec() == end,
            !c.failed_spec(),
            c.emitted_bytes() == Seq::<u8>::empty(),
    {
        RetrievalCursor {
            backend_key,
            start,
            cursor: start,
            end,
            failed: false,
            emitted: Ghost(Seq::<u8>::empty()),
        }
    }

    /// Which fetch to issue next, if any.
    pub fn next_fetch(&self) -> (r: Option<u64>)
        ensures
            match r {
                Some(o) => self.next_fetch_spec() == Some(o as int),
                None => self.next_fetch_spec() is None,
            },
    {
        if self.failed || self.cursor >= self.end {
            None
        } else {
            Some(self.cursor)
        }
    }

    /// Hand the bytes one fetch returned downstream: the cursor advances
    /// by exactly their number, whatever length the backend chose.
    pub fn advance(&mut self, got: &Vec<u8>)
        requires
            old(self).wf(),
            !old(self).failed_spec(),
            old(self).cursor_spec() + got@.len() <= u64::MAX,
        ensures
            final(self).wf(),
            !final(self).failed_spec(),
            final(self).backend_key_spec() == old(self).backend_key_spec(),
            final(self).start_spec() == old(self).start_spec(),
            final(self).end_spec() == old(self).end_spec(),
            final(self).cursor_spec() == old(self).cursor_spec() + got@.len(),
            final(self).emitted_bytes() == old(self).emitted_bytes() + got@,
    {
        self.cursor = self.cursor + got.len() as u64;
        proof {
            self.emitted@ = self.emitted@ + got@;
        }
    }

    /// A fetch failed. The cursor becomes terminal: nothing already
    /// emitted can be retracted, and nothing more will be fetched or
    /// emitted.
    pub fn fail(&mut self)
        ensures
            final(self).failed_spec(),
            final(self).backend_key_spec() == old(self).backend_key_spec(),
            final(self).start_spec() == old(self).start_spec(),
            final(self).cursor_spec() == old(self).cursor_spec(),
            final(self).end_spec() == old(self).end_spec(),
            final(self).emitted_bytes() == old(self).emitted_bytes(),
            final(self).next_fetch_spec() is None,
    {
        self.failed = true;
    }

    /// The key of the part this cursor reads.
    pub fn backend_key(&self) -> (r: &String)
        ensures
            r@ == self.backend_key_spec(),
    {
        &self.backend_key
    }
}

/// Law: after a fetch error the pipeline stops — a failed cursor never
/// issues another fetch, so no further bytes are emitted after the error.
pub proof fn lemma_no_fetch_after_failure(c: RetrievalCursor)
    requires
        c.failed_spec(),
    ensures
        c.next_fetch_spec() is None,
{
}

/// Law: reassembly is exact. If the emitted stream so far is the stored
/// object's prefix up to the cursor, and a fetch returns the stored bytes
/// at the cursor, then after appending them the emitted stream is again
/// exactly the stored prefix — so a stream that reaches the object's end
/// this way has emitted the object byte for byte.
pub proof fn lemma_reassembly_step(stored: Seq<u8>, emitted: Seq<u8>, at: int, got: Seq<u8>)
    requires
        0 <= at,
        at + got.len() <= stored.len(),
        emitted == stored.subrange(0, at),
        got == stored.subrange(at, at + got.len()),
    ensures
        emitted + got == stored.subrange(0, at + got.len()),
        at + got.len() == stored.len() ==> emitted + got == stored,
{
    assert(emitted + got =~= stored.subrange(0, at + got.len()));
    if at + got.len() == stored.len() {
        assert(stored.subrange(0, at + got.len()) =~= stored);
    }
}

} // verus!
