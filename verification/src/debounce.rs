//! Debounced search evaluation: every keystroke schedules an
//! evaluation of its query after a fixed delay and cancels whatever
//! was scheduled before, so of a burst of keystrokes only the last
//! query is ever evaluated, once.

use vstd::prelude::*;

verus! {

/// The delay, in milliseconds, between the last keystroke and the
/// evaluation of its query.
pub const DEBOUNCE_MILLIS: u64 = 300;

/// The scheduling state of one search box: the query waiting to be
/// evaluated, if any, and the generation of the newest keystroke.
/// A timer callback carries the generation it was scheduled with and
/// evaluates only if no newer keystroke has come since.
#[derive(Debug)]
pub struct Debouncer {
    pub pending: Option<String>,
    pub generation: u64,
}

/// Mathematical model of a [`Debouncer`].
#[verifier::ext_equal]
pub struct DebouncerModel {
    pub pending: Option<Seq<char>>,
    pub generation: u64,
}

impl View for Debouncer {
    type V = DebouncerModel;

    open spec fn view(&self) -> DebouncerModel {
        DebouncerModel {
            pending: match self.pending {
                Some(q) => Some(q@),
                None => None,
            },
            generation: self.generation,
        }
    }
}

impl Debouncer {
    /// A fresh search box: nothing pending.
    pub fn new() -> (r: Debouncer)
        ensures
            r@.pending is None,
            r@.generation == 0,
    {
        Debouncer { pending: None, generation: 0 }
    }

    /// A keystroke: schedules `query` for evaluation and cancels any
    /// earlier schedule by outdating its token. Returns the token the
    /// caller hands to the timer it starts.
    pub fn input(&mut self, query: String) -> (token: u64)
        requires
            old(self)@.generation < u64::MAX,
        ensures
            final(self)@.pending == Some(query@),
            final(self)@.generation == old(self)@.generation + 1,
            token == final(self)@.generation,
    {
        self.generation = self.generation + 1;
        self.pending = Some(query);
        self.generation
    }

    /// A timer firing with its token: hands out the pending query for
    /// evaluation only when the token is still the newest keystroke's;
    /// an outdated timer evaluates nothing and changes nothing.
    pub fn fire(&mut self, token: u64) -> (r: Option<String>)
        ensures
            final(self)@.generation == old(self)@.generation,
            token == old(self)@.generation && old(self)@.pending is Some ==> {
                &&& r matches Some(q) && Some(q@) == old(self)@.pending
                &&& final(self)@.pending is None
            },
            token != old(self)@.generation || old(self)@.pending is None ==> (r is None
                && final(self)@ == old(self)@),
    {
        if token == self.generation {
            let out = self.pending.take();
            proof {
                if old(self)@.pending is None {
                    assert(final(self)@ =~= old(self)@);
                }
            }
            out
        } else {
            None
        }
    }
}

} // verus!
