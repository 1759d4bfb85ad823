//! Receipt boundaries on one connection: which bytes to print, and when.
use vstd::prelude::*;

use crate::escpos::{contains_cut_command, has_cut_command};

verus! {

/// What happened on the connection.
pub enum Event {
    /// Bytes arrived.
    Received(Vec<u8>),
    /// The peer closed the connection.
    Closed,
    /// Reading failed; the connection is dropped.
    Failed,
    /// A periodic check, with the whole seconds since bytes last arrived.
    Tick(u64),
}

/// What the connection handler does next.
pub enum Action {
    /// Nothing yet.
    Wait,
    /// Decode these bytes as one receipt and render it.
    Print(Vec<u8>),
    /// Decode and render these bytes, then close.
    PrintAndClose(Vec<u8>),
    /// Close without printing.
    Close,
}

/// The bytes of the receipt being received on one connection.
pub struct Session {
    job: Vec<u8>,
    auto_cut_timeout: Option<u64>,
}

impl Session {
    /// Bytes received since the last printed receipt.
    pub closed spec fn pending(&self) -> Seq<u8> {
        self.job@
    }

    /// Idle seconds after which pending bytes are printed, if any.
    pub closed spec fn timeout(&self) -> Option<u64> {
        self.auto_cut_timeout
    }

    /// A session with nothing received.
    pub fn new(auto_cut_timeout: Option<u64>) -> (r: Session)
        ensures
            r.pending() == Seq::<u8>::empty(),
            r.timeout() == auto_cut_timeout,
    {
        Session { job: Vec::new(), auto_cut_timeout }
    }

    /// The next action. Received bytes are added to the pending ones, which
    /// are printed as soon as they hold a cut command; on close they are
    /// printed if any; on a tick they are printed once the connection has
    /// been idle for the timeout, if one was set; a failed read drops them.
    pub fn on_event(&mut self, ev: Event) -> (r: Action)
        ensures
            final(self).timeout() == old(self).timeout(),
            match ev {
                Event::Received(b) => {
                    let j = old(self).pending() + b@;
                    if has_cut_command(j) {
                        r is Print && r->Print_0@ == j && final(self).pending().len() == 0
                    } else {
                        r is Wait && final(self).pending() == j
                    }
                },
                Event::Closed => if old(self).pending().len() > 0 {
                    r is PrintAndClose && r->PrintAndClose_0@ == old(self).pending()
                        && final(self).pending().len() == 0
                } else {
                    r is Close && final(self).pending().len() == 0
                },
                Event::Failed => r is Close && final(self).pending().len() == 0,
                Event::Tick(idle) => if old(self).timeout() is Some && idle >= old(
                    self,
                ).timeout()->0 && old(self).pending().len() > 0 {
                    r is Print && r->Print_0@ == old(self).pending() && final(self).pending().len()
                        == 0
                } else {
                    r is Wait && final(self).pending() == old(self).pending()
                },
            },
    {
        match ev {
            Event::Received(b) => {
                let mut k: usize = 0;
                let ghost start = self.job@;
                while k < b.len()
                    invariant
                        k <= b@.len(),
                        self.job@ == start + b@.take(k as int),
                        self.auto_cut_timeout == old(self).auto_cut_timeout,
                    decreases b@.len() - k,
                {
                    self.job.push(b[k]);
                    k = k + 1;
                    assert(b@.take(k as int) =~= b@.take(k - 1).push(b@[k - 1]));
                }
                assert(b@.take(k as int) =~= b@);
                if contains_cut_command(self.job.as_slice()) {
                    Action::Print(self.take_job())
                } else {
                    Action::Wait
                }
            },
            Event::Closed => {
                if self.job.len() > 0 {
                    Action::PrintAndClose(self.take_job())
                } else {
                    Action::Close
                }
            },
            Event::Failed => {
                self.job = Vec::new();
                Action::Close
            },
            Event::Tick(idle) => {
                match self.auto_cut_timeout {
                    Some(t) => {
                        if idle >= t && self.job.len() > 0 {
                            Action::Print(self.take_job())
                        } else {
                            Action::Wait
                        }
                    },
                    None => Action::Wait,
                }
            },
        }
    }

    fn take_job(&mut self) -> (r: Vec<u8>)
        ensures
            r@ == old(self).job@,
            final(self).job@.len() == 0,
            final(self).auto_cut_timeout == old(self).auto_cut_timeout,
    {
        let r = self.job.split_off(0);
        assert(r@ =~= old(self).job@);
        r
    }
}

} // verus!
