//! The dashboard's shared state and its bounded store of recent log lines.

use std::collections::VecDeque;
use vstd::prelude::*;

verus! {

/// How many log lines the store keeps.
pub const LOG_CAPACITY: usize = 100;

/// State the dashboard server reports on.
pub struct AppState {
    pub health: bool,
}

/// The most recent log lines, oldest first.
///
/// The application shares one store between tasks behind a lock; the store
/// itself is a plain value.
pub struct LogStore {
    pub entries: VecDeque<String>,
}

/// The lines after appending `msg` to `lines`: when that makes more than
/// [`LOG_CAPACITY`], the oldest line is dropped.
pub open spec fn pushed(lines: Seq<String>, msg: String) -> Seq<String> {
    let grown = lines.push(msg);
    if grown.len() > LOG_CAPACITY {
        grown.drop_first()
    } else {
        grown
    }
}

impl LogStore {
    /// An empty store.
    pub fn new() -> (s: Self)
        ensures
            s.entries@ == Seq::<String>::empty(),
    {
        Self { entries: VecDeque::with_capacity(LOG_CAPACITY) }
    }

    /// Appends a line, dropping the oldest one past the capacity.
    pub fn push(&mut self, msg: String)
        ensures
            final(self).entries@ == pushed(old(self).entries@, msg),
    {
        let ghost grown = self.entries@.push(msg);
        self.entries.push_back(msg);
        if self.entries.len() > LOG_CAPACITY {
            let dropped = self.entries.pop_front();
            assert(self.entries@ =~= grown.drop_first());
        }
    }

    /// The stored lines, oldest first.
    pub fn get(&self) -> (lines: Vec<String>)
        ensures
            lines@ == self.entries@,
    {
        let mut out: Vec<String> = Vec::new();
        let n = self.entries.len();
        let mut i: usize = 0;
        while i < n
            invariant
                i <= n,
                n == self.entries@.len(),
                out@ == self.entries@.take(i as int),
            decreases n - i,
        {
            out.push(self.entries[i].clone());
            assert(out@ =~= self.entries@.take(i + 1));
            i = i + 1;
        }
        assert(self.entries@.take(n as int) =~= self.entries@);
        out
    }
}

/// The store never holds more than [`LOG_CAPACITY`] lines once it is within
/// that bound, always ends with the line just pushed, and keeps the newest
/// lines in their order: what it holds is a suffix of the old lines followed
/// by the new one.
pub proof fn lemma_log_store_bounded(lines: Seq<String>, msg: String)
    requires
        lines.len() <= LOG_CAPACITY,
    ensures
        pushed(lines, msg).len() <= LOG_CAPACITY,
        pushed(lines, msg).last() == msg,
        pushed(lines, msg) == lines.push(msg).subrange(
            lines.push(msg).len() - pushed(lines, msg).len(),
            lines.push(msg).len() as int,
        ),
        lines.len() < LOG_CAPACITY ==> pushed(lines, msg).len() == lines.len() + 1,
{
    let grown = lines.push(msg);
    if grown.len() > LOG_CAPACITY {
        assert(grown.drop_first() =~= grown.subrange(1, grown.len() as int));
    } else {
        assert(grown =~= grown.subrange(0, grown.len() as int));
    }
}

} // verus!
