//! The event log: the most recent result lines, oldest first.

use vstd::prelude::*;

verus! {

/// The number of lines that the log retains.
pub const LOG_CAPACITY: usize = 50;

/// The last `n` items of `s`; all of `s` where it has no more than `n`.
pub open spec fn last_n<A>(s: Seq<A>, n: nat) -> Seq<A> {
    if s.len() > n {
        s.skip(s.len() - n)
    } else {
        s
    }
}

/// The texts of a sequence of lines, in order.
pub open spec fn line_views(lines: Seq<String>) -> Seq<Seq<char>> {
    lines.map_values(|l: String| l@)
}

/// The log after `lines` were appended to `log` one by one.
pub open spec fn appended_all(log: Seq<Seq<char>>, lines: Seq<Seq<char>>) -> Seq<Seq<char>>
    decreases lines.len(),
{
    if lines.len() == 0 {
        log
    } else {
        last_n(appended_all(log, lines.drop_last()).push(lines.last()), LOG_CAPACITY as nat)
    }
}

/// An ordered log of result lines that retains the most recent ones.
#[derive(Debug, PartialEq, Eq)]
pub struct EventLog {
    /// The retained lines, oldest first.
    pub entries: Vec<String>,
}

impl View for EventLog {
    type V = Seq<Seq<char>>;

    open spec fn view(&self) -> Seq<Seq<char>> {
        line_views(self.entries@)
    }
}

/// Appending to a full log drops its oldest line and keeps the others in
/// their order, the new line last.
pub proof fn lemma_append_to_full(log: Seq<Seq<char>>, line: Seq<char>)
    requires
        log.len() == LOG_CAPACITY,
    ensures
        last_n(log.push(line), LOG_CAPACITY as nat) == log.skip(1).push(line),
        last_n(log.push(line), LOG_CAPACITY as nat).len() == LOG_CAPACITY,
{
    assert(log.push(line).skip(1) =~= log.skip(1).push(line));
}

impl EventLog {
    /// An empty log.
    pub fn new() -> (r: EventLog)
        ensures
            r@.len() == 0,
    {
        EventLog { entries: Vec::new() }
    }

    /// Appends `line`; where the log then holds more than `LOG_CAPACITY`
    /// lines, the oldest leave, so that the most recent `LOG_CAPACITY` stay,
    /// in their order.
    pub fn append(&mut self, line: String)
        ensures
            final(self)@ == last_n(old(self)@.push(line@), LOG_CAPACITY as nat),
            final(self)@.len() <= LOG_CAPACITY,
            final(self)@.len() > 0,
            final(self)@.last() == line@,
    {
        self.entries.push(line);
        let ghost full = self@;
        assert(full =~= old(self)@.push(line@));
        assert(full.skip(0) =~= full);
        while self.entries.len() > LOG_CAPACITY
            invariant
                full == old(self)@.push(line@),
                self.entries@.len() <= full.len(),
                self.entries@.len() >= LOG_CAPACITY || self.entries@.len() == full.len(),
                self@ == full.skip(full.len() - self.entries@.len()),
            decreases self.entries.len(),
        {
            let ghost before = self@;
            self.entries.remove(0);
            assert(self@ =~= before.skip(1));
            assert(before.skip(1) =~= full.skip(full.len() - self.entries@.len()));
        }
    }

    /// Appends `lines` one by one, in their order.
    pub fn append_all(&mut self, lines: &Vec<String>)
        ensures
            final(self)@ == appended_all(old(self)@, line_views(lines@)),
            final(self)@.len() <= LOG_CAPACITY || final(self)@ == old(self)@,
    {
        let ghost texts = line_views(lines@);
        let mut i: usize = 0;
        assert(texts.take(0) =~= Seq::<Seq<char>>::empty());
        while i < lines.len()
            invariant
                i <= lines.len(),
                texts == line_views(lines@),
                self@ == appended_all(old(self)@, texts.take(i as int)),
                self@.len() <= LOG_CAPACITY || self@ == old(self)@,
            decreases lines.len() - i,
        {
            assert(texts.take(i + 1).drop_last() =~= texts.take(i as int));
            self.append(lines[i].clone());
            i += 1;
        }
        assert(texts.take(i as int) =~= texts);
    }

    /// The number of lines retained.
    pub fn len(&self) -> (r: usize)
        ensures
            r == self@.len(),
    {
        self.entries.len()
    }

    /// The most recent `n` lines, oldest first; all of them where the log
    /// holds no more than `n`.
    pub fn log_tail(&self, n: usize) -> (r: Vec<String>)
        ensures
            line_views(r@) == last_n(self@, n as nat),
    {
        let len = self.entries.len();
        let start: usize = if len > n {
            len - n
        } else {
            0
        };
        let mut r: Vec<String> = Vec::new();
        let mut i: usize = start;
        while i < len
            invariant
                start <= i <= len,
                len == self.entries@.len(),
                line_views(r@) == self@.subrange(start as int, i as int),
            decreases len - i,
        {
            let line = self.entries[i].clone();
            let ghost before = r@;
            r.push(line);
            assert(line_views(before).len() == i - start);
            i += 1;
            assert(line_views(r@) =~= self@.subrange(start as int, i as int));
        }
        assert(self@.subrange(start as int, len as int) =~= last_n(self@, n as nat));
        r
    }
}

} // verus!
