use vstd::prelude::*;

use crate::game::IoFailure;

verus! {

/// A line source held in memory: it hands out its lines in order, then reports
/// the end of input, or a read fault where it was built to fail there.
pub struct ScriptedInput {
    lines: Vec<String>,
    fails_at_end: bool,
}

impl ScriptedInput {
    /// The lines not yet read.
    pub closed spec fn pending(&self) -> Seq<Seq<char>> {
        self.lines.deep_view()
    }

    /// Whether the read after the last line faults instead of reporting the end.
    pub closed spec fn faults_at_end(&self) -> bool {
        self.fails_at_end
    }

    /// A source of `lines`, then the end of input.
    pub fn new(lines: Vec<String>) -> (r: Self)
        ensures
            r.pending() == lines.deep_view(),
            !r.faults_at_end(),
    {
        ScriptedInput { lines, fails_at_end: false }
    }

    /// A source of `lines`, then a read fault.
    pub fn failing_after(lines: Vec<String>) -> (r: Self)
        ensures
            r.pending() == lines.deep_view(),
            r.faults_at_end(),
    {
        ScriptedInput { lines, fails_at_end: true }
    }

    /// Reads the next line: `Ok(Some(line))`, `Ok(None)` at the end of input, or
    /// `Err(InputFault)` where the source faults.
    pub fn read_line(&mut self) -> (r: Result<Option<String>, IoFailure>)
        ensures
            old(self).pending().len() > 0 ==> (r matches Ok(Some(l)) && l@ == old(
                self,
            ).pending()[0]) && final(self).pending() == old(self).pending().drop_first(),
            old(self).pending().len() == 0 ==> final(self).pending() == old(self).pending() && r == (
            if old(self).faults_at_end() {
                Err::<Option<String>, IoFailure>(IoFailure::InputFault)
            } else {
                Ok::<Option<String>, IoFailure>(None)
            }),
            final(self).faults_at_end() == old(self).faults_at_end(),
    {
        if self.lines.len() > 0 {
            let line = self.lines.remove(0);
            assert(self.lines.deep_view() =~= old(self).pending().drop_first());
            Ok(Some(line))
        } else if self.fails_at_end {
            Err(IoFailure::InputFault)
        } else {
            Ok(None)
        }
    }
}

/// A sink held in memory: it records each line written, and where it was built
/// with a limit, faults on every write once that many lines are recorded.
pub struct RecordingOutput {
    lines: Vec<String>,
    limit: Option<usize>,
}

impl RecordingOutput {
    /// The lines written so far.
    pub closed spec fn written(&self) -> Seq<Seq<char>> {
        self.lines.deep_view()
    }

    /// How many lines the sink holds in all once it faults, if it ever does: its
    /// limit, which is never below the count of lines it holds.
    pub closed spec fn limit(&self) -> Option<nat> {
        match self.limit {
            Some(n) => if n < self.lines.len() {
                Some(self.lines.len() as nat)
            } else {
                Some(n as nat)
            },
            None => None,
        }
    }

    /// Whether `k` more lines can be written without a fault.
    pub open spec fn accepts(&self, k: nat) -> bool {
        self.limit() is None || self.written().len() + k <= self.limit()->0
    }

    /// How many more lines a sink with a limit takes before it faults.
    pub open spec fn room(&self) -> nat {
        if self.limit() is Some && self.written().len() < self.limit()->0 {
            (self.limit()->0 - self.written().len()) as nat
        } else {
            0
        }
    }

    /// A sink never holds more lines than its limit.
    pub proof fn lemma_within_limit(&self)
        ensures
            self.accepts(0),
    {
    }

    /// A sink that never faults.
    pub fn new() -> (r: Self)
        ensures
            r.written() == Seq::<Seq<char>>::empty(),
            r.limit() is None,
    {
        let r = RecordingOutput { lines: Vec::new(), limit: None };
        assert(r.written() =~= Seq::<Seq<char>>::empty());
        r
    }

    /// A sink that takes `n` lines and faults on every write after them.
    pub fn failing_after(n: usize) -> (r: Self)
        ensures
            r.written() == Seq::<Seq<char>>::empty(),
            r.limit() == Some(n as nat),
    {
        let r = RecordingOutput { lines: Vec::new(), limit: Some(n) };
        assert(r.written() =~= Seq::<Seq<char>>::empty());
        r
    }

    /// Writes one line, or faults with `OutputFault` and records nothing.
    pub fn write_line(&mut self, line: &str) -> (r: Result<(), IoFailure>)
        ensures
            old(self).accepts(1) ==> r is Ok && final(self).written() == old(self).written().push(
                line@,
            ),
            !old(self).accepts(1) ==> r == Err::<(), IoFailure>(IoFailure::OutputFault)
                && final(self).written() == old(self).written(),
            final(self).limit() == old(self).limit(),
    {
        match self.limit {
            Some(n) => {
                if self.lines.len() >= n {
                    return Err(IoFailure::OutputFault);
                }
            },
            None => {},
        }
        self.lines.push(String::from_str(line));
        assert(self.lines.deep_view() =~= old(self).written().push(line@));
        Ok(())
    }

    /// The lines written so far.
    pub fn lines(&self) -> (r: &Vec<String>)
        ensures
            r.deep_view() == self.written(),
    {
        &self.lines
    }
}

} // verus!
