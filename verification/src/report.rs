//! Tallying the jobs of one run, and the summary that the run ends with.
use vstd::prelude::*;
use vstd::string::*;
use crate::job::Outcome;
use crate::join::{seq_join, texts, StringJoinExt};
use crate::text::{
    decimal, decimal_spec, decimal_value, is_digit, law_decimal_is_digits, law_decimal_roundtrip,
};

verus! {

/// How a job's task came back.
#[derive(Debug)]
pub enum Completion {
    /// The task ran to its end.
    Finished(Outcome),
    /// The task panicked.
    Panicked,
    /// The task was cancelled.
    Cancelled,
}

/// What the run does after a task came back.
#[derive(Debug, PartialEq, Eq)]
pub enum Verdict {
    /// Go on with the next task.
    Continue,
    /// Stop the run with this error: a task panicked, which points to a bug.
    Panic(String),
    /// Stop the run quietly: a task was cancelled.
    Cancel,
}

/// The line recorded for a failure: the path, `: `, and the message.
pub open spec fn failure_line(f: (Seq<char>, Seq<char>)) -> Seq<char> {
    f.0 + ": "@ + f.1
}

/// The message with which a run stops when task `index` panicked.
pub open spec fn panic_text(index: nat) -> Seq<char> {
    "Child "@ + decimal_spec(index) + " panic"@
}

/// The summary of a run with `failed` failures among `done` finished jobs.
pub open spec fn summary_text(failed: nat, done: nat) -> Seq<char> {
    decimal_spec(failed) + "/"@ + decimal_spec(done) + " tasks failed to complete successfullly"@
}

/// The summary reads back as the tally: it opens with the digits of the
/// number of failures, then `/`, then the digits of the number of finished
/// jobs, then ` tasks failed to complete successfullly`; the digits before
/// the `/` read as the failures and those after it as the jobs.
pub proof fn law_summary_reads_back(failed: nat, done: nat)
    ensures
        ({
            let s = summary_text(failed, done);
            let k = decimal_spec(failed).len() as int;
            let m = k + 1 + decimal_spec(done).len();
            &&& 0 < k < m < s.len()
            &&& s[k] == '/'
            &&& forall|j: int| 0 <= j < k ==> is_digit(#[trigger] s[j])
            &&& forall|j: int| k < j < m ==> is_digit(#[trigger] s[j])
            &&& decimal_value(s.take(k)) == failed
            &&& decimal_value(s.subrange(k + 1, m)) == done
            &&& s.skip(m) == " tasks failed to complete successfullly"@
            &&& s[m] == ' '
        }),
{
    reveal_strlit("/");
    reveal_strlit(" tasks failed to complete successfullly");
    let a = decimal_spec(failed);
    let b = decimal_spec(done);
    let tail = " tasks failed to complete successfullly"@;
    let s = summary_text(failed, done);
    law_decimal_roundtrip(failed);
    law_decimal_roundtrip(done);
    law_decimal_is_digits(failed);
    law_decimal_is_digits(done);
    let k = a.len() as int;
    let m = k + 1 + b.len();
    assert(s =~= a + seq!['/'] + b + tail);
    assert(s.take(k) =~= a);
    assert(s.subrange(k + 1, m) =~= b);
    assert(s.skip(m) =~= tail);
    assert forall|j: int| 0 <= j < k implies is_digit(#[trigger] s[j]) by {
        assert(s[j] == a[j]);
    }
    assert forall|j: int| k < j < m implies is_digit(#[trigger] s[j]) by {
        assert(s[j] == b[j - k - 1]);
    }
    assert(s[m] == tail[0]);
}

/// The tally of a run: the failures, each as its path and message, and the
/// number of jobs that finished.
#[derive(Debug)]
pub struct Report {
    failures: Vec<(String, String)>,
    done: usize,
}

impl Report {
    /// The failures so far, each as path and message, in the order they
    /// came.
    pub closed spec fn failures(&self) -> Seq<(Seq<char>, Seq<char>)> {
        self.failures@.map_values(|f: (String, String)| (f.0@, f.1@))
    }

    /// The number of jobs that finished, failed ones included.
    pub closed spec fn done(&self) -> nat {
        self.done as nat
    }

    /// A tally never counts more failures than finished jobs.
    pub open spec fn wf(&self) -> bool {
        self.failures().len() <= self.done()
    }

    /// An empty tally.
    pub fn new() -> (r: Report)
        ensures
            r.failures() == Seq::<(Seq<char>, Seq<char>)>::empty(),
            r.done() == 0,
            r.wf(),
    {
        let r = Report { failures: Vec::new(), done: 0 };
        assert(r.failures() =~= Seq::<(Seq<char>, Seq<char>)>::empty());
        r
    }

    /// Takes how task `index` came back. A finished job counts as done, and
    /// a failed one is recorded with its path and message; a panic stops
    /// the run with an error, a cancellation stops it quietly, and neither
    /// is counted.
    pub fn record(&mut self, index: usize, c: Completion) -> (v: Verdict)
        requires
            old(self).done() < usize::MAX,
        ensures
            old(self).wf() ==> final(self).wf(),
            match c {
                Completion::Finished(Outcome::Failed(e)) => {
                    &&& v == Verdict::Continue
                    &&& final(self).done() == old(self).done() + 1
                    &&& final(self).failures() == old(self).failures().push(
                        (e.spec_path(), e.spec_message()),
                    )
                },
                Completion::Finished(_) => {
                    &&& v == Verdict::Continue
                    &&& final(self).done() == old(self).done() + 1
                    &&& final(self).failures() == old(self).failures()
                },
                Completion::Panicked => {
                    &&& (v matches Verdict::Panic(m) && m@ == panic_text(index as nat))
                    &&& final(self).done() == old(self).done()
                    &&& final(self).failures() == old(self).failures()
                },
                Completion::Cancelled => {
                    &&& v == Verdict::Cancel
                    &&& final(self).done() == old(self).done()
                    &&& final(self).failures() == old(self).failures()
                },
            },
    {
        match c {
            Completion::Finished(outcome) => {
                match outcome {
                    Outcome::Failed(e) => {
                        let ghost before = self.failures();
                        let path = String::from_str(e.path());
                        let message = e.message();
                        self.failures.push((path, message));
                        assert(self.failures() =~= before.push((e.spec_path(), e.spec_message())));
                    },
                    _ => {},
                }
                self.done = self.done + 1;
                Verdict::Continue
            },
            Completion::Panicked => {
                let mut m = String::from_str("Child ");
                let number = decimal(index);
                m.append(number.as_str());
                m.append(" panic");
                Verdict::Panic(m)
            },
            Completion::Cancelled => Verdict::Cancel,
        }
    }

    /// The number of failures.
    pub fn failed(&self) -> (n: usize)
        ensures
            n == self.failures().len(),
    {
        self.failures.len()
    }

    /// The number of finished jobs.
    pub fn finished(&self) -> (n: usize)
        ensures
            n == self.done(),
    {
        self.done
    }

    /// The summary that ends a run with failures, or `None` when nothing
    /// failed.
    pub fn summary(&self) -> (r: Option<String>)
        ensures
            match r {
                None => self.failures().len() == 0,
                Some(s) => self.failures().len() > 0 && s@ == summary_text(
                    self.failures().len(),
                    self.done(),
                ),
            },
    {
        if self.failures.len() == 0 {
            return None;
        }
        let mut s = decimal(self.failures.len());
        s.append("/");
        let done = decimal(self.done);
        s.append(done.as_str());
        s.append(" tasks failed to complete successfullly");
        Some(s)
    }

    /// The failures, one line each, joined by newlines.
    pub fn failure_lines(&self) -> (r: String)
        ensures
            r@ == seq_join(self.failures().map_values(|f| failure_line(f)), "\n"@),
    {
        let mut lines: Vec<String> = Vec::new();
        let n = self.failures.len();
        let mut i: usize = 0;
        while i < n
            invariant
                n == self.failures.len(),
                i <= n,
                texts(lines@) == self.failures().take(i as int).map_values(
                    |f| failure_line(f),
                ),
            decreases n - i,
        {
            let mut line = self.failures[i].0.clone();
            line.append(": ");
            line.append(self.failures[i].1.as_str());
            let ghost before = lines@;
            assert(line@ == failure_line(self.failures()[i as int]));
            lines.push(line);
            assert(texts(lines@) =~= texts(before).push(failure_line(self.failures()[i as int])));
            assert(self.failures().take(i + 1) =~= self.failures().take(i as int).push(
                self.failures()[i as int],
            ));
            assert(texts(lines@) =~= self.failures().take(i + 1).map_values(
                |f| failure_line(f),
            ));
            i = i + 1;
        }
        assert(self.failures().take(n as int) =~= self.failures());
        lines.join("\n")
    }
}

} // verus!
