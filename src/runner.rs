use vstd::prelude::*;
use vstd::string::StringExecFns;

use crate::registry::{Registry, Test};
use crate::text::{decimal, decimal_string};

verus! {

/// How one test case ended: its handler returned normally, or terminated abruptly.
#[derive(Clone, Copy, Debug, PartialEq, Eq, Structural)]
pub enum TestOutput {
    Pass,
    Fail,
}

/// The positions, in visit order, of the entries whose outcome is `o`.
pub open spec fn indices_of(s: Seq<TestOutput>, o: TestOutput) -> Seq<usize>
    decreases s.len(),
{
    if s.len() == 0 {
        Seq::empty()
    } else {
        let rest = indices_of(s.drop_last(), o);
        if s.last() == o {
            rest.push((s.len() - 1) as usize)
        } else {
            rest
        }
    }
}

/// The status line printed once a test case has run.
pub open spec fn status_text(name: Seq<char>, o: TestOutput) -> Seq<char> {
    match o {
        TestOutput::Pass => name + " OK"@,
        TestOutput::Fail => name + " failed"@,
    }
}

/// The message carried by the run-level fault.
pub open spec fn summary_text(passed: nat, failed: nat) -> Seq<char> {
    decimal(passed) + " passed, "@ + decimal(failed) + " failures"@
}

proof fn lemma_indices_of(s: Seq<TestOutput>, o: TestOutput)
    requires
        s.len() <= usize::MAX,
    ensures
        forall|i: usize| #[trigger]
            indices_of(s, o).contains(i) <==> (i < s.len() && s[i as int] == o),
        forall|a: int, b: int|
            0 <= a < b < indices_of(s, o).len() ==> indices_of(s, o)[a] < indices_of(s, o)[b],
        forall|k: int|
            0 <= k < indices_of(s, o).len() ==> indices_of(s, o)[k] < s.len(),
    decreases s.len(),
{
    if s.len() > 0 {
        let rest = s.drop_last();
        lemma_indices_of(rest, o);
        let last = (s.len() - 1) as usize;
        let r = indices_of(rest, o);
        assert forall|i: usize| 0 <= i < rest.len() implies rest[i as int] == s[i as int] by {}
        if s.last() == o {
            assert(indices_of(s, o) == r.push(last));
            assert forall|i: usize| #[trigger]
                indices_of(s, o).contains(i) <==> (i < s.len() && s[i as int] == o) by {
                if i == last {
                    assert(r.push(last)[r.len() as int] == i);
                } else if r.push(last).contains(i) {
                    let k = choose|k: int| 0 <= k < r.push(last).len() && r.push(last)[k] == i;
                    assert(r[k] == i);
                    assert(r.contains(i));
                } else if i < s.len() && s[i as int] == o {
                    assert(rest[i as int] == o);
                    assert(r.contains(i));
                    let k = choose|k: int| 0 <= k < r.len() && r[k] == i;
                    assert(r.push(last)[k] == i);
                }
            }
        } else {
            assert(indices_of(s, o) == r);
            assert forall|i: usize| #[trigger]
                indices_of(s, o).contains(i) <==> (i < s.len() && s[i as int] == o) by {
                if i < s.len() && s[i as int] == o {
                    assert(i != last);
                    assert(rest[i as int] == o);
                }
            }
        }
    }
}

proof fn lemma_indices_count(s: Seq<TestOutput>)
    ensures
        indices_of(s, TestOutput::Pass).len() + indices_of(s, TestOutput::Fail).len() == s.len(),
    decreases s.len(),
{
    if s.len() > 0 {
        lemma_indices_count(s.drop_last());
    }
}

/// Every entry of a run is classified exactly once: the passed and the failed positions
/// together number as many as the entries; an entry stands among the passed exactly when
/// its outcome is `Pass` and among the failed exactly when it is `Fail`, never both; and
/// each list keeps the visit order.
pub proof fn lemma_every_entry_classified(r: RunOutcome)
    requires
        r.wf(),
        r@.len() <= usize::MAX,
    ensures
        r.passed_view().len() + r.failed_view().len() == r@.len(),
        forall|i: usize| #[trigger] r.passed_view().contains(i)
            <==> (i < r@.len() && r@[i as int] == TestOutput::Pass),
        forall|i: usize| #[trigger] r.failed_view().contains(i)
            <==> (i < r@.len() && r@[i as int] == TestOutput::Fail),
        forall|i: usize| i < r@.len() ==>
            (#[trigger] r.passed_view().contains(i) != r.failed_view().contains(i)),
        forall|a: int, b: int| 0 <= a < b < r.passed_view().len()
            ==> r.passed_view()[a] < r.passed_view()[b],
        forall|a: int, b: int| 0 <= a < b < r.failed_view().len()
            ==> r.failed_view()[a] < r.failed_view()[b],
{
    lemma_indices_count(r@);
    lemma_indices_of(r@, TestOutput::Pass);
    lemma_indices_of(r@, TestOutput::Fail);
}

/// `emit` has been handed a string whose characters are `line`.
pub open spec fn emitted<E: Fn(String)>(emit: E, line: Seq<char>) -> bool {
    exists|s: String| s@ == line && #[trigger] emit.ensures((s,), ())
}

/// The outcomes of one run: the classification of each entry in visit order, and the
/// positions of the passed and of the failed entries.
pub struct RunOutcome {
    outcomes: Vec<TestOutput>,
    passed: Vec<usize>,
    failed: Vec<usize>,
}

impl View for RunOutcome {
    type V = Seq<TestOutput>;

    closed spec fn view(&self) -> Seq<TestOutput> {
        self.outcomes@
    }
}

impl RunOutcome {
    pub closed spec fn wf(&self) -> bool {
        &&& self.passed@ == indices_of(self.outcomes@, TestOutput::Pass)
        &&& self.failed@ == indices_of(self.outcomes@, TestOutput::Fail)
    }

    /// The positions of the entries that passed, in visit order.
    pub open spec fn passed_view(&self) -> Seq<usize> {
        indices_of(self@, TestOutput::Pass)
    }

    /// The positions of the entries that failed, in visit order.
    pub open spec fn failed_view(&self) -> Seq<usize> {
        indices_of(self@, TestOutput::Fail)
    }

    pub fn new() -> (r: Self)
        ensures
            r.wf(),
            r@ == Seq::<TestOutput>::empty(),
    {
        RunOutcome { outcomes: Vec::new(), passed: Vec::new(), failed: Vec::new() }
    }

    /// Classifies the next entry in visit order.
    pub fn record(&mut self, o: TestOutput)
        requires
            old(self).wf(),
            old(self)@.len() < usize::MAX,
        ensures
            final(self).wf(),
            final(self)@ == old(self)@.push(o),
    {
        let index = self.outcomes.len();
        self.outcomes.push(o);
        match o {
            TestOutput::Pass => self.passed.push(index),
            TestOutput::Fail => self.failed.push(index),
        }
        assert(self.outcomes@.drop_last() =~= old(self).outcomes@);
    }

    pub fn outcomes(&self) -> (r: &Vec<TestOutput>)
        ensures
            r@ == self@,
    {
        &self.outcomes
    }

    pub fn passed(&self) -> (r: &Vec<usize>)
        requires
            self.wf(),
        ensures
            r@ == self.passed_view(),
    {
        &self.passed
    }

    pub fn failed(&self) -> (r: &Vec<usize>)
        requires
            self.wf(),
        ensures
            r@ == self.failed_view(),
    {
        &self.failed
    }

    /// `None` when no entry failed; otherwise the message of the run-level fault,
    /// which counts the passed and the failed entries.
    pub fn verdict(&self) -> (r: Option<String>)
        requires
            self.wf(),
        ensures
            r is None <==> self.failed_view().len() == 0,
            r is None <==> forall|i: int| 0 <= i < self@.len() ==> self@[i] == TestOutput::Pass,
            r matches Some(m) ==> m@ == summary_text(
                self.passed_view().len(),
                self.failed_view().len(),
            ),
    {
        // The call bounds the number of outcomes by `usize::MAX`, which the lemma needs.
        let _count = self.outcomes.len();
        proof {
            lemma_indices_of(self@, TestOutput::Fail);
            if self.failed_view().len() == 0 {
                assert forall|i: int| 0 <= i < self@.len() implies self@[i] == TestOutput::Pass by {
                    if self@[i] == TestOutput::Fail {
                        assert(self.failed_view().contains(i as usize));
                    }
                }
            } else {
                let k = self.failed_view()[0];
                assert(self.failed_view().contains(k));
                assert(self@[k as int] == TestOutput::Fail);
            }
        }
        if self.failed.len() == 0 {
            None
        } else {
            let mut m = decimal_string(self.passed.len());
            m.append(" passed, ");
            let f = decimal_string(self.failed.len());
            m.append(f.as_str());
            m.append(" failures");
            Some(m)
        }
    }
}

/// The line that reports how the test case named `name` ended.
pub fn status_line(name: &str, o: TestOutput) -> (r: String)
    ensures
        r@ == status_text(name@, o),
{
    let mut line = String::from_str(name);
    match o {
        TestOutput::Pass => line.append(" OK"),
        TestOutput::Fail => line.append(" failed"),
    }
    line
}

impl TestOutput {
    /// A handler that returned normally passed; one that terminated abruptly failed.
    pub fn classify(returned_normally: bool) -> (r: TestOutput)
        ensures
            r == (if returned_normally { TestOutput::Pass } else { TestOutput::Fail }),
    {
        if returned_normally {
            TestOutput::Pass
        } else {
            TestOutput::Fail
        }
    }
}

/// Runs every entry of the registry once, in visit order. `exec` calls the entry's
/// handler behind a fault-isolation boundary and tells whether it returned normally;
/// the entry is classified from that alone and its status line is handed to `emit`.
/// A failed entry does not stop the run: every later entry is still executed and
/// classified by its own outcome.
pub fn run_all<H, F, E>(registry: &Registry<H>, exec: F, emit: E) -> (r: RunOutcome) where
    F: Fn(&Test<H>) -> bool,
    E: Fn(String),

    requires
        forall|i: int| 0 <= i < registry@.len() ==> exec.requires((&registry@[i],)),
        forall|line: String| emit.requires((line,)),
    ensures
        r.wf(),
        r@.len() == registry@.len(),
        forall|i: int|
            0 <= i < registry@.len() ==> (#[trigger] r@[i] == TestOutput::Pass ==> exec.ensures(
                (&registry@[i],),
                true,
            )) && (r@[i] == TestOutput::Fail ==> exec.ensures((&registry@[i],), false)),
        forall|i: int|
            0 <= i < registry@.len() ==> #[trigger] emitted(
                emit,
                status_text(registry@[i].name@, r@[i]),
            ),
{
    let entries = registry.iter();
    let mut run = RunOutcome::new();
    let mut i: usize = 0;
    while i < entries.len()
        invariant
            entries@ == registry@,
            forall|j: int| 0 <= j < registry@.len() ==> exec.requires((&registry@[j],)),
            forall|line: String| emit.requires((line,)),
            run.wf(),
            i <= entries@.len(),
            run@.len() == i,
            forall|j: int|
                0 <= j < i ==> (#[trigger] run@[j] == TestOutput::Pass ==> exec.ensures(
                    (&registry@[j],),
                    true,
                )) && (run@[j] == TestOutput::Fail ==> exec.ensures((&registry@[j],), false)),
            forall|j: int|
                0 <= j < i ==> #[trigger] emitted(emit, status_text(registry@[j].name@, run@[j])),
        decreases entries@.len() - i,
    {
        let test = &entries[i];
        let returned_normally = exec(test);
        let o = TestOutput::classify(returned_normally);
        let line = status_line(test.name, o);
        let ghost handed: String = line;
        emit(line);
        assert(emitted(emit, status_text(registry@[i as int].name@, o)));
        run.record(o);
        i = i + 1;
    }
    run
}

} // verus!
