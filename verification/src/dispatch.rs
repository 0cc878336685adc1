//! The run state machine: one run moves from not started through dispatching
//! and draining to done, every scheduled lookup unit holds a permit until its
//! row is appended, and when the run is done the sink holds exactly one row
//! per scheduled unit — the same targets, none dropped, none duplicated.

use vstd::prelude::*;
use vstd::multiset::Multiset;
use crate::limiter::Limiter;
use crate::sink::Sink;
use crate::sink::Record;
use crate::sink::header_row;
use crate::sink::csv_row;
use crate::whois::LookupOutcome;
use crate::whois::is_error_marker;

verus! {

broadcast use vstd::multiset::group_multiset_axioms;

/// Where a run stands.
#[derive(Clone, Copy, Debug, PartialEq, Eq, Structural)]
pub enum Phase {
    NotStarted,
    Dispatching,
    Draining,
    Done,
}

/// The targets of a row sequence, with multiplicity: order set aside,
/// completions may interleave.
pub open spec fn rows_targets(rows: Seq<Record>) -> Multiset<Seq<char>>
    decreases rows.len(),
{
    if rows.len() == 0 {
        Multiset::<Seq<char>>::empty()
    } else {
        rows_targets(rows.drop_last()).insert(rows.last().target@)
    }
}

proof fn lemma_rows_targets_len(rows: Seq<Record>)
    ensures
        rows_targets(rows).len() == rows.len(),
    decreases rows.len(),
{
    if rows.len() > 0 {
        lemma_rows_targets_len(rows.drop_last());
        vstd::multiset::lemma_insert_len(
            rows_targets(rows.drop_last()),
            rows.last().target@,
        );
    }
}

proof fn lemma_rows_targets_push(rows: Seq<Record>, r: Record)
    ensures
        rows_targets(rows.push(r)) == rows_targets(rows).insert(r.target@),
{
    assert(rows.push(r).drop_last() =~= rows);
    assert(rows.push(r).last() == r);
}

/// One run of the dispatcher. The exec fields drive the machine; the ghost
/// fields carry which targets are in flight, which were ever scheduled, and
/// which outcome each completed unit had, so the accounting laws can speak
/// of them.
pub struct Run {
    pub phase: Phase,
    pub limiter: Limiter,
    pub sink: Sink,
    pub scheduled: usize,
    pub completed: usize,
    pub pending: Ghost<Multiset<Seq<char>>>,
    pub scheduled_targets: Ghost<Multiset<Seq<char>>>,
    pub outcomes: Ghost<Seq<LookupOutcome>>,
}

impl Run {
    /// The run invariant: permits, counters, rows and target multisets agree
    /// at every step.
    pub open spec fn wf(self) -> bool {
        &&& self.limiter.wf()
        &&& self.sink.wf()
        &&& self.completed + self.limiter.in_flight == self.scheduled
        &&& self.sink.rows@.len() == self.completed
        &&& self.pending@.len() == self.limiter.in_flight
        &&& rows_targets(self.sink.rows@).add(self.pending@) == self.scheduled_targets@
        &&& self.outcomes@.len() == self.completed
        &&& (forall|i: int|
            0 <= i < self.outcomes@.len() ==> self.sink.rows@[i].response@
                == self.outcomes@[i].row_text())
        &&& (self.phase is NotStarted ==> self.scheduled == 0 && !self.sink.header_written)
        &&& (!(self.phase is NotStarted) ==> self.sink.header_written)
        &&& (self.phase is Done ==> self.limiter.in_flight == 0)
    }

    /// A fresh run that will admit at most `capacity` concurrent units.
    pub fn new(capacity: usize) -> (r: Run)
        requires
            capacity >= 1,
        ensures
            r.wf(),
            r.phase == Phase::NotStarted,
            r.limiter.capacity == capacity,
            r.scheduled == 0,
            r.completed == 0,
            r.scheduled_targets@ == Multiset::<Seq<char>>::empty(),
            r.outcomes@ == Seq::<LookupOutcome>::empty(),
    {
        let r = Run {
            phase: Phase::NotStarted,
            limiter: Limiter::new(capacity),
            sink: Sink::new(),
            scheduled: 0,
            completed: 0,
            pending: Ghost(Multiset::<Seq<char>>::empty()),
            scheduled_targets: Ghost(Multiset::<Seq<char>>::empty()),
            outcomes: Ghost(Seq::<LookupOutcome>::empty()),
        };
        proof {
            assert(rows_targets(r.sink.rows@).add(r.pending@) =~= r.scheduled_targets@);
        }
        r
    }

    /// Opens the run: the header goes out before anything else.
    pub fn start(&mut self) -> (header: String)
        requires
            old(self).wf(),
            old(self).phase == Phase::NotStarted,
        ensures
            final(self).wf(),
            final(self).phase == Phase::Dispatching,
            final(self).limiter == old(self).limiter,
            final(self).scheduled == 0,
            final(self).completed == 0,
            final(self).scheduled_targets == old(self).scheduled_targets,
            final(self).sink.rows@ == old(self).sink.rows@,
            header@ == header_row(),
    {
        self.phase = Phase::Dispatching;
        self.sink.write_header()
    }

    /// Claims a permit for one unit that will look up `target`; refuses
    /// exactly when the whole capacity is in flight, and the caller waits
    /// for a completion before asking again.
    pub fn try_begin_unit(&mut self, target: &str) -> (ok: bool)
        requires
            old(self).wf(),
            old(self).phase == Phase::Dispatching,
            old(self).scheduled < usize::MAX,
        ensures
            final(self).wf(),
            final(self).phase == Phase::Dispatching,
            final(self).limiter.capacity == old(self).limiter.capacity,
            final(self).sink == old(self).sink,
            final(self).completed == old(self).completed,
            ok ==> {
                &&& old(self).limiter.in_flight < old(self).limiter.capacity
                &&& final(self).limiter.in_flight == old(self).limiter.in_flight + 1
                &&& final(self).scheduled == old(self).scheduled + 1
                &&& final(self).pending@ == old(self).pending@.insert(target@)
                &&& final(self).scheduled_targets@ == old(self).scheduled_targets@.insert(
                    target@,
                )
            },
            !ok ==> *final(self) == *old(self) && old(self).limiter.in_flight == old(
                self,
            ).limiter.capacity,
    {
        if self.limiter.try_acquire() {
            self.scheduled = self.scheduled + 1;
            proof {
                assert(rows_targets(self.sink.rows@).add(self.pending@.insert(target@))
                    =~= rows_targets(self.sink.rows@).add(self.pending@).insert(target@));
            }
            self.pending = Ghost(self.pending@.insert(target@));
            self.scheduled_targets = Ghost(self.scheduled_targets@.insert(target@));
            true
        } else {
            false
        }
    }

    /// Records the outcome of one unit: its row — the response, or the
    /// failure's visible marker — goes to the sink, its permit returns, and
    /// the unit counts as completed. The encoded row line comes back for the
    /// caller to write out.
    pub fn complete_unit(&mut self, target: String, outcome: LookupOutcome) -> (line: String)
        requires
            old(self).wf(),
            old(self).phase == Phase::Dispatching || old(self).phase == Phase::Draining,
            old(self).pending@.contains(target@),
        ensures
            final(self).wf(),
            final(self).phase == old(self).phase,
            final(self).limiter.capacity == old(self).limiter.capacity,
            final(self).limiter.in_flight == old(self).limiter.in_flight - 1,
            final(self).scheduled == old(self).scheduled,
            final(self).completed == old(self).completed + 1,
            final(self).scheduled_targets == old(self).scheduled_targets,
            final(self).pending@ == old(self).pending@.remove(target@),
            final(self).sink.rows@.len() == old(self).sink.rows@.len() + 1,
            final(self).sink.rows@.drop_last() == old(self).sink.rows@,
            final(self).sink.rows@.last().target@ == target@,
            final(self).sink.rows@.last().response@ == outcome.row_text(),
            final(self).outcomes@ == old(self).outcomes@.push(outcome),
            line@ == csv_row(target@, outcome.row_text()),
    {
        proof {
            assert(self.pending@.len() >= self.pending@.count(target@));
            assert(self.limiter.in_flight >= 1);
            let placed = self.pending@.remove(target@);
            assert(rows_targets(self.sink.rows@).add(self.pending@) == rows_targets(
                self.sink.rows@,
            ).insert(target@).add(placed)) by {
                assert(self.pending@ =~= placed.insert(target@));
                assert(rows_targets(self.sink.rows@).add(placed.insert(target@))
                    =~= rows_targets(self.sink.rows@).insert(target@).add(placed));
            }
        }
        let ghost pre_rows = self.sink.rows@;
        let ghost target_view = target@;
        let ghost o = outcome;
        let response = outcome.into_row_text();
        let line = self.sink.append(target, response);
        proof {
            lemma_rows_targets_push(pre_rows, self.sink.rows@.last());
            assert(self.sink.rows@.drop_last() =~= pre_rows);
        }
        self.limiter.release();
        self.completed = self.completed + 1;
        self.pending = Ghost(self.pending@.remove(target_view));
        self.outcomes = Ghost(self.outcomes@.push(o));
        proof {
            assert forall|i: int|
                0 <= i < self.outcomes@.len() implies self.sink.rows@[i].response@
                == self.outcomes@[i].row_text() by {
                if i < self.outcomes@.len() - 1 {
                    assert(self.sink.rows@[i] == pre_rows[i]);
                }
            }
        }
        line
    }

    /// Every line's work is scheduled: from here the run only drains.
    pub fn seal(&mut self)
        requires
            old(self).wf(),
            old(self).phase == Phase::Dispatching,
        ensures
            final(self).wf(),
            *final(self) == (Run { phase: Phase::Draining, ..*old(self) }),
    {
        self.phase = Phase::Draining;
    }

    /// Every scheduled unit has completed: the run is done and the output
    /// can be closed.
    pub fn finish(&mut self)
        requires
            old(self).wf(),
            old(self).phase == Phase::Draining,
            old(self).limiter.in_flight == 0,
        ensures
            final(self).wf(),
            *final(self) == (Run { phase: Phase::Done, ..*old(self) }),
    {
        self.phase = Phase::Done;
    }
}

/// Law: when a run is done, the sink holds the header and then exactly one
/// row per scheduled unit — the rows' targets are, with multiplicity, the
/// scheduled targets themselves, whatever order completions came in. With
/// expansion a pure function of the input lines, rerunning the same input
/// schedules the same targets and so logs the same target set again.
pub proof fn lemma_run_accounting(r: Run)
    requires
        r.wf(),
        r.phase == Phase::Done,
    ensures
        r.sink.header_written,
        r.sink.rows@.len() == r.scheduled,
        rows_targets(r.sink.rows@) == r.scheduled_targets@,
{
    assert(r.pending@.len() == 0);
    assert(r.pending@ =~= Multiset::<Seq<char>>::empty());
    assert(rows_targets(r.sink.rows@).add(Multiset::<Seq<char>>::empty()) =~= rows_targets(
        r.sink.rows@,
    ));
}

/// Law: at every reachable state of a run, the units in flight never exceed
/// the capacity the run was made with.
pub proof fn lemma_run_bounded(r: Run)
    requires
        r.wf(),
    ensures
        r.limiter.in_flight <= r.limiter.capacity,
{
}

/// Law: a run that scheduled exactly the expanded targets of its input —
/// every line's targets, once each — ends with one row per expanded
/// address: the row targets are those targets, and the row count is their
/// total over all input lines.
pub proof fn lemma_run_matches_input(r: Run, lines: Seq<Seq<char>>, quick: bool)
    requires
        r.wf(),
        r.phase == Phase::Done,
        r.scheduled_targets@ == crate::addr::run_targets(lines, quick).to_multiset(),
    ensures
        rows_targets(r.sink.rows@) == crate::addr::run_targets(lines, quick).to_multiset(),
        r.sink.rows@.len() == crate::addr::run_targets(lines, quick).len(),
{
    lemma_run_accounting(r);
    lemma_rows_targets_len(r.sink.rows@);
    crate::addr::run_targets(lines, quick).to_multiset_ensures();
}

/// Law: a done run every one of whose lookups failed still holds the header
/// and one row per scheduled unit, and every row's response column is a
/// visible error marker — failures never abort sibling units or silence
/// their rows.
pub proof fn lemma_failed_run_graceful(r: Run)
    requires
        r.wf(),
        r.phase == Phase::Done,
        forall|i: int| 0 <= i < r.outcomes@.len() ==> r.outcomes@[i] is Failed,
    ensures
        r.sink.header_written,
        r.sink.rows@.len() == r.scheduled,
        forall|i: int|
            0 <= i < r.sink.rows@.len() ==> is_error_marker(#[trigger] r.sink.rows@[i].response@),
{
    lemma_run_accounting(r);
    assert forall|i: int|
        0 <= i < r.sink.rows@.len() implies is_error_marker(
        #[trigger] r.sink.rows@[i].response@,
    ) by {
        let o = r.outcomes@[i];
        assert(o is Failed);
        match o {
            LookupOutcome::Failed(e) => {
                assert(r.sink.rows@[i].response@ == e.marker_text());
            },
            LookupOutcome::Response(_) => {},
        }
    }
}

} // verus!
