//! Scheduler: two ordered collections of tasks (ready, sleeping) and the
//! step-wise run-loop policy that drains them.

use vstd::prelude::*;
use vstd::multiset::Multiset;
use std::collections::VecDeque;
use crate::task::Task;

verus! {

/// Abstract content of one sleeping entry: the work payload together with its
/// absolute expiry time (submission instant plus delay, in time-units).
pub ghost struct SleeperView<W> {
    pub expiry: u64,
    pub work: W,
}

/// Abstract state of a scheduler: the ready queue (front first) and the
/// sleeping collection (earliest expiry first).
#[verifier::ext_equal]
pub ghost struct SchedulerView<W> {
    pub ready: Seq<W>,
    pub sleeping: Seq<SleeperView<W>>,
}

/// The sleeping collection is sorted by expiry, earliest first; equal
/// expiries keep their submission order (stability is enforced by where
/// `insert_sleeper` places a new entry, not by this predicate).
pub open spec fn sleeping_sorted<W>(s: Seq<SleeperView<W>>) -> bool {
    forall|i: int, j: int| 0 <= i <= j < s.len() ==> s[i].expiry <= s[j].expiry
}

/// Insertion into the sleeping collection: a new entry goes after every entry
/// whose expiry is less than or equal to its own, so the collection stays
/// sorted and ties break FIFO.
pub open spec fn insert_sleeper<W>(s: Seq<SleeperView<W>>, x: SleeperView<W>) -> Seq<SleeperView<W>>
    decreases s.len(),
{
    if s.len() == 0 {
        seq![x]
    } else if s[0].expiry <= x.expiry {
        seq![s[0]] + insert_sleeper(s.drop_first(), x)
    } else {
        seq![x] + s
    }
}

/// What `schedule` does to the abstract state: a delay-less task is appended
/// to the ready queue; a delayed task is inserted into the sleeping
/// collection keyed by its absolute expiry `now + d`.
pub open spec fn schedule_spec<W>(v: SchedulerView<W>, work: W, delay: Option<u64>, now: u64) -> SchedulerView<W> {
    match delay {
        None => SchedulerView { ready: v.ready.push(work), sleeping: v.sleeping },
        Some(d) => SchedulerView {
            ready: v.ready,
            sleeping: insert_sleeper(v.sleeping, (SleeperView { expiry: (now + d) as u64, work })),
        },
    }
}

/// What the driver must do next, as decided by `Scheduler::step`.
pub enum Action<W> {
    /// Invoke this callback now; it has been removed from the scheduler.
    Run(W),
    /// Both collections may still fill: the ready queue is empty and the
    /// earliest sleeping task expires this many time-units from `now`.
    Wait(u64),
    /// The earliest sleeping task had expired and was moved to the back of
    /// the ready queue.
    Promoted,
    /// Both collections are empty: the run loop is finished.
    Done,
}

/// What `step` does to the abstract state, and the action it hands back:
/// drain the ready queue front first; else wait for or promote the earliest
/// sleeping task; else stop.
pub open spec fn step_spec<W>(v: SchedulerView<W>, now: u64) -> (SchedulerView<W>, Action<W>) {
    if v.ready.len() > 0 {
        (
            SchedulerView { ready: v.ready.drop_first(), sleeping: v.sleeping },
            Action::Run(v.ready[0]),
        )
    } else if v.sleeping.len() > 0 {
        if v.sleeping[0].expiry <= now {
            (
                SchedulerView {
                    ready: v.ready.push(v.sleeping[0].work),
                    sleeping: v.sleeping.drop_first(),
                },
                Action::Promoted,
            )
        } else {
            (v, Action::Wait((v.sleeping[0].expiry - now) as u64))
        }
    } else {
        (v, Action::Done)
    }
}

/// `insert_sleeper` is insertion at the index that the exec search finds:
/// the first position whose entry expires strictly later than the new one.
proof fn lemma_insert_sleeper_index<W>(s: Seq<SleeperView<W>>, x: SleeperView<W>, i: int)
    requires
        0 <= i <= s.len(),
        forall|k: int| 0 <= k < i ==> s[k].expiry <= x.expiry,
        i < s.len() ==> s[i].expiry > x.expiry,
    ensures
        insert_sleeper(s, x) == s.insert(i, x),
    decreases s.len(),
{
    s.insert_ensures(i, x);
    if s.len() == 0 {
        assert(insert_sleeper(s, x) =~= s.insert(0, x));
    } else if s[0].expiry <= x.expiry {
        assert(i >= 1);
        let rest = s.drop_first();
        assert forall|k: int| 0 <= k < i - 1 implies rest[k].expiry <= x.expiry by {
            assert(rest[k] == s[k + 1]);
        }
        assert(i - 1 < rest.len() ==> rest[i - 1].expiry > x.expiry) by {
            if i - 1 < rest.len() {
                assert(rest[i - 1] == s[i]);
            }
        }
        lemma_insert_sleeper_index(rest, x, i - 1);
        rest.insert_ensures(i - 1, x);
        assert(insert_sleeper(s, x) =~= s.insert(i, x));
    } else {
        assert(i == 0);
        assert(insert_sleeper(s, x) =~= s.insert(0, x));
    }
}

/// Inserting at that index keeps the sleeping collection sorted by expiry.
proof fn lemma_insert_position_sorted<W>(s: Seq<SleeperView<W>>, x: SleeperView<W>, i: int)
    requires
        sleeping_sorted(s),
        0 <= i <= s.len(),
        forall|k: int| 0 <= k < i ==> s[k].expiry <= x.expiry,
        i < s.len() ==> s[i].expiry > x.expiry,
    ensures
        sleeping_sorted(s.insert(i, x)),
{
    s.insert_ensures(i, x);
    let t = s.insert(i, x);
    assert forall|p: int, q: int| 0 <= p <= q < t.len() implies t[p].expiry <= t[q].expiry by {
        if p > i {
            assert(t[p] == s[p - 1]);
        }
        if q > i {
            assert(t[q] == s[q - 1]);
        }
        if p == i && i < q {
            assert(t[q] == s[q - 1]);
            assert(s[i].expiry <= s[q - 1].expiry);
        }
    }
}

/// The work payloads of the sleeping collection, in expiry order.
pub open spec fn works<W>(s: Seq<SleeperView<W>>) -> Seq<W> {
    s.map(|i: int, sl: SleeperView<W>| sl.work)
}

/// Every work payload the scheduler still holds, with multiplicity.
pub open spec fn pending<W>(v: SchedulerView<W>) -> Multiset<W> {
    v.ready.to_multiset().add(works(v.sleeping).to_multiset())
}

/// The order in which the pending tasks are handed out when the driver keeps
/// stepping, waits out every expiry, and no new task is submitted: each
/// promoted sleeper passes through the then-empty ready queue and runs next.
pub open spec fn completion_order<W>(v: SchedulerView<W>) -> Seq<W>
    decreases v.ready.len() + v.sleeping.len(),
{
    if v.ready.len() > 0 {
        seq![v.ready[0]] + completion_order(
            SchedulerView { ready: v.ready.drop_first(), sleeping: v.sleeping },
        )
    } else if v.sleeping.len() > 0 {
        seq![v.sleeping[0].work] + completion_order(
            SchedulerView { ready: v.ready, sleeping: v.sleeping.drop_first() },
        )
    } else {
        Seq::empty()
    }
}

/// The pending tasks complete in order: the ready queue front first, then
/// the sleeping collection in its stored (expiry) order.
pub proof fn lemma_completion_order<W>(v: SchedulerView<W>)
    ensures
        completion_order(v) == v.ready + works(v.sleeping),
    decreases v.ready.len() + v.sleeping.len(),
{
    if v.ready.len() > 0 {
        lemma_completion_order(SchedulerView { ready: v.ready.drop_first(), sleeping: v.sleeping });
        assert(completion_order(v) =~= v.ready + works(v.sleeping));
    } else if v.sleeping.len() > 0 {
        let v2 = SchedulerView { ready: v.ready, sleeping: v.sleeping.drop_first() };
        lemma_completion_order(v2);
        assert(works(v2.sleeping) =~= works(v.sleeping).drop_first());
        assert(completion_order(v) =~= v.ready + works(v.sleeping));
    } else {
        assert(completion_order(v) =~= v.ready + works(v.sleeping));
    }
}

/// Repeated delay-less submission, front of `ws` first.
pub open spec fn schedule_all<W>(v: SchedulerView<W>, ws: Seq<W>, now: u64) -> SchedulerView<W>
    decreases ws.len(),
{
    if ws.len() == 0 {
        v
    } else {
        schedule_all(schedule_spec(v, ws[0], None, now), ws.drop_first(), now)
    }
}

/// Ordering law: a sequence of delay-less submissions is appended to the
/// ready queue in submission order, and — submitted to an idle scheduler
/// before any run — the tasks are then handed out in exactly that order.
pub proof fn lemma_submission_order<W>(v: SchedulerView<W>, ws: Seq<W>, now: u64)
    ensures
        schedule_all(v, ws, now).ready == v.ready + ws,
        schedule_all(v, ws, now).sleeping == v.sleeping,
        v.ready.len() == 0 && v.sleeping.len() == 0 ==> completion_order(schedule_all(v, ws, now))
            == ws,
    decreases ws.len(),
{
    if ws.len() == 0 {
        assert(schedule_all(v, ws, now).ready =~= v.ready + ws);
    } else {
        let v1 = schedule_spec(v, ws[0], None, now);
        lemma_submission_order(v1, ws.drop_first(), now);
        assert(schedule_all(v, ws, now).ready =~= v.ready + ws);
    }
    lemma_completion_order(schedule_all(v, ws, now));
    if v.ready.len() == 0 && v.sleeping.len() == 0 {
        assert(completion_order(schedule_all(v, ws, now)) =~= ws);
    }
}

/// Expiry ordering law: in a well-formed scheduler an earlier-expiring
/// sleeping task stands strictly closer to the front than a later-expiring
/// one — wherever the two were submitted in — and therefore completes
/// earlier.
pub proof fn lemma_expiry_order<W>(v: SchedulerView<W>, i: int, j: int)
    requires
        sleeping_sorted(v.sleeping),
        0 <= i < v.sleeping.len(),
        0 <= j < v.sleeping.len(),
        v.sleeping[i].expiry < v.sleeping[j].expiry,
    ensures
        i < j,
        completion_order(v)[v.ready.len() + i] == v.sleeping[i].work,
        completion_order(v)[v.ready.len() + j] == v.sleeping[j].work,
{
    lemma_completion_order(v);
}

proof fn lemma_insert_sleeper_pending<W>(s: Seq<SleeperView<W>>, x: SleeperView<W>)
    ensures
        works(insert_sleeper(s, x)).to_multiset() == works(s).to_multiset().insert(x.work),
    decreases s.len(),
{
    broadcast use vstd::seq_lib::group_to_multiset_ensures;
    broadcast use vstd::seq_lib::lemma_multiset_commutative;
    broadcast use vstd::multiset::group_multiset_axioms;

    if s.len() == 0 {
        assert(works(insert_sleeper(s, x)) =~= Seq::<W>::empty().push(x.work));
        assert(works(s) =~= Seq::<W>::empty());
        assert(Seq::<W>::empty().to_multiset() =~= Multiset::<W>::empty());
        assert(works(insert_sleeper(s, x)).to_multiset() =~= works(s).to_multiset().insert(
            x.work,
        ));
    } else if s[0].expiry <= x.expiry {
        let rest = s.drop_first();
        lemma_insert_sleeper_pending(rest, x);
        assert(works(insert_sleeper(s, x)) =~= seq![s[0].work] + works(insert_sleeper(rest, x)));
        assert(works(s) =~= seq![s[0].work] + works(rest));
        assert(works(insert_sleeper(s, x)).to_multiset() =~= works(s).to_multiset().insert(
            x.work,
        ));
    } else {
        assert(works(insert_sleeper(s, x)) =~= seq![x.work] + works(s));
        assert(seq![x.work] =~= Seq::<W>::empty().push(x.work));
        assert(Seq::<W>::empty().to_multiset() =~= Multiset::<W>::empty());
        assert(works(insert_sleeper(s, x)).to_multiset() =~= works(s).to_multiset().insert(
            x.work,
        ));
    }
}

/// Submission adds exactly one pending copy of the submitted work — it never
/// duplicates or drops anything already held.
pub proof fn lemma_schedule_pending<W>(v: SchedulerView<W>, w: W, delay: Option<u64>, now: u64)
    ensures
        pending(schedule_spec(v, w, delay, now)) == pending(v).insert(w),
{
    broadcast use vstd::seq_lib::group_to_multiset_ensures;
    broadcast use vstd::multiset::group_multiset_axioms;

    match delay {
        None => {
            assert(pending(schedule_spec(v, w, delay, now)) =~= pending(v).insert(w));
        },
        Some(d) => {
            lemma_insert_sleeper_pending(
                v.sleeping,
                SleeperView { expiry: (now + d) as u64, work: w },
            );
            assert(pending(schedule_spec(v, w, delay, now)) =~= pending(v).insert(w));
        },
    }
}

/// No-double-execution law: a Run step removes the work it hands out from
/// the pending collection, and no step ever adds a copy of anything — so
/// each submitted task is handed out to be run at most once, and can run
/// again only if its callback submits a new task.
pub proof fn lemma_step_pending<W>(v: SchedulerView<W>, now: u64)
    ensures
        step_spec(v, now).1 matches Action::Run(w) ==> pending(v).count(w) > 0 && pending(
            step_spec(v, now).0,
        ) == pending(v).remove(w),
        !(step_spec(v, now).1 is Run) ==> pending(step_spec(v, now).0) == pending(v),
{
    broadcast use vstd::seq_lib::group_to_multiset_ensures;
    broadcast use vstd::multiset::group_multiset_axioms;

    if v.ready.len() > 0 {
        let w = v.ready[0];
        assert(v.ready.contains(w));
        assert(v.ready.drop_first() =~= v.ready.remove(0));
        assert(v.ready.remove(0).to_multiset() =~= v.ready.to_multiset().remove(w));
        assert(pending(step_spec(v, now).0) =~= pending(v).remove(w));
    } else if v.sleeping.len() > 0 && v.sleeping[0].expiry <= now {
        let w = v.sleeping[0].work;
        let ws = works(v.sleeping);
        assert(ws[0] == w);
        assert(ws.contains(w));
        assert(works(v.sleeping.drop_first()) =~= ws.remove(0));
        assert(ws.remove(0).to_multiset() =~= ws.to_multiset().remove(w));
        assert(step_spec(v, now).0.ready =~= Seq::<W>::empty().push(w));
        assert(Seq::<W>::empty().to_multiset() =~= Multiset::<W>::empty());
        assert(v.ready.to_multiset() =~= Multiset::<W>::empty());
        assert(pending(step_spec(v, now).0) =~= pending(v));
    }
}

/// Termination law: a step reports Done exactly when both collections are
/// simultaneously empty — never spuriously while either holds a task — and
/// an idle scheduler is left unchanged.
pub proof fn lemma_done_iff_idle<W>(v: SchedulerView<W>, now: u64)
    ensures
        (step_spec(v, now).1 is Done) <==> (v.ready.len() == 0 && v.sleeping.len() == 0),
        step_spec(v, now).1 is Done ==> step_spec(v, now).0 == v,
{
}

/// Re-submission law: a delay-less task submitted at any moment — in
/// particular from inside a running callback — joins the back of the ready
/// queue; from then on no step can report Done until it has been handed out,
/// and it stands in the completion order of the new state.
pub proof fn lemma_resubmission<W>(v: SchedulerView<W>, w: W, now: u64)
    ensures
        schedule_spec(v, w, None, now).ready == v.ready.push(w),
        forall|now2: u64|
            #![trigger step_spec(schedule_spec(v, w, None, now), now2)]
            !(step_spec(schedule_spec(v, w, None, now), now2).1 is Done),
        completion_order(schedule_spec(v, w, None, now)).contains(w),
{
    let v1 = schedule_spec(v, w, None, now);
    lemma_completion_order(v1);
    assert(completion_order(v1).contains(w)) by {
        assert(completion_order(v1)[v.ready.len() as int] == w);
    }
}

/// One sleeping entry as stored: the task plus its absolute expiry.
struct Sleeper<W> {
    expiry: u64,
    task: Task<W>,
}

/// A cooperative scheduler over work payloads of type `W`.
pub struct Scheduler<W> {
    ready: VecDeque<Task<W>>,
    sleeping: VecDeque<Sleeper<W>>,
}

impl<W> View for Scheduler<W> {
    type V = SchedulerView<W>;

    closed spec fn view(&self) -> SchedulerView<W> {
        SchedulerView {
            ready: self.ready@.map(|i: int, t: Task<W>| t.work),
            sleeping: self.sleeping@.map(
                |i: int, s: Sleeper<W>| SleeperView { expiry: s.expiry, work: s.task.work },
            ),
        }
    }
}

impl<W> Scheduler<W> {
    /// Well-formedness: the sleeping collection is sorted by expiry.
    pub open spec fn wf(&self) -> bool {
        sleeping_sorted(self@.sleeping)
    }

    /// Creates a scheduler with both collections empty.
    pub fn new() -> (s: Scheduler<W>)
        ensures
            s@.ready == Seq::<W>::empty(),
            s@.sleeping == Seq::<SleeperView<W>>::empty(),
            s.wf(),
    {
        let s = Scheduler { ready: VecDeque::new(), sleeping: VecDeque::new() };
        proof {
            assert(s@.ready =~= Seq::<W>::empty());
            assert(s@.sleeping =~= Seq::<SleeperView<W>>::empty());
        }
        s
    }

    /// Submits a task at time `now` (time-units since the scheduler's epoch).
    /// A delay-less task is appended to the ready queue (FIFO); a delayed
    /// task is inserted into the sleeping collection sorted by its absolute
    /// expiry `now + d`, after every entry with an equal or earlier expiry,
    /// so equal expiries keep submission order. Submission always succeeds.
    pub fn schedule(&mut self, task: Task<W>, now: u64)
        requires
            old(self).wf(),
            task.delay matches Some(d) ==> now + d <= u64::MAX,
        ensures
            final(self).wf(),
            final(self)@ == schedule_spec(old(self)@, task.work, task.delay, now),
            task.delay is None ==> final(self)@.ready == old(self)@.ready.push(task.work)
                && final(self)@.sleeping == old(self)@.sleeping,
            task.delay matches Some(d) ==> final(self)@.ready == old(self)@.ready
                && final(self)@.sleeping == insert_sleeper(
                old(self)@.sleeping,
                (SleeperView { expiry: (now + d) as u64, work: task.work }),
            ),
    {
        let ghost gwork = task.work;
        match task.delay {
            None => {
                self.ready.push_back(task);
                proof {
                    assert(self@.ready =~= old(self)@.ready.push(gwork));
                    assert(self@.sleeping =~= old(self)@.sleeping);
                    assert(self@ =~= schedule_spec(old(self)@, gwork, None, now));
                }
            },
            Some(d) => {
                let expiry: u64 = now + d;
                let ghost x = SleeperView { expiry, work: gwork };
                let mut i: usize = 0;
                while i < self.sleeping.len() && self.sleeping[i].expiry <= expiry
                    invariant
                        i <= self.sleeping.len(),
                        forall|k: int| 0 <= k < i ==> self@.sleeping[k].expiry <= expiry,
                    decreases self.sleeping.len() - i,
                {
                    i += 1;
                }
                self.sleeping.insert(i, Sleeper { expiry, task });
                proof {
                    let os = old(self)@.sleeping;
                    os.insert_ensures(i as int, x);
                    old(self).sleeping@.insert_ensures(i as int, self.sleeping@[i as int]);
                    assert(self@.sleeping =~= os.insert(i as int, x));
                    lemma_insert_sleeper_index(os, x, i as int);
                    lemma_insert_position_sorted(os, x, i as int);
                    assert(self@.ready =~= old(self)@.ready);
                    assert(self@ =~= schedule_spec(old(self)@, gwork, Some(d), now));
                }
            },
        }
    }

    /// Decides and applies one step of the run loop at time `now`:
    /// ready non-empty means pop its front task and hand its work out to be
    /// run; otherwise an expired earliest sleeper is promoted to the back of
    /// the ready queue, an unexpired one asks the driver to wait out the
    /// remaining time, and with both collections empty the loop is finished.
    pub fn step(&mut self, now: u64) -> (r: Action<W>)
        requires
            old(self).wf(),
        ensures
            final(self).wf(),
            final(self)@ == step_spec(old(self)@, now).0,
            r == step_spec(old(self)@, now).1,
            (r is Done) <==> (old(self)@.ready.len() == 0 && old(self)@.sleeping.len() == 0),
            r is Done ==> final(self)@ == old(self)@,
    {
        if self.ready.len() > 0 {
            let t = self.ready.pop_front().unwrap();
            proof {
                assert(self@.ready =~= old(self)@.ready.drop_first());
                assert(self@.sleeping =~= old(self)@.sleeping);
                assert(t.work == old(self)@.ready[0]);
                assert((self@, Action::Run(t.work)) =~= step_spec(old(self)@, now));
            }
            let Task { id: _, work, delay: _ } = t;
            Action::Run(work)
        } else if self.sleeping.len() > 0 {
            let front_expiry = self.sleeping[0].expiry;
            proof {
                assert(front_expiry == old(self)@.sleeping[0].expiry);
            }
            if front_expiry <= now {
                let s = self.sleeping.pop_front().unwrap();
                let ghost gw = s.task.work;
                let Sleeper { expiry: _, task } = s;
                self.ready.push_back(task);
                proof {
                    assert(self@.ready =~= old(self)@.ready.push(gw));
                    assert(self@.sleeping =~= old(self)@.sleeping.drop_first());
                    assert(self@ =~= step_spec(old(self)@, now).0);
                }
                Action::Promoted
            } else {
                Action::Wait(front_expiry - now)
            }
        } else {
            Action::Done
        }
    }

    /// Number of tasks awaiting immediate execution.
    pub fn ready_len(&self) -> (n: usize)
        ensures
            n == self@.ready.len(),
    {
        self.ready.len()
    }

    /// Number of tasks awaiting expiry.
    pub fn sleeping_len(&self) -> (n: usize)
        ensures
            n == self@.sleeping.len(),
    {
        self.sleeping.len()
    }

    /// True exactly when both collections are empty: the terminal state.
    pub fn is_idle(&self) -> (r: bool)
        ensures
            r <==> (self@.ready.len() == 0 && self@.sleeping.len() == 0),
    {
        self.ready.len() == 0 && self.sleeping.len() == 0
    }

    /// Pops and hands out exactly one ready task, front first; `None` when
    /// the ready queue is empty. The sleeping collection is untouched.
    pub fn run_next(&mut self) -> (r: Option<W>)
        requires
            old(self).wf(),
        ensures
            final(self).wf(),
            old(self)@.ready.len() == 0 ==> r is None && final(self)@ == old(self)@,
            old(self)@.ready.len() > 0 ==> {
                &&& r == Some(old(self)@.ready[0])
                &&& final(self)@.ready == old(self)@.ready.drop_first()
                &&& final(self)@.sleeping == old(self)@.sleeping
            },
    {
        match self.ready.pop_front() {
            None => {
                proof {
                    assert(self@ =~= old(self)@);
                }
                None
            },
            Some(t) => {
                proof {
                    assert(self@.ready =~= old(self)@.ready.drop_first());
                    assert(t.work == old(self)@.ready[0]);
                }
                let Task { id: _, work, delay: _ } = t;
                Some(work)
            },
        }
    }
}

} // verus!

