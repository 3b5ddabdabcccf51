//! The laws of the machine, stated over the spec-level transitions and
//! proved once and for all: the logger's idempotence, FIFO fairness of
//! admission, freshness of forked pids, exactness of the exit wake-up,
//! the sleep countdown's timing, the uniqueness of live pids across the
//! containers, and that each transition changes the live pid set by
//! exactly what it is meant to — nothing for a move between containers,
//! one fresh pid for a fork, one departed pid for an exit.

use vstd::prelude::*;
use crate::types::{
    Mode, Tag, ProcessM, WaitEntryM, SleepEntryM, InstrM, Model,
};
use crate::state::{
    spec_log_if_due, spec_mark_and_log, spec_spend, spec_tick, spec_tick3, spec_wake_split,
    remove_first_pid,
};
use crate::engine::{spec_admit, spec_spawn, spec_reap};

verus! {

/// How often pid `p` occurs in a process sequence.
pub open spec fn cnt_ready(s: Seq<ProcessM>, p: nat) -> nat
    decreases s.len(),
{
    if s.len() == 0 {
        0
    } else {
        (if s[0].pid == p {
            1nat
        } else {
            0nat
        }) + cnt_ready(s.drop_first(), p)
    }
}

/// How often pid `p` occurs in the sleep tracker.
pub open spec fn cnt_tracker(s: Seq<SleepEntryM>, p: nat) -> nat
    decreases s.len(),
{
    if s.len() == 0 {
        0
    } else {
        (if s[0].process.pid == p {
            1nat
        } else {
            0nat
        }) + cnt_tracker(s.drop_first(), p)
    }
}

/// How often pid `p` occurs in the waiting set under tag `t`.
pub open spec fn cnt_wait(s: Seq<WaitEntryM>, p: nat, t: Tag) -> nat
    decreases s.len(),
{
    if s.len() == 0 {
        0
    } else {
        (if s[0].process.pid == p && s[0].tag == t {
            1nat
        } else {
            0nat
        }) + cnt_wait(s.drop_first(), p, t)
    }
}

/// How often pid `p` occupies a single-process slot.
pub open spec fn cnt_opt(o: Option<ProcessM>, p: nat) -> nat {
    match o {
        Option::Some(q) => if q.pid == p {
            1nat
        } else {
            0nat
        },
        Option::None => 0,
    }
}

/// How often pid `p` is live in the whole machine: the running slot, the
/// ready queue, the sleep tracker (the authoritative copy of a sleeper),
/// the waiting set's wait-blocked entries, and the new and terminated
/// slots. The waiting set's `S` entries are bookkeeping copies of the
/// tracker and are not counted again.
pub open spec fn live_cnt(m: Model, p: nat) -> nat {
    cnt_opt(m.running, p) + cnt_ready(m.ready, p) + cnt_tracker(m.tracker, p) + cnt_wait(
        m.waiting,
        p,
        Tag::W,
    ) + cnt_opt(m.newp, p) + cnt_opt(m.terminated, p)
}

/// Well-formedness of a machine state: every live pid occurs exactly
/// once across the containers, every `S` entry of the waiting set
/// mirrors exactly one tracker entry, and no pid above the allocator's
/// last issued one occurs anywhere.
pub open spec fn wf(m: Model) -> bool {
    &&& forall|p: nat| #[trigger] live_cnt(m, p) <= 1
    &&& forall|p: nat| #[trigger] cnt_wait(m.waiting, p, Tag::S) == cnt_tracker(m.tracker, p)
    &&& forall|p: nat| #![trigger live_cnt(m, p)]
        p > m.last_pid ==> live_cnt(m, p) == 0 && cnt_wait(m.waiting, p, Tag::S) == 0
}

/// Idempotence of logging: with the cycle-ready flag unset the logger is
/// a no-op — the trace, the cycle counter and everything else stay
/// exactly as they were.
pub proof fn lemma_logger_idempotent(m: Model)
    requires
        !m.cycle_done,
    ensures
        spec_log_if_due(m) == m,
        spec_log_if_due(m).trace == m.trace,
        spec_log_if_due(m).cycle == m.cycle,
{
}

/// Scheduling fairness: with ready = [a, b, c] and no new arrivals,
/// three successive idle-free admissions install a, then b, then c, in
/// that order.
pub proof fn lemma_admit_fifo(m: Model, a: ProcessM, b: ProcessM, c: ProcessM)
    requires
        m.ready == seq![a, b, c],
    ensures
        ({
            let m1 = spec_admit(m);
            let m2 = spec_admit(Model { running: Option::None, ..m1 });
            let m3 = spec_admit(Model { running: Option::None, ..m2 });
            m1.running == Option::Some(a) && m2.running == Option::Some(b) && m3.running
                == Option::Some(c)
        }),
{
    assert(m.ready[0] == a);
    assert(m.ready.drop_first() =~= seq![b, c]);
    assert(seq![b, c].drop_first() =~= seq![c]);
}

/// Fork freshness: the spawned child's pid is the allocator's next one,
/// strictly greater than every pid issued before — in a well-formed
/// state, greater than every pid present anywhere in the machine — and
/// its ppid is exactly the forking process's pid.
pub proof fn lemma_fork_fresh_pid(m: Model, parent: ProcessM, name: Seq<char>, body: Seq<InstrM>)
    ensures
        ({
            let m2 = spec_spawn(m, parent, name, body);
            &&& m2.newp matches Option::Some(child) && child.pid == m.last_pid + 1
                && child.ppid == parent.pid && child.name == name && child.instrs == body
            &&& m2.last_pid == m.last_pid + 1
            &&& forall|p: nat|
                wf(m) && live_cnt(m, p) >= 1 ==> p < m2.newp.unwrap().pid
        }),
{
    let m2 = spec_spawn(m, parent, name, body);
    assert forall|p: nat| wf(m) && live_cnt(m, p) >= 1 implies p < m2.newp.unwrap().pid by {
        if p > m.last_pid {
            assert(live_cnt(m, p) == 0);
        }
    }
}

/// The wake scan finds the first wait-blocked entry under the given pid:
/// exactly that entry leaves the waiting set — everything else stays, in
/// order — and its process is handed back.
pub proof fn lemma_wake_exact(w: Seq<WaitEntryM>, p: nat, i: int)
    requires
        0 <= i < w.len(),
        w[i].process.pid == p,
        w[i].tag is W,
        forall|j: int| 0 <= j < i ==> !(w[j].process.pid == p && w[j].tag is W),
    ensures
        spec_wake_split(w, p).1 == Option::Some(w[i].process),
        spec_wake_split(w, p).0 =~= w.subrange(0, i) + w.subrange(i + 1, w.len() as int),
    decreases i,
{
    if i == 0 {
        assert(spec_wake_split(w, p).0 =~= w.subrange(0, 0) + w.subrange(1, w.len() as int));
    } else {
        lemma_wake_exact(w.drop_first(), p, i - 1);
        assert(w.drop_first().subrange(0, i - 1) =~= w.subrange(1, i));
        assert(w.drop_first().subrange(i, w.len() as int - 1) =~= w.subrange(
            i + 1,
            w.len() as int,
        ));
        assert(spec_wake_split(w, p).0 =~= seq![w[0]] + spec_wake_split(w.drop_first(), p).0);
        assert(seq![w[0]] + (w.subrange(1, i) + w.subrange(i + 1, w.len() as int)) =~= w.subrange(
            0,
            i,
        ) + w.subrange(i + 1, w.len() as int));
    }
}

/// Exit invariant: exiting a process whose parent is blocked in wait
/// (tag `W`, pid equal to the exiting process's ppid) moves exactly that
/// parent back to the end of the ready queue in the same step, removes
/// it from the waiting set, and parks the exiting process in the
/// terminated slot with the CPU freed.
pub proof fn lemma_exit_wakes_parent(m: Model, c: ProcessM, i: int)
    requires
        0 <= i < m.waiting.len(),
        m.waiting[i].process.pid == c.ppid,
        m.waiting[i].tag is W,
        forall|j: int| 0 <= j < i ==> !(m.waiting[j].process.pid == c.ppid && m.waiting[j].tag
            is W),
    ensures
        ({
            let m2 = spec_reap(m, c);
            &&& m2.ready == m.ready.push(m.waiting[i].process)
            &&& m2.waiting =~= m.waiting.subrange(0, i) + m.waiting.subrange(
                i + 1,
                m.waiting.len() as int,
            )
            &&& m2.terminated == Option::Some(c)
            &&& m2.running is None
        }),
{
    lemma_wake_exact(m.waiting, c.ppid, i);
}


proof fn lemma_cnt_ready_add(a: Seq<ProcessM>, b: Seq<ProcessM>, p: nat)
    ensures
        cnt_ready(a + b, p) == cnt_ready(a, p) + cnt_ready(b, p),
    decreases a.len(),
{
    if a.len() == 0 {
        assert(a + b =~= b);
    } else {
        assert((a + b).drop_first() =~= a.drop_first() + b);
        lemma_cnt_ready_add(a.drop_first(), b, p);
    }
}


proof fn lemma_cnt_ready_one(x: ProcessM, p: nat)
    ensures
        cnt_ready(seq![x], p) == (if x.pid == p {
            1nat
        } else {
            0nat
        }),
{
    assert(seq![x].drop_first() =~= Seq::<ProcessM>::empty());
    assert(cnt_ready(Seq::<ProcessM>::empty(), p) == 0);
    assert(cnt_ready(seq![x].drop_first(), p) == 0);
}

proof fn lemma_cnt_tracker_one(x: SleepEntryM, p: nat)
    ensures
        cnt_tracker(seq![x], p) == (if x.process.pid == p {
            1nat
        } else {
            0nat
        }),
{
    assert(seq![x].drop_first() =~= Seq::<SleepEntryM>::empty());
    assert(cnt_tracker(Seq::<SleepEntryM>::empty(), p) == 0);
    assert(cnt_tracker(seq![x].drop_first(), p) == 0);
}

proof fn lemma_cnt_wait_one(x: WaitEntryM, p: nat, t: Tag)
    ensures
        cnt_wait(seq![x], p, t) == (if x.process.pid == p && x.tag == t {
            1nat
        } else {
            0nat
        }),
{
    assert(seq![x].drop_first() =~= Seq::<WaitEntryM>::empty());
    assert(cnt_wait(Seq::<WaitEntryM>::empty(), p, t) == 0);
    assert(cnt_wait(seq![x].drop_first(), p, t) == 0);
}

proof fn lemma_cnt_ready_push(s: Seq<ProcessM>, x: ProcessM, p: nat)
    ensures
        cnt_ready(s.push(x), p) == cnt_ready(s, p) + (if x.pid == p {
            1nat
        } else {
            0nat
        }),
{
    assert(s.push(x) =~= s + seq![x]);
    lemma_cnt_ready_add(s, seq![x], p);
    lemma_cnt_ready_one(x, p);
}

proof fn lemma_cnt_tracker_add(a: Seq<SleepEntryM>, b: Seq<SleepEntryM>, p: nat)
    ensures
        cnt_tracker(a + b, p) == cnt_tracker(a, p) + cnt_tracker(b, p),
    decreases a.len(),
{
    if a.len() == 0 {
        assert(a + b =~= b);
    } else {
        assert((a + b).drop_first() =~= a.drop_first() + b);
        lemma_cnt_tracker_add(a.drop_first(), b, p);
    }
}

proof fn lemma_cnt_wait_add(a: Seq<WaitEntryM>, b: Seq<WaitEntryM>, p: nat, t: Tag)
    ensures
        cnt_wait(a + b, p, t) == cnt_wait(a, p, t) + cnt_wait(b, p, t),
    decreases a.len(),
{
    if a.len() == 0 {
        assert(a + b =~= b);
    } else {
        assert((a + b).drop_first() =~= a.drop_first() + b);
        lemma_cnt_wait_add(a.drop_first(), b, p, t);
    }
}

proof fn lemma_cnt_wait_push(s: Seq<WaitEntryM>, x: WaitEntryM, p: nat, t: Tag)
    ensures
        cnt_wait(s.push(x), p, t) == cnt_wait(s, p, t) + (if x.process.pid == p && x.tag == t {
            1nat
        } else {
            0nat
        }),
{
    assert(s.push(x) =~= s + seq![x]);
    lemma_cnt_wait_add(s, seq![x], p, t);
    lemma_cnt_wait_one(x, p, t);
}

proof fn lemma_cnt_tracker_push(s: Seq<SleepEntryM>, x: SleepEntryM, p: nat)
    ensures
        cnt_tracker(s.push(x), p) == cnt_tracker(s, p) + (if x.process.pid == p {
            1nat
        } else {
            0nat
        }),
{
    assert(s.push(x) =~= s + seq![x]);
    lemma_cnt_tracker_add(s, seq![x], p);
    lemma_cnt_tracker_one(x, p);
}

/// What removing the first pid match does to the waiting set's counts,
/// when no wait-blocked entry carries that pid: the first match, if any,
/// is a sleep bookkeeping copy, so exactly one `S` count of that pid
/// falls and every other count stays.
proof fn lemma_remove_first_counts(w: Seq<WaitEntryM>, p: nat, q: nat)
    requires
        cnt_wait(w, p, Tag::W) == 0,
    ensures
        q != p ==> cnt_wait(remove_first_pid(w, p), q, Tag::S) == cnt_wait(w, q, Tag::S),
        q != p ==> cnt_wait(remove_first_pid(w, p), q, Tag::W) == cnt_wait(w, q, Tag::W),
        cnt_wait(remove_first_pid(w, p), p, Tag::W) == 0,
        cnt_wait(w, p, Tag::S) >= 1 ==> cnt_wait(remove_first_pid(w, p), p, Tag::S) == cnt_wait(
            w,
            p,
            Tag::S,
        ) - 1,
        cnt_wait(w, p, Tag::S) == 0 ==> remove_first_pid(w, p) =~= w,
    decreases w.len(),
{
    if w.len() == 0 {
    } else if w[0].process.pid == p {
        assert(w[0].tag == Tag::S);
    } else {
        lemma_remove_first_counts(w.drop_first(), p, q);
        let r = remove_first_pid(w.drop_first(), p);
        lemma_cnt_wait_add(seq![w[0]], r, q, Tag::S);
        lemma_cnt_wait_add(seq![w[0]], r, q, Tag::W);
        lemma_cnt_wait_add(seq![w[0]], r, p, Tag::S);
        lemma_cnt_wait_add(seq![w[0]], r, p, Tag::W);
        lemma_cnt_wait_one(w[0], q, Tag::S);
        lemma_cnt_wait_one(w[0], q, Tag::W);
        lemma_cnt_wait_one(w[0], p, Tag::S);
        lemma_cnt_wait_one(w[0], p, Tag::W);
        if cnt_wait(w, p, Tag::S) == 0 {
            assert(seq![w[0]] + r =~= w);
        }
    }
}

/// How many tracker entries with pid `p` expire on this tick.
pub open spec fn prom_cnt(s: Seq<SleepEntryM>, p: nat) -> nat
    decreases s.len(),
{
    if s.len() == 0 {
        0
    } else {
        (if s[0].process.pid == p && s[0].cycles <= 1 {
            1nat
        } else {
            0nat
        }) + prom_cnt(s.drop_first(), p)
    }
}

/// The countdown of the first tracker entry with pid `p` (0 if none).
pub open spec fn tracker_cycles(s: Seq<SleepEntryM>, p: nat) -> nat
    decreases s.len(),
{
    if s.len() == 0 {
        0
    } else if s[0].process.pid == p {
        s[0].cycles
    } else {
        tracker_cycles(s.drop_first(), p)
    }
}

/// What one tracker pass does to every per-pid count: expired entries of
/// a pid move, one for one, from the tracker (and its `S` bookkeeping
/// copies in the waiting set) to the ready queue; wait-blocked entries
/// are untouched; and a unique surviving entry's countdown falls by one.
proof fn lemma_tick3_counts(
    ready: Seq<ProcessM>,
    waiting: Seq<WaitEntryM>,
    entries: Seq<SleepEntryM>,
    p: nat,
)
    requires
        forall|q: nat| cnt_wait(waiting, q, Tag::S) >= cnt_tracker(entries, q),
        forall|q: nat| cnt_tracker(entries, q) >= 1 ==> cnt_wait(waiting, q, Tag::W) == 0,
    ensures
        ({
            let r = spec_tick3(ready, waiting, entries);
            &&& prom_cnt(entries, p) <= cnt_tracker(entries, p)
            &&& cnt_ready(r.0, p) == cnt_ready(ready, p) + prom_cnt(entries, p)
            &&& cnt_tracker(r.2, p) == cnt_tracker(entries, p) - prom_cnt(entries, p)
            &&& cnt_wait(r.1, p, Tag::S) == cnt_wait(waiting, p, Tag::S) - prom_cnt(entries, p)
            &&& cnt_wait(r.1, p, Tag::W) == cnt_wait(waiting, p, Tag::W)
            &&& (cnt_tracker(entries, p) == 1 && tracker_cycles(entries, p) >= 2
                ==> tracker_cycles(r.2, p) == tracker_cycles(entries, p) - 1)
        }),
    decreases entries.len(),
{
    if entries.len() == 0 {
    } else {
        let e = entries[0];
        let rest = entries.drop_first();
        if e.cycles <= 1 {
            let w2 = remove_first_pid(waiting, e.process.pid);
            assert(cnt_tracker(entries, e.process.pid) >= 1);
            assert(cnt_wait(waiting, e.process.pid, Tag::W) == 0);
            assert(cnt_wait(waiting, e.process.pid, Tag::S) >= 1);
            assert forall|q: nat| cnt_wait(w2, q, Tag::S) >= cnt_tracker(rest, q) by {
                lemma_remove_first_counts(waiting, e.process.pid, q);
                assert(cnt_tracker(entries, q) == (if e.process.pid == q {
                    1nat
                } else {
                    0nat
                }) + cnt_tracker(rest, q));
                assert(cnt_wait(waiting, q, Tag::S) >= cnt_tracker(entries, q));
            }
            assert forall|q: nat|
                cnt_tracker(rest, q) >= 1 implies cnt_wait(w2, q, Tag::W) == 0 by {
                lemma_remove_first_counts(waiting, e.process.pid, q);
                assert(cnt_tracker(entries, q) == (if e.process.pid == q {
                    1nat
                } else {
                    0nat
                }) + cnt_tracker(rest, q));
                assert(cnt_tracker(entries, q) >= 1);
            }
            lemma_tick3_counts(ready.push(e.process), w2, rest, p);
            lemma_cnt_ready_push(ready, e.process, p);
            lemma_remove_first_counts(waiting, e.process.pid, p);
            assert(prom_cnt(entries, p) == (if e.process.pid == p {
                1nat
            } else {
                0nat
            }) + prom_cnt(rest, p));
            assert(cnt_tracker(entries, p) == (if e.process.pid == p {
                1nat
            } else {
                0nat
            }) + cnt_tracker(rest, p));
            if e.process.pid == p {
                assert(cnt_wait(waiting, p, Tag::S) >= cnt_tracker(entries, p));
                assert(cnt_wait(w2, p, Tag::S) == cnt_wait(waiting, p, Tag::S) - 1);
            } else {
                assert(tracker_cycles(entries, p) == tracker_cycles(rest, p));
            }
        } else {
            assert forall|q: nat| cnt_wait(waiting, q, Tag::S) >= cnt_tracker(rest, q) by {
                assert(cnt_tracker(entries, q) == (if e.process.pid == q {
                    1nat
                } else {
                    0nat
                }) + cnt_tracker(rest, q));
                assert(cnt_wait(waiting, q, Tag::S) >= cnt_tracker(entries, q));
            }
            assert forall|q: nat|
                cnt_tracker(rest, q) >= 1 implies cnt_wait(waiting, q, Tag::W) == 0 by {
                assert(cnt_tracker(entries, q) == (if e.process.pid == q {
                    1nat
                } else {
                    0nat
                }) + cnt_tracker(rest, q));
                assert(cnt_tracker(entries, q) >= 1);
            }
            lemma_tick3_counts(ready, waiting, rest, p);
            let r = spec_tick3(ready, waiting, rest);
            let d = SleepEntryM { process: e.process, cycles: (e.cycles - 1) as nat };
            lemma_cnt_tracker_add(seq![d], r.2, p);
            lemma_cnt_tracker_one(d, p);
            assert(prom_cnt(entries, p) == (if e.process.pid == p && e.cycles <= 1 {
                1nat
            } else {
                0nat
            }) + prom_cnt(rest, p));
            assert(cnt_tracker(entries, p) == (if e.process.pid == p {
                1nat
            } else {
                0nat
            }) + cnt_tracker(rest, p));
            assert((seq![d] + r.2)[0] == d);
            assert((seq![d] + r.2).drop_first() =~= r.2);
            if cnt_tracker(entries, p) == 1 && tracker_cycles(entries, p) >= 2 {
                if e.process.pid == p {
                    assert(cnt_tracker(rest, p) == 0);
                    lemma_zero_prom(rest, p);
                    assert(cnt_tracker(r.2, p) == 0);
                    assert(tracker_cycles(seq![d] + r.2, p) == d.cycles);
                    assert(tracker_cycles(entries, p) == e.cycles);
                } else {
                    assert(tracker_cycles(entries, p) == tracker_cycles(rest, p));
                    assert(tracker_cycles(seq![d] + r.2, p) == tracker_cycles(r.2, p));
                }
            }
        }
    }
}

/// One tick preserves well-formedness: each expiring sleeper moves — as
/// one — from tracker and bookkeeping copy to ready, so no pid is ever
/// duplicated or lost.
pub proof fn lemma_tick_preserves_wf(m: Model)
    requires
        wf(m),
    ensures
        wf(spec_tick(m)),
{
    assert forall|q: nat| cnt_tracker(m.tracker, q) >= 1 implies cnt_wait(
        m.waiting,
        q,
        Tag::W,
    ) == 0 by {
        assert(live_cnt(m, q) <= 1);
    }
    let m2 = spec_tick(m);
    assert forall|p: nat| live_cnt(m2, p) <= 1 by {
        lemma_tick3_counts(m.ready, m.waiting, m.tracker, p);
        assert(live_cnt(m, p) <= 1);
        assert(live_cnt(m2, p) == live_cnt(m, p));
    }
    assert forall|p: nat| cnt_wait(m2.waiting, p, Tag::S) == cnt_tracker(m2.tracker, p) by {
        lemma_tick3_counts(m.ready, m.waiting, m.tracker, p);
        assert(cnt_wait(m.waiting, p, Tag::S) == cnt_tracker(m.tracker, p));
    }
    assert forall|p: nat|
        p > m2.last_pid implies live_cnt(m2, p) == 0 && cnt_wait(m2.waiting, p, Tag::S)
        == 0 by {
        lemma_tick3_counts(m.ready, m.waiting, m.tracker, p);
        assert(m2.last_pid == m.last_pid);
        assert(p > m.last_pid);
        assert(live_cnt(m, p) == 0);
        assert(cnt_wait(m.waiting, p, Tag::S) == 0);
        assert(live_cnt(m2, p) == live_cnt(m, p));
    }
}

/// `k` successive ticks of the sleep tracker.
pub open spec fn spec_tick_n(m: Model, k: nat) -> Model
    decreases k,
{
    if k == 0 {
        m
    } else {
        spec_tick_n(spec_tick(m), (k - 1) as nat)
    }
}

/// A unique tracker entry expires exactly when its countdown is spent.
proof fn lemma_unique_prom(s: Seq<SleepEntryM>, p: nat)
    requires
        cnt_tracker(s, p) == 1,
    ensures
        prom_cnt(s, p) == (if tracker_cycles(s, p) <= 1 {
            1nat
        } else {
            0nat
        }),
    decreases s.len(),
{
    if s.len() > 0 {
        if s[0].process.pid == p {
            assert(cnt_tracker(s.drop_first(), p) == 0);
            lemma_zero_prom(s.drop_first(), p);
        } else {
            lemma_unique_prom(s.drop_first(), p);
        }
    }
}

proof fn lemma_zero_prom(s: Seq<SleepEntryM>, p: nat)
    requires
        cnt_tracker(s, p) == 0,
    ensures
        prom_cnt(s, p) == 0,
    decreases s.len(),
{
    if s.len() > 0 {
        lemma_zero_prom(s.drop_first(), p);
    }
}

/// Sleep invariant: a process registered in the tracker with countdown
/// `n` (n at least 1) in a well-formed state becomes ready again exactly
/// after `n` ticks of the tracker — on every earlier tick it is still
/// asleep with the remaining countdown, it is never in ready meanwhile,
/// and on the `n`th tick it is in ready and absent from both the
/// waiting set and the tracker.
pub proof fn lemma_sleep_exact(m: Model, p: nat, n: nat, k: nat)
    requires
        wf(m),
        cnt_tracker(m.tracker, p) == 1,
        tracker_cycles(m.tracker, p) == n,
        cnt_ready(m.ready, p) == 0,
        1 <= n,
        k <= n,
    ensures
        wf(spec_tick_n(m, k)),
        k < n ==> cnt_tracker(spec_tick_n(m, k).tracker, p) == 1 && tracker_cycles(
            spec_tick_n(m, k).tracker,
            p,
        ) == n - k && cnt_ready(spec_tick_n(m, k).ready, p) == 0,
        k == n ==> cnt_ready(spec_tick_n(m, k).ready, p) == 1 && cnt_tracker(
            spec_tick_n(m, k).tracker,
            p,
        ) == 0 && cnt_wait(spec_tick_n(m, k).waiting, p, Tag::S) == 0 && cnt_wait(
            spec_tick_n(m, k).waiting,
            p,
            Tag::W,
        ) == 0,
    decreases k,
{
    if k == 0 {
    } else {
        assert forall|q: nat| cnt_tracker(m.tracker, q) >= 1 implies cnt_wait(
            m.waiting,
            q,
            Tag::W,
        ) == 0 by {
            assert(live_cnt(m, q) <= 1);
        }
        lemma_tick3_counts(m.ready, m.waiting, m.tracker, p);
        lemma_unique_prom(m.tracker, p);
        lemma_tick_preserves_wf(m);
        let m1 = spec_tick(m);
        assert(spec_tick_n(m, k) == spec_tick_n(m1, (k - 1) as nat));
        if n >= 2 {
            lemma_sleep_exact(m1, p, (n - 1) as nat, (k - 1) as nat);
        } else {
            assert(n == 1 && k == 1);
            assert(prom_cnt(m.tracker, p) == 1);
            assert(cnt_ready(m1.ready, p) == 1);
            assert(cnt_tracker(m1.tracker, p) == 0);
            assert(cnt_wait(m1.waiting, p, Tag::S) == 0);
            assert(cnt_wait(m1.waiting, p, Tag::W) == 0);
        }
    }
}


/// Two states with the same containers and pid allocator are equally
/// well-formed.
proof fn lemma_wf_same_containers(a: Model, b: Model)
    requires
        wf(a),
        a.running == b.running,
        a.ready == b.ready,
        a.waiting == b.waiting,
        a.tracker == b.tracker,
        a.newp == b.newp,
        a.terminated == b.terminated,
        a.last_pid == b.last_pid,
    ensures
        wf(b),
{
    assert forall|p: nat| live_cnt(b, p) <= 1 by {
        assert(live_cnt(b, p) == live_cnt(a, p));
    }
    assert forall|p: nat| cnt_wait(b.waiting, p, Tag::S) == cnt_tracker(b.tracker, p) by {
        assert(cnt_wait(a.waiting, p, Tag::S) == cnt_tracker(a.tracker, p));
    }
    assert forall|p: nat|
        p > b.last_pid implies live_cnt(b, p) == 0 && cnt_wait(b.waiting, p, Tag::S) == 0 by {
        assert(live_cnt(a, p) == 0 && cnt_wait(a.waiting, p, Tag::S) == 0);
        assert(live_cnt(b, p) == live_cnt(a, p));
    }
}

/// Admission preserves well-formedness: the head of the ready queue only
/// changes container.
pub proof fn lemma_admit_preserves_wf(m: Model)
    requires
        wf(m),
        m.running is None,
        m.ready.len() > 0,
    ensures
        wf(spec_admit(m)),
{
    let m2 = spec_admit(m);
    assert forall|p: nat| live_cnt(m2, p) <= 1 by {
        assert(live_cnt(m, p) <= 1);
        assert(cnt_ready(m.ready, p) == (if m.ready[0].pid == p {
            1nat
        } else {
            0nat
        }) + cnt_ready(m.ready.drop_first(), p));
    }
    assert forall|p: nat|
        p > m2.last_pid implies live_cnt(m2, p) == 0 && cnt_wait(m2.waiting, p, Tag::S)
        == 0 by {
        assert(p > m.last_pid);
        assert(live_cnt(m, p) == 0);
        assert(cnt_wait(m.waiting, p, Tag::S) == 0);
        assert(cnt_ready(m.ready, p) == (if m.ready[0].pid == p {
            1nat
        } else {
            0nat
        }) + cnt_ready(m.ready.drop_first(), p));
    }
}

/// Spawning preserves well-formedness: the parent moves from running to
/// ready, and the child's pid is fresh, so no pid is duplicated.
pub proof fn lemma_spawn_preserves_wf(
    m: Model,
    parent: ProcessM,
    name: Seq<char>,
    body: Seq<InstrM>,
)
    requires
        wf(m),
        m.running == Option::Some(parent),
        m.newp is None,
    ensures
        wf(spec_spawn(m, parent, name, body)),
{
    let m2 = spec_spawn(m, parent, name, body);
    assert forall|p: nat| live_cnt(m2, p) <= 1 by {
        assert(live_cnt(m, p) <= 1);
        lemma_cnt_ready_push(m.ready, parent, p);
        if p > m.last_pid {
            assert(live_cnt(m, p) == 0);
        }
    }
    assert forall|p: nat|
        p > m2.last_pid implies live_cnt(m2, p) == 0 && cnt_wait(m2.waiting, p, Tag::S)
        == 0 by {
        assert(p > m.last_pid);
        assert(live_cnt(m, p) == 0);
        assert(cnt_wait(m.waiting, p, Tag::S) == 0);
        lemma_cnt_ready_push(m.ready, parent, p);
    }
}

/// Parking a sleeper preserves well-formedness: the running process
/// moves to the tracker, and its waiting-set copy is tagged `S` in the
/// same step.
pub proof fn lemma_sleep_park_preserves_wf(m: Model, p0: ProcessM, n: nat)
    requires
        wf(m),
        m.running == Option::Some(p0),
    ensures
        wf(
            Model {
                waiting: m.waiting.push(WaitEntryM { process: p0, tag: Tag::S }),
                tracker: m.tracker.push(SleepEntryM { process: p0, cycles: n }),
                running: Option::None,
                ..m
            },
        ),
{
    let m2 = Model {
        waiting: m.waiting.push(WaitEntryM { process: p0, tag: Tag::S }),
        tracker: m.tracker.push(SleepEntryM { process: p0, cycles: n }),
        running: Option::None,
        ..m
    };
    assert forall|p: nat| live_cnt(m2, p) <= 1 by {
        assert(live_cnt(m, p) <= 1);
        lemma_cnt_wait_push(m.waiting, WaitEntryM { process: p0, tag: Tag::S }, p, Tag::W);
        lemma_cnt_tracker_push(m.tracker, SleepEntryM { process: p0, cycles: n }, p);
    }
    assert forall|p: nat| cnt_wait(m2.waiting, p, Tag::S) == cnt_tracker(m2.tracker, p) by {
        assert(cnt_wait(m.waiting, p, Tag::S) == cnt_tracker(m.tracker, p));
        lemma_cnt_wait_push(m.waiting, WaitEntryM { process: p0, tag: Tag::S }, p, Tag::S);
        lemma_cnt_tracker_push(m.tracker, SleepEntryM { process: p0, cycles: n }, p);
    }
    assert forall|p: nat|
        p > m2.last_pid implies live_cnt(m2, p) == 0 && cnt_wait(m2.waiting, p, Tag::S)
        == 0 by {
        assert(p > m.last_pid);
        assert(live_cnt(m, p) == 0);
        assert(cnt_wait(m.waiting, p, Tag::S) == 0);
        lemma_cnt_wait_push(m.waiting, WaitEntryM { process: p0, tag: Tag::S }, p, Tag::W);
        lemma_cnt_wait_push(m.waiting, WaitEntryM { process: p0, tag: Tag::S }, p, Tag::S);
        lemma_cnt_tracker_push(m.tracker, SleepEntryM { process: p0, cycles: n }, p);
    }
}

/// Parking or re-queueing a waiter preserves well-formedness.
pub proof fn lemma_wait_park_preserves_wf(m: Model, p0: ProcessM, blocked: bool)
    requires
        wf(m),
        m.running == Option::Some(p0),
    ensures
        blocked ==> wf(
            Model {
                waiting: m.waiting.push(WaitEntryM { process: p0, tag: Tag::W }),
                running: Option::None,
                ..m
            },
        ),
        !blocked ==> wf(Model { ready: m.ready.push(p0), running: Option::None, ..m }),
{
    if blocked {
        let m2 = Model {
            waiting: m.waiting.push(WaitEntryM { process: p0, tag: Tag::W }),
            running: Option::None,
            ..m
        };
        assert forall|p: nat| live_cnt(m2, p) <= 1 by {
            assert(live_cnt(m, p) <= 1);
            lemma_cnt_wait_push(m.waiting, WaitEntryM { process: p0, tag: Tag::W }, p, Tag::W);
        }
        assert forall|p: nat| cnt_wait(m2.waiting, p, Tag::S) == cnt_tracker(m2.tracker, p) by {
            assert(cnt_wait(m.waiting, p, Tag::S) == cnt_tracker(m.tracker, p));
            lemma_cnt_wait_push(m.waiting, WaitEntryM { process: p0, tag: Tag::W }, p, Tag::S);
        }
        assert forall|p: nat|
            p > m2.last_pid implies live_cnt(m2, p) == 0 && cnt_wait(m2.waiting, p, Tag::S)
            == 0 by {
            assert(p > m.last_pid);
            assert(live_cnt(m, p) == 0);
        assert(cnt_wait(m.waiting, p, Tag::S) == 0);
            lemma_cnt_wait_push(m.waiting, WaitEntryM { process: p0, tag: Tag::W }, p, Tag::W);
            lemma_cnt_wait_push(m.waiting, WaitEntryM { process: p0, tag: Tag::W }, p, Tag::S);
        }
    } else {
        let m2 = Model { ready: m.ready.push(p0), running: Option::None, ..m };
        assert forall|p: nat| live_cnt(m2, p) <= 1 by {
            assert(live_cnt(m, p) <= 1);
            lemma_cnt_ready_push(m.ready, p0, p);
        }
        assert forall|p: nat|
            p > m2.last_pid implies live_cnt(m2, p) == 0 && cnt_wait(m2.waiting, p, Tag::S)
            == 0 by {
            assert(p > m.last_pid);
            assert(live_cnt(m, p) == 0);
        assert(cnt_wait(m.waiting, p, Tag::S) == 0);
            lemma_cnt_ready_push(m.ready, p0, p);
        }
    }
}

/// What the wake scan does to every count: with no wait-blocked entry
/// of the pid it changes nothing; otherwise exactly one such entry of
/// exactly that pid moves out, and every sleep bookkeeping copy stays.
proof fn lemma_wake_counts(w: Seq<WaitEntryM>, p: nat, q: nat)
    ensures
        ({
            let r = spec_wake_split(w, p);
            &&& cnt_wait(w, p, Tag::W) == 0 ==> r.0 == w && r.1 is None
            &&& cnt_wait(w, p, Tag::W) >= 1 ==> (r.1 matches Option::Some(x) && x.pid == p
                && cnt_wait(r.0, p, Tag::W) == cnt_wait(w, p, Tag::W) - 1)
            &&& q != p ==> cnt_wait(r.0, q, Tag::W) == cnt_wait(w, q, Tag::W)
            &&& cnt_wait(r.0, q, Tag::S) == cnt_wait(w, q, Tag::S)
        }),
    decreases w.len(),
{
    if w.len() == 0 {
    } else if w[0].process.pid == p && w[0].tag is W {
    } else {
        lemma_wake_counts(w.drop_first(), p, q);
        lemma_wake_counts(w.drop_first(), p, p);
        let r = spec_wake_split(w.drop_first(), p);
        lemma_cnt_wait_add(seq![w[0]], r.0, q, Tag::S);
        lemma_cnt_wait_add(seq![w[0]], r.0, q, Tag::W);
        lemma_cnt_wait_add(seq![w[0]], r.0, p, Tag::W);
        lemma_cnt_wait_one(w[0], q, Tag::S);
        lemma_cnt_wait_one(w[0], q, Tag::W);
        lemma_cnt_wait_one(w[0], p, Tag::W);
        if cnt_wait(w, p, Tag::W) == 0 {
            assert(seq![w[0]] + r.0 =~= w);
        }
    }
}

/// Reaping preserves well-formedness: the exiting process moves from
/// running to terminated, and at most one wait-blocked parent moves from
/// the waiting set to ready.
pub proof fn lemma_reap_preserves_wf(m: Model, c: ProcessM)
    requires
        wf(m),
        m.running == Option::Some(c),
        m.terminated is None,
    ensures
        wf(spec_reap(m, c)),
{
    let m2 = spec_reap(m, c);
    let r = spec_wake_split(m.waiting, c.ppid);
    assert forall|p: nat| live_cnt(m2, p) <= 1 by {
        assert(live_cnt(m, p) <= 1);
        assert(live_cnt(m, c.ppid) <= 1);
        lemma_wake_counts(m.waiting, c.ppid, p);
        match r.1 {
            Option::Some(x) => {
                lemma_cnt_ready_push(m.ready, x, p);
            },
            Option::None => {},
        }
    }
    assert forall|p: nat| cnt_wait(m2.waiting, p, Tag::S) == cnt_tracker(m2.tracker, p) by {
        assert(cnt_wait(m.waiting, p, Tag::S) == cnt_tracker(m.tracker, p));
        lemma_wake_counts(m.waiting, c.ppid, p);
    }
    assert forall|p: nat|
        p > m2.last_pid implies live_cnt(m2, p) == 0 && cnt_wait(m2.waiting, p, Tag::S)
        == 0 by {
        assert(p > m.last_pid);
        assert(live_cnt(m, p) == 0);
        assert(cnt_wait(m.waiting, p, Tag::S) == 0);
        assert(live_cnt(m, c.ppid) <= 1);
        lemma_wake_counts(m.waiting, c.ppid, p);
        match r.1 {
            Option::Some(x) => {
                lemma_cnt_ready_push(m.ready, x, p);
                if x.pid == p {
                    assert(cnt_wait(m.waiting, p, Tag::W) >= 1);
                }
            },
            Option::None => {},
        }
    }
}


/// The engine's running-state invariant: the state is well-formed and
/// the one-cycle-wide new and terminated slots are empty, as they are
/// whenever control is outside the middle of a fork or an exit.
pub open spec fn wfe(m: Model) -> bool {
    &&& wf(m)
    &&& m.newp is None
    &&& m.terminated is None
}

/// Replacing the running process by one with the same pid (the same
/// process with instructions consumed) preserves well-formedness.
proof fn lemma_wf_replace_running(m: Model, p2: ProcessM)
    requires
        wf(m),
        m.running matches Option::Some(p) && p.pid == p2.pid,
    ensures
        wf(Model { mode: Mode::User, running: Option::Some(p2), ..m }),
{
    let b = Model { mode: Mode::User, running: Option::Some(p2), ..m };
    assert forall|p: nat| live_cnt(b, p) <= 1 by {
        assert(live_cnt(m, p) <= 1);
        assert(live_cnt(b, p) == live_cnt(m, p));
    }
    assert forall|p: nat| cnt_wait(b.waiting, p, Tag::S) == cnt_tracker(b.tracker, p) by {
        assert(cnt_wait(m.waiting, p, Tag::S) == cnt_tracker(m.tracker, p));
    }
    assert forall|p: nat| #![trigger live_cnt(b, p)]
        p > b.last_pid implies live_cnt(b, p) == 0 && cnt_wait(b.waiting, p, Tag::S) == 0 by {
        assert(live_cnt(m, p) == 0);
        assert(cnt_wait(m.waiting, p, Tag::S) == 0);
        assert(live_cnt(b, p) == live_cnt(m, p));
    }
}

/// Admitting the new-slot process into ready preserves well-formedness:
/// it only changes container.
proof fn lemma_admit_new_preserves_wf(m: Model, c: ProcessM)
    requires
        wf(m),
        m.newp == Option::Some(c),
    ensures
        wf(Model { ready: m.ready.push(c), newp: Option::None, ..m }),
{
    let b = Model { ready: m.ready.push(c), newp: Option::None, ..m };
    assert forall|p: nat| live_cnt(b, p) <= 1 by {
        assert(live_cnt(m, p) <= 1);
        lemma_cnt_ready_push(m.ready, c, p);
    }
    assert forall|p: nat| #![trigger live_cnt(b, p)]
        p > b.last_pid implies live_cnt(b, p) == 0 && cnt_wait(b.waiting, p, Tag::S) == 0 by {
        assert(live_cnt(m, p) == 0);
        assert(cnt_wait(m.waiting, p, Tag::S) == 0);
        lemma_cnt_ready_push(m.ready, c, p);
    }
}

/// Clearing the terminated slot preserves well-formedness: the exited
/// process simply leaves the system.
proof fn lemma_clear_terminated_wf(m: Model)
    requires
        wf(m),
    ensures
        wf(Model { terminated: Option::None, ..m }),
{
    let b = Model { terminated: Option::None, ..m };
    assert forall|p: nat| live_cnt(b, p) <= 1 by {
        assert(live_cnt(m, p) <= 1);
        assert(live_cnt(b, p) <= live_cnt(m, p));
    }
    assert forall|p: nat| #![trigger live_cnt(b, p)]
        p > b.last_pid implies live_cnt(b, p) == 0 && cnt_wait(b.waiting, p, Tag::S) == 0 by {
        assert(live_cnt(m, p) == 0);
        assert(cnt_wait(m.waiting, p, Tag::S) == 0);
        assert(live_cnt(b, p) <= live_cnt(m, p));
    }
}

/// Busy cycles preserve the running-state invariant: they only tick the
/// tracker.
proof fn lemma_run_cycles_wf(m: Model, n: nat)
    requires
        wfe(m),
    ensures
        match crate::engine::spec_run_cycles(m, n) {
            Result::Ok(m2) => wfe(m2),
            Result::Err(_) => true,
        },
    decreases n,
{
    if n > 0 {
        match spec_spend(m) {
            Result::Err(_) => {},
            Result::Ok(m1) => {
                lemma_wf_same_containers(m, m1);
                lemma_tick_preserves_wf(m1);
                let mt = spec_tick(m1);
                lemma_wf_same_containers(mt, spec_mark_and_log(mt));
                lemma_run_cycles_wf(spec_mark_and_log(mt), (n - 1) as nat);
            },
        }
    }
}


/// Uniqueness of live pids holds at every cycle of a run: the scheduler
/// hands a well-formed running state to whatever it cascades into, and
/// is handed one back.
pub proof fn lemma_schedule_keeps_wf(m: Model)
    requires
        wfe(m),
    ensures
        match crate::engine::spec_schedule(m) {
            Result::Ok(m2) => wfe(m2),
            Result::Err(_) => true,
        },
    decreases m.fuel, 0int, 0int,
{
    let m0 = Model { mode: Mode::Kernel, ..m };
    lemma_wf_same_containers(m, m0);
    match spec_spend(m0) {
        Result::Err(_) => {},
        Result::Ok(m1) => {
            lemma_wf_same_containers(m0, m1);
            if m1.running is Some {
            } else if m1.ready.len() == 0 {
                lemma_wf_same_containers(m1, spec_mark_and_log(Model { command: crate::types::CommandM::Idle, ..m1 }));
            } else {
                lemma_admit_preserves_wf(m1);
                let ma = crate::engine::spec_admit(m1);
                lemma_wf_same_containers(ma, spec_mark_and_log(ma));
                lemma_interpret_keeps_wf(spec_mark_and_log(ma));
            }
        },
    }
}

/// The fork handler preserves uniqueness of live pids: the child's pid
/// is fresh and the parent only changes container.
pub proof fn lemma_fork_keeps_wf(m: Model, name: Seq<char>)
    requires
        wfe(m),
    ensures
        match crate::engine::spec_fork(m, name) {
            Result::Ok(m2) => wfe(m2),
            Result::Err(_) => true,
        },
    decreases m.fuel, 1int, 0int,
{
    match spec_spend(m) {
        Result::Err(_) => {},
        Result::Ok(ma) => {
            lemma_wf_same_containers(m, ma);
            lemma_tick_preserves_wf(ma);
            let mb = spec_mark_and_log(Model { command: crate::types::CommandM::Fork(name), ..spec_tick(ma) });
            lemma_wf_same_containers(spec_tick(ma), mb);
            let mc = Model { mode: Mode::Kernel, ..mb };
            lemma_wf_same_containers(mb, mc);
            match spec_spend(mc) {
                Result::Err(_) => {},
                Result::Ok(md) => {
                    lemma_wf_same_containers(mc, md);
                    lemma_tick_preserves_wf(md);
                    let me = Model { command: crate::types::CommandM::SystemCall, ..spec_tick(md) };
                    lemma_wf_same_containers(spec_tick(md), me);
                    match me.running {
                        Option::None => {},
                        Option::Some(parent) => {
                            match crate::parse::lookup_spec(me.programs, name) {
                                Option::None => {},
                                Option::Some(spec_body) => {
                                    lemma_spawn_preserves_wf(me, parent, name, spec_body);
                                    let ms = crate::engine::spec_spawn(me, parent, name, spec_body);
                                    let mf = spec_mark_and_log(ms);
                                    lemma_wf_same_containers(ms, mf);
                                    lemma_tick_preserves_wf(mf);
                                    let mg = spec_tick(mf);
                                    match mg.newp {
                                        Option::None => {
                                            assert(false);
                                        },
                                        Option::Some(c) => {
                                            lemma_admit_new_preserves_wf(mg, c);
                                            lemma_schedule_keeps_wf(
                                                Model {
                                                    ready: mg.ready.push(c),
                                                    newp: Option::None,
                                                    ..mg
                                                },
                                            );
                                        },
                                    }
                                },
                            }
                        },
                    }
                },
            }
        },
    }
}

/// The sleep handler preserves uniqueness of live pids: the sleeper
/// moves — as one — into tracker and bookkeeping copy.
pub proof fn lemma_sleep_keeps_wf(m: Model, n: nat)
    requires
        wfe(m),
    ensures
        match crate::engine::spec_sleep(m, n) {
            Result::Ok(m2) => wfe(m2),
            Result::Err(_) => true,
        },
    decreases m.fuel, 1int, 0int,
{
    match spec_spend(m) {
        Result::Err(_) => {},
        Result::Ok(ma) => {
            lemma_wf_same_containers(m, ma);
            lemma_tick_preserves_wf(ma);
            let mb = spec_mark_and_log(Model { command: crate::types::CommandM::Sleep(n), ..spec_tick(ma) });
            lemma_wf_same_containers(spec_tick(ma), mb);
            let mc = Model { mode: Mode::Kernel, ..mb };
            lemma_wf_same_containers(mb, mc);
            match spec_spend(mc) {
                Result::Err(_) => {},
                Result::Ok(md) => {
                    lemma_wf_same_containers(mc, md);
                    lemma_tick_preserves_wf(md);
                    let me = Model { command: crate::types::CommandM::SystemCall, ..spec_tick(md) };
                    lemma_wf_same_containers(spec_tick(md), me);
                    match me.running {
                        Option::None => {},
                        Option::Some(p) => {
                            lemma_sleep_park_preserves_wf(me, p, n);
                            let mf = Model {
                                waiting: me.waiting.push(WaitEntryM { process: p, tag: Tag::S }),
                                tracker: me.tracker.push(SleepEntryM { process: p, cycles: n }),
                                running: Option::None,
                                ..me
                            };
                            let mg = spec_mark_and_log(mf);
                            lemma_wf_same_containers(mf, mg);
                            lemma_tick_preserves_wf(mg);
                            let mh = spec_tick(mg);
                            if mh.ready.len() > 0 {
                                lemma_schedule_keeps_wf(mh);
                            } else {
                                let mi = Model { mode: Mode::Kernel, ..mh };
                                lemma_wf_same_containers(mh, mi);
                                match spec_spend(mi) {
                                    Result::Err(_) => {},
                                    Result::Ok(mj) => {
                                        lemma_wf_same_containers(mi, mj);
                                        if mj.running is Some {
                                            lemma_sleep_wait_keeps_wf(mj);
                                        } else {
                                            let mk = spec_mark_and_log(Model { command: crate::types::CommandM::Idle, ..mj });
                                            lemma_wf_same_containers(mj, mk);
                                            lemma_sleep_wait_keeps_wf(mk);
                                        }
                                    },
                                }
                            }
                        },
                    }
                },
            }
        },
    }
}

/// The idle loop after a sleep preserves uniqueness of live pids.
pub proof fn lemma_sleep_wait_keeps_wf(m: Model)
    requires
        wfe(m),
    ensures
        match crate::engine::spec_sleep_wait(m) {
            Result::Ok(m2) => wfe(m2),
            Result::Err(_) => true,
        },
    decreases m.fuel, 1int, 0int,
{
    lemma_tick_preserves_wf(m);
    let m1 = spec_tick(m);
    if m1.ready.len() > 0 {
        lemma_schedule_keeps_wf(m1);
    } else {
        let m2 = Model { mode: Mode::Kernel, ..m1 };
        lemma_wf_same_containers(m1, m2);
        match spec_spend(m2) {
            Result::Err(_) => {},
            Result::Ok(m3) => {
                lemma_wf_same_containers(m2, m3);
                if m3.running is Some {
                    lemma_sleep_wait_keeps_wf(m3);
                } else {
                    let m4 = spec_mark_and_log(Model { command: crate::types::CommandM::Idle, ..m3 });
                    lemma_wf_same_containers(m3, m4);
                    lemma_sleep_wait_keeps_wf(m4);
                }
            },
        }
    }
}

/// The wait handler preserves uniqueness of live pids: the caller moves
/// either to the waiting set or back to ready, never to both.
pub proof fn lemma_wait_keeps_wf(m: Model)
    requires
        wfe(m),
    ensures
        match crate::engine::spec_wait(m) {
            Result::Ok(m2) => wfe(m2),
            Result::Err(_) => true,
        },
    decreases m.fuel, 1int, 0int,
{
    match spec_spend(m) {
        Result::Err(_) => {},
        Result::Ok(ma) => {
            lemma_wf_same_containers(m, ma);
            lemma_tick_preserves_wf(ma);
            let mb = spec_mark_and_log(Model { command: crate::types::CommandM::Wait, ..spec_tick(ma) });
            lemma_wf_same_containers(spec_tick(ma), mb);
            let mc = Model { mode: Mode::Kernel, ..mb };
            lemma_wf_same_containers(mb, mc);
            match spec_spend(mc) {
                Result::Err(_) => {},
                Result::Ok(md) => {
                    lemma_wf_same_containers(mc, md);
                    lemma_tick_preserves_wf(md);
                    let me = Model { command: crate::types::CommandM::SystemCall, ..spec_tick(md) };
                    lemma_wf_same_containers(spec_tick(md), me);
                    match me.running {
                        Option::None => {},
                        Option::Some(p) => {
                            lemma_wait_park_preserves_wf(
                                me,
                                p,
                                crate::state::has_child(me.ready, p.pid),
                            );
                            let mf = if crate::state::has_child(me.ready, p.pid) {
                                Model {
                                    waiting: me.waiting.push(WaitEntryM { process: p, tag: Tag::W }),
                                    running: Option::None,
                                    ..me
                                }
                            } else {
                                Model { ready: me.ready.push(p), running: Option::None, ..me }
                            };
                            let mg = spec_mark_and_log(mf);
                            lemma_wf_same_containers(mf, mg);
                            lemma_tick_preserves_wf(mg);
                            lemma_schedule_keeps_wf(spec_tick(mg));
                        },
                    }
                },
            }
        },
    }
}

/// The exit handler preserves uniqueness of live pids: at most one
/// blocked parent is woken, and the exiting process leaves the system.
pub proof fn lemma_exit_keeps_wf(m: Model)
    requires
        wfe(m),
    ensures
        match crate::engine::spec_exit(m) {
            Result::Ok(m2) => wfe(m2),
            Result::Err(_) => true,
        },
    decreases m.fuel, 1int, 0int,
{
    match spec_spend(m) {
        Result::Err(_) => {},
        Result::Ok(ma) => {
            lemma_wf_same_containers(m, ma);
            lemma_tick_preserves_wf(ma);
            let mb = spec_mark_and_log(Model { command: crate::types::CommandM::Exit, ..spec_tick(ma) });
            lemma_wf_same_containers(spec_tick(ma), mb);
            let mc = Model { mode: Mode::Kernel, ..mb };
            lemma_wf_same_containers(mb, mc);
            match spec_spend(mc) {
                Result::Err(_) => {},
                Result::Ok(md) => {
                    lemma_wf_same_containers(mc, md);
                    lemma_tick_preserves_wf(md);
                    let me = Model { command: crate::types::CommandM::SystemCall, ..spec_tick(md) };
                    lemma_wf_same_containers(spec_tick(md), me);
                    match me.running {
                        Option::None => {},
                        Option::Some(c) => {
                            lemma_reap_preserves_wf(me, c);
                            let mr = crate::engine::spec_reap(me, c);
                            let mf = spec_mark_and_log(mr);
                            lemma_wf_same_containers(mr, mf);
                            lemma_clear_terminated_wf(mf);
                            let mg = Model { terminated: Option::None, ..mf };
                            match mg.newp {
                                Option::Some(_) => {
                                    assert(false);
                                },
                                Option::None => {
                                    if mg.ready.len() == 0 && mg.waiting.len() == 0 {
                                    } else {
                                        lemma_tick_preserves_wf(mg);
                                        lemma_schedule_keeps_wf(spec_tick(mg));
                                    }
                                },
                            }
                        },
                    }
                },
            }
        },
    }
}

/// The interpreter preserves uniqueness of live pids at every dispatch.
pub proof fn lemma_interpret_keeps_wf(m: Model)
    requires
        wfe(m),
    ensures
        match crate::engine::spec_interpret(m) {
            Result::Ok(m2) => wfe(m2),
            Result::Err(_) => true,
        },
    decreases m.fuel, 2int, crate::engine::run_len(m),
{
    match m.running {
        Option::None => {},
        Option::Some(p) => {
            if p.instrs.len() > 0 {
                let instr = p.instrs[0];
                let p2 = ProcessM { instrs: p.instrs.drop_first(), ..p };
                lemma_wf_replace_running(m, p2);
                let m1 = Model { mode: Mode::User, running: Option::Some(p2), ..m };
                match instr {
                    InstrM::Run(n) => {
                        let m2 = Model { command: crate::types::CommandM::Run(n), ..m1 };
                        lemma_wf_same_containers(m1, m2);
                        crate::engine::lemma_run_cycles_props(m2, n);
                        lemma_run_cycles_wf(m2, n);
                        match crate::engine::spec_run_cycles(m2, n) {
                            Result::Err(_) => {},
                            Result::Ok(m3) => {
                                lemma_interpret_keeps_wf(m3);
                            },
                        }
                    },
                    InstrM::Fork(name) => {
                        lemma_fork_keeps_wf(m1, name);
                    },
                    InstrM::Sleep(n) => {
                        lemma_sleep_keeps_wf(m1, n);
                    },
                    InstrM::Wait => {
                        lemma_wait_keeps_wf(m1);
                    },
                    InstrM::Exit => {
                        lemma_exit_keeps_wf(m1);
                    },
                    InstrM::Bad => {
                        let m2 = Model { diagnostics: crate::engine::bump(m1.diagnostics), ..m1 };
                        lemma_wf_same_containers(m1, m2);
                        lemma_interpret_keeps_wf(m2);
                    },
                }
            }
        },
    }
}

/// Uniqueness over a whole run: the boot state is well-formed — the
/// single process `init` under pid 1 — and every cycle of the cascade
/// keeps it so, as the lemmas above establish step by step; in
/// particular the final state of a completed run is well-formed.
pub proof fn lemma_boot_keeps_wf(programs: Seq<crate::types::ProgramM>, fuel: nat)
    ensures
        match crate::engine::spec_boot(programs, fuel) {
            Result::Ok(m2) => wfe(m2),
            Result::Err(_) => true,
        },
{
    match crate::parse::lookup_spec(programs, "init"@) {
        Option::None => {},
        Option::Some(ibody) => {
            let init = ProcessM { name: "init"@, pid: 1, ppid: 0, instrs: ibody };
            let m0 = crate::state::spec_new(programs, fuel);
            let mn = Model { newp: Option::Some(init), ..m0 };
            assert(wf(mn)) by {
                assert forall|p: nat| live_cnt(mn, p) <= 1 by {
                    lemma_zero_cnts(p);
                }
                assert forall|p: nat| cnt_wait(mn.waiting, p, Tag::S) == cnt_tracker(
                    mn.tracker,
                    p,
                ) by {
                    lemma_zero_cnts(p);
                }
                assert forall|p: nat| #![trigger live_cnt(mn, p)]
                    p > mn.last_pid implies live_cnt(mn, p) == 0 && cnt_wait(
                    mn.waiting,
                    p,
                    Tag::S,
                ) == 0 by {
                    lemma_zero_cnts(p);
                }
            }
            let m1 = spec_mark_and_log(mn);
            lemma_wf_same_containers(mn, m1);
            lemma_admit_new_preserves_wf(m1, init);
            lemma_schedule_keeps_wf(Model { ready: m1.ready.push(init), newp: Option::None, ..m1 });
        },
    }
}

proof fn lemma_zero_cnts(p: nat)
    ensures
        cnt_ready(Seq::<ProcessM>::empty(), p) == 0,
        cnt_tracker(Seq::<SleepEntryM>::empty(), p) == 0,
        cnt_wait(Seq::<WaitEntryM>::empty(), p, Tag::S) == 0,
        cnt_wait(Seq::<WaitEntryM>::empty(), p, Tag::W) == 0,
{
}


/// One tick preserves the live pid set exactly: every pid's live count
/// is unchanged — an expiring sleeper merely moves, with its
/// bookkeeping copy, from the tracker to the ready queue.
pub proof fn lemma_tick_preserves_live(m: Model)
    requires
        wf(m),
    ensures
        forall|q: nat| #[trigger] live_cnt(spec_tick(m), q) == live_cnt(m, q),
{
    assert forall|q: nat| cnt_tracker(m.tracker, q) >= 1 implies cnt_wait(
        m.waiting,
        q,
        Tag::W,
    ) == 0 by {
        assert(live_cnt(m, q) <= 1);
    }
    assert forall|q: nat| #[trigger] live_cnt(spec_tick(m), q) == live_cnt(m, q) by {
        lemma_tick3_counts(m.ready, m.waiting, m.tracker, q);
        assert(cnt_wait(m.waiting, q, Tag::S) == cnt_tracker(m.tracker, q));
    }
}

/// Admission preserves the live pid set exactly: the ready queue's head
/// merely changes container, into the running slot.
pub proof fn lemma_admit_preserves_live(m: Model)
    requires
        m.running is None,
        m.ready.len() > 0,
    ensures
        forall|q: nat| #[trigger] live_cnt(spec_admit(m), q) == live_cnt(m, q),
{
    assert forall|q: nat| #[trigger] live_cnt(spec_admit(m), q) == live_cnt(m, q) by {
        assert(cnt_ready(m.ready, q) == (if m.ready[0].pid == q {
            1nat
        } else {
            0nat
        }) + cnt_ready(m.ready.drop_first(), q));
    }
}

/// Spawning changes the live pid set by exactly the fresh child pid:
/// its count rises from zero to one, and every other pid's count is
/// untouched — the parent only moves from running to ready.
pub proof fn lemma_spawn_live(m: Model, parent: ProcessM, name: Seq<char>, body: Seq<InstrM>)
    requires
        wf(m),
        m.running == Option::Some(parent),
        m.newp is None,
    ensures
        live_cnt(m, m.last_pid + 1) == 0,
        live_cnt(spec_spawn(m, parent, name, body), m.last_pid + 1) == 1,
        forall|q: nat|
            q != m.last_pid + 1 ==> #[trigger] live_cnt(spec_spawn(m, parent, name, body), q)
                == live_cnt(m, q),
{
    let m2 = spec_spawn(m, parent, name, body);
    assert(live_cnt(m, (m.last_pid + 1) as nat) == 0);
    assert(live_cnt(m, parent.pid) >= 1);
    assert(parent.pid <= m.last_pid);
    lemma_cnt_ready_push(m.ready, parent, (m.last_pid + 1) as nat);
    assert forall|q: nat|
        q != m.last_pid + 1 implies #[trigger] live_cnt(m2, q) == live_cnt(m, q) by {
        lemma_cnt_ready_push(m.ready, parent, q);
    }
}

/// Parking a sleeper preserves the live pid set exactly: the tracker
/// entry (with its `S` bookkeeping copy, counted once) takes over the
/// one membership the running slot gives up.
pub proof fn lemma_sleep_park_preserves_live(m: Model, p0: ProcessM, n: nat)
    requires
        m.running == Option::Some(p0),
    ensures
        forall|q: nat| #[trigger] live_cnt(
            Model {
                waiting: m.waiting.push(WaitEntryM { process: p0, tag: Tag::S }),
                tracker: m.tracker.push(SleepEntryM { process: p0, cycles: n }),
                running: Option::None,
                ..m
            },
            q,
        ) == live_cnt(m, q),
{
    let m2 = Model {
        waiting: m.waiting.push(WaitEntryM { process: p0, tag: Tag::S }),
        tracker: m.tracker.push(SleepEntryM { process: p0, cycles: n }),
        running: Option::None,
        ..m
    };
    assert forall|q: nat| #[trigger] live_cnt(m2, q) == live_cnt(m, q) by {
        lemma_cnt_wait_push(m.waiting, WaitEntryM { process: p0, tag: Tag::S }, q, Tag::W);
        lemma_cnt_tracker_push(m.tracker, SleepEntryM { process: p0, cycles: n }, q);
    }
}

/// The wait decision preserves the live pid set exactly: the caller
/// moves from running into exactly one of the waiting set (tagged `W`)
/// or the back of the ready queue, never both.
pub proof fn lemma_wait_park_preserves_live(m: Model, p0: ProcessM, blocked: bool)
    requires
        m.running == Option::Some(p0),
    ensures
        blocked ==> forall|q: nat| #[trigger] live_cnt(
            Model {
                waiting: m.waiting.push(WaitEntryM { process: p0, tag: Tag::W }),
                running: Option::None,
                ..m
            },
            q,
        ) == live_cnt(m, q),
        !blocked ==> forall|q: nat| #[trigger] live_cnt(
            Model { ready: m.ready.push(p0), running: Option::None, ..m },
            q,
        ) == live_cnt(m, q),
{
    if blocked {
        let m2 = Model {
            waiting: m.waiting.push(WaitEntryM { process: p0, tag: Tag::W }),
            running: Option::None,
            ..m
        };
        assert forall|q: nat| #[trigger] live_cnt(m2, q) == live_cnt(m, q) by {
            lemma_cnt_wait_push(m.waiting, WaitEntryM { process: p0, tag: Tag::W }, q, Tag::W);
        }
    } else {
        let m2 = Model { ready: m.ready.push(p0), running: Option::None, ..m };
        assert forall|q: nat| #[trigger] live_cnt(m2, q) == live_cnt(m, q) by {
            lemma_cnt_ready_push(m.ready, p0, q);
        }
    }
}

/// Exit removes exactly the exiting pid from the live set: once the
/// terminated slot is cleared, that pid occurs in no container at all
/// (its `S` bookkeeping count included), every other pid's count is
/// exactly as before — a woken parent merely changes container — and,
/// the allocator being monotonic and untouched, the pid can never be
/// issued again.
pub proof fn lemma_exit_removes_pid(m: Model, c: ProcessM)
    requires
        wf(m),
        m.running == Option::Some(c),
        m.terminated is None,
    ensures
        ({
            let m2 = Model { terminated: Option::None, ..spec_reap(m, c) };
            &&& live_cnt(m2, c.pid) == 0
            &&& cnt_wait(m2.waiting, c.pid, Tag::S) == 0
            &&& forall|q: nat| q != c.pid ==> #[trigger] live_cnt(m2, q) == live_cnt(m, q)
            &&& m2.last_pid == m.last_pid
        }),
{
    let r = spec_wake_split(m.waiting, c.ppid);
    let m2 = Model { terminated: Option::None, ..spec_reap(m, c) };
    assert(live_cnt(m, c.pid) <= 1);
    assert(cnt_wait(m.waiting, c.pid, Tag::W) == 0);
    assert(cnt_wait(m.waiting, c.pid, Tag::S) == cnt_tracker(m.tracker, c.pid));
    lemma_wake_counts(m.waiting, c.ppid, c.pid);
    match r.1 {
        Option::Some(x) => {
            assert(cnt_wait(m.waiting, c.ppid, Tag::W) >= 1);
            assert(x.pid != c.pid);
            lemma_cnt_ready_push(m.ready, x, c.pid);
        },
        Option::None => {},
    }
    assert(live_cnt(m2, c.pid) == 0);
    assert forall|q: nat| q != c.pid implies #[trigger] live_cnt(m2, q) == live_cnt(m, q) by {
        assert(live_cnt(m, c.ppid) <= 1);
        lemma_wake_counts(m.waiting, c.ppid, q);
        match r.1 {
            Option::Some(x) => {
                lemma_cnt_ready_push(m.ready, x, q);
            },
            Option::None => {},
        }
    }
}

} // verus!
