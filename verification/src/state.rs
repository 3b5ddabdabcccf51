//! The per-cycle state transitions: the fuel-bounded cycle clock, the
//! sleep countdown tracker, the waiting-set scans, and the cycle logger.

use vstd::prelude::*;
use std::collections::VecDeque;
use crate::types::{
    Mode, Tag, Command, CommandM, Program, ProgramM, Process, ProcessM, WaitEntry, WaitEntryM,
    SleepEntry, SleepEntryM, ProcSummary, ProcSummaryM, WaitSummary, WaitSummaryM, CycleRecord,
    RecordM, Sim, Model, ErrM,
};

verus! {

/// Machine bounds every reachable state obeys: the cycle counter can rise
/// at most once per fuel unit, and a pid is issued at most every other
/// cycle, so neither counter can overflow its word.
pub open spec fn fits(m: Model) -> bool {
    &&& m.cycle + m.fuel <= u32::MAX
    &&& m.last_pid <= m.cycle + 1
}

/// Advancing the clock by one cycle costs one unit of fuel; with no fuel
/// left the run stops with `OutOfFuel`.
pub open spec fn spec_spend(m: Model) -> Result<Model, ErrM> {
    if m.fuel == 0 {
        Result::Err(ErrM::OutOfFuel)
    } else {
        Result::Ok(Model { cycle: m.cycle + 1, fuel: (m.fuel - 1) as nat, ..m })
    }
}

/// The identity of a process as the trace reports it.
pub open spec fn summary_of(p: ProcessM) -> ProcSummaryM {
    ProcSummaryM { pid: p.pid, name: p.name, ppid: p.ppid }
}

/// The reported identity of an optional slot.
pub open spec fn opt_summary(p: Option<ProcessM>) -> Option<ProcSummaryM> {
    match p {
        Option::None => Option::None,
        Option::Some(p) => Option::Some(summary_of(p)),
    }
}

/// The snapshot of the current state that one trace block reports.
pub open spec fn record_of(m: Model) -> RecordM {
    RecordM {
        cycle: m.cycle,
        mode: m.mode,
        command: m.command,
        running: opt_summary(m.running),
        ready: m.ready.map_values(|p: ProcessM| p.pid),
        waiting: m.waiting.map_values(
            |w: WaitEntryM| WaitSummaryM { pid: w.process.pid, tag: w.tag },
        ),
        newp: opt_summary(m.newp),
        terminated: opt_summary(m.terminated),
    }
}

/// The logger: when the cycle-ready flag is unset it changes nothing at
/// all; otherwise it appends exactly one snapshot of the current state.
pub open spec fn spec_log_if_due(m: Model) -> Model {
    if m.cycle_done {
        Model { trace: m.trace.push(record_of(m)), ..m }
    } else {
        m
    }
}

/// Marks the cycle ready and logs it.
pub open spec fn spec_mark_and_log(m: Model) -> Model {
    spec_log_if_due(Model { cycle_done: true, ..m })
}

/// The waiting set with its first entry of the given pid removed.
pub open spec fn remove_first_pid(w: Seq<WaitEntryM>, pid: nat) -> Seq<WaitEntryM>
    decreases w.len(),
{
    if w.len() == 0 {
        w
    } else if w[0].process.pid == pid {
        w.drop_first()
    } else {
        seq![w[0]] + remove_first_pid(w.drop_first(), pid)
    }
}

/// One pass of the sleep tracker over `entries`, front to back: an entry
/// with one cycle (or, clamped, zero cycles) left is promoted — appended
/// to ready and removed from both the waiting set and the tracker — and
/// any other entry stays with one cycle fewer.
pub open spec fn spec_tick3(
    ready: Seq<ProcessM>,
    waiting: Seq<WaitEntryM>,
    entries: Seq<SleepEntryM>,
) -> (Seq<ProcessM>, Seq<WaitEntryM>, Seq<SleepEntryM>)
    decreases entries.len(),
{
    if entries.len() == 0 {
        (ready, waiting, Seq::empty())
    } else {
        let e = entries[0];
        if e.cycles <= 1 {
            spec_tick3(
                ready.push(e.process),
                remove_first_pid(waiting, e.process.pid),
                entries.drop_first(),
            )
        } else {
            let r = spec_tick3(ready, waiting, entries.drop_first());
            (r.0, r.1, seq![SleepEntryM { process: e.process, cycles: (e.cycles - 1) as nat }]
                + r.2)
        }
    }
}

/// One tick of the sleep countdown tracker over the whole state.
pub open spec fn spec_tick(m: Model) -> Model {
    let r = spec_tick3(m.ready, m.waiting, m.tracker);
    Model { ready: r.0, waiting: r.1, tracker: r.2, ..m }
}

/// The waiting set without its first entry blocked in wait (tag `W`)
/// under the given pid, paired with that entry's process, if any.
pub open spec fn spec_wake_split(w: Seq<WaitEntryM>, pid: nat) -> (Seq<WaitEntryM>, Option<
    ProcessM,
>)
    decreases w.len(),
{
    if w.len() == 0 {
        (w, Option::None)
    } else if w[0].process.pid == pid && w[0].tag is W {
        (w.drop_first(), Option::Some(w[0].process))
    } else {
        let r = spec_wake_split(w.drop_first(), pid);
        (seq![w[0]] + r.0, r.1)
    }
}

/// Whether some ready process has the given pid as its parent.
pub open spec fn has_child(ready: Seq<ProcessM>, pid: nat) -> bool {
    exists|i: int| 0 <= i < ready.len() && ready[i].ppid == pid
}

/// The state a simulation starts from: cycle 0, the clock in kernel mode
/// labelled `boot`, every container empty, nothing logged yet.
pub open spec fn spec_new(programs: Seq<ProgramM>, fuel: nat) -> Model {
    Model {
        cycle: 0,
        fuel: fuel,
        last_pid: 1,
        mode: Mode::Kernel,
        command: CommandM::Boot,
        running: Option::None,
        ready: Seq::empty(),
        waiting: Seq::empty(),
        tracker: Seq::empty(),
        newp: Option::None,
        terminated: Option::None,
        trace: Seq::empty(),
        cycle_done: false,
        programs: programs,
        diagnostics: 0,
    }
}

impl Sim {
    /// A fresh simulation state over the given program table, bounded by
    /// `fuel` cycles.
    pub fn new(programs: Vec<Program>, fuel: u32) -> (s: Sim)
        ensures
            s@ == spec_new(programs@.map_values(|p: Program| p@), fuel as nat),
            fits(s@),
    {
        let s = Sim {
            cycle: 0,
            fuel,
            last_pid: 1,
            mode: Mode::Kernel,
            command: Command::Boot,
            running: Option::None,
            ready: VecDeque::new(),
            waiting: VecDeque::new(),
            tracker: VecDeque::new(),
            newp: Option::None,
            terminated: Option::None,
            trace: Vec::new(),
            cycle_done: false,
            programs,
            diagnostics: 0,
        };
        proof {
            assert(s@ =~~= spec_new(s.programs@.map_values(|p: Program| p@), fuel as nat));
        }
        s
    }

    /// Advances the cycle clock, spending one unit of fuel.
    pub fn spend_cycle(&mut self) -> (r: Result<(), crate::types::SimError>)
        requires
            fits(old(self)@),
        ensures
            match r {
                Result::Ok(()) => spec_spend(old(self)@) == Result::Ok::<Model, ErrM>(final(self)@)
                    && fits(final(self)@),
                Result::Err(e) => spec_spend(old(self)@) == Result::Err::<Model, ErrM>(e@)
                    && *final(self) == *old(self),
            },
    {
        if self.fuel == 0 {
            Result::Err(crate::types::SimError::OutOfFuel)
        } else {
            self.fuel = self.fuel - 1;
            self.cycle = self.cycle + 1;
            proof {
                assert(self@ =~~= (match spec_spend(old(self)@) {
                    Result::Ok(m) => m,
                    Result::Err(_) => self@,
                }));
            }
            Result::Ok(())
        }
    }

    /// Appends one snapshot of the current state to the trace — unless the
    /// cycle-ready flag is unset, in which case nothing changes at all.
    pub fn log_cycle_if_due(&mut self)
        ensures
            final(self)@ == spec_log_if_due(old(self)@),
    {
        if !self.cycle_done {
            return;
        }
        let running = summarize_opt(&self.running);
        let newp = summarize_opt(&self.newp);
        let terminated = summarize_opt(&self.terminated);
        let mut ready: Vec<u64> = Vec::new();
        let mut i: usize = 0;
        while i < self.ready.len()
            invariant
                i <= self.ready@.len(),
                ready@.len() == i as nat,
                forall|j: int| 0 <= j < i ==> #[trigger] ready@[j] == self.ready@[j].pid,
            decreases self.ready@.len() - i,
        {
            ready.push(self.ready[i].pid);
            i += 1;
        }
        let mut waiting: Vec<WaitSummary> = Vec::new();
        let mut k: usize = 0;
        while k < self.waiting.len()
            invariant
                k <= self.waiting@.len(),
                waiting@.len() == k as nat,
                forall|j: int| 0 <= j < k ==> #[trigger] waiting@[j] == (WaitSummary {
                    pid: self.waiting@[j].process.pid,
                    tag: self.waiting@[j].tag,
                }),
            decreases self.waiting@.len() - k,
        {
            waiting.push(
                WaitSummary { pid: self.waiting[k].process.pid, tag: self.waiting[k].tag },
            );
            k += 1;
        }
        let record = CycleRecord {
            cycle: self.cycle,
            mode: self.mode,
            command: self.command.clone(),
            running,
            ready,
            waiting,
            newp,
            terminated,
        };
        proof {
            let m = old(self)@;
            assert(record@.ready =~= m.ready.map_values(|p: ProcessM| p.pid)) by {
                assert(forall|j: int| 0 <= j < record@.ready.len() ==> #[trigger] record@.ready[j]
                    == m.ready.map_values(|p: ProcessM| p.pid)[j]);
            }
            assert(record@.waiting =~= m.waiting.map_values(
                |w: WaitEntryM| WaitSummaryM { pid: w.process.pid, tag: w.tag },
            )) by {
                assert(forall|j: int| 0 <= j < record@.waiting.len() ==> #[trigger] record@.waiting[j]
                    == m.waiting.map_values(
                    |w: WaitEntryM| WaitSummaryM { pid: w.process.pid, tag: w.tag },
                )[j]);
            }
            assert(record@ =~~= record_of(m));
        }
        self.trace.push(record);
        proof {
            assert(self@ =~~= spec_log_if_due(old(self)@));
        }
    }
}

/// The reported identity of the process of an optional slot.
fn summarize_opt(p: &Option<Process>) -> (r: Option<ProcSummary>)
    ensures
        (match r {
            Option::None => Option::None,
            Option::Some(s) => Option::Some(s@),
        }) == opt_summary(
            match p {
                Option::None => Option::None,
                Option::Some(q) => Option::Some(q@),
            },
        ),
{
    match p {
        Option::None => Option::None,
        Option::Some(q) => Option::Some(
            ProcSummary { pid: q.pid, name: q.name.clone(), ppid: q.ppid },
        ),
    }
}

/// Runs one tracker pass over the three containers.
fn tick_entries(
    ready: VecDeque<Process>,
    waiting: VecDeque<WaitEntry>,
    mut entries: VecDeque<SleepEntry>,
) -> (r: (VecDeque<Process>, VecDeque<WaitEntry>, VecDeque<SleepEntry>))
    ensures
        ({
            let s = spec_tick3(
                ready@.map_values(|p: Process| p@),
                waiting@.map_values(|w: WaitEntry| w@),
                entries@.map_values(|e: SleepEntry| e@),
            );
            r.0@.map_values(|p: Process| p@) == s.0 && r.1@.map_values(|w: WaitEntry| w@) == s.1
                && r.2@.map_values(|e: SleepEntry| e@) == s.2
        }),
    decreases entries@.len(),
{
    let ghost ev = entries@.map_values(|e: SleepEntry| e@);
    if entries.len() == 0 {
        proof {
            assert(ev =~= Seq::<SleepEntryM>::empty());
            assert(entries@.map_values(|e: SleepEntry| e@) =~= Seq::<SleepEntryM>::empty());
        }
        (ready, waiting, entries)
    } else {
        let e = entries.pop_front().unwrap();
        proof {
            assert(ev[0] == e@);
            assert(entries@.map_values(|x: SleepEntry| x@) =~= ev.drop_first());
        }
        if e.cycles <= 1 {
            let pid = e.process.pid;
            let waiting2 = remove_first_entry(waiting, pid);
            let mut ready2 = ready;
            let ghost rv = ready2@.map_values(|p: Process| p@);
            ready2.push_back(e.process);
            proof {
                assert(ready2@.map_values(|p: Process| p@) =~= rv.push(ev[0].process));
            }
            tick_entries(ready2, waiting2, entries)
        } else {
            let mut e2 = e;
            e2.cycles = e2.cycles - 1;
            let (r0, r1, mut r2) = tick_entries(ready, waiting, entries);
            let ghost tv = r2@.map_values(|x: SleepEntry| x@);
            r2.push_front(e2);
            proof {
                assert(r2@.map_values(|x: SleepEntry| x@) =~= seq![
                    SleepEntryM { process: ev[0].process, cycles: (ev[0].cycles - 1) as nat },
                ] + tv);
            }
            (r0, r1, r2)
        }
    }
}

/// Removes the first waiting-set entry with the given pid, if any.
fn remove_first_entry(mut w: VecDeque<WaitEntry>, pid: u64) -> (r: VecDeque<WaitEntry>)
    ensures
        r@.map_values(|x: WaitEntry| x@) == remove_first_pid(
            w@.map_values(|x: WaitEntry| x@),
            pid as nat,
        ),
    decreases w@.len(),
{
    let ghost wv = w@.map_values(|x: WaitEntry| x@);
    if w.len() == 0 {
        proof {
            assert(wv =~= Seq::<WaitEntryM>::empty());
        }
        w
    } else {
        let e = w.pop_front().unwrap();
        proof {
            assert(wv[0] == e@);
            assert(w@.map_values(|x: WaitEntry| x@) =~= wv.drop_first());
        }
        if e.process.pid == pid {
            w
        } else {
            let mut r = remove_first_entry(w, pid);
            let ghost rv = r@.map_values(|x: WaitEntry| x@);
            r.push_front(e);
            proof {
                assert(r@.map_values(|x: WaitEntry| x@) =~= seq![wv[0]] + rv);
            }
            r
        }
    }
}

/// Removes the first entry blocked in wait under `pid` and hands its
/// process back beside the shrunk waiting set.
pub(crate) fn wake_split(mut w: VecDeque<WaitEntry>, pid: u64) -> (r: (VecDeque<WaitEntry>, Option<Process>))
    ensures
        ({
            let s = spec_wake_split(w@.map_values(|x: WaitEntry| x@), pid as nat);
            r.0@.map_values(|x: WaitEntry| x@) == s.0 && (match r.1 {
                Option::None => Option::None,
                Option::Some(p) => Option::Some(p@),
            }) == s.1
        }),
    decreases w@.len(),
{
    let ghost wv = w@.map_values(|x: WaitEntry| x@);
    if w.len() == 0 {
        proof {
            assert(wv =~= Seq::<WaitEntryM>::empty());
        }
        (w, Option::None)
    } else {
        let e = w.pop_front().unwrap();
        proof {
            assert(wv[0] == e@);
            assert(w@.map_values(|x: WaitEntry| x@) =~= wv.drop_first());
        }
        if e.process.pid == pid && matches!(e.tag, Tag::W) {
            (w, Option::Some(e.process))
        } else {
            let (mut r0, r1) = wake_split(w, pid);
            let ghost rv = r0@.map_values(|x: WaitEntry| x@);
            r0.push_front(e);
            proof {
                assert(r0@.map_values(|x: WaitEntry| x@) =~= seq![wv[0]] + rv);
            }
            (r0, r1)
        }
    }
}

/// Whether the ready queue holds a child of the process with pid `pid`.
pub(crate) fn ready_has_child(ready: &VecDeque<Process>, pid: u64) -> (r: bool)
    ensures
        r == has_child(ready@.map_values(|p: Process| p@), pid as nat),
{
    let ghost rv = ready@.map_values(|p: Process| p@);
    let mut i: usize = 0;
    while i < ready.len()
        invariant
            i <= ready@.len(),
            rv == ready@.map_values(|p: Process| p@),
            forall|j: int| 0 <= j < i ==> rv[j].ppid != pid as nat,
        decreases ready@.len() - i,
    {
        if ready[i].ppid == pid {
            proof {
                assert(has_child(rv, pid as nat)) by {
                    assert(rv[i as int].ppid == pid as nat);
                }
            }
            return true;
        }
        i += 1;
    }
    false
}

/// One tick of the sleep countdown tracker: every countdown falls by one,
/// and a process whose countdown runs out is promoted to ready and leaves
/// both the tracker and the waiting set in the same step.
pub fn tick(sim: Sim) -> (r: Sim)
    ensures
        r@ == spec_tick(sim@),
{
    let ghost m0 = sim@;
    let mut s = sim;
    let mut ready: VecDeque<Process> = VecDeque::new();
    let mut waiting: VecDeque<WaitEntry> = VecDeque::new();
    let mut entries: VecDeque<SleepEntry> = VecDeque::new();
    core::mem::swap(&mut ready, &mut s.ready);
    core::mem::swap(&mut waiting, &mut s.waiting);
    core::mem::swap(&mut entries, &mut s.tracker);
    let (r0, r1, r2) = tick_entries(ready, waiting, entries);
    s.ready = r0;
    s.waiting = r1;
    s.tracker = r2;
    proof {
        assert(s@ =~~= spec_tick(m0));
    }
    s
}

} // verus!
