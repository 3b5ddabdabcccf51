//! The scheduling engine: the FIFO scheduler, the five instruction
//! handlers, and the instruction interpreter, mutually recursive exactly
//! as control flows in the machine they model. Every executable function
//! is proved equal to a spec-level interpreter over the mathematical
//! state, and the whole run is bounded by a fuel budget: each advance of
//! the cycle clock spends one unit, and an exhausted budget ends the run
//! with `OutOfFuel`.

use vstd::prelude::*;
use std::collections::VecDeque;
use vstd::string::StringExecFns;
use crate::types::{
    Mode, Tag, Command, CommandM, Program, Process, ProcessM, WaitEntry, WaitEntryM, SleepEntry,
    SleepEntryM, CycleRecord, Sim, Model, SimError, ErrM, Instr, InstrM,
};
use crate::state::{
    fits, spec_spend, spec_tick, spec_mark_and_log, spec_wake_split, has_child, spec_new, tick,
};
use crate::parse::lookup_spec;
use crate::parse::lookup_program;

verus! {

/// The mathematical value of a step result.
pub open spec fn res_view(r: Result<Sim, SimError>) -> Result<Model, ErrM> {
    match r {
        Result::Ok(s) => Result::Ok(s@),
        Result::Err(e) => Result::Err(e@),
    }
}

/// The number of instructions the running process still holds.
pub open spec fn run_len(m: Model) -> int {
    match m.running {
        Option::Some(p) => p.instrs.len() as int,
        Option::None => 0,
    }
}

/// The diagnostics counter after one more skipped instruction; it
/// saturates at its word size.
pub open spec fn bump(d: nat) -> nat {
    if d >= u64::MAX {
        d
    } else {
        d + 1
    }
}

/// `n` busy cycles of the running process: each spends fuel, ticks the
/// sleep tracker and logs a snapshot; no queue changes hands.
pub open spec fn spec_run_cycles(m: Model, n: nat) -> Result<Model, ErrM>
    decreases n,
{
    if n == 0 {
        Result::Ok(m)
    } else {
        match spec_spend(m) {
            Result::Err(e) => Result::Err(e),
            Result::Ok(m1) => spec_run_cycles(spec_mark_and_log(spec_tick(m1)), (n - 1) as nat),
        }
    }
}

/// Busy cycles never gain fuel and never touch the running slot.
pub proof fn lemma_run_cycles_props(m: Model, n: nat)
    ensures
        match spec_run_cycles(m, n) {
            Result::Ok(m2) => m2.fuel <= m.fuel && m2.running == m.running,
            Result::Err(_) => true,
        },
    decreases n,
{
    if n > 0 {
        match spec_spend(m) {
            Result::Err(_) => {},
            Result::Ok(m1) => {
                lemma_run_cycles_props(spec_mark_and_log(spec_tick(m1)), (n - 1) as nat);
            },
        }
    }
}

/// Admission: the head of the ready queue becomes the running process
/// under the `schedule` label.
pub open spec fn spec_admit(m: Model) -> Model {
    Model {
        command: CommandM::Schedule,
        running: Option::Some(m.ready[0]),
        ready: m.ready.drop_first(),
        ..m
    }
}

/// The scheduler: one cycle is spent in kernel mode. With the CPU already
/// occupied nothing more happens; with an empty ready queue the cycle is
/// logged as `idle`; otherwise the head of the ready queue is installed
/// as running, the cycle is logged as `schedule`, and interpretation
/// resumes on the admitted process.
pub open spec fn spec_schedule(m: Model) -> Result<Model, ErrM>
    decreases m.fuel, 0int, 0int,
{
    let m0 = Model { mode: Mode::Kernel, ..m };
    match spec_spend(m0) {
        Result::Err(e) => Result::Err(e),
        Result::Ok(m1) => {
            if m1.running is Some {
                Result::Ok(m1)
            } else if m1.ready.len() == 0 {
                Result::Ok(spec_mark_and_log(Model { command: CommandM::Idle, ..m1 }))
            } else {
                spec_interpret(spec_mark_and_log(spec_admit(m1)))
            }
        },
    }
}

/// Spawning: the next pid is issued to a child of the running process,
/// the child takes the new slot, and the parent yields the CPU back to
/// the ready queue.
pub open spec fn spec_spawn(
    m: Model,
    parent: ProcessM,
    name: Seq<char>,
    body: Seq<InstrM>,
) -> Model {
    let child = ProcessM { name: name, pid: m.last_pid + 1, ppid: parent.pid, instrs: body };
    Model {
        last_pid: m.last_pid + 1,
        newp: Option::Some(child),
        ready: m.ready.push(parent),
        running: Option::None,
        ..m
    }
}

/// The fork handler: a first logged cycle under the `fork_and_exec`
/// label, a second under `system call` that loads the named program
/// (fatally failing if it is unknown), allocates the next pid, puts the
/// child in the new slot and the parent back on the ready queue, and a
/// continuation that admits the child to ready and reschedules.
pub open spec fn spec_fork(m: Model, name: Seq<char>) -> Result<Model, ErrM>
    decreases m.fuel, 1int, 0int,
{
    match spec_spend(m) {
        Result::Err(e) => Result::Err(e),
        Result::Ok(ma) => {
            let mb = spec_mark_and_log(Model { command: CommandM::Fork(name), ..spec_tick(ma) });
            let mc = Model { mode: Mode::Kernel, ..mb };
            match spec_spend(mc) {
                Result::Err(e) => Result::Err(e),
                Result::Ok(md) => {
                    let me = Model { command: CommandM::SystemCall, ..spec_tick(md) };
                    match me.running {
                        Option::None => Result::Ok(me),
                        Option::Some(parent) => {
                            match lookup_spec(me.programs, name) {
                                Option::None => Result::Err(ErrM::ScriptNotFound(name)),
                                Option::Some(body) => {
                                    let mf = spec_mark_and_log(spec_spawn(me, parent, name, body));
                                    let mg = spec_tick(mf);
                                    match mg.newp {
                                        Option::None => Result::Ok(mg),
                                        Option::Some(c) => spec_schedule(
                                            Model {
                                                ready: mg.ready.push(c),
                                                newp: Option::None,
                                                ..mg
                                            },
                                        ),
                                    }
                                },
                            }
                        },
                    }
                },
            }
        },
    }
}

/// The sleep handler: a first logged cycle under the `sleep n` label, a
/// second under `system call` whose tracker tick comes first — so the
/// new countdown is untouched in its own registration cycle — and then
/// parks the running process in the waiting set (tag `S`) and the
/// countdown tracker, and then ticking and scheduling — idling cycle
/// after cycle while nothing is ready.
pub open spec fn spec_sleep(m: Model, n: nat) -> Result<Model, ErrM>
    decreases m.fuel, 1int, 0int,
{
    match spec_spend(m) {
        Result::Err(e) => Result::Err(e),
        Result::Ok(ma) => {
            let mb = spec_mark_and_log(Model { command: CommandM::Sleep(n), ..spec_tick(ma) });
            let mc = Model { mode: Mode::Kernel, ..mb };
            match spec_spend(mc) {
                Result::Err(e) => Result::Err(e),
                Result::Ok(md) => {
                    let me = Model { command: CommandM::SystemCall, ..spec_tick(md) };
                    match me.running {
                        Option::None => Result::Ok(me),
                        Option::Some(p) => {
                            let mf = Model {
                                waiting: me.waiting.push(WaitEntryM { process: p, tag: Tag::S }),
                                tracker: me.tracker.push(SleepEntryM { process: p, cycles: n }),
                                running: Option::None,
                                ..me
                            };
                            let mg = spec_mark_and_log(mf);
                            let mh = spec_tick(mg);
                            if mh.ready.len() > 0 {
                                spec_schedule(mh)
                            } else {
                                let mi = Model { mode: Mode::Kernel, ..mh };
                                match spec_spend(mi) {
                                    Result::Err(e) => Result::Err(e),
                                    Result::Ok(mj) => {
                                        if mj.running is Some {
                                            spec_sleep_wait(mj)
                                        } else {
                                            spec_sleep_wait(
                                                spec_mark_and_log(
                                                    Model { command: CommandM::Idle, ..mj },
                                                ),
                                            )
                                        }
                                    },
                                }
                            }
                        },
                    }
                },
            }
        },
    }
}

/// The idle loop a sleep call leaves behind: tick; when something became
/// ready, schedule it and stop; otherwise spend one logged idle cycle
/// and keep going.
pub open spec fn spec_sleep_wait(m: Model) -> Result<Model, ErrM>
    decreases m.fuel, 1int, 0int,
{
    let m1 = spec_tick(m);
    if m1.ready.len() > 0 {
        spec_schedule(m1)
    } else {
        let m2 = Model { mode: Mode::Kernel, ..m1 };
        match spec_spend(m2) {
            Result::Err(e) => Result::Err(e),
            Result::Ok(m3) => {
                if m3.running is Some {
                    spec_sleep_wait(m3)
                } else {
                    spec_sleep_wait(spec_mark_and_log(Model { command: CommandM::Idle, ..m3 }))
                }
            },
        }
    }
}

/// The wait handler: a first logged cycle under the `wait` label, then a
/// `system call` cycle that blocks the running process (tag `W`) when
/// some ready process is its child, or re-appends it to ready when none
/// is — a one-shot check, never retried — and a final reschedule.
pub open spec fn spec_wait(m: Model) -> Result<Model, ErrM>
    decreases m.fuel, 1int, 0int,
{
    match spec_spend(m) {
        Result::Err(e) => Result::Err(e),
        Result::Ok(ma) => {
            let mb = spec_mark_and_log(Model { command: CommandM::Wait, ..spec_tick(ma) });
            let mc = Model { mode: Mode::Kernel, ..mb };
            match spec_spend(mc) {
                Result::Err(e) => Result::Err(e),
                Result::Ok(md) => {
                    let me = Model { command: CommandM::SystemCall, ..spec_tick(md) };
                    match me.running {
                        Option::None => Result::Ok(me),
                        Option::Some(p) => {
                            let mf = if has_child(me.ready, p.pid) {
                                Model {
                                    waiting: me.waiting.push(
                                        WaitEntryM { process: p, tag: Tag::W },
                                    ),
                                    running: Option::None,
                                    ..me
                                }
                            } else {
                                Model { ready: me.ready.push(p), running: Option::None, ..me }
                            };
                            let mg = spec_mark_and_log(mf);
                            spec_schedule(spec_tick(mg))
                        },
                    }
                },
            }
        },
    }
}

/// Reaping: when the exiting process's parent is blocked in wait under
/// its ppid, exactly that parent moves back to the ready queue; the
/// exiting process takes the terminated slot and frees the CPU.
pub open spec fn spec_reap(m: Model, c: ProcessM) -> Model {
    let w = spec_wake_split(m.waiting, c.ppid);
    let ready2 = match w.1 {
        Option::Some(parent) => m.ready.push(parent),
        Option::None => m.ready,
    };
    Model {
        ready: ready2,
        waiting: w.0,
        terminated: Option::Some(c),
        running: Option::None,
        ..m
    }
}

/// The exit handler: a first logged cycle under the `exit` label, a
/// `system call` cycle that wakes the parent if it is blocked in wait
/// under this process's ppid and parks the exiting process in the
/// terminated slot for exactly that snapshot, and a continuation that
/// clears the slot and either halts — nothing ready, nothing waiting —
/// or reschedules.
pub open spec fn spec_exit(m: Model) -> Result<Model, ErrM>
    decreases m.fuel, 1int, 0int,
{
    match spec_spend(m) {
        Result::Err(e) => Result::Err(e),
        Result::Ok(ma) => {
            let mb = spec_mark_and_log(Model { command: CommandM::Exit, ..spec_tick(ma) });
            let mc = Model { mode: Mode::Kernel, ..mb };
            match spec_spend(mc) {
                Result::Err(e) => Result::Err(e),
                Result::Ok(md) => {
                    let me = Model { command: CommandM::SystemCall, ..spec_tick(md) };
                    match me.running {
                        Option::None => Result::Ok(me),
                        Option::Some(c) => {
                            let mf = spec_mark_and_log(spec_reap(me, c));
                            let mg = Model { terminated: Option::None, ..mf };
                            match mg.newp {
                                Option::Some(_) => spec_schedule(spec_tick(mg)),
                                Option::None => {
                                    if mg.ready.len() == 0 && mg.waiting.len() == 0 {
                                        Result::Ok(mg)
                                    } else {
                                        spec_schedule(spec_tick(mg))
                                    }
                                },
                            }
                        },
                    }
                },
            }
        },
    }
}

/// The interpreter: pops the next instruction of the running process in
/// user mode and dispatches on it; a `Bad` instruction only counts a
/// diagnostic and moves on without advancing the clock. Each handler
/// resumes interpretation itself or returns control up the chain.
pub open spec fn spec_interpret(m: Model) -> Result<Model, ErrM>
    decreases m.fuel, 2int, run_len(m),
    via spec_interpret_dec
{
    match m.running {
        Option::None => Result::Ok(m),
        Option::Some(p) => {
            if p.instrs.len() == 0 {
                Result::Ok(m)
            } else {
                let instr = p.instrs[0];
                let p2 = ProcessM { instrs: p.instrs.drop_first(), ..p };
                let m1 = Model { mode: Mode::User, running: Option::Some(p2), ..m };
                match instr {
                    InstrM::Run(n) => {
                        let m2 = Model { command: CommandM::Run(n), ..m1 };
                        match spec_run_cycles(m2, n) {
                            Result::Err(e) => Result::Err(e),
                            Result::Ok(m3) => spec_interpret(m3),
                        }
                    },
                    InstrM::Fork(name) => spec_fork(m1, name),
                    InstrM::Sleep(n) => spec_sleep(m1, n),
                    InstrM::Wait => spec_wait(m1),
                    InstrM::Exit => spec_exit(m1),
                    InstrM::Bad => spec_interpret(
                        Model { diagnostics: bump(m1.diagnostics), ..m1 },
                    ),
                }
            }
        },
    }
}

#[via_fn]
proof fn spec_interpret_dec(m: Model) {
    match m.running {
        Option::None => {},
        Option::Some(p) => {
            if p.instrs.len() > 0 {
                let instr = p.instrs[0];
                let p2 = ProcessM { instrs: p.instrs.drop_first(), ..p };
                let m1 = Model { mode: Mode::User, running: Option::Some(p2), ..m };
                match instr {
                    InstrM::Run(n) => {
                        let m2 = Model { command: CommandM::Run(n), ..m1 };
                        lemma_run_cycles_props(m2, n);
                    },
                    _ => {},
                }
            }
        },
    }
}


/// Runs the scheduler on the machine state.
pub fn schedule(sim: Sim) -> (r: Result<Sim, SimError>)
    requires
        fits(sim@),
    ensures
        res_view(r) == spec_schedule(sim@),
        r matches Result::Ok(s2) ==> fits(s2@),
    decreases sim@.fuel, 0int, 0int,
{
    let ghost m = sim@;
    let mut s = sim;
    s.mode = Mode::Kernel;
    let ghost m0 = s@;
    proof {
        assert(m0 =~~= (Model { mode: Mode::Kernel, ..m }));
    }
    match s.spend_cycle() {
        Result::Err(e) => {
            return Result::Err(e);
        },
        Result::Ok(()) => {},
    }
    if s.running.is_some() {
        return Result::Ok(s);
    }
    let ghost m1 = s@;
    if s.ready.len() == 0 {
        proof {
            assert(m1.ready =~= Seq::<ProcessM>::empty());
        }
        s.command = Command::Idle;
        s.cycle_done = true;
        s.log_cycle_if_due();
        proof {
            assert(s@ =~~= spec_mark_and_log(Model { command: CommandM::Idle, ..m1 }));
        }
        return Result::Ok(s);
    }
    let p = s.ready.pop_front().unwrap();
    proof {
        assert(p@ == m1.ready[0]);
        assert(s.ready@.map_values(|x: Process| x@) =~= m1.ready.drop_first());
    }
    s.command = Command::Schedule;
    s.running = Option::Some(p);
    s.cycle_done = true;
    s.log_cycle_if_due();
    proof {
        assert(s@ =~~= spec_mark_and_log(
            Model {
                command: CommandM::Schedule,
                running: Option::Some(m1.ready[0]),
                ready: m1.ready.drop_first(),
                ..m1
            },
        ));
    }
    interpret(s)
}

/// Runs `n` busy cycles of the running process.
pub fn run_cycles(sim: Sim, n: u32) -> (r: Result<Sim, SimError>)
    requires
        fits(sim@),
    ensures
        res_view(r) == spec_run_cycles(sim@, n as nat),
        r matches Result::Ok(s2) ==> fits(s2@),
    decreases n,
{
    if n == 0 {
        return Result::Ok(sim);
    }
    let ghost m = sim@;
    let mut s = sim;
    match s.spend_cycle() {
        Result::Err(e) => {
            return Result::Err(e);
        },
        Result::Ok(()) => {},
    }
    s = tick(s);
    s.cycle_done = true;
    s.log_cycle_if_due();
    proof {
        assert(s@ =~~= (match spec_spend(m) {
            Result::Ok(m1) => spec_mark_and_log(spec_tick(m1)),
            Result::Err(_) => s@,
        }));
    }
    run_cycles(s, n - 1)
}

/// Runs the fork handler for the named program.
pub fn fork_and_exec(sim: Sim, name: String) -> (r: Result<Sim, SimError>)
    requires
        fits(sim@),
    ensures
        res_view(r) == spec_fork(sim@, name@),
        r matches Result::Ok(s2) ==> fits(s2@),
    decreases sim@.fuel, 1int, 0int,
{
    let ghost m = sim@;
    let mut s = sim;
    match s.spend_cycle() {
        Result::Err(e) => {
            return Result::Err(e);
        },
        Result::Ok(()) => {},
    }
    s = tick(s);
    s.command = Command::Fork(name.clone());
    s.cycle_done = true;
    s.log_cycle_if_due();
    s.mode = Mode::Kernel;
    let ghost mc = s@;
    proof {
        assert(mc =~~= (match spec_spend(m) {
            Result::Ok(ma) => Model {
                mode: Mode::Kernel,
                ..spec_mark_and_log(Model { command: CommandM::Fork(name@), ..spec_tick(ma) })
            },
            Result::Err(_) => mc,
        }));
    }
    match s.spend_cycle() {
        Result::Err(e) => {
            return Result::Err(e);
        },
        Result::Ok(()) => {},
    }
    s = tick(s);
    s.command = Command::SystemCall;
    let ghost me = s@;
    let taken = s.running;
    s.running = Option::None;
    match taken {
        Option::None => {
            proof {
                assert(s@ =~~= me);
            }
            return Result::Ok(s);
        },
        Option::Some(parent) => {
            match lookup_program(&s.programs, name.as_str()) {
                Option::None => {
                    return Result::Err(SimError::ScriptNotFound(name));
                },
                Option::Some(body) => {
                    s.last_pid = s.last_pid + 1;
                    let ghost parent_v = parent@;
                    let child = Process {
                        name,
                        pid: s.last_pid,
                        ppid: parent.pid,
                        instrs: deque_of(body),
                    };
                    s.newp = Option::Some(child);
                    let ghost rv = s.ready@.map_values(|x: Process| x@);
                    s.ready.push_back(parent);
                    s.cycle_done = true;
                    s.log_cycle_if_due();
                    proof {
                        assert(s.ready@.map_values(|x: Process| x@) =~= rv.push(parent_v));
                        assert(s@ =~~= spec_mark_and_log(
                            Model {
                                last_pid: me.last_pid + 1,
                                newp: Option::Some(
                                    ProcessM {
                                        name: name@,
                                        pid: me.last_pid + 1,
                                        ppid: parent_v.pid,
                                        instrs: lookup_spec(me.programs, name@).unwrap(),
                                    },
                                ),
                                ready: me.ready.push(parent_v),
                                running: Option::None,
                                ..me
                            },
                        ));
                    }
                    s = tick(s);
                    let ghost mg = s@;
                    let taken2 = s.newp;
                    s.newp = Option::None;
                    match taken2 {
                        Option::None => {
                            proof {
                                assert(s@ =~~= mg);
                            }
                            return Result::Ok(s);
                        },
                        Option::Some(c) => {
                            let ghost cv = c@;
                            let ghost rv2 = s.ready@.map_values(|x: Process| x@);
                            s.ready.push_back(c);
                            proof {
                                assert(s.ready@.map_values(|x: Process| x@) =~= rv2.push(cv));
                                assert(s@ =~~= (Model {
                                    ready: mg.ready.push(cv),
                                    newp: Option::None,
                                    ..mg
                                }));
                            }
                            schedule(s)
                        },
                    }
                },
            }
        },
    }
}

/// Runs the sleep handler with countdown `n`.
pub fn sleep(sim: Sim, n: u32) -> (r: Result<Sim, SimError>)
    requires
        fits(sim@),
    ensures
        res_view(r) == spec_sleep(sim@, n as nat),
        r matches Result::Ok(s2) ==> fits(s2@),
    decreases sim@.fuel, 1int, 0int,
{
    let ghost m = sim@;
    let mut s = sim;
    match s.spend_cycle() {
        Result::Err(e) => {
            return Result::Err(e);
        },
        Result::Ok(()) => {},
    }
    s = tick(s);
    s.command = Command::Sleep(n);
    s.cycle_done = true;
    s.log_cycle_if_due();
    s.mode = Mode::Kernel;
    let ghost mc = s@;
    proof {
        assert(mc =~~= (match spec_spend(m) {
            Result::Ok(ma) => Model {
                mode: Mode::Kernel,
                ..spec_mark_and_log(Model { command: CommandM::Sleep(n as nat), ..spec_tick(ma) })
            },
            Result::Err(_) => mc,
        }));
    }
    match s.spend_cycle() {
        Result::Err(e) => {
            return Result::Err(e);
        },
        Result::Ok(()) => {},
    }
    s = tick(s);
    s.command = Command::SystemCall;
    let ghost me = s@;
    let taken = s.running;
    s.running = Option::None;
    match taken {
        Option::None => {
            proof {
                assert(s@ =~~= me);
            }
            return Result::Ok(s);
        },
        Option::Some(p) => {
            let ghost pv = p@;
            let ghost wv = s.waiting@.map_values(|x: WaitEntry| x@);
            let ghost tv = s.tracker@.map_values(|x: SleepEntry| x@);
            let p2 = p.clone();
            s.waiting.push_back(WaitEntry { process: p2, tag: Tag::S });
            s.tracker.push_back(SleepEntry { process: p, cycles: n });
            proof {
                assert(s.waiting@.map_values(|x: WaitEntry| x@) =~= wv.push(
                    WaitEntryM { process: pv, tag: Tag::S },
                ));
                assert(s.tracker@.map_values(|x: SleepEntry| x@) =~= tv.push(
                    SleepEntryM { process: pv, cycles: n as nat },
                ));
            }
            s.cycle_done = true;
            s.log_cycle_if_due();
            proof {
                assert(s@ =~~= spec_mark_and_log(
                    Model {
                        waiting: me.waiting.push(WaitEntryM { process: pv, tag: Tag::S }),
                        tracker: me.tracker.push(SleepEntryM { process: pv, cycles: n as nat }),
                        running: Option::None,
                        ..me
                    },
                ));
            }
            s = tick(s);
            if s.ready.len() > 0 {
                return schedule(s);
            }
            s.mode = Mode::Kernel;
            let ghost mi = s@;
            match s.spend_cycle() {
                Result::Err(e) => {
                    return Result::Err(e);
                },
                Result::Ok(()) => {},
            }
            if s.running.is_some() {
                return sleep_wait(s);
            }
            s.command = Command::Idle;
            s.cycle_done = true;
            s.log_cycle_if_due();
            proof {
                assert(s@ =~~= spec_mark_and_log(Model { command: CommandM::Idle, ..(match spec_spend(mi) {
                    Result::Ok(mj) => mj,
                    Result::Err(_) => mi,
                }) }));
            }
            sleep_wait(s)
        },
    }
}

/// Runs the idle loop a sleep call leaves behind.
pub fn sleep_wait(sim: Sim) -> (r: Result<Sim, SimError>)
    requires
        fits(sim@),
    ensures
        res_view(r) == spec_sleep_wait(sim@),
        r matches Result::Ok(s2) ==> fits(s2@),
    decreases sim@.fuel, 1int, 0int,
{
    let ghost m = sim@;
    let mut s = tick(sim);
    if s.ready.len() > 0 {
        return schedule(s);
    }
    s.mode = Mode::Kernel;
    let ghost m2 = s@;
    match s.spend_cycle() {
        Result::Err(e) => {
            return Result::Err(e);
        },
        Result::Ok(()) => {},
    }
    if s.running.is_some() {
        return sleep_wait(s);
    }
    s.command = Command::Idle;
    s.cycle_done = true;
    s.log_cycle_if_due();
    proof {
        assert(s@ =~~= spec_mark_and_log(Model { command: CommandM::Idle, ..(match spec_spend(m2) {
            Result::Ok(m3) => m3,
            Result::Err(_) => m2,
        }) }));
    }
    sleep_wait(s)
}

/// Runs the wait handler.
pub fn wait(sim: Sim) -> (r: Result<Sim, SimError>)
    requires
        fits(sim@),
    ensures
        res_view(r) == spec_wait(sim@),
        r matches Result::Ok(s2) ==> fits(s2@),
    decreases sim@.fuel, 1int, 0int,
{
    let ghost m = sim@;
    let mut s = sim;
    match s.spend_cycle() {
        Result::Err(e) => {
            return Result::Err(e);
        },
        Result::Ok(()) => {},
    }
    s = tick(s);
    s.command = Command::Wait;
    s.cycle_done = true;
    s.log_cycle_if_due();
    s.mode = Mode::Kernel;
    let ghost mc = s@;
    proof {
        assert(mc =~~= (match spec_spend(m) {
            Result::Ok(ma) => Model {
                mode: Mode::Kernel,
                ..spec_mark_and_log(Model { command: CommandM::Wait, ..spec_tick(ma) })
            },
            Result::Err(_) => mc,
        }));
    }
    match s.spend_cycle() {
        Result::Err(e) => {
            return Result::Err(e);
        },
        Result::Ok(()) => {},
    }
    s = tick(s);
    s.command = Command::SystemCall;
    let ghost me = s@;
    let taken = s.running;
    s.running = Option::None;
    match taken {
        Option::None => {
            proof {
                assert(s@ =~~= me);
            }
            return Result::Ok(s);
        },
        Option::Some(p) => {
            let ghost pv = p@;
            if crate::state::ready_has_child(&s.ready, p.pid) {
                let ghost wv = s.waiting@.map_values(|x: WaitEntry| x@);
                s.waiting.push_back(WaitEntry { process: p, tag: Tag::W });
                proof {
                    assert(s.waiting@.map_values(|x: WaitEntry| x@) =~= wv.push(
                        WaitEntryM { process: pv, tag: Tag::W },
                    ));
                }
            } else {
                let ghost rv = s.ready@.map_values(|x: Process| x@);
                s.ready.push_back(p);
                proof {
                    assert(s.ready@.map_values(|x: Process| x@) =~= rv.push(pv));
                }
            }
            s.cycle_done = true;
            s.log_cycle_if_due();
            proof {
                assert(s@ =~~= spec_mark_and_log(
                    if has_child(me.ready, pv.pid) {
                        Model {
                            waiting: me.waiting.push(WaitEntryM { process: pv, tag: Tag::W }),
                            running: Option::None,
                            ..me
                        }
                    } else {
                        Model { ready: me.ready.push(pv), running: Option::None, ..me }
                    },
                ));
            }
            s = tick(s);
            schedule(s)
        },
    }
}

/// Runs the exit handler.
pub fn exit(sim: Sim) -> (r: Result<Sim, SimError>)
    requires
        fits(sim@),
    ensures
        res_view(r) == spec_exit(sim@),
        r matches Result::Ok(s2) ==> fits(s2@),
    decreases sim@.fuel, 1int, 0int,
{
    let ghost m = sim@;
    let mut s = sim;
    match s.spend_cycle() {
        Result::Err(e) => {
            return Result::Err(e);
        },
        Result::Ok(()) => {},
    }
    s = tick(s);
    s.command = Command::Exit;
    s.cycle_done = true;
    s.log_cycle_if_due();
    s.mode = Mode::Kernel;
    let ghost mc = s@;
    proof {
        assert(mc =~~= (match spec_spend(m) {
            Result::Ok(ma) => Model {
                mode: Mode::Kernel,
                ..spec_mark_and_log(Model { command: CommandM::Exit, ..spec_tick(ma) })
            },
            Result::Err(_) => mc,
        }));
    }
    match s.spend_cycle() {
        Result::Err(e) => {
            return Result::Err(e);
        },
        Result::Ok(()) => {},
    }
    s = tick(s);
    s.command = Command::SystemCall;
    let ghost me = s@;
    let taken = s.running;
    s.running = Option::None;
    match taken {
        Option::None => {
            proof {
                assert(s@ =~~= me);
            }
            return Result::Ok(s);
        },
        Option::Some(c) => {
            let ghost cv = c@;
            let mut waiting: VecDeque<WaitEntry> = VecDeque::new();
            core::mem::swap(&mut waiting, &mut s.waiting);
            let (w2, woken) = crate::state::wake_split(waiting, c.ppid);
            s.waiting = w2;
            match woken {
                Option::Some(parent) => {
                    let ghost parent_v = parent@;
                    let ghost rv = s.ready@.map_values(|x: Process| x@);
                    s.ready.push_back(parent);
                    proof {
                        assert(s.ready@.map_values(|x: Process| x@) =~= rv.push(parent_v));
                    }
                },
                Option::None => {},
            }
            s.terminated = Option::Some(c);
            s.cycle_done = true;
            s.log_cycle_if_due();
            proof {
                let w = spec_wake_split(me.waiting, cv.ppid);
                assert(s@ =~~= spec_mark_and_log(
                    Model {
                        ready: (match w.1 {
                            Option::Some(parent) => me.ready.push(parent),
                            Option::None => me.ready,
                        }),
                        waiting: w.0,
                        terminated: Option::Some(cv),
                        running: Option::None,
                        ..me
                    },
                ));
            }
            s.terminated = Option::None;
            if s.newp.is_some() {
                s = tick(s);
                return schedule(s);
            }
            if s.ready.len() == 0 && s.waiting.len() == 0 {
                return Result::Ok(s);
            }
            s = tick(s);
            schedule(s)
        },
    }
}

/// Runs the interpreter on the running process.
pub fn interpret(sim: Sim) -> (r: Result<Sim, SimError>)
    requires
        fits(sim@),
    ensures
        res_view(r) == spec_interpret(sim@),
        r matches Result::Ok(s2) ==> fits(s2@),
    decreases sim@.fuel, 2int, run_len(sim@),
{
    let ghost m = sim@;
    let mut s = sim;
    let taken = s.running;
    s.running = Option::None;
    match taken {
        Option::None => {
            proof {
                assert(s@ =~~= m);
            }
            Result::Ok(s)
        },
        Option::Some(p) => {
            let mut p = p;
            if p.instrs.len() == 0 {
                s.running = Option::Some(p);
                proof {
                    assert(s@ =~~= m);
                }
                return Result::Ok(s);
            }
            let ghost pv = p@;
            let instr = p.instrs.pop_front().unwrap();
            proof {
                assert(instr@ == pv.instrs[0]);
                assert(p.instrs@.map_values(|x: Instr| x@) =~= pv.instrs.drop_first());
            }
            s.mode = Mode::User;
            s.running = Option::Some(p);
            let ghost m1 = s@;
            proof {
                assert(m1 =~~= (Model {
                    mode: Mode::User,
                    running: Option::Some(
                        ProcessM { instrs: pv.instrs.drop_first(), ..pv },
                    ),
                    ..m
                }));
            }
            match instr {
                Instr::Run(n) => {
                    s.command = Command::Run(n);
                    let ghost m2 = s@;
                    proof {
                        assert(m2 =~~= (Model { command: CommandM::Run(n as nat), ..m1 }));
                    }
                    match run_cycles(s, n) {
                        Result::Err(e) => Result::Err(e),
                        Result::Ok(s3) => {
                            proof {
                                lemma_run_cycles_props(m2, n as nat);
                            }
                            interpret(s3)
                        },
                    }
                },
                Instr::Fork(name) => fork_and_exec(s, name),
                Instr::Sleep(n) => sleep(s, n),
                Instr::Wait => wait(s),
                Instr::Exit => exit(s),
                Instr::Bad => {
                    if s.diagnostics < u64::MAX {
                        s.diagnostics = s.diagnostics + 1;
                    }
                    proof {
                        assert(s@ =~~= (Model { diagnostics: bump(m1.diagnostics), ..m1 }));
                    }
                    interpret(s)
                },
            }
        },
    }
}

/// Moves a decoded body into the instruction queue of a fresh process.
fn deque_of(body: Vec<Instr>) -> (d: VecDeque<Instr>)
    ensures
        d@.map_values(|i: Instr| i@) == body@.map_values(|i: Instr| i@),
{
    let ghost bv = body@.map_values(|i: Instr| i@);
    let mut v = body;
    let mut d: VecDeque<Instr> = VecDeque::new();
    proof {
        assert(bv =~= v@.map_values(|i: Instr| i@) + d@.map_values(|i: Instr| i@));
    }
    while v.len() > 0
        invariant
            bv == v@.map_values(|i: Instr| i@) + d@.map_values(|i: Instr| i@),
        decreases v@.len(),
    {
        let ghost vv = v@.map_values(|i: Instr| i@);
        let ghost dv = d@.map_values(|i: Instr| i@);
        let x = v.pop().unwrap();
        d.push_front(x);
        proof {
            assert(v@.map_values(|i: Instr| i@) =~= vv.drop_last());
            assert(d@.map_values(|i: Instr| i@) =~= seq![vv.last()] + dv);
            assert(vv.drop_last() + (seq![vv.last()] + dv) =~= vv + dv);
        }
    }
    proof {
        assert(v@.map_values(|i: Instr| i@) =~= Seq::<InstrM>::empty());
        assert(Seq::<InstrM>::empty() + d@.map_values(|i: Instr| i@) =~= d@.map_values(
            |i: Instr| i@,
        ));
    }
    d
}


/// What booting and running the whole simulation yields: the boot
/// process `init` (pid 1, ppid 0) is created from the program table,
/// logged as cycle 0, admitted to ready, and the scheduler takes over
/// until the machine halts, the table misses a program, or the fuel
/// budget runs out.
pub open spec fn spec_boot(programs: Seq<crate::types::ProgramM>, fuel: nat) -> Result<
    Model,
    ErrM,
> {
    match lookup_spec(programs, "init"@) {
        Option::None => Result::Err(ErrM::ScriptNotFound("init"@)),
        Option::Some(body) => {
            let init = ProcessM { name: "init"@, pid: 1, ppid: 0, instrs: body };
            let m0 = spec_new(programs, fuel);
            let m1 = spec_mark_and_log(Model { newp: Option::Some(init), ..m0 });
            let m2 = Model { ready: m1.ready.push(init), newp: Option::None, ..m1 };
            spec_schedule(m2)
        },
    }
}

/// Boots the machine over the given program table and runs it to its
/// end, handing back the final state.
pub fn boot(programs: Vec<Program>, fuel: u32) -> (r: Result<Sim, SimError>)
    ensures
        res_view(r) == spec_boot(programs@.map_values(|p: Program| p@), fuel as nat),
        r matches Result::Ok(s2) ==> fits(s2@),
{
    let ghost pv = programs@.map_values(|p: Program| p@);
    match lookup_program(&programs, "init") {
        Option::None => Result::Err(SimError::ScriptNotFound(String::from_str("init"))),
        Option::Some(body) => {
            let mut s = Sim::new(programs, fuel);
            let ghost m0 = s@;
            let init = Process {
                name: String::from_str("init"),
                pid: 1,
                ppid: 0,
                instrs: deque_of(body),
            };
            let ghost init_v = init@;
            s.newp = Option::Some(init);
            s.cycle_done = true;
            s.log_cycle_if_due();
            let ghost m1 = s@;
            proof {
                assert(init_v =~~= (ProcessM {
                    name: "init"@,
                    pid: 1,
                    ppid: 0,
                    instrs: lookup_spec(pv, "init"@).unwrap(),
                }));
                assert(m1 =~~= spec_mark_and_log(Model { newp: Option::Some(init_v), ..m0 }));
            }
            let taken = s.newp;
            s.newp = Option::None;
            match taken {
                Option::None => {
                    proof {
                        assert(false);
                    }
                    Result::Err(SimError::OutOfFuel)
                },
                Option::Some(p) => {
                    let ghost rv = s.ready@.map_values(|x: Process| x@);
                    s.ready.push_back(p);
                    proof {
                        assert(s.ready@.map_values(|x: Process| x@) =~= rv.push(init_v));
                        assert(s@ =~~= (Model {
                            ready: m1.ready.push(init_v),
                            newp: Option::None,
                            ..m1
                        }));
                    }
                    schedule(s)
                },
            }
        },
    }
}

/// Runs the whole simulation and hands back its cycle-by-cycle trace.
pub fn run_simulation(programs: Vec<Program>, fuel: u32) -> (r: Result<Vec<CycleRecord>, SimError>)
    ensures
        ({
            let b = spec_boot(programs@.map_values(|p: Program| p@), fuel as nat);
            match r {
                Result::Ok(t) => b matches Result::Ok(m) && t@.map_values(|c: CycleRecord| c@)
                    == m.trace,
                Result::Err(e) => b == Result::Err::<Model, ErrM>(e@),
            }
        }),
{
    match boot(programs, fuel) {
        Result::Ok(s) => Result::Ok(s.trace),
        Result::Err(e) => Result::Err(e),
    }
}

} // verus!
