//! Formatting of the accumulated trace: one text block per logged cycle,
//! in the fixed order cycle number, mode, command, running, ready,
//! waiting, new, terminated, closed by a blank line.

use vstd::prelude::*;
use vstd::string::StringExecFns;
use crate::types::{
    Mode, Tag, Command, CommandM, Program, ProcSummary, ProcSummaryM, WaitSummary, WaitSummaryM,
    CycleRecord, RecordM, SimError, ErrM, Model,
};
use crate::text::{dec_digits, append_u64};
use crate::engine::{spec_boot, run_simulation};

verus! {

/// The text of a mode.
pub open spec fn mode_text(m: Mode) -> Seq<char> {
    match m {
        Mode::Kernel => "kernel"@,
        Mode::User => "user"@,
    }
}

/// The text of a waiting-status tag.
pub open spec fn tag_text(t: Tag) -> Seq<char> {
    match t {
        Tag::S => "S"@,
        Tag::W => "W"@,
    }
}

/// The text of a command label.
pub open spec fn command_text(c: CommandM) -> Seq<char> {
    match c {
        CommandM::Boot => "boot"@,
        CommandM::Idle => "idle"@,
        CommandM::Schedule => "schedule"@,
        CommandM::SystemCall => "system call"@,
        CommandM::Run(n) => "run "@ + dec_digits(n),
        CommandM::Sleep(n) => "sleep "@ + dec_digits(n),
        CommandM::Fork(name) => "fork_and_exec "@ + name,
        CommandM::Wait => "wait"@,
        CommandM::Exit => "exit"@,
    }
}

/// The text of a single-process slot: `pid(name, ppid)`, or `none`.
pub open spec fn proc_text(p: Option<ProcSummaryM>) -> Seq<char> {
    match p {
        Option::None => "none"@,
        Option::Some(p) => dec_digits(p.pid) + "("@ + p.name + ", "@ + dec_digits(p.ppid) + ")"@,
    }
}

/// The text of the ready queue: each pid followed by a space.
pub open spec fn pids_text(s: Seq<nat>) -> Seq<char>
    decreases s.len(),
{
    if s.len() == 0 {
        Seq::empty()
    } else {
        dec_digits(s[0]) + " "@ + pids_text(s.drop_first())
    }
}

/// The text of the waiting set: each `pid(tag)` followed by a space.
pub open spec fn waits_text(s: Seq<WaitSummaryM>) -> Seq<char>
    decreases s.len(),
{
    if s.len() == 0 {
        Seq::empty()
    } else {
        dec_digits(s[0].pid) + "("@ + tag_text(s[0].tag) + ") "@ + waits_text(s.drop_first())
    }
}

/// The text block of one logged cycle.
pub open spec fn record_text(r: RecordM) -> Seq<char> {
    "[cycle #"@ + dec_digits(r.cycle) + "]\n1. mode: "@ + mode_text(r.mode) + "\n2. command: "@
        + command_text(r.command) + "\n3. running: "@ + proc_text(r.running) + "\n4. ready: "@ + (
    if r.ready.len() == 0 {
        "none"@
    } else {
        pids_text(r.ready)
    }) + "\n5. waiting: "@ + (if r.waiting.len() == 0 {
        "none"@
    } else {
        waits_text(r.waiting)
    }) + "\n6. new: "@ + proc_text(r.newp) + "\n7. terminated: "@ + proc_text(r.terminated)
        + "\n\n"@
}

/// The text of a whole trace, block after block.
pub open spec fn trace_text(t: Seq<RecordM>) -> Seq<char>
    decreases t.len(),
{
    if t.len() == 0 {
        Seq::empty()
    } else {
        record_text(t[0]) + trace_text(t.drop_first())
    }
}

/// Appends the text of a single-process slot.
fn append_proc(out: &mut String, p: &Option<ProcSummary>)
    ensures
        final(out)@ == old(out)@ + proc_text(
            match p {
                Option::None => Option::None,
                Option::Some(q) => Option::Some(q@),
            },
        ),
{
    match p {
        Option::None => {
            out.append("none");
        },
        Option::Some(q) => {
            append_u64(out, q.pid);
            out.append("(");
            out.append(q.name.as_str());
            out.append(", ");
            append_u64(out, q.ppid);
            out.append(")");
        },
    }
    proof {
        assert(out@ =~= old(out)@ + proc_text(
            match p {
                Option::None => Option::None,
                Option::Some(q) => Option::Some(q@),
            },
        ));
    }
}

/// Appends the pids of the ready queue from index `i` on.
fn append_pids(out: &mut String, v: &Vec<u64>, i: usize)
    requires
        i <= v@.len(),
    ensures
        final(out)@ == old(out)@ + pids_text(
            v@.map_values(|x: u64| x as nat).skip(i as int),
        ),
    decreases v@.len() - i,
{
    let ghost pv = v@.map_values(|x: u64| x as nat);
    if i == v.len() {
        proof {
            assert(pv.skip(i as int) =~= Seq::<nat>::empty());
            assert(out@ =~= out@ + pids_text(pv.skip(i as int)));
        }
    } else {
        append_u64(out, v[i]);
        out.append(" ");
        append_pids(out, v, i + 1);
        proof {
            assert(pv.skip(i as int).len() > 0);
            assert(pv.skip(i as int)[0] == pv[i as int]);
            assert(pv.skip(i as int).drop_first() =~= pv.skip(i as int + 1));
            assert(out@ =~= old(out)@ + pids_text(pv.skip(i as int)));
        }
    }
}

/// Appends the waiting set's `pid(tag)` pairs from index `i` on.
fn append_waits(out: &mut String, v: &Vec<WaitSummary>, i: usize)
    requires
        i <= v@.len(),
    ensures
        final(out)@ == old(out)@ + waits_text(
            v@.map_values(|x: WaitSummary| x@).skip(i as int),
        ),
    decreases v@.len() - i,
{
    let ghost wv = v@.map_values(|x: WaitSummary| x@);
    if i == v.len() {
        proof {
            assert(wv.skip(i as int) =~= Seq::<WaitSummaryM>::empty());
            assert(out@ =~= out@ + waits_text(wv.skip(i as int)));
        }
    } else {
        append_u64(out, v[i].pid);
        out.append("(");
        match v[i].tag {
            Tag::S => out.append("S"),
            Tag::W => out.append("W"),
        }
        out.append(") ");
        append_waits(out, v, i + 1);
        proof {
            assert(wv.skip(i as int).len() > 0);
            assert(wv.skip(i as int)[0] == wv[i as int]);
            assert(wv.skip(i as int).drop_first() =~= wv.skip(i as int + 1));
            assert(out@ =~= old(out)@ + waits_text(wv.skip(i as int)));
        }
    }
}

/// Reassociates one concatenation step.
proof fn lemma_concat_step(a: Seq<char>, b: Seq<char>, c: Seq<char>)
    ensures
        (a + b) + c == a + (b + c),
{
    assert((a + b) + c =~= a + (b + c));
}

/// Appends the text block of one logged cycle.
fn append_record(out: &mut String, r: &CycleRecord)
    ensures
        final(out)@ == old(out)@ + record_text(r@),
{
    let ghost o = old(out)@;
    out.append("[cycle #");
    let ghost mut acc = "[cycle #"@;
    append_u64(out, r.cycle);
    proof {
        lemma_concat_step(o, acc, dec_digits(r.cycle as nat));
        acc = acc + dec_digits(r.cycle as nat);
    }
    out.append("]\n1. mode: ");
    proof {
        lemma_concat_step(o, acc, "]\n1. mode: "@);
        acc = acc + "]\n1. mode: "@;
    }
    match r.mode {
        Mode::Kernel => out.append("kernel"),
        Mode::User => out.append("user"),
    }
    proof {
        assert(out@ == (o + acc) + mode_text(r.mode));
        lemma_concat_step(o, acc, mode_text(r.mode));
        acc = acc + mode_text(r.mode);
    }
    out.append("\n2. command: ");
    proof {
        lemma_concat_step(o, acc, "\n2. command: "@);
        acc = acc + "\n2. command: "@;
    }
    let ghost prev = o + acc;
    match &r.command {
        Command::Boot => out.append("boot"),
        Command::Idle => out.append("idle"),
        Command::Schedule => out.append("schedule"),
        Command::SystemCall => out.append("system call"),
        Command::Run(n) => {
            out.append("run ");
            append_u64(out, *n as u64);
            proof {
                lemma_concat_step(prev, "run "@, dec_digits(*n as nat));
            }
        },
        Command::Sleep(n) => {
            out.append("sleep ");
            append_u64(out, *n as u64);
            proof {
                lemma_concat_step(prev, "sleep "@, dec_digits(*n as nat));
            }
        },
        Command::Fork(name) => {
            out.append("fork_and_exec ");
            out.append(name.as_str());
            proof {
                lemma_concat_step(prev, "fork_and_exec "@, name@);
            }
        },
        Command::Wait => out.append("wait"),
        Command::Exit => out.append("exit"),
    }
    proof {
        assert(out@ == prev + command_text(r.command@));
        lemma_concat_step(o, acc, command_text(r.command@));
        acc = acc + command_text(r.command@);
    }
    out.append("\n3. running: ");
    proof {
        lemma_concat_step(o, acc, "\n3. running: "@);
        acc = acc + "\n3. running: "@;
    }
    append_proc(out, &r.running);
    proof {
        assert(out@ == (o + acc) + proc_text(r@.running));
        lemma_concat_step(o, acc, proc_text(r@.running));
        acc = acc + proc_text(r@.running);
    }
    out.append("\n4. ready: ");
    proof {
        lemma_concat_step(o, acc, "\n4. ready: "@);
        acc = acc + "\n4. ready: "@;
    }
    let ghost ready_seg = if r@.ready.len() == 0 {
        "none"@
    } else {
        pids_text(r@.ready)
    };
    if r.ready.len() == 0 {
        out.append("none");
    } else {
        append_pids(out, &r.ready, 0);
        proof {
            assert(r@.ready.skip(0) =~= r@.ready);
        }
    }
    proof {
        assert(out@ == (o + acc) + ready_seg);
        lemma_concat_step(o, acc, ready_seg);
        acc = acc + ready_seg;
    }
    out.append("\n5. waiting: ");
    proof {
        lemma_concat_step(o, acc, "\n5. waiting: "@);
        acc = acc + "\n5. waiting: "@;
    }
    let ghost wait_seg = if r@.waiting.len() == 0 {
        "none"@
    } else {
        waits_text(r@.waiting)
    };
    if r.waiting.len() == 0 {
        out.append("none");
    } else {
        append_waits(out, &r.waiting, 0);
        proof {
            assert(r@.waiting.skip(0) =~= r@.waiting);
        }
    }
    proof {
        assert(out@ == (o + acc) + wait_seg);
        lemma_concat_step(o, acc, wait_seg);
        acc = acc + wait_seg;
    }
    out.append("\n6. new: ");
    proof {
        lemma_concat_step(o, acc, "\n6. new: "@);
        acc = acc + "\n6. new: "@;
    }
    append_proc(out, &r.newp);
    proof {
        assert(out@ == (o + acc) + proc_text(r@.newp));
        lemma_concat_step(o, acc, proc_text(r@.newp));
        acc = acc + proc_text(r@.newp);
    }
    out.append("\n7. terminated: ");
    proof {
        lemma_concat_step(o, acc, "\n7. terminated: "@);
        acc = acc + "\n7. terminated: "@;
    }
    append_proc(out, &r.terminated);
    proof {
        assert(out@ == (o + acc) + proc_text(r@.terminated));
        lemma_concat_step(o, acc, proc_text(r@.terminated));
        acc = acc + proc_text(r@.terminated);
    }
    out.append("\n\n");
    proof {
        lemma_concat_step(o, acc, "\n\n"@);
        acc = acc + "\n\n"@;
        assert(acc == record_text(r@));
    }
}

/// Appends the text of the trace from record `i` on.
fn append_records(out: &mut String, t: &Vec<CycleRecord>, i: usize)
    requires
        i <= t@.len(),
    ensures
        final(out)@ == old(out)@ + trace_text(
            t@.map_values(|c: CycleRecord| c@).skip(i as int),
        ),
    decreases t@.len() - i,
{
    let ghost tv = t@.map_values(|c: CycleRecord| c@);
    if i == t.len() {
        proof {
            assert(tv.skip(i as int) =~= Seq::<RecordM>::empty());
            assert(out@ =~= out@ + trace_text(tv.skip(i as int)));
        }
    } else {
        append_record(out, &t[i]);
        append_records(out, t, i + 1);
        proof {
            assert(tv.skip(i as int).len() > 0);
            assert(tv.skip(i as int)[0] == tv[i as int]);
            assert(tv.skip(i as int).drop_first() =~= tv.skip(i as int + 1));
            assert(out@ =~= old(out)@ + trace_text(tv.skip(i as int)));
        }
    }
}

/// Formats a whole trace as the result artifact's text.
pub fn render_trace(t: &Vec<CycleRecord>) -> (s: String)
    ensures
        s@ == trace_text(t@.map_values(|c: CycleRecord| c@)),
{
    let mut out = String::new();
    append_records(&mut out, t, 0);
    proof {
        assert(t@.map_values(|c: CycleRecord| c@).skip(0) =~= t@.map_values(
            |c: CycleRecord| c@,
        ));
        assert(Seq::<char>::empty() + trace_text(t@.map_values(|c: CycleRecord| c@))
            =~= trace_text(t@.map_values(|c: CycleRecord| c@)));
    }
    out
}

/// Boots and runs the whole simulation and formats its trace.
pub fn simulate(programs: Vec<Program>, fuel: u32) -> (r: Result<String, SimError>)
    ensures
        ({
            let b = spec_boot(programs@.map_values(|p: Program| p@), fuel as nat);
            match r {
                Result::Ok(s) => b matches Result::Ok(m) && s@ == trace_text(m.trace),
                Result::Err(e) => b == Result::Err::<Model, ErrM>(e@),
            }
        }),
{
    match run_simulation(programs, fuel) {
        Result::Ok(t) => Result::Ok(render_trace(&t)),
        Result::Err(e) => Result::Err(e),
    }
}

} // verus!
