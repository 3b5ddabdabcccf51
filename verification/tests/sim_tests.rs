use std::collections::VecDeque;
use procsim::engine::{boot, run_simulation, schedule};
use procsim::parse::decode_script;
use procsim::render::{render_trace, simulate};
use procsim::state::tick;
use procsim::types::{
    Command, CycleRecord, Mode, ProcSummary, Program, Process, SimError, SleepEntry, Sim, Tag,
    WaitSummary,
};
use procsim::types::create_process;

fn prog(name: &str, lines: &[&str]) -> Program {
    let lines: Vec<String> = lines.iter().map(|l| l.to_string()).collect();
    Program { name: name.to_string(), body: decode_script(&lines).unwrap() }
}

fn proc_with(name: &str, pid: u64, ppid: u64) -> Process {
    create_process(name.to_string(), pid, ppid, VecDeque::new())
}

#[test]
fn exit_only_trace_text() {
    let programs = vec![prog("init", &["exit"])];
    let text = simulate(programs, 100).unwrap();
    let expected = "[cycle #0]\n1. mode: kernel\n2. command: boot\n3. running: none\n4. ready: none\n5. waiting: none\n6. new: 1(init, 0)\n7. terminated: none\n\n\
[cycle #1]\n1. mode: kernel\n2. command: schedule\n3. running: 1(init, 0)\n4. ready: none\n5. waiting: none\n6. new: none\n7. terminated: none\n\n\
[cycle #2]\n1. mode: user\n2. command: exit\n3. running: 1(init, 0)\n4. ready: none\n5. waiting: none\n6. new: none\n7. terminated: none\n\n\
[cycle #3]\n1. mode: kernel\n2. command: system call\n3. running: none\n4. ready: none\n5. waiting: none\n6. new: none\n7. terminated: 1(init, 0)\n\n";
    assert_eq!(text, expected);
}

#[test]
fn fork_wait_exit_scenario() {
    let programs = vec![
        prog("init", &["fork_and_exec child", "wait", "exit"]),
        prog("child", &["run 2", "exit"]),
    ];
    let records = run_simulation(programs, 1000).unwrap();
    assert_eq!(records.len(), 15);
    for (i, r) in records.iter().enumerate() {
        assert_eq!(r.cycle, i as u64);
    }
    // the fork's system-call cycle shows the child, pid 2, parented by init
    let f = &records[3];
    assert_eq!(f.command, Command::SystemCall);
    let child = f.newp.as_ref().unwrap();
    assert_eq!(child.pid, 2);
    assert_eq!(child.name, "child");
    assert_eq!(child.ppid, 1);
    // init blocks in wait, tagged W, while the child sits in ready
    let w = &records[6];
    assert_eq!(w.waiting.len(), 1);
    assert_eq!(w.waiting[0].pid, 1);
    assert_eq!(w.waiting[0].tag, Tag::W);
    assert_eq!(w.ready, vec![2]);
    // the child busy-runs for two logged user cycles
    for r in [&records[8], &records[9]] {
        assert_eq!(r.command, Command::Run(2));
        assert_eq!(r.mode, Mode::User);
        assert_eq!(r.running.as_ref().unwrap().pid, 2);
    }
    // the child's exit wakes init back into ready in the same snapshot
    let e = &records[11];
    assert_eq!(e.terminated.as_ref().unwrap().pid, 2);
    assert_eq!(e.ready, vec![1]);
    assert!(e.waiting.is_empty());
    // the machine halts right after init's own exit, nothing left anywhere
    let last = &records[14];
    assert_eq!(last.terminated.as_ref().unwrap().pid, 1);
    assert!(last.ready.is_empty());
    assert!(last.waiting.is_empty());
}

#[test]
fn sleep_idles_until_wakeup() {
    let programs = vec![prog("init", &["sleep 3", "exit"])];
    let records = run_simulation(programs, 1000).unwrap();
    assert_eq!(records.len(), 9);
    // parking cycle: its tick comes first, so the fresh countdown is
    // untouched and init sits in waiting tagged S
    assert_eq!(records[3].command, Command::SystemCall);
    assert_eq!(records[3].waiting.len(), 1);
    assert_eq!(records[3].waiting[0].pid, 1);
    assert_eq!(records[3].waiting[0].tag, Tag::S);
    // nothing ready for two further ticks: the scheduler idles
    assert_eq!(records[4].command, Command::Idle);
    assert!(records[4].running.is_none());
    assert_eq!(records[5].command, Command::Idle);
    // exactly three ticks after registration init is scheduled again
    assert_eq!(records[6].command, Command::Schedule);
    assert_eq!(records[6].running.as_ref().unwrap().pid, 1);
    assert_eq!(records[8].terminated.as_ref().unwrap().pid, 1);
}

#[test]
fn sleep_one_wakes_on_the_next_tick() {
    let programs = vec![prog("init", &["sleep 1", "exit"])];
    let records = run_simulation(programs, 1000).unwrap();
    assert_eq!(records.len(), 7);
    // the parking snapshot still shows the sleeper: the cycle's tick ran
    // before the countdown was registered
    let r = &records[3];
    assert_eq!(r.command, Command::SystemCall);
    assert!(r.ready.is_empty());
    assert_eq!(r.waiting.len(), 1);
    assert_eq!(r.waiting[0].pid, 1);
    assert_eq!(r.waiting[0].tag, Tag::S);
    // the very next tick promotes it and it is scheduled at once
    assert_eq!(records[4].command, Command::Schedule);
    assert_eq!(records[4].running.as_ref().unwrap().pid, 1);
}

#[test]
fn tracker_promotes_after_exact_countdown() {
    let mut sim = Sim::new(vec![], 100);
    sim.tracker.push_back(SleepEntry { process: proc_with("a", 5, 1), cycles: 2 });
    sim = tick(sim);
    assert_eq!(sim.tracker.len(), 1);
    assert_eq!(sim.tracker[0].cycles, 1);
    assert!(sim.ready.is_empty());
    sim = tick(sim);
    assert!(sim.tracker.is_empty());
    assert_eq!(sim.ready.len(), 1);
    assert_eq!(sim.ready[0].pid, 5);
}

#[test]
fn tracker_clamps_zero_countdown() {
    let mut sim = Sim::new(vec![], 100);
    sim.tracker.push_back(SleepEntry { process: proc_with("a", 5, 1), cycles: 0 });
    sim = tick(sim);
    assert!(sim.tracker.is_empty());
    assert_eq!(sim.ready.len(), 1);
}

#[test]
fn tracker_promotes_simultaneous_expirations_in_order() {
    let mut sim = Sim::new(vec![], 100);
    sim.tracker.push_back(SleepEntry { process: proc_with("a", 5, 1), cycles: 1 });
    sim.tracker.push_back(SleepEntry { process: proc_with("b", 6, 1), cycles: 4 });
    sim.tracker.push_back(SleepEntry { process: proc_with("c", 7, 1), cycles: 1 });
    sim = tick(sim);
    assert_eq!(sim.ready.len(), 2);
    assert_eq!(sim.ready[0].pid, 5);
    assert_eq!(sim.ready[1].pid, 7);
    assert_eq!(sim.tracker.len(), 1);
    assert_eq!(sim.tracker[0].process.pid, 6);
    assert_eq!(sim.tracker[0].cycles, 3);
}

#[test]
fn logger_is_noop_while_cycle_not_ready() {
    let mut sim = Sim::new(vec![], 100);
    assert!(!sim.cycle_done);
    sim.log_cycle_if_due();
    assert!(sim.trace.is_empty());
    assert_eq!(sim.cycle, 0);
}

#[test]
fn scheduler_admits_ready_head_in_fifo_order() {
    let mut sim = Sim::new(vec![], 100);
    sim.ready.push_back(proc_with("a", 2, 1));
    sim.ready.push_back(proc_with("b", 3, 1));
    sim.ready.push_back(proc_with("c", 4, 1));
    for expected in [2u64, 3, 4] {
        let mut s2 = schedule(sim).unwrap();
        assert_eq!(s2.running.as_ref().unwrap().pid, expected);
        s2.running = None;
        sim = s2;
    }
}

#[test]
fn waiting_set_reports_pid_and_tag() {
    let programs = vec![
        prog("init", &["fork_and_exec child", "wait", "exit"]),
        prog("child", &["exit"]),
    ];
    let records = run_simulation(programs, 1000).unwrap();
    let tagged: Vec<&WaitSummary> = records.iter().flat_map(|r| r.waiting.iter()).collect();
    assert!(tagged.iter().all(|w| w.pid == 1 && w.tag == Tag::W));
}

#[test]
fn missing_init_is_script_not_found() {
    let r = run_simulation(vec![prog("other", &["exit"])], 100);
    assert_eq!(r.err().unwrap(), SimError::ScriptNotFound("init".to_string()));
}

#[test]
fn fork_of_unknown_program_is_fatal() {
    let programs = vec![prog("init", &["fork_and_exec nope", "exit"])];
    let r = run_simulation(programs, 1000);
    assert_eq!(r.err().unwrap(), SimError::ScriptNotFound("nope".to_string()));
}

#[test]
fn fuel_exhaustion_is_reported() {
    let programs = vec![prog("init", &["run 50", "exit"])];
    let r = run_simulation(programs, 3);
    assert_eq!(r.err().unwrap(), SimError::OutOfFuel);
}

#[test]
fn bad_instruction_is_skipped_and_counted() {
    let programs = vec![prog("init", &["frobnicate", "exit"])];
    let end = boot(programs, 1000).unwrap();
    // the bad line spends no cycle: the trace looks like a bare exit run,
    // and the skipped instruction is counted as a diagnostic
    assert_eq!(end.trace.len(), 4);
    assert_eq!(end.trace[2].command, Command::Exit);
    assert_eq!(end.diagnostics, 1);
}

#[test]
fn render_ready_and_waiting_lists() {
    let record = CycleRecord {
        cycle: 9,
        mode: Mode::Kernel,
        command: Command::SystemCall,
        running: None,
        ready: vec![1, 2],
        waiting: vec![
            WaitSummary { pid: 3, tag: Tag::S },
            WaitSummary { pid: 4, tag: Tag::W },
        ],
        newp: None,
        terminated: Some(ProcSummary { pid: 12, name: "child".to_string(), ppid: 1 }),
    };
    let text = render_trace(&vec![record]);
    let expected = "[cycle #9]\n1. mode: kernel\n2. command: system call\n3. running: none\n4. ready: 1 2 \n5. waiting: 3(S) 4(W) \n6. new: none\n7. terminated: 12(child, 1)\n\n";
    assert_eq!(text, expected);
}

#[test]
fn forked_pids_strictly_increase() {
    let programs = vec![
        prog("init", &["fork_and_exec a", "fork_and_exec a", "exit"]),
        prog("a", &["exit"]),
    ];
    let records = run_simulation(programs, 10000).unwrap();
    let new_pids: Vec<u64> = records.iter().filter_map(|r| r.newp.as_ref().map(|p| p.pid)).collect();
    assert_eq!(new_pids, vec![1, 2, 3]);
    for r in &records {
        if let Some(c) = &r.newp {
            if c.pid > 1 {
                assert_eq!(c.ppid, 1);
            }
        }
    }
}
