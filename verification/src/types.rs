//! The data model: processes, queues, instructions, cycle records, and the
//! whole simulation state, each with a mathematical view for contracts.

use vstd::prelude::*;
use std::collections::VecDeque;

verus! {

/// Execution mode shown in the trace: kernel while scheduler / syscall logic
/// runs, user while ordinary instructions are interpreted.
#[derive(Clone, Copy, Debug, PartialEq, Eq, Structural)]
pub enum Mode {
    Kernel,
    User,
}

/// Status tag of a waiting-set entry: `S` for a sleeping process,
/// `W` for a process blocked waiting on a child.
#[derive(Clone, Copy, Debug, PartialEq, Eq, Structural)]
pub enum Tag {
    S,
    W,
}

/// A decoded pseudo-instruction. Scripts are decoded once when loaded;
/// an unrecognized keyword becomes `Bad`, which the interpreter skips
/// with a diagnostic.
#[derive(Debug, PartialEq)]
pub enum Instr {
    Run(u32),
    Fork(String),
    Sleep(u32),
    Wait,
    Exit,
    Bad,
}

/// Mathematical value of an instruction.
pub ghost enum InstrM {
    Run(nat),
    Fork(Seq<char>),
    Sleep(nat),
    Wait,
    Exit,
    Bad,
}

impl View for Instr {
    type V = InstrM;

    open spec fn view(&self) -> InstrM {
        match self {
            Instr::Run(n) => InstrM::Run(*n as nat),
            Instr::Fork(name) => InstrM::Fork(name@),
            Instr::Sleep(n) => InstrM::Sleep(*n as nat),
            Instr::Wait => InstrM::Wait,
            Instr::Exit => InstrM::Exit,
            Instr::Bad => InstrM::Bad,
        }
    }
}

impl Clone for Instr {
    fn clone(&self) -> (r: Self)
        ensures
            r@ == self@,
    {
        match self {
            Instr::Run(n) => Instr::Run(*n),
            Instr::Fork(name) => Instr::Fork(name.clone()),
            Instr::Sleep(n) => Instr::Sleep(*n),
            Instr::Wait => Instr::Wait,
            Instr::Exit => Instr::Exit,
            Instr::Bad => Instr::Bad,
        }
    }
}

/// The command label of the current cycle, shown in the trace.
#[derive(Debug, PartialEq)]
pub enum Command {
    Boot,
    Idle,
    Schedule,
    SystemCall,
    Run(u32),
    Sleep(u32),
    Fork(String),
    Wait,
    Exit,
}

/// Mathematical value of a command label.
pub ghost enum CommandM {
    Boot,
    Idle,
    Schedule,
    SystemCall,
    Run(nat),
    Sleep(nat),
    Fork(Seq<char>),
    Wait,
    Exit,
}

impl View for Command {
    type V = CommandM;

    open spec fn view(&self) -> CommandM {
        match self {
            Command::Boot => CommandM::Boot,
            Command::Idle => CommandM::Idle,
            Command::Schedule => CommandM::Schedule,
            Command::SystemCall => CommandM::SystemCall,
            Command::Run(n) => CommandM::Run(*n as nat),
            Command::Sleep(n) => CommandM::Sleep(*n as nat),
            Command::Fork(name) => CommandM::Fork(name@),
            Command::Wait => CommandM::Wait,
            Command::Exit => CommandM::Exit,
        }
    }
}

impl Clone for Command {
    fn clone(&self) -> (r: Self)
        ensures
            r@ == self@,
    {
        match self {
            Command::Boot => Command::Boot,
            Command::Idle => Command::Idle,
            Command::Schedule => Command::Schedule,
            Command::SystemCall => Command::SystemCall,
            Command::Run(n) => Command::Run(*n),
            Command::Sleep(n) => Command::Sleep(*n),
            Command::Fork(name) => Command::Fork(name.clone()),
            Command::Wait => Command::Wait,
            Command::Exit => Command::Exit,
        }
    }
}

/// Why a simulation run stopped short, or why a script would not decode.
#[derive(Clone, Debug, PartialEq)]
pub enum SimError {
    /// A program name did not resolve to a loaded script (fatal).
    ScriptNotFound(String),
    /// A `run` or `sleep` instruction carried a non-numeric or oversized
    /// argument (fatal, reported at decode time).
    MalformedArgument,
    /// The fuel bound was exhausted before the simulation halted.
    OutOfFuel,
}

/// Mathematical value of a simulation error.
pub ghost enum ErrM {
    ScriptNotFound(Seq<char>),
    MalformedArgument,
    OutOfFuel,
}

impl View for SimError {
    type V = ErrM;

    open spec fn view(&self) -> ErrM {
        match self {
            SimError::ScriptNotFound(name) => ErrM::ScriptNotFound(name@),
            SimError::MalformedArgument => ErrM::MalformedArgument,
            SimError::OutOfFuel => ErrM::OutOfFuel,
        }
    }
}

/// A process: script identity (`name`, not unique across forks), unique
/// `pid`, parent pid (`ppid`, 0 for the boot process), and the ordered
/// sequence of its remaining instructions, which shrinks as they are
/// consumed. Consuming instructions never changes pid, ppid or name.
#[derive(Debug)]
pub struct Process {
    pub name: String,
    pub pid: u64,
    pub ppid: u64,
    pub instrs: VecDeque<Instr>,
}

/// Mathematical value of a process.
#[verifier::ext_equal]
pub ghost struct ProcessM {
    pub name: Seq<char>,
    pub pid: nat,
    pub ppid: nat,
    pub instrs: Seq<InstrM>,
}

impl View for Process {
    type V = ProcessM;

    open spec fn view(&self) -> ProcessM {
        ProcessM {
            name: self.name@,
            pid: self.pid as nat,
            ppid: self.ppid as nat,
            instrs: self.instrs@.map_values(|i: Instr| i@),
        }
    }
}

impl Clone for Process {
    fn clone(&self) -> (r: Self)
        ensures
            r@ == self@,
    {
        let mut instrs: VecDeque<Instr> = VecDeque::new();
        let mut i: usize = 0;
        while i < self.instrs.len()
            invariant
                i <= self.instrs@.len(),
                instrs@.len() == i as nat,
                forall|j: int| 0 <= j < i ==> #[trigger] instrs@[j]@ == self.instrs@[j]@,
            decreases self.instrs@.len() - i,
        {
            instrs.push_back(self.instrs[i].clone());
            i += 1;
        }
        proof {
            assert(instrs@.map_values(|x: Instr| x@) =~= self.instrs@.map_values(|x: Instr| x@));
        }
        Process { name: self.name.clone(), pid: self.pid, ppid: self.ppid, instrs }
    }
}

/// An entry of the waiting set: a process snapshot with its status tag.
#[derive(Clone, Debug)]
pub struct WaitEntry {
    pub process: Process,
    pub tag: Tag,
}

/// Mathematical value of a waiting-set entry.
#[verifier::ext_equal]
pub ghost struct WaitEntryM {
    pub process: ProcessM,
    pub tag: Tag,
}

impl View for WaitEntry {
    type V = WaitEntryM;

    open spec fn view(&self) -> WaitEntryM {
        WaitEntryM { process: self.process@, tag: self.tag }
    }
}

/// An entry of the sleep countdown tracker: a process snapshot paired with
/// the number of remaining cycles before it is promoted back to ready.
#[derive(Clone, Debug)]
pub struct SleepEntry {
    pub process: Process,
    pub cycles: u32,
}

/// Mathematical value of a sleep-tracker entry.
#[verifier::ext_equal]
pub ghost struct SleepEntryM {
    pub process: ProcessM,
    pub cycles: nat,
}

impl View for SleepEntry {
    type V = SleepEntryM;

    open spec fn view(&self) -> SleepEntryM {
        SleepEntryM { process: self.process@, cycles: self.cycles as nat }
    }
}

/// A named program: the decoded instruction sequence a forked process of
/// that name starts with.
#[derive(Clone, Debug)]
pub struct Program {
    pub name: String,
    pub body: Vec<Instr>,
}

/// Mathematical value of a program.
#[verifier::ext_equal]
pub ghost struct ProgramM {
    pub name: Seq<char>,
    pub body: Seq<InstrM>,
}

impl View for Program {
    type V = ProgramM;

    open spec fn view(&self) -> ProgramM {
        ProgramM { name: self.name@, body: self.body@.map_values(|i: Instr| i@) }
    }
}

/// The identity of a process as a trace line reports it.
#[derive(Clone, Debug)]
pub struct ProcSummary {
    pub pid: u64,
    pub name: String,
    pub ppid: u64,
}

/// Mathematical value of a reported process identity.
#[verifier::ext_equal]
pub ghost struct ProcSummaryM {
    pub pid: nat,
    pub name: Seq<char>,
    pub ppid: nat,
}

impl View for ProcSummary {
    type V = ProcSummaryM;

    open spec fn view(&self) -> ProcSummaryM {
        ProcSummaryM { pid: self.pid as nat, name: self.name@, ppid: self.ppid as nat }
    }
}

/// One waiting-set member as a trace line reports it.
#[derive(Clone, Copy, Debug)]
pub struct WaitSummary {
    pub pid: u64,
    pub tag: Tag,
}

/// Mathematical value of a reported waiting-set member.
#[verifier::ext_equal]
pub ghost struct WaitSummaryM {
    pub pid: nat,
    pub tag: Tag,
}

impl View for WaitSummary {
    type V = WaitSummaryM;

    open spec fn view(&self) -> WaitSummaryM {
        WaitSummaryM { pid: self.pid as nat, tag: self.tag }
    }
}

/// The snapshot of kernel state logged for one completed cycle.
#[derive(Clone, Debug)]
pub struct CycleRecord {
    pub cycle: u64,
    pub mode: Mode,
    pub command: Command,
    pub running: Option<ProcSummary>,
    pub ready: Vec<u64>,
    pub waiting: Vec<WaitSummary>,
    pub newp: Option<ProcSummary>,
    pub terminated: Option<ProcSummary>,
}

/// Mathematical value of a logged cycle snapshot.
#[verifier::ext_equal]
pub ghost struct RecordM {
    pub cycle: nat,
    pub mode: Mode,
    pub command: CommandM,
    pub running: Option<ProcSummaryM>,
    pub ready: Seq<nat>,
    pub waiting: Seq<WaitSummaryM>,
    pub newp: Option<ProcSummaryM>,
    pub terminated: Option<ProcSummaryM>,
}

impl View for CycleRecord {
    type V = RecordM;

    open spec fn view(&self) -> RecordM {
        RecordM {
            cycle: self.cycle as nat,
            mode: self.mode,
            command: self.command@,
            running: match self.running {
                Option::None => Option::None,
                Option::Some(p) => Option::Some(p@),
            },
            ready: self.ready@.map_values(|p: u64| p as nat),
            waiting: self.waiting@.map_values(|w: WaitSummary| w@),
            newp: match self.newp {
                Option::None => Option::None,
                Option::Some(p) => Option::Some(p@),
            },
            terminated: match self.terminated {
                Option::None => Option::None,
                Option::Some(p) => Option::Some(p@),
            },
        }
    }
}

/// The whole simulation state: the cycle clock, the remaining fuel bound,
/// the last issued pid, the five process containers, the trace accumulated
/// so far, and the loaded program table.
pub struct Sim {
    pub cycle: u64,
    pub fuel: u32,
    pub last_pid: u64,
    pub mode: Mode,
    pub command: Command,
    pub running: Option<Process>,
    pub ready: VecDeque<Process>,
    pub waiting: VecDeque<WaitEntry>,
    pub tracker: VecDeque<SleepEntry>,
    pub newp: Option<Process>,
    pub terminated: Option<Process>,
    pub trace: Vec<CycleRecord>,
    pub cycle_done: bool,
    pub programs: Vec<Program>,
    pub diagnostics: u64,
}

/// Mathematical value of the simulation state.
#[verifier::ext_equal]
pub ghost struct Model {
    pub cycle: nat,
    pub fuel: nat,
    pub last_pid: nat,
    pub mode: Mode,
    pub command: CommandM,
    pub running: Option<ProcessM>,
    pub ready: Seq<ProcessM>,
    pub waiting: Seq<WaitEntryM>,
    pub tracker: Seq<SleepEntryM>,
    pub newp: Option<ProcessM>,
    pub terminated: Option<ProcessM>,
    pub trace: Seq<RecordM>,
    pub cycle_done: bool,
    pub programs: Seq<ProgramM>,
    pub diagnostics: nat,
}

impl View for Sim {
    type V = Model;

    open spec fn view(&self) -> Model {
        Model {
            cycle: self.cycle as nat,
            fuel: self.fuel as nat,
            last_pid: self.last_pid as nat,
            mode: self.mode,
            command: self.command@,
            running: match self.running {
                Option::None => Option::None,
                Option::Some(p) => Option::Some(p@),
            },
            ready: self.ready@.map_values(|p: Process| p@),
            waiting: self.waiting@.map_values(|w: WaitEntry| w@),
            tracker: self.tracker@.map_values(|s: SleepEntry| s@),
            newp: match self.newp {
                Option::None => Option::None,
                Option::Some(p) => Option::Some(p@),
            },
            terminated: match self.terminated {
                Option::None => Option::None,
                Option::Some(p) => Option::Some(p@),
            },
            trace: self.trace@.map_values(|r: CycleRecord| r@),
            cycle_done: self.cycle_done,
            programs: self.programs@.map_values(|p: Program| p@),
            diagnostics: self.diagnostics as nat,
        }
    }
}

/// Builds a process value from its parts.
pub fn create_process(name: String, pid: u64, ppid: u64, instrs: VecDeque<Instr>) -> (p: Process)
    ensures
        p@ == (ProcessM {
            name: name@,
            pid: pid as nat,
            ppid: ppid as nat,
            instrs: instrs@.map_values(|i: Instr| i@),
        }),
{
    Process { name, pid, ppid, instrs }
}

} // verus!
