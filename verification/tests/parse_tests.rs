use procsim::parse::{decode_line, decode_script};
use procsim::types::{Instr, SimError};

#[test]
fn decode_run() {
    let i = decode_line("run 3").unwrap();
    assert_eq!(i, Instr::Run(3));
}

#[test]
fn decode_sleep() {
    let i = decode_line("sleep 12").unwrap();
    assert_eq!(i, Instr::Sleep(12));
}

#[test]
fn decode_fork_takes_last_token() {
    let i = decode_line("fork_and_exec child").unwrap();
    assert_eq!(i, Instr::Fork(String::from("child")));
}

#[test]
fn decode_wait_and_exit() {
    assert_eq!(decode_line("wait").unwrap(), Instr::Wait);
    assert_eq!(decode_line("exit").unwrap(), Instr::Exit);
}

#[test]
fn decode_unknown_keyword_is_bad() {
    assert_eq!(decode_line("halt 3").unwrap(), Instr::Bad);
    assert_eq!(decode_line("").unwrap(), Instr::Bad);
}

#[test]
fn decode_malformed_argument_is_fatal() {
    assert_eq!(decode_line("run abc"), Err(SimError::MalformedArgument));
    assert_eq!(decode_line("sleep"), Err(SimError::MalformedArgument));
    assert_eq!(decode_line("run 99999999999"), Err(SimError::MalformedArgument));
}

#[test]
fn decode_run_big_boundary() {
    assert_eq!(decode_line("run 4294967295").unwrap(), Instr::Run(u32::MAX));
    assert_eq!(decode_line("run 4294967296"), Err(SimError::MalformedArgument));
    assert_eq!(decode_line("run 00007").unwrap(), Instr::Run(7));
}

#[test]
fn decode_script_stops_at_first_malformed_line() {
    let lines: Vec<String> = vec![
        String::from("run 1"),
        String::from("sleep x"),
        String::from("exit"),
    ];
    assert_eq!(decode_script(&lines), Err(SimError::MalformedArgument));
    let good: Vec<String> = vec![String::from("run 1"), String::from("exit")];
    let body = decode_script(&good).unwrap();
    assert_eq!(body, vec![Instr::Run(1), Instr::Exit]);
}
