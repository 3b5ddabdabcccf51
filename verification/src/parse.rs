//! Decoding of script lines into instructions, and the program table
//! lookup the fork handler uses. A line's keyword is its first
//! space-separated token; the argument of `run`, `sleep` and
//! `fork_and_exec` is everything after the last space.

use vstd::prelude::*;
use vstd::string::StrSliceExecFns;
use vstd::string::StringExecFns;
use crate::types::{Instr, InstrM, SimError, ErrM, Program, ProgramM};
use crate::text::{all_digits, nat_of, parse_u32, str_eq};

verus! {

/// The index of the first space of `s`, or its length when it has none.
pub open spec fn first_space_of(s: Seq<char>) -> int
    decreases s.len(),
{
    if s.len() == 0 {
        0
    } else if s[0] == ' ' {
        0
    } else {
        1 + first_space_of(s.drop_first())
    }
}

/// The index of the last space of `s`, or -1 when it has none.
pub open spec fn last_space_of(s: Seq<char>) -> int
    decreases s.len(),
{
    if s.len() == 0 {
        -1
    } else if s.last() == ' ' {
        s.len() - 1
    } else {
        last_space_of(s.drop_last())
    }
}

proof fn lemma_first_space_at(s: Seq<char>, i: int)
    requires
        0 <= i <= s.len(),
        forall|j: int| 0 <= j < i ==> s[j] != ' ',
        i < s.len() ==> s[i] == ' ',
    ensures
        first_space_of(s) == i,
    decreases i,
{
    if i == 0 {
    } else {
        lemma_first_space_at(s.drop_first(), i - 1);
    }
}

proof fn lemma_last_space_at(s: Seq<char>, i: int)
    requires
        -1 <= i < s.len(),
        i >= 0 ==> s[i] == ' ',
        forall|j: int| i < j < s.len() ==> s[j] != ' ',
    ensures
        last_space_of(s) == i,
    decreases s.len(),
{
    if s.len() > 0 {
        if s.last() == ' ' {
            assert(i == s.len() - 1);
        } else {
            lemma_last_space_at(s.drop_last(), i);
        }
    }
}

/// What a script line decodes to: an instruction, `Bad` for an unknown
/// keyword, or `MalformedArgument` when `run` or `sleep` does not carry
/// a decimal number that fits a `u32`.
pub open spec fn decode_line_spec(s: Seq<char>) -> Result<InstrM, ErrM> {
    let head = s.take(first_space_of(s));
    let arg = s.skip(last_space_of(s) + 1);
    if head == "run"@ {
        if all_digits(arg) && nat_of(arg) <= u32::MAX {
            Result::Ok(InstrM::Run(nat_of(arg)))
        } else {
            Result::Err(ErrM::MalformedArgument)
        }
    } else if head == "sleep"@ {
        if all_digits(arg) && nat_of(arg) <= u32::MAX {
            Result::Ok(InstrM::Sleep(nat_of(arg)))
        } else {
            Result::Err(ErrM::MalformedArgument)
        }
    } else if head == "fork_and_exec"@ {
        Result::Ok(InstrM::Fork(arg))
    } else if head == "wait"@ {
        Result::Ok(InstrM::Wait)
    } else if head == "exit"@ {
        Result::Ok(InstrM::Exit)
    } else {
        Result::Ok(InstrM::Bad)
    }
}

/// The mathematical value of a decoding result.
pub open spec fn instr_res_view(r: Result<Instr, SimError>) -> Result<InstrM, ErrM> {
    match r {
        Result::Ok(i) => Result::Ok(i@),
        Result::Err(e) => Result::Err(e@),
    }
}

/// Decodes one script line.
pub fn decode_line(line: &str) -> (r: Result<Instr, SimError>)
    ensures
        instr_res_view(r) == decode_line_spec(line@),
{
    let n = line.unicode_len();
    let mut i: usize = 0;
    while i < n && line.get_char(i) != ' '
        invariant
            i <= n,
            n == line@.len(),
            forall|j: int| 0 <= j < i ==> line@[j] != ' ',
        decreases n - i,
    {
        i += 1;
    }
    let head_end: usize = i;
    proof {
        lemma_first_space_at(line@, head_end as int);
    }
    let mut k: usize = n;
    while k > 0 && line.get_char(k - 1) != ' '
        invariant
            k <= n,
            n == line@.len(),
            forall|j: int| k <= j < n ==> line@[j] != ' ',
        decreases k,
    {
        k -= 1;
    }
    let arg_start: usize = k;
    proof {
        lemma_last_space_at(line@, arg_start as int - 1);
    }
    let head = line.substring_char(0, head_end);
    proof {
        assert(head@ =~= line@.take(head_end as int));
    }
    let ghost arg = line@.skip(arg_start as int);
    if str_eq(head, "run") {
        match parse_u32(line, arg_start, n) {
            Option::Some(v) => {
                proof {
                    assert(line@.subrange(arg_start as int, n as int) =~= arg);
                }
                Result::Ok(Instr::Run(v))
            },
            Option::None => {
                proof {
                    assert(line@.subrange(arg_start as int, n as int) =~= arg);
                }
                Result::Err(SimError::MalformedArgument)
            },
        }
    } else if str_eq(head, "sleep") {
        match parse_u32(line, arg_start, n) {
            Option::Some(v) => {
                proof {
                    assert(line@.subrange(arg_start as int, n as int) =~= arg);
                }
                Result::Ok(Instr::Sleep(v))
            },
            Option::None => {
                proof {
                    assert(line@.subrange(arg_start as int, n as int) =~= arg);
                }
                Result::Err(SimError::MalformedArgument)
            },
        }
    } else if str_eq(head, "fork_and_exec") {
        let name_slice = line.substring_char(arg_start, n);
        proof {
            assert(name_slice@ =~= arg);
        }
        Result::Ok(Instr::Fork(String::from_str(name_slice)))
    } else if str_eq(head, "wait") {
        Result::Ok(Instr::Wait)
    } else if str_eq(head, "exit") {
        Result::Ok(Instr::Exit)
    } else {
        Result::Ok(Instr::Bad)
    }
}

/// What a whole script decodes to: its instruction sequence, or the
/// error of its first malformed line.
pub open spec fn decode_lines_spec(lines: Seq<Seq<char>>) -> Result<Seq<InstrM>, ErrM>
    decreases lines.len(),
{
    if lines.len() == 0 {
        Result::Ok(Seq::empty())
    } else {
        match decode_line_spec(lines[0]) {
            Result::Err(e) => Result::Err(e),
            Result::Ok(i) => match decode_lines_spec(lines.drop_first()) {
                Result::Err(e) => Result::Err(e),
                Result::Ok(rest) => Result::Ok(seq![i] + rest),
            },
        }
    }
}

/// The mathematical value of a script-decoding result.
pub open spec fn body_res_view(r: Result<Vec<Instr>, SimError>) -> Result<Seq<InstrM>, ErrM> {
    match r {
        Result::Ok(b) => Result::Ok(b@.map_values(|i: Instr| i@)),
        Result::Err(e) => Result::Err(e@),
    }
}

/// Decodes a whole script, one instruction per line.
pub fn decode_script(lines: &Vec<String>) -> (r: Result<Vec<Instr>, SimError>)
    ensures
        body_res_view(r) == decode_lines_spec(lines@.map_values(|l: String| l@)),
{
    let ghost lv = lines@.map_values(|l: String| l@);
    let mut out: Vec<Instr> = Vec::new();
    proof {
        assert(lv.skip(0) =~= lv);
        assert(out@.map_values(|x: Instr| x@) =~= Seq::<InstrM>::empty());
        match decode_lines_spec(lv) {
            Result::Ok(rest) => {
                assert(out@.map_values(|x: Instr| x@) + rest =~= rest);
            },
            Result::Err(_) => {},
        }
    }
    let mut i: usize = 0;
    while i < lines.len()
        invariant
            i <= lines@.len(),
            lv == lines@.map_values(|l: String| l@),
            decode_lines_spec(lv) == (match decode_lines_spec(lv.skip(i as int)) {
                Result::Ok(rest) => Result::Ok(out@.map_values(|x: Instr| x@) + rest),
                Result::Err(e) => Result::Err::<Seq<InstrM>, ErrM>(e),
            }),
        decreases lines@.len() - i,
    {
        let line: &String = &lines[i];
        proof {
            assert(lv.skip(i as int).len() > 0);
            assert(lv.skip(i as int)[0] == lv[i as int]);
            assert(lv.skip(i as int).drop_first() =~= lv.skip(i as int + 1));
        }
        match decode_line(line.as_str()) {
            Result::Err(e) => {
                return Result::Err(e);
            },
            Result::Ok(instr) => {
                let ghost prev = out@.map_values(|x: Instr| x@);
                let ghost iv = instr@;
                out.push(instr);
                proof {
                    assert(out@.map_values(|x: Instr| x@) =~= prev + seq![iv]);
                    match decode_lines_spec(lv.skip(i as int + 1)) {
                        Result::Ok(rest) => {
                            assert(prev + (seq![iv] + rest) =~= (prev + seq![iv]) + rest);
                        },
                        Result::Err(_) => {},
                    }
                }
            },
        }
        i += 1;
    }
    proof {
        assert(lv.skip(lv.len() as int) =~= Seq::<Seq<char>>::empty());
        assert(out@.map_values(|x: Instr| x@) + Seq::<InstrM>::empty() =~= out@.map_values(
            |x: Instr| x@,
        ));
    }
    Result::Ok(out)
}

/// Builds a named program from its script lines.
pub fn make_program(name: String, lines: &Vec<String>) -> (r: Result<Program, SimError>)
    ensures
        ({
            match r {
                Result::Ok(p) => decode_lines_spec(lines@.map_values(|l: String| l@)) matches
                    Result::Ok(b) && p@ == (ProgramM { name: name@, body: b }),
                Result::Err(e) => decode_lines_spec(lines@.map_values(|l: String| l@)) == Result::Err::<
                    Seq<InstrM>,
                    ErrM,
                >(e@),
            }
        }),
{
    match decode_script(lines) {
        Result::Ok(body) => Result::Ok(Program { name, body }),
        Result::Err(e) => Result::Err(e),
    }
}

/// The body of the first program of the table named `name`, if any.
pub open spec fn lookup_spec(ps: Seq<ProgramM>, name: Seq<char>) -> Option<Seq<InstrM>>
    decreases ps.len(),
{
    if ps.len() == 0 {
        Option::None
    } else if ps[0].name == name {
        Option::Some(ps[0].body)
    } else {
        lookup_spec(ps.drop_first(), name)
    }
}

/// Looks a program up by name and hands back a copy of its body.
pub fn lookup_program(programs: &Vec<Program>, name: &str) -> (r: Option<Vec<Instr>>)
    ensures
        ({
            let s = lookup_spec(programs@.map_values(|p: Program| p@), name@);
            match r {
                Option::Some(b) => s == Option::Some(b@.map_values(|i: Instr| i@)),
                Option::None => s is None,
            }
        }),
{
    let ghost pv = programs@.map_values(|p: Program| p@);
    proof {
        assert(pv.skip(0) =~= pv);
    }
    let mut i: usize = 0;
    while i < programs.len()
        invariant
            i <= programs@.len(),
            pv == programs@.map_values(|p: Program| p@),
            lookup_spec(pv, name@) == lookup_spec(pv.skip(i as int), name@),
        decreases programs@.len() - i,
    {
        proof {
            assert(pv.skip(i as int).len() > 0);
            assert(pv.skip(i as int)[0] == pv[i as int]);
            assert(pv.skip(i as int).drop_first() =~= pv.skip(i as int + 1));
        }
        if str_eq(programs[i].name.as_str(), name) {
            let body = clone_body(&programs[i].body);
            return Option::Some(body);
        }
        i += 1;
    }
    proof {
        assert(pv.skip(pv.len() as int) =~= Seq::<ProgramM>::empty());
    }
    Option::None
}

/// Copies an instruction sequence.
fn clone_body(body: &Vec<Instr>) -> (r: Vec<Instr>)
    ensures
        r@.map_values(|i: Instr| i@) == body@.map_values(|i: Instr| i@),
{
    let mut out: Vec<Instr> = Vec::new();
    let mut i: usize = 0;
    while i < body.len()
        invariant
            i <= body@.len(),
            out@.len() == i as nat,
            forall|j: int| 0 <= j < i ==> #[trigger] out@[j]@ == body@[j]@,
        decreases body@.len() - i,
    {
        out.push(body[i].clone());
        i += 1;
    }
    proof {
        assert(out@.map_values(|i: Instr| i@) =~= body@.map_values(|i: Instr| i@));
    }
    out
}

} // verus!
