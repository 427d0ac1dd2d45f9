use vstd::prelude::*;
use vstd::string::*;
use crate::ast::{in_i32, SimulationError};
use crate::machine::{execute, initial_state, step, steps, Instruction, State};
use crate::parser::{digits_value, is_digit, is_digit_char, lemma_run_end_at, run_end};

verus! {

pub open spec fn digit_char(d: nat) -> char {
    if d == 0 {
        '0'
    } else if d == 1 {
        '1'
    } else if d == 2 {
        '2'
    } else if d == 3 {
        '3'
    } else if d == 4 {
        '4'
    } else if d == 5 {
        '5'
    } else if d == 6 {
        '6'
    } else if d == 7 {
        '7'
    } else if d == 8 {
        '8'
    } else {
        '9'
    }
}

/// Decimal digits of `n`, most significant first, without leading zeros.
pub open spec fn digits_text(n: nat) -> Seq<char>
    decreases n,
{
    if n < 10 {
        seq![digit_char(n)]
    } else {
        digits_text(n / 10).push(digit_char(n % 10))
    }
}

/// Decimal text of an integer, with a leading `-` when it is negative.
pub open spec fn int_text(v: int) -> Seq<char> {
    if v < 0 {
        seq!['-'] + digits_text((-v) as nat)
    } else {
        digits_text(v as nat)
    }
}

/// The two-letter mnemonic of an instruction.
pub open spec fn mnemonic(ins: Instruction) -> Seq<char> {
    match ins {
        Instruction::LoadImmediate(_) => seq!['I', 'M'],
        Instruction::LoadArgument(_) => seq!['A', 'R'],
        Instruction::Swap => seq!['S', 'W'],
        Instruction::Push => seq!['P', 'U'],
        Instruction::Pop => seq!['P', 'O'],
        Instruction::Add => seq!['A', 'D'],
        Instruction::Subtract => seq!['S', 'U'],
        Instruction::Multiply => seq!['M', 'U'],
        Instruction::Divide => seq!['D', 'I'],
    }
}

/// One line of text: the mnemonic, then a space and the operand where there is one.
pub open spec fn line_text(ins: Instruction) -> Seq<char> {
    match ins {
        Instruction::LoadImmediate(v) => mnemonic(ins) + seq![' '] + int_text(v as int),
        Instruction::LoadArgument(v) => mnemonic(ins) + seq![' '] + int_text(v as int),
        _ => mnemonic(ins),
    }
}

/// Text of a program: its lines joined by newlines.
pub open spec fn program_text(p: Seq<Instruction>) -> Seq<char>
    decreases p.len(),
{
    if p.len() == 0 {
        Seq::empty()
    } else if p.len() == 1 {
        line_text(p[0])
    } else {
        line_text(p[0]) + seq!['\n'] + program_text(p.drop_first())
    }
}

/// The instruction without operand that a mnemonic names.
pub open spec fn plain_instruction(a: char, b: char) -> Option<Instruction> {
    if a == 'S' && b == 'W' {
        Some(Instruction::Swap)
    } else if a == 'P' && b == 'U' {
        Some(Instruction::Push)
    } else if a == 'P' && b == 'O' {
        Some(Instruction::Pop)
    } else if a == 'A' && b == 'D' {
        Some(Instruction::Add)
    } else if a == 'S' && b == 'U' {
        Some(Instruction::Subtract)
    } else if a == 'M' && b == 'U' {
        Some(Instruction::Multiply)
    } else if a == 'D' && b == 'I' {
        Some(Instruction::Divide)
    } else {
        None
    }
}

/// The instruction with operand `v` that a mnemonic names.
pub open spec fn operand_instruction(a: char, b: char, v: i32) -> Option<Instruction> {
    if a == 'I' && b == 'M' {
        Some(Instruction::LoadImmediate(v))
    } else if a == 'A' && b == 'R' {
        Some(Instruction::LoadArgument(v))
    } else {
        None
    }
}

/// The instruction that `s` starts with, and where its line's text ends.
pub open spec fn read_line(s: Seq<char>) -> Option<(Instruction, int)> {
    if s.len() < 2 {
        None
    } else if plain_instruction(s[0], s[1]) is Some {
        Some((plain_instruction(s[0], s[1])->0, 2))
    } else if operand_instruction(s[0], s[1], 0) is None || s.len() < 4 || s[2] != ' ' {
        None
    } else {
        let start: int = if s[3] == '-' {
            4
        } else {
            3
        };
        let k = run_end(s, start, false);
        let mag = digits_value(s.subrange(start, k)) as int;
        let v = if s[3] == '-' {
            -mag
        } else {
            mag
        };
        if k <= start || !in_i32(v) {
            None
        } else {
            Some((operand_instruction(s[0], s[1], v as i32)->0, k))
        }
    }
}

/// The program a text holds: one instruction per line; a final newline is allowed.
pub open spec fn decode(s: Seq<char>) -> Result<Seq<Instruction>, SimulationError>
    decreases s.len(),
{
    if s.len() == 0 {
        Ok(Seq::empty())
    } else {
        match read_line(s) {
            None => Err(SimulationError::MalformedInstruction),
            Some((ins, j)) => if j == s.len() {
                Ok(seq![ins])
            } else if 0 <= j < s.len() && s[j] == '\n' {
                match decode(s.subrange(j + 1, s.len() as int)) {
                    Ok(rest) => Ok(seq![ins] + rest),
                    Err(e) => Err(e),
                }
            } else {
                Err(SimulationError::MalformedInstruction)
            },
        }
    }
}

} // verus!

verus! {

proof fn lemma_digit_char(d: nat)
    requires
        d < 10,
    ensures
        is_digit(digit_char(d)),
        digit_char(d) as nat - '0' as nat == d,
{
}

proof fn lemma_digits_text(n: nat)
    ensures
        digits_text(n).len() >= 1,
        forall|k: int| 0 <= k < digits_text(n).len() ==> is_digit(#[trigger] digits_text(n)[k]),
        digits_value(digits_text(n)) == n,
    decreases n,
{
    if n < 10 {
        lemma_digit_char(n);
        assert(seq![digit_char(n)].drop_last() =~= Seq::<char>::empty());
        assert(digits_value(Seq::<char>::empty()) == 0);
    } else {
        lemma_digits_text(n / 10);
        lemma_digit_char(n % 10);
        let d = digits_text(n / 10);
        assert(d.push(digit_char(n % 10)).drop_last() =~= d);
        assert(d.push(digit_char(n % 10)).last() == digit_char(n % 10));
        assert((n / 10) * 10 + n % 10 == n) by (nonlinear_arith);
    }
}

proof fn lemma_read_line(ins: Instruction, x: Seq<char>)
    requires
        x.len() == 0 || x[0] == '\n',
    ensures
        read_line(line_text(ins) + x) == Some((ins, line_text(ins).len() as int)),
{
    let s = line_text(ins) + x;
    match ins {
        Instruction::LoadImmediate(v) => lemma_read_operand(ins, v, x),
        Instruction::LoadArgument(v) => lemma_read_operand(ins, v, x),
        _ => {
            assert(s[0] == mnemonic(ins)[0]);
            assert(s[1] == mnemonic(ins)[1]);
        },
    }
}

proof fn lemma_read_operand(ins: Instruction, v: i32, x: Seq<char>)
    requires
        x.len() == 0 || x[0] == '\n',
        ins == Instruction::LoadImmediate(v) || ins == Instruction::LoadArgument(v),
    ensures
        read_line(line_text(ins) + x) == Some((ins, line_text(ins).len() as int)),
{
    let s = line_text(ins) + x;
    let mag: nat = if v < 0 {
        (-v) as nat
    } else {
        v as nat
    };
    let d = digits_text(mag);
    lemma_digits_text(mag);
    let start: int = if v < 0 {
        4
    } else {
        3
    };
    let end = line_text(ins).len() as int;
    assert(s[0] == mnemonic(ins)[0]);
    assert(s[1] == mnemonic(ins)[1]);
    assert(s[2] == ' ');
    assert(end == start + d.len());
    assert forall|k: int| start <= k < end implies is_digit(#[trigger] s[k]) by {
        assert(s[k] == d[k - start]);
    }
    if v < 0 {
        assert(s[3] == '-');
    } else {
        assert(s[3] == d[0]);
    }
    if end < s.len() {
        assert(s[end] == x[0]);
    }
    lemma_run_end_at(s, start, end, false);
    assert(s.subrange(start, end) =~= d);
}

/// Reading back the text of a program gives the program.
#[verifier::rlimit(40)]
pub proof fn lemma_decode_program_text(p: Seq<Instruction>)
    ensures
        decode(program_text(p)) == Ok::<Seq<Instruction>, SimulationError>(p),
    decreases p.len(),
{
    if p.len() == 0 {
        assert(p =~= Seq::<Instruction>::empty());
    } else if p.len() == 1 {
        lemma_read_line(p[0], Seq::empty());
        assert(line_text(p[0]) + Seq::<char>::empty() =~= line_text(p[0]));
        assert(seq![p[0]] =~= p);
        assert(read_line(line_text(p[0])) == Some((p[0], line_text(p[0]).len() as int)));
        assert(program_text(p) == line_text(p[0]));
        assert(line_text(p[0]).len() > 0);
        assert(decode(line_text(p[0])) == Ok::<Seq<Instruction>, SimulationError>(seq![p[0]]));
    } else {
        let rest = program_text(p.drop_first());
        let x = seq!['\n'] + rest;
        lemma_read_line(p[0], x);
        let s = program_text(p);
        assert(s == line_text(p[0]) + seq!['\n'] + rest);
        assert(s =~= line_text(p[0]) + x);
        let j = line_text(p[0]).len() as int;
        assert(s[j] == '\n');
        assert(s.subrange(j + 1, s.len() as int) =~= rest);
        lemma_decode_program_text(p.drop_first());
        assert(seq![p[0]] + p.drop_first() =~= p);
        assert(read_line(s) == Some((p[0], j)));
        assert(j < s.len());
        assert(decode(s) == match decode(rest) {
            Ok(r) => Ok(seq![p[0]] + r),
            Err(e) => Err(e),
        });
        assert(decode(s) == Ok::<Seq<Instruction>, SimulationError>(p));
    }
}

} // verus!

verus! {

fn digit_str(d: u32) -> (r: &'static str)
    requires
        d < 10,
    ensures
        r@ == seq![digit_char(d as nat)],
{
    proof {
        reveal_strlit("0");
        reveal_strlit("1");
        reveal_strlit("2");
        reveal_strlit("3");
        reveal_strlit("4");
        reveal_strlit("5");
        reveal_strlit("6");
        reveal_strlit("7");
        reveal_strlit("8");
        reveal_strlit("9");
    }
    if d == 0 {
        "0"
    } else if d == 1 {
        "1"
    } else if d == 2 {
        "2"
    } else if d == 3 {
        "3"
    } else if d == 4 {
        "4"
    } else if d == 5 {
        "5"
    } else if d == 6 {
        "6"
    } else if d == 7 {
        "7"
    } else if d == 8 {
        "8"
    } else {
        "9"
    }
}

fn push_digits(out: &mut String, n: u32)
    ensures
        final(out)@ == old(out)@ + digits_text(n as nat),
    decreases n,
{
    if n >= 10 {
        push_digits(out, n / 10);
    }
    out.append(digit_str(n % 10));
    assert(final(out)@ =~= old(out)@ + digits_text(n as nat)) by {
        if n >= 10 {
            assert(old(out)@ + digits_text((n / 10) as nat) + seq![digit_char((n % 10) as nat)]
                =~= old(out)@ + digits_text(n as nat));
        }
    }
}

pub fn push_int(out: &mut String, v: i32)
    ensures
        final(out)@ == old(out)@ + int_text(v as int),
{
    if v < 0 {
        proof {
            reveal_strlit("-");
        }
        out.append("-");
        let m: u32 = (-(v as i64)) as u32;
        push_digits(out, m);
        assert(final(out)@ =~= old(out)@ + int_text(v as int));
    } else {
        push_digits(out, v as u32);
    }
}

pub fn mnemonic_str(ins: Instruction) -> (r: &'static str)
    ensures
        r@ == mnemonic(ins),
{
    proof {
        reveal_strlit("IM");
        reveal_strlit("AR");
        reveal_strlit("SW");
        reveal_strlit("PU");
        reveal_strlit("PO");
        reveal_strlit("AD");
        reveal_strlit("SU");
        reveal_strlit("MU");
        reveal_strlit("DI");
    }
    match ins {
        Instruction::LoadImmediate(_) => "IM",
        Instruction::LoadArgument(_) => "AR",
        Instruction::Swap => "SW",
        Instruction::Push => "PU",
        Instruction::Pop => "PO",
        Instruction::Add => "AD",
        Instruction::Subtract => "SU",
        Instruction::Multiply => "MU",
        Instruction::Divide => "DI",
    }
}

fn push_line(out: &mut String, ins: Instruction)
    ensures
        final(out)@ == old(out)@ + line_text(ins),
{
    out.append(mnemonic_str(ins));
    proof {
        reveal_strlit(" ");
    }
    match ins {
        Instruction::LoadImmediate(v) => {
            out.append(" ");
            push_int(out, v);
            assert(final(out)@ =~= old(out)@ + line_text(ins));
        },
        Instruction::LoadArgument(v) => {
            out.append(" ");
            push_int(out, v);
            assert(final(out)@ =~= old(out)@ + line_text(ins));
        },
        _ => {},
    }
}

proof fn lemma_program_text_push(q: Seq<Instruction>, x: Instruction)
    requires
        q.len() > 0,
    ensures
        program_text(q.push(x)) == program_text(q) + seq!['\n'] + line_text(x),
    decreases q.len(),
{
    let qx = q.push(x);
    assert(qx[0] == q[0]);
    if q.len() == 1 {
        assert(qx.drop_first() =~= seq![x]);
        assert(program_text(seq![x]) == line_text(x));
    } else {
        assert(qx.drop_first() =~= q.drop_first().push(x));
        lemma_program_text_push(q.drop_first(), x);
        assert(program_text(qx) =~= program_text(q) + seq!['\n'] + line_text(x));
    }
}

/// The text of a program, one instruction per line.
pub fn program_to_text(p: &Vec<Instruction>) -> (r: String)
    ensures
        r@ == program_text(p@),
{
    let mut out = String::new();
    let n = p.len();
    let mut i: usize = 0;
    proof {
        reveal_strlit("\n");
        assert(p@.subrange(0, 0) =~= Seq::<Instruction>::empty());
    }
    while i < n
        invariant
            n == p@.len(),
            i <= n,
            out@ == program_text(p@.subrange(0, i as int)),
        decreases n - i,
    {
        let ghost before = p@.subrange(0, i as int);
        assert(p@.subrange(0, i + 1) =~= before.push(p@[i as int]));
        proof {
            reveal_strlit("\n");
        }
        if i > 0 {
            out.append("\n");
            push_line(&mut out, p[i]);
            proof {
                lemma_program_text_push(before, p@[i as int]);
            }
        } else {
            push_line(&mut out, p[i]);
            assert(before.push(p@[i as int]) =~= seq![p@[i as int]]);
            assert(program_text(seq![p@[i as int]]) == line_text(p@[i as int]));
            assert(out@ =~= program_text(p@.subrange(0, i + 1)));
        }
        i = i + 1;
    }
    assert(p@.subrange(0, n as int) =~= p@);
    out
}

} // verus!

verus! {

fn plain(a: char, b: char) -> (r: Option<Instruction>)
    ensures
        r == plain_instruction(a, b),
{
    if a == 'S' && b == 'W' {
        Some(Instruction::Swap)
    } else if a == 'P' && b == 'U' {
        Some(Instruction::Push)
    } else if a == 'P' && b == 'O' {
        Some(Instruction::Pop)
    } else if a == 'A' && b == 'D' {
        Some(Instruction::Add)
    } else if a == 'S' && b == 'U' {
        Some(Instruction::Subtract)
    } else if a == 'M' && b == 'U' {
        Some(Instruction::Multiply)
    } else if a == 'D' && b == 'I' {
        Some(Instruction::Divide)
    } else {
        None
    }
}

fn with_operand(a: char, b: char, v: i32) -> (r: Option<Instruction>)
    ensures
        r == operand_instruction(a, b, v),
{
    if a == 'I' && b == 'M' {
        Some(Instruction::LoadImmediate(v))
    } else if a == 'A' && b == 'R' {
        Some(Instruction::LoadArgument(v))
    } else {
        None
    }
}

/// Reads the instruction that starts at `i`; gives it and the position where its text ends.
fn read_line_at(s: &str, i: usize, n: usize) -> (r: Option<(Instruction, usize)>)
    requires
        n == s@.len(),
        i < n,
    ensures
        match read_line(s@.subrange(i as int, n as int)) {
            Some((ins, k)) => r == Some((ins, (i + k) as usize)) && i < i + k <= n,
            None => r is None,
        },
{
    let ghost t = s@.subrange(i as int, n as int);
    if n - i < 2 {
        return None;
    }
    let a = s.get_char(i);
    let b = s.get_char(i + 1);
    assert(t[0] == a && t[1] == b);
    if let Some(ins) = plain(a, b) {
        return Some((ins, i + 2));
    }
    if with_operand(a, b, 0).is_none() || n - i < 4 || s.get_char(i + 2) != ' ' {
        return None;
    }
    let neg = s.get_char(i + 3) == '-';
    assert(t[3] == s@[i + 3]);
    let start: usize = if neg {
        i + 4
    } else {
        i + 3
    };
    let mut j: usize = start;
    let mut acc: u64 = 0;
    let mut over = false;
    while j < n && is_digit_char(s.get_char(j))
        invariant
            n == s@.len(),
            start <= j <= n,
            forall|k: int| start <= k < j ==> is_digit(#[trigger] s@[k]),
            over ==> digits_value(s@.subrange(start as int, j as int)) > 2147483648,
            !over ==> acc as nat == digits_value(s@.subrange(start as int, j as int)) && acc
                <= 2147483648,
        decreases n - j,
    {
        let d = s.get_char(j);
        let dv = (d as u64) - ('0' as u64);
        let ghost prev = s@.subrange(start as int, j as int);
        assert(s@.subrange(start as int, j + 1).drop_last() =~= prev);
        assert(s@.subrange(start as int, j + 1).last() == d);
        if !over {
            let next = acc * 10 + dv;
            if next > 2147483648 {
                over = true;
            } else {
                acc = next;
            }
        }
        j = j + 1;
    }
    proof {
        let ls = start - i;
        let lj = j - i;
        assert forall|k: int| ls <= k < lj implies is_digit(#[trigger] t[k]) by {
            assert(t[k] == s@[i + k]);
        }
        if lj < t.len() {
            assert(t[lj] == s@[j as int]);
        }
        lemma_run_end_at(t, ls as int, lj as int, false);
        assert(t.subrange(ls as int, lj as int) =~= s@.subrange(start as int, j as int));
    }
    if j == start || over {
        return None;
    }
    let v: i64 = if neg {
        -(acc as i64)
    } else {
        acc as i64
    };
    if v > 2147483647 {
        return None;
    }
    match with_operand(a, b, v as i32) {
        Some(ins) => Some((ins, j)),
        None => None,
    }
}

/// Reads a program from its text.
pub fn text_to_program(s: &str) -> (r: Result<Vec<Instruction>, SimulationError>)
    ensures
        match decode(s@) {
            Ok(p) => r matches Ok(v) && v@ == p,
            Err(e) => r == Err::<Vec<Instruction>, SimulationError>(e),
        },
{
    let n = s.unicode_len();
    let mut out: Vec<Instruction> = Vec::new();
    let mut i: usize = 0;
    assert(s@.subrange(0, n as int) =~= s@);
    while i < n
        invariant
            n == s@.len(),
            i <= n,
            decode(s@) == match decode(s@.subrange(i as int, n as int)) {
                Ok(rest) => Ok(out@ + rest),
                Err(e) => Err(e),
            },
        decreases n - i,
    {
        let ghost t = s@.subrange(i as int, n as int);
        let ghost before = out@;
        match read_line_at(s, i, n) {
            None => {
                return Err(SimulationError::MalformedInstruction);
            },
            Some((ins, j)) => {
                out.push(ins);
                if j == n {
                    assert(before + seq![ins] =~= out@ + Seq::<Instruction>::empty());
                    assert(s@.subrange(n as int, n as int).len() == 0);
                    i = n;
                } else if s.get_char(j) == '\n' {
                    assert(t[j - i] == s@[j as int]);
                    assert(t.subrange(j - i + 1, t.len() as int) =~= s@.subrange(j + 1, n as int));
                    proof {
                        if let Ok(rest) = decode(s@.subrange(j + 1, n as int)) {
                            assert(before + (seq![ins] + rest) =~= out@ + rest);
                        }
                    }
                    i = j + 1;
                } else {
                    assert(t[j - i] == s@[j as int]);
                    return Err(SimulationError::MalformedInstruction);
                }
            },
        }
    }
    assert(out@ + Seq::<Instruction>::empty() =~= out@);
    Ok(out)
}

} // verus!

verus! {

/// Runs a program text line by line from state `st`: each line is read and executed
/// before the next is read, so the first line that fails, by its form or by its
/// effect, gives the error.
pub open spec fn run_lines(s: Seq<char>, st: State, args: Seq<i32>) -> Result<State, SimulationError>
    decreases s.len(),
{
    if s.len() == 0 {
        Ok(st)
    } else {
        match read_line(s) {
            None => Err(SimulationError::MalformedInstruction),
            Some((ins, j)) => if j == s.len() || (0 <= j < s.len() && s[j] == '\n') {
                match step(ins, st, args) {
                    Err(e) => Err(e),
                    Ok(st2) => if j == s.len() {
                        Ok(st2)
                    } else {
                        run_lines(s.subrange(j + 1, s.len() as int), st2, args)
                    },
                }
            } else {
                Err(SimulationError::MalformedInstruction)
            },
        }
    }
}

/// On a well-formed text, running it line by line is running the program it holds.
pub proof fn lemma_run_lines_decoded(s: Seq<char>, st: State, args: Seq<i32>)
    ensures
        decode(s) matches Ok(p) ==> run_lines(s, st, args) == steps(p, st, args),
    decreases s.len(),
{
    if s.len() > 0 {
        if let Some((ins, j)) = read_line(s) {
            if let Ok(p) = decode(s) {
                assert(p[0] == ins);
                if j == s.len() {
                    assert(p =~= seq![ins]);
                    assert(p.drop_first() =~= Seq::<Instruction>::empty());
                    if let Ok(st2) = step(ins, st, args) {
                        assert(steps(p.drop_first(), st2, args) == Ok::<State, SimulationError>(st2));
                    }
                } else {
                    let rest = s.subrange(j + 1, s.len() as int);
                    let q = decode(rest)->Ok_0;
                    assert(p == seq![ins] + q);
                    assert(p.drop_first() =~= q);
                    assert(0 <= j < s.len() && s[j] == '\n');
                    if let Ok(st2) = step(ins, st, args) {
                        lemma_run_lines_decoded(rest, st2, args);
                        assert(steps(p, st, args) == steps(q, st2, args));
                    }
                }
            }
        }
    }
}

/// Reads and runs the program text `s` line by line against `args`; gives the final `r0`.
pub fn run_text(s: &str, args: &Vec<i32>) -> (r: Result<i32, SimulationError>)
    ensures
        r == match run_lines(s@, initial_state(), args@) {
            Ok(st) => Ok(st.r0),
            Err(e) => Err(e),
        },
{
    let n = s.unicode_len();
    let mut r0: i32 = 0;
    let mut r1: i32 = 0;
    let mut stack: Vec<i32> = Vec::new();
    let mut i: usize = 0;
    assert(s@.subrange(0, n as int) =~= s@);
    assert(stack@ =~= Seq::<i32>::empty());
    while i < n
        invariant
            n == s@.len(),
            i <= n,
            run_lines(s@, initial_state(), args@) == run_lines(
                s@.subrange(i as int, n as int),
                State { r0, r1, stack: stack@ },
                args@,
            ),
        decreases n - i,
    {
        let ghost t = s@.subrange(i as int, n as int);
        let (ins, j) = match read_line_at(s, i, n) {
            None => {
                return Err(SimulationError::MalformedInstruction);
            },
            Some(x) => x,
        };
        let at_end = j == n;
        if !at_end {
            assert(t[j - i] == s@[j as int]);
            if s.get_char(j) != '\n' {
                return Err(SimulationError::MalformedInstruction);
            }
        }
        match execute(ins, r0, r1, &mut stack, args) {
            Ok((a, b)) => {
                r0 = a;
                r1 = b;
            },
            Err(e) => {
                return Err(e);
            },
        }
        if at_end {
            assert(s@.subrange(n as int, n as int).len() == 0);
            i = n;
        } else {
            assert(t.subrange(j - i + 1, t.len() as int) =~= s@.subrange(j + 1, n as int));
            i = j + 1;
        }
    }
    Ok(r0)
}

} // verus!
