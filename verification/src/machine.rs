//! The runtime state of one program run — the integer stack, the input line
//! queue, the output buffer and the environment table — and the mathematical
//! step each built-in word takes on it.

use vstd::prelude::*;
use crate::text::{int_literal_value, signed_dec_rep, trimmed};

verus! {

/// A runtime fault. Every fault ends the run at once; none is recovered.
#[derive(PartialEq, Eq, Structural, Clone, Copy, Debug)]
pub enum Fault {
    /// A word popped or peeked an empty stack.
    StackUnderflow,
    /// `/` or `%` with a zero divisor.
    DivideByZero,
    /// An arithmetic result outside the signed 64-bit range.
    Overflow,
    /// A word token matching no built-in word.
    UnknownWord,
    /// An `if` with no matching `fi` before the end of the input.
    UnclosedIf,
    /// A `while` with no `end` before the end of the input.
    UnclosedWhile,
    /// A character token with no payload character.
    EmptyCharacter,
    /// An integer token or scanned line that is no 64-bit integer.
    BadInt,
    /// A character code to be emitted or collected that is no unsigned byte.
    ByteRange,
    /// An environment variable that is not in the table.
    MissingEnv,
    /// A scan word with no input line left.
    NoInput,
}

/// Why a run stopped early: a fault, or the step budget ran out before the
/// program did (the budget makes every run finite, so a program that loops
/// forever is told apart from one that completes).
#[derive(PartialEq, Eq, Structural, Clone, Copy, Debug)]
pub enum Stop {
    Fail(Fault),
    OutOfSteps,
}

/// The model of the runtime state.
#[verifier::ext_equal]
pub ghost struct Model {
    /// The value stack, top at the end.
    pub stack: Seq<i64>,
    /// Every input line the run may read, in order, without terminators.
    pub lines: Seq<Seq<char>>,
    /// How many input lines have been consumed.
    pub next_line: int,
    /// Every character emitted so far, in order.
    pub out: Seq<char>,
    /// The environment: name-value pairs, looked up by first match.
    pub env: Seq<(Seq<char>, Seq<char>)>,
}

/// The runtime state of one run. The evaluator owns it exclusively; input and
/// output are explicit so that a run is a pure function of its fields.
pub struct Machine {
    pub stack: Vec<i64>,
    pub lines: Vec<Vec<char>>,
    pub next_line: usize,
    pub out: Vec<char>,
    pub env: Vec<(Vec<char>, Vec<char>)>,
}

impl View for Machine {
    type V = Model;

    open spec fn view(&self) -> Model {
        Model {
            stack: self.stack@,
            lines: self.lines@.map_values(|l: Vec<char>| l@),
            next_line: self.next_line as int,
            out: self.out@,
            env: self.env@.map_values(|p: (Vec<char>, Vec<char>)| (p.0@, p.1@)),
        }
    }
}

impl Machine {
    /// A fresh state: empty stack, nothing emitted, no line consumed.
    pub fn new(lines: Vec<Vec<char>>, env: Vec<(Vec<char>, Vec<char>)>) -> (r: Machine)
        ensures
            r@.stack == Seq::<i64>::empty(),
            r@.out == Seq::<char>::empty(),
            r@.next_line == 0,
            r@.lines == lines@.map_values(|l: Vec<char>| l@),
            r@.env == env@.map_values(|p: (Vec<char>, Vec<char>)| (p.0@, p.1@)),
    {
        Machine { stack: Vec::new(), lines, next_line: 0, out: Vec::new(), env }
    }
}

/// The state a step leaves behind, and its fault if it raised one.
#[verifier::ext_equal]
pub ghost struct StepRes {
    pub m: Model,
    pub fault: Option<Fault>,
}

/// The words that pop two values and push one.
pub open spec fn is_binary_word(w: Seq<char>) -> bool {
    ||| w == "+"@
    ||| w == "-"@
    ||| w == "*"@
    ||| w == "/"@
    ||| w == "%"@
    ||| w == "=="@
    ||| w == "!="@
    ||| w == "<"@
    ||| w == ">"@
    ||| w == "<="@
    ||| w == ">="@
}

/// The two structural words; their effect depends on the whole token sequence,
/// not on the stack alone.
pub open spec fn is_control_word(w: Seq<char>) -> bool {
    w == "if"@ || w == "while"@
}

/// A value that fits an unsigned byte, as `putchar`, `putstring` and the
/// `env` key collection demand.
pub open spec fn byte_ok(v: i64) -> bool {
    0 <= v <= 255
}

/// The character whose code is a byte-ranged stack value.
pub open spec fn byte_char(v: i64) -> char {
    ((v as u32) as char)
}

/// A string on the stack: a `0` sentinel, then the characters' codes in
/// reverse order, so that popping yields the characters first to last.
pub open spec fn string_push(st: Seq<i64>, s: Seq<char>) -> Seq<i64> {
    st.push(0) + s.reverse().map_values(|c: char| (c as u32) as i64)
}

/// What a binary word computes from the second-popped value `b` and the
/// first-popped value `a`, or the fault it raises.
pub open spec fn bin_result(w: Seq<char>, b: i64, a: i64) -> Result<i64, Fault> {
    if w == "+"@ {
        match b.checked_add(a) {
            Some(v) => Ok(v),
            None => Err(Fault::Overflow),
        }
    } else if w == "-"@ {
        match b.checked_sub(a) {
            Some(v) => Ok(v),
            None => Err(Fault::Overflow),
        }
    } else if w == "*"@ {
        match b.checked_mul(a) {
            Some(v) => Ok(v),
            None => Err(Fault::Overflow),
        }
    } else if w == "/"@ {
        if a == 0 {
            Err(Fault::DivideByZero)
        } else {
            match b.checked_div(a) {
                Some(v) => Ok(v),
                None => Err(Fault::Overflow),
            }
        }
    } else if w == "%"@ {
        if a == 0 {
            Err(Fault::DivideByZero)
        } else {
            match b.checked_rem_euclid(a) {
                Some(v) => Ok(v),
                None => Err(Fault::Overflow),
            }
        }
    } else if w == "=="@ {
        Ok(if b == a { 1 } else { 0 })
    } else if w == "!="@ {
        Ok(if b != a { 1 } else { 0 })
    } else if w == "<"@ {
        Ok(if b < a { 1 } else { 0 })
    } else if w == ">"@ {
        Ok(if b > a { 1 } else { 0 })
    } else if w == "<="@ {
        Ok(if b <= a { 1 } else { 0 })
    } else {
        Ok(if b >= a { 1 } else { 0 })
    }
}

/// `putstring`'s walk down the stack: pop and emit byte-ranged characters
/// until a `0` sentinel is popped and discarded; an empty stack or a value
/// outside the byte range is a fault, raised after the pops before it took
/// effect.
pub open spec fn put_walk(m: Model) -> StepRes
    decreases m.stack.len(),
{
    if m.stack.len() == 0 {
        StepRes { m, fault: Some(Fault::StackUnderflow) }
    } else {
        let v = m.stack.last();
        let popped = Model { stack: m.stack.drop_last(), ..m };
        if v == 0 {
            StepRes { m: popped, fault: None }
        } else if byte_ok(v) {
            put_walk(Model { out: popped.out.push(byte_char(v)), ..popped })
        } else {
            StepRes { m: popped, fault: Some(Fault::ByteRange) }
        }
    }
}

/// The state and collected name after `env` has popped the key characters:
/// values are popped and collected until a `0` is on top, which stays.
#[verifier::ext_equal]
pub ghost struct KeyWalk {
    pub m: Model,
    pub key: Seq<char>,
    pub fault: Option<Fault>,
}

/// `env`'s key collection, top of the stack first.
pub open spec fn env_walk(m: Model, key: Seq<char>) -> KeyWalk
    decreases m.stack.len(),
{
    if m.stack.len() == 0 {
        KeyWalk { m, key, fault: Some(Fault::StackUnderflow) }
    } else if m.stack.last() == 0 {
        KeyWalk { m, key, fault: None }
    } else {
        let v = m.stack.last();
        let popped = Model { stack: m.stack.drop_last(), ..m };
        if byte_ok(v) {
            env_walk(popped, key.push(byte_char(v)))
        } else {
            KeyWalk { m: popped, key, fault: Some(Fault::ByteRange) }
        }
    }
}

/// The value of the first table entry whose name is `key`.
pub open spec fn env_lookup(env: Seq<(Seq<char>, Seq<char>)>, key: Seq<char>) -> Option<Seq<char>>
    decreases env.len(),
{
    if env.len() == 0 {
        None
    } else if env[0].0 == key {
        Some(env[0].1)
    } else {
        env_lookup(env.skip(1), key)
    }
}

/// One step of a built-in word that is not `if` or `while`; a word matching
/// nothing is the `UnknownWord` fault. This is the exact contract of the
/// evaluator's dispatch for such words.
pub open spec fn simple_step(w: Seq<char>, m: Model) -> StepRes {
    if is_binary_word(w) {
        if m.stack.len() == 0 {
            StepRes { m, fault: Some(Fault::StackUnderflow) }
        } else if m.stack.len() == 1 {
            StepRes { m: Model { stack: m.stack.drop_last(), ..m }, fault: Some(Fault::StackUnderflow) }
        } else {
            let a = m.stack.last();
            let b = m.stack.drop_last().last();
            let rest = m.stack.drop_last().drop_last();
            match bin_result(w, b, a) {
                Ok(v) => StepRes { m: Model { stack: rest.push(v), ..m }, fault: None },
                Err(f) => StepRes { m: Model { stack: rest, ..m }, fault: Some(f) },
            }
        }
    } else if w == "pop"@ {
        if m.stack.len() == 0 {
            StepRes { m, fault: Some(Fault::StackUnderflow) }
        } else {
            StepRes { m: Model { stack: m.stack.drop_last(), ..m }, fault: None }
        }
    } else if w == "clone"@ {
        if m.stack.len() == 0 {
            StepRes { m, fault: Some(Fault::StackUnderflow) }
        } else {
            StepRes { m: Model { stack: m.stack.push(m.stack.last()), ..m }, fault: None }
        }
    } else if w == "printint"@ {
        if m.stack.len() == 0 {
            StepRes { m, fault: Some(Fault::StackUnderflow) }
        } else {
            StepRes {
                m: Model { out: m.out + signed_dec_rep(m.stack.last() as int), ..m },
                fault: None,
            }
        }
    } else if w == "putchar"@ {
        if m.stack.len() == 0 {
            StepRes { m, fault: Some(Fault::StackUnderflow) }
        } else {
            let v = m.stack.last();
            let popped = Model { stack: m.stack.drop_last(), ..m };
            if byte_ok(v) {
                StepRes { m: Model { out: popped.out.push(byte_char(v)), ..popped }, fault: None }
            } else {
                StepRes { m: popped, fault: Some(Fault::ByteRange) }
            }
        }
    } else if w == "putstring"@ {
        put_walk(m)
    } else if w == "env"@ {
        let kw = env_walk(m, Seq::empty());
        if kw.fault is Some {
            StepRes { m: kw.m, fault: kw.fault }
        } else {
            match env_lookup(m.env, kw.key) {
                Some(value) => StepRes {
                    m: Model { stack: string_push(kw.m.stack, value), ..kw.m },
                    fault: None,
                },
                None => StepRes { m: kw.m, fault: Some(Fault::MissingEnv) },
            }
        }
    } else if w == "scanint"@ {
        if m.next_line >= m.lines.len() {
            StepRes { m, fault: Some(Fault::NoInput) }
        } else {
            let taken = Model { next_line: m.next_line + 1, ..m };
            match int_literal_value(trimmed(m.lines[m.next_line])) {
                Some(v) => StepRes { m: Model { stack: m.stack.push(v), ..taken }, fault: None },
                None => StepRes { m: taken, fault: Some(Fault::BadInt) },
            }
        }
    } else if w == "scanstring"@ {
        if m.next_line >= m.lines.len() {
            StepRes { m, fault: Some(Fault::NoInput) }
        } else {
            StepRes {
                m: Model {
                    stack: string_push(m.stack, m.lines[m.next_line]),
                    next_line: m.next_line + 1,
                    ..m
                },
                fault: None,
            }
        }
    } else if w == "fi"@ || w == "else"@ || w == "end"@ {
        StepRes { m, fault: None }
    } else {
        StepRes { m, fault: Some(Fault::UnknownWord) }
    }
}

/// The spellings of the built-in words are pairwise distinct, none of the
/// other words is a binary word, and only `if` and `while` are control
/// words.
pub proof fn lemma_distinct_builtins()
    ensures
        !is_control_word("+"@),
        !is_control_word("-"@),
        !is_control_word("*"@),
        !is_control_word("/"@),
        !is_control_word("%"@),
        !is_control_word("=="@),
        !is_control_word("!="@),
        !is_control_word("<"@),
        !is_control_word(">"@),
        !is_control_word("<="@),
        !is_control_word(">="@),
        !is_binary_word("pop"@),
        !is_control_word("pop"@),
        !is_binary_word("clone"@),
        !is_control_word("clone"@),
        !is_binary_word("printint"@),
        !is_control_word("printint"@),
        !is_binary_word("putchar"@),
        !is_control_word("putchar"@),
        !is_binary_word("putstring"@),
        !is_control_word("putstring"@),
        !is_binary_word("env"@),
        !is_control_word("env"@),
        !is_binary_word("scanint"@),
        !is_control_word("scanint"@),
        !is_binary_word("scanstring"@),
        !is_control_word("scanstring"@),
        !is_binary_word("fi"@),
        !is_control_word("fi"@),
        !is_binary_word("else"@),
        !is_control_word("else"@),
        !is_binary_word("end"@),
        !is_control_word("end"@),
        !is_binary_word("if"@),
        !is_binary_word("while"@),
        "+"@ != "-"@,
        "+"@ != "*"@,
        "+"@ != "/"@,
        "+"@ != "%"@,
        "+"@ != "=="@,
        "+"@ != "!="@,
        "+"@ != "<"@,
        "+"@ != ">"@,
        "+"@ != "<="@,
        "+"@ != ">="@,
        "+"@ != "pop"@,
        "+"@ != "clone"@,
        "+"@ != "printint"@,
        "+"@ != "putchar"@,
        "+"@ != "putstring"@,
        "+"@ != "env"@,
        "+"@ != "scanint"@,
        "+"@ != "scanstring"@,
        "+"@ != "fi"@,
        "+"@ != "else"@,
        "+"@ != "end"@,
        "+"@ != "if"@,
        "+"@ != "while"@,
        "-"@ != "*"@,
        "-"@ != "/"@,
        "-"@ != "%"@,
        "-"@ != "=="@,
        "-"@ != "!="@,
        "-"@ != "<"@,
        "-"@ != ">"@,
        "-"@ != "<="@,
        "-"@ != ">="@,
        "-"@ != "pop"@,
        "-"@ != "clone"@,
        "-"@ != "printint"@,
        "-"@ != "putchar"@,
        "-"@ != "putstring"@,
        "-"@ != "env"@,
        "-"@ != "scanint"@,
        "-"@ != "scanstring"@,
        "-"@ != "fi"@,
        "-"@ != "else"@,
        "-"@ != "end"@,
        "-"@ != "if"@,
        "-"@ != "while"@,
        "*"@ != "/"@,
        "*"@ != "%"@,
        "*"@ != "=="@,
        "*"@ != "!="@,
        "*"@ != "<"@,
        "*"@ != ">"@,
        "*"@ != "<="@,
        "*"@ != ">="@,
        "*"@ != "pop"@,
        "*"@ != "clone"@,
        "*"@ != "printint"@,
        "*"@ != "putchar"@,
        "*"@ != "putstring"@,
        "*"@ != "env"@,
        "*"@ != "scanint"@,
        "*"@ != "scanstring"@,
        "*"@ != "fi"@,
        "*"@ != "else"@,
        "*"@ != "end"@,
        "*"@ != "if"@,
        "*"@ != "while"@,
        "/"@ != "%"@,
        "/"@ != "=="@,
        "/"@ != "!="@,
        "/"@ != "<"@,
        "/"@ != ">"@,
        "/"@ != "<="@,
        "/"@ != ">="@,
        "/"@ != "pop"@,
        "/"@ != "clone"@,
        "/"@ != "printint"@,
        "/"@ != "putchar"@,
        "/"@ != "putstring"@,
        "/"@ != "env"@,
        "/"@ != "scanint"@,
        "/"@ != "scanstring"@,
        "/"@ != "fi"@,
        "/"@ != "else"@,
        "/"@ != "end"@,
        "/"@ != "if"@,
        "/"@ != "while"@,
        "%"@ != "=="@,
        "%"@ != "!="@,
        "%"@ != "<"@,
        "%"@ != ">"@,
        "%"@ != "<="@,
        "%"@ != ">="@,
        "%"@ != "pop"@,
        "%"@ != "clone"@,
        "%"@ != "printint"@,
        "%"@ != "putchar"@,
        "%"@ != "putstring"@,
        "%"@ != "env"@,
        "%"@ != "scanint"@,
        "%"@ != "scanstring"@,
        "%"@ != "fi"@,
        "%"@ != "else"@,
        "%"@ != "end"@,
        "%"@ != "if"@,
        "%"@ != "while"@,
        "=="@ != "!="@,
        "=="@ != "<"@,
        "=="@ != ">"@,
        "=="@ != "<="@,
        "=="@ != ">="@,
        "=="@ != "pop"@,
        "=="@ != "clone"@,
        "=="@ != "printint"@,
        "=="@ != "putchar"@,
        "=="@ != "putstring"@,
        "=="@ != "env"@,
        "=="@ != "scanint"@,
        "=="@ != "scanstring"@,
        "=="@ != "fi"@,
        "=="@ != "else"@,
        "=="@ != "end"@,
        "=="@ != "if"@,
        "=="@ != "while"@,
        "!="@ != "<"@,
        "!="@ != ">"@,
        "!="@ != "<="@,
        "!="@ != ">="@,
        "!="@ != "pop"@,
        "!="@ != "clone"@,
        "!="@ != "printint"@,
        "!="@ != "putchar"@,
        "!="@ != "putstring"@,
        "!="@ != "env"@,
        "!="@ != "scanint"@,
        "!="@ != "scanstring"@,
        "!="@ != "fi"@,
        "!="@ != "else"@,
        "!="@ != "end"@,
        "!="@ != "if"@,
        "!="@ != "while"@,
        "<"@ != ">"@,
        "<"@ != "<="@,
        "<"@ != ">="@,
        "<"@ != "pop"@,
        "<"@ != "clone"@,
        "<"@ != "printint"@,
        "<"@ != "putchar"@,
        "<"@ != "putstring"@,
        "<"@ != "env"@,
        "<"@ != "scanint"@,
        "<"@ != "scanstring"@,
        "<"@ != "fi"@,
        "<"@ != "else"@,
        "<"@ != "end"@,
        "<"@ != "if"@,
        "<"@ != "while"@,
        ">"@ != "<="@,
        ">"@ != ">="@,
        ">"@ != "pop"@,
        ">"@ != "clone"@,
        ">"@ != "printint"@,
        ">"@ != "putchar"@,
        ">"@ != "putstring"@,
        ">"@ != "env"@,
        ">"@ != "scanint"@,
        ">"@ != "scanstring"@,
        ">"@ != "fi"@,
        ">"@ != "else"@,
        ">"@ != "end"@,
        ">"@ != "if"@,
        ">"@ != "while"@,
        "<="@ != ">="@,
        "<="@ != "pop"@,
        "<="@ != "clone"@,
        "<="@ != "printint"@,
        "<="@ != "putchar"@,
        "<="@ != "putstring"@,
        "<="@ != "env"@,
        "<="@ != "scanint"@,
        "<="@ != "scanstring"@,
        "<="@ != "fi"@,
        "<="@ != "else"@,
        "<="@ != "end"@,
        "<="@ != "if"@,
        "<="@ != "while"@,
        ">="@ != "pop"@,
        ">="@ != "clone"@,
        ">="@ != "printint"@,
        ">="@ != "putchar"@,
        ">="@ != "putstring"@,
        ">="@ != "env"@,
        ">="@ != "scanint"@,
        ">="@ != "scanstring"@,
        ">="@ != "fi"@,
        ">="@ != "else"@,
        ">="@ != "end"@,
        ">="@ != "if"@,
        ">="@ != "while"@,
        "pop"@ != "clone"@,
        "pop"@ != "printint"@,
        "pop"@ != "putchar"@,
        "pop"@ != "putstring"@,
        "pop"@ != "env"@,
        "pop"@ != "scanint"@,
        "pop"@ != "scanstring"@,
        "pop"@ != "fi"@,
        "pop"@ != "else"@,
        "pop"@ != "end"@,
        "pop"@ != "if"@,
        "pop"@ != "while"@,
        "clone"@ != "printint"@,
        "clone"@ != "putchar"@,
        "clone"@ != "putstring"@,
        "clone"@ != "env"@,
        "clone"@ != "scanint"@,
        "clone"@ != "scanstring"@,
        "clone"@ != "fi"@,
        "clone"@ != "else"@,
        "clone"@ != "end"@,
        "clone"@ != "if"@,
        "clone"@ != "while"@,
        "printint"@ != "putchar"@,
        "printint"@ != "putstring"@,
        "printint"@ != "env"@,
        "printint"@ != "scanint"@,
        "printint"@ != "scanstring"@,
        "printint"@ != "fi"@,
        "printint"@ != "else"@,
        "printint"@ != "end"@,
        "printint"@ != "if"@,
        "printint"@ != "while"@,
        "putchar"@ != "putstring"@,
        "putchar"@ != "env"@,
        "putchar"@ != "scanint"@,
        "putchar"@ != "scanstring"@,
        "putchar"@ != "fi"@,
        "putchar"@ != "else"@,
        "putchar"@ != "end"@,
        "putchar"@ != "if"@,
        "putchar"@ != "while"@,
        "putstring"@ != "env"@,
        "putstring"@ != "scanint"@,
        "putstring"@ != "scanstring"@,
        "putstring"@ != "fi"@,
        "putstring"@ != "else"@,
        "putstring"@ != "end"@,
        "putstring"@ != "if"@,
        "putstring"@ != "while"@,
        "env"@ != "scanint"@,
        "env"@ != "scanstring"@,
        "env"@ != "fi"@,
        "env"@ != "else"@,
        "env"@ != "end"@,
        "env"@ != "if"@,
        "env"@ != "while"@,
        "scanint"@ != "scanstring"@,
        "scanint"@ != "fi"@,
        "scanint"@ != "else"@,
        "scanint"@ != "end"@,
        "scanint"@ != "if"@,
        "scanint"@ != "while"@,
        "scanstring"@ != "fi"@,
        "scanstring"@ != "else"@,
        "scanstring"@ != "end"@,
        "scanstring"@ != "if"@,
        "scanstring"@ != "while"@,
        "fi"@ != "else"@,
        "fi"@ != "end"@,
        "fi"@ != "if"@,
        "fi"@ != "while"@,
        "else"@ != "end"@,
        "else"@ != "if"@,
        "else"@ != "while"@,
        "end"@ != "if"@,
        "end"@ != "while"@,
        "if"@ != "while"@,
{
    reveal_strlit("+");
    reveal_strlit("-");
    reveal_strlit("*");
    reveal_strlit("/");
    reveal_strlit("%");
    reveal_strlit("==");
    reveal_strlit("!=");
    reveal_strlit("<");
    reveal_strlit(">");
    reveal_strlit("<=");
    reveal_strlit(">=");
    reveal_strlit("pop");
    reveal_strlit("clone");
    reveal_strlit("printint");
    reveal_strlit("putchar");
    reveal_strlit("putstring");
    reveal_strlit("env");
    reveal_strlit("scanint");
    reveal_strlit("scanstring");
    reveal_strlit("fi");
    reveal_strlit("else");
    reveal_strlit("end");
    reveal_strlit("if");
    reveal_strlit("while");
    assert("+"@.len() == 1);
    assert("-"@.len() == 1);
    assert("*"@.len() == 1);
    assert("/"@.len() == 1);
    assert("%"@.len() == 1);
    assert("=="@.len() == 2);
    assert("!="@.len() == 2);
    assert("<"@.len() == 1);
    assert(">"@.len() == 1);
    assert("<="@.len() == 2);
    assert(">="@.len() == 2);
    assert("pop"@.len() == 3);
    assert("clone"@.len() == 5);
    assert("printint"@.len() == 8);
    assert("putchar"@.len() == 7);
    assert("putstring"@.len() == 9);
    assert("env"@.len() == 3);
    assert("scanint"@.len() == 7);
    assert("scanstring"@.len() == 10);
    assert("fi"@.len() == 2);
    assert("else"@.len() == 4);
    assert("end"@.len() == 3);
    assert("if"@.len() == 2);
    assert("while"@.len() == 5);
    assert("+"@[0] == '+');
    assert("-"@[0] == '-');
    assert("*"@[0] == '*');
    assert("/"@[0] == '/');
    assert("%"@[0] == '%');
    assert("=="@[0] == '=');
    assert("!="@[0] == '!');
    assert("<"@[0] == '<');
    assert(">"@[0] == '>');
    assert("<="@[0] == '<');
    assert(">="@[0] == '>');
    assert("pop"@[0] == 'p');
    assert("clone"@[0] == 'c');
    assert("printint"@[0] == 'p');
    assert("putchar"@[0] == 'p');
    assert("putstring"@[0] == 'p');
    assert("env"@[0] == 'e');
    assert("scanint"@[0] == 's');
    assert("scanstring"@[0] == 's');
    assert("fi"@[0] == 'f');
    assert("else"@[0] == 'e');
    assert("end"@[0] == 'e');
    assert("if"@[0] == 'i');
    assert("while"@[0] == 'w');
    assert("env"@[2] == 'v');
    assert("end"@[2] == 'd');
}

} // verus!
