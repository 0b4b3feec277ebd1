//! The evaluator: walks the token sequence once, dispatching each token
//! against the runtime state, with the two structural words moving the cursor
//! over the same sequence.
//!
//! Every dispatch is pinned exactly: a token that is not `if` or `while` by
//! [`token_step`], the conditional by [`if_run`] and [`if_scan`], the loop by
//! [`while_loop`] and [`while_scan`], and a whole run, structural words
//! included, by the fold [`run_prog`]. The structural words recurse through
//! the same dispatch, so every call takes a step budget, mirrored by the
//! specification: a budget large enough never changes a program's outcome,
//! and a finite one makes every run finite, which is how a loop that never
//! ends is told apart from one that completes.

use vstd::prelude::*;
use vstd::pervasive::unreached;
use crate::token::{Token, TokenKind, TokenModel, TokenColelction};
use crate::machine::{Machine, Model, Fault, Stop, StepRes, KeyWalk, simple_step, is_binary_word,
    is_control_word, bin_result, put_walk, env_walk, env_lookup, string_push, byte_char};
use crate::text::{parse_i64, int_literal_value, is_word, trim_chars, push_i64_dec};

verus! {

/// A token whose effect depends on the stack and I/O state alone, never on
/// the rest of the token sequence.
pub open spec fn is_simple_token(t: TokenModel) -> bool {
    t.kind != TokenKind::Word || !is_control_word(t.content)
}

/// The exact effect of one simple token: an integer token parses and pushes
/// its content; a character token pushes its payload's code; a string token
/// pushes its content sentinel-first and reversed; a placeholder does
/// nothing; a word token takes its word's step.
pub open spec fn token_step(t: TokenModel, m: Model) -> StepRes {
    match t.kind {
        TokenKind::Integer => match int_literal_value(t.content) {
            Some(v) => StepRes { m: Model { stack: m.stack.push(v), ..m }, fault: None },
            None => StepRes { m, fault: Some(Fault::BadInt) },
        },
        TokenKind::Character => if t.content.len() == 0 {
            StepRes { m, fault: Some(Fault::EmptyCharacter) }
        } else {
            StepRes { m: Model { stack: m.stack.push(((t.content[0] as u32) as i64)), ..m }, fault: None }
        },
        TokenKind::Text => StepRes {
            m: Model { stack: string_push(m.stack, t.content), ..m },
            fault: None,
        },
        TokenKind::Word => simple_step(t.content, m),
        TokenKind::Empty => StepRes { m, fault: None },
    }
}

/// The models of a vector of tokens.
pub open spec fn token_views(ts: Seq<Token>) -> Seq<TokenModel> {
    ts.map_values(|t: Token| t@)
}

/// The outcome of one dispatch or of a whole run: the machine left behind,
/// the cursor position, and `None` for normal completion or the reason the
/// run stopped early.
#[verifier::ext_equal]
pub ghost struct EvalRes {
    pub m: Model,
    pub ptr: int,
    pub stop: Option<Stop>,
}

/// Dispatching the token at `i`, with a step budget for the structural
/// words: a simple token takes exactly its `token_step` and leaves the
/// cursor in place; `if` and `while` scan the sequence as `if_run` and
/// `while_loop` state.
pub open spec fn step_token(toks: Seq<TokenModel>, i: int, m: Model, fuel: nat) -> EvalRes
    decreases fuel, 4int,
{
    let t = toks[i];
    if is_simple_token(t) {
        let s = token_step(t, m);
        EvalRes {
            m: s.m,
            ptr: i,
            stop: match s.fault {
                Some(f) => Some(Stop::Fail(f)),
                None => None,
            },
        }
    } else if t.content == "if"@ {
        if_run(toks, i, m, fuel)
    } else {
        while_loop(toks, i, m, fuel)
    }
}

/// A conditional whose `if` token stands at `i`: peeks the condition — an
/// empty stack is the underflow fault — and scans from the next token.
pub open spec fn if_run(toks: Seq<TokenModel>, i: int, m: Model, fuel: nat) -> EvalRes
    decreases fuel, 3int,
{
    if m.stack.len() == 0 {
        EvalRes { m, ptr: i, stop: Some(Stop::Fail(Fault::StackUnderflow)) }
    } else {
        if_scan(toks, i + 1, m, m.stack.last() != 0, false, 0, fuel)
    }
}

/// The conditional's scan, one token per step of budget. While evaluating —
/// a true condition before the unnested `else`, or a false one after it —
/// each token is dispatched, a nested block being consumed whole by its own
/// dispatch, until the matching `fi`, where the cursor stays, or the
/// unnested `else`, which flips to skipping. While skipping, nesting is
/// counted: `if` raises it, `fi` lowers it, and an unnested `fi` or `else`
/// ends the scan or flips it. Running past the input is the `UnclosedIf`
/// fault.
pub open spec fn if_scan(
    toks: Seq<TokenModel>,
    i: int,
    m: Model,
    truthy: bool,
    seen_else: bool,
    unclosed: int,
    f: nat,
) -> EvalRes
    decreases f, 1int,
{
    if i >= toks.len() {
        EvalRes { m, ptr: i, stop: Some(Stop::Fail(Fault::UnclosedIf)) }
    } else if f == 0 {
        EvalRes { m, ptr: i, stop: Some(Stop::OutOfSteps) }
    } else {
        let c = toks[i].content;
        if (truthy && !seen_else) || (!truthy && seen_else) {
            if c == "fi"@ {
                EvalRes { m, ptr: i, stop: None }
            } else if c == "else"@ && !seen_else {
                if_scan(toks, i + 1, m, truthy, true, unclosed, (f - 1) as nat)
            } else {
                let st = step_token(toks, i, m, (f - 1) as nat);
                if st.stop is Some {
                    st
                } else {
                    if_scan(toks, st.ptr + 1, st.m, truthy, seen_else, unclosed, (f - 1) as nat)
                }
            }
        } else {
            if c == "fi"@ {
                if unclosed == 0 {
                    EvalRes { m, ptr: i, stop: None }
                } else {
                    if_scan(toks, i + 1, m, truthy, seen_else, unclosed - 1, (f - 1) as nat)
                }
            } else if c == "if"@ {
                if_scan(toks, i + 1, m, truthy, seen_else, unclosed + 1, (f - 1) as nat)
            } else if c == "else"@ && unclosed == 0 && !seen_else {
                if_scan(toks, i + 1, m, truthy, true, unclosed, (f - 1) as nat)
            } else {
                if_scan(toks, i + 1, m, truthy, seen_else, unclosed, (f - 1) as nat)
            }
        }
    }
}

/// A loop whose `while` token stands at `start`: peek the condition — an
/// empty stack is the underflow fault — and while it is non-zero run one
/// body pass, then return to the `while` and peek again. The cursor is left
/// on the `while` when the condition reaches zero, so the outer dispatch
/// walks the body once more in a straight line. Each pass costs one step of
/// budget besides its own scan.
pub open spec fn while_loop(toks: Seq<TokenModel>, start: int, m: Model, f: nat) -> EvalRes
    decreases f, 3int,
{
    if m.stack.len() == 0 {
        EvalRes { m, ptr: start, stop: Some(Stop::Fail(Fault::StackUnderflow)) }
    } else if m.stack.last() == 0 {
        EvalRes { m, ptr: start, stop: None }
    } else if f == 0 {
        EvalRes { m, ptr: start, stop: Some(Stop::OutOfSteps) }
    } else {
        let sc = while_scan(toks, start, m, (f - 1) as nat);
        if sc.stop is Some {
            sc
        } else {
            while_loop(toks, start, sc.m, (f - 1) as nat)
        }
    }
}

/// One pass of a loop body: from the token under the cursor, stop on the
/// first token spelled `end` — this scan is not nesting-aware — else
/// advance and dispatch. Running past the input is the `UnclosedWhile`
/// fault.
pub open spec fn while_scan(toks: Seq<TokenModel>, i: int, m: Model, g: nat) -> EvalRes
    decreases g, 2int,
{
    if i >= toks.len() {
        EvalRes { m, ptr: i, stop: Some(Stop::Fail(Fault::UnclosedWhile)) }
    } else if toks[i].content == "end"@ {
        EvalRes { m, ptr: i, stop: None }
    } else if i + 1 >= toks.len() {
        EvalRes { m, ptr: i + 1, stop: Some(Stop::Fail(Fault::UnclosedWhile)) }
    } else if g == 0 {
        EvalRes { m, ptr: i + 1, stop: Some(Stop::OutOfSteps) }
    } else {
        let st = step_token(toks, i + 1, m, (g - 1) as nat);
        if st.stop is Some {
            st
        } else {
            while_scan(toks, st.ptr, st.m, (g - 1) as nat)
        }
    }
}

/// Dispatch never moves the cursor backwards, and on normal completion it
/// rests on a token of the sequence.
pub proof fn lemma_step_token_bounds(toks: Seq<TokenModel>, i: int, m: Model, fuel: nat)
    requires
        0 <= i < toks.len(),
    ensures
        step_token(toks, i, m, fuel).ptr >= i,
        step_token(toks, i, m, fuel).stop is None ==> step_token(toks, i, m, fuel).ptr
            < toks.len(),
    decreases fuel, 4int,
{
    let t = toks[i];
    if is_simple_token(t) {
    } else if t.content == "if"@ {
        if m.stack.len() != 0 {
            lemma_if_scan_bounds(toks, i + 1, m, m.stack.last() != 0, false, 0, fuel);
        }
    } else {
        lemma_while_loop_bounds(toks, i, m, fuel);
    }
}

proof fn lemma_if_scan_bounds(
    toks: Seq<TokenModel>,
    i: int,
    m: Model,
    truthy: bool,
    seen_else: bool,
    unclosed: int,
    f: nat,
)
    requires
        0 <= i,
    ensures
        if_scan(toks, i, m, truthy, seen_else, unclosed, f).ptr >= i,
        if_scan(toks, i, m, truthy, seen_else, unclosed, f).stop is None ==> if_scan(
            toks,
            i,
            m,
            truthy,
            seen_else,
            unclosed,
            f,
        ).ptr < toks.len(),
    decreases f, 1int,
{
    if i >= toks.len() || f == 0 {
    } else {
        let c = toks[i].content;
        if (truthy && !seen_else) || (!truthy && seen_else) {
            if c == "fi"@ {
            } else if c == "else"@ && !seen_else {
                lemma_if_scan_bounds(toks, i + 1, m, truthy, true, unclosed, (f - 1) as nat);
            } else {
                lemma_step_token_bounds(toks, i, m, (f - 1) as nat);
                let st = step_token(toks, i, m, (f - 1) as nat);
                if st.stop is None {
                    lemma_if_scan_bounds(
                        toks,
                        st.ptr + 1,
                        st.m,
                        truthy,
                        seen_else,
                        unclosed,
                        (f - 1) as nat,
                    );
                }
            }
        } else {
            if c == "fi"@ {
                if unclosed != 0 {
                    lemma_if_scan_bounds(
                        toks,
                        i + 1,
                        m,
                        truthy,
                        seen_else,
                        unclosed - 1,
                        (f - 1) as nat,
                    );
                }
            } else if c == "if"@ {
                lemma_if_scan_bounds(toks, i + 1, m, truthy, seen_else, unclosed + 1, (f - 1) as nat);
            } else if c == "else"@ && unclosed == 0 && !seen_else {
                lemma_if_scan_bounds(toks, i + 1, m, truthy, true, unclosed, (f - 1) as nat);
            } else {
                lemma_if_scan_bounds(toks, i + 1, m, truthy, seen_else, unclosed, (f - 1) as nat);
            }
        }
    }
}

proof fn lemma_while_scan_bounds(toks: Seq<TokenModel>, i: int, m: Model, g: nat)
    requires
        0 <= i,
    ensures
        while_scan(toks, i, m, g).ptr >= i,
        while_scan(toks, i, m, g).stop is None ==> while_scan(toks, i, m, g).ptr < toks.len(),
    decreases g, 2int,
{
    if i >= toks.len() {
    } else if toks[i].content == "end"@ {
    } else if i + 1 >= toks.len() {
    } else if g == 0 {
    } else {
        lemma_step_token_bounds(toks, i + 1, m, (g - 1) as nat);
        let st = step_token(toks, i + 1, m, (g - 1) as nat);
        if st.stop is None {
            lemma_while_scan_bounds(toks, st.ptr, st.m, (g - 1) as nat);
        }
    }
}

proof fn lemma_while_loop_bounds(toks: Seq<TokenModel>, start: int, m: Model, f: nat)
    requires
        0 <= start < toks.len(),
    ensures
        while_loop(toks, start, m, f).ptr >= start,
        while_loop(toks, start, m, f).stop is None ==> while_loop(toks, start, m, f).ptr == start,
    decreases f, 3int,
{
    if m.stack.len() == 0 {
    } else if m.stack.last() == 0 {
    } else if f == 0 {
    } else {
        lemma_while_scan_bounds(toks, start, m, (f - 1) as nat);
        let sc = while_scan(toks, start, m, (f - 1) as nat);
        if sc.stop is None {
            lemma_while_loop_bounds(toks, start, sc.m, (f - 1) as nat);
        }
    }
}

/// A whole run from position `i`: dispatch the token under the cursor,
/// advance past where the dispatch left it, and repeat until the cursor
/// passes the end; a fault or an exhausted step budget stops the run there.
pub open spec fn run_prog(toks: Seq<TokenModel>, i: int, m: Model, fuel: nat) -> EvalRes
    decreases toks.len() - i,
    via run_prog_decreases
{
    if i < 0 || i >= toks.len() {
        EvalRes { m, ptr: i, stop: None }
    } else {
        let st = step_token(toks, i, m, fuel);
        if st.stop is Some {
            st
        } else {
            run_prog(toks, st.ptr + 1, st.m, fuel)
        }
    }
}

#[via_fn]
proof fn run_prog_decreases(toks: Seq<TokenModel>, i: int, m: Model, fuel: nat) {
    if 0 <= i && i < toks.len() {
        let st = step_token(toks, i, m, fuel);
        if st.stop is None {
            lemma_step_token_bounds(toks, i, m, fuel);
        }
    }
}

/// Copies a character vector.
fn copy_chars(v: &Vec<char>) -> (r: Vec<char>)
    ensures
        r@ == v@,
{
    let mut r: Vec<char> = Vec::new();
    let n = v.len();
    let mut i: usize = 0;
    while i < n
        invariant
            0 <= i <= n,
            n == v@.len(),
            r@ == v@.take(i as int),
        decreases n - i,
    {
        r.push(v[i]);
        proof {
            assert(v@.take(i + 1) =~= v@.take(i as int).push(v@[i as int]));
        }
        i += 1;
    }
    proof {
        assert(v@.take(n as int) =~= v@);
    }
    r
}

/// Pushes a string onto the stack: the `0` sentinel, then the characters'
/// codes last to first.
fn push_string(stack: &mut Vec<i64>, s: &Vec<char>)
    ensures
        final(stack)@ == string_push(old(stack)@, s@),
{
    stack.push(0);
    let mut j = s.len();
    proof {
        assert(s@.skip(j as int).reverse() =~= Seq::<char>::empty());
        assert(stack@ =~= old(stack)@.push(0) + s@.skip(j as int).reverse().map_values(
            |c: char| (c as u32) as i64,
        ));
    }
    while j > 0
        invariant
            0 <= j <= s@.len(),
            stack@ == old(stack)@.push(0) + s@.skip(j as int).reverse().map_values(
                |c: char| (c as u32) as i64,
            ),
        decreases j,
    {
        j -= 1;
        stack.push((s[j] as u32) as i64);
        proof {
            let rcur = s@.skip(j as int).reverse();
            let rprev = s@.skip(j + 1).reverse();
            assert(rcur =~= rprev.push(s@[j as int]));
            assert(rcur.map_values(|c: char| (c as u32) as i64) =~= rprev.map_values(
                |c: char| (c as u32) as i64,
            ).push((s@[j as int] as u32) as i64));
            assert(stack@ =~= old(stack)@.push(0) + rcur.map_values(|c: char| (c as u32) as i64));
        }
    }
    proof {
        assert(s@.skip(0) =~= s@);
    }
}

/// One binary word: pops the first and second values and pushes what the word
/// computes of them, exactly as `simple_step` states.
fn do_binary(machine: &mut Machine, w: &Vec<char>) -> (r: Result<(), Stop>)
    requires
        is_binary_word(w@),
    ensures
        ({
            let s = simple_step(w@, old(machine)@);
            final(machine)@ == s.m && (match s.fault {
                Some(f) => r == Err::<(), Stop>(Stop::Fail(f)),
                None => r == Ok::<(), Stop>(()),
            })
        }),
{
    let first = match machine.stack.pop() {
        Some(v) => v,
        None => {
            return Err(Stop::Fail(Fault::StackUnderflow));
        },
    };
    let second = match machine.stack.pop() {
        Some(v) => v,
        None => {
            proof {
                assert(machine@ =~= (Model {
                    stack: old(machine)@.stack.drop_last(),
                    ..old(machine)@
                }));
            }
            return Err(Stop::Fail(Fault::StackUnderflow));
        },
    };
    proof {
        let st0 = old(machine)@.stack;
        assert(first == st0.last());
        assert(second == st0.drop_last().last());
        assert(machine@.stack =~= st0.drop_last().drop_last());
    }
    let res: Result<i64, Fault> = if is_word(w, "+") {
        match second.checked_add(first) {
            Some(v) => Ok(v),
            None => Err(Fault::Overflow),
        }
    } else if is_word(w, "-") {
        match second.checked_sub(first) {
            Some(v) => Ok(v),
            None => Err(Fault::Overflow),
        }
    } else if is_word(w, "*") {
        match second.checked_mul(first) {
            Some(v) => Ok(v),
            None => Err(Fault::Overflow),
        }
    } else if is_word(w, "/") {
        if first == 0 {
            Err(Fault::DivideByZero)
        } else {
            match second.checked_div(first) {
                Some(v) => Ok(v),
                None => Err(Fault::Overflow),
            }
        }
    } else if is_word(w, "%") {
        if first == 0 {
            Err(Fault::DivideByZero)
        } else {
            match second.checked_rem_euclid(first) {
                Some(v) => Ok(v),
                None => Err(Fault::Overflow),
            }
        }
    } else if is_word(w, "==") {
        Ok(if second == first { 1 } else { 0 })
    } else if is_word(w, "!=") {
        Ok(if second != first { 1 } else { 0 })
    } else if is_word(w, "<") {
        Ok(if second < first { 1 } else { 0 })
    } else if is_word(w, ">") {
        Ok(if second > first { 1 } else { 0 })
    } else if is_word(w, "<=") {
        Ok(if second <= first { 1 } else { 0 })
    } else {
        proof {
            assert(w@ == ">="@);
        }
        Ok(if second >= first { 1 } else { 0 })
    };
    proof {
        assert(res == bin_result(w@, second, first));
    }
    match res {
        Ok(v) => {
            machine.stack.push(v);
            proof {
                assert(machine@ =~= simple_step(w@, old(machine)@).m);
            }
            Ok(())
        },
        Err(f) => {
            proof {
                assert(machine@ =~= simple_step(w@, old(machine)@).m);
            }
            Err(Stop::Fail(f))
        },
    }
}

/// `printint`: emits the top of the stack in decimal without removing it.
fn do_printint(machine: &mut Machine) -> (r: Result<(), Stop>)
    ensures
        ({
            let s = simple_step("printint"@, old(machine)@);
            final(machine)@ == s.m && (match s.fault {
                Some(f) => r == Err::<(), Stop>(Stop::Fail(f)),
                None => r == Ok::<(), Stop>(()),
            })
        }),
{
    proof {
        crate::machine::lemma_distinct_builtins();
    }
    if machine.stack.len() == 0 {
        return Err(Stop::Fail(Fault::StackUnderflow));
    }
    let top = machine.stack[machine.stack.len() - 1];
    push_i64_dec(&mut machine.out, top);
    proof {
        assert(machine@ =~= simple_step("printint"@, old(machine)@).m);
    }
    Ok(())
}

/// `putchar`: pops one byte-ranged value and emits its character.
fn do_putchar(machine: &mut Machine) -> (r: Result<(), Stop>)
    ensures
        ({
            let s = simple_step("putchar"@, old(machine)@);
            final(machine)@ == s.m && (match s.fault {
                Some(f) => r == Err::<(), Stop>(Stop::Fail(f)),
                None => r == Ok::<(), Stop>(()),
            })
        }),
{
    proof {
        crate::machine::lemma_distinct_builtins();
    }
    let v = match machine.stack.pop() {
        Some(v) => v,
        None => {
            return Err(Stop::Fail(Fault::StackUnderflow));
        },
    };
    proof {
        assert(machine@.stack =~= old(machine)@.stack.drop_last());
    }
    if 0 <= v && v <= 255 {
        machine.out.push((v as u8) as char);
        proof {
            assert(machine@ =~= simple_step("putchar"@, old(machine)@).m);
        }
        Ok(())
    } else {
        proof {
            assert(machine@ =~= simple_step("putchar"@, old(machine)@).m);
        }
        Err(Stop::Fail(Fault::ByteRange))
    }
}

/// `putstring`: pops and emits characters until the sentinel, which is popped
/// and not emitted.
fn do_putstring(machine: &mut Machine) -> (r: Result<(), Stop>)
    ensures
        ({
            let s = simple_step("putstring"@, old(machine)@);
            final(machine)@ == s.m && (match s.fault {
                Some(f) => r == Err::<(), Stop>(Stop::Fail(f)),
                None => r == Ok::<(), Stop>(()),
            })
        }),
{
    proof {
        crate::machine::lemma_distinct_builtins();
    }
    loop
        invariant
            put_walk(old(machine)@) == put_walk(machine@),
        decreases machine.stack@.len(),
    {
        proof {
            crate::machine::lemma_distinct_builtins();
        }
        let ghost pre = machine@;
        match machine.stack.pop() {
            None => {
                return Err(Stop::Fail(Fault::StackUnderflow));
            },
            Some(v) => {
                proof {
                    assert(machine@.stack =~= pre.stack.drop_last());
                    assert(machine@ =~= (Model { stack: pre.stack.drop_last(), ..pre }));
                }
                if v == 0 {
                    return Ok(());
                }
                if 0 <= v && v <= 255 {
                    machine.out.push((v as u8) as char);
                    proof {
                        let popped = Model { stack: pre.stack.drop_last(), ..pre };
                        let next = Model { out: popped.out.push(byte_char(v)), ..popped };
                        assert(machine@ =~= next);
                        assert(put_walk(pre) == put_walk(machine@));
                    }
                } else {
                    return Err(Stop::Fail(Fault::ByteRange));
                }
            },
        }
    }
}

/// `env`: pops the key's characters (the sentinel stays on the stack), looks
/// the name up in the table, and pushes its value as a string.
fn do_env(machine: &mut Machine) -> (r: Result<(), Stop>)
    ensures
        ({
            let s = simple_step("env"@, old(machine)@);
            final(machine)@ == s.m && (match s.fault {
                Some(f) => r == Err::<(), Stop>(Stop::Fail(f)),
                None => r == Ok::<(), Stop>(()),
            })
        }),
{
    proof {
        crate::machine::lemma_distinct_builtins();
    }
    let mut key: Vec<char> = Vec::new();
    proof {
        assert(key@ =~= Seq::<char>::empty());
    }
    loop
        invariant
            env_walk(old(machine)@, Seq::empty()) == env_walk(machine@, key@),
            machine@.env == old(machine)@.env,
            machine@.lines == old(machine)@.lines,
            machine@.out == old(machine)@.out,
            machine@.next_line == old(machine)@.next_line,
        ensures
            env_walk(old(machine)@, Seq::empty()) == env_walk(machine@, key@),
            machine@.env == old(machine)@.env,
            machine@.stack.len() > 0,
            machine@.stack.last() == 0,
        decreases machine.stack@.len(),
    {
        proof {
            crate::machine::lemma_distinct_builtins();
        }
        let ghost pre = machine@;
        let ghost kpre = key@;
        let top = match machine.stack.last() {
            None => {
                return Err(Stop::Fail(Fault::StackUnderflow));
            },
            Some(v) => *v,
        };
        if top == 0 {
            break;
        }
        let _ = machine.stack.pop();
        proof {
            assert(machine@.stack =~= pre.stack.drop_last());
            assert(machine@ =~= (Model { stack: pre.stack.drop_last(), ..pre }));
        }
        if 0 <= top && top <= 255 {
            key.push((top as u8) as char);
            proof {
                assert(env_walk(pre, kpre) == env_walk(machine@, key@));
            }
        } else {
            return Err(Stop::Fail(Fault::ByteRange));
        }
    }
    let ghost kw = env_walk(old(machine)@, Seq::empty());
    proof {
        assert(env_walk(machine@, key@) == KeyWalk { m: machine@, key: key@, fault: None });
        assert(kw.fault is None && kw.m == machine@ && kw.key == key@);
    }
    let mut idx: usize = 0;
    let bound = machine.env.len();
    proof {
        assert(old(machine)@.env.skip(0) =~= old(machine)@.env);
    }
    while idx < bound
        invariant
            0 <= idx <= bound,
            bound == old(machine)@.env.len(),
            machine@ == kw.m,
            machine@.env == old(machine)@.env,
            kw == env_walk(old(machine)@, Seq::empty()),
            kw.fault is None,
            key@ == kw.key,
            env_lookup(old(machine)@.env, kw.key) == env_lookup(
                old(machine)@.env.skip(idx as int),
                kw.key,
            ),
        decreases bound - idx,
    {
        proof {
            crate::machine::lemma_distinct_builtins();
        }
        let hit = crate::text::is_same_chars(&machine.env[idx].0, &key);
        proof {
            let cur = old(machine)@.env.skip(idx as int);
            assert(cur[0] == old(machine)@.env[idx as int]);
            assert(old(machine)@.env[idx as int] == (
                machine.env@[idx as int].0@,
                machine.env@[idx as int].1@,
            ));
            assert(cur.skip(1) =~= old(machine)@.env.skip(idx + 1));
        }
        if hit {
            let value = copy_chars(&machine.env[idx].1);
            push_string(&mut machine.stack, &value);
            proof {
                assert(env_lookup(old(machine)@.env, kw.key) == Some(value@));
                assert(machine@ =~= (Model { stack: string_push(kw.m.stack, value@), ..kw.m }));
                assert(machine@ =~= simple_step("env"@, old(machine)@).m);
            }
            return Ok(());
        }
        idx += 1;
    }
    proof {
        assert(old(machine)@.env.skip(bound as int) =~= Seq::<(Seq<char>, Seq<char>)>::empty());
    }
    Err(Stop::Fail(Fault::MissingEnv))
}

/// `scanint`: consumes one input line, trims it, parses it, pushes the value.
fn do_scanint(machine: &mut Machine) -> (r: Result<(), Stop>)
    ensures
        ({
            let s = simple_step("scanint"@, old(machine)@);
            final(machine)@ == s.m && (match s.fault {
                Some(f) => r == Err::<(), Stop>(Stop::Fail(f)),
                None => r == Ok::<(), Stop>(()),
            })
        }),
{
    proof {
        crate::machine::lemma_distinct_builtins();
    }
    if machine.next_line >= machine.lines.len() {
        return Err(Stop::Fail(Fault::NoInput));
    }
    let line = copy_chars(&machine.lines[machine.next_line]);
    proof {
        assert(line@ == old(machine)@.lines[old(machine)@.next_line]);
    }
    machine.next_line += 1;
    let t = trim_chars(&line);
    match parse_i64(&t) {
        Some(v) => {
            machine.stack.push(v);
            proof {
                assert(machine@ =~= simple_step("scanint"@, old(machine)@).m);
            }
            Ok(())
        },
        None => {
            proof {
                assert(machine@ =~= simple_step("scanint"@, old(machine)@).m);
            }
            Err(Stop::Fail(Fault::BadInt))
        },
    }
}

/// `scanstring`: consumes one input line and pushes it as a string.
fn do_scanstring(machine: &mut Machine) -> (r: Result<(), Stop>)
    ensures
        ({
            let s = simple_step("scanstring"@, old(machine)@);
            final(machine)@ == s.m && (match s.fault {
                Some(f) => r == Err::<(), Stop>(Stop::Fail(f)),
                None => r == Ok::<(), Stop>(()),
            })
        }),
{
    proof {
        crate::machine::lemma_distinct_builtins();
    }
    if machine.next_line >= machine.lines.len() {
        return Err(Stop::Fail(Fault::NoInput));
    }
    let line = copy_chars(&machine.lines[machine.next_line]);
    proof {
        assert(line@ == old(machine)@.lines[old(machine)@.next_line]);
    }
    machine.next_line += 1;
    push_string(&mut machine.stack, &line);
    proof {
        assert(machine@ =~= simple_step("scanstring"@, old(machine)@).m);
    }
    Ok(())
}

/// What one dispatch promises: a simple token's effect is exactly its
/// `token_step`, with the cursor unmoved; any token peeking an empty stack is
/// the `StackUnderflow` fault with the state untouched.
/// A conditional block, the executable twin of `if_run` and `if_scan`.
fn do_if(machine: &mut Machine, tokens: &mut TokenColelction, fuel: u64) -> (r: Result<(), Stop>)
    requires
        old(tokens).wf(),
        old(tokens)@.ptr < old(tokens)@.toks.len(),
    ensures
        final(tokens)@.toks == old(tokens)@.toks,
        final(tokens).wf(),
        final(tokens)@.ptr >= old(tokens)@.ptr,
        r is Ok ==> final(tokens)@.ptr < final(tokens)@.toks.len(),
        ({
            let er = if_run(old(tokens)@.toks, old(tokens)@.ptr, old(machine)@, fuel as nat);
            &&& final(machine)@ == er.m
            &&& final(tokens)@.ptr == er.ptr
            &&& r == (match er.stop {
                Some(s) => Err::<(), Stop>(s),
                None => Ok::<(), Stop>(()),
            })
        }),
    decreases fuel, 0int,
{
    let ghost t0 = old(tokens)@.toks;
    let ghost p0 = old(tokens)@.ptr;
    let ghost m0 = old(machine)@;
    let cond = match machine.stack.last() {
        None => {
            return Err(Stop::Fail(Fault::StackUnderflow));
        },
        Some(v) => *v,
    };
    let truthy = cond != 0;
    let mut seen_else = false;
    let mut unclosed: u64 = 0;
    let mut f = fuel;
    tokens.next();
    loop
        invariant
            t0 == old(tokens)@.toks,
            p0 == old(tokens)@.ptr,
            m0 == old(machine)@,
            tokens.wf(),
            tokens@.toks == t0,
            tokens@.ptr >= p0 + 1,
            (unclosed as int) < tokens@.ptr,
            f <= fuel,
            if_run(t0, p0, m0, fuel as nat) == if_scan(
                t0,
                tokens@.ptr,
                machine@,
                truthy,
                seen_else,
                unclosed as int,
                f as nat,
            ),
        decreases tokens@.toks.len() - tokens@.ptr,
    {
        let ghost icur = tokens@.ptr;
        let ghost mcur = machine@;
        let ghost scur = seen_else;
        let ghost ucur = unclosed as int;
        let ghost fcur = f as nat;
        if !tokens.running() {
            return Err(Stop::Fail(Fault::UnclosedIf));
        }
        if f == 0 {
            return Err(Stop::OutOfSteps);
        }
        f -= 1;
        let (c_fi, c_else, c_if) = match tokens.curent() {
            Some(t) => (
                is_word(&t.content, "fi"),
                is_word(&t.content, "else"),
                is_word(&t.content, "if"),
            ),
            None => unreached(),
        };
        let evaluating = (truthy && !seen_else) || (!truthy && seen_else);
        if evaluating {
            if c_fi {
                return Ok(());
            }
            if c_else && !seen_else {
                seen_else = true;
                tokens.next();
            } else {
                let res = evaluate_token(tokens, machine, f);
                proof {
                    let st = step_token(t0, icur, mcur, f as nat);
                    assert(if_scan(t0, icur, mcur, truthy, scur, ucur, fcur) == (if st.stop
                        is Some {
                        st
                    } else {
                        if_scan(t0, st.ptr + 1, st.m, truthy, scur, ucur, f as nat)
                    }));
                }
                if let Err(e) = res {
                    return Err(e);
                }
                tokens.next();
            }
        } else {
            if c_fi {
                if unclosed == 0 {
                    return Ok(());
                }
                unclosed -= 1;
                tokens.next();
            } else if c_if {
                unclosed += 1;
                tokens.next();
            } else if c_else && unclosed == 0 && !seen_else {
                seen_else = true;
                tokens.next();
            } else {
                tokens.next();
            }
        }
        proof {
            assert(if_scan(t0, icur, mcur, truthy, scur, ucur, fcur) == if_scan(
                t0,
                tokens@.ptr,
                machine@,
                truthy,
                seen_else,
                unclosed as int,
                f as nat,
            ));
        }
    }
}

/// A loop block, the executable twin of `while_loop` and `while_scan`.
fn do_while(machine: &mut Machine, tokens: &mut TokenColelction, fuel: u64) -> (r: Result<
    (),
    Stop,
>)
    requires
        old(tokens).wf(),
        old(tokens)@.ptr < old(tokens)@.toks.len(),
    ensures
        final(tokens)@.toks == old(tokens)@.toks,
        final(tokens).wf(),
        final(tokens)@.ptr >= old(tokens)@.ptr,
        r is Ok ==> final(tokens)@.ptr == old(tokens)@.ptr,
        r is Ok ==> final(tokens)@.ptr < final(tokens)@.toks.len(),
        ({
            let er = while_loop(old(tokens)@.toks, old(tokens)@.ptr, old(machine)@, fuel as nat);
            &&& final(machine)@ == er.m
            &&& final(tokens)@.ptr == er.ptr
            &&& r == (match er.stop {
                Some(s) => Err::<(), Stop>(s),
                None => Ok::<(), Stop>(()),
            })
        }),
    decreases fuel, 0int,
{
    let ghost t0 = old(tokens)@.toks;
    let ghost p0 = old(tokens)@.ptr;
    let ghost m0 = old(machine)@;
    let start = tokens.pointer;
    let mut f = fuel;
    loop
        invariant
            t0 == old(tokens)@.toks,
            p0 == old(tokens)@.ptr,
            m0 == old(machine)@,
            tokens.wf(),
            tokens@.toks == t0,
            start as int == p0,
            p0 < t0.len(),
            tokens@.ptr == p0,
            f <= fuel,
            while_loop(t0, p0, m0, fuel as nat) == while_loop(t0, p0, machine@, f as nat),
        decreases f,
    {
        let ghost mpass = machine@;
        let ghost fpass = f as nat;
        let cond = match machine.stack.last() {
            None => {
                return Err(Stop::Fail(Fault::StackUnderflow));
            },
            Some(v) => *v,
        };
        if cond == 0 {
            return Ok(());
        }
        if f == 0 {
            return Err(Stop::OutOfSteps);
        }
        f -= 1;
        let mut g = f;
        let ghost gp = g as nat;
        loop
            invariant
                t0 == old(tokens)@.toks,
                p0 == old(tokens)@.ptr,
                m0 == old(machine)@,
                tokens.wf(),
                tokens@.toks == t0,
                start as int == p0,
                p0 < t0.len(),
                tokens@.ptr >= p0,
                gp == fpass - 1,
                g <= gp,
                fpass <= fuel as nat,
                fpass > 0,
                mpass.stack.len() > 0,
                mpass.stack.last() != 0,
                while_loop(t0, p0, m0, fuel as nat) == while_loop(t0, p0, mpass, fpass),
                while_scan(t0, p0, mpass, gp) == while_scan(t0, tokens@.ptr, machine@, g as nat),
            ensures
                tokens.wf(),
                tokens@.toks == t0,
                tokens@.ptr >= p0,
                while_scan(t0, p0, mpass, gp) == (EvalRes {
                    m: machine@,
                    ptr: tokens@.ptr,
                    stop: None,
                }),
            decreases t0.len() - tokens@.ptr,
        {
            let ghost icur = tokens@.ptr;
            let ghost mcur = machine@;
            let ghost gcur = g as nat;
            let at_end = match tokens.curent() {
                None => {
                    return Err(Stop::Fail(Fault::UnclosedWhile));
                },
                Some(t) => is_word(&t.content, "end"),
            };
            if at_end {
                break;
            }
            tokens.next();
            if !tokens.running() {
                return Err(Stop::Fail(Fault::UnclosedWhile));
            }
            if g == 0 {
                return Err(Stop::OutOfSteps);
            }
            g -= 1;
            let res = evaluate_token(tokens, machine, g);
            proof {
                let st = step_token(t0, icur + 1, mcur, g as nat);
                assert(while_scan(t0, icur, mcur, gcur) == (if st.stop is Some {
                    st
                } else {
                    while_scan(t0, st.ptr, st.m, g as nat)
                }));
            }
            if let Err(e) = res {
                return Err(e);
            }
        }
        tokens.set(start);
        proof {
            assert(while_loop(t0, p0, mpass, fpass) == while_loop(t0, p0, machine@, f as nat));
        }
    }
}

/// Dispatches one word token by its exact spelling: the whole effect equals
/// `step_token` of the token under the cursor — `simple_step` for every word
/// that is not `if` or `while`, the structural scans for those two.
pub fn call(machine: &mut Machine, tokens: &mut TokenColelction, fuel: u64) -> (r: Result<
    (),
    Stop,
>)
    requires
        old(tokens).wf(),
        old(tokens)@.ptr < old(tokens)@.toks.len(),
        old(tokens)@.toks[old(tokens)@.ptr].kind == TokenKind::Word,
    ensures
        final(tokens)@.toks == old(tokens)@.toks,
        final(tokens).wf(),
        final(tokens)@.ptr >= old(tokens)@.ptr,
        r is Ok ==> final(tokens)@.ptr < final(tokens)@.toks.len(),
        ({
            let st = step_token(old(tokens)@.toks, old(tokens)@.ptr, old(machine)@, fuel as nat);
            &&& final(machine)@ == st.m
            &&& final(tokens)@.ptr == st.ptr
            &&& r == (match st.stop {
                Some(s) => Err::<(), Stop>(s),
                None => Ok::<(), Stop>(()),
            })
        }),
    decreases fuel, 1int,
{
    proof {
        crate::machine::lemma_distinct_builtins();
    }
    let ghost tok = old(tokens)@.toks[old(tokens)@.ptr];
    let w = match tokens.curent() {
        Some(t) => copy_chars(&t.content),
        None => unreached(),
    };
    if is_word(&w, "+") || is_word(&w, "-") || is_word(&w, "*") || is_word(&w, "/") || is_word(
        &w,
        "%",
    ) || is_word(&w, "==") || is_word(&w, "!=") || is_word(&w, "<") || is_word(&w, ">") || is_word(
        &w,
        "<=",
    ) || is_word(&w, ">=") {
        do_binary(machine, &w)
    } else if is_word(&w, "pop") {
        match machine.stack.pop() {
            Some(_dropped) => {
                proof {
                    assert(machine@ =~= simple_step("pop"@, old(machine)@).m);
                }
                Ok(())
            },
            None => Err(Stop::Fail(Fault::StackUnderflow)),
        }
    } else if is_word(&w, "env") {
        do_env(machine)
    } else if is_word(&w, "clone") {
        if machine.stack.len() == 0 {
            Err(Stop::Fail(Fault::StackUnderflow))
        } else {
            let top = machine.stack[machine.stack.len() - 1];
            machine.stack.push(top);
            proof {
                assert(machine@ =~= simple_step("clone"@, old(machine)@).m);
            }
            Ok(())
        }
    } else if is_word(&w, "printint") {
        do_printint(machine)
    } else if is_word(&w, "putchar") {
        do_putchar(machine)
    } else if is_word(&w, "putstring") {
        do_putstring(machine)
    } else if is_word(&w, "if") {
        do_if(machine, tokens, fuel)
    } else if is_word(&w, "fi") {
        Ok(())
    } else if is_word(&w, "else") {
        Ok(())
    } else if is_word(&w, "scanint") {
        do_scanint(machine)
    } else if is_word(&w, "scanstring") {
        do_scanstring(machine)
    } else if is_word(&w, "while") {
        do_while(machine, tokens, fuel)
    } else if is_word(&w, "end") {
        Ok(())
    } else {
        Err(Stop::Fail(Fault::UnknownWord))
    }
}

/// Evaluates the token under the cursor: the whole effect — machine, cursor
/// and result — equals `step_token` of that token.
pub fn evaluate_token(tokens: &mut TokenColelction, machine: &mut Machine, fuel: u64) -> (r:
    Result<(), Stop>)
    requires
        old(tokens).wf(),
        old(tokens)@.ptr < old(tokens)@.toks.len(),
    ensures
        final(tokens)@.toks == old(tokens)@.toks,
        final(tokens).wf(),
        final(tokens)@.ptr >= old(tokens)@.ptr,
        r is Ok ==> final(tokens)@.ptr < final(tokens)@.toks.len(),
        ({
            let st = step_token(old(tokens)@.toks, old(tokens)@.ptr, old(machine)@, fuel as nat);
            &&& final(machine)@ == st.m
            &&& final(tokens)@.ptr == st.ptr
            &&& r == (match st.stop {
                Some(s) => Err::<(), Stop>(s),
                None => Ok::<(), Stop>(()),
            })
        }),
    decreases fuel, 2int,
{
    let ghost tok = old(tokens)@.toks[old(tokens)@.ptr];
    let kind = match tokens.curent() {
        Some(t) => t.kind,
        None => unreached(),
    };
    match kind {
        TokenKind::Integer => {
            let content = match tokens.curent() {
                Some(t) => copy_chars(&t.content),
                None => unreached(),
            };
            match parse_i64(&content) {
                Some(v) => {
                    machine.stack.push(v);
                    proof {
                        assert(machine@ =~= token_step(tok, old(machine)@).m);
                    }
                    Ok(())
                },
                None => Err(Stop::Fail(Fault::BadInt)),
            }
        },
        TokenKind::Character => {
            let content = match tokens.curent() {
                Some(t) => copy_chars(&t.content),
                None => unreached(),
            };
            if content.len() == 0 {
                Err(Stop::Fail(Fault::EmptyCharacter))
            } else {
                let c = content[0];
                machine.stack.push((c as u32) as i64);
                proof {
                    assert(machine@ =~= token_step(tok, old(machine)@).m);
                }
                Ok(())
            }
        },
        TokenKind::Text => {
            let content = match tokens.curent() {
                Some(t) => copy_chars(&t.content),
                None => unreached(),
            };
            push_string(&mut machine.stack, &content);
            proof {
                assert(machine@ =~= token_step(tok, old(machine)@).m);
            }
            Ok(())
        },
        TokenKind::Word => call(machine, tokens, fuel),
        TokenKind::Empty => Ok(()),
    }
}

/// Runs a whole token sequence against the machine: dispatch the token under
/// the cursor, advance by one, repeat until the cursor passes the end. The
/// final machine and the result equal the fold `run_prog`, for every
/// program, structural words included.
pub fn evaluate(tokens: Vec<Token>, machine: &mut Machine, fuel: u64) -> (r: Result<(), Stop>)
    ensures
        ({
            let er = run_prog(token_views(tokens@), 0, old(machine)@, fuel as nat);
            &&& final(machine)@ == er.m
            &&& r == (match er.stop {
                Some(s) => Err::<(), Stop>(s),
                None => Ok::<(), Stop>(()),
            })
        }),
{
    let ghost tv = token_views(tokens@);
    let mut toks = TokenColelction::new(tokens);
    proof {
        assert(toks@.toks =~= tv);
    }
    while toks.running()
        invariant
            tv == token_views(tokens@),
            toks.wf(),
            toks@.toks == tv,
            run_prog(tv, 0, old(machine)@, fuel as nat) == run_prog(
                tv,
                toks@.ptr,
                machine@,
                fuel as nat,
            ),
        decreases toks@.toks.len() - toks@.ptr,
    {
        let ghost p = toks@.ptr;
        let ghost mpre = machine@;
        let res = evaluate_token(&mut toks, machine, fuel);
        proof {
            let st = step_token(tv, p, mpre, fuel as nat);
            assert(run_prog(tv, p, mpre, fuel as nat) == (if st.stop is Some {
                st
            } else {
                run_prog(tv, st.ptr + 1, st.m, fuel as nat)
            }));
        }
        match res {
            Err(e) => {
                return Err(e);
            },
            Ok(()) => {},
        }
        toks.next();
    }
    Ok(())
}

} // verus!

