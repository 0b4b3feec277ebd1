//! Laws the library keeps, stated over the same spec functions its contracts
//! use and proved once and for all.

use vstd::prelude::*;
use crate::token::{TokenKind, TokenModel};
use crate::machine::{Model, Fault, StepRes, simple_step, is_binary_word, string_push, put_walk,
    byte_char, lemma_distinct_builtins};
use crate::eval::{token_step, run_prog, step_token, is_simple_token, if_run, if_scan,
    while_loop, while_scan, lemma_step_token_bounds};
use crate::lex::{LexState, lex_run, lex_init, lex_step, lex_tokens};
use crate::text::{all_digits, digits_val, lemma_digits_val_nonneg, int_literal_value};
use crate::is_ascii_digit;

verus! {

/// Law: every word that takes an operand — the binary operators and the
/// unary stack words — applied to an empty stack is the stack-underflow
/// fault, never a silent default, and the state is untouched.
pub proof fn lemma_empty_stack_faults(w: Seq<char>, m: Model)
    requires
        m.stack.len() == 0,
        is_binary_word(w) || w == "pop"@ || w == "clone"@ || w == "printint"@ || w == "putchar"@
            || w == "putstring"@ || w == "env"@,
    ensures
        simple_step(w, m).fault == Some(Fault::StackUnderflow),
        simple_step(w, m).m == m,
{
    lemma_distinct_builtins();
}

/// Law: `%` with a positive divisor never leaves a negative value: for a
/// stack holding `b` under `a` with `a > 0`, the word succeeds and the new
/// top is the Euclidean remainder, at least zero and below the divisor.
pub proof fn lemma_rem_euclid_nonnegative(m: Model, b: i64, a: i64)
    requires
        m.stack.len() >= 2,
        m.stack.last() == a,
        m.stack.drop_last().last() == b,
        a > 0,
    ensures
        simple_step("%"@, m).fault is None,
        simple_step("%"@, m).m.stack.last() == b % a,
        0 <= b % a < a,
{
    lemma_distinct_builtins();
}

/// `putstring` on a stack whose top holds an encoded string of non-`NUL`
/// byte characters pops the whole encoding and emits exactly those
/// characters in order.
proof fn lemma_put_walk_encoded(m: Model, st: Seq<i64>, s: Seq<char>)
    requires
        m.stack == string_push(st, s),
        forall|i: int| 0 <= i < s.len() ==> 0 < (#[trigger] s[i]) as u32 <= 255,
    ensures
        put_walk(m) == (StepRes {
            m: Model { stack: st, out: m.out + s, ..m },
            fault: None,
        }),
    decreases s.len(),
{
    if s.len() == 0 {
        assert(m.stack =~= st.push(0));
        assert(m.stack.last() == 0);
        assert(m.stack.drop_last() =~= st);
        assert(m.out + s =~= m.out);
        assert(put_walk(m) =~= (StepRes {
            m: Model { stack: st, out: m.out + s, ..m },
            fault: None,
        }));
    } else {
        let c = s[0];
        let v: i64 = (c as u32) as i64;
        assert(s.reverse().last() == s[0]);
        assert(m.stack.last() == s.reverse().map_values(|c: char| (c as u32) as i64).last());
        assert(m.stack.last() == v);
        assert(0 < v <= 255);
        assert(v as u32 == c as u32);
        vstd::utf8::char_u32_cast(c, (v as u32));
        assert(byte_char(v) == c);
        let rest = s.skip(1);
        let next = Model {
            stack: m.stack.drop_last(),
            out: m.out.push(c),
            ..m
        };
        assert(s.reverse().drop_last() =~= rest.reverse());
        assert(m.stack.drop_last() =~= string_push(st, rest)) by {
            assert(s.reverse().map_values(|c: char| (c as u32) as i64).drop_last() =~= rest
                .reverse().map_values(|c: char| (c as u32) as i64));
        }
        assert(forall|i: int| 0 <= i < rest.len() ==> 0 < (#[trigger] rest[i]) as u32 <= 255);
        lemma_put_walk_encoded(next, st, rest);
        assert(m.out.push(c) + rest =~= m.out + s);
        assert(put_walk(m) == put_walk(next));
    }
}

/// Law (round trip): scanning one input line whose characters are non-`NUL`
/// bytes and then printing it as a string emits exactly that line, consumes
/// exactly that line, and leaves the stack as it was.
pub proof fn lemma_scan_put_round_trip(m: Model)
    requires
        0 <= m.next_line < m.lines.len(),
        forall|i: int|
            0 <= i < m.lines[m.next_line].len() ==> 0 < (#[trigger] m.lines[m.next_line][i]) as u32
                <= 255,
    ensures
        simple_step("scanstring"@, m).fault is None,
        ({
            let m1 = simple_step("scanstring"@, m).m;
            let r2 = simple_step("putstring"@, m1);
            &&& r2.fault is None
            &&& r2.m.stack == m.stack
            &&& r2.m.out == m.out + m.lines[m.next_line]
            &&& r2.m.next_line == m.next_line + 1
            &&& r2.m.lines == m.lines
            &&& r2.m.env == m.env
        }),
{
    lemma_distinct_builtins();
    let line = m.lines[m.next_line];
    let m1 = simple_step("scanstring"@, m).m;
    assert(m1.stack == string_push(m.stack, line));
    lemma_put_walk_encoded(m1, m.stack, line);
}

/// For an all-digit input the tokenizer's whole state is one open integer
/// token holding exactly those digits.
proof fn lemma_lex_digits(s: Seq<char>)
    requires
        s.len() > 0,
        all_digits(s),
    ensures
        lex_run(s) == (LexState {
            done: Seq::<TokenModel>::empty(),
            cur: TokenModel { kind: TokenKind::Integer, content: s, line: 1, pos: 1 },
            line: 1,
            pos: s.len() as int,
            in_comment: false,
            fail: None,
        }),
    decreases s.len(),
{
    let c = s.last();
    assert(is_ascii_digit(c));
    assert(c != '#' && c != '\'' && c != '"' && c != ' ' && c != '\n');
    if s.len() == 1 {
        assert(s.drop_last() =~= Seq::<char>::empty());
        assert(lex_run(s) == lex_step(lex_init(), c));
        assert(seq![c] =~= s);
        assert(lex_run(s) =~= (LexState {
            done: Seq::<TokenModel>::empty(),
            cur: TokenModel { kind: TokenKind::Integer, content: s, line: 1, pos: 1 },
            line: 1,
            pos: s.len() as int,
            in_comment: false,
            fail: None,
        }));
    } else {
        assert(all_digits(s.drop_last()));
        lemma_lex_digits(s.drop_last());
        assert(s.drop_last().push(c) =~= s);
        assert(lex_run(s) =~= (LexState {
            done: Seq::<TokenModel>::empty(),
            cur: TokenModel { kind: TokenKind::Integer, content: s, line: 1, pos: 1 },
            line: 1,
            pos: s.len() as int,
            in_comment: false,
            fail: None,
        }));
    }
}

/// Law: for every well-formed integer literal — one or more digits whose
/// value fits a signed 64-bit integer — tokenizing and then evaluating
/// pushes exactly that integer onto the stack and changes nothing else,
/// whatever the step budget.
pub proof fn lemma_integer_literal(s: Seq<char>, m: Model, fuel: nat)
    requires
        s.len() > 0,
        all_digits(s),
        digits_val(s) <= i64::MAX,
    ensures
        lex_run(s).fail is None,
        ({
            let er = run_prog(lex_tokens(lex_run(s)), 0, m, fuel);
            &&& er.stop is None
            &&& er.m == (Model { stack: m.stack.push((digits_val(s) as i64)), ..m })
        }),
{
    lemma_distinct_builtins();
    lemma_digits_val_nonneg(s);
    lemma_lex_digits(s);
    let tok = TokenModel { kind: TokenKind::Integer, content: s, line: 1, pos: 1 };
    let toks = lex_tokens(lex_run(s));
    assert(toks =~= seq![tok]);
    assert(is_simple_token(tok));
    assert(s[0] != '-' && s[0] != '+');
    assert(int_literal_value(s) == Some((digits_val(s) as i64)));
    let st = step_token(toks, 0, m, fuel);
    assert(st.stop is None);
    assert(run_prog(toks, 0, m, fuel) == run_prog(toks, 1, st.m, fuel));
}

/// A conditional scan that completes normally rests on a token spelled `fi`.
proof fn lemma_if_scan_rests_on_fi(
    toks: Seq<TokenModel>,
    i: int,
    m: Model,
    truthy: bool,
    seen_else: bool,
    unclosed: int,
    f: nat,
)
    requires
        0 <= i,
    ensures
        if_scan(toks, i, m, truthy, seen_else, unclosed, f).stop is None ==> toks[if_scan(
            toks,
            i,
            m,
            truthy,
            seen_else,
            unclosed,
            f,
        ).ptr].content == "fi"@,
    decreases f,
{
    if i >= toks.len() || f == 0 {
    } else {
        let c = toks[i].content;
        if (truthy && !seen_else) || (!truthy && seen_else) {
            if c == "fi"@ {
            } else if c == "else"@ && !seen_else {
                lemma_if_scan_rests_on_fi(toks, i + 1, m, truthy, true, unclosed, (f - 1) as nat);
            } else {
                lemma_step_token_bounds(toks, i, m, (f - 1) as nat);
                let st = step_token(toks, i, m, (f - 1) as nat);
                if st.stop is None {
                    lemma_if_scan_rests_on_fi(
                        toks,
                        st.ptr + 1,
                        st.m,
                        truthy,
                        seen_else,
                        unclosed,
                        (f - 1) as nat,
                    );
                }
            }
        } else {
            if c == "fi"@ {
                if unclosed != 0 {
                    lemma_if_scan_rests_on_fi(
                        toks,
                        i + 1,
                        m,
                        truthy,
                        seen_else,
                        unclosed - 1,
                        (f - 1) as nat,
                    );
                }
            } else if c == "if"@ {
                lemma_if_scan_rests_on_fi(
                    toks,
                    i + 1,
                    m,
                    truthy,
                    seen_else,
                    unclosed + 1,
                    (f - 1) as nat,
                );
            } else if c == "else"@ && unclosed == 0 && !seen_else {
                lemma_if_scan_rests_on_fi(toks, i + 1, m, truthy, true, unclosed, (f - 1) as nat);
            } else {
                lemma_if_scan_rests_on_fi(toks, i + 1, m, truthy, seen_else, unclosed, (f - 1) as nat);
            }
        }
    }
}

/// Law: a conditional never completes silently without its `fi`. When the
/// dispatch of an `if` returns normally, the cursor rests on a token spelled
/// `fi`; an input that ends first is the `UnclosedIf` fault or, under a too
/// small budget, the exhausted-budget stop — never a normal return.
pub proof fn lemma_conditional_ends_on_fi(toks: Seq<TokenModel>, i: int, m: Model, fuel: nat)
    requires
        0 <= i,
    ensures
        if_run(toks, i, m, fuel).stop is None ==> toks[if_run(toks, i, m, fuel).ptr].content
            == "fi"@,
{
    if m.stack.len() != 0 {
        lemma_if_scan_rests_on_fi(toks, i + 1, m, m.stack.last() != 0, false, 0, fuel);
    }
}

/// Law: a loop's body pass never completes silently without an `end`: when
/// one pass returns normally, the cursor rests on a token spelled `end`.
pub proof fn lemma_loop_pass_ends_on_end(toks: Seq<TokenModel>, i: int, m: Model, g: nat)
    requires
        0 <= i,
    ensures
        while_scan(toks, i, m, g).stop is None ==> toks[while_scan(toks, i, m, g).ptr].content
            == "end"@,
    decreases g,
{
    if i >= toks.len() {
    } else if toks[i].content == "end"@ {
    } else if i + 1 >= toks.len() {
    } else if g == 0 {
    } else {
        lemma_step_token_bounds(toks, i + 1, m, (g - 1) as nat);
        let st = step_token(toks, i + 1, m, (g - 1) as nat);
        if st.stop is None {
            lemma_loop_pass_ends_on_end(toks, st.ptr, st.m, (g - 1) as nat);
        }
    }
}

/// Law: a loop returns normally exactly by its condition reaching zero: the
/// cursor is back on the `while` token and the peeked top of the stack is
/// `0`. A loop whose condition never reaches zero never returns normally —
/// it faults or exhausts its step budget.
pub proof fn lemma_loop_exit_condition(toks: Seq<TokenModel>, start: int, m: Model, fuel: nat)
    ensures
        ({
            let er = while_loop(toks, start, m, fuel);
            er.stop is None ==> er.ptr == start && er.m.stack.len() > 0 && er.m.stack.last() == 0
        }),
    decreases fuel,
{
    if m.stack.len() == 0 {
    } else if m.stack.last() == 0 {
    } else if fuel == 0 {
    } else {
        let sc = while_scan(toks, start, m, (fuel - 1) as nat);
        if sc.stop is None {
            lemma_loop_exit_condition(toks, start, sc.m, (fuel - 1) as nat);
        }
    }
}

} // verus!

