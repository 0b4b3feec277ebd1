use stackscript::diag::error;
use stackscript::eval::evaluate;
use stackscript::lex::{lex, Maybe};
use stackscript::machine::{Fault, Machine, Stop};
use stackscript::text::parse_i64;
use stackscript::token::{Token, TokenColelction, TokenKind};

const FUEL: u64 = 1_000_000;

fn run_with(
    source: &str,
    input: &[&str],
    env: &[(&str, &str)],
) -> (Result<(), Stop>, Machine) {
    let toks = match lex(source) {
        Maybe::Just(t) => t,
        Maybe::Error(e) => panic!("unexpected lexical fault: {}", e),
    };
    let lines: Vec<Vec<char>> = input.iter().map(|l| l.chars().collect()).collect();
    let envv: Vec<(Vec<char>, Vec<char>)> = env
        .iter()
        .map(|(k, v)| (k.chars().collect(), v.chars().collect()))
        .collect();
    let mut m = Machine::new(lines, envv);
    let r = evaluate(toks, &mut m, FUEL);
    (r, m)
}

fn run(source: &str) -> (Result<(), Stop>, Machine) {
    run_with(source, &[], &[])
}

fn out_text(m: &Machine) -> String {
    m.out.iter().collect()
}

#[test]
fn integer_literal_lands_on_stack() {
    let (r, m) = run("42");
    assert_eq!(r, Ok(()));
    assert_eq!(m.stack, vec![42]);
}

#[test]
fn largest_integer_literal() {
    let (r, m) = run("9223372036854775807");
    assert_eq!(r, Ok(()));
    assert_eq!(m.stack, vec![i64::MAX]);
}

#[test]
fn integer_literal_out_of_range_is_fatal() {
    let (r, _) = run("9223372036854775808");
    assert_eq!(r, Err(Stop::Fail(Fault::BadInt)));
}

#[test]
fn addition_and_subtraction_convention() {
    let (r, m) = run("5 3 +");
    assert_eq!(r, Ok(()));
    assert_eq!(m.stack, vec![8]);
    let (r2, m2) = run("5 3 -");
    assert_eq!(r2, Ok(()));
    assert_eq!(m2.stack, vec![2]);
}

#[test]
fn multiplication_division_truncates() {
    let (r, m) = run("6 4 *");
    assert_eq!(r, Ok(()));
    assert_eq!(m.stack, vec![24]);
    let (r2, m2) = run("7 2 /");
    assert_eq!(r2, Ok(()));
    assert_eq!(m2.stack, vec![3]);
}

#[test]
fn euclidean_remainder() {
    let (r, m) = run("7 2 %");
    assert_eq!(r, Ok(()));
    assert_eq!(m.stack, vec![1]);
}

#[test]
fn euclidean_remainder_negative_dividend() {
    // A leading minus makes a word, not a literal, so the negative value is
    // put on the stack by a hand-built integer token.
    let toks = vec![
        Token { kind: TokenKind::Integer, content: "-1".chars().collect(), line: 1, pos: 1 },
        Token { kind: TokenKind::Integer, content: "3".chars().collect(), line: 1, pos: 4 },
        Token { kind: TokenKind::Word, content: "%".chars().collect(), line: 1, pos: 6 },
    ];
    let mut m = Machine::new(vec![], vec![]);
    let r = evaluate(toks, &mut m, FUEL);
    assert_eq!(r, Ok(()));
    assert_eq!(m.stack, vec![2]);
}

#[test]
fn minus_prefixed_numeral_is_an_unknown_word() {
    let (r, _) = run("-1 3 %");
    assert_eq!(r, Err(Stop::Fail(Fault::UnknownWord)));
}

#[test]
fn division_by_zero_is_fatal() {
    let (r, _) = run("7 0 /");
    assert_eq!(r, Err(Stop::Fail(Fault::DivideByZero)));
    let (r2, _) = run("7 0 %");
    assert_eq!(r2, Err(Stop::Fail(Fault::DivideByZero)));
}

#[test]
fn addition_overflow_is_fatal() {
    let (r, _) = run("9223372036854775807 1 +");
    assert_eq!(r, Err(Stop::Fail(Fault::Overflow)));
}

#[test]
fn comparisons_push_one_or_zero() {
    let (r, m) = run("1 2 <");
    assert_eq!(r, Ok(()));
    assert_eq!(m.stack, vec![1]);
    let (r2, m2) = run("2 2 ==");
    assert_eq!(r2, Ok(()));
    assert_eq!(m2.stack, vec![1]);
    let (r3, m3) = run("3 2 <=");
    assert_eq!(r3, Ok(()));
    assert_eq!(m3.stack, vec![0]);
    let (r4, m4) = run("3 2 >=");
    assert_eq!(r4, Ok(()));
    assert_eq!(m4.stack, vec![1]);
    let (r5, m5) = run("3 2 !=");
    assert_eq!(r5, Ok(()));
    assert_eq!(m5.stack, vec![1]);
    let (r6, m6) = run("3 2 >");
    assert_eq!(r6, Ok(()));
    assert_eq!(m6.stack, vec![1]);
}

#[test]
fn clone_and_pop() {
    let (r, m) = run("5 clone +");
    assert_eq!(r, Ok(()));
    assert_eq!(m.stack, vec![10]);
    let (r2, m2) = run("1 2 pop");
    assert_eq!(r2, Ok(()));
    assert_eq!(m2.stack, vec![1]);
}

#[test]
fn empty_stack_operators_fault() {
    for w in ["+", "-", "*", "/", "%", "==", "!=", "<", ">", "<=", ">=", "pop", "clone",
        "printint", "putchar", "putstring", "env"] {
        let (r, _) = run(w);
        assert_eq!(r, Err(Stop::Fail(Fault::StackUnderflow)), "word {}", w);
    }
}

#[test]
fn one_operand_binary_word_still_underflows() {
    let (r, _) = run("5 +");
    assert_eq!(r, Err(Stop::Fail(Fault::StackUnderflow)));
}

#[test]
fn conditional_true_branch() {
    let (r, m) = run("1 if 42 else 99 fi");
    assert_eq!(r, Ok(()));
    assert_eq!(m.stack, vec![1, 42]);
}

#[test]
fn conditional_false_branch() {
    let (r, m) = run("0 if 42 else 99 fi");
    assert_eq!(r, Ok(()));
    assert_eq!(m.stack, vec![0, 99]);
}

#[test]
fn conditional_without_else_false_runs_nothing() {
    let (r, m) = run("0 if 42 fi");
    assert_eq!(r, Ok(()));
    assert_eq!(m.stack, vec![0]);
}

#[test]
fn skipped_branch_is_never_evaluated() {
    // The skipped branch holds a nested conditional and a word that would
    // fault; none of it may run.
    let (r, m) = run("0 if bogus 1 if mystery fi else 7 fi");
    assert_eq!(r, Ok(()));
    assert_eq!(m.stack, vec![0, 7]);
    let (r2, m2) = run("1 if 5 else bogus 0 if mystery fi fi");
    assert_eq!(r2, Ok(()));
    assert_eq!(m2.stack, vec![1, 5]);
}

#[test]
fn unterminated_if_is_fatal() {
    let (r, _) = run("1 if 2");
    assert_eq!(r, Err(Stop::Fail(Fault::UnclosedIf)));
    let (r2, _) = run("0 if 2");
    assert_eq!(r2, Err(Stop::Fail(Fault::UnclosedIf)));
}

#[test]
fn while_loop_counts_down() {
    // The loop leaves the cursor on the `while` token, so the body runs once
    // more in a straight line after the condition reaches zero.
    let (r, m) = run("3 while 1 - end");
    assert_eq!(r, Ok(()));
    assert_eq!(m.stack, vec![-1]);
}

#[test]
fn while_false_condition_still_walks_body_once() {
    let (r, m) = run("0 while 7 end");
    assert_eq!(r, Ok(()));
    assert_eq!(m.stack, vec![0, 7]);
}

#[test]
fn while_that_never_ends_runs_out_of_steps() {
    let toks = match lex("1 while end") {
        Maybe::Just(t) => t,
        Maybe::Error(e) => panic!("unexpected lexical fault: {}", e),
    };
    let mut m = Machine::new(vec![], vec![]);
    let r = evaluate(toks, &mut m, 10_000);
    assert_eq!(r, Err(Stop::OutOfSteps));
}

#[test]
fn unterminated_while_is_fatal() {
    let (r, _) = run("1 while 2");
    assert_eq!(r, Err(Stop::Fail(Fault::UnclosedWhile)));
}

#[test]
fn stray_structure_words_are_inert() {
    let (r, m) = run("fi else end 5");
    assert_eq!(r, Ok(()));
    assert_eq!(m.stack, vec![5]);
}

#[test]
fn unknown_word_is_fatal() {
    let (r, _) = run("5 frobnicate");
    assert_eq!(r, Err(Stop::Fail(Fault::UnknownWord)));
}

#[test]
fn printint_prints_without_popping() {
    let (r, m) = run("65 printint");
    assert_eq!(r, Ok(()));
    assert_eq!(m.stack, vec![65]);
    assert_eq!(out_text(&m), "65");
    let (r2, m2) = run("0 9 - printint");
    assert_eq!(r2, Ok(()));
    assert_eq!(out_text(&m2), "-9");
}

#[test]
fn putchar_pops_and_prints() {
    let (r, m) = run("65 putchar");
    assert_eq!(r, Ok(()));
    assert!(m.stack.is_empty());
    assert_eq!(out_text(&m), "A");
}

#[test]
fn putchar_out_of_byte_range_is_fatal() {
    let (r, _) = run("300 putchar");
    assert_eq!(r, Err(Stop::Fail(Fault::ByteRange)));
    let (r2, _) = run("0 1 - putchar");
    assert_eq!(r2, Err(Stop::Fail(Fault::ByteRange)));
}

#[test]
fn string_literal_and_putstring() {
    let (r, m) = run("\"hi there\" putstring");
    assert_eq!(r, Ok(()));
    assert!(m.stack.is_empty());
    assert_eq!(out_text(&m), "hi there");
}

#[test]
fn character_literal_pushes_its_code() {
    let (r, m) = run("'a'");
    assert_eq!(r, Ok(()));
    assert_eq!(m.stack, vec![97]);
}

#[test]
fn empty_character_token_is_fatal() {
    let toks = vec![Token {
        kind: TokenKind::Character,
        content: Vec::new(),
        line: 1,
        pos: 1,
    }];
    let mut m = Machine::new(vec![], vec![]);
    let r = evaluate(toks, &mut m, FUEL);
    assert_eq!(r, Err(Stop::Fail(Fault::EmptyCharacter)));
}

#[test]
fn long_character_literal_is_a_lexical_fault() {
    match lex("'ab'") {
        Maybe::Just(_) => panic!("a two-character literal must not tokenize"),
        Maybe::Error(e) => assert_eq!(e, "Error: Bad char format at line 1, pos 3"),
    }
}

#[test]
fn comments_are_discarded_to_end_of_line() {
    let (r, m) = run("1 # 2 3 bogus \"\n4");
    assert_eq!(r, Ok(()));
    assert_eq!(m.stack, vec![1, 4]);
}

#[test]
fn scanint_trims_and_parses() {
    let (r, m) = run_with("scanint", &["  42  "], &[]);
    assert_eq!(r, Ok(()));
    assert_eq!(m.stack, vec![42]);
    let (r2, m2) = run_with("scanint", &["-17"], &[]);
    assert_eq!(r2, Ok(()));
    assert_eq!(m2.stack, vec![-17]);
}

#[test]
fn scanint_rejects_non_numeric_input() {
    let (r, _) = run_with("scanint", &["nope"], &[]);
    assert_eq!(r, Err(Stop::Fail(Fault::BadInt)));
}

#[test]
fn scan_with_no_input_line_is_fatal() {
    let (r, _) = run("scanint");
    assert_eq!(r, Err(Stop::Fail(Fault::NoInput)));
    let (r2, _) = run("scanstring");
    assert_eq!(r2, Err(Stop::Fail(Fault::NoInput)));
}

#[test]
fn scanstring_then_putstring_round_trips() {
    let (r, m) = run_with("scanstring putstring", &["hello world"], &[]);
    assert_eq!(r, Ok(()));
    assert!(m.stack.is_empty());
    assert_eq!(out_text(&m), "hello world");
    assert_eq!(m.next_line, 1);
}

#[test]
fn env_lookup_pushes_the_value() {
    let (r, m) = run_with("\"HOME\" env putstring", &[], &[("HOME", "/root")]);
    assert_eq!(r, Ok(()));
    assert_eq!(out_text(&m), "/root");
    // The key's sentinel stays behind on the stack.
    assert_eq!(m.stack, vec![0]);
}

#[test]
fn missing_environment_variable_is_fatal() {
    let (r, _) = run_with("\"NOPE\" env", &[], &[("HOME", "/root")]);
    assert_eq!(r, Err(Stop::Fail(Fault::MissingEnv)));
}

#[test]
fn string_directly_after_a_word_starts_fresh() {
    let (r, m) = run("5 printint\"!\" putstring");
    assert_eq!(r, Ok(()));
    assert_eq!(out_text(&m), "5!");
}

#[test]
fn digits_extend_an_open_word() {
    // A digit after a word continues the word; such a word matches nothing.
    let (r, _) = run("pop1");
    assert_eq!(r, Err(Stop::Fail(Fault::UnknownWord)));
}

#[test]
fn word_directly_after_integer_is_split() {
    // A non-digit after an integer closes it and seeds a new word.
    let (r, m) = run("5 3+");
    assert_eq!(r, Ok(()));
    assert_eq!(m.stack, vec![8]);
}

#[test]
fn parse_i64_accepts_signs_and_rejects_junk() {
    let v: Vec<char> = "123".chars().collect();
    assert_eq!(parse_i64(&v), Some(123));
    let v: Vec<char> = "-9223372036854775808".chars().collect();
    assert_eq!(parse_i64(&v), Some(i64::MIN));
    let v: Vec<char> = "+7".chars().collect();
    assert_eq!(parse_i64(&v), Some(7));
    let v: Vec<char> = "".chars().collect();
    assert_eq!(parse_i64(&v), None);
    let v: Vec<char> = "12a".chars().collect();
    assert_eq!(parse_i64(&v), None);
    let v: Vec<char> = "9223372036854775808".chars().collect();
    assert_eq!(parse_i64(&v), None);
}

#[test]
fn error_formats_line_and_position() {
    assert_eq!(error("Boom", 3, 7), "Error: Boom at line 3, pos 7");
}

#[test]
fn cursor_walks_and_jumps() {
    let toks = match lex("1 2") {
        Maybe::Just(t) => t,
        Maybe::Error(e) => panic!("unexpected lexical fault: {}", e),
    };
    let mut c = TokenColelction::new(toks);
    assert!(c.running());
    assert_eq!(c.curent().unwrap().kind, TokenKind::Integer);
    c.next();
    c.next();
    c.set(0);
    assert_eq!(c.pointer, 0);
    assert!(c.running());
}

#[test]
fn nested_conditional_in_executed_branch() {
    let (r, m) = run("1 if 1 if 5 fi 6 fi");
    assert_eq!(r, Ok(()));
    assert_eq!(m.stack, vec![1, 1, 5, 6]);
}

#[test]
fn loop_inside_executed_conditional() {
    let (r, m) = run("1 if 2 while 1 - end fi");
    assert_eq!(r, Ok(()));
    assert_eq!(m.stack, vec![1, -1]);
}

#[test]
fn scanint_trims_unicode_whitespace() {
    let (r, m) = run_with("scanint", &["\u{A0}\u{2003} 42 \u{A0}"], &[]);
    assert_eq!(r, Ok(()));
    assert_eq!(m.stack, vec![42]);
}
