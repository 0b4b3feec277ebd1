//! The tokenizer: one pass over the source text, one open token at a time.
//!
//! The whole pass is specified by a fold: `lex_run` applies the per-character
//! transition `lex_step` to every character of the input, and `lex` returns
//! exactly the tokens of that fold, or the one lexical fault the fold records
//! (a character literal whose payload is longer than one character).

use vstd::prelude::*;
use crate::token::{Token, TokenKind, TokenModel};
use crate::diag::{error, error_text};
use crate::is_ascii_digit;

verus! {

/// A successful result or a formatted diagnostic.
pub enum Maybe<T> {
    Just(T),
    Error(String),
}

/// The tokenizer's state between two characters: the finished tokens, the one
/// still-open token, the 1-based line and the column of the last consumed
/// character, whether a comment is being skipped, and the position of the
/// lexical fault if one has been found (a fault ends the pass: every later
/// character leaves the state unchanged).
#[verifier::ext_equal]
pub ghost struct LexState {
    pub done: Seq<TokenModel>,
    pub cur: TokenModel,
    pub line: int,
    pub pos: int,
    pub in_comment: bool,
    pub fail: Option<(int, int)>,
}

/// The state before any character: no finished token, an empty placeholder
/// open, at line 1 before the first column.
pub open spec fn lex_init() -> LexState {
    LexState {
        done: Seq::empty(),
        cur: TokenModel { kind: TokenKind::Empty, content: Seq::empty(), line: 0, pos: 0 },
        line: 1,
        pos: 0,
        in_comment: false,
        fail: None,
    }
}

/// One character of tokenization. Classification is driven by the kind of the
/// open token: digits extend it (opening an integer from a placeholder);
/// an apostrophe opens a character literal or closes the open token; a double
/// quote opens a string literal, directly after another token if need be, or
/// closes the open one; a space or newline ends an integer or word, is content
/// inside string and character literals, and checks a character literal's
/// payload length; `#` starts a comment that runs to the end of the line; any
/// other character extends the open token, turns a placeholder into a word, or
/// ends an integer and opens a word seeded with itself.
pub open spec fn lex_step(st: LexState, c: char) -> LexState {
    if st.fail is Some {
        st
    } else if st.in_comment {
        if c == '\n' {
            LexState { line: st.line + 1, pos: 0, in_comment: false, ..st }
        } else {
            LexState { pos: st.pos + 1, ..st }
        }
    } else {
        let l = st.line;
        let p = st.pos + 1;
        if c == '#' {
            LexState { pos: p, in_comment: true, ..st }
        } else if is_ascii_digit(c) {
            if st.cur.kind == TokenKind::Empty {
                LexState {
                    cur: TokenModel { kind: TokenKind::Integer, content: seq![c], line: l, pos: p },
                    pos: p,
                    ..st
                }
            } else {
                LexState {
                    cur: TokenModel { content: st.cur.content.push(c), ..st.cur },
                    pos: p,
                    ..st
                }
            }
        } else if c == '\'' {
            if st.cur.kind == TokenKind::Empty {
                LexState {
                    cur: TokenModel { kind: TokenKind::Character, content: st.cur.content, line: l, pos: p },
                    pos: p,
                    ..st
                }
            } else {
                LexState {
                    done: st.done.push(st.cur),
                    cur: TokenModel { kind: TokenKind::Empty, content: Seq::empty(), line: l, pos: p },
                    pos: p,
                    ..st
                }
            }
        } else if c == '"' {
            if st.cur.kind == TokenKind::Empty {
                LexState {
                    cur: TokenModel { kind: TokenKind::Text, content: st.cur.content, line: l, pos: p },
                    pos: p,
                    ..st
                }
            } else if st.cur.kind != TokenKind::Text {
                LexState {
                    done: st.done.push(st.cur),
                    cur: TokenModel { kind: TokenKind::Text, content: Seq::empty(), line: l, pos: p },
                    pos: p,
                    ..st
                }
            } else {
                LexState {
                    done: st.done.push(st.cur),
                    cur: TokenModel { kind: TokenKind::Empty, content: Seq::empty(), line: l, pos: p },
                    pos: p,
                    ..st
                }
            }
        } else if c == ' ' || c == '\n' {
            let nl = if c == '\n' { st.line + 1 } else { st.line };
            let np = if c == '\n' { 0 } else { p };
            if st.cur.kind == TokenKind::Integer || st.cur.kind == TokenKind::Word {
                LexState {
                    done: st.done.push(st.cur),
                    cur: TokenModel { kind: TokenKind::Empty, content: Seq::empty(), line: nl, pos: np },
                    line: nl,
                    pos: np,
                    ..st
                }
            } else if st.cur.kind == TokenKind::Character {
                if st.cur.content.len() == 1 {
                    LexState { line: nl, pos: np, fail: Some((l, p)), ..st }
                } else {
                    LexState {
                        cur: TokenModel { content: st.cur.content.push(c), ..st.cur },
                        line: nl,
                        pos: np,
                        ..st
                    }
                }
            } else if st.cur.kind == TokenKind::Text {
                LexState {
                    cur: TokenModel { content: st.cur.content.push(c), ..st.cur },
                    line: nl,
                    pos: np,
                    ..st
                }
            } else {
                LexState { line: nl, pos: np, ..st }
            }
        } else {
            if st.cur.kind == TokenKind::Character {
                if st.cur.content.len() == 1 {
                    LexState { pos: p, fail: Some((l, p)), ..st }
                } else {
                    LexState {
                        cur: TokenModel { content: st.cur.content.push(c), ..st.cur },
                        pos: p,
                        ..st
                    }
                }
            } else if st.cur.kind == TokenKind::Integer {
                LexState {
                    done: st.done.push(st.cur),
                    cur: TokenModel { kind: TokenKind::Word, content: seq![c], line: l, pos: p },
                    pos: p,
                    ..st
                }
            } else if st.cur.kind == TokenKind::Empty {
                LexState {
                    cur: TokenModel { kind: TokenKind::Word, content: seq![c], line: l, pos: p },
                    pos: p,
                    ..st
                }
            } else {
                LexState {
                    cur: TokenModel { content: st.cur.content.push(c), ..st.cur },
                    pos: p,
                    ..st
                }
            }
        }
    }
}

/// The tokenizer's state after the whole input: `lex_step` folded over it.
pub open spec fn lex_run(s: Seq<char>) -> LexState
    decreases s.len(),
{
    if s.len() == 0 {
        lex_init()
    } else {
        lex_step(lex_run(s.drop_last()), s.last())
    }
}

/// The token sequence of a finished pass: the finished tokens followed by the
/// still-open one.
pub open spec fn lex_tokens(st: LexState) -> Seq<TokenModel> {
    st.done.push(st.cur)
}

/// Unfolds the fold by one character.
pub proof fn lemma_lex_run_extend(s: Seq<char>, i: int)
    requires
        0 <= i < s.len(),
    ensures
        lex_run(s.take(i + 1)) == lex_step(lex_run(s.take(i)), s[i]),
{
    assert(s.take(i + 1).drop_last() =~= s.take(i));
    assert(s.take(i + 1).last() == s[i]);
}

/// Once a prefix has failed, the rest of the input changes nothing.
pub proof fn lemma_lex_fail_latches(s: Seq<char>, i: int)
    requires
        0 <= i <= s.len(),
        lex_run(s.take(i)).fail is Some,
    ensures
        lex_run(s) == lex_run(s.take(i)),
    decreases s.len() - i,
{
    if i < s.len() {
        lemma_lex_run_extend(s, i);
        lemma_lex_fail_latches(s, i + 1);
    } else {
        assert(s.take(i) =~= s);
    }
}

/// Tokenizes the source text: returns exactly the tokens of the specification
/// fold, or the diagnostic for the fold's lexical fault.
pub fn lex(content: &str) -> (r: Maybe<Vec<Token>>)
    requires
        content@.len() < usize::MAX,
    ensures
        ({
            let st = lex_run(content@);
            match r {
                Maybe::Just(toks) => st.fail is None && toks@.map_values(|t: Token| t@)
                    == lex_tokens(st),
                Maybe::Error(msg) => st.fail is Some && msg@ == error_text(
                    "Bad char format"@,
                    st.fail.unwrap().0,
                    st.fail.unwrap().1,
                ),
            }
        }),
{
    let n = content.unicode_len();
    let mut done: Vec<Token> = Vec::new();
    let mut cur_kind = TokenKind::Empty;
    let mut cur_content: Vec<char> = Vec::new();
    let mut cur_line: u64 = 0;
    let mut cur_pos: u64 = 0;
    let mut line: u64 = 1;
    let mut pos: u64 = 0;
    let mut in_comment = false;
    let mut i: usize = 0;
    proof {
        assert(content@.take(0) =~= Seq::<char>::empty());
    }
    while i < n
        invariant
            0 <= i <= n,
            n == content@.len(),
            n < usize::MAX,
            pos <= i,
            line <= 1 + i,
            cur_kind == TokenKind::Empty ==> cur_content@ == Seq::<char>::empty(),
            ({
                let st = lex_run(content@.take(i as int));
                st.fail is None && st.done == done@.map_values(|t: Token| t@) && st.cur
                    == (TokenModel {
                    kind: cur_kind,
                    content: cur_content@,
                    line: cur_line as int,
                    pos: cur_pos as int,
                }) && st.line == line as int && st.pos == pos as int && st.in_comment
                    == in_comment
            }),
        decreases n - i,
    {
        let c = content.get_char(i);
        proof {
            lemma_lex_run_extend(content@, i as int);
        }
        let ghost pre = lex_run(content@.take(i as int));
        let ghost post = lex_run(content@.take(i + 1));
        if in_comment {
            if c == '\n' {
                line += 1;
                pos = 0;
                in_comment = false;
            } else {
                pos += 1;
            }
        } else {
            let l = line;
            let p = pos + 1;
            if c == '#' {
                pos = p;
                in_comment = true;
            } else if '0' <= c && c <= '9' {
                if cur_kind == TokenKind::Empty {
                    cur_kind = TokenKind::Integer;
                    cur_content.push(c);
                    cur_line = l;
                    cur_pos = p;
                } else {
                    cur_content.push(c);
                }
                pos = p;
            } else if c == '\'' {
                if cur_kind == TokenKind::Empty {
                    cur_kind = TokenKind::Character;
                    cur_line = l;
                    cur_pos = p;
                } else {
                    let finished = Token { kind: cur_kind, content: cur_content, line: cur_line, pos: cur_pos };
                    done.push(finished);
                    proof {
                        assert(done@.map_values(|t: Token| t@) =~= pre.done.push(pre.cur));
                    }
                    cur_kind = TokenKind::Empty;
                    cur_content = Vec::new();
                    cur_line = l;
                    cur_pos = p;
                }
                pos = p;
            } else if c == '"' {
                if cur_kind == TokenKind::Empty {
                    cur_kind = TokenKind::Text;
                    cur_line = l;
                    cur_pos = p;
                } else if cur_kind != TokenKind::Text {
                    let finished = Token { kind: cur_kind, content: cur_content, line: cur_line, pos: cur_pos };
                    done.push(finished);
                    proof {
                        assert(done@.map_values(|t: Token| t@) =~= pre.done.push(pre.cur));
                    }
                    cur_kind = TokenKind::Text;
                    cur_content = Vec::new();
                    cur_line = l;
                    cur_pos = p;
                } else {
                    let finished = Token { kind: cur_kind, content: cur_content, line: cur_line, pos: cur_pos };
                    done.push(finished);
                    proof {
                        assert(done@.map_values(|t: Token| t@) =~= pre.done.push(pre.cur));
                    }
                    cur_kind = TokenKind::Empty;
                    cur_content = Vec::new();
                    cur_line = l;
                    cur_pos = p;
                }
                pos = p;
            } else if c == ' ' || c == '\n' {
                if c == '\n' {
                    line += 1;
                    pos = 0;
                } else {
                    pos = p;
                }
                if cur_kind == TokenKind::Integer || cur_kind == TokenKind::Word {
                    let finished = Token { kind: cur_kind, content: cur_content, line: cur_line, pos: cur_pos };
                    done.push(finished);
                    proof {
                        assert(done@.map_values(|t: Token| t@) =~= pre.done.push(pre.cur));
                    }
                    cur_kind = TokenKind::Empty;
                    cur_content = Vec::new();
                    cur_line = line;
                    cur_pos = pos;
                } else if cur_kind == TokenKind::Character {
                    if cur_content.len() == 1 {
                        proof {
                            lemma_lex_fail_latches(content@, i + 1);
                        }
                        return Maybe::Error(error("Bad char format", l, p));
                    }
                    cur_content.push(c);
                } else if cur_kind == TokenKind::Text {
                    cur_content.push(c);
                }
            } else {
                if cur_kind == TokenKind::Character {
                    if cur_content.len() == 1 {
                        proof {
                            lemma_lex_fail_latches(content@, i + 1);
                        }
                        return Maybe::Error(error("Bad char format", l, p));
                    }
                    cur_content.push(c);
                } else if cur_kind == TokenKind::Integer {
                    let finished = Token { kind: cur_kind, content: cur_content, line: cur_line, pos: cur_pos };
                    done.push(finished);
                    proof {
                        assert(done@.map_values(|t: Token| t@) =~= pre.done.push(pre.cur));
                    }
                    cur_kind = TokenKind::Word;
                    cur_content = Vec::new();
                    cur_content.push(c);
                    cur_line = l;
                    cur_pos = p;
                } else if cur_kind == TokenKind::Empty {
                    cur_kind = TokenKind::Word;
                    cur_content.push(c);
                    cur_line = l;
                    cur_pos = p;
                } else {
                    cur_content.push(c);
                }
                pos = p;
            }
        }
        proof {
            assert(seq![c] =~= Seq::<char>::empty().push(c));
        }
        i += 1;
    }
    proof {
        assert(content@.take(n as int) =~= content@);
    }
    let last = Token { kind: cur_kind, content: cur_content, line: cur_line, pos: cur_pos };
    done.push(last);
    proof {
        let st = lex_run(content@);
        assert(done@.map_values(|t: Token| t@) =~= lex_tokens(st));
    }
    Maybe::Just(done)
}

} // verus!
