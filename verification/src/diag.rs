//! Diagnostic text: the one message shape every fault report uses.

use vstd::prelude::*;
use crate::text::dec_rep;

verus! {

/// The text of a diagnostic: the message followed by the 1-based line and
/// column of the offending character.
pub open spec fn error_text(msg: Seq<char>, line: int, pos: int) -> Seq<char> {
    "Error: "@ + msg + " at line "@ + dec_rep(line) + ", pos "@ + dec_rep(pos)
}

/// Relies on `String: FromIterator<char>` (`Iterator::collect`): collecting
/// characters yields the string holding exactly those characters in order.
#[verifier::external_body]
fn string_from_chars(v: &Vec<char>) -> (r: String)
    ensures
        r@ == v@,
{
    v.iter().collect()
}

/// Appends every character of `s` to `out`.
fn push_str_chars(out: &mut Vec<char>, s: &str)
    ensures
        final(out)@ == old(out)@ + s@,
{
    let n = s.unicode_len();
    let mut i: usize = 0;
    while i < n
        invariant
            0 <= i <= n,
            n == s@.len(),
            out@ == old(out)@ + s@.take(i as int),
        decreases n - i,
    {
        out.push(s.get_char(i));
        proof {
            assert(old(out)@ + s@.take(i + 1) =~= (old(out)@ + s@.take(i as int)).push(s@[i as int]));
        }
        i += 1;
    }
    proof {
        assert(s@.take(n as int) =~= s@);
    }
}

/// Formats a diagnostic with the line and column it belongs to.
pub fn error(msg: &str, line: u64, pos: u64) -> (r: String)
    ensures
        r@ == error_text(msg@, line as int, pos as int),
{
    let mut v: Vec<char> = Vec::new();
    push_str_chars(&mut v, "Error: ");
    push_str_chars(&mut v, msg);
    push_str_chars(&mut v, " at line ");
    crate::text::push_u64_dec(&mut v, line);
    push_str_chars(&mut v, ", pos ");
    crate::text::push_u64_dec(&mut v, pos);
    let r = string_from_chars(&v);
    proof {
        assert(v@ =~= error_text(msg@, line as int, pos as int));
    }
    r
}

} // verus!
