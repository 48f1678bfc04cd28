//! String literals as written in the source: quoted, with escapes.

use vstd::prelude::*;

verus! {

/// One character of a literal's body, read in the state left by the
/// characters before it: the output so far, and whether a backslash waits.
pub open spec fn unescape_step(st: (Seq<char>, bool), c: char) -> (Seq<char>, bool) {
    let (out, escaped) = st;
    if c == '\\' && !escaped {
        (out, true)
    } else if c == 'n' && escaped {
        (out.push('\n'), false)
    } else if c == 't' && escaped {
        (out.push('\t'), false)
    } else {
        (out.push(c), false)
    }
}

/// The state after reading all of `body`.
pub open spec fn unescape_state(body: Seq<char>) -> (Seq<char>, bool)
    decreases body.len(),
{
    if body.len() == 0 {
        (seq![], false)
    } else {
        unescape_step(unescape_state(body.drop_last()), body.last())
    }
}

/// The characters a quoted literal stands for: the quotes are dropped,
/// `\n` and `\t` become newline and tab, a backslash before any other
/// character stands for that character, and a trailing lone backslash is
/// dropped.
pub open spec fn unescaped(lit: Seq<char>) -> Seq<char> {
    unescape_state(lit.subrange(1, lit.len() - 1)).0
}

/// The characters that the quoted literal `lit` stands for.
pub fn unescape(lit: &Vec<char>) -> (r: Vec<char>)
    requires
        lit@.len() >= 2,
    ensures
        r@ == unescaped(lit@),
{
    let end = lit.len() - 1;
    let mut out: Vec<char> = Vec::new();
    let mut backslash = false;
    let mut i: usize = 1;
    while i < end
        invariant
            1 <= i <= end,
            end == lit@.len() - 1,
            (out@, backslash) == unescape_state(lit@.subrange(1, i as int)),
        decreases end - i,
    {
        let c = lit[i];
        assert(lit@.subrange(1, i as int + 1).drop_last() == lit@.subrange(1, i as int));
        let escaped = backslash;
        backslash = false;
        if c == '\\' && !escaped {
            backslash = true;
        } else if c == 'n' && escaped {
            out.push('\n');
        } else if c == 't' && escaped {
            out.push('\t');
        } else {
            out.push(c);
        }
        i = i + 1;
    }
    out
}

} // verus!
