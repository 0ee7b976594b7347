//! The cursor: a one-character-lookahead reader over an immutable buffer,
//! with a greedy `consume_while` step.

use vstd::prelude::*;

use crate::chars::CharClass;
use crate::chars::class_matches;
use crate::chars::in_class;
use crate::strutil::string_from_chars;

verus! {

/// Where the greedy scan from `i` stops: the first position at or after
/// `i` whose character falls outside `cls`, or the end of the buffer.
pub open spec fn run_end(s: Seq<char>, i: int, cls: CharClass) -> int
    decreases s.len() - i,
        when 0 <= i <= s.len()
{
    if i >= s.len() || !in_class(cls, s[i]) {
        i
    } else {
        run_end(s, i + 1, cls)
    }
}

/// The scan stops within bounds, covers only characters of the class, and
/// stops at the first character outside it.
pub proof fn lemma_run_end(s: Seq<char>, i: int, cls: CharClass)
    requires
        0 <= i <= s.len(),
    ensures
        i <= run_end(s, i, cls) <= s.len(),
        forall|j: int| i <= j < run_end(s, i, cls) ==> in_class(cls, s[j]),
        run_end(s, i, cls) == s.len() || !in_class(cls, s[run_end(s, i, cls)]),
    decreases s.len() - i,
{
    if i < s.len() && in_class(cls, s[i]) {
        lemma_run_end(s, i + 1, cls);
    }
}

/// A character of the class at `i` pushes the stop of the scan past `i`.
pub proof fn lemma_run_end_step(s: Seq<char>, i: int, cls: CharClass)
    requires
        0 <= i < s.len(),
        in_class(cls, s[i]),
    ensures
        run_end(s, i, cls) == run_end(s, i + 1, cls),
        run_end(s, i, cls) >= i + 1,
{
    lemma_run_end(s, i + 1, cls);
}

/// Greedily consumes the longest run of characters of `cls` starting at
/// `pos`, returning the run and the position after it.
pub fn consume_while(input: &Vec<char>, pos: usize, cls: CharClass) -> (r: (String, usize))
    requires
        pos <= input@.len(),
    ensures
        r.1 == run_end(input@, pos as int, cls),
        r.0@ == input@.subrange(pos as int, r.1 as int),
        pos <= r.1 <= input@.len(),
{
    let ghost s = input@;
    let mut j: usize = pos;
    let mut buf: Vec<char> = Vec::new();
    proof {
        assert(buf@ =~= s.subrange(pos as int, pos as int));
    }
    while j < input.len() && class_matches(cls, input[j])
        invariant
            pos <= j <= s.len(),
            input@ == s,
            buf@ == s.subrange(pos as int, j as int),
            run_end(s, pos as int, cls) == run_end(s, j as int, cls),
        decreases s.len() - j,
    {
        buf.push(input[j]);
        proof {
            lemma_run_end_step(s, j as int, cls);
            assert(buf@ =~= s.subrange(pos as int, j + 1));
        }
        j = j + 1;
    }
    (string_from_chars(buf), j)
}

} // verus!
