//! Flat glob patterns: `*` stands for any text, `?` for one character.

use vstd::prelude::*;

use crate::text;

verus! {

/// Pattern `p` matches the whole of `t`.
pub open spec fn glob(p: Seq<char>, t: Seq<char>) -> bool
    decreases p.len(),
{
    if p.len() == 0 {
        t.len() == 0
    } else if p[0] == '*' {
        exists|k: int| 0 <= k <= t.len() && glob(p.drop_first(), #[trigger] t.skip(k))
    } else {
        t.len() > 0 && (p[0] == '?' || p[0] == t[0]) && glob(p.drop_first(), t.drop_first())
    }
}

/// A star matches nothing, or one character and then again.
proof fn lemma_star(p: Seq<char>, t: Seq<char>)
    requires
        p.len() > 0,
        p[0] == '*',
    ensures
        glob(p, t) == (glob(p.drop_first(), t) || (t.len() > 0 && glob(p, t.drop_first()))),
{
    let rest = p.drop_first();
    assert(t.skip(0) =~= t);
    if t.len() > 0 {
        let u = t.drop_first();
        assert forall|k: int| 0 <= k <= u.len() implies #[trigger] u.skip(k) == t.skip(k + 1) by {
            assert(u.skip(k) =~= t.skip(k + 1));
        }
        if glob(p, u) {
            let k = choose|k: int| 0 <= k <= u.len() && glob(rest, #[trigger] u.skip(k));
            assert(u.skip(k) == t.skip(k + 1));
        }
        if glob(p, t) && !glob(rest, t) {
            let k = choose|k: int| 0 <= k <= t.len() && glob(rest, #[trigger] t.skip(k));
            assert(k > 0);
            assert(u.skip(k - 1) == t.skip(k));
        }
    } else if glob(p, t) {
        let k = choose|k: int| 0 <= k <= t.len() && glob(rest, #[trigger] t.skip(k));
        assert(t.skip(k) =~= t);
    }
}

/// The pattern matches the text.
pub fn glob_match(pattern: &str, text: &str) -> (r: bool)
    ensures
        r == glob(pattern@, text@),
{
    let p = text::to_chars(pattern);
    let t = text::to_chars(text);
    glob_match_inner(&p, &t)
}

/// The pattern matches the text, both given as characters.
pub fn glob_match_inner(p: &[char], t: &[char]) -> (r: bool)
    ensures
        r == glob(p@, t@),
    decreases p@.len() + t@.len(),
{
    if p.len() == 0 {
        return t.len() == 0;
    }
    let rest = vstd::slice::slice_subrange(p, 1, p.len());
    assert(rest@ =~= p@.drop_first());
    if p[0] == '*' {
        proof {
            lemma_star(p@, t@);
        }
        if glob_match_inner(rest, t) {
            return true;
        }
        if t.len() == 0 {
            return false;
        }
        let tail = vstd::slice::slice_subrange(t, 1, t.len());
        assert(tail@ =~= t@.drop_first());
        glob_match_inner(p, tail)
    } else {
        if t.len() == 0 {
            return false;
        }
        let tail = vstd::slice::slice_subrange(t, 1, t.len());
        assert(tail@ =~= t@.drop_first());
        (p[0] == '?' || p[0] == t[0]) && glob_match_inner(rest, tail)
    }
}

/// A pattern without `*` and `?` matches itself and nothing else.
pub proof fn plain_pattern_matches_itself_only(p: Seq<char>, t: Seq<char>)
    requires
        forall|i: int| 0 <= i < p.len() ==> p[i] != '*' && p[i] != '?',
    ensures
        glob(p, t) == (p == t),
    decreases p.len(),
{
    if p.len() == 0 {
        assert(t.len() == 0 ==> p =~= t);
    } else if t.len() > 0 {
        plain_pattern_matches_itself_only(p.drop_first(), t.drop_first());
        if p[0] == t[0] && p.drop_first() == t.drop_first() {
            assert(p =~= seq![p[0]] + p.drop_first());
            assert(t =~= seq![t[0]] + t.drop_first());
        }
    }
}

/// A single `*` matches every text.
pub proof fn star_matches_everything(t: Seq<char>)
    ensures
        glob(seq!['*'], t),
{
    let p = seq!['*'];
    assert(p.drop_first() =~= Seq::<char>::empty());
    assert(t.skip(t.len() as int) =~= Seq::<char>::empty());
    assert(glob(p.drop_first(), t.skip(t.len() as int)));
}

} // verus!
