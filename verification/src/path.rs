//! How the text operations act on texts put together from parts, as storage
//! keys are.

use vstd::prelude::*;

use crate::text;

verus! {

/// A text put behind a prefix has it, and is what is left without it.
pub proof fn prefixes_come_off(p: Seq<char>, s: Seq<char>)
    ensures
        p.is_prefix_of(p + s),
        text::without_prefix(p + s, p) == Some(s),
{
    assert((p + s).subrange(0, p.len() as int) =~= p);
    assert((p + s).subrange(p.len() as int, (p + s).len() as int) =~= s);
}

/// A text that has a prefix is the prefix and what is left without it.
pub proof fn prefixed_texts_are_put_together(s: Seq<char>, p: Seq<char>)
    ensures
        text::without_prefix(s, p) matches Some(rest) ==> s == p + rest,
        text::without_prefix(s, p) is None ==> forall|rest: Seq<char>| s != #[trigger] (p + rest),
{
    if let Some(rest) = text::without_prefix(s, p) {
        assert(s =~= p + rest);
    } else {
        assert forall|rest: Seq<char>| s != #[trigger] (p + rest) by {
            prefixes_come_off(p, rest);
        }
    }
}

/// A text put before a suffix has it, and is what is left without it.
pub proof fn suffixes_come_off(s: Seq<char>, p: Seq<char>)
    ensures
        p.is_suffix_of(s + p),
        text::without_suffix(s + p, p) == Some(s),
{
    let t = s + p;
    assert(t.subrange(t.len() - p.len(), t.len() as int) =~= p);
    assert(t.subrange(0, t.len() - p.len()) =~= s);
}

/// A text that has a suffix is what is left without it and the suffix.
pub proof fn suffixed_texts_are_put_together(s: Seq<char>, p: Seq<char>)
    ensures
        text::without_suffix(s, p) matches Some(stem) ==> s == stem + p,
        text::without_suffix(s, p) is None ==> forall|stem: Seq<char>| s != #[trigger] (stem + p),
{
    if let Some(stem) = text::without_suffix(s, p) {
        assert(s =~= stem + p);
    } else {
        assert forall|stem: Seq<char>| s != #[trigger] (stem + p) by {
            suffixes_come_off(stem, p);
        }
    }
}

/// Of two suffixes that end differently a text has at most one.
pub proof fn other_suffixes_stay(s: Seq<char>, p: Seq<char>, q: Seq<char>)
    requires
        p.len() > 0,
        q.len() > 0,
        p.last() != q.last(),
    ensures
        text::without_suffix(s + p, q) is None,
{
    let t = s + p;
    if q.is_suffix_of(t) {
        assert(t.subrange(t.len() - q.len(), t.len() as int)[q.len() - 1] == t[t.len() - 1]);
    }
}

/// A text holds exactly the texts that it can be put together around.
pub proof fn contained_texts_stand_between(s: Seq<char>, p: Seq<char>)
    ensures
        text::has(s, p) <==> exists|a: Seq<char>, b: Seq<char>| s == #[trigger] (a + p + b),
{
    if text::has(s, p) {
        let i = choose|i: int| text::occurs_at(s, p, i);
        let a = s.subrange(0, i);
        let b = s.subrange(i + p.len(), s.len() as int);
        assert(s =~= a + p + b) by {
            assert forall|k: int| 0 <= k < s.len() implies s[k] == (a + p + b)[k] by {
                if i <= k < i + p.len() {
                    assert(s.subrange(i, i + p.len())[k - i] == p[k - i]);
                }
            }
        }
    }
    if exists|a: Seq<char>, b: Seq<char>| s == #[trigger] (a + p + b) {
        let (a, b) = choose|a: Seq<char>, b: Seq<char>| s == #[trigger] (a + p + b);
        lemma_stands_between(a, p, b);
    }
}

/// The middle of three texts in a row is held by them.
pub proof fn lemma_stands_between(a: Seq<char>, p: Seq<char>, b: Seq<char>)
    ensures
        text::occurs_at(a + p + b, p, a.len() as int),
        text::has(a + p + b, p),
{
    let s = a + p + b;
    assert(s.subrange(a.len() as int, (a.len() + p.len()) as int) =~= p);
    assert(text::occurs_at(s, p, a.len() as int));
}

/// What follows the last separator is what was put there.
pub proof fn last_segments_come_off(dir: Seq<char>, c: char, name: Seq<char>)
    requires
        !name.contains(c),
    ensures
        text::tail_after(dir.push(c) + name, c) == name,
        text::tail_after(name, c) == name,
{
    let s = dir.push(c) + name;
    lemma_last_separator(dir, c, name);
    assert(s.subrange((dir.len() + 1) as int, s.len() as int) =~= name);
    lemma_no_last(name, c);
}

/// The last separator is the one before the last segment.
pub proof fn lemma_last_separator(dir: Seq<char>, c: char, name: Seq<char>)
    requires
        !name.contains(c),
    ensures
        text::last_of(dir.push(c) + name, c) == Some(dir.len() as int),
    decreases name.len(),
{
    let s = dir.push(c) + name;
    if name.len() == 0 {
        assert(s.last() == c);
    } else {
        let front = name.drop_last();
        lemma_shorter_without(name, c);
        assert(s.last() == name.last());
        assert(s.drop_last() =~= dir.push(c) + front);
        lemma_last_separator(dir, c, front);
    }
}

/// A text without the character has no last one.
pub proof fn lemma_no_last(name: Seq<char>, c: char)
    requires
        !name.contains(c),
    ensures
        text::last_of(name, c) is None,
    decreases name.len(),
{
    if name.len() > 0 {
        lemma_shorter_without(name, c);
        lemma_no_last(name.drop_last(), c);
    }
}

/// Without its last character a text still lacks what it lacked.
pub proof fn lemma_shorter_without(name: Seq<char>, c: char)
    requires
        !name.contains(c),
        name.len() > 0,
    ensures
        !name.drop_last().contains(c),
        name.last() != c,
{
    let front = name.drop_last();
    assert(name[name.len() - 1] == name.last());
    if front.contains(c) {
        let i = choose|i: int| 0 <= i < front.len() && front[i] == c;
        assert(name[i] == c);
    }
}

/// The last segment of a key under a directory is its file name.
pub proof fn file_names_come_off(dir: Seq<char>, name: Seq<char>)
    requires
        !name.contains('/'),
    ensures
        text::tail_after(dir + "/"@ + name, '/') == name,
{
    reveal_strlit("/");
    assert(dir + "/"@ + name =~= dir.push('/') + name);
    last_segments_come_off(dir, '/', name);
}

/// Splitting at a separator adds a piece for each segment put behind one.
pub proof fn lemma_one_more_piece(s: Seq<char>, c: char, name: Seq<char>)
    requires
        !name.contains(c),
    ensures
        text::pieces(s.push(c) + name, c) == text::pieces(s, c).push(name),
    decreases name.len(),
{
    let t = s.push(c) + name;
    if name.len() == 0 {
        assert(t.drop_last() =~= s);
        assert(name =~= Seq::<char>::empty());
    } else {
        let front = name.drop_last();
        lemma_shorter_without(name, c);
        assert(t.drop_last() =~= s.push(c) + front);
        assert(t.last() == name.last());
        lemma_one_more_piece(s, c, front);
        assert(front.push(name.last()) =~= name);
        let rest = text::pieces(s, c).push(front);
        assert(rest.drop_last() =~= text::pieces(s, c));
    }
}

/// A text without the separator is its only piece.
pub proof fn lemma_single_piece(name: Seq<char>, c: char)
    requires
        !name.contains(c),
    ensures
        text::pieces(name, c) == seq![name],
    decreases name.len(),
{
    if name.len() > 0 {
        lemma_shorter_without(name, c);
        lemma_single_piece(name.drop_last(), c);
        assert(name.drop_last().push(name.last()) =~= name);
        assert(text::pieces(name, c) =~= seq![name]);
    } else {
        assert(name =~= Seq::<char>::empty());
    }
}

/// The pieces of two texts around a separator are those of the first and then
/// those of the second.
pub proof fn pieces_follow_each_other(s: Seq<char>, c: char, t: Seq<char>)
    ensures
        text::pieces(s.push(c) + t, c) == text::pieces(s, c) + text::pieces(t, c),
        text::pieces(t, c).len() > 0,
    decreases t.len(),
{
    let u = s.push(c) + t;
    if t.len() == 0 {
        assert(u.drop_last() =~= s);
        assert(text::pieces(u, c) =~= text::pieces(s, c) + text::pieces(t, c));
    } else {
        let front = t.drop_last();
        pieces_follow_each_other(s, c, front);
        assert(u.drop_last() =~= s.push(c) + front);
        assert(u.last() == t.last());
        let a = text::pieces(s, c);
        let b = text::pieces(front, c);
        assert((a + b).drop_last() =~= a + b.drop_last());
        assert((a + b).last() == b.last());
        assert(text::pieces(u, c) =~= a + text::pieces(t, c));
    }
}

/// Splitting takes apart what joining put together.
pub proof fn joined_texts_come_apart(parts: Seq<Seq<char>>, c: char)
    requires
        parts.len() > 0,
        forall|i: int| 0 <= i < parts.len() ==> !(#[trigger] parts[i]).contains(c),
    ensures
        text::pieces(text::joined(parts, seq![c]), c) == parts,
    decreases parts.len(),
{
    if parts.len() == 1 {
        lemma_single_piece(parts[0], c);
        assert(seq![parts[0]] =~= parts);
    } else {
        let front = parts.drop_last();
        assert forall|i: int| 0 <= i < front.len() implies !(#[trigger] front[i]).contains(c) by {
            assert(!parts[i].contains(c));
        }
        joined_texts_come_apart(front, c);
        let s = text::joined(front, seq![c]);
        assert(!parts[parts.len() - 1].contains(c));
        lemma_one_more_piece(s, c, parts.last());
        assert(s + seq![c] + parts.last() =~= s.push(c) + parts.last());
        assert(front.push(parts.last()) =~= parts);
    }
}

/// Joining puts together what splitting took apart, and no piece holds the
/// separator.
pub proof fn pieces_join_again(s: Seq<char>, c: char)
    ensures
        text::pieces(s, c).len() > 0,
        text::joined(text::pieces(s, c), seq![c]) == s,
        forall|i: int|
            0 <= i < text::pieces(s, c).len() ==> !(#[trigger] text::pieces(s, c)[i]).contains(c),
    decreases s.len(),
{
    let p = text::pieces(s, c);
    if s.len() == 0 {
        assert(p[0] =~= s);
        assert(text::joined(p, seq![c]) =~= s);
    } else {
        let front = s.drop_last();
        let before = text::pieces(front, c);
        pieces_join_again(front, c);
        if s.last() == c {
            assert(p.drop_last() =~= before);
            assert(text::joined(p, seq![c]) =~= s);
            assert forall|i: int| 0 <= i < p.len() implies !(#[trigger] p[i]).contains(c) by {
                if i < before.len() {
                    assert(p[i] == before[i]);
                }
            }
        } else {
            assert(p.drop_last() =~= before.drop_last());
            assert(before.last().push(s.last()) == p.last());
            if before.len() == 1 {
                assert(text::joined(p, seq![c]) =~= s);
            } else {
                let head = text::joined(before.drop_last(), seq![c]);
                assert(front == head + seq![c] + before.last());
                assert(text::joined(p, seq![c]) == head + seq![c] + p.last());
                assert(front.push(s.last()) =~= s);
                assert(text::joined(p, seq![c]) =~= s);
            }
            assert forall|i: int| 0 <= i < p.len() implies !(#[trigger] p[i]).contains(c) by {
                if i < before.len() - 1 {
                    assert(p[i] == before[i]);
                } else {
                    assert(!before[before.len() - 1].contains(c));
                    let x = before.last();
                    if x.push(s.last()).contains(c) {
                        let k = choose|k: int|
                            0 <= k < x.len() + 1 && x.push(s.last())[k] == c;
                        if k < x.len() {
                            assert(x[k] == c);
                        }
                    }
                }
            }
        }
    }
}

/// A text around a directory name between slashes comes apart at it, where the
/// name stands nowhere before.
pub proof fn directories_come_apart(a: Seq<char>, p: Seq<char>, b: Seq<char>)
    requires
        p.len() >= 2,
        p[0] == '/',
        p.last() == '/',
        forall|i: int| 0 < i < p.len() - 1 ==> #[trigger] p[i] != '/',
        !text::has(a + "/"@, p),
    ensures
        text::halves(a + p + b, p) == Some((a, b)),
{
    reveal_strlit("/");
    let s = a + p + b;
    lemma_stands_between(a, p, b);
    text::lemma_first_of(s, p);
    let i = text::first_of(s, p)->0;
    if i < a.len() {
        assert(s.subrange(i, i + p.len()) =~= p);
        if i + p.len() <= a.len() + 1 {
            assert((a + "/"@).subrange(i, i + p.len()) =~= s.subrange(i, i + p.len()));
            assert(text::occurs_at(a + "/"@, p, i));
        } else {
            assert(s[a.len() as int] == '/');
            assert(s.subrange(i, i + p.len())[a.len() - i] == s[a.len() as int]);
            assert(p[a.len() - i] != '/');
        }
        assert(false);
    }
    assert(s.subrange(0, i) =~= a);
    assert(s.subrange(i + p.len(), s.len() as int) =~= b);
}

/// A text comes apart at the first of a separator of one character.
pub proof fn separators_come_apart(a: Seq<char>, p: Seq<char>, b: Seq<char>)
    requires
        p.len() == 1,
        !a.contains(p[0]),
    ensures
        text::halves(a + p + b, p) == Some((a, b)),
{
    let s = a + p + b;
    lemma_stands_between(a, p, b);
    text::lemma_first_of(s, p);
    let i = text::first_of(s, p)->0;
    if i < a.len() {
        assert(s.subrange(i, i + 1)[0] == s[i]);
        assert(a[i] == p[0]);
    }
    assert(s.subrange(0, i) =~= a);
    assert(s.subrange(i + p.len(), s.len() as int) =~= b);
}

/// Texts that come apart were around a separator that stands nowhere before,
/// and texts without one do not come apart.
pub proof fn halves_stand_around_the_first(s: Seq<char>, p: Seq<char>)
    ensures
        match text::halves(s, p) {
            Some((a, b)) => s == a + p + b && forall|i: int|
                0 <= i < a.len() ==> !#[trigger] text::occurs_at(s, p, i),
            None => !text::has(s, p),
        },
{
    text::lemma_first_of(s, p);
    if let Some((a, b)) = text::halves(s, p) {
        let i = text::first_of(s, p)->0;
        assert forall|k: int| 0 <= k < s.len() implies s[k] == (a + p + b)[k] by {
            if i <= k < i + p.len() {
                assert(s.subrange(i, i + p.len())[k - i] == p[k - i]);
            }
        }
        assert(s =~= a + p + b);
    }
}

/// ASCII capitals go to the letters 32 places behind them; all else stays.
pub proof fn capitals_go_to_small_letters(c: char)
    ensures
        65 <= c as u32 <= 90 ==> text::lower(c) as u32 == c as u32 + 32,
        !(65 <= c as u32 <= 90) ==> text::lower(c) == c,
{
}

/// Two texts are the same but for the case of ASCII letters.
pub open spec fn same_letters(a: Seq<char>, b: Seq<char>) -> bool {
    a.len() == b.len() && forall|i: int|
        0 <= i < a.len() ==> (#[trigger] a[i] == b[i] || (65 <= a[i] as u32 <= 90 && b[i] as u32
            == a[i] as u32 + 32) || (65 <= b[i] as u32 <= 90 && a[i] as u32 == b[i] as u32 + 32))
}

/// A text ends with another, whatever the case of the letters, exactly where
/// its own end is the same but for case.
pub proof fn endings_ignore_case(s: Seq<char>, e: Seq<char>, p: Seq<char>)
    requires
        e.len() == p.len(),
    ensures
        text::ends_ci(s + e, p) <==> same_letters(e, p),
        text::ends_ci(s + p, p),
{
    let t = s + e;
    if text::ends_ci(t, p) {
        assert forall|i: int| 0 <= i < e.len() implies #[trigger] e[i] == p[i] || (65 <= e[i] as u32
            <= 90 && p[i] as u32 == e[i] as u32 + 32) || (65 <= p[i] as u32 <= 90 && e[i] as u32
            == p[i] as u32 + 32) by {
            assert(text::lower(p[i]) == text::lower(t[t.len() - p.len() + i]));
            capitals_go_to_small_letters(e[i]);
            capitals_go_to_small_letters(p[i]);
            assert(t[t.len() - p.len() + i] == e[i]);
        }
    }
    if same_letters(e, p) {
        assert forall|i: int| 0 <= i < p.len() implies text::lower(#[trigger] p[i]) == text::lower(
            t[t.len() - p.len() + i],
        ) by {
            assert(t[t.len() - p.len() + i] == e[i]);
        }
    }
}

/// A text ends with another, whatever the case of the letters, exactly where it
/// is put together from a stem and an end that is the same but for case.
pub proof fn texts_end_with_their_ends(s: Seq<char>, p: Seq<char>)
    ensures
        text::ends_ci(s, p) <==> exists|stem: Seq<char>, e: Seq<char>|
            s == #[trigger] (stem + e) && same_letters(e, p),
{
    if text::ends_ci(s, p) {
        let n = s.len() - p.len();
        let stem = s.subrange(0, n);
        let e = s.subrange(n, s.len() as int);
        assert(s =~= stem + e);
        endings_ignore_case(stem, e, p);
    }
    if exists|stem: Seq<char>, e: Seq<char>| s == #[trigger] (stem + e) && same_letters(e, p) {
        let (stem, e) = choose|stem: Seq<char>, e: Seq<char>|
            s == #[trigger] (stem + e) && same_letters(e, p);
        endings_ignore_case(stem, e, p);
    }
}

/// A text shorter than another does not end with it.
pub proof fn short_texts_have_no_long_ending(s: Seq<char>, p: Seq<char>)
    requires
        s.len() < p.len(),
    ensures
        !text::ends_ci(s, p),
{
}

/// A text that ends otherwise does not end with the other, whatever its case.
pub proof fn lemma_other_ending(s: Seq<char>, e: Seq<char>, p: Seq<char>)
    requires
        e.len() > 0,
        p.len() > 0,
        text::lower(e.last()) != text::lower(p.last()),
    ensures
        !text::ends_ci(s + e, p),
{
    let t = s + e;
    if text::ends_ci(t, p) {
        assert(text::lower(p[p.len() - 1]) == text::lower(t[t.len() - p.len() + (p.len() - 1)]));
        assert(t[t.len() - 1] == e.last());
    }
}

/// A text that ends with two texts in a row ends with the first before the
/// second.
pub proof fn endings_come_off(s: Seq<char>, p: Seq<char>, q: Seq<char>)
    ensures
        text::ends_ci(s + q, p + q) <==> text::ends_ci(s, p),
{
    let t = s + q;
    let r = p + q;
    let n = t.len() - r.len();
    if text::ends_ci(t, r) {
        assert forall|i: int| 0 <= i < p.len() implies text::lower(#[trigger] p[i]) == text::lower(
            s[s.len() - p.len() + i],
        ) by {
            assert(r[i] == p[i]);
            assert(t[n + i] == s[s.len() - p.len() + i]);
        }
    }
    if text::ends_ci(s, p) {
        assert forall|i: int| 0 <= i < r.len() implies text::lower(#[trigger] r[i]) == text::lower(
            t[n + i],
        ) by {
            if i < p.len() {
                assert(r[i] == p[i]);
            } else {
                assert(r[i] == q[i - p.len()]);
            }
        }
    }
}

/// An ending without a slash is one of the file name.
pub proof fn endings_lie_in_the_file_name(dir: Seq<char>, name: Seq<char>, p: Seq<char>)
    requires
        !p.contains('/'),
    ensures
        text::ends_ci(dir.push('/') + name, p) <==> text::ends_ci(name, p),
{
    let t = dir.push('/') + name;
    if text::ends_ci(t, p) {
        if name.len() < p.len() {
            let i = p.len() - name.len() - 1;
            assert(t[t.len() - p.len() + i] == '/');
            assert(text::lower(p[i]) == text::lower('/'));
            capitals_go_to_small_letters(p[i]);
            assert(p[i] == '/');
        }
        assert forall|i: int| 0 <= i < p.len() implies text::lower(#[trigger] p[i]) == text::lower(
            name[name.len() - p.len() + i],
        ) by {
            assert(t[t.len() - p.len() + i] == name[name.len() - p.len() + i]);
        }
    }
    if text::ends_ci(name, p) {
        assert forall|i: int| 0 <= i < p.len() implies text::lower(#[trigger] p[i]) == text::lower(
            t[t.len() - p.len() + i],
        ) by {
            assert(t[t.len() - p.len() + i] == name[name.len() - p.len() + i]);
        }
    }
}

/// Of the run of a character at the end of a text nothing is left, and what is
/// left ends otherwise.
pub proof fn trimmed_ends_are_gone(s: Seq<char>, c: char, n: nat)
    requires
        s.len() == 0 || s.last() != c,
    ensures
        text::trimmed_end(s + Seq::new(n, |i: int| c), c) == s,
    decreases n,
{
    let t = s + Seq::new(n, |i: int| c);
    if n == 0 {
        assert(t =~= s);
    } else {
        assert(t.last() == c);
        assert(t.drop_last() =~= s + Seq::new((n - 1) as nat, |i: int| c));
        trimmed_ends_are_gone(s, c, (n - 1) as nat);
    }
}

/// A number below ten is written with the digit that stands so many places
/// behind `0`.
pub proof fn small_numbers_are_one_digit(n: nat)
    requires
        n < 10,
    ensures
        text::decimal(n).len() == 1,
        text::decimal(n)[0] as u32 == 48 + n,
{
}

/// A number is written as the number of its tens, and then its ones.
pub proof fn decimals_end_with_the_ones(tens: nat, ones: nat)
    requires
        tens > 0,
        ones < 10,
    ensures
        text::decimal(10 * tens + ones) == text::decimal(tens) + text::decimal(ones),
{
    let n = 10 * tens + ones;
    assert(n / 10 == tens && n % 10 == ones);
    assert(text::decimal(tens).push(text::digit(ones)) =~= text::decimal(tens) + text::decimal(ones));
}

/// Different numbers are written differently.
pub proof fn decimals_tell_numbers_apart(m: nat, n: nat)
    requires
        text::decimal(m) == text::decimal(n),
    ensures
        m == n,
    decreases m,
{
    let a = text::decimal(m);
    let b = text::decimal(n);
    lemma_decimal_is_not_empty(m / 10);
    lemma_decimal_is_not_empty(n / 10);
    lemma_last_digit(m);
    lemma_last_digit(n);
    assert(m % 10 == n % 10);
    if m < 10 {
        if n >= 10 {
            assert(a.len() == 1 && b.len() >= 2);
        }
    } else if n < 10 {
        assert(b.len() == 1 && a.len() >= 2);
    } else {
        assert(a.drop_last() =~= text::decimal(m / 10));
        assert(b.drop_last() =~= text::decimal(n / 10));
        decimals_tell_numbers_apart(m / 10, n / 10);
    }
}

proof fn lemma_last_digit(n: nat)
    ensures
        text::decimal(n).last() as u32 == 48 + n % 10,
{
    let d = n % 10;
    if n >= 10 {
        assert(text::decimal(n) == text::decimal(n / 10).push(text::digit(d)));
    }
    assert(text::digit(d) as u32 == 48 + d);
}

proof fn lemma_decimal_is_not_empty(n: nat)
    ensures
        text::decimal(n).len() > 0,
{
}

/// A text comes before every text that it is the start of, and of two texts
/// that part at a place the one with the smaller character there comes before.
pub proof fn dictionary_order_goes_by_the_first_difference(
    a: Seq<char>,
    x: char,
    s: Seq<char>,
    y: char,
    t: Seq<char>,
)
    ensures
        text::text_le(a, a + s),
        s.len() > 0 ==> !text::text_le(a + s, a),
        x < y ==> text::text_le(a.push(x) + s, a.push(y) + t),
        x < y ==> !text::text_le(a.push(y) + t, a.push(x) + s),
    decreases a.len(),
{
    if a.len() == 0 {
        assert(a + s =~= s);
        assert((a.push(x) + s)[0] == x);
        assert((a.push(y) + t)[0] == y);
    } else {
        let b = a.drop_first();
        dictionary_order_goes_by_the_first_difference(b, x, s, y, t);
        assert((a + s).drop_first() =~= b + s);
        assert((a.push(x) + s).drop_first() =~= b.push(x) + s);
        assert((a.push(y) + t).drop_first() =~= b.push(y) + t);
        assert((a + s)[0] == a[0]);
        assert((a.push(x) + s)[0] == a[0]);
        assert((a.push(y) + t)[0] == a[0]);
    }
}

} // verus!
