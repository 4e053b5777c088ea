//! The order of version names.
//!
//! Digit runs compare as numbers, so `1.10` is above `1.9`, and `~` sorts
//! below everything, the end of the name among it, so `1.0~rc1` is below
//! `1.0`.

use std::cmp::Ordering;
use vstd::prelude::*;

verus! {

/// `b` is an ASCII digit.
pub open spec fn is_digit(b: u8) -> bool {
    48 <= b <= 57
}

/// How many digits `s` starts with.
pub open spec fn digits_len(s: Seq<u8>) -> nat
    decreases s.len(),
{
    if s.len() > 0 && is_digit(s[0]) {
        1 + digits_len(s.drop_first())
    } else {
        0
    }
}

/// The number that a run of digits writes.
pub open spec fn number(s: Seq<u8>) -> nat
    decreases s.len(),
{
    if s.len() == 0 {
        0
    } else {
        number(s.drop_last()) * 10 + (s.last() - 48) as nat
    }
}

/// The rank of what `s` starts with: `~`, then the end or a digit, then every
/// other byte by its value.
pub open spec fn head_rank(s: Seq<u8>) -> int {
    if s.len() == 0 || is_digit(s[0]) {
        1
    } else if s[0] == 126 {
        0
    } else {
        2 + s[0]
    }
}

/// Negative where `a` is below `b`, positive where it is above, zero where the
/// order does not tell them apart.
pub open spec fn version_order(a: Seq<u8>, b: Seq<u8>) -> int
    decreases a.len() + b.len(),
{
    if head_rank(a) != head_rank(b) {
        head_rank(a) - head_rank(b)
    } else if head_rank(a) != 1 {
        version_order(a.drop_first(), b.drop_first())
    } else if a.len() == 0 && b.len() == 0 {
        0
    } else {
        proof {
            lemma_digits_len(a);
            lemma_digits_len(b);
        }
        let m = digits_len(a) as int;
        let n = digits_len(b) as int;
        if number(a.take(m)) != number(b.take(n)) {
            number(a.take(m)) - number(b.take(n))
        } else {
            version_order(a.skip(m), b.skip(n))
        }
    }
}

pub proof fn lemma_digits_len(s: Seq<u8>)
    ensures
        digits_len(s) <= s.len(),
        s.len() > 0 && is_digit(s[0]) ==> digits_len(s) >= 1,
        forall|i: int| 0 <= i < digits_len(s) ==> is_digit(#[trigger] s[i]),
        digits_len(s) < s.len() ==> !is_digit(s[digits_len(s) as int]),
    decreases s.len(),
{
    if s.len() > 0 && is_digit(s[0]) {
        let rest = s.drop_first();
        lemma_digits_len(rest);
        assert forall|i: int| 0 <= i < digits_len(s) implies is_digit(#[trigger] s[i]) by {
            if i > 0 {
                assert(is_digit(rest[i - 1]));
            }
        }
        if digits_len(s) < s.len() {
            assert(rest[digits_len(rest) as int] == s[digits_len(s) as int]);
        }
    }
}

/// The order tells no name apart from itself.
pub proof fn version_order_is_reflexive(a: Seq<u8>)
    ensures
        version_order(a, a) == 0,
    decreases a.len(),
{
    if head_rank(a) != 1 {
        version_order_is_reflexive(a.drop_first());
    } else if a.len() > 0 {
        lemma_digits_len(a);
        version_order_is_reflexive(a.skip(digits_len(a) as int));
    }
}

/// Turning the comparison round turns its outcome round.
pub proof fn version_order_is_antisymmetric(a: Seq<u8>, b: Seq<u8>)
    ensures
        version_order(b, a) == -version_order(a, b),
    decreases a.len() + b.len(),
{
    if head_rank(a) == head_rank(b) {
        if head_rank(a) != 1 {
            version_order_is_antisymmetric(a.drop_first(), b.drop_first());
        } else if a.len() > 0 || b.len() > 0 {
            lemma_digits_len(a);
            lemma_digits_len(b);
            let m = digits_len(a) as int;
            let n = digits_len(b) as int;
            if number(a.take(m)) == number(b.take(n)) {
                version_order_is_antisymmetric(a.skip(m), b.skip(n));
            }
        }
    }
}

/// Names compare transitively, strictly where one of the two steps is strict.
pub proof fn version_order_is_transitive(a: Seq<u8>, b: Seq<u8>, c: Seq<u8>)
    requires
        version_order(a, b) <= 0,
        version_order(b, c) <= 0,
    ensures
        version_order(a, c) <= 0,
        version_order(a, b) < 0 || version_order(b, c) < 0 ==> version_order(a, c) < 0,
    decreases a.len() + b.len() + c.len(),
{
    if head_rank(a) == head_rank(b) && head_rank(b) == head_rank(c) {
        if head_rank(a) != 1 {
            version_order_is_transitive(a.drop_first(), b.drop_first(), c.drop_first());
        } else if a.len() == 0 && b.len() == 0 {
            assert(a =~= b);
        } else if b.len() == 0 && c.len() == 0 {
            assert(b =~= c);
        } else if a.len() == 0 && c.len() == 0 {
            assert(a =~= c);
            version_order_is_antisymmetric(a, b);
        } else {
            lemma_digits_len(a);
            lemma_digits_len(b);
            lemma_digits_len(c);
            let l = digits_len(a) as int;
            let m = digits_len(b) as int;
            let n = digits_len(c) as int;
            if number(a.take(l)) == number(b.take(m)) && number(b.take(m)) == number(c.take(n)) {
                version_order_is_transitive(a.skip(l), b.skip(m), c.skip(n));
            }
        }
    }
}

/// Ten to the `k`.
spec fn ten_to(k: nat) -> nat
    decreases k,
{
    if k == 0 {
        1
    } else {
        10 * ten_to((k - 1) as nat)
    }
}

proof fn lemma_number_bounds(s: Seq<u8>)
    requires
        forall|i: int| 0 <= i < s.len() ==> is_digit(#[trigger] s[i]),
    ensures
        number(s) < ten_to(s.len()),
        s.len() > 0 && s[0] != 48 ==> number(s) >= ten_to((s.len() - 1) as nat),
    decreases s.len(),
{
    if s.len() > 0 {
        let front = s.drop_last();
        assert forall|i: int| 0 <= i < front.len() implies is_digit(#[trigger] front[i]) by {
            assert(is_digit(s[i]));
        }
        lemma_number_bounds(front);
        assert(is_digit(s[s.len() - 1]));
        if s.len() > 1 {
            assert(front[0] == s[0]);
        }
    }
}

proof fn lemma_ten_to_grows(j: nat, k: nat)
    requires
        j <= k,
    ensures
        ten_to(j) <= ten_to(k),
    decreases k,
{
    if j < k {
        lemma_ten_to_grows(j, (k - 1) as nat);
    }
}

/// A leading zero does not change the number.
proof fn lemma_leading_zero(s: Seq<u8>)
    requires
        s.len() > 0,
        s[0] == 48,
    ensures
        number(s) == number(s.drop_first()),
    decreases s.len(),
{
    if s.len() > 1 {
        lemma_leading_zero(s.drop_last());
        assert(s.drop_last().drop_first() =~= s.drop_first().drop_last());
    } else {
        assert(number(s.drop_last()) == 0);
    }
}

/// Of two runs of equal length the first place where they differ decides.
proof fn lemma_first_difference(a: Seq<u8>, b: Seq<u8>, k: int)
    requires
        a.len() == b.len(),
        forall|i: int| 0 <= i < a.len() ==> is_digit(#[trigger] a[i]),
        forall|i: int| 0 <= i < b.len() ==> is_digit(#[trigger] b[i]),
        0 <= k < a.len(),
        forall|i: int| 0 <= i < k ==> a[i] == b[i],
        a[k] < b[k],
    ensures
        number(a) < number(b),
    decreases a.len(),
{
    let fa = a.drop_last();
    let fb = b.drop_last();
    assert(is_digit(a[a.len() - 1]));
    assert(is_digit(b[b.len() - 1]));
    if k < a.len() - 1 {
        assert(fa[k] == a[k] && fb[k] == b[k]);
        assert forall|i: int| 0 <= i < fa.len() implies is_digit(#[trigger] fa[i]) by {
            assert(is_digit(a[i]));
        }
        assert forall|i: int| 0 <= i < fb.len() implies is_digit(#[trigger] fb[i]) by {
            assert(is_digit(b[i]));
        }
        lemma_first_difference(fa, fb, k);
    } else {
        assert(fa =~= fb);
    }
}

/// The outcome of comparing two names.
#[derive(Clone, Copy, PartialEq, Eq, Structural, Debug)]
pub enum Rank {
    Below,
    Level,
    Above,
}

/// `r` is the outcome that the sign of `d` stands for.
pub open spec fn rank_of(r: Rank, d: int) -> bool {
    match r {
        Rank::Below => d < 0,
        Rank::Level => d == 0,
        Rank::Above => d > 0,
    }
}

fn digit_byte(b: u8) -> (r: bool)
    ensures
        r == is_digit(b),
{
    48 <= b && b <= 57
}

/// The rank of the byte at `i`, or of the end.
fn head(s: &[u8], i: usize) -> (r: u16)
    requires
        i <= s@.len(),
    ensures
        r == head_rank(s@.skip(i as int)),
{
    if i >= s.len() || digit_byte(s[i]) {
        1
    } else if s[i] == 126 {
        0
    } else {
        2 + s[i] as u16
    }
}

/// The end of the run of digits that starts at `i`.
fn run_end(s: &[u8], i: usize) -> (e: usize)
    requires
        i <= s@.len(),
    ensures
        e == i + digits_len(s@.skip(i as int)),
        e <= s@.len(),
{
    let mut e: usize = i;
    proof {
        lemma_digits_len(s@.skip(i as int));
    }
    while e < s.len() && digit_byte(s[e])
        invariant
            i <= e <= s@.len(),
            digits_len(s@.skip(i as int)) == (e - i) + digits_len(s@.skip(e as int)),
        decreases s@.len() - e,
    {
        proof {
            assert(s@.skip(e as int).drop_first() =~= s@.skip(e + 1));
        }
        e = e + 1;
    }
    e
}

/// The first place in `i..e` that does not hold a zero digit.
fn skip_zeros(s: &[u8], i: usize, e: usize) -> (z: usize)
    requires
        i <= e <= s@.len(),
    ensures
        i <= z <= e,
        z < e ==> s@[z as int] != 48,
        number(s@.subrange(z as int, e as int)) == number(s@.subrange(i as int, e as int)),
{
    let mut z: usize = i;
    while z < e && s[z] == 48
        invariant
            i <= z <= e <= s@.len(),
            number(s@.subrange(z as int, e as int)) == number(s@.subrange(i as int, e as int)),
        decreases e - z,
    {
        proof {
            lemma_leading_zero(s@.subrange(z as int, e as int));
            assert(s@.subrange(z as int, e as int).drop_first() =~= s@.subrange(
                z + 1,
                e as int,
            ));
        }
        z = z + 1;
    }
    z
}

/// Compares the numbers that two runs of digits write.
fn rank_runs(a: &[u8], i: usize, m: usize, b: &[u8], j: usize, n: usize) -> (r: Rank)
    requires
        i <= m <= a@.len(),
        j <= n <= b@.len(),
        forall|k: int| i <= k < m ==> is_digit(#[trigger] a@[k]),
        forall|k: int| j <= k < n ==> is_digit(#[trigger] b@[k]),
    ensures
        rank_of(
            r,
            number(a@.subrange(i as int, m as int)) - number(b@.subrange(j as int, n as int)),
        ),
{
    let x: usize = skip_zeros(a, i, m);
    let y: usize = skip_zeros(b, j, n);
    let ghost ra = a@.subrange(x as int, m as int);
    let ghost rb = b@.subrange(y as int, n as int);
    proof {
        lemma_number_bounds(ra);
        lemma_number_bounds(rb);
    }
    if m - x < n - y {
        proof {
            lemma_ten_to_grows(ra.len(), (rb.len() - 1) as nat);
        }
        return Rank::Below;
    }
    if m - x > n - y {
        proof {
            lemma_ten_to_grows(rb.len(), (ra.len() - 1) as nat);
        }
        return Rank::Above;
    }
    let len: usize = m - x;
    let mut k: usize = 0;
    while k < len
        invariant
            k <= len,
            x + len == m <= a@.len(),
            y + len == n <= b@.len(),
            ra == a@.subrange(x as int, m as int),
            rb == b@.subrange(y as int, n as int),
            forall|q: int| 0 <= q < len ==> is_digit(#[trigger] ra[q]),
            forall|q: int| 0 <= q < len ==> is_digit(#[trigger] rb[q]),
            forall|q: int| 0 <= q < k ==> ra[q] == rb[q],
            number(ra) == number(a@.subrange(i as int, m as int)),
            number(rb) == number(b@.subrange(j as int, n as int)),
        decreases len - k,
    {
        if a[x + k] < b[y + k] {
            proof {
                lemma_first_difference(ra, rb, k as int);
            }
            return Rank::Below;
        }
        if a[x + k] > b[y + k] {
            proof {
                lemma_first_difference(rb, ra, k as int);
            }
            return Rank::Above;
        }
        k = k + 1;
    }
    proof {
        assert(ra =~= rb);
    }
    Rank::Level
}

/// Compares two names given as bytes.
pub fn rank_versions(a: &[u8], b: &[u8]) -> (r: Rank)
    ensures
        rank_of(r, version_order(a@, b@)),
{
    let a_len: usize = a.len();
    let b_len: usize = b.len();
    let mut i: usize = 0;
    let mut j: usize = 0;
    proof {
        assert(a@.skip(0) =~= a@);
        assert(b@.skip(0) =~= b@);
    }
    loop
        invariant
            i <= a@.len(),
            j <= b@.len(),
            a_len == a@.len(),
            b_len == b@.len(),
            version_order(a@, b@) == version_order(a@.skip(i as int), b@.skip(j as int)),
        decreases a@.len() - i + b@.len() - j,
    {
        let ghost sa = a@.skip(i as int);
        let ghost sb = b@.skip(j as int);
        let p: u16 = head(a, i);
        let q: u16 = head(b, j);
        if p < q {
            return Rank::Below;
        }
        if p > q {
            return Rank::Above;
        }
        if p != 1 {
            proof {
                assert(sa.drop_first() =~= a@.skip(i + 1));
                assert(sb.drop_first() =~= b@.skip(j + 1));
            }
            i = i + 1;
            j = j + 1;
        } else {
            if i >= a.len() && j >= b.len() {
                return Rank::Level;
            }
            let m: usize = run_end(a, i);
            let n: usize = run_end(b, j);
            proof {
                lemma_digits_len(sa);
                lemma_digits_len(sb);
                assert(sa.take(m - i) =~= a@.subrange(i as int, m as int));
                assert(sb.take(n - j) =~= b@.subrange(j as int, n as int));
                assert forall|k: int| i <= k < m implies is_digit(#[trigger] a@[k]) by {
                    assert(is_digit(sa[k - i]));
                }
                assert forall|k: int| j <= k < n implies is_digit(#[trigger] b@[k]) by {
                    assert(is_digit(sb[k - j]));
                }
                assert(sa.skip(m - i) =~= a@.skip(m as int));
                assert(sb.skip(n - j) =~= b@.skip(n as int));
            }
            let r = rank_runs(a, i, m, b, j, n);
            if r != Rank::Level {
                return r;
            }
            i = m;
            j = n;
        }
    }
}

/// The bytes of a name.
pub open spec fn name_bytes(s: Seq<char>) -> Seq<u8> {
    vstd::utf8::encode_utf8(s)
}

/// Compares version names: digit runs numerically, `~` below everything.
pub fn cmp_version_names(a: &str, b: &str) -> (r: Ordering)
    ensures
        match r {
            Ordering::Less => version_order(name_bytes(a@), name_bytes(b@)) < 0,
            Ordering::Equal => version_order(name_bytes(a@), name_bytes(b@)) == 0,
            Ordering::Greater => version_order(name_bytes(a@), name_bytes(b@)) > 0,
        },
{
    match rank_versions(a.as_bytes(), b.as_bytes()) {
        Rank::Below => Ordering::Less,
        Rank::Level => Ordering::Equal,
        Rank::Above => Ordering::Greater,
    }
}

} // verus!
