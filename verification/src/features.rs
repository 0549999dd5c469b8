//! Feature-math helpers: league codes, date ranges, head-to-head sums and
//! paired fractions.  Each helper computes one ingredient of the reference
//! feature set as an exact value with a pinned-down contract.
use vstd::prelude::*;

use crate::models::Match;
use crate::ratio::{normalize, rat_add, rat_eq, rat_int, spec_normalize, Rat, Ratio};

verus! {

/// The base-36 value of one character: `0`-`9`, then `a`-`z` and `A`-`Z`
/// as 10 to 35.
pub open spec fn digit36(c: char) -> Option<int> {
    let u = c as int;
    if 48 <= u <= 57 {
        Some(u - 48)
    } else if 97 <= u <= 122 {
        Some(u - 87)
    } else if 65 <= u <= 90 {
        Some(u - 55)
    } else {
        None
    }
}

/// The base-36 value of a digit string: `None` when empty or when any
/// character is no base-36 digit.
pub open spec fn spec_radix36_digits(s: Seq<char>) -> Option<int>
    decreases s.len(),
{
    if s.len() == 0 {
        None
    } else if s.len() == 1 {
        digit36(s[0])
    } else {
        match (spec_radix36_digits(s.drop_last()), digit36(s.last())) {
            (Some(v), Some(d)) => Some(36 * v + d),
            _ => None,
        }
    }
}

/// A league label read as a base-36 integer with an optional leading
/// sign.  The value is unbounded here; the executable reader reports a
/// value outside `i64` as unreadable.
pub open spec fn spec_league_code(s: Seq<char>) -> Option<int> {
    if s.len() > 0 && s[0] == '+' {
        spec_radix36_digits(s.skip(1))
    } else if s.len() > 0 && s[0] == '-' {
        match spec_radix36_digits(s.skip(1)) {
            Some(v) => Some(-v),
            None => None,
        }
    } else {
        spec_radix36_digits(s)
    }
}

/// The label reads as a base-36 integer that fits an `i64`.
pub open spec fn league_ok(s: Seq<char>) -> bool {
    match spec_league_code(s) {
        Some(v) => i64::MIN <= v <= i64::MAX,
        None => false,
    }
}

/// The base-36 value of one character, executable side.
fn digit36_of(c: char) -> (r: Option<u8>)
    ensures
        match r {
            Some(d) => digit36(c) == Some(d as int),
            None => digit36(c) is None,
        },
{
    let u = c as u32;
    if 48 <= u && u <= 57 {
        Some((u - 48) as u8)
    } else if 97 <= u && u <= 122 {
        Some((u - 87) as u8)
    } else if 65 <= u && u <= 90 {
        Some((u - 55) as u8)
    } else {
        None
    }
}

/// A digit string with a bad character anywhere has no value.
proof fn lemma_radix36_bad_digit(s: Seq<char>, k: int)
    requires
        0 <= k < s.len(),
        digit36(s[k]) is None,
    ensures
        spec_radix36_digits(s) is None,
    decreases s.len(),
{
    if s.len() > 1 && k < s.len() - 1 {
        assert(s.drop_last()[k] == s[k]);
        lemma_radix36_bad_digit(s.drop_last(), k);
    }
}

/// Digit-string values are never negative.
proof fn lemma_radix36_nonneg(s: Seq<char>)
    ensures
        spec_radix36_digits(s) is Some ==> spec_radix36_digits(s)->Some_0 >= 0,
    decreases s.len(),
{
    if s.len() > 1 {
        lemma_radix36_nonneg(s.drop_last());
    }
}

/// A valued digit string values each of its prefixes, and appending
/// digits never shrinks the value.
proof fn lemma_radix36_prefix_le(s: Seq<char>, k: int)
    requires
        1 <= k <= s.len(),
        spec_radix36_digits(s) is Some,
    ensures
        spec_radix36_digits(s.take(k)) is Some,
        0 <= spec_radix36_digits(s.take(k))->Some_0 <= spec_radix36_digits(s)->Some_0,
    decreases s.len(),
{
    lemma_radix36_nonneg(s);
    if k == s.len() {
        assert(s.take(k) =~= s);
    } else {
        let r = s.drop_last();
        lemma_radix36_nonneg(r);
        lemma_radix36_prefix_le(r, k);
        assert(s.take(k) =~= r.take(k));
    }
}

/// Reads a league label as a base-36 integer.  `None` when the label is
/// empty, holds a character that is no base-36 digit, or encodes a value
/// outside `i64`.
pub fn league_code(s: &str) -> (r: Option<i64>)
    ensures
        r is Some <==> league_ok(s@),
        r is Some ==> spec_league_code(s@) == Some(r->Some_0 as int),
{
    let len = s.unicode_len();
    if len == 0 {
        return None;
    }
    let first = s.get_char(0);
    let negative = first == '-';
    let start: usize = if first == '-' || first == '+' {
        1
    } else {
        0
    };
    let ghost digits = s@.skip(start as int);
    proof {
        if start == 0 {
            assert(digits =~= s@);
        }
    }
    let limit: u128 = if negative {
        0x8000_0000_0000_0000
    } else {
        0x7fff_ffff_ffff_ffff
    };
    if len == start {
        return None;
    }
    let mut acc: u128 = 0;
    let mut i: usize = start;
    while i < len
        invariant
            start <= i <= len,
            start < len,
            len == s@.len(),
            start <= 1,
            start == 1 ==> (s@[0] == '-' || s@[0] == '+'),
            start == 1 ==> (negative <==> s@[0] == '-'),
            start == 0 ==> !negative && !(s@[0] == '-') && !(s@[0] == '+'),
            digits == s@.skip(start as int),
            i > start ==> spec_radix36_digits(digits.take(i - start)) == Some(acc as int),
            i == start ==> acc == 0,
            acc <= limit,
            limit == if negative {
                0x8000_0000_0000_0000u128
            } else {
                0x7fff_ffff_ffff_ffffu128
            },
        decreases len - i,
    {
        let c = s.get_char(i);
        let ghost k = i + 1 - start;
        proof {
            assert(digits[k - 1] == s@[i as int]);
        }
        let d = match digit36_of(c) {
            Some(d) => d,
            None => {
                proof {
                    lemma_radix36_bad_digit(digits, k - 1);
                    assert(spec_radix36_digits(digits) is None);
                    if start == 1 {
                        assert(digits == s@.skip(1));
                    } else {
                        assert(digits =~= s@);
                    }
                    assert(spec_league_code(s@) is None);
                }
                return None;
            },
        };
        let next: u128 = if i == start {
            d as u128
        } else {
            36 * acc + d as u128
        };
        proof {
            if i > start {
                assert(digits.take(k).drop_last() =~= digits.take(k - 1));
                assert(digits.take(k).last() == digits[k - 1]);
            } else {
                assert(digits.take(1).len() == 1);
                assert(digits.take(1)[0] == digits[0]);
            }
            assert(spec_radix36_digits(digits.take(k)) == Some(next as int));
        }
        if next > limit {
            proof {
                if spec_radix36_digits(digits) is Some {
                    lemma_radix36_prefix_le(digits, k);
                    assert(spec_radix36_digits(digits)->Some_0 >= next as int);
                }
                if start == 1 {
                    assert(digits == s@.skip(1));
                } else {
                    assert(digits =~= s@);
                }
                assert(!league_ok(s@));
            }
            return None;
        }
        acc = next;
        i = i + 1;
    }
    proof {
        assert(digits.take(len - start) =~= digits);
    }
    if negative {
        if acc == 0x8000_0000_0000_0000 {
            Some(i64::MIN)
        } else {
            Some(-(acc as i64))
        }
    } else {
        Some(acc as i64)
    }
}

/// The greatest league code over a match collection: `None` when the
/// collection is empty or any label fails to read.
pub open spec fn spec_max_league_code(ms: Seq<Match>) -> Option<int>
    decreases ms.len(),
{
    if ms.len() == 0 {
        None
    } else if ms.len() == 1 {
        spec_league_code(ms[0].league@)
    } else {
        match (spec_max_league_code(ms.drop_last()), spec_league_code(ms.last().league@)) {
            (Some(a), Some(b)) => Some(if b > a {
                b
            } else {
                a
            }),
            _ => None,
        }
    }
}

/// Every league label in the collection reads as an `i64` base-36 code.
pub open spec fn all_leagues_ok(ms: Seq<Match>) -> bool {
    forall|i: int| 0 <= i < ms.len() ==> league_ok(#[trigger] ms[i].league@)
}

/// The greatest league code over the collection; `None` when the
/// collection is empty or some label fails to read as an `i64` code.
pub fn max_league_code(matches: &Vec<Match>) -> (r: Option<i64>)
    ensures
        r is Some <==> (matches@.len() > 0 && all_leagues_ok(matches@)),
        r is Some ==> spec_max_league_code(matches@) == Some(r->Some_0 as int),
{
    let n = matches.len();
    if n == 0 {
        return None;
    }
    let mut best: i64 = match league_code(matches[0].league.as_str()) {
        Some(v) => v,
        None => {
            return None;
        },
    };
    assert(matches@.take(1).len() == 1);
    assert(matches@.take(1)[0] == matches@[0]);
    let mut i: usize = 1;
    while i < n
        invariant
            1 <= i <= n,
            n == matches@.len(),
            spec_max_league_code(matches@.take(i as int)) == Some(best as int),
            all_leagues_ok(matches@.take(i as int)),
        decreases n - i,
    {
        let v = match league_code(matches[i].league.as_str()) {
            Some(v) => v,
            None => {
                return None;
            },
        };
        if v > best {
            best = v;
        }
        proof {
            assert(matches@.take(i + 1).drop_last() =~= matches@.take(i as int));
            assert(matches@.take(i + 1).last() == matches@[i as int]);
            assert forall|j: int| 0 <= j < i + 1 implies league_ok(
                #[trigger] matches@.take(i + 1)[j].league@,
            ) by {
                if j < i {
                    assert(matches@.take(i + 1)[j] == matches@.take(i as int)[j]);
                }
            }
        }
        i = i + 1;
    }
    proof {
        assert(matches@.take(n as int) =~= matches@);
    }
    Some(best)
}

/// The earliest match date in the collection.
pub open spec fn spec_min_date(ms: Seq<Match>) -> int
    decreases ms.len(),
{
    if ms.len() <= 1 {
        if ms.len() == 1 {
            ms[0].date as int
        } else {
            0
        }
    } else {
        let p = spec_min_date(ms.drop_last());
        if ms.last().date < p {
            ms.last().date as int
        } else {
            p
        }
    }
}

/// The latest match date in the collection.
pub open spec fn spec_max_date(ms: Seq<Match>) -> int
    decreases ms.len(),
{
    if ms.len() <= 1 {
        if ms.len() == 1 {
            ms[0].date as int
        } else {
            0
        }
    } else {
        let p = spec_max_date(ms.drop_last());
        if ms.last().date > p {
            ms.last().date as int
        } else {
            p
        }
    }
}

/// The earliest and latest match dates: `None` for an empty collection.
pub fn date_range(matches: &Vec<Match>) -> (r: Option<[i64; 2]>)
    ensures
        r is Some <==> matches@.len() > 0,
        r is Some ==> r->Some_0[0] == spec_min_date(matches@) && r->Some_0[1] == spec_max_date(
            matches@,
        ),
{
    let n = matches.len();
    if n == 0 {
        return None;
    }
    let mut lo: i64 = matches[0].date;
    let mut hi: i64 = matches[0].date;
    assert(matches@.take(1).len() == 1);
    assert(matches@.take(1)[0] == matches@[0]);
    let mut i: usize = 1;
    while i < n
        invariant
            1 <= i <= n,
            n == matches@.len(),
            lo == spec_min_date(matches@.take(i as int)),
            hi == spec_max_date(matches@.take(i as int)),
        decreases n - i,
    {
        if matches[i].date < lo {
            lo = matches[i].date;
        }
        if matches[i].date > hi {
            hi = matches[i].date;
        }
        proof {
            assert(matches@.take(i + 1).drop_last() =~= matches@.take(i as int));
            assert(matches@.take(i + 1).last() == matches@[i as int]);
        }
        i = i + 1;
    }
    proof {
        assert(matches@.take(n as int) =~= matches@);
    }
    Some([lo, hi])
}

/// The goal totals of earlier encounters between the two clubs of `m`,
/// oriented to the current home/away assignment: `[goals by the current
/// home club, goals by the current away club]` over known-result matches
/// strictly before `d` in which the two clubs met in either orientation.
pub open spec fn spec_h2h(ms: Seq<Match>, home: Seq<char>, away: Seq<char>, d: i64) -> (int, int)
    decreases ms.len(),
{
    if ms.len() == 0 {
        (0, 0)
    } else {
        let p = spec_h2h(ms.drop_last(), home, away, d);
        let n = ms.last();
        match n.result {
            Some(r) => {
                if n.date < d && (n.home@ == home && n.away@ == away || n.home@ == away && n.away@
                    == home) {
                    if n.home@ == home {
                        (p.0 + r[0], p.1 + r[1])
                    } else {
                        (p.0 + r[1], p.1 + r[0])
                    }
                } else {
                    p
                }
            },
            None => p,
        }
    }
}

/// Sums the goals of all earlier meetings between the two clubs of `m`,
/// oriented by the current home/away assignment.
pub fn h2h_to_date(matches: &Vec<Match>, m: &Match) -> (r: [u64; 2])
    requires
        matches@.len() <= 0x0100_0000,
    ensures
        r[0] == spec_h2h(matches@, m.home@, m.away@, m.date).0,
        r[1] == spec_h2h(matches@, m.home@, m.away@, m.date).1,
        r[0] <= 255 * matches@.len(),
        r[1] <= 255 * matches@.len(),
{
    let mut totals: [u64; 2] = [0, 0];
    let n = matches.len();
    for i in 0..n
        invariant
            n == matches@.len(),
            n <= 0x0100_0000,
            totals[0] == spec_h2h(matches@.take(i as int), m.home@, m.away@, m.date).0,
            totals[1] == spec_h2h(matches@.take(i as int), m.home@, m.away@, m.date).1,
            totals[0] <= 255 * i,
            totals[1] <= 255 * i,
    {
        if let Some(result) = matches[i].result {
            if matches[i].date < m.date {
                let home_here = matches[i].home == m.home && matches[i].away == m.away;
                let away_here = matches[i].home == m.away && matches[i].away == m.home;
                if home_here || away_here {
                    if home_here {
                        totals = [totals[0] + result[0] as u64, totals[1] + result[1] as u64];
                    } else {
                        totals = [totals[0] + result[1] as u64, totals[1] + result[0] as u64];
                    }
                }
            }
        }
        proof {
            assert(matches@.take(i + 1).drop_last() =~= matches@.take(i as int));
            assert(matches@.take(i + 1).last() == matches@[i as int]);
        }
    }
    proof {
        assert(matches@.take(n as int) =~= matches@);
    }
    totals
}

/// A pair of rationals.
pub type Rat2 = (Rat, Rat);

/// The two fractions `x/(x+y)` and `y/(x+y)` under the normalization
/// rule, with its degenerate fallback when `x + y == 0`.
pub open spec fn spec_frac_pair(x: int, y: int) -> (Rat2) {
    (
        spec_normalize(rat_int(x), rat_int(0), rat_int(x + y)),
        spec_normalize(rat_int(y), rat_int(0), rat_int(x + y)),
    )
}

/// Law: a fraction pair splits its total — the two cells sum to exactly
/// 1 whenever there is anything to split, and to the degenerate fallback
/// 0 otherwise.  This covers the win/draw/loss, total-scoring,
/// highest-scoring and head-to-head pairs.
pub proof fn lemma_frac_pair_sums(x: int, y: int)
    requires
        0 <= x,
        0 <= y,
    ensures
        x + y > 0 ==> rat_eq(
            rat_add(spec_frac_pair(x, y).0, spec_frac_pair(x, y).1),
            rat_int(1),
        ),
        x + y == 0 ==> rat_eq(
            rat_add(spec_frac_pair(x, y).0, spec_frac_pair(x, y).1),
            rat_int(0),
        ),
{
    if x + y > 0 {
        let s = x + y;
        let p0 = spec_frac_pair(x, y).0;
        let p1 = spec_frac_pair(x, y).1;
        assert(p0 == Rat { num: x * 1, den: 1 * s });
        assert(p1 == Rat { num: y * 1, den: 1 * s });
        assert((x * 1) * (1 * s) + (y * 1) * (1 * s) == (1 * s) * (1 * s)) by (nonlinear_arith)
            requires
                s == x + y,
        {
        }
        assert(rat_add(p0, p1).num == (x * 1) * (1 * s) + (y * 1) * (1 * s));
        assert(rat_add(p0, p1).den == (1 * s) * (1 * s));
        assert(rat_add(p0, p1).num == rat_add(p0, p1).den);
        assert(rat_eq(rat_add(p0, p1), rat_int(1))) by (nonlinear_arith)
            requires
                rat_add(p0, p1).num == rat_add(p0, p1).den,
        {
        }
    } else {
        let p0 = spec_frac_pair(x, y).0;
        let p1 = spec_frac_pair(x, y).1;
        assert(p0 == Rat { num: x * 1 - 0 * 1, den: 1int * 1 });
        assert(rat_eq(rat_add(p0, p1), rat_int(0)));
    }
}

/// Normalizes a whole number against a whole-number range.
pub fn norm_ints(v: i64, lo: i64, hi: i64) -> (r: Ratio)
    ensures
        r@ == spec_normalize(rat_int(v as int), rat_int(lo as int), rat_int(hi as int)),
{
    normalize(Ratio::from_int(v), Ratio::from_int(lo), Ratio::from_int(hi))
}

/// Normalizes two rationals against their sum, exactly as the
/// relative-advantage and median-score feature pairs require.
pub fn norm_pair_ratios(m0: Ratio, m1: Ratio) -> (r: [Ratio; 2])
    requires
        m0.wf(),
        m1.wf(),
        0 <= m0@.num <= 0x8000_0000,
        m0@.den <= 0x8000_0000,
        0 <= m1@.num <= 0x8000_0000,
        m1@.den <= 0x8000_0000,
    ensures
        r[0]@ == spec_normalize(m0@, rat_int(0), rat_add(m0@, m1@)),
        r[1]@ == spec_normalize(m1@, rat_int(0), rat_add(m0@, m1@)),
{
    proof {
        let b: int = 0x8000_0000;
        assert(0 <= m0@.num * m1@.den <= b * b && 0 <= m1@.num * m0@.den <= b * b && 1 <= m0@.den
            * m1@.den <= b * b) by (nonlinear_arith)
            requires
                0 <= m0@.num <= b,
                1 <= m0@.den <= b,
                0 <= m1@.num <= b,
                1 <= m1@.den <= b,
        {
        }
    }
    let s = m0.add(m1);
    proof {
        let b: int = 0x8000_0000;
        assert(0 <= s@.num <= 2 * (b * b));
        assert(1 <= s@.den <= b * b);
        assert(0 <= m0@.num * s@.den <= b * (b * b)) by (nonlinear_arith)
            requires
                0 <= m0@.num <= b,
                0 <= s@.den <= b * b,
        {
        }
        assert(0 <= m0@.den * s@.num <= b * (2 * (b * b))) by (nonlinear_arith)
            requires
                0 <= m0@.den <= b,
                0 <= s@.num <= 2 * (b * b),
        {
        }
        assert(0 <= m1@.num * s@.den <= b * (b * b)) by (nonlinear_arith)
            requires
                0 <= m1@.num <= b,
                0 <= s@.den <= b * b,
        {
        }
        assert(0 <= m1@.den * s@.num <= b * (2 * (b * b))) by (nonlinear_arith)
            requires
                0 <= m1@.den <= b,
                0 <= s@.num <= 2 * (b * b),
        {
        }
    }
    let zero = Ratio::from_int(0);
    [normalize(m0, zero, s), normalize(m1, zero, s)]
}

/// Normalizes `x` and `y` against their sum.
pub fn pair_fractions(x: i64, y: i64) -> (r: [Ratio; 2])
    requires
        0 <= x,
        0 <= y,
        x + y <= i64::MAX,
    ensures
        r[0]@ == spec_frac_pair(x as int, y as int).0,
        r[1]@ == spec_frac_pair(x as int, y as int).1,
{
    let total = x + y;
    let lo = Ratio::from_int(0);
    [
        normalize(Ratio::from_int(x), lo, Ratio::from_int(total)),
        normalize(Ratio::from_int(y), lo, Ratio::from_int(total)),
    ]
}

} // verus!
