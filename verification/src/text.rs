//! Character-sequence utilities: collecting the characters of a string,
//! first-occurrence search, whitespace trimming and signed decimal
//! parsing, each with an exact specification over `Seq<char>`.

use vstd::prelude::*;
use vstd::std_specs::iter::IteratorSpec;

verus! {

broadcast use vstd::utf8::char_is_scalar;

/// The characters of `s`, as a vector.
pub fn chars_of(s: &str) -> (r: Vec<char>)
    ensures
        r@ == s@,
{
    let mut it = s.chars();
    let mut v: Vec<char> = Vec::new();
    loop
        invariant
            it.obeys_prophetic_iter_laws(),
            it.decrease() is Some,
            v@ + it.remaining() == s@,
        ensures
            v@ == s@,
        decreases it.decrease()->0,
    {
        match it.next() {
            Some(c) => {
                v.push(c);
                proof {
                    assert(v@ + it.remaining() =~= s@);
                }
            },
            None => {
                proof {
                    assert(v@ + it.remaining() =~= v@);
                }
                break ;
            },
        }
    }
    v
}

/// Index of the first occurrence of `pat` in `s` at or after `i`.
pub open spec fn find_sub_from(s: Seq<char>, pat: Seq<char>, i: int) -> Option<int>
    decreases s.len() - i,
{
    if i < 0 || i + pat.len() > s.len() {
        None
    } else if s.subrange(i, i + pat.len() as int) == pat {
        Some(i)
    } else if i < s.len() {
        find_sub_from(s, pat, i + 1)
    } else {
        None
    }
}

/// Index of the first occurrence of `pat` in `s`.
pub open spec fn find_sub(s: Seq<char>, pat: Seq<char>) -> Option<int> {
    find_sub_from(s, pat, 0)
}

/// Index of the first occurrence of the character `c` in `s` at or
/// after `i`.
pub open spec fn find_char_from(s: Seq<char>, c: char, i: int) -> Option<int>
    decreases s.len() - i,
{
    if i < 0 || i >= s.len() {
        None
    } else if s[i] == c {
        Some(i)
    } else {
        find_char_from(s, c, i + 1)
    }
}

/// First occurrence of `pat` in `s`, by scanning positions in order.
#[verifier::loop_isolation(false)]
pub fn find_sub_at(s: &Vec<char>, pat: &Vec<char>) -> (r: Option<usize>)
    ensures
        match r {
            Some(i) => find_sub(s@, pat@) == Some(i as int),
            None => find_sub(s@, pat@) is None,
        },
{
    let n = s.len();
    let m = pat.len();
    if m > n {
        return None;
    }
    let mut i: usize = 0;
    while i <= n - m
        invariant
            m <= n == s@.len(),
            m == pat@.len(),
            0 <= i <= n - m + 1,
            find_sub(s@, pat@) == find_sub_from(s@, pat@, i as int),
        decreases n - m - i + 1,
    {
        let mut j: usize = 0;
        let mut hit: bool = true;
        while j < m
            invariant
                m <= n == s@.len(),
                m == pat@.len(),
                0 <= i <= n - m,
                0 <= j <= m,
                hit ==> forall|k: int| 0 <= k < j ==> s@[i + k] == pat@[k],
                !hit ==> exists|k: int| 0 <= k < m && s@[i + k] != pat@[k],
            decreases m - j,
        {
            if s[i + j] != pat[j] {
                hit = false;
                proof {
                    assert(s@[i + j] != pat@[j as int]);
                }
                j = m;
            } else {
                j = j + 1;
            }
        }
        if hit {
            proof {
                assert(s@.subrange(i as int, i + m) =~= pat@) by {
                    assert(forall|k: int|
                        0 <= k < m ==> #[trigger] s@.subrange(i as int, i + m)[k] == s@[i + k]);
                }
            }
            return Some(i);
        }
        proof {
            let k = choose|k: int| 0 <= k < m && s@[i + k] != pat@[k];
            assert(s@.subrange(i as int, i + m)[k] == s@[i + k]);
            assert(s@.subrange(i as int, i + m) != pat@);
        }
        i = i + 1;
    }
    None
}

/// First occurrence of the character `c` in `s` at or after `start`.
#[verifier::loop_isolation(false)]
pub fn find_char_at(s: &Vec<char>, c: char, start: usize) -> (r: Option<usize>)
    requires
        start <= s@.len(),
    ensures
        match r {
            Some(i) => find_char_from(s@, c, start as int) == Some(i as int),
            None => find_char_from(s@, c, start as int) is None,
        },
{
    let n = s.len();
    let mut i: usize = start;
    while i < n
        invariant
            start <= i <= n == s@.len(),
            find_char_from(s@, c, start as int) == find_char_from(s@, c, i as int),
        decreases n - i,
    {
        if s[i] == c {
            return Some(i);
        }
        i = i + 1;
    }
    None
}

/// A found occurrence lies within `s` and at or after the start index.
pub proof fn lemma_find_sub_from_some(s: Seq<char>, pat: Seq<char>, i: int, r: int)
    requires
        find_sub_from(s, pat, i) == Some(r),
    ensures
        i <= r,
        r + pat.len() <= s.len(),
        s.subrange(r, r + pat.len() as int) == pat,
    decreases s.len() - i,
{
    if !(i < 0 || i + pat.len() > s.len()) && s.subrange(i, i + pat.len() as int) != pat && i
        < s.len() {
        lemma_find_sub_from_some(s, pat, i + 1, r);
    }
}

/// A found character lies within `s`, at or after the start index, and
/// is the character sought; nothing before it matches.
pub proof fn lemma_find_char_from_some(s: Seq<char>, c: char, i: int, r: int)
    requires
        find_char_from(s, c, i) == Some(r),
    ensures
        i <= r < s.len(),
        s[r] == c,
    decreases s.len() - i,
{
    if !(i < 0 || i >= s.len()) && s[i] != c {
        lemma_find_char_from_some(s, c, i + 1, r);
    }
}

/// The Unicode whitespace characters, the set that a standard string
/// trim removes from the ends.
pub open spec fn is_space_char(c: char) -> bool {
    let u = c as u32;
    u == 0x09 || u == 0x0A || u == 0x0B || u == 0x0C || u == 0x0D || u == 0x20 || u == 0x85 || u
        == 0xA0 || u == 0x1680 || (0x2000 <= u && u <= 0x200A) || u == 0x2028 || u == 0x2029 || u
        == 0x202F || u == 0x205F || u == 0x3000
}

fn is_space(c: char) -> (r: bool)
    ensures
        r == is_space_char(c),
{
    let u = c as u32;
    u == 0x09 || u == 0x0A || u == 0x0B || u == 0x0C || u == 0x0D || u == 0x20 || u == 0x85 || u
        == 0xA0 || u == 0x1680 || (0x2000 <= u && u <= 0x200A) || u == 0x2028 || u == 0x2029 || u
        == 0x202F || u == 0x205F || u == 0x3000
}

/// Index of the first non-whitespace character at or after `i`, or the
/// length of `s` if all of the rest is whitespace.
pub open spec fn skip_spaces_from(s: Seq<char>, i: int) -> int
    decreases s.len() - i,
{
    if i < 0 || i >= s.len() {
        s.len() as int
    } else if is_space_char(s[i]) {
        skip_spaces_from(s, i + 1)
    } else {
        i
    }
}

/// Moves the end index `e` left past trailing whitespace, never below
/// `lo`.
pub open spec fn shrink_end_above(s: Seq<char>, e: int, lo: int) -> int
    decreases e - lo,
{
    if e <= lo {
        e
    } else if is_space_char(s[e - 1]) {
        shrink_end_above(s, e - 1, lo)
    } else {
        e
    }
}

/// `s` with leading and trailing whitespace removed.
pub open spec fn trimmed(s: Seq<char>) -> Seq<char> {
    let lo = skip_spaces_from(s, 0);
    let hi = shrink_end_above(s, s.len() as int, lo);
    s.subrange(lo, hi)
}

/// A decimal digit.
pub open spec fn is_digit_char(c: char) -> bool {
    48 <= c as u32 <= 57
}

/// Numeric value of a digit character.
pub open spec fn digit_val(c: char) -> int {
    c as u32 - 48
}

/// Value of a sequence of decimal digits, most significant first.
pub open spec fn digits_value(s: Seq<char>) -> int
    decreases s.len(),
{
    if s.len() == 0 {
        0
    } else {
        digits_value(s.drop_last()) * 10 + digit_val(s.last())
    }
}

pub open spec fn all_digits(s: Seq<char>) -> bool {
    forall|k: int| 0 <= k < s.len() ==> is_digit_char(#[trigger] s[k])
}

/// A signed 32-bit decimal integer, read as the standard library reads
/// one: an optional sign, then one or more decimal digits, the value
/// within the `i32` range; anything else reads as nothing.
pub open spec fn parse_i32_spec(s: Seq<char>) -> Option<int> {
    if s.len() == 0 {
        None
    } else {
        let neg = s[0] == '-';
        let body = if s[0] == '-' || s[0] == '+' {
            s.drop_first()
        } else {
            s
        };
        if body.len() >= 1 && all_digits(body) {
            let v = if neg {
                -digits_value(body)
            } else {
                digits_value(body)
            };
            if -0x80000000 <= v <= 0x7fffffff {
                Some(v)
            } else {
                None
            }
        } else {
            None
        }
    }
}

pub open spec fn opt_i32_matches(r: Option<i32>, m: Option<int>) -> bool {
    match (r, m) {
        (Some(v), Some(mv)) => v as int == mv,
        (None, None) => true,
        _ => false,
    }
}

/// Reads the decimal integer written in `v[lo..hi]`.
#[verifier::loop_isolation(false)]
fn parse_i32_range(v: &Vec<char>, lo: usize, hi: usize) -> (r: Option<i32>)
    requires
        lo <= hi <= v@.len(),
    ensures
        opt_i32_matches(r, parse_i32_spec(v@.subrange(lo as int, hi as int))),
{
    let ghost s = v@.subrange(lo as int, hi as int);
    if lo == hi {
        return None;
    }
    proof {
        assert(s[0] == v@[lo as int]);
    }
    let first = v[lo];
    let neg = first == '-';
    let bs: usize = if first == '-' || first == '+' {
        lo + 1
    } else {
        lo
    };
    let ghost body = if s[0] == '-' || s[0] == '+' {
        s.drop_first()
    } else {
        s
    };
    proof {
        assert(body =~= v@.subrange(bs as int, hi as int));
    }
    if bs == hi {
        proof {
            assert(body.len() == 0);
        }
        return None;
    }
    let mut k: usize = bs;
    let mut acc: i64 = 0;
    let mut over: bool = false;
    while k < hi
        invariant
            lo <= bs <= k <= hi <= v@.len(),
            body == v@.subrange(bs as int, hi as int),
            body.len() == hi - bs,
            all_digits(body.subrange(0, k - bs)),
            !over ==> 0 <= acc <= 0x80000000 && acc == digits_value(
                body.subrange(0, k - bs),
            ),
            over ==> digits_value(body.subrange(0, k - bs)) > 0x80000000,
        decreases hi - k,
    {
        let c = v[k];
        let u = c as u32;
        if u < 48 || u > 57 {
            proof {
                assert(body[k - bs] == v@[k as int]);
                assert(!is_digit_char(body[k - bs]));
            }
            return None;
        }
        let d: i64 = (u - 48) as i64;
        proof {
            let ghost t = body.subrange(0, k - bs + 1);
            assert(t.drop_last() =~= body.subrange(0, k - bs));
            assert(t.last() == body[k - bs]);
            assert(body[k - bs] == v@[k as int]);
            assert(all_digits(t)) by {
                assert(forall|q: int|
                    0 <= q < t.len() - 1 ==> t[q] == #[trigger] body.subrange(0, k - bs)[q]);
            }
        }
        if !over {
            acc = acc * 10 + d;
            if acc > 0x80000000 {
                over = true;
            }
        } else {
            proof {
                let pre = body.subrange(0, k - bs);
                assert(digits_value(body.subrange(0, k - bs + 1)) == digits_value(pre) * 10
                    + digit_val(body[k - bs]));
                assert(digits_value(pre) * 10 >= digits_value(pre) + digits_value(pre)) by {
                    assert(digits_value(pre) > 0);
                }
            }
        }
        k = k + 1;
    }
    proof {
        assert(body.subrange(0, (hi - bs) as int) =~= body);
    }
    if over {
        return None;
    }
    if neg {
        proof {
            assert(parse_i32_spec(s) == Some(-digits_value(body)));
        }
        let r: i64 = -acc;
        return Some(r as i32);
    }
    if acc > 0x7fffffff {
        return None;
    }
    Some(acc as i32)
}

/// Reads the decimal integer written in `v[lo..hi]`, ignoring
/// whitespace at either end.
#[verifier::loop_isolation(false)]
pub fn parse_trimmed_range(v: &Vec<char>, lo: usize, hi: usize) -> (r: Option<i32>)
    requires
        lo <= hi <= v@.len(),
    ensures
        opt_i32_matches(r, parse_i32_spec(trimmed(v@.subrange(lo as int, hi as int)))),
{
    let ghost s = v@.subrange(lo as int, hi as int);
    let mut tlo: usize = lo;
    while tlo < hi && is_space(v[tlo])
        invariant
            lo <= tlo <= hi <= v@.len(),
            s == v@.subrange(lo as int, hi as int),
            skip_spaces_from(s, 0) == skip_spaces_from(s, tlo - lo),
        decreases hi - tlo,
    {
        proof {
            assert(s[tlo - lo] == v@[tlo as int]);
        }
        tlo = tlo + 1;
    }
    proof {
        if tlo < hi {
            assert(s[tlo - lo] == v@[tlo as int]);
        }
        assert(skip_spaces_from(s, 0) == tlo - lo);
    }
    let mut thi: usize = hi;
    while thi > tlo && is_space(v[thi - 1])
        invariant
            lo <= tlo <= thi <= hi <= v@.len(),
            s == v@.subrange(lo as int, hi as int),
            skip_spaces_from(s, 0) == tlo - lo,
            shrink_end_above(s, s.len() as int, tlo - lo) == shrink_end_above(
                s,
                thi - lo,
                tlo - lo,
            ),
        decreases thi,
    {
        proof {
            assert(s[thi - lo - 1] == v@[thi - 1]);
        }
        thi = thi - 1;
    }
    proof {
        if thi > tlo {
            assert(s[thi - lo - 1] == v@[thi - 1]);
        }
        assert(shrink_end_above(s, s.len() as int, tlo - lo) == thi - lo);
        assert(trimmed(s) =~= v@.subrange(tlo as int, thi as int));
    }
    parse_i32_range(v, tlo, thi)
}

} // verus!
