//! Splitting counter text into lines and fields, and reading decimal numbers.
use vstd::prelude::*;

verus! {

/// ASCII whitespace as `split_ascii_whitespace` knows it.
pub open spec fn is_ascii_ws(b: u8) -> bool {
    b == 32 || b == 9 || b == 10 || b == 12 || b == 13
}

/// The views of a sequence of byte vectors.
pub open spec fn views(v: Seq<Vec<u8>>) -> Seq<Seq<u8>> {
    v.map_values(|x: Vec<u8>| x@)
}

/// `line` without a carriage return at its end, if it has one.
pub open spec fn drop_cr(line: Seq<u8>) -> Seq<u8> {
    if line.len() > 0 && line.last() == 13 {
        line.drop_last()
    } else {
        line
    }
}

/// Lines of `s` from position `i`, where `cur` is the part of the current
/// line already read. A line ends at a newline byte, which it does not hold,
/// nor a carriage return right before that newline; text after the last
/// newline is a line when it is not empty.
pub open spec fn lines_scan(s: Seq<u8>, i: int, cur: Seq<u8>) -> Seq<Seq<u8>>
    decreases s.len() - i,
{
    if i >= s.len() {
        if cur.len() == 0 {
            seq![]
        } else {
            seq![cur]
        }
    } else if s[i] == 10 {
        seq![drop_cr(cur)] + lines_scan(s, i + 1, seq![])
    } else {
        lines_scan(s, i + 1, cur.push(s[i]))
    }
}

/// The lines of `s`.
pub open spec fn lines_of(s: Seq<u8>) -> Seq<Seq<u8>> {
    lines_scan(s, 0, seq![])
}

/// Fields of `s` from position `i`, where `cur` is the part of the current
/// field already read. Fields are the non-empty runs between whitespace.
pub open spec fn fields_scan(s: Seq<u8>, i: int, cur: Seq<u8>) -> Seq<Seq<u8>>
    decreases s.len() - i,
{
    if i >= s.len() {
        if cur.len() == 0 {
            seq![]
        } else {
            seq![cur]
        }
    } else if is_ascii_ws(s[i]) {
        if cur.len() == 0 {
            fields_scan(s, i + 1, seq![])
        } else {
            seq![cur] + fields_scan(s, i + 1, seq![])
        }
    } else {
        fields_scan(s, i + 1, cur.push(s[i]))
    }
}

/// The whitespace-separated fields of `s`.
pub open spec fn fields_of(s: Seq<u8>) -> Seq<Seq<u8>> {
    fields_scan(s, 0, seq![])
}

proof fn lemma_views_push(v: Seq<Vec<u8>>, x: Vec<u8>)
    ensures
        views(v.push(x)) == views(v).push(x@),
{
    assert(views(v.push(x)) =~= views(v).push(x@));
}

/// Splits `s` into lines as a line reader does.
pub fn split_lines(s: &[u8]) -> (r: Vec<Vec<u8>>)
    ensures
        views(r@) == lines_of(s@),
{
    let mut out: Vec<Vec<u8>> = Vec::new();
    let mut cur: Vec<u8> = Vec::new();
    let mut i: usize = 0;
    proof {
        assert(views(out@) =~= seq![]);
        assert(views(out@) + lines_scan(s@, 0, cur@) =~= lines_of(s@));
    }
    while i < s.len()
        invariant
            i <= s@.len(),
            views(out@) + lines_scan(s@, i as int, cur@) == lines_of(s@),
        decreases s.len() - i,
    {
        if s[i] == 10 {
            let mut done = cur;
            if done.len() > 0 && done[done.len() - 1] == 13 {
                done.pop();
            }
            proof {
                assert(done@ =~= drop_cr(cur@));
            }
            cur = Vec::new();
            proof {
                lemma_views_push(out@, done);
                assert(views(out@).push(done@) + lines_scan(s@, i + 1, cur@) =~= views(out@) + (
                seq![done@] + lines_scan(s@, i + 1, cur@)));
            }
            out.push(done);
        } else {
            cur.push(s[i]);
        }
        i = i + 1;
    }
    if cur.len() > 0 {
        proof {
            lemma_views_push(out@, cur);
            assert(views(out@) + lines_scan(s@, i as int, cur@) =~= views(out@).push(cur@));
        }
        out.push(cur);
    } else {
        proof {
            assert(views(out@) + lines_scan(s@, i as int, cur@) =~= views(out@));
        }
    }
    out
}

/// Splits `s` into its whitespace-separated fields.
pub fn split_fields(s: &[u8]) -> (r: Vec<Vec<u8>>)
    ensures
        views(r@) == fields_of(s@),
{
    let mut out: Vec<Vec<u8>> = Vec::new();
    let mut cur: Vec<u8> = Vec::new();
    let mut i: usize = 0;
    proof {
        assert(views(out@) =~= seq![]);
        assert(views(out@) + fields_scan(s@, 0, cur@) =~= fields_of(s@));
    }
    while i < s.len()
        invariant
            i <= s@.len(),
            views(out@) + fields_scan(s@, i as int, cur@) == fields_of(s@),
        decreases s.len() - i,
    {
        let b = s[i];
        if b == 32 || b == 9 || b == 10 || b == 12 || b == 13 {
            if cur.len() > 0 {
                let done = cur;
                cur = Vec::new();
                proof {
                    lemma_views_push(out@, done);
                    assert(views(out@).push(done@) + fields_scan(s@, i + 1, cur@) =~= views(out@)
                        + (seq![done@] + fields_scan(s@, i + 1, cur@)));
                }
                out.push(done);
            } else {
                proof {
                    assert(cur@ =~= seq![]);
                }
            }
        } else {
            cur.push(b);
        }
        i = i + 1;
    }
    if cur.len() > 0 {
        proof {
            lemma_views_push(out@, cur);
            assert(views(out@) + fields_scan(s@, i as int, cur@) =~= views(out@).push(cur@));
        }
        out.push(cur);
    } else {
        proof {
            assert(views(out@) + fields_scan(s@, i as int, cur@) =~= views(out@));
        }
    }
    out
}

/// A copy of `s`.
pub fn copy_bytes(s: &[u8]) -> (r: Vec<u8>)
    ensures
        r@ == s@,
{
    let mut r: Vec<u8> = Vec::new();
    let mut i: usize = 0;
    while i < s.len()
        invariant
            i <= s@.len(),
            r@ == s@.take(i as int),
        decreases s.len() - i,
    {
        r.push(s[i]);
        i = i + 1;
        proof {
            assert(r@ =~= s@.take(i as int));
        }
    }
    proof {
        assert(s@.take(i as int) =~= s@);
    }
    r
}

/// Whether `a` and `b` hold the same bytes.
pub fn same_bytes(a: &[u8], b: &[u8]) -> (r: bool)
    ensures
        r == (a@ == b@),
{
    if a.len() != b.len() {
        return false;
    }
    let mut i: usize = 0;
    while i < a.len()
        invariant
            i <= a@.len(),
            a@.len() == b@.len(),
            a@.take(i as int) == b@.take(i as int),
        decreases a.len() - i,
    {
        if a[i] != b[i] {
            proof {
                assert(a@[i as int] != b@[i as int]);
            }
            return false;
        }
        proof {
            assert(a@.take(i + 1) =~= a@.take(i as int).push(a@[i as int]));
            assert(b@.take(i + 1) =~= b@.take(i as int).push(b@[i as int]));
        }
        i = i + 1;
    }
    proof {
        assert(a@.take(i as int) =~= a@);
        assert(b@.take(i as int) =~= b@);
    }
    true
}

/// Whether every byte of `d` is an ASCII digit.
pub open spec fn all_digits(d: Seq<u8>) -> bool {
    forall|k: int| 0 <= k < d.len() ==> 48 <= #[trigger] d[k] <= 57
}

/// The number that the decimal digits `d` spell.
pub open spec fn digits_value(d: Seq<u8>) -> int
    decreases d.len(),
{
    if d.len() == 0 {
        0
    } else {
        10 * digits_value(d.drop_last()) + (d.last() - 48)
    }
}

/// The integer that `t` writes in decimal: an optional `+` or `-`, then one
/// or more digits. `None` for any other text.
pub open spec fn decimal_of(t: Seq<u8>) -> Option<int> {
    let signed = t.len() > 0 && (t[0] == 45 || t[0] == 43);
    let d = if signed {
        t.skip(1)
    } else {
        t
    };
    if d.len() > 0 && all_digits(d) {
        if t[0] == 45 {
            Some(-digits_value(d))
        } else {
            Some(digits_value(d))
        }
    } else {
        None
    }
}

/// What parsing `t` as an `i64` gives: its decimal value where that fits.
pub open spec fn i64_of(t: Seq<u8>) -> Option<i64> {
    match decimal_of(t) {
        Some(v) => if i64::MIN <= v <= i64::MAX {
            Some(v as i64)
        } else {
            None
        },
        None => None,
    }
}

/// One more than the largest magnitude that an `i64` can have.
const MAGNITUDE_CAP: i128 = 9223372036854775809;

/// Reads `t` as a decimal `i64`, as `str::parse::<i64>` does.
pub fn parse_i64(t: &[u8]) -> (r: Option<i64>)
    ensures
        r == i64_of(t@),
{
    let n = t.len();
    let neg = n > 0 && t[0] == 45;
    let start: usize = if n > 0 && (t[0] == 45 || t[0] == 43) {
        1
    } else {
        0
    };
    let ghost d = t@.skip(start as int);
    proof {
        if start == 0 {
            assert(d =~= t@);
        }
    }
    if start >= n {
        proof {
            assert(d.len() == 0);
        }
        return None;
    }
    // `acc` holds the magnitude read so far, capped at `MAGNITUDE_CAP`.
    let mut acc: i128 = 0;
    let mut j: usize = start;
    while j < n
        invariant
            start <= j <= n,
            n == t@.len(),
            0 <= acc <= MAGNITUDE_CAP,
            d == (if t@.len() > 0 && (t@[0] == 45 || t@[0] == 43) {
                t@.skip(1)
            } else {
                t@
            }),
            d == t@.skip(start as int),
            all_digits(t@.subrange(start as int, j as int)),
            acc as int == if digits_value(t@.subrange(start as int, j as int)) < MAGNITUDE_CAP {
                digits_value(t@.subrange(start as int, j as int))
            } else {
                MAGNITUDE_CAP as int
            },
        decreases n - j,
    {
        let b = t[j];
        if b < 48 || b > 57 {
            proof {
                assert(d[j - start] == b);
                assert(!all_digits(d));
            }
            return None;
        }
        let ghost prev = t@.subrange(start as int, j as int);
        let ghost next = t@.subrange(start as int, j + 1);
        proof {
            assert(next.drop_last() =~= prev);
            assert(next.last() == b);
            assert(all_digits(next)) by {
                assert forall|k: int| 0 <= k < next.len() implies 48 <= #[trigger] next[k] <= 57 by {
                    if k < prev.len() {
                        assert(next[k] == prev[k]);
                    }
                }
            }
            lemma_digits_nonneg(prev);
        }
        let dig: i128 = (b - 48) as i128;
        let step: i128 = 10 * acc + dig;
        acc = if step < MAGNITUDE_CAP {
            step
        } else {
            MAGNITUDE_CAP
        };
        j = j + 1;
    }
    proof {
        assert(t@.subrange(start as int, n as int) =~= d);
        lemma_digits_nonneg(d);
        assert(d.len() > 0);
    }
    if neg {
        if acc < MAGNITUDE_CAP {
            Some((-acc) as i64)
        } else {
            None
        }
    } else {
        if acc < MAGNITUDE_CAP - 1 {
            Some(acc as i64)
        } else {
            None
        }
    }
}

proof fn lemma_digits_nonneg(d: Seq<u8>)
    requires
        all_digits(d),
    ensures
        digits_value(d) >= 0,
    decreases d.len(),
{
    if d.len() > 0 {
        assert(all_digits(d.drop_last())) by {
            assert forall|k: int| 0 <= k < d.drop_last().len() implies 48
                <= #[trigger] d.drop_last()[k] <= 57 by {
                assert(d.drop_last()[k] == d[k]);
            }
        }
        lemma_digits_nonneg(d.drop_last());
        assert(d[d.len() - 1] >= 48);
    }
}

} // verus!
