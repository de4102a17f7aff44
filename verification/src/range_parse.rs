use crate::utils::RangeSpec;
use vstd::prelude::*;
use vstd::string::*;

verus! {

/// An ASCII decimal digit.
pub open spec fn is_digit(c: char) -> bool {
    48 <= c as u32 <= 57
}

pub open spec fn digit_val(c: char) -> int {
    c as u32 - 48
}

/// Index of the first character at or after `i` that is not a space.
pub open spec fn skip_spaces(s: Seq<char>, i: int) -> int
    decreases s.len() - i,
{
    if 0 <= i < s.len() && s[i] == ' ' {
        skip_spaces(s, i + 1)
    } else {
        i
    }
}

/// Index just past the run of digits starting at `i`.
pub open spec fn scan_digits(s: Seq<char>, i: int) -> int
    decreases s.len() - i,
{
    if 0 <= i < s.len() && is_digit(s[i]) {
        scan_digits(s, i + 1)
    } else {
        i
    }
}

/// Value of the decimal numeral written in `s[i..j)`.
pub open spec fn digits_val(s: Seq<char>, i: int, j: int) -> int
    decreases j - i,
{
    if j <= i {
        0
    } else {
        digits_val(s, i, j - 1) * 10 + digit_val(s[j - 1])
    }
}

proof fn lemma_skip_spaces_bounds(s: Seq<char>, i: int)
    requires
        0 <= i <= s.len(),
    ensures
        i <= skip_spaces(s, i) <= s.len(),
    decreases s.len() - i,
{
    if i < s.len() && s[i] == ' ' {
        lemma_skip_spaces_bounds(s, i + 1);
    }
}

proof fn lemma_scan_digits_bounds(s: Seq<char>, i: int)
    requires
        0 <= i <= s.len(),
    ensures
        i <= scan_digits(s, i) <= s.len(),
    decreases s.len() - i,
{
    if i < s.len() && is_digit(s[i]) {
        lemma_scan_digits_bounds(s, i + 1);
    }
}

/// One `byte-range-spec` starting at `i` (spaces allowed first): on
/// success, the index just past it and the parsed spec, where a
/// first-position-after-last-position pair is syntactically fine but
/// yields no spec. A numeral that does not fit `u64` fails the parse.
pub open spec fn parse_one(s: Seq<char>, i: int) -> Option<(int, Option<RangeSpec>)> {
    let i0 = skip_spaces(s, i);
    let d1e = scan_digits(s, i0);
    if d1e > i0 {
        // digits, then either "digits - digits" or "digits -"
        let a = digits_val(s, i0, d1e);
        let im = skip_spaces(s, d1e);
        if im < s.len() && s[im] == '-' {
            let i2 = skip_spaces(s, im + 1);
            let d2e = scan_digits(s, i2);
            if d2e > i2 {
                let b = digits_val(s, i2, d2e);
                if a > u64::MAX || b > u64::MAX {
                    None
                } else if a <= b {
                    Some((d2e, Some(RangeSpec::FromToInclusive(a as u64, b as u64))))
                } else {
                    Some((d2e, None))
                }
            } else {
                if a > u64::MAX {
                    None
                } else {
                    Some((im + 1, Some(RangeSpec::FromTo(a as u64))))
                }
            }
        } else {
            None
        }
    } else if i0 < s.len() && s[i0] == '-' {
        let i2 = skip_spaces(s, i0 + 1);
        let d2e = scan_digits(s, i2);
        if d2e > i2 {
            let b = digits_val(s, i2, d2e);
            if b > u64::MAX {
                None
            } else {
                Some((d2e, Some(RangeSpec::SuffixLength(b as u64))))
            }
        } else {
            None
        }
    } else {
        None
    }
}

proof fn lemma_scan_digits_digits(s: Seq<char>, i: int)
    requires
        0 <= i <= s.len(),
    ensures
        forall|q: int| i <= q < scan_digits(s, i) ==> is_digit(#[trigger] s[q]),
    decreases s.len() - i,
{
    if i < s.len() && is_digit(s[i]) {
        lemma_scan_digits_digits(s, i + 1);
    }
}

proof fn lemma_parse_one_bounds(s: Seq<char>, i: int)
    requires
        0 <= i <= s.len(),
    ensures
        match parse_one(s, i) {
            Some((j, _)) => i < j <= s.len(),
            None => true,
        },
{
    lemma_skip_spaces_bounds(s, i);
    let i0 = skip_spaces(s, i);
    lemma_scan_digits_bounds(s, i0);
    let d1e = scan_digits(s, i0);
    if d1e > i0 {
        lemma_skip_spaces_bounds(s, d1e);
        let im = skip_spaces(s, d1e);
        if im < s.len() && s[im] == '-' {
            lemma_skip_spaces_bounds(s, im + 1);
            let i2 = skip_spaces(s, im + 1);
            lemma_scan_digits_bounds(s, i2);
        }
    } else if i0 < s.len() && s[i0] == '-' {
        lemma_skip_spaces_bounds(s, i0 + 1);
        let i2 = skip_spaces(s, i0 + 1);
        lemma_scan_digits_bounds(s, i2);
    }
}

pub open spec fn opt_prepend(o: Option<RangeSpec>, rest: Seq<RangeSpec>) -> Seq<RangeSpec> {
    match o {
        Some(x) => seq![x] + rest,
        None => rest,
    }
}

/// The rest of a `byte-range-set` after one spec: `("," [spec])*` with
/// spaces between tokens, running to the end of the string.
pub open spec fn parse_rest(s: Seq<char>, i: int) -> Option<Seq<RangeSpec>>
    decreases s.len() - i,
        when 0 <= i <= s.len()
        via parse_rest_dec
{
    let i1 = skip_spaces(s, i);
    if i1 >= s.len() {
        Some(Seq::empty())
    } else if s[i1] == ',' {
        let i2 = skip_spaces(s, i1 + 1);
        if i2 >= s.len() {
            Some(Seq::empty())
        } else if s[i2] == ',' {
            parse_rest(s, i1 + 1)
        } else {
            match parse_one(s, i1 + 1) {
                None => None,
                Some((j, opt)) => match parse_rest(s, j) {
                    None => None,
                    Some(rest) => Some(opt_prepend(opt, rest)),
                },
            }
        }
    } else {
        None
    }
}

#[via_fn]
proof fn parse_rest_dec(s: Seq<char>, i: int) {
    lemma_skip_spaces_bounds(s, i);
    let i1 = skip_spaces(s, i);
    if i1 < s.len() && s[i1] == ',' {
        lemma_parse_one_bounds(s, i1 + 1);
    }
}

/// A whole `Range` header: optional spaces, the literal `bytes=`, one
/// required spec, then `("," [spec])*`, to the end of the string.
pub open spec fn spec_parse_range(s: Seq<char>) -> Option<Seq<RangeSpec>> {
    let i0 = skip_spaces(s, 0);
    if i0 + 6 <= s.len() && s.subrange(i0, i0 + 6) =~= "bytes="@ {
        match parse_one(s, i0 + 6) {
            None => None,
            Some((j, opt)) => match parse_rest(s, j) {
                None => None,
                Some(rest) => Some(opt_prepend(opt, rest)),
            },
        }
    } else {
        None
    }
}

/// The wire-level ranges named by a `Range` header; empty when the header
/// is not a syntactically valid `bytes=` range set, and also when every
/// pair in it runs backwards.
pub open spec fn spec_parse_range_header(s: Seq<char>) -> Seq<RangeSpec> {
    match spec_parse_range(s) {
        Some(v) => v,
        None => Seq::empty(),
    }
}

fn exec_skip_spaces(s: &str, i: usize) -> (r: usize)
    requires
        i <= s@.len(),
    ensures
        r == skip_spaces(s@, i as int),
        i <= r <= s@.len(),
{
    let n = s.unicode_len();
    let mut cur = i;
    while cur < n && s.get_char(cur) == ' '
        invariant
            i <= cur <= n,
            n == s@.len(),
            skip_spaces(s@, i as int) == skip_spaces(s@, cur as int),
        decreases n - cur,
    {
        cur += 1;
    }
    proof {
        lemma_skip_spaces_bounds(s@, i as int);
    }
    cur
}

fn exec_is_digit(c: char) -> (r: bool)
    ensures
        r == is_digit(c),
{
    let v = c as u32;
    48 <= v && v <= 57
}

fn exec_scan_digits(s: &str, i: usize) -> (r: usize)
    requires
        i <= s@.len(),
    ensures
        r == scan_digits(s@, i as int),
        i <= r <= s@.len(),
{
    let n = s.unicode_len();
    let mut cur = i;
    while cur < n && exec_is_digit(s.get_char(cur))
        invariant
            i <= cur <= n,
            n == s@.len(),
            scan_digits(s@, i as int) == scan_digits(s@, cur as int),
        decreases n - cur,
    {
        cur += 1;
    }
    proof {
        lemma_scan_digits_bounds(s@, i as int);
    }
    cur
}

proof fn lemma_digits_val_mono(s: Seq<char>, i: int, k: int, j: int)
    requires
        i <= k <= j,
        forall|q: int| i <= q < j ==> is_digit(#[trigger] s[q]),
    ensures
        digits_val(s, i, j) >= digits_val(s, i, k),
        digits_val(s, i, j) >= 0,
    decreases j - k,
{
    if k == j {
        lemma_digits_val_nonneg(s, i, j);
    } else {
        lemma_digits_val_mono(s, i, k, j - 1);
        lemma_digits_val_nonneg(s, i, j - 1);
    }
}

proof fn lemma_digits_val_nonneg(s: Seq<char>, i: int, j: int)
    requires
        forall|q: int| i <= q < j ==> is_digit(#[trigger] s[q]),
    ensures
        digits_val(s, i, j) >= 0,
    decreases j - i,
{
    if j > i {
        lemma_digits_val_nonneg(s, i, j - 1);
    }
}

/// Read the numeral `s[i..j)`, or `None` when it exceeds `u64::MAX`.
fn exec_digits_val(s: &str, i: usize, j: usize) -> (r: Option<u64>)
    requires
        i <= j <= s@.len(),
        forall|q: int| i <= q < j ==> is_digit(#[trigger] s@[q]),
    ensures
        match r {
            Some(v) => v == digits_val(s@, i as int, j as int) && digits_val(
                s@,
                i as int,
                j as int,
            ) <= u64::MAX,
            None => digits_val(s@, i as int, j as int) > u64::MAX,
        },
{
    let mut acc: u64 = 0;
    let mut k = i;
    while k < j
        invariant
            i <= k <= j <= s@.len(),
            forall|q: int| i <= q < j ==> is_digit(#[trigger] s@[q]),
            acc == digits_val(s@, i as int, k as int),
        decreases j - k,
    {
        let c = s.get_char(k);
        let d = (c as u32 - 48) as u64;
        let acc1 = match acc.checked_mul(10) {
            Some(v) => v,
            None => {
                proof {
                    lemma_digits_val_mono(s@, i as int, k + 1, j as int);
                    lemma_digits_val_nonneg(s@, i as int, k as int);
                }
                return None;
            },
        };
        let acc2 = match acc1.checked_add(d) {
            Some(v) => v,
            None => {
                proof {
                    lemma_digits_val_mono(s@, i as int, k + 1, j as int);
                    lemma_digits_val_nonneg(s@, i as int, k as int);
                }
                return None;
            },
        };
        acc = acc2;
        k += 1;
    }
    Some(acc)
}

/// Parse one `byte-range-spec` starting at `i`, as `parse_one` says.
fn exec_parse_one(s: &str, i: usize) -> (r: Option<(usize, Option<RangeSpec>)>)
    requires
        i <= s@.len(),
    ensures
        match r {
            Some((j, opt)) => parse_one(s@, i as int) == Some((j as int, opt)) && i < j
                <= s@.len(),
            None => parse_one(s@, i as int) is None,
        },
{
    proof {
        lemma_parse_one_bounds(s@, i as int);
    }
    let n = s.unicode_len();
    let i0 = exec_skip_spaces(s, i);
    let d1e = exec_scan_digits(s, i0);
    proof {
        lemma_scan_digits_digits(s@, i0 as int);
    }
    if d1e > i0 {
        let im = exec_skip_spaces(s, d1e);
        if im < n && s.get_char(im) == '-' {
            let i2 = exec_skip_spaces(s, im + 1);
            let d2e = exec_scan_digits(s, i2);
            proof {
                lemma_scan_digits_digits(s@, i2 as int);
            }
            if d2e > i2 {
                let a = match exec_digits_val(s, i0, d1e) {
                    Some(v) => v,
                    None => {
                        return None;
                    },
                };
                let b = match exec_digits_val(s, i2, d2e) {
                    Some(v) => v,
                    None => {
                        return None;
                    },
                };
                if a <= b {
                    Some((d2e, Some(RangeSpec::FromToInclusive(a, b))))
                } else {
                    Some((d2e, None))
                }
            } else {
                let a = match exec_digits_val(s, i0, d1e) {
                    Some(v) => v,
                    None => {
                        return None;
                    },
                };
                Some((im + 1, Some(RangeSpec::FromTo(a))))
            }
        } else {
            None
        }
    } else if i0 < n && s.get_char(i0) == '-' {
        let i2 = exec_skip_spaces(s, i0 + 1);
        let d2e = exec_scan_digits(s, i2);
        proof {
            lemma_scan_digits_digits(s@, i2 as int);
        }
        if d2e > i2 {
            let b = match exec_digits_val(s, i2, d2e) {
                Some(v) => v,
                None => {
                    return None;
                },
            };
            Some((d2e, Some(RangeSpec::SuffixLength(b))))
        } else {
            None
        }
    } else {
        None
    }
}

/// Parse a `Range` header into its wire-level ranges; an empty result
/// means the header named none that could even be read.
pub fn parse_range_header(header: &str) -> (r: Vec<RangeSpec>)
    ensures
        r@ == spec_parse_range_header(header@),
{
    let n = header.unicode_len();
    let i0 = exec_skip_spaces(header, 0);
    if n < 6 || i0 > n - 6 {
        proof {
            reveal_strlit("bytes=");
        }
        return Vec::new();
    }
    let lit_ok = header.get_char(i0) == 'b' && header.get_char(i0 + 1) == 'y' && header.get_char(
        i0 + 2,
    ) == 't' && header.get_char(i0 + 3) == 'e' && header.get_char(i0 + 4) == 's'
        && header.get_char(i0 + 5) == '=';
    proof {
        reveal_strlit("bytes=");
        if lit_ok {
            assert(header@.subrange(i0 as int, i0 + 6) =~= "bytes="@);
        } else {
            assert(!(header@.subrange(i0 as int, i0 + 6) =~= "bytes="@)) by {
                if header@.subrange(i0 as int, i0 + 6) =~= "bytes="@ {
                    assert(header@[i0 as int] == "bytes="@[0]);
                    assert(header@[i0 + 1] == "bytes="@[1]);
                    assert(header@[i0 + 2] == "bytes="@[2]);
                    assert(header@[i0 + 3] == "bytes="@[3]);
                    assert(header@[i0 + 4] == "bytes="@[4]);
                    assert(header@[i0 + 5] == "bytes="@[5]);
                }
            }
        }
    }
    if !lit_ok {
        return Vec::new();
    }
    let mut acc: Vec<RangeSpec> = Vec::new();
    let first = match exec_parse_one(header, i0 + 6) {
        None => {
            return Vec::new();
        },
        Some((j, opt)) => {
            if let Some(x) = opt {
                acc.push(x);
            }
            j
        },
    };
    let mut cur = first;
    proof {
        assert(spec_parse_range(header@) == (match parse_rest(header@, cur as int) {
            None => None::<Seq<RangeSpec>>,
            Some(rest) => Some(acc@ + rest),
        }));
    }
    loop
        invariant
            cur <= n,
            n == header@.len(),
            spec_parse_range(header@) == (match parse_rest(header@, cur as int) {
                None => None::<Seq<RangeSpec>>,
                Some(rest) => Some(acc@ + rest),
            }),
        decreases n - cur,
    {
        let i1 = exec_skip_spaces(header, cur);
        if i1 >= n {
            proof {
                assert(acc@ + Seq::<RangeSpec>::empty() =~= acc@);
            }
            return acc;
        }
        if header.get_char(i1) != ',' {
            return Vec::new();
        }
        let i2 = exec_skip_spaces(header, i1 + 1);
        if i2 >= n {
            proof {
                assert(acc@ + Seq::<RangeSpec>::empty() =~= acc@);
            }
            return acc;
        }
        if header.get_char(i2) == ',' {
            cur = i1 + 1;
            continue;
        }
        match exec_parse_one(header, i1 + 1) {
            None => {
                return Vec::new();
            },
            Some((j, opt)) => {
                proof {
                    if let Some(rest_j) = parse_rest(header@, j as int) {
                        if let Some(x) = opt {
                            assert((acc@ + (seq![x] + rest_j)) =~= (acc@.push(x) + rest_j));
                        }
                    }
                }
                if let Some(x) = opt {
                    acc.push(x);
                }
                cur = j;
            },
        }
    }
}

} // verus!
