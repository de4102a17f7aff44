use vstd::prelude::*;
use vstd::string::*;

verus! {

/// Optional white space around a header token: space or horizontal tab.
pub open spec fn is_ows(c: char) -> bool {
    c == ' ' || c == '\t'
}

/// `s` with leading and trailing white space removed.
pub open spec fn spec_trim(s: Seq<char>) -> Seq<char>
    decreases s.len(),
{
    if s.len() > 0 && is_ows(s[0]) {
        spec_trim(s.drop_first())
    } else if s.len() > 0 && is_ows(s.last()) {
        spec_trim(s.drop_last())
    } else {
        s
    }
}

/// `[i, j)` is one comma-separated segment of `s`: it touches a comma or an
/// end of the string on both sides and holds no comma itself.
pub open spec fn is_token_span(s: Seq<char>, i: int, j: int) -> bool {
    &&& 0 <= i <= j <= s.len()
    &&& (i == 0 || s[i - 1] == ',')
    &&& (j == s.len() || s[j] == ',')
    &&& forall|k: int| i <= k < j ==> s[k] != ','
}

/// Some comma-separated segment of `header`, trimmed, equals `etag` exactly.
pub open spec fn spec_token_match(header: Seq<char>, etag: Seq<char>) -> bool {
    exists|i: int, j: int|
        #[trigger] is_token_span(header, i, j) && spec_trim(header.subrange(i, j)) == etag
}

proof fn lemma_trim_all_ws(s: Seq<char>)
    requires
        forall|k: int| 0 <= k < s.len() ==> is_ows(s[k]),
    ensures
        spec_trim(s) == Seq::<char>::empty(),
    decreases s.len(),
{
    if s.len() > 0 {
        lemma_trim_all_ws(s.drop_first());
    } else {
        assert(s =~= Seq::<char>::empty());
    }
}

proof fn lemma_trim_subrange(s: Seq<char>, lo: int, hi: int)
    requires
        0 <= lo <= hi <= s.len(),
        forall|k: int| 0 <= k < lo ==> is_ows(s[k]),
        forall|k: int| hi <= k < s.len() ==> is_ows(s[k]),
        lo < hi ==> !is_ows(s[lo]) && !is_ows(s[hi - 1]),
    ensures
        spec_trim(s) == s.subrange(lo, hi),
    decreases s.len(),
{
    if s.len() == 0 {
        assert(s.subrange(lo, hi) =~= s);
    } else if is_ows(s[0]) {
        if lo == hi {
            assert forall|k: int| 0 <= k < s.len() implies is_ows(s[k]) by {}
            lemma_trim_all_ws(s);
            assert(s.subrange(lo, hi) =~= Seq::<char>::empty());
        } else {
            let s1 = s.drop_first();
            lemma_trim_subrange(s1, lo - 1, hi - 1);
            assert(s1.subrange(lo - 1, hi - 1) =~= s.subrange(lo, hi));
        }
    } else if is_ows(s.last()) {
        let s1 = s.drop_last();
        lemma_trim_subrange(s1, lo, hi);
        assert(s1.subrange(lo, hi) =~= s.subrange(lo, hi));
    } else {
        assert(s.subrange(lo, hi) =~= s);
    }
}

/// Compare the characters `[lo, hi)` of `s` against the whole of `t`.
fn span_eq(s: &str, lo: usize, hi: usize, t: &str) -> (r: bool)
    requires
        lo <= hi <= s@.len(),
    ensures
        r == (s@.subrange(lo as int, hi as int) == t@),
{
    let m = hi - lo;
    if m != t.unicode_len() {
        return false;
    }
    let mut k: usize = 0;
    while k < m
        invariant
            k <= m,
            m == hi - lo,
            lo <= hi <= s@.len(),
            m == t@.len(),
            forall|q: int| 0 <= q < k ==> s@[lo + q] == t@[q],
        decreases m - k,
    {
        if s.get_char(lo + k) != t.get_char(k) {
            proof {
                assert(s@.subrange(lo as int, hi as int)[k as int] != t@[k as int]);
            }
            return false;
        }
        k += 1;
    }
    proof {
        assert(s@.subrange(lo as int, hi as int) =~= t@);
    }
    true
}

/// Exact string equality.
pub fn str_eq(a: &str, b: &str) -> (r: bool)
    ensures
        r == (a@ == b@),
{
    let n = a.unicode_len();
    let r = span_eq(a, 0, n, b);
    proof {
        assert(a@.subrange(0, n as int) =~= a@);
    }
    r
}

fn is_ows_char(c: char) -> (r: bool)
    ensures
        r == is_ows(c),
{
    c == ' ' || c == '\t'
}

/// Split `header` on commas, trim each token, and report whether any token
/// equals `etag` exactly.
pub fn token_match(header: &str, etag: &str) -> (r: bool)
    ensures
        r == spec_token_match(header@, etag@),
{
    let n = header.unicode_len();
    let mut i: usize = 0;
    loop
        invariant
            i <= n,
            n == header@.len(),
            i == 0 || header@[i as int - 1] == ',',
            forall|a: int, b: int|
                #[trigger] is_token_span(header@, a, b) && b < i ==> spec_trim(
                    header@.subrange(a, b),
                ) != etag@,
        decreases n - i,
    {
        let mut j = i;
        while j < n && header.get_char(j) != ','
            invariant
                i <= j <= n,
                n == header@.len(),
                forall|k: int| i <= k < j ==> header@[k] != ',',
            decreases n - j,
        {
            j += 1;
        }
        let mut lo = i;
        while lo < j && is_ows_char(header.get_char(lo))
            invariant
                i <= lo <= j <= n,
                n == header@.len(),
                forall|k: int| i <= k < lo ==> is_ows(header@[k]),
            decreases j - lo,
        {
            lo += 1;
        }
        let mut hi = j;
        while hi > lo && is_ows_char(header.get_char(hi - 1))
            invariant
                lo <= hi <= j <= n,
                n == header@.len(),
                forall|k: int| hi <= k < j ==> is_ows(header@[k]),
            decreases hi,
        {
            hi -= 1;
        }
        let matched = span_eq(header, lo, hi, etag);
        proof {
            let seg = header@.subrange(i as int, j as int);
            lemma_trim_subrange(seg, lo - i, hi - i);
            assert(seg.subrange(lo - i, hi - i) =~= header@.subrange(lo as int, hi as int));
            assert(is_token_span(header@, i as int, j as int));
            assert(spec_trim(seg) == header@.subrange(lo as int, hi as int));
        }
        if matched {
            return true;
        }
        if j == n {
            proof {
                assert forall|a: int, b: int|
                    #[trigger] is_token_span(header@, a, b) implies spec_trim(
                    header@.subrange(a, b),
                ) != etag@ by {
                    if b < i {
                    } else {
                        assert(b == n) by {
                            if b < n {
                                assert(header@[b] == ',');
                            }
                        }
                        assert(a == i) by {
                            if a < i {
                                assert(header@[i as int - 1] == ',');
                            }
                            if a > i {
                                assert(header@[a - 1] == ',');
                            }
                        }
                    }
                }
            }
            return false;
        }
        proof {
            assert forall|a: int, b: int|
                #[trigger] is_token_span(header@, a, b) && b < j + 1 implies spec_trim(
                header@.subrange(a, b),
            ) != etag@ by {
                if b < i {
                } else if b < j {
                    assert(header@[b] == ',');
                    assert(false);
                } else {
                    assert(a == i) by {
                        if a < i {
                            assert(header@[i as int - 1] == ',');
                        }
                        if a > i {
                            assert(header@[a - 1] == ',');
                        }
                    }
                }
            }
        }
        i = j + 1;
    }
}

} // verus!
