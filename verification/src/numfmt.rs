use vstd::prelude::*;
use vstd::string::*;

verus! {

/// Number of digits in the decimal representation of `n`.
pub open spec fn dec_len(n: int) -> int
    decreases n,
{
    if n < 10 {
        1
    } else {
        1 + dec_len(n / 10)
    }
}

pub open spec fn digit_char(d: int) -> char {
    if d == 0 {
        '0'
    } else if d == 1 {
        '1'
    } else if d == 2 {
        '2'
    } else if d == 3 {
        '3'
    } else if d == 4 {
        '4'
    } else if d == 5 {
        '5'
    } else if d == 6 {
        '6'
    } else if d == 7 {
        '7'
    } else if d == 8 {
        '8'
    } else {
        '9'
    }
}

pub open spec fn hex_digit_char(d: int) -> char {
    if d < 10 {
        digit_char(d)
    } else if d == 10 {
        'a'
    } else if d == 11 {
        'b'
    } else if d == 12 {
        'c'
    } else if d == 13 {
        'd'
    } else if d == 14 {
        'e'
    } else {
        'f'
    }
}

/// The decimal representation of `n`, most significant digit first.
pub open spec fn dec_str(n: int) -> Seq<char>
    decreases n,
{
    if n < 10 {
        seq![digit_char(n)]
    } else {
        dec_str(n / 10).push(digit_char(n % 10))
    }
}

/// The lower-case hexadecimal representation of `n`, most significant
/// digit first.
pub open spec fn hex_str(n: int) -> Seq<char>
    decreases n,
{
    if n < 16 {
        seq![hex_digit_char(n)]
    } else {
        hex_str(n / 16).push(hex_digit_char(n % 16))
    }
}

/// The decimal rendering has exactly `dec_len(n)` characters.
pub proof fn lemma_dec_str_len(n: int)
    ensures
        dec_str(n).len() == dec_len(n),
    decreases n,
{
    if n >= 10 {
        lemma_dec_str_len(n / 10);
    }
}

/// Every number needs at least one digit.
pub proof fn lemma_dec_len_pos(n: int)
    ensures
        dec_len(n) >= 1,
    decreases n,
{
    if n >= 10 {
        lemma_dec_len_pos(n / 10);
    }
}

spec fn pow10(k: nat) -> int
    decreases k,
{
    if k == 0 {
        1
    } else {
        10 * pow10((k - 1) as nat)
    }
}

proof fn lemma_dec_len_at_most(n: int, k: nat)
    requires
        0 <= n < pow10(k),
        k >= 1,
    ensures
        dec_len(n) <= k,
    decreases k,
{
    if n >= 10 {
        assert(pow10(k) == 10 * pow10((k - 1) as nat));
        lemma_dec_len_at_most(n / 10, (k - 1) as nat);
    }
}

/// Any `u64` prints in at most 20 decimal digits.
pub proof fn lemma_u64_dec_len(x: u64)
    ensures
        1 <= dec_len(x as int) <= 20,
{
    lemma_dec_len_pos(x as int);
    assert(pow10(20) == 100000000000000000000) by {
        reveal_with_fuel(pow10, 21);
    }
    lemma_dec_len_at_most(x as int, 20);
}

fn digit_str(d: u64) -> (r: &'static str)
    requires
        d < 10,
    ensures
        r@ == seq![digit_char(d as int)],
{
    proof {
        reveal_strlit("0");
        reveal_strlit("1");
        reveal_strlit("2");
        reveal_strlit("3");
        reveal_strlit("4");
        reveal_strlit("5");
        reveal_strlit("6");
        reveal_strlit("7");
        reveal_strlit("8");
        reveal_strlit("9");
    }
    let r: &'static str = if d == 0 {
        "0"
    } else if d == 1 {
        "1"
    } else if d == 2 {
        "2"
    } else if d == 3 {
        "3"
    } else if d == 4 {
        "4"
    } else if d == 5 {
        "5"
    } else if d == 6 {
        "6"
    } else if d == 7 {
        "7"
    } else if d == 8 {
        "8"
    } else {
        "9"
    };
    proof {
        assert(r@ =~= seq![digit_char(d as int)]);
    }
    r
}

fn hex_digit_str(d: u64) -> (r: &'static str)
    requires
        d < 16,
    ensures
        r@ == seq![hex_digit_char(d as int)],
{
    if d < 10 {
        digit_str(d)
    } else {
        proof {
            reveal_strlit("a");
            reveal_strlit("b");
            reveal_strlit("c");
            reveal_strlit("d");
            reveal_strlit("e");
            reveal_strlit("f");
        }
        let r: &'static str = if d == 10 {
            "a"
        } else if d == 11 {
            "b"
        } else if d == 12 {
            "c"
        } else if d == 13 {
            "d"
        } else if d == 14 {
            "e"
        } else {
            "f"
        };
        proof {
            assert(r@ =~= seq![hex_digit_char(d as int)]);
        }
        r
    }
}

/// `x` printed in decimal.
pub fn u64_to_dec_string(x: u64) -> (s: String)
    ensures
        s@ == dec_str(x as int),
        s@.len() == dec_len(x as int),
{
    let mut s = String::new();
    let mut n: u64 = x;
    while n >= 10
        invariant
            dec_str(x as int) == dec_str(n as int) + s@,
        decreases n,
    {
        let d = n % 10;
        let mut t = String::from_str(digit_str(d));
        t.append(s.as_str());
        proof {
            assert(dec_str(n as int) == dec_str(n as int / 10).push(digit_char(n as int % 10)));
            assert(dec_str(n as int) + s@ =~= dec_str(n as int / 10) + t@);
        }
        s = t;
        n = n / 10;
    }
    let mut t = String::from_str(digit_str(n));
    t.append(s.as_str());
    proof {
        assert(dec_str(n as int) =~= seq![digit_char(n as int)]);
        assert(t@ =~= dec_str(n as int) + s@);
        lemma_dec_str_len(x as int);
    }
    t
}

/// `x` printed in lower-case hexadecimal.
pub fn u64_to_hex_string(x: u64) -> (s: String)
    ensures
        s@ == hex_str(x as int),
{
    let mut s = String::new();
    let mut n: u64 = x;
    while n >= 16
        invariant
            hex_str(x as int) == hex_str(n as int) + s@,
        decreases n,
    {
        let d = n % 16;
        let mut t = String::from_str(hex_digit_str(d));
        t.append(s.as_str());
        proof {
            assert(hex_str(n as int) == hex_str(n as int / 16).push(hex_digit_char(n as int % 16)));
            assert(hex_str(n as int) + s@ =~= hex_str(n as int / 16) + t@);
        }
        s = t;
        n = n / 16;
    }
    let mut t = String::from_str(hex_digit_str(n));
    t.append(s.as_str());
    proof {
        assert(hex_str(n as int) =~= seq![hex_digit_char(n as int)]);
        assert(t@ =~= hex_str(n as int) + s@);
    }
    t
}

/// Number of characters `x.to_string()` would need: the decimal width.
pub fn u64_width(x: u64) -> (r: usize)
    ensures
        r == dec_len(x as int),
        1 <= r <= 20,
{
    proof {
        lemma_u64_dec_len(x);
    }
    let mut n: u64 = x;
    let mut w: usize = 1;
    while n >= 10
        invariant
            dec_len(x as int) == w - 1 + dec_len(n as int),
            w >= 1,
            dec_len(x as int) <= 20,
        decreases n,
    {
        proof {
            lemma_dec_len_pos(n as int / 10);
        }
        n = n / 10;
        w = w + 1;
    }
    w
}

} // verus!
