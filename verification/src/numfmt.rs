//! Decimal rendering of integers, for paths, labels and the JSON lines
//! the transcript archiver writes.

use vstd::prelude::*;

verus! {

/// The decimal digit character for d < 10.
pub open spec fn digit_char(d: nat) -> char {
    if d == 0 {
        '0'
    } else if d == 1 {
        '1'
    } else if d == 2 {
        '2'
    } else if d == 3 {
        '3'
    } else if d == 4 {
        '4'
    } else if d == 5 {
        '5'
    } else if d == 6 {
        '6'
    } else if d == 7 {
        '7'
    } else if d == 8 {
        '8'
    } else {
        '9'
    }
}

/// Decimal digits of n, most significant first, no leading zeros.
pub open spec fn dec_digits(n: nat) -> Seq<char>
    decreases n,
{
    if n < 10 {
        seq![digit_char(n)]
    } else {
        dec_digits(n / 10) + seq![digit_char(n % 10)]
    }
}

/// A run of '0' characters.
pub open spec fn zero_chars(n: nat) -> Seq<char> {
    Seq::new(n, |i: int| '0')
}

/// Decimal digits of n, left-padded with zeros to at least w characters.
pub open spec fn dec_padded(n: nat, w: nat) -> Seq<char> {
    if dec_digits(n).len() >= w {
        dec_digits(n)
    } else {
        zero_chars((w - dec_digits(n).len()) as nat) + dec_digits(n)
    }
}

/// The single-character string for a decimal digit.
pub fn digit_str(d: u64) -> (r: &'static str)
    requires
        d < 10,
    ensures
        r@ == seq![digit_char(d as nat)],
{
    proof {
        reveal_strlit("0");
        reveal_strlit("1");
        reveal_strlit("2");
        reveal_strlit("3");
        reveal_strlit("4");
        reveal_strlit("5");
        reveal_strlit("6");
        reveal_strlit("7");
        reveal_strlit("8");
        reveal_strlit("9");
    }
    let r = if d == 0 {
        "0"
    } else if d == 1 {
        "1"
    } else if d == 2 {
        "2"
    } else if d == 3 {
        "3"
    } else if d == 4 {
        "4"
    } else if d == 5 {
        "5"
    } else if d == 6 {
        "6"
    } else if d == 7 {
        "7"
    } else if d == 8 {
        "8"
    } else {
        "9"
    };
    proof {
        assert(r@ =~= seq![digit_char(d as nat)]);
    }
    r
}

/// The digit characters of a digit stack, last-extracted digit first.
pub open spec fn chars_rev(digs: Seq<u64>) -> Seq<char> {
    Seq::new(digs.len(), |i: int| digit_char(digs[digs.len() - 1 - i] as nat))
}

/// Render n in decimal.
pub fn u64_to_string(n: u64) -> (s: String)
    ensures
        s@ == dec_digits(n as nat),
{
    let mut digs: Vec<u64> = Vec::new();
    let mut x: u64 = n;
    while x >= 10
        invariant
            dec_digits(n as nat) == dec_digits(x as nat) + chars_rev(digs@),
            forall|i: int| 0 <= i < digs@.len() ==> #[trigger] digs@[i] < 10,
        decreases x,
    {
        let d: u64 = x % 10;
        proof {
            assert(dec_digits(x as nat) == dec_digits((x as nat) / 10) + seq![
                digit_char((x as nat) % 10),
            ]);
            assert(chars_rev(digs@.push(d)) =~= seq![digit_char(d as nat)] + chars_rev(digs@));
            assert((dec_digits((x as nat) / 10) + seq![digit_char((x as nat) % 10)]) + chars_rev(
                digs@,
            ) =~= dec_digits((x as nat) / 10) + (seq![digit_char(d as nat)] + chars_rev(digs@)));
        }
        digs.push(d);
        x = x / 10;
    }
    proof {
        assert(dec_digits(x as nat) == seq![digit_char(x as nat)]);
        assert(chars_rev(digs@.push(x)) =~= seq![digit_char(x as nat)] + chars_rev(digs@));
    }
    digs.push(x);
    let ghost all = digs@;
    let mut s = String::new();
    let mut k: usize = digs.len();
    proof {
        assert(s@ =~= chars_rev(all).subrange(0, 0));
    }
    while k > 0
        invariant
            k <= all.len(),
            digs@ == all,
            forall|i: int| 0 <= i < all.len() ==> #[trigger] all[i] < 10,
            s@ == chars_rev(all).subrange(0, all.len() - k),
        decreases k,
    {
        let piece = digit_str(digs[k - 1]);
        s.append(piece);
        proof {
            let j = all.len() - k;
            assert(chars_rev(all)[j as int] == digit_char(all[k - 1] as nat));
            assert(chars_rev(all).subrange(0, j + 1) =~= chars_rev(all).subrange(0, j as int)
                + seq![digit_char(all[k - 1] as nat)]);
        }
        k = k - 1;
    }
    proof {
        assert(chars_rev(all).subrange(0, all.len() as int) =~= chars_rev(all));
        assert(dec_digits(n as nat) =~= dec_digits(x as nat) + chars_rev(all.drop_last()));
    }
    s
}

/// Render n in decimal, left-padded with zeros to at least `width`
/// characters.
pub fn u64_to_string_pad(n: u64, width: usize) -> (s: String)
    ensures
        s@ == dec_padded(n as nat, width as nat),
{
    let digits = u64_to_string(n);
    let len = digits.as_str().unicode_len();
    let mut s = String::new();
    if len < width {
        let mut pad: usize = width - len;
        proof {
            assert(s@ =~= zero_chars(0));
        }
        while pad > 0
            invariant
                pad <= width - len,
                len == dec_digits(n as nat).len(),
                s@ == zero_chars((width - len - pad) as nat),
            decreases pad,
        {
            s.append("0");
            proof {
                reveal_strlit("0");
                assert(s@ =~= zero_chars((width - len - pad + 1) as nat));
            }
            pad = pad - 1;
        }
    }
    s.append(digits.as_str());
    proof {
        if len >= width {
            assert(s@ =~= dec_digits(n as nat));
        } else {
            assert(s@ =~= zero_chars((width - len) as nat) + dec_digits(n as nat));
        }
    }
    s
}

/// Seconds rendered from milliseconds: the integer part, then a decimal
/// point and the millisecond fraction with trailing zeros removed; whole
/// seconds get no fraction at all.  500 ms renders as "0.5".
pub open spec fn ms_decimal_chars(ms: nat) -> Seq<char> {
    let whole = dec_digits(ms / 1000);
    let f = ms % 1000;
    if f == 0 {
        whole
    } else if f % 100 == 0 {
        whole + seq!['.', digit_char(f / 100)]
    } else if f % 10 == 0 {
        whole + seq!['.', digit_char(f / 100), digit_char((f / 10) % 10)]
    } else {
        whole + seq!['.', digit_char(f / 100), digit_char((f / 10) % 10), digit_char(f % 10)]
    }
}

/// Render a millisecond count as decimal seconds, exactly.
pub fn ms_to_decimal_string(ms: u64) -> (s: String)
    ensures
        s@ == ms_decimal_chars(ms as nat),
{
    let mut s = u64_to_string(ms / 1000);
    let f: u64 = ms % 1000;
    proof {
        assert((ms as nat) / 1000 == (ms / 1000) as nat);
        assert((ms as nat) % 1000 == f as nat);
    }
    if f == 0 {
        return s;
    }
    s.append(".");
    s.append(digit_str(f / 100));
    proof {
        reveal_strlit(".");
    }
    if f % 100 == 0 {
        proof {
            assert(s@ =~= ms_decimal_chars(ms as nat));
        }
        return s;
    }
    s.append(digit_str((f / 10) % 10));
    if f % 10 == 0 {
        proof {
            assert(s@ =~= ms_decimal_chars(ms as nat));
        }
        return s;
    }
    s.append(digit_str(f % 10));
    proof {
        assert(s@ =~= ms_decimal_chars(ms as nat));
    }
    s
}

} // verus!
