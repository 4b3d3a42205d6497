use vstd::prelude::*;

verus! {

/// The decimal digits of `n`, most significant first, without leading zeros.
pub open spec fn decimal(n: nat) -> Seq<char>
    decreases n,
{
    if n < 10 {
        seq![digit(n)]
    } else {
        decimal(n / 10).push(digit(n % 10))
    }
}

/// The ASCII character of a digit below ten.
pub open spec fn digit(d: nat) -> char {
    ((48 + d) as u8) as char
}

/// `decimal(n)` left-padded with `'0'` up to `width` characters.
pub open spec fn padded_decimal(n: nat, width: nat) -> Seq<char> {
    let d = decimal(n);
    if d.len() >= width {
        d
    } else {
        Seq::new((width - d.len()) as nat, |i: int| '0') + d
    }
}

/// The bytes of an ASCII text.
pub open spec fn ascii_bytes(s: Seq<char>) -> Seq<u8> {
    s.map_values(|c: char| c as u8)
}

/// The character text of a digit below ten.
fn digit_str(d: u64) -> (r: &'static str)
    requires
        d < 10,
    ensures
        r@ == seq![digit(d as nat)],
{
    proof {
        reveal_strlit("0");
        reveal_strlit("1");
        reveal_strlit("2");
        reveal_strlit("3");
        reveal_strlit("4");
        reveal_strlit("5");
        reveal_strlit("6");
        reveal_strlit("7");
        reveal_strlit("8");
        reveal_strlit("9");
    }
    if d == 0 {
        "0"
    } else if d == 1 {
        "1"
    } else if d == 2 {
        "2"
    } else if d == 3 {
        "3"
    } else if d == 4 {
        "4"
    } else if d == 5 {
        "5"
    } else if d == 6 {
        "6"
    } else if d == 7 {
        "7"
    } else if d == 8 {
        "8"
    } else {
        "9"
    }
}

/// Appends the decimal digits of `n` to a text.
pub fn push_decimal(out: &mut String, n: u64)
    ensures
        final(out)@ == old(out)@ + decimal(n as nat),
    decreases n,
{
    if n >= 10 {
        push_decimal(out, n / 10);
    }
    out.append(digit_str(n % 10));
    proof {
        if n >= 10 {
            assert(decimal(n as nat) == decimal((n / 10) as nat).push(digit((n % 10) as nat)));
        }
    }
}

/// Appends the ASCII bytes of the decimal digits of `n`.
pub fn push_decimal_bytes(out: &mut Vec<u8>, n: u64)
    ensures
        final(out)@ == old(out)@ + ascii_bytes(decimal(n as nat)),
    decreases n,
{
    if n >= 10 {
        push_decimal_bytes(out, n / 10);
    }
    out.push(48u8 + (n % 10) as u8);
    proof {
        let d = decimal(n as nat);
        if n >= 10 {
            let h = decimal((n / 10) as nat);
            assert(d == h.push(digit((n % 10) as nat)));
            assert(ascii_bytes(d) =~= ascii_bytes(h).push((48 + n % 10) as u8));
        } else {
            assert(ascii_bytes(d) =~= seq![(48 + n) as u8]);
        }
    }
}

/// Appends the decimal digits of `n`, left-padded with zeros to `width` characters.
pub fn push_padded_decimal_bytes(out: &mut Vec<u8>, n: u64, width: u64)
    requires
        width <= 20,
    ensures
        final(out)@ == old(out)@ + ascii_bytes(padded_decimal(n as nat, width as nat)),
{
    let len = decimal_len(n);
    let mut i: u64 = len;
    let ghost start = out@;
    while i < width
        invariant
            len == decimal(n as nat).len(),
            len <= i,
            i <= width || i == len,
            out@ == start + Seq::new((i - len) as nat, |k: int| 48u8),
        decreases width - i,
    {
        out.push(48u8);
        i = i + 1;
        assert(out@ =~= start + Seq::new((i - len) as nat, |k: int| 48u8));
    }
    let ghost pad = out@;
    push_decimal_bytes(out, n);
    proof {
        let d = decimal(n as nat);
        if d.len() >= width {
            assert(i == len);
            assert(pad =~= start);
        } else {
            assert(ascii_bytes(Seq::new((width - d.len()) as nat, |k: int| '0') + d) =~= Seq::new(
                (width - d.len()) as nat,
                |k: int| 48u8,
            ) + ascii_bytes(d));
        }
        assert(out@ =~= start + ascii_bytes(padded_decimal(n as nat, width as nat)));
    }
}

/// Appends the decimal digits of `n`, left-padded with zeros to `width` characters.
pub fn push_padded_decimal(out: &mut String, n: u64, width: u64)
    requires
        width <= 20,
    ensures
        final(out)@ == old(out)@ + padded_decimal(n as nat, width as nat),
{
    let len = decimal_len(n);
    let mut i: u64 = len;
    let ghost start = out@;
    proof {
        reveal_strlit("0");
    }
    while i < width
        invariant
            len == decimal(n as nat).len(),
            len <= i,
            i <= width || i == len,
            out@ == start + Seq::new((i - len) as nat, |k: int| '0'),
        decreases width - i,
    {
        proof {
            reveal_strlit("0");
        }
        out.append("0");
        i = i + 1;
        assert(out@ =~= start + Seq::new((i - len) as nat, |k: int| '0'));
    }
    let ghost pad = out@;
    push_decimal(out, n);
    proof {
        let d = decimal(n as nat);
        if d.len() >= width {
            assert(i == len);
            assert(pad =~= start);
        }
        assert(out@ =~= start + padded_decimal(n as nat, width as nat));
    }
}

/// The number of decimal digits of `n`.
pub fn decimal_len(n: u64) -> (r: u64)
    ensures
        r == decimal(n as nat).len(),
        1 <= r <= 20,
    decreases n,
{
    if n < 10 {
        1
    } else {
        let r = decimal_len(n / 10);
        proof {
            assert(decimal(n as nat) == decimal((n / 10) as nat).push(digit((n % 10) as nat)));
            if n / 10 < 10 {
            } else {
                lemma_decimal_len_bound(n as nat);
            }
        }
        r + 1
    }
}

proof fn lemma_decimal_len_bound(n: nat)
    requires
        n <= u64::MAX,
    ensures
        decimal(n).len() <= 20,
{
    assert(pow10(20) == 100000000000000000000nat) by {
        reveal_with_fuel(pow10, 21);
    }
    lemma_decimal_len_le(n, 20);
}

proof fn lemma_decimal_len_le(n: nat, k: nat)
    requires
        k >= 1,
        n < pow10(k),
    ensures
        decimal(n).len() <= k,
    decreases n,
{
    if n >= 10 {
        assert(k > 1) by {
            if k == 1 {
                assert(pow10(1) == 10) by {
                    reveal_with_fuel(pow10, 2);
                }
            }
        }
        assert(n / 10 < pow10((k - 1) as nat)) by {
            assert(pow10(k) == 10 * pow10((k - 1) as nat));
        }
        lemma_decimal_len_le(n / 10, (k - 1) as nat);
    }
}

spec fn pow10(k: nat) -> nat
    decreases k,
{
    if k == 0 {
        1
    } else {
        10 * pow10((k - 1) as nat)
    }
}

} // verus!
