//! Numbers written as text.

use vstd::prelude::*;

use crate::text::chars_of;

verus! {

/// The sign of each digit, up to base sixteen.
pub open spec fn signs() -> Seq<char> {
    seq!['0', '1', '2', '3', '4', '5', '6', '7', '8', '9', 'a', 'b', 'c', 'd', 'e', 'f']
}

/// `n` written in `base`, without leading zeros.
pub open spec fn numeral(n: nat, base: nat) -> Seq<char>
    decreases n,
{
    if base < 2 {
        seq![]
    } else if n < base {
        seq![signs()[n as int]]
    } else {
        proof {
            vstd::arithmetic::div_mod::lemma_div_decreases(n as int, base as int);
        }
        numeral(n / base, base).push(signs()[(n % base) as int])
    }
}

/// `n` in decimal.
pub open spec fn decimal(n: nat) -> Seq<char> {
    numeral(n, 10)
}

/// `n` in `base`, with zeros in front up to `width` digits.
pub open spec fn padded(n: nat, base: nat, width: nat) -> Seq<char> {
    let s = numeral(n, base);
    if s.len() >= width {
        s
    } else {
        Seq::new((width - s.len()) as nat, |i: int| '0') + s
    }
}

fn sign_of(d: u64) -> (r: char)
    requires
        d < 16,
    ensures
        r == signs()[d as int],
{
    let table: [char; 16] = [
        '0', '1', '2', '3', '4', '5', '6', '7', '8', '9', 'a', 'b', 'c', 'd', 'e', 'f',
    ];
    table[d as usize]
}

fn push_numeral(out: &mut String, n: u64, base: u64)
    requires
        2 <= base <= 16,
    ensures
        final(out)@ == old(out)@ + numeral(n as nat, base as nat),
    decreases n,
{
    if n < base {
        out.push(sign_of(n));
    } else {
        proof {
            vstd::arithmetic::div_mod::lemma_div_decreases(n as int, base as int);
        }
        push_numeral(out, n / base, base);
        out.push(sign_of(n % base));
    }
}

/// `n` in decimal.
pub fn decimal_of(n: usize) -> (r: String)
    ensures
        r@ == decimal(n as nat),
{
    let mut out = String::new();
    push_numeral(&mut out, n as u64, 10);
    out
}

/// `n` in `base`, with zeros in front up to `width` digits.
pub fn padded_of(n: u64, base: u64, width: usize) -> (r: String)
    requires
        2 <= base <= 16,
    ensures
        r@ == padded(n as nat, base as nat, width as nat),
{
    let mut digits = String::new();
    push_numeral(&mut digits, n, base);
    let s = chars_of(digits.as_str());
    if s.len() >= width {
        return digits;
    }
    let missing: usize = width - s.len();
    let mut out = String::new();
    let mut i: usize = 0;
    while i < missing
        invariant
            0 <= i <= missing,
            out@ == Seq::new(i as nat, |k: int| '0'),
        decreases missing - i,
    {
        out.push('0');
        i += 1;
    }
    out.append(digits.as_str());
    out
}

/// The digit that `c` is the sign of.
pub open spec fn digit(c: char) -> Option<nat> {
    if '0' <= c <= '9' {
        Some((c as int - '0' as int) as nat)
    } else {
        None
    }
}

pub open spec fn all_digits(s: Seq<char>) -> bool {
    forall|i: int| 0 <= i < s.len() ==> '0' <= #[trigger] s[i] <= '9'
}

/// What the digits of `s` stand for, in decimal.
pub open spec fn value(s: Seq<char>) -> nat
    decreases s.len(),
{
    if s.len() == 0 {
        0
    } else {
        match digit(s.last()) {
            Some(d) => value(s.drop_last()) * 10 + d,
            None => 0,
        }
    }
}

/// The number that `s` spells in decimal, an optional plus sign in front.
pub open spec fn parsed(s: Seq<char>) -> Option<nat> {
    let digits = if s.len() > 0 && s[0] == '+' {
        s.skip(1)
    } else {
        s
    };
    if digits.len() > 0 && all_digits(digits) {
        Some(value(digits))
    } else {
        None
    }
}

/// The number that `s` spells, where a `usize` holds it.
pub open spec fn parsed_usize(s: Seq<char>) -> Option<nat> {
    match parsed(s) {
        Some(n) if n <= usize::MAX => Some(n),
        _ => None,
    }
}

proof fn value_grows(s: Seq<char>, k: int)
    requires
        all_digits(s),
        0 <= k <= s.len(),
    ensures
        value(s.take(k)) <= value(s),
    decreases s.len() - k,
{
    if k == s.len() {
        assert(s.take(k) =~= s);
    } else {
        value_grows(s, k + 1);
        let t = s.take(k + 1);
        assert(t.drop_last() =~= s.take(k));
        assert('0' <= s[k] <= '9');
    }
}

/// The number that `s` spells in decimal, where a `usize` holds it.
pub fn parse_usize(s: &[char]) -> (r: Option<usize>)
    ensures
        match parsed_usize(s@) {
            Some(n) => r == Some(n as usize),
            None => r is None,
        },
{
    let len: usize = s.len();
    let start: usize = if len > 0 && s[0] == '+' {
        1
    } else {
        0
    };
    let ghost digits = s@.skip(start as int);
    proof {
        assert(s@.skip(0) =~= s@);
    }
    if start == len {
        return None;
    }
    let mut n: usize = 0;
    let mut i: usize = start;
    proof {
        assert(digits.take(0) =~= Seq::<char>::empty());
    }
    let mut fits: bool = true;
    while i < len
        invariant
            start <= i <= len,
            len == s@.len(),
            digits == s@.skip(start as int),
            start < len,
            start == (if s@[0] == '+' { 1int } else { 0int }),
            digits.len() == len - start,
            start == 0 ==> digits == s@,
            forall|k: int| 0 <= k < i - start ==> '0' <= #[trigger] digits[k] <= '9',
            fits ==> n == value(digits.take(i - start)),
            !fits ==> exists|k: int|
                0 <= k <= i - start && #[trigger] value(digits.take(k)) > usize::MAX,
        decreases len - i,
    {
        let c = s[i];
        proof {
            assert(digits[i - start] == c);
        }
        if c < '0' || c > '9' {
            return None;
        }
        let d: usize = (c as u32 - '0' as u32) as usize;
        proof {
            let t = digits.take(i - start + 1);
            assert(t.drop_last() =~= digits.take(i - start));
        }
        if fits {
            match n.checked_mul(10) {
                None => {
                    fits = false;
                    assert(value(digits.take(i - start + 1)) > usize::MAX);
                },
                Some(m) => match m.checked_add(d) {
                    None => {
                        fits = false;
                        assert(value(digits.take(i - start + 1)) > usize::MAX);
                    },
                    Some(k) => {
                        n = k;
                    },
                },
            }
        }
        i += 1;
    }
    proof {
        assert(all_digits(digits));
        assert(digits.take(digits.len() as int) =~= digits);
        if !fits {
            let k = choose|k: int|
                0 <= k <= len - start && #[trigger] value(digits.take(k)) > usize::MAX;
            value_grows(digits, k);
        }
    }
    if fits {
        Some(n)
    } else {
        None
    }
}

} // verus!
