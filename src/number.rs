use vstd::prelude::*;
use crate::text::{trim, trim_chars, starts_with};

verus! {

pub open spec fn is_digit(c: char) -> bool {
    '0' <= c && c <= '9'
}

pub open spec fn digit_value(c: char) -> nat {
    (c as u32 - '0' as u32) as nat
}

pub open spec fn digit_char(d: nat) -> char {
    if d == 0 {
        '0'
    } else if d == 1 {
        '1'
    } else if d == 2 {
        '2'
    } else if d == 3 {
        '3'
    } else if d == 4 {
        '4'
    } else if d == 5 {
        '5'
    } else if d == 6 {
        '6'
    } else if d == 7 {
        '7'
    } else if d == 8 {
        '8'
    } else {
        '9'
    }
}

pub open spec fn all_digits(s: Seq<char>) -> bool {
    forall|i: int| 0 <= i < s.len() ==> is_digit(#[trigger] s[i])
}

/// The number that a string of decimal digits denotes.
pub open spec fn digits_value(s: Seq<char>) -> nat
    decreases s.len(),
{
    if s.len() == 0 {
        0
    } else {
        digits_value(s.drop_last()) * 10 + digit_value(s.last())
    }
}

/// The decimal digits of `n`, without leading zeros.
pub open spec fn nat_text(n: nat) -> Seq<char>
    decreases n,
{
    if n < 10 {
        seq![digit_char(n)]
    } else {
        nat_text(n / 10).push(digit_char(n % 10))
    }
}

/// The decimal text of `n`, with a minus sign when negative.
pub open spec fn int_text(n: int) -> Seq<char> {
    if n < 0 {
        seq!['-'] + nat_text((-n) as nat)
    } else {
        nat_text(n as nat)
    }
}

/// What Rust's `i32::from_str` makes of `s` once it is trimmed: an optional
/// sign, then one or more decimal digits, in range.
pub open spec fn parse_int_text(s: Seq<char>) -> Option<i32> {
    let t = trim(s);
    let neg = starts_with(t, seq!['-']);
    let body = if starts_with(t, seq!['-']) || starts_with(t, seq!['+']) {
        t.skip(1)
    } else {
        t
    };
    let v: int = if neg {
        -digits_value(body)
    } else {
        digits_value(body) as int
    };
    if body.len() > 0 && all_digits(body) && i32::MIN <= v <= i32::MAX {
        Some(v as i32)
    } else {
        None
    }
}

pub proof fn lemma_starts_with_char(s: Seq<char>, c: char)
    ensures
        starts_with(s, seq![c]) == (s.len() > 0 && s[0] == c),
{
    if s.len() > 0 {
        if s[0] == c {
            assert(s.take(1) == seq![c]);
        } else {
            assert(s.take(1)[0] != seq![c][0]);
        }
    }
}

pub proof fn lemma_digit_char(d: nat)
    requires
        d < 10,
    ensures
        is_digit(digit_char(d)),
        digit_value(digit_char(d)) == d,
{
}

/// Reading back the digits of `n` gives `n`.
pub proof fn lemma_nat_text(n: nat)
    ensures
        all_digits(nat_text(n)),
        digits_value(nat_text(n)) == n,
        nat_text(n).len() > 0,
    decreases n,
{
    lemma_digit_char(n % 10);
    if n < 10 {
        let t = seq![digit_char(n)];
        assert(t.drop_last() == Seq::<char>::empty());
        assert(digits_value(t) == digits_value(t.drop_last()) * 10 + digit_value(t.last()));
    } else {
        lemma_nat_text(n / 10);
        let t = nat_text(n / 10).push(digit_char(n % 10));
        assert(t.drop_last() == nat_text(n / 10));
        assert(t.last() == digit_char(n % 10));
        assert(digits_value(t) == digits_value(t.drop_last()) * 10 + digit_value(t.last()));
        assert((n / 10) * 10 + n % 10 == n);
    }
}

proof fn lemma_digits_monotone(s: Seq<char>, i: int)
    requires
        0 <= i <= s.len(),
    ensures
        digits_value(s.take(i)) <= digits_value(s),
    decreases s.len() - i,
{
    if i < s.len() {
        lemma_digits_monotone(s, i + 1);
        let t = s.take(i + 1);
        assert(t.drop_last() == s.take(i));
        assert(digits_value(t) == digits_value(t.drop_last()) * 10 + digit_value(t.last()));
    } else {
        assert(s.take(i) == s);
    }
}

pub fn digit_char_of(d: u64) -> (c: char)
    requires
        d < 10,
    ensures
        c == digit_char(d as nat),
{
    if d == 0 {
        '0'
    } else if d == 1 {
        '1'
    } else if d == 2 {
        '2'
    } else if d == 3 {
        '3'
    } else if d == 4 {
        '4'
    } else if d == 5 {
        '5'
    } else if d == 6 {
        '6'
    } else if d == 7 {
        '7'
    } else if d == 8 {
        '8'
    } else {
        '9'
    }
}

/// Appends the decimal digits of `n`.
pub fn push_nat_text(out: &mut Vec<char>, n: u64)
    ensures
        final(out)@ == old(out)@ + nat_text(n as nat),
    decreases n,
{
    if n >= 10 {
        push_nat_text(out, n / 10);
    }
    out.push(digit_char_of(n % 10));
    proof {
        if n < 10 {
            assert(nat_text(n as nat) == seq![digit_char(n as nat)]);
        }
    }
}

/// Appends the decimal text of `n`.
pub fn push_int_text(out: &mut Vec<char>, n: i32)
    ensures
        final(out)@ == old(out)@ + int_text(n as int),
{
    if n < 0 {
        out.push('-');
        let m: u64 = (0 - (n as i64)) as u64;
        push_nat_text(out, m);
        assert(final(out)@ == old(out)@ + (seq!['-'] + nat_text(m as nat)));
    } else {
        push_nat_text(out, n as u64);
    }
}

/// Reads a trimmed signed 32-bit decimal number, as Rust's `i32::from_str` does.
pub fn parse_i32(s: &[char]) -> (r: Option<i32>)
    ensures
        r == parse_int_text(s@),
{
    let t = trim_chars(s);
    let neg = t.len() > 0 && t[0] == '-';
    let start: usize = if t.len() > 0 && (t[0] == '-' || t[0] == '+') {
        1
    } else {
        0
    };
    proof {
        lemma_starts_with_char(t@, '-');
        lemma_starts_with_char(t@, '+');
    }
    let ghost body = t@.skip(start as int);
    assert(start == 0 ==> body == t@);
    if start >= t.len() {
        return None;
    }
    let mut acc: u64 = 0;
    let mut i: usize = start;
    while i < t.len()
        invariant
            start <= i <= t.len(),
            body == t@.skip(start as int),
            body == (if starts_with(t@, seq!['-']) || starts_with(t@, seq!['+']) {
                t@.skip(1)
            } else {
                t@
            }),
            starts_with(t@, seq!['-']) == neg,
            t@ == trim(s@),
            acc == digits_value(body.take(i - start)),
            acc <= 0x8000_0000,
            all_digits(body.take(i - start)),
        decreases t.len() - i,
    {
        let c = t[i];
        if !('0' <= c && c <= '9') {
            assert(body[i - start] == c);
            assert(!is_digit(body[i - start]));
            return None;
        }
        let d = (c as u32 - '0' as u32) as u64;
        let next = acc * 10 + d;
        proof {
            assert(body.take(i + 1 - start).drop_last() == body.take(i - start));
            assert(body.take(i + 1 - start).last() == c);
        }
        if next > 0x8000_0000 {
            proof {
                lemma_digits_monotone(body, i + 1 - start);
                let p = body.take(i + 1 - start);
                assert(digits_value(p) == digits_value(p.drop_last()) * 10 + digit_value(p.last()));
                assert(digits_value(body) > 0x8000_0000);
            }
            return None;
        }
        proof {
            let p = body.take(i + 1 - start);
            assert(digits_value(p) == digits_value(p.drop_last()) * 10 + digit_value(p.last()));
        }
        acc = next;
        i += 1;
        assert(all_digits(body.take(i - start))) by {
            assert forall|k: int| 0 <= k < i - start implies is_digit(
                #[trigger] body.take(i - start)[k],
            ) by {
                if k < i - 1 - start {
                    assert(body.take(i - start)[k] == body.take(i - 1 - start)[k]);
                }
            }
        }
    }
    assert(body.take(t.len() - start) == body);
    if neg {
        Some((0 - (acc as i64)) as i32)
    } else if acc <= 0x7fff_ffff {
        Some(acc as i32)
    } else {
        None
    }
}

} // verus!

verus! {

/// A decimal number `mantissa / 10^scale`, negated when `negative`.
/// Values that the parser makes are normalised: no trailing zero in the
/// fraction, and zero is never negative.
#[derive(Clone, Copy, Debug, PartialEq, Eq, Structural)]
pub struct Decimal {
    pub negative: bool,
    pub mantissa: u64,
    pub scale: u32,
}

impl Decimal {
    pub open spec fn normalized(self) -> bool {
        (self.scale > 0 ==> self.mantissa % 10 != 0) && (self.mantissa == 0 ==> !self.negative)
    }
}

/// `s` with each comma turned into a dot.
pub open spec fn comma_to_dot(s: Seq<char>) -> Seq<char> {
    s.map_values(|c: char| if c == ',' { '.' } else { c })
}

/// The normalised decimal `(-1)^neg * m / 10^scale`.
pub open spec fn normalize(neg: bool, m: nat, scale: nat) -> Decimal
    decreases scale,
{
    if scale > 0 && m % 10 == 0 {
        normalize(neg, m / 10, (scale - 1) as nat)
    } else {
        Decimal { negative: neg && m != 0, mantissa: m as u64, scale: scale as u32 }
    }
}

/// What a decimal number text denotes, once trimmed and with commas read as
/// dots: an optional sign, digits, and at most one dot, with at least one digit.
pub open spec fn parse_decimal_text(s: Seq<char>) -> Option<Decimal> {
    let t = comma_to_dot(trim(s));
    let neg = starts_with(t, seq!['-']);
    let body = if starts_with(t, seq!['-']) || starts_with(t, seq!['+']) {
        t.skip(1)
    } else {
        t
    };
    let m = crate::text::first_match(body, seq!['.'], 0);
    let whole = if m < 0 {
        body
    } else {
        body.take(m)
    };
    let frac = if m < 0 {
        Seq::<char>::empty()
    } else {
        body.skip(m + 1)
    };
    if whole.len() + frac.len() > 0 && all_digits(whole + frac) && digits_value(whole + frac)
        <= u64::MAX && frac.len() <= u32::MAX {
        Some(normalize(neg, digits_value(whole + frac), frac.len()))
    } else {
        None
    }
}

pub open spec fn zeros(n: nat) -> Seq<char> {
    Seq::new(n, |i: int| '0')
}

/// The text of a decimal: sign, whole digits, and a dot before the last
/// `scale` digits when `scale > 0`.
pub open spec fn decimal_text(d: Decimal) -> Seq<char> {
    let digits = nat_text(d.mantissa as nat);
    let padded = if digits.len() <= d.scale {
        zeros((d.scale + 1 - digits.len()) as nat) + digits
    } else {
        digits
    };
    let sign = if d.negative {
        seq!['-']
    } else {
        Seq::<char>::empty()
    };
    if d.scale == 0 {
        sign + digits
    } else {
        sign + padded.take(padded.len() - d.scale) + seq!['.'] + padded.skip(
            padded.len() - d.scale,
        )
    }
}

proof fn lemma_normalize(neg: bool, m: nat, scale: nat)
    requires
        m <= u64::MAX,
        scale <= u32::MAX,
    ensures
        normalize(neg, m, scale).normalized(),
    decreases scale,
{
    if scale > 0 && m % 10 == 0 {
        lemma_normalize(neg, m / 10, (scale - 1) as nat);
    }
}

/// The value of a string of digits, when every character is a digit and the
/// value fits in 64 bits.
fn digits_u64(s: &[char]) -> (r: Option<u64>)
    ensures
        r == (if all_digits(s@) && digits_value(s@) <= u64::MAX {
            Some(digits_value(s@) as u64)
        } else {
            None
        }),
{
    let mut acc: u64 = 0;
    let mut big = false;
    let mut i: usize = 0;
    while i < s.len()
        invariant
            i <= s.len(),
            all_digits(s@.take(i as int)),
            !big ==> acc == digits_value(s@.take(i as int)),
            big ==> digits_value(s@.take(i as int)) > u64::MAX,
        decreases s.len() - i,
    {
        let c = s[i];
        if !('0' <= c && c <= '9') {
            assert(!is_digit(s@[i as int]));
            return None;
        }
        let d = (c as u32 - '0' as u32) as u64;
        proof {
            let p = s@.take(i + 1);
            assert(p.drop_last() == s@.take(i as int));
            assert(p.last() == c);
            assert(digits_value(p) == digits_value(p.drop_last()) * 10 + digit_value(p.last()));
            assert(all_digits(p)) by {
                assert forall|k: int| 0 <= k < i + 1 implies is_digit(#[trigger] p[k]) by {
                    if k < i {
                        assert(p[k] == s@.take(i as int)[k]);
                    }
                }
            }
        }
        if !big {
            if acc > (u64::MAX - d) / 10 {
                big = true;
            } else {
                acc = acc * 10 + d;
            }
        }
        i += 1;
    }
    assert(s@.take(s.len() as int) == s@);
    if big {
        None
    } else {
        Some(acc)
    }
}

/// Reads a decimal number as `parse_decimal_text` describes.
pub fn parse_decimal(s: &[char]) -> (r: Option<Decimal>)
    ensures
        r == parse_decimal_text(s@),
        r matches Some(d) ==> d.normalized(),
{
    let t0 = trim_chars(s);
    let mut t: Vec<char> = Vec::new();
    let mut k: usize = 0;
    while k < t0.len()
        invariant
            k <= t0.len(),
            t@ == comma_to_dot(t0@).take(k as int),
        decreases t0.len() - k,
    {
        let c = if t0[k] == ',' {
            '.'
        } else {
            t0[k]
        };
        t.push(c);
        k += 1;
        assert(t@ == comma_to_dot(t0@).take(k as int));
    }
    assert(comma_to_dot(t0@).take(k as int) == comma_to_dot(t0@));
    proof {
        crate::number::lemma_starts_with_char(t@, '-');
        crate::number::lemma_starts_with_char(t@, '+');
    }
    let neg = t.len() > 0 && t[0] == '-';
    let start: usize = if t.len() > 0 && (t[0] == '-' || t[0] == '+') {
        1
    } else {
        0
    };
    let body = crate::text::slice_chars(&t, start, t.len());
    assert(start == 0 ==> body@ == t@);
    assert(start == 1 ==> body@ == t@.skip(1));
    let dot: Vec<char> = vec!['.'];
    let m = crate::text::find_from(&body, &dot, 0);
    proof {
        crate::text::lemma_first_match(body@, dot@, 0);
        assert(dot@ == seq!['.']);
    }
    let (whole, frac) = match m {
        None => (body.clone(), Vec::new()),
        Some(m) => (
            crate::text::slice_chars(&body, 0, m),
            crate::text::slice_chars(&body, m + 1, body.len()),
        ),
    };
    proof {
        if let Some(m) = m {
            assert(whole@ == body@.take(m as int));
            assert(frac@ == body@.skip(m + 1));
        } else {
            assert(frac@ == Seq::<char>::empty());
        }
    }
    if whole.len() == 0 && frac.len() == 0 {
        return None;
    }
    if frac.len() > 0xffff_ffff {
        return None;
    }
    let mut all = whole.clone();
    let mut frac_copy = frac.clone();
    all.append(&mut frac_copy);
    let v = digits_u64(&all);
    match v {
        None => None,
        Some(v) => {
            let mut mant: u64 = v;
            let mut scale: u32 = frac.len() as u32;
            while scale > 0 && mant % 10 == 0
                invariant
                    normalize(neg, v as nat, frac.len() as nat) == normalize(
                        neg,
                        mant as nat,
                        scale as nat,
                    ),
                decreases scale,
            {
                mant = mant / 10;
                scale = scale - 1;
            }
            let d = Decimal { negative: neg && mant != 0, mantissa: mant, scale };
            proof {
                lemma_normalize(neg, v as nat, frac.len() as nat);
            }
            Some(d)
        },
    }
}

/// Appends the text of `d`.
pub fn push_decimal_text(out: &mut Vec<char>, d: Decimal)
    ensures
        final(out)@ == old(out)@ + decimal_text(d),
{
    let mut digits: Vec<char> = Vec::new();
    push_nat_text(&mut digits, d.mantissa);
    assert(digits@ == nat_text(d.mantissa as nat));
    if d.negative {
        out.push('-');
    }
    let ghost sign = if d.negative {
        seq!['-']
    } else {
        Seq::<char>::empty()
    };
    assert(out@ == old(out)@ + sign);
    if d.scale == 0 {
        let ghost before = out@;
        out.append(&mut digits);
        assert(out@ == old(out)@ + (sign + nat_text(d.mantissa as nat)));
        return;
    }
    let scale = d.scale as usize;
    let mut padded: Vec<char> = Vec::new();
    if digits.len() <= scale {
        let n = scale - digits.len() + 1;
        let mut i: usize = 0;
        while i < n
            invariant
                i <= n,
                padded@ == zeros(i as nat),
            decreases n - i,
        {
            padded.push('0');
            i += 1;
            assert(padded@ == zeros(i as nat));
        }
    }
    let ghost pz = padded@;
    padded.append(&mut digits);
    assert(padded@ == pz + nat_text(d.mantissa as nat));
    let cut = padded.len() - scale;
    let head = crate::text::slice_chars(&padded, 0, cut);
    let tail = crate::text::slice_chars(&padded, cut, padded.len());
    let ghost o1 = out@;
    let mut head_m = head;
    out.append(&mut head_m);
    out.push('.');
    let mut tail_m = tail;
    out.append(&mut tail_m);
    proof {
        assert(padded@.take(cut as int) == padded@.subrange(0, cut as int));
        assert(padded@.skip(cut as int) == padded@.subrange(cut as int, padded.len() as int));
        assert(out@ == old(out)@ + (sign + padded@.take(cut as int) + seq!['.'] + padded@.skip(cut as int)));
    }
}

} // verus!

verus! {

/// Every decimal that the parser reads is normalised.
pub proof fn lemma_parsed_decimal_normalized(s: Seq<char>)
    ensures
        parse_decimal_text(s) matches Some(d) ==> d.normalized(),
{
    if let Some(d) = parse_decimal_text(s) {
        let t = comma_to_dot(trim(s));
        let body = if starts_with(t, seq!['-']) || starts_with(t, seq!['+']) {
            t.skip(1)
        } else {
            t
        };
        let m = crate::text::first_match(body, seq!['.'], 0);
        let whole = if m < 0 {
            body
        } else {
            body.take(m)
        };
        let frac = if m < 0 {
            Seq::<char>::empty()
        } else {
            body.skip(m + 1)
        };
        lemma_normalize(starts_with(t, seq!['-']), digits_value(whole + frac), frac.len());
    }
}

} // verus!
