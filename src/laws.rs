use vstd::prelude::*;
use crate::bepinex_cfg::{value_text, ValueV};
use crate::cfg_parse::{parse_enum_text, position, flag_positions};
use crate::number::{comma_to_dot, decimal_text, lemma_nat_text, nat_text, zeros, parse_decimal_text, Decimal, is_digit, all_digits};
use crate::text::{first_match, is_white, split, trim, trim_end, trim_start};

verus! {

/// Empty flags are written as `0`, and `0` read back against options that
/// do not hold the name `0` gives empty flags again.
pub proof fn lemma_empty_flags_round_trip(options: Seq<Seq<char>>)
    requires
        !options.contains(seq!['0']),
    ensures
        value_text(ValueV::Flags(Seq::empty(), options)) == seq!['0'],
        parse_enum_text(seq!['0'], options, true) == ValueV::Flags(Seq::empty(), options),
{
    let s = seq!['0'];
    let sep = seq![',', ' '];
    assert(first_match(s, sep, 0) == -1);
    assert(split(s, sep) == seq![s]) by {
        assert(s.subrange(0, s.len() as int) == s);
    }
    assert(position(options, s, 0) == -1) by {
        lemma_position_absent(options, s, 0);
    }
    let toks = seq![s];
    assert(toks.drop_last() == Seq::<Seq<char>>::empty());
    assert(toks.last() == s);
    assert(flag_positions(Seq::<Seq<char>>::empty(), options) == Seq::<usize>::empty());
    assert(flag_positions(toks, options) == Seq::<usize>::empty());
}

proof fn lemma_position_absent(o: Seq<Seq<char>>, x: Seq<char>, i: int)
    requires
        !o.contains(x),
        0 <= i,
    ensures
        position(o, x, i) == -1,
    decreases o.len() - i,
{
    if i < o.len() {
        assert(o[i] != x);
        lemma_position_absent(o, x, i + 1);
    }
}

proof fn lemma_trim_start_commas(s: Seq<char>)
    ensures
        trim_start(comma_to_dot(s)) == comma_to_dot(trim_start(s)),
    decreases s.len(),
{
    if s.len() > 0 {
        assert(comma_to_dot(s)[0] == (if s[0] == ',' { '.' } else { s[0] }));
        assert(comma_to_dot(s).skip(1) == comma_to_dot(s.skip(1)));
        lemma_trim_start_commas(s.skip(1));
    } else {
        assert(comma_to_dot(s).len() == 0);
    }
}

proof fn lemma_trim_end_commas(s: Seq<char>)
    ensures
        trim_end(comma_to_dot(s)) == comma_to_dot(trim_end(s)),
    decreases s.len(),
{
    if s.len() > 0 {
        assert(comma_to_dot(s).last() == (if s.last() == ',' { '.' } else { s.last() }));
        assert(comma_to_dot(s).drop_last() == comma_to_dot(s.drop_last()));
        lemma_trim_end_commas(s.drop_last());
    } else {
        assert(comma_to_dot(s).len() == 0);
    }
}

/// A decimal text reads the same with commas as with dots.
pub proof fn lemma_comma_reads_as_dot(s: Seq<char>)
    ensures
        parse_decimal_text(s) == parse_decimal_text(comma_to_dot(s)),
{
    lemma_trim_start_commas(s);
    lemma_trim_end_commas(trim_start(s));
    let t = trim(s);
    assert(trim(comma_to_dot(s)) == comma_to_dot(t));
    assert(comma_to_dot(comma_to_dot(t)) == comma_to_dot(t));
}

/// A written decimal never holds a comma: the separator is always a dot.
pub proof fn lemma_decimal_text_uses_dot(d: Decimal)
    ensures
        !decimal_text(d).contains(','),
{
    let digits = nat_text(d.mantissa as nat);
    lemma_nat_text(d.mantissa as nat);
    assert(!digits.contains(',')) by {
        if digits.contains(',') {
            let i = choose|i: int| 0 <= i < digits.len() && digits[i] == ',';
            assert(is_digit(digits[i]));
        }
    }
    let t = decimal_text(d);
    if t.contains(',') {
        let i = choose|i: int| 0 <= i < t.len() && t[i] == ',';
        let padded = if digits.len() <= d.scale {
            zeros((d.scale + 1 - digits.len()) as nat) + digits
        } else {
            digits
        };
        assert(!padded.contains(',')) by {
            if padded.contains(',') {
                let j = choose|j: int| 0 <= j < padded.len() && padded[j] == ',';
                if digits.len() <= d.scale && j < (d.scale + 1 - digits.len()) {
                    assert(padded[j] == '0');
                } else if digits.len() <= d.scale {
                    assert(padded[j] == digits[j - (d.scale + 1 - digits.len())]);
                }
            }
        }
        let sign = if d.negative {
            seq!['-']
        } else {
            Seq::<char>::empty()
        };
        if d.scale == 0 {
            assert(t == sign + digits);
            if i >= sign.len() {
                assert(t[i] == digits[i - sign.len()]);
            }
        } else {
            let cut = padded.len() - d.scale;
            let head = padded.take(cut);
            let tail = padded.skip(cut);
            assert(t == sign + head + seq!['.'] + tail);
            if i < sign.len() {
            } else if i < sign.len() + head.len() {
                assert(t[i] == head[i - sign.len()]);
                assert(head[i - sign.len()] == padded[i - sign.len()]);
            } else if i == sign.len() + head.len() {
            } else {
                assert(t[i] == tail[i - sign.len() - head.len() - 1]);
                assert(tail[i - sign.len() - head.len() - 1] == padded[cut + i - sign.len() - head.len() - 1]);
            }
        }
    }
}

} // verus!

verus! {

pub proof fn lemma_trim_plain(s: Seq<char>)
    requires
        s.len() > 0,
        !is_white(s[0]),
        !is_white(s.last()),
    ensures
        trim(s) == s,
{
}

proof fn lemma_starts_with_minus(s: Seq<char>)
    ensures
        crate::text::starts_with(seq!['-'] + s, seq!['-']),
        (seq!['-'] + s).skip(1) == s,
{
    assert((seq!['-'] + s).take(1) == seq!['-']);
}

/// Reading back the text of an integer gives the integer.
pub proof fn lemma_int_round_trip(n: i32)
    ensures
        crate::number::parse_int_text(crate::number::int_text(n as int)) == Some(n),
{
    let t = crate::number::int_text(n as int);
    let m: nat = if n < 0 {
        (-n) as nat
    } else {
        n as nat
    };
    let digits = nat_text(m);
    lemma_nat_text(m);
    crate::number::lemma_starts_with_char(t, '-');
    crate::number::lemma_starts_with_char(t, '+');
    if n < 0 {
        lemma_starts_with_minus(digits);
        assert(t == seq!['-'] + digits);
        assert(is_digit(digits.last()));
        assert(t.last() == digits.last());
        lemma_trim_plain(t);
    } else {
        assert(t == digits);
        assert(is_digit(digits[0]));
        assert(is_digit(digits.last()));
        lemma_trim_plain(t);
    }
}

} // verus!

verus! {

proof fn lemma_zeros_value(k: nat, s: Seq<char>)
    ensures
        crate::number::digits_value(zeros(k) + s) == crate::number::digits_value(s),
        all_digits(s) ==> all_digits(zeros(k) + s),
    decreases s.len(), k,
{
    if s.len() > 0 {
        lemma_zeros_value(k, s.drop_last());
        assert((zeros(k) + s).drop_last() == zeros(k) + s.drop_last());
        assert((zeros(k) + s).last() == s.last());
    } else {
        assert(zeros(k) + s == zeros(k));
        if k > 0 {
            lemma_zeros_value((k - 1) as nat, s);
            assert(zeros(k).drop_last() == zeros((k - 1) as nat));
            assert(zeros(k).last() == '0');
        } else {
            assert(zeros(k) == Seq::<char>::empty());
        }
    }
    if all_digits(s) {
        assert forall|i: int| 0 <= i < (zeros(k) + s).len() implies is_digit(#[trigger] (zeros(k) + s)[i]) by {
            if i >= k {
                assert((zeros(k) + s)[i] == s[i - k]);
            }
        }
    }
}

proof fn lemma_no_comma(s: Seq<char>)
    requires
        !s.contains(','),
    ensures
        comma_to_dot(s) == s,
{
    assert forall|i: int| 0 <= i < s.len() implies comma_to_dot(s)[i] == s[i] by {
        if s[i] == ',' {
            assert(s.contains(','));
        }
    }
}

/// Reading back the text of a normalised decimal gives the decimal.
pub proof fn lemma_decimal_round_trip(d: Decimal)
    requires
        d.normalized(),
    ensures
        parse_decimal_text(decimal_text(d)) == Some(d),
{
    let m = d.mantissa as nat;
    let digits = nat_text(m);
    lemma_nat_text(m);
    lemma_decimal_text_uses_dot(d);
    let t = decimal_text(d);
    lemma_no_comma(t);
    let sign = if d.negative {
        seq!['-']
    } else {
        Seq::<char>::empty()
    };
    let padded = if digits.len() <= d.scale {
        zeros((d.scale + 1 - digits.len()) as nat) + digits
    } else {
        digits
    };
    if digits.len() <= d.scale {
        lemma_zeros_value((d.scale + 1 - digits.len()) as nat, digits);
    }
    assert(all_digits(padded));
    assert(crate::number::digits_value(padded) == m);
    assert(padded.len() > d.scale);
    let body = if d.scale == 0 {
        digits
    } else {
        padded.take(padded.len() - d.scale) + seq!['.'] + padded.skip(padded.len() - d.scale)
    };
    assert(t == sign + body);
    crate::number::lemma_starts_with_char(t, '-');
    crate::number::lemma_starts_with_char(t, '+');
    crate::number::lemma_starts_with_char(body, '-');
    assert(body.len() > 0);
    if d.scale == 0 {
        assert(is_digit(body[0]));
    } else {
        assert(body[0] == padded[0]);
        assert(is_digit(padded[0]));
    }
    assert(is_digit(body.last())) by {
        if d.scale == 0 {
        } else {
            assert(body.last() == padded.last());
        }
    }
    if d.negative {
        assert(t.skip(1) == body);
        assert(t.last() == body.last());
    } else {
        assert(t == body);
    }
    lemma_trim_plain(t);
    if d.scale == 0 {
        crate::text::lemma_first_match_absent_char(body, '.', 0);
        assert(body + Seq::<char>::empty() == body);
    } else {
        let cut = padded.len() - d.scale;
        let head = padded.take(cut);
        let tail = padded.skip(cut);
        crate::text::lemma_first_match_char_at(body, '.', 0, head.len() as int);
        assert(body.take(head.len() as int) == head);
        assert(body.skip(head.len() as int + 1) == tail);
        assert(head + tail == padded);
        assert(m % 10 != 0);
    }
}

} // verus!

verus! {

/// The range comment that the writer emits for a value, as the reader sees it.
pub open spec fn written_range(v: ValueV) -> Option<(Seq<char>, Seq<char>)> {
    match v {
        ValueV::Int(_, Some((a, b))) => Some(
            (crate::number::int_text(a as int), crate::number::int_text(b as int)),
        ),
        ValueV::Float(_, Some((a, b))) => Some((decimal_text(a), decimal_text(b))),
        _ => None,
    }
}

} // verus!

verus! {

pub proof fn lemma_position_found(o: Seq<Seq<char>>, x: Seq<char>, i: int)
    requires
        0 <= i,
    ensures
        position(o, x, i) == -1 || (i <= position(o, x, i) < o.len() && o[position(o, x, i)] == x
            && forall|j: int| i <= j < position(o, x, i) ==> o[j] != x),
    decreases o.len() - i,
{
    if i < o.len() && o[i] != x {
        lemma_position_found(o, x, i + 1);
    }
}

pub proof fn lemma_position_first(o: Seq<Seq<char>>, k: int, i: int)
    requires
        0 <= i <= k < o.len(),
        forall|j: int| 0 <= j < k ==> o[j] != o[k],
    ensures
        position(o, o[k], i) == k,
    decreases k - i,
{
    if i < k {
        lemma_position_first(o, k, i + 1);
    }
}

} // verus!
