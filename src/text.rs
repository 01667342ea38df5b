use vstd::prelude::*;

verus! {

/// The characters of `s`, in order.
pub fn chars_of(s: &str) -> (r: Vec<char>)
    ensures
        r@ == s@,
{
    let mut out: Vec<char> = Vec::new();
    for c in it: s.chars()
        invariant
            out@ == it.seq().take(it.index() as int),
            it.seq() == s@,
    {
        out.push(c);
    }
    out
}

/// Relies on String::push: appends one character.
#[verifier::external_body]
pub(crate) fn push_char(s: &mut String, c: char)
    ensures
        final(s)@ == old(s)@.push(c),
{
    s.push(c)
}

/// The string made of the characters of `v`.
pub fn string_of(v: &[char]) -> (r: String)
    ensures
        r@ == v@,
{
    let mut out = String::new();
    let mut i: usize = 0;
    while i < v.len()
        invariant
            i <= v.len(),
            out@ == v@.take(i as int),
        decreases v.len() - i,
    {
        push_char(&mut out, v[i]);
        i += 1;
        assert(v@.take(i as int) == v@.take(i as int - 1).push(v@[i as int - 1]));
    }
    assert(v@.take(v.len() as int) == v@);
    out
}

} // verus!

verus! {

/// First position at or after `i` where `sep` occurs in `s`, or -1.
pub open spec fn first_match(s: Seq<char>, sep: Seq<char>, i: int) -> int
    decreases s.len() - i,
{
    if i < 0 || i + sep.len() > s.len() {
        -1
    } else if s.subrange(i, i + sep.len()) == sep {
        i
    } else if i >= s.len() {
        -1
    } else {
        first_match(s, sep, i + 1)
    }
}

pub proof fn lemma_first_match(s: Seq<char>, sep: Seq<char>, i: int)
    ensures
        first_match(s, sep, i) == -1 || (i <= first_match(s, sep, i) && first_match(s, sep, i)
            + sep.len() <= s.len() && s.subrange(
            first_match(s, sep, i),
            first_match(s, sep, i) + sep.len(),
        ) == sep),
    decreases s.len() - i,
{
    if i >= 0 && i < s.len() && i + sep.len() <= s.len() && s.subrange(i, i + sep.len()) != sep {
        lemma_first_match(s, sep, i + 1);
    }
}

/// The pieces of `s` from `start` on, cut at each occurrence of `sep`, left to right.
pub open spec fn split_from(s: Seq<char>, sep: Seq<char>, start: int) -> Seq<Seq<char>>
    decreases s.len() - start,
{
    let m = first_match(s, sep, start);
    if sep.len() == 0 || start < 0 || start > s.len() || m < start || m + sep.len() > s.len() {
        seq![s.subrange(start, s.len() as int)]
    } else {
        seq![s.subrange(start, m)] + split_from(s, sep, m + sep.len())
    }
}

/// `s` cut at each occurrence of `sep`.
pub open spec fn split(s: Seq<char>, sep: Seq<char>) -> Seq<Seq<char>> {
    split_from(s, sep, 0)
}

/// The pieces joined with `sep` between each two.
pub open spec fn join(parts: Seq<Seq<char>>, sep: Seq<char>) -> Seq<char>
    decreases parts.len(),
{
    if parts.len() == 0 {
        Seq::empty()
    } else if parts.len() == 1 {
        parts[0]
    } else {
        join(parts.drop_last(), sep) + sep + parts.last()
    }
}

/// Every occurrence of `pat` in `s`, left to right, replaced by `rep`.
pub open spec fn replace(s: Seq<char>, pat: Seq<char>, rep: Seq<char>) -> Seq<char> {
    join(split(s, pat), rep)
}

pub open spec fn starts_with(s: Seq<char>, p: Seq<char>) -> bool {
    p.len() <= s.len() && s.take(p.len() as int) == p
}

pub open spec fn ends_with(s: Seq<char>, p: Seq<char>) -> bool {
    p.len() <= s.len() && s.skip(s.len() - p.len()) == p
}

/// The characters that Rust's `char::is_whitespace` accepts (Unicode White_Space).
pub open spec fn is_white(c: char) -> bool {
    ('\t' <= c && c <= '\r') || c == ' ' || c == '\u{85}' || c == '\u{a0}' || c == '\u{1680}'
        || ('\u{2000}' <= c && c <= '\u{200a}') || c == '\u{2028}' || c == '\u{2029}'
        || c == '\u{202f}' || c == '\u{205f}' || c == '\u{3000}'
}

/// `s` without its leading white space.
pub open spec fn trim_start(s: Seq<char>) -> Seq<char>
    decreases s.len(),
{
    if s.len() > 0 && is_white(s[0]) {
        trim_start(s.skip(1))
    } else {
        s
    }
}

/// `s` without its trailing white space.
pub open spec fn trim_end(s: Seq<char>) -> Seq<char>
    decreases s.len(),
{
    if s.len() > 0 && is_white(s.last()) {
        trim_end(s.drop_last())
    } else {
        s
    }
}

/// `s` without white space at either end.
pub open spec fn trim(s: Seq<char>) -> Seq<char> {
    trim_end(trim_start(s))
}

pub fn is_white_char(c: char) -> (r: bool)
    ensures
        r == is_white(c),
{
    ('\t' <= c && c <= '\r') || c == ' ' || c == '\u{85}' || c == '\u{a0}' || c == '\u{1680}'
        || ('\u{2000}' <= c && c <= '\u{200a}') || c == '\u{2028}' || c == '\u{2029}'
        || c == '\u{202f}' || c == '\u{205f}' || c == '\u{3000}'
}

/// The characters of `s` from `a` up to `b`.
pub fn slice_chars(s: &[char], a: usize, b: usize) -> (r: Vec<char>)
    requires
        a <= b <= s.len(),
    ensures
        r@ == s@.subrange(a as int, b as int),
{
    let mut out: Vec<char> = Vec::new();
    let mut i: usize = a;
    while i < b
        invariant
            a <= i <= b <= s.len(),
            out@ == s@.subrange(a as int, i as int),
        decreases b - i,
    {
        out.push(s[i]);
        i += 1;
    }
    out
}

/// Whether `sep` occurs in `s` at position `i`.
pub fn matches_at(s: &[char], i: usize, sep: &[char]) -> (r: bool)
    requires
        i <= s.len(),
    ensures
        r == (i + sep.len() <= s.len() && s@.subrange(i as int, i + sep.len()) == sep@),
{
    if sep.len() > s.len() - i {
        return false;
    }
    let mut k: usize = 0;
    while k < sep.len()
        invariant
            i + sep.len() <= s.len(),
            k <= sep.len(),
            s@.subrange(i as int, i + k) == sep@.take(k as int),
        decreases sep.len() - k,
    {
        if s[i + k] != sep[k] {
            assert(s@.subrange(i as int, i + sep.len())[k as int] != sep@[k as int]);
            return false;
        }
        k += 1;
        assert(s@.subrange(i as int, i + k) == sep@.take(k as int));
    }
    assert(sep@.take(sep.len() as int) == sep@);
    true
}

/// The first position at or after `from` where `sep` occurs in `s`.
pub fn find_from(s: &[char], sep: &[char], from: usize) -> (r: Option<usize>)
    requires
        from <= s.len(),
    ensures
        match r {
            Some(m) => m == first_match(s@, sep@, from as int),
            None => first_match(s@, sep@, from as int) == -1,
        },
{
    let mut i: usize = from;
    loop
        invariant
            from <= i <= s.len(),
            first_match(s@, sep@, from as int) == first_match(s@, sep@, i as int),
        decreases s.len() - i,
    {
        if sep.len() > s.len() - i {
            return None;
        }
        if matches_at(s, i, sep) {
            return Some(i);
        }
        assert(sep.len() == 0 ==> s@.subrange(i as int, i as int) == sep@);
        i += 1;
    }
}

/// `s` cut at each occurrence of the non-empty `sep`.
pub fn split_chars(s: &[char], sep: &[char]) -> (r: Vec<Vec<char>>)
    requires
        sep.len() > 0,
    ensures
        r@.map_values(|p: Vec<char>| p@) == split(s@, sep@),
{
    let mut out: Vec<Vec<char>> = Vec::new();
    let mut start: usize = 0;
    loop
        invariant
            sep.len() > 0,
            start <= s.len(),
            out@.map_values(|p: Vec<char>| p@) + split_from(s@, sep@, start as int) == split(
                s@,
                sep@,
            ),
        decreases s.len() - start,
    {
        let m = find_from(s, sep, start);
        proof {
            lemma_first_match(s@, sep@, start as int);
        }
        match m {
            None => {
                let last = slice_chars(s, start, s.len());
                proof {
                    assert(out@.push(last).map_values(|p: Vec<char>| p@) == out@.map_values(
                        |p: Vec<char>| p@,
                    ) + split_from(s@, sep@, start as int));
                }
                out.push(last);
                return out;
            },
            Some(m) => {
                let piece = slice_chars(s, start, m);
                proof {
                    assert(out@.push(piece).map_values(|p: Vec<char>| p@) == out@.map_values(
                        |p: Vec<char>| p@,
                    ) + seq![piece@]);
                    assert(split_from(s@, sep@, start as int) == seq![piece@] + split_from(
                        s@,
                        sep@,
                        m + sep.len(),
                    ));
                }
                out.push(piece);
                start = m + sep.len();
            },
        }
    }
}

/// The pieces joined with `sep` between each two.
pub fn join_chars(parts: &Vec<Vec<char>>, sep: &[char]) -> (r: Vec<char>)
    ensures
        r@ == join(parts@.map_values(|p: Vec<char>| p@), sep@),
{
    let ghost views = parts@.map_values(|p: Vec<char>| p@);
    let mut out: Vec<char> = Vec::new();
    let mut i: usize = 0;
    while i < parts.len()
        invariant
            i <= parts.len(),
            views == parts@.map_values(|p: Vec<char>| p@),
            out@ == join(views.take(i as int), sep@),
        decreases parts.len() - i,
    {
        if i > 0 {
            out.extend_from_slice(sep);
        }
        let mut k: usize = 0;
        let ghost before = out@;
        while k < parts[i].len()
            invariant
                i < parts.len(),
                k <= parts[i as int].len(),
                out@ == before + parts[i as int]@.take(k as int),
            decreases parts[i as int].len() - k,
        {
            out.push(parts[i][k]);
            k += 1;
        }
        proof {
            assert(parts[i as int]@.take(k as int) == parts[i as int]@);
            let t = views.take(i + 1);
            assert(t.drop_last() == views.take(i as int));
            assert(t.last() == parts[i as int]@);
        }
        i += 1;
    }
    assert(views.take(parts.len() as int) == views);
    out
}

} // verus!

verus! {

/// `s` without white space at either end.
pub fn trim_chars(s: &[char]) -> (r: Vec<char>)
    ensures
        r@ == trim(s@),
{
    let mut a: usize = 0;
    assert(s@.skip(0) == s@);
    while a < s.len() && is_white_char(s[a as usize])
        invariant
            a <= s.len(),
            trim_start(s@) == trim_start(s@.skip(a as int)),
        decreases s.len() - a,
    {
        assert(s@.skip(a as int).skip(1) == s@.skip(a + 1));
        a += 1;
    }
    let mut b: usize = s.len();
    assert(s@.subrange(a as int, b as int) == s@.skip(a as int));
    while b > a && is_white_char(s[b - 1])
        invariant
            a <= b <= s.len(),
            trim_start(s@) == s@.skip(a as int),
            trim(s@) == trim_end(s@.subrange(a as int, b as int)),
        decreases b - a,
    {
        assert(s@.subrange(a as int, b as int).drop_last() == s@.subrange(a as int, b - 1));
        b -= 1;
    }
    slice_chars(s, a, b)
}

/// Whether `s` begins with `p`.
pub fn has_prefix(s: &[char], p: &[char]) -> (r: bool)
    ensures
        r == starts_with(s@, p@),
{
    if p.len() > s.len() {
        return false;
    }
    let r = matches_at(s, 0, p);
    assert(s@.subrange(0, p.len() as int) == s@.take(p.len() as int));
    r
}

/// Whether `s` ends with `p`.
pub fn has_suffix(s: &[char], p: &[char]) -> (r: bool)
    ensures
        r == ends_with(s@, p@),
{
    if p.len() > s.len() {
        return false;
    }
    let r = matches_at(s, s.len() - p.len(), p);
    assert(s@.subrange(s.len() - p.len(), s.len() as int) == s@.skip(s.len() - p.len()));
    r
}

/// Whether `s` and `t` hold the same characters.
pub fn same_chars(s: &[char], t: &[char]) -> (r: bool)
    ensures
        r == (s@ == t@),
{
    if s.len() != t.len() {
        return false;
    }
    let r = matches_at(s, 0, t);
    assert(s@.subrange(0, t.len() as int) == s@);
    r
}

/// A string's characters, as a `Vec`.
pub fn string_chars(s: &String) -> (r: Vec<char>)
    ensures
        r@ == s@,
{
    chars_of(s.as_str())
}

} // verus!

verus! {

/// An owned copy of a string literal.
pub fn owned(l: &str) -> (r: String)
    ensures
        r@ == l@,
{
    string_of(&chars_of(l))
}

/// Whether `s` holds exactly the characters of `l`.
pub fn equals_str(s: &String, l: &str) -> (r: bool)
    ensures
        r == (s@ == l@),
{
    same_chars(&string_chars(s), &chars_of(l))
}

} // verus!

verus! {

/// What `str::to_lowercase` makes of a text.
pub uninterp spec fn lower_of(s: Seq<char>) -> Seq<char>;

/// Relies on `str::to_lowercase`: the result depends on the characters alone,
/// and an empty text stays empty.
#[verifier::external_body]
pub(crate) fn lowercase(s: &str) -> (r: String)
    ensures
        r@ == lower_of(s@),
        s@.len() == 0 ==> r@.len() == 0,
{
    s.to_lowercase()
}

/// What `String::from_utf8_lossy` makes of some bytes.
pub uninterp spec fn utf8_lossy(b: Seq<u8>) -> Seq<char>;

/// Relies on `String::from_utf8_lossy`: the bytes decoded as UTF-8, each
/// invalid sequence replaced by U+FFFD; the result depends on the bytes alone.
#[verifier::external_body]
pub(crate) fn from_utf8_lossy(b: &[u8]) -> (r: String)
    ensures
        r@ == utf8_lossy(b@),
{
    String::from_utf8_lossy(b).into_owned()
}

/// Whether `p` occurs in `l`.
pub open spec fn has_text(l: Seq<char>, p: Seq<char>) -> bool {
    first_match(l, p, 0) >= 0
}

/// Whether the literal `p` occurs in `l`.
pub fn contains_str(l: &[char], p: &str) -> (r: bool)
    ensures
        r == has_text(l@, p@),
{
    find_from(l, &chars_of(p), 0).is_some()
}

} // verus!

verus! {

pub proof fn lemma_join_prepend(a: Seq<char>, rest: Seq<Seq<char>>, sep: Seq<char>)
    requires
        rest.len() > 0,
    ensures
        join(seq![a] + rest, sep) == a + sep + join(rest, sep),
    decreases rest.len(),
{
    let all = seq![a] + rest;
    if rest.len() == 1 {
        assert(all.drop_last() == seq![a]);
        assert(all.last() == rest[0]);
        assert(join(seq![a], sep) == a);
        assert(join(rest, sep) == rest[0]);
    } else {
        lemma_join_prepend(a, rest.drop_last(), sep);
        assert(all.drop_last() == seq![a] + rest.drop_last());
        assert(all.last() == rest.last());
        assert(join(all, sep) == join(all.drop_last(), sep) + sep + all.last());
        assert(join(rest, sep) == join(rest.drop_last(), sep) + sep + rest.last());
        assert(a + sep + join(rest.drop_last(), sep) + sep + rest.last() == a + sep + (join(
            rest.drop_last(),
            sep,
        ) + sep + rest.last()));
    }
}

proof fn lemma_join_split_from(s: Seq<char>, sep: Seq<char>, start: int)
    requires
        sep.len() > 0,
        0 <= start <= s.len(),
    ensures
        join(split_from(s, sep, start), sep) == s.subrange(start, s.len() as int),
    decreases s.len() - start,
{
    let m = first_match(s, sep, start);
    lemma_first_match(s, sep, start);
    if m < 0 {
        assert(split_from(s, sep, start) == seq![s.subrange(start, s.len() as int)]);
    } else {
        let rest = split_from(s, sep, m + sep.len());
        lemma_join_split_from(s, sep, m + sep.len());
        lemma_split_from_nonempty(s, sep, m + sep.len());
        lemma_join_prepend(s.subrange(start, m), rest, sep);
        assert(s.subrange(start, m) + sep + s.subrange(m + sep.len(), s.len() as int) == s.subrange(
            start,
            s.len() as int,
        ));
    }
}

pub proof fn lemma_split_from_nonempty(s: Seq<char>, sep: Seq<char>, start: int)
    ensures
        split_from(s, sep, start).len() > 0,
    decreases s.len() - start,
{
    let m = first_match(s, sep, start);
    if !(sep.len() == 0 || start < 0 || start > s.len() || m < start || m + sep.len() > s.len()) {
        lemma_split_from_nonempty(s, sep, m + sep.len());
    }
}

/// Joining the pieces of a split with the same separator gives the text back.
pub proof fn lemma_join_split(s: Seq<char>, sep: Seq<char>)
    requires
        sep.len() > 0,
    ensures
        join(split(s, sep), sep) == s,
{
    lemma_join_split_from(s, sep, 0);
    assert(s.subrange(0, s.len() as int) == s);
}

proof fn lemma_first_match_shift(p: Seq<char>, r: Seq<char>, sep: Seq<char>, i: int)
    requires
        0 <= i,
        sep.len() > 0,
    ensures
        first_match(p + r, sep, p.len() + i) == (if first_match(r, sep, i) < 0 {
            -1
        } else {
            first_match(r, sep, i) + p.len()
        }),
    decreases r.len() - i,
{
    let s = p + r;
    let k = p.len() + i;
    if k + sep.len() <= s.len() {
        assert(s.subrange(k, k + sep.len()) == r.subrange(i, i + sep.len()));
        if r.subrange(i, i + sep.len()) != sep {
            lemma_first_match_shift(p, r, sep, i + 1);
        }
    }
}

proof fn lemma_split_from_shift(p: Seq<char>, r: Seq<char>, sep: Seq<char>, i: int)
    requires
        0 <= i <= r.len(),
        sep.len() > 0,
    ensures
        split_from(p + r, sep, p.len() + i) == split_from(r, sep, i),
    decreases r.len() - i,
{
    let s = p + r;
    lemma_first_match_shift(p, r, sep, i);
    lemma_first_match(r, sep, i);
    let m = first_match(r, sep, i);
    if m < 0 {
        assert(s.subrange(p.len() + i, s.len() as int) == r.subrange(i, r.len() as int));
    } else {
        assert(s.subrange(p.len() + i, p.len() + m) == r.subrange(i, m));
        lemma_split_from_shift(p, r, sep, m + sep.len());
        assert(p.len() + m + sep.len() == p.len() + (m + sep.len()));
    }
}

/// Splitting pieces joined by a one-character separator that none of them
/// holds gives the pieces back.
pub proof fn lemma_split_join(parts: Seq<Seq<char>>, c: char)
    requires
        parts.len() > 0,
        forall|i: int| 0 <= i < parts.len() ==> !(#[trigger] parts[i]).contains(c),
    ensures
        split(join(parts, seq![c]), seq![c]) == parts,
    decreases parts.len(),
{
    let sep = seq![c];
    if parts.len() == 1 {
        let a = parts[0];
        assert(join(parts, sep) == a);
        assert forall|j: int| 0 <= j < a.len() implies a[j] != c by {
            if a[j] == c {
                assert(a.contains(c));
            }
        }
        lemma_first_match_absent_char(a, c, 0);
        assert(a.subrange(0, a.len() as int) == a);
        assert(split(a, sep) == seq![a]);
        assert(parts == seq![a]);
    } else {
        let a = parts[0];
        let rest = parts.skip(1);
        assert(parts == seq![a] + rest);
        lemma_join_prepend(a, rest, sep);
        let r = join(rest, sep);
        assert forall|i: int| 0 <= i < rest.len() implies !(#[trigger] rest[i]).contains(c) by {
            assert(rest[i] == parts[i + 1]);
        }
        lemma_split_join(rest, c);
        let s = a + sep + r;
        assert forall|j: int| 0 <= j < a.len() implies s[j] != c by {
            assert(s[j] == a[j]);
            if a[j] == c {
                assert(a.contains(c));
            }
        }
        lemma_first_match_char_at(s, c, 0, a.len() as int);
        assert(s.subrange(0, a.len() as int) == a);
        lemma_split_from_shift(a + sep, r, sep, 0);
        assert((a + sep) + r == s);
        assert(split_from(s, sep, a.len() as int + 1) == split(r, sep));
    }
}

pub proof fn lemma_first_match_absent_char(s: Seq<char>, c: char, i: int)
    requires
        0 <= i,
        forall|j: int| i <= j < s.len() ==> s[j] != c,
    ensures
        first_match(s, seq![c], i) == -1,
    decreases s.len() - i,
{
    if i < s.len() {
        assert(s.subrange(i, i + 1)[0] == s[i]);
        lemma_first_match_absent_char(s, c, i + 1);
    }
}

pub proof fn lemma_first_match_char_at(s: Seq<char>, c: char, i: int, k: int)
    requires
        0 <= i <= k < s.len(),
        s[k] == c,
        forall|j: int| i <= j < k ==> s[j] != c,
    ensures
        first_match(s, seq![c], i) == k,
    decreases k - i,
{
    if i < k {
        assert(s.subrange(i, i + 1)[0] == s[i]);
        lemma_first_match_char_at(s, c, i + 1, k);
    } else {
        assert(s.subrange(i, i + 1) == seq![c]);
    }
}

} // verus!

verus! {

pub proof fn lemma_split_from_avoids(s: Seq<char>, sep: Seq<char>, start: int, c: char)
    requires
        !s.contains(c),
        0 <= start <= s.len(),
    ensures
        forall|i: int|
            0 <= i < split_from(s, sep, start).len() ==> !(#[trigger] split_from(s, sep, start)[i]).contains(c),
    decreases s.len() - start,
{
    let m = first_match(s, sep, start);
    let ps = split_from(s, sep, start);
    if sep.len() == 0 || start < 0 || start > s.len() || m < start || m + sep.len() > s.len() {
        let piece = s.subrange(start, s.len() as int);
        assert(ps == seq![piece]);
        assert(!piece.contains(c)) by {
            if piece.contains(c) {
                let j = choose|j: int| 0 <= j < piece.len() && piece[j] == c;
                assert(s[start + j] == c);
            }
        }
    } else {
        lemma_first_match(s, sep, start);
        lemma_split_from_avoids(s, sep, m + sep.len(), c);
        let piece = s.subrange(start, m);
        let rest = split_from(s, sep, m + sep.len());
        assert(ps == seq![piece] + rest);
        assert(!piece.contains(c)) by {
            if piece.contains(c) {
                let j = choose|j: int| 0 <= j < piece.len() && piece[j] == c;
                assert(s[start + j] == c);
            }
        }
        assert forall|i: int| 0 <= i < ps.len() implies !(#[trigger] ps[i]).contains(c) by {
            if i > 0 {
                assert(ps[i] == rest[i - 1]);
            }
        }
    }
}

/// Writing each newline as `\n` undoes reading each `\n` as a newline, on a
/// text without newlines.
pub proof fn lemma_escape_unescape(raw: Seq<char>)
    requires
        !raw.contains('\n'),
    ensures
        replace(replace(raw, seq!['\\', 'n'], seq!['\n']), seq!['\n'], seq!['\\', 'n']) == raw,
{
    let p = seq!['\\', 'n'];
    let parts = split(raw, p);
    lemma_split_from_avoids(raw, p, 0, '\n');
    lemma_split_from_nonempty(raw, p, 0);
    lemma_split_join(parts, '\n');
    lemma_join_split(raw, p);
}

} // verus!

verus! {

/// Whether `sep` occurs in `s`.
pub open spec fn occurs(s: Seq<char>, sep: Seq<char>) -> bool {
    first_match(s, sep, 0) >= 0
}

/// A separator that cannot overlap itself across a cut: one character, or
/// two different ones.
pub open spec fn simple_sep(sep: Seq<char>) -> bool {
    sep.len() == 1 || (sep.len() == 2 && sep[0] != sep[1])
}

pub proof fn lemma_first_match_min(s: Seq<char>, sep: Seq<char>, i: int, j: int)
    requires
        0 <= i <= j,
        j + sep.len() <= s.len(),
        first_match(s, sep, i) == -1 || j < first_match(s, sep, i),
    ensures
        s.subrange(j, j + sep.len()) != sep,
    decreases j - i,
{
    if i < j {
        if !(i + sep.len() > s.len()) && s.subrange(i, i + sep.len()) != sep && i < s.len() {
            lemma_first_match_min(s, sep, i + 1, j);
        }
    }
}

pub proof fn lemma_first_match_from_none(s: Seq<char>, sep: Seq<char>, i: int)
    requires
        0 <= i,
        forall|j: int| i <= j && j + sep.len() <= s.len() ==> #[trigger] s.subrange(j, j + sep.len()) != sep,
        sep.len() > 0,
    ensures
        first_match(s, sep, i) == -1,
    decreases s.len() - i,
{
    if i + sep.len() <= s.len() && i < s.len() {
        lemma_first_match_from_none(s, sep, i + 1);
    }
}

pub proof fn lemma_first_match_from_at(s: Seq<char>, sep: Seq<char>, i: int, k: int)
    requires
        0 <= i <= k,
        k + sep.len() <= s.len(),
        s.subrange(k, k + sep.len()) == sep,
        forall|j: int| i <= j < k ==> #[trigger] s.subrange(j, j + sep.len()) != sep,
        sep.len() > 0,
    ensures
        first_match(s, sep, i) == k,
    decreases k - i,
{
    if i < k {
        lemma_first_match_from_at(s, sep, i + 1, k);
    }
}

/// In `a + sep + r`, where `a` holds no `sep`, the first `sep` is the one after `a`.
pub proof fn lemma_first_match_after(a: Seq<char>, sep: Seq<char>, r: Seq<char>)
    requires
        simple_sep(sep),
        !occurs(a, sep),
    ensures
        first_match(a + sep + r, sep, 0) == a.len(),
{
    let s = a + sep + r;
    lemma_first_match(a, sep, 0);
    assert forall|j: int| 0 <= j < a.len() implies #[trigger] s.subrange(j, j + sep.len()) != sep by {
        if j + sep.len() <= a.len() {
            lemma_first_match_min(a, sep, 0, j);
            assert(s.subrange(j, j + sep.len()) == a.subrange(j, j + sep.len()));
        } else {
            assert(s.subrange(j, j + sep.len())[1] == sep[0]);
        }
    }
    assert(s.subrange(a.len() as int, a.len() + sep.len() as int) == sep);
    lemma_first_match_from_at(s, sep, 0, a.len() as int);
}

/// Splitting pieces joined by a simple separator that none of them holds
/// gives the pieces back.
pub proof fn lemma_split_join_sep(parts: Seq<Seq<char>>, sep: Seq<char>)
    requires
        parts.len() > 0,
        simple_sep(sep),
        forall|i: int| 0 <= i < parts.len() ==> !occurs(#[trigger] parts[i], sep),
    ensures
        split(join(parts, sep), sep) == parts,
    decreases parts.len(),
{
    if parts.len() == 1 {
        let a = parts[0];
        assert(join(parts, sep) == a);
        assert(a.subrange(0, a.len() as int) == a);
        assert(split(a, sep) == seq![a]);
        assert(parts == seq![a]);
    } else {
        let a = parts[0];
        let rest = parts.skip(1);
        assert(parts == seq![a] + rest);
        lemma_join_prepend(a, rest, sep);
        let r = join(rest, sep);
        assert forall|i: int| 0 <= i < rest.len() implies !occurs(#[trigger] rest[i], sep) by {
            assert(rest[i] == parts[i + 1]);
        }
        lemma_split_join_sep(rest, sep);
        let s = a + sep + r;
        assert(!occurs(a, sep));
        lemma_first_match_after(a, sep, r);
        lemma_first_match(s, sep, 0);
        assert(s.subrange(0, a.len() as int) == a);
        lemma_split_from_shift(a + sep, r, sep, 0);
        assert((a + sep) + r == s);
        assert(split_from(s, sep, (a.len() + sep.len()) as int) == split(r, sep));
    }
}

/// No piece of a split holds the separator.
pub proof fn lemma_split_pieces(s: Seq<char>, sep: Seq<char>, start: int)
    requires
        sep.len() > 0,
        0 <= start <= s.len(),
    ensures
        forall|i: int|
            0 <= i < split_from(s, sep, start).len() ==> !occurs(#[trigger] split_from(s, sep, start)[i], sep),
    decreases s.len() - start,
{
    let m = first_match(s, sep, start);
    lemma_first_match(s, sep, start);
    let ps = split_from(s, sep, start);
    let end = if m < 0 {
        s.len() as int
    } else {
        m
    };
    let piece = s.subrange(start, end);
    assert(!occurs(piece, sep)) by {
        assert forall|j: int| 0 <= j && j + sep.len() <= piece.len() implies #[trigger] piece.subrange(
            j,
            j + sep.len(),
        ) != sep by {
            lemma_first_match_min(s, sep, start, start + j);
            assert(piece.subrange(j, j + sep.len()) == s.subrange(start + j, start + j + sep.len()));
        }
        lemma_first_match_from_none(piece, sep, 0);
    }
    if m < 0 {
        assert(ps == seq![piece]);
    } else {
        lemma_split_pieces(s, sep, m + sep.len());
        let rest = split_from(s, sep, m + sep.len());
        assert(ps == seq![piece] + rest);
        assert forall|i: int| 0 <= i < ps.len() implies !occurs(#[trigger] ps[i], sep) by {
            if i > 0 {
                assert(ps[i] == rest[i - 1]);
            }
        }
    }
}

} // verus!
