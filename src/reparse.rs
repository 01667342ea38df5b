use vstd::prelude::*;
use crate::bepinex_cfg::{EntryV, FileV, MetadataV, SectionV, ValueV, picked, render, value_options_of, value_text};
use crate::cfg_parse::{BuilderV, PState, apply_meta, build_entry, entry_parts, flag_positions, parse_text, position, run, step, strip_eol, read_metadata_text, finish, parse_value_text, parse_simple_text};
use crate::round_trip::{line_end_ok, lines_plain, reads_back, str_reads_back, flags_read_back, options_read_back, entry_ok, entry_plain, entry_writable, section_writable, writable, desc_text_ok, desc_line_ok, default_ok, same_kind, lemma_occurs_char, lemma_write_then_parse};
use crate::text::{first_match, join, occurs, replace, split, split_from, starts_with, trim, trim_end, trim_start, is_white};

verus! {

/// A line as the reader holds it: no newline, no trailing carriage return.
pub open spec fn clean(l: Seq<char>) -> bool {
    !l.contains('\n') && line_end_ok(l)
}

proof fn lemma_trim_start_skip(s: Seq<char>)
    ensures
        exists|a: int| 0 <= a <= s.len() && trim_start(s) == s.skip(a),
        trim_start(s).len() == 0 || !is_white(trim_start(s)[0]),
    decreases s.len(),
{
    if s.len() > 0 && is_white(s[0]) {
        lemma_trim_start_skip(s.skip(1));
        let a = choose|a: int| 0 <= a <= s.skip(1).len() && trim_start(s.skip(1)) == s.skip(1).skip(a);
        assert(s.skip(1).skip(a) == s.skip(a + 1));
    } else {
        assert(s.skip(0) == s);
    }
}

proof fn lemma_trim_end_take(s: Seq<char>)
    ensures
        exists|b: int| 0 <= b <= s.len() && trim_end(s) == s.take(b),
        trim_end(s).len() == 0 || !is_white(trim_end(s).last()),
    decreases s.len(),
{
    if s.len() > 0 && is_white(s.last()) {
        lemma_trim_end_take(s.drop_last());
        let b = choose|b: int| 0 <= b <= s.drop_last().len() && trim_end(s.drop_last()) == s.drop_last().take(b);
        assert(s.drop_last().take(b) == s.take(b));
    } else {
        assert(s.take(s.len() as int) == s);
    }
}

/// Trimming keeps a middle part of the text.
proof fn lemma_trim_part(s: Seq<char>)
    ensures
        exists|a: int, b: int| 0 <= a <= b <= s.len() && trim(s) == s.subrange(a, b),
{
    lemma_trim_start_skip(s);
    let a = choose|a: int| 0 <= a <= s.len() && trim_start(s) == s.skip(a);
    let t = s.skip(a);
    lemma_trim_end_take(t);
    let b = choose|b: int| 0 <= b <= t.len() && trim_end(t) == t.take(b);
    assert(t.take(b) == s.subrange(a, a + b));
}

proof fn lemma_trim_avoids(s: Seq<char>, c: char)
    requires
        !s.contains(c),
    ensures
        !trim(s).contains(c),
{
    lemma_trim_part(s);
    let (a, b) = choose|a: int, b: int| 0 <= a <= b <= s.len() && trim(s) == s.subrange(a, b);
    if trim(s).contains(c) {
        let i = choose|i: int| 0 <= i < trim(s).len() && trim(s)[i] == c;
        assert(s[a + i] == c);
    }
}

/// Trimming twice trims no more.
proof fn lemma_trim_idem(s: Seq<char>)
    ensures
        trim(trim(s)) == trim(s),
{
    lemma_trim_start_skip(s);
    let t = trim_start(s);
    lemma_trim_end_take(t);
    let u = trim_end(t);
    if u.len() > 0 {
        lemma_trim_end_take(t);
        let b = choose|b: int| 0 <= b <= t.len() && trim_end(t) == t.take(b);
        assert(u[0] == t[0]);
        assert(trim_start(u) == u);
        assert(trim_end(u) == u);
    } else {
        assert(trim_start(u) == u);
    }
}

proof fn lemma_clean_skip(l: Seq<char>, k: int)
    requires
        clean(l),
        0 <= k <= l.len(),
    ensures
        clean(l.skip(k)),
{
    if l.skip(k).contains('\n') {
        let i = choose|i: int| 0 <= i < l.skip(k).len() && l.skip(k)[i] == '\n';
        assert(l[k + i] == '\n');
    }
    if l.skip(k).len() > 0 {
        assert(l.skip(k).last() == l.last());
    }
}

proof fn lemma_part_avoids(l: Seq<char>, a: int, b: int, c: char)
    requires
        !l.contains(c),
        0 <= a <= b <= l.len(),
    ensures
        !l.subrange(a, b).contains(c),
{
    if l.subrange(a, b).contains(c) {
        let i = choose|i: int| 0 <= i < l.subrange(a, b).len() && l.subrange(a, b)[i] == c;
        assert(l[a + i] == c);
    }
}

proof fn lemma_strip_eol_clean(l: Seq<char>)
    requires
        !l.contains('\n'),
    ensures
        clean(strip_eol(l)),
        strip_eol(l).len() <= l.len(),
        exists|k: int| 0 <= k <= l.len() && strip_eol(l) == l.take(k),
    decreases l.len(),
{
    if l.len() > 0 && (l.last() == '\n' || l.last() == '\r') {
        lemma_part_avoids(l, 0, l.len() - 1, '\n');
        assert(l.drop_last() == l.subrange(0, l.len() - 1));
        lemma_strip_eol_clean(l.drop_last());
        let k = choose|k: int| 0 <= k <= l.drop_last().len() && strip_eol(l.drop_last()) == l.drop_last().take(k);
        assert(l.drop_last().take(k) == l.take(k));
    } else {
        assert(l.take(l.len() as int) == l);
    }
}

/// A split has at most one piece more than the text has characters.
proof fn lemma_split_count(s: Seq<char>, sep: Seq<char>, start: int)
    requires
        sep.len() > 0,
        0 <= start <= s.len(),
    ensures
        split_from(s, sep, start).len() <= s.len() - start + 1,
    decreases s.len() - start,
{
    let m = first_match(s, sep, start);
    crate::text::lemma_first_match(s, sep, start);
    if m >= 0 {
        lemma_split_count(s, sep, m + sep.len());
    }
}

/// The last piece of a split ends the text.
proof fn lemma_split_last(s: Seq<char>, sep: Seq<char>, start: int)
    requires
        sep.len() > 0,
        0 <= start <= s.len(),
    ensures
        exists|j: int| start <= j <= s.len() && split_from(s, sep, start).last() == s.subrange(j, s.len() as int),
    decreases s.len() - start,
{
    let m = first_match(s, sep, start);
    crate::text::lemma_first_match(s, sep, start);
    crate::text::lemma_split_from_nonempty(s, sep, start);
    if m >= 0 {
        lemma_split_last(s, sep, m + sep.len());
        crate::text::lemma_split_from_nonempty(s, sep, m + sep.len());
        let rest = split_from(s, sep, m + sep.len());
        assert((seq![s.subrange(start, m)] + rest).last() == rest.last());
    }
}

/// No piece of a split holds a pattern that the whole text lacks.
proof fn lemma_split_pieces_lack(s: Seq<char>, sep: Seq<char>, pat: Seq<char>, start: int)
    requires
        sep.len() > 0,
        pat.len() > 0,
        0 <= start <= s.len(),
        !occurs(s, pat),
    ensures
        forall|i: int|
            0 <= i < split_from(s, sep, start).len() ==> !occurs(#[trigger] split_from(s, sep, start)[i], pat),
    decreases s.len() - start,
{
    let m = first_match(s, sep, start);
    crate::text::lemma_first_match(s, sep, start);
    crate::text::lemma_first_match(s, pat, 0);
    let ps = split_from(s, sep, start);
    let end = if m < 0 {
        s.len() as int
    } else {
        m
    };
    let piece = s.subrange(start, end);
    assert(!occurs(piece, pat)) by {
        assert forall|j: int| 0 <= j && j + pat.len() <= piece.len() implies #[trigger] piece.subrange(
            j,
            j + pat.len(),
        ) != pat by {
            crate::text::lemma_first_match_min(s, pat, 0, start + j);
            assert(piece.subrange(j, j + pat.len()) == s.subrange(start + j, start + j + pat.len()));
        }
        crate::text::lemma_first_match_from_none(piece, pat, 0);
    }
    if m < 0 {
        assert(ps == seq![piece]);
    } else {
        lemma_split_pieces_lack(s, sep, pat, m + sep.len());
        let rest = split_from(s, sep, m + sep.len());
        assert(ps == seq![piece] + rest);
        assert forall|i: int| 0 <= i < ps.len() implies !occurs(#[trigger] ps[i], pat) by {
            if i > 0 {
                assert(ps[i] == rest[i - 1]);
            }
        }
    }
}

} // verus!

verus! {

/// The option lists that the reader gathers: from a `, `-separated line.
pub open spec fn options_good(o: Seq<Seq<char>>) -> bool {
    &&& options_read_back(o)
    &&& lines_plain(o)
    &&& forall|i: int| 0 <= i < o.len() ==> !occurs(#[trigger] o[i], seq![',', ' '])
}

pub open spec fn builder_good(b: BuilderV) -> bool {
    &&& (b.default_value matches Some(d) ==> clean(d))
    &&& (b.acceptable_values matches Some(o) ==> options_good(o))
}

/// Values excluded from the round trip of parsed documents: a string that
/// holds a backslash before an `n` (possible only under an unknown setting
/// type), and an empty flag set among options one of which is named `0`.
pub open spec fn kept_value(v: ValueV) -> bool {
    match v {
        ValueV::Str(s) => !occurs(s, seq!['\\', 'n']),
        ValueV::Flags(ix, o) => ix.len() == 0 ==> !o.contains(seq!['0']),
        _ => true,
    }
}

proof fn lemma_flag_positions_back(t: Seq<Seq<char>>, o: Seq<Seq<char>>)
    requires
        o.len() <= usize::MAX,
    ensures
        forall|k: int|
            0 <= k < flag_positions(t, o).len() ==> #[trigger] flag_positions(t, o)[k] < o.len(),
        picked(flag_positions(t, o), o).len() == flag_positions(t, o).len(),
        flag_positions(picked(flag_positions(t, o), o), o) == flag_positions(t, o),
        forall|k: int|
            0 <= k < picked(flag_positions(t, o), o).len() ==> exists|j: int|
                0 <= j < o.len() && #[trigger] picked(flag_positions(t, o), o)[k] == o[j],
    decreases t.len(),
{
    if t.len() > 0 {
        let t0 = t.drop_last();
        lemma_flag_positions_back(t0, o);
        let ix0 = flag_positions(t0, o);
        let p = position(o, t.last(), 0);
        crate::laws::lemma_position_found(o, t.last(), 0);
        if p >= 0 {
            let ix = ix0.push(p as usize);
            assert(flag_positions(t, o) == ix);
            assert(ix.drop_last() == ix0);
            let pk0 = picked(ix0, o);
            assert(picked(ix, o) == pk0.push(o[p]));
            crate::laws::lemma_position_first(o, p, 0);
            assert(position(o, o[p], 0) == p);
            let pk = pk0.push(o[p]);
            assert(pk.drop_last() == pk0);
            assert(flag_positions(pk, o) == flag_positions(pk0, o).push(p as usize));
            assert forall|k: int| 0 <= k < ix.len() implies #[trigger] ix[k] < o.len() by {
                if k < ix0.len() {
                    assert(ix[k] == ix0[k]);
                }
            }
            assert forall|k: int| 0 <= k < pk.len() implies exists|j: int|
                0 <= j < o.len() && #[trigger] pk[k] == o[j] by {
                if k < pk0.len() {
                    assert(pk[k] == pk0[k]);
                } else {
                    assert(pk[k] == o[p]);
                }
            }
        } else {
            assert(flag_positions(t, o) == ix0);
        }
    }
}

proof fn lemma_escape_plain(s: Seq<char>)
    requires
        !s.contains('\n'),
    ensures
        replace(s, seq!['\n'], seq!['\\', 'n']) == s,
{
    crate::text::lemma_first_match_absent_char(s, '\n', 0);
    assert(s.subrange(0, s.len() as int) == s);
    assert(split(s, seq!['\n']) == seq![s]);
}

/// A value that the reader builds reads back from its written text.
proof fn lemma_parsed_value_reads_back(raw: Seq<char>, b: BuilderV, tn: Seq<char>)
    requires
        builder_good(b),
        parse_value_text(raw, b, tn) is Some,
        kept_value(parse_value_text(raw, b, tn)->0),
    ensures
        reads_back(parse_value_text(raw, b, tn)->0),
{
    let v = parse_value_text(raw, b, tn)->0;
    match b.acceptable_values {
        Some(o) => {
            assert(options_good(o));
            if b.is_flags {
                let toks = split(raw, seq![',', ' ']);
                lemma_flag_positions_back(toks, o);
                let ix = flag_positions(toks, o);
                if ix.len() > 0 {
                    let pk = picked(ix, o);
                    assert forall|k: int| 0 <= k < pk.len() implies !occurs(#[trigger] pk[k], seq![',', ' ']) by {
                        let j = choose|j: int| 0 <= j < o.len() && pk[k] == o[j];
                    }
                    crate::text::lemma_split_join_sep(pk, seq![',', ' ']);
                    assert(flags_read_back(ix, o));
                }
            } else {
                crate::laws::lemma_position_found(o, raw, 0);
                let p = position(o, raw, 0);
                if p >= 0 {
                    crate::laws::lemma_position_first(o, p, 0);
                } else {
                    crate::laws::lemma_position_first(o, 0, 0);
                }
            }
        },
        None => {
            match v {
                ValueV::Str(s) => {
                    lemma_split_pieces_lack(s, seq!['\n'], seq!['\\', 'n'], 0);
                    assert(str_reads_back(s));
                },
                ValueV::Float(d, r) => {
                    crate::number::lemma_parsed_decimal_normalized(raw);
                    if let Some((x, y)) = b.range {
                        crate::number::lemma_parsed_decimal_normalized(x);
                        crate::number::lemma_parsed_decimal_normalized(y);
                    }
                },
                _ => {},
            }
        },
    }
}

/// The written text of a simple value that the reader builds from a
/// trimmed, clean text is trimmed and clean too.
proof fn lemma_parsed_simple_text(raw: Seq<char>, tn: Seq<char>, range: Option<(Seq<char>, Seq<char>)>)
    requires
        parse_simple_text(raw, tn, range) is Some,
        !raw.contains('\n'),
    ensures
        ({
            let t = value_text(parse_simple_text(raw, tn, range)->0);
            &&& (trim(raw) == raw ==> trim(t) == t)
            &&& (line_end_ok(raw) ==> line_end_ok(t))
            &&& !t.contains('\n')
        }),
{
    reveal_strlit("true");
    reveal_strlit("false");
    reveal_strlit("String");
    let v = parse_simple_text(raw, tn, range)->0;
    let t = value_text(v);
    match v {
        ValueV::Bool(x) => {
            crate::laws::lemma_trim_plain("true"@);
            crate::laws::lemma_trim_plain("false"@);
            assert(!"true"@.contains('\n'));
            assert(!"false"@.contains('\n'));
        },
        ValueV::Int(n, _) => {
            crate::round_trip::lemma_int_text_plain(n as int);
        },
        ValueV::Float(d, _) => {
            crate::round_trip::lemma_decimal_text_plain(d);
        },
        ValueV::Str(s) => {
            if tn == "String"@ {
                crate::text::lemma_escape_unescape(raw);
            } else {
                lemma_escape_plain(raw);
            }
            assert(t == raw);
        },
        _ => {},
    }
}

} // verus!

verus! {

pub open spec fn desc_kept(d: Seq<char>) -> bool {
    forall|i: int|
        0 <= i < split(d, seq!['\n']).len() ==> !starts_with(
            #[trigger] split(d, seq!['\n'])[i],
            "Settings file was created by plugin "@,
        )
}

pub open spec fn default_kept(d: ValueV) -> bool {
    kept_value(d) && (value_options_of(d) is Some ==> line_end_ok(value_text(d)))
}

/// Entries excluded from the round trip of parsed documents: a key that
/// begins with `#` or `[` (its line would read as a comment or a section),
/// a description line that reads as a metadata header, an excluded value
/// or default, a choice or flag text with white space at either end, and a
/// choice or flag default whose text ends in a carriage return.
pub open spec fn kept_entry(e: EntryV) -> bool {
    &&& (e.name.len() == 0 || (e.name[0] != '#' && e.name[0] != '['))
    &&& (match e.description {
        Some(d) => desc_kept(d),
        None => true,
    })
    &&& kept_value(e.value)
    &&& (value_options_of(e.value) is Some ==> trim(value_text(e.value)) == value_text(e.value))
    &&& (match e.default {
        Some(d) => default_kept(d),
        None => true,
    })
}

proof fn lemma_same_kind(x1: Seq<char>, x2: Seq<char>, b: BuilderV, tn: Seq<char>)
    requires
        parse_value_text(x1, b, tn) is Some,
        parse_value_text(x2, b, tn) is Some,
    ensures
        same_kind(parse_value_text(x1, b, tn)->0, parse_value_text(x2, b, tn)->0),
{
}

proof fn lemma_built_entry(b: BuilderV, d: Seq<Seq<char>>, name: Seq<char>, raw: Seq<char>)
    requires
        builder_good(b),
        forall|i: int| 0 <= i < d.len() ==> clean(#[trigger] d[i]),
        !name.contains('='),
        !name.contains('\n'),
        trim(name) == name,
        !raw.contains('\n'),
        trim(raw) == raw,
        build_entry(b, d, name, raw) is Some,
        kept_entry(build_entry(b, d, name, raw)->0),
    ensures
        entry_writable(build_entry(b, d, name, raw)->0),
{
    let e = build_entry(b, d, name, raw)->0;
    let tn = match b.setting_type {
        Some(t) => t,
        None => crate::cfg_parse::value_type_of(raw),
    };
    let v = e.value;
    assert(v == parse_value_text(raw, b, tn)->0);
    lemma_parsed_value_reads_back(raw, b, tn);
    if b.acceptable_values is None {
        lemma_parsed_simple_text(raw, tn, b.range);
    }
    if let Some(o) = b.acceptable_values {
        assert(options_good(o));
    }
    if d.len() > 0 {
        let t = join(d, seq!['\n']);
        assert forall|i: int| 0 <= i < d.len() implies !occurs(#[trigger] d[i], seq!['\n']) by {
            assert(clean(d[i]));
            lemma_occurs_char(d[i], '\n');
        }
        crate::text::lemma_split_join_sep(d, seq!['\n']);
        assert(e.description == Some(t));
        assert(desc_kept(t));
        assert forall|i: int| 0 <= i < split(t, seq!['\n']).len() implies desc_line_ok(
            #[trigger] split(t, seq!['\n'])[i],
        ) by {
            assert(clean(d[i]));
        }
        assert(desc_text_ok(t));
    }
    if let Some(dt) = b.default_value {
        assert(clean(dt));
        let dv = parse_value_text(dt, b, tn)->0;
        assert(e.default == Some(dv));
        assert(default_kept(dv));
        lemma_parsed_value_reads_back(dt, b, tn);
        lemma_same_kind(dt, raw, b, tn);
        if b.acceptable_values is None {
            lemma_parsed_simple_text(dt, tn, b.range);
        }
        assert(default_ok(e.default, v));
    }
    assert(entry_ok(e));
    assert(entry_plain(e));
}

} // verus!

verus! {

pub open spec fn section_good(s: SectionV) -> bool {
    &&& !s.name.contains('\n')
    &&& forall|i: int|
        0 <= i < s.entries.len() ==> (kept_entry(#[trigger] s.entries[i]) ==> entry_writable(
            s.entries[i],
        ))
}

pub open spec fn header_good(n: Seq<char>, v: Seq<char>) -> bool {
    !n.contains('\n') && !v.contains('\n') && !v.contains(' ') && line_end_ok(v)
}

pub open spec fn meta_good(m: MetadataV) -> bool {
    header_good(m.mod_name, m.mod_version) && clean(m.mod_guid)
}

/// What holds of the reader's state between two lines.
pub open spec fn state_good(st: PState) -> bool {
    &&& builder_good(st.builder)
    &&& forall|i: int| 0 <= i < st.desc.len() ==> clean(#[trigger] st.desc[i])
    &&& (match st.header {
        Some((n, v)) => header_good(n, v),
        None => true,
    })
    &&& (match st.metadata {
        Some(m) => meta_good(m),
        None => true,
    })
    &&& forall|i: int| 0 <= i < st.sections.len() ==> section_good(#[trigger] st.sections[i])
    &&& (match st.current {
        Some(c) => section_good(c),
        None => true,
    })
}

proof fn lemma_meta_good(line: Seq<char>)
    requires
        clean(line),
        read_metadata_text(line) is Some,
    ensures
        ({
            let p = read_metadata_text(line)->0;
            header_good(p.0, p.1)
        }),
{
    let rest = line.skip("## Settings file was created by plugin "@.len() as int);
    let sp = seq![' '];
    lemma_clean_skip(line, "## Settings file was created by plugin "@.len() as int);
    let parts = split(rest, sp);
    crate::text::lemma_split_from_nonempty(rest, sp, 0);
    crate::text::lemma_split_pieces(rest, sp, 0);
    crate::round_trip::lemma_split_plain(rest);
    crate::text::lemma_split_from_avoids(rest, sp, 0, '\n');
    lemma_split_last(rest, sp, 0);
    let v = parts.last();
    let init = parts.drop_last();
    assert(!occurs(parts[parts.len() - 1], sp));
    lemma_occurs_char(v, ' ');
    assert(!v.contains('\n')) by {
        assert(!parts[parts.len() - 1].contains('\n'));
    }
    let j = choose|j: int| 0 <= j <= rest.len() && parts.last() == rest.subrange(j, rest.len() as int);
    if v.len() > 0 {
        assert(v.last() == rest.last());
    }
    assert(lines_plain(init)) by {
        assert forall|i: int| 0 <= i < init.len() implies !(#[trigger] init[i]).contains('\n') by {
            assert(init[i] == parts[i]);
        }
    }
    crate::round_trip::lemma_join_plain(init, sp);
}

proof fn lemma_options_good(ot: Seq<char>, bound: int)
    requires
        clean(ot),
        ot.len() < bound <= usize::MAX,
    ensures
        options_good(split(ot, seq![',', ' '])),
{
    let sep = seq![',', ' '];
    let o = split(ot, sep);
    crate::text::lemma_split_from_nonempty(ot, sep, 0);
    lemma_split_count(ot, sep, 0);
    crate::text::lemma_join_split(ot, sep);
    crate::text::lemma_split_pieces(ot, sep, 0);
    crate::text::lemma_split_from_avoids(ot, sep, 0, '\n');
    assert(lines_plain(o));
}

proof fn lemma_entry_parts_good(line: Seq<char>)
    requires
        clean(line),
        entry_parts(line) is Some,
    ensures
        ({
            let (name, raw) = entry_parts(line)->0;
            &&& !name.contains('=')
            &&& !name.contains('\n')
            &&& trim(name) == name
            &&& !raw.contains('\n')
            &&& trim(raw) == raw
        }),
{
    let k = first_match(line, seq!['='], 0);
    crate::text::lemma_first_match(line, seq!['='], 0);
    let head = line.take(k);
    assert(!head.contains('=')) by {
        if head.contains('=') {
            let j = choose|j: int| 0 <= j < head.len() && head[j] == '=';
            crate::text::lemma_first_match_min(line, seq!['='], 0, j);
            assert(line.subrange(j, j + 1) == seq!['=']);
        }
    }
    assert(head == line.subrange(0, k));
    lemma_part_avoids(line, 0, k, '\n');
    lemma_trim_avoids(head, '=');
    lemma_trim_avoids(head, '\n');
    lemma_trim_idem(head);
    let tail = line.skip(k + 1);
    assert(tail == line.subrange(k + 1, line.len() as int));
    lemma_part_avoids(line, k + 1, line.len() as int, '\n');
    lemma_trim_avoids(tail, '\n');
    lemma_trim_idem(tail);
}

} // verus!

verus! {

proof fn lemma_meta_builder_good(b: BuilderV, m: Seq<char>, bound: int)
    requires
        builder_good(b),
        clean(m),
        m.len() < bound <= usize::MAX,
    ensures
        builder_good(apply_meta(b, m)),
{
    if starts_with(m, "Setting type: "@) {
    } else if starts_with(m, "Default value: "@) {
        lemma_clean_skip(m, "Default value: "@.len() as int);
    } else if m == "Default value:"@ {
    } else if starts_with(m, "Acceptable values: "@) {
        let ot = m.skip("Acceptable values: "@.len() as int);
        lemma_clean_skip(m, "Acceptable values: "@.len() as int);
        lemma_options_good(ot, bound);
    }
}

/// One line keeps the reader's state as `state_good` says.
proof fn lemma_step_good(st: PState, line0: Seq<char>)
    requires
        state_good(st),
        !line0.contains('\n'),
        line0.len() < usize::MAX,
        step(st, line0) is Some,
    ensures
        state_good(step(st, line0)->0),
{
    let line = strip_eol(line0);
    lemma_strip_eol_clean(line0);
    let st2 = step(st, line0)->0;
    match st.header {
        Some((n, v)) => {
            if starts_with(line, "## Plugin GUID: "@) {
                lemma_clean_skip(line, "## Plugin GUID: "@.len() as int);
            }
            assert(clean(Seq::<char>::empty()));
        },
        None => {
            if line.len() == 0 {
            } else if starts_with(line, "## Settings file was created by plugin "@) {
                if read_metadata_text(line) is Some {
                    lemma_meta_good(line);
                }
            } else if crate::cfg_parse::is_section_line(line) {
                lemma_part_avoids(line, 1, line.len() - 1, '\n');
                let c = SectionV { name: line.subrange(1, line.len() - 1), entries: Seq::empty() };
                assert(section_good(c));
                if let Some(cur) = st.current {
                    assert forall|i: int| 0 <= i < st.sections.push(cur).len() implies section_good(
                        #[trigger] st.sections.push(cur)[i],
                    ) by {
                        if i < st.sections.len() {
                            assert(st.sections.push(cur)[i] == st.sections[i]);
                        }
                    }
                }
            } else if starts_with(line, "##"@) {
                reveal_strlit("##");
                lemma_clean_skip(line, 2);
                let r = line.skip(2);
                if r.len() > 0 && r[0] == ' ' {
                    lemma_clean_skip(r, 1);
                }
                let t = crate::cfg_parse::desc_text(line);
                assert(clean(t));
                assert forall|i: int| 0 <= i < st.desc.push(t).len() implies clean(
                    #[trigger] st.desc.push(t)[i],
                ) by {
                    if i < st.desc.len() {
                        assert(st.desc.push(t)[i] == st.desc[i]);
                    }
                }
            } else if line == crate::bepinex_cfg::FLAGS_MESSAGE@ {
            } else if starts_with(line, "# "@) {
                reveal_strlit("# ");
                lemma_clean_skip(line, 2);
                lemma_meta_builder_good(st.builder, line.skip(2), usize::MAX as int);
            } else {
                if let Some((name, raw)) = entry_parts(line) {
                    lemma_entry_parts_good(line);
                    if let Some(e) = build_entry(st.builder, st.desc, name, raw) {
                        if let Some(c) = st.current {
                            assert(section_good(c));
                            assert forall|i: int| 0 <= i < st.desc.len() implies clean(
                                #[trigger] st.desc[i],
                            ) by {}
                            if kept_entry(e) {
                                lemma_built_entry(st.builder, st.desc, name, raw);
                            }
                            let es = c.entries.push(e);
                            assert forall|i: int| 0 <= i < es.len() implies (kept_entry(
                                #[trigger] es[i],
                            ) ==> entry_writable(es[i])) by {
                                if i < c.entries.len() {
                                    assert(es[i] == c.entries[i]);
                                }
                            }
                            assert(section_good(SectionV { name: c.name, entries: es }));
                        }
                    }
                }
            }
        },
    }
}

} // verus!

verus! {

proof fn lemma_run_good(lines: Seq<Seq<char>>)
    requires
        forall|i: int|
            0 <= i < lines.len() ==> !(#[trigger] lines[i]).contains('\n') && lines[i].len()
                < usize::MAX,
    ensures
        run(lines) matches Some(st) ==> state_good(st),
    decreases lines.len(),
{
    if lines.len() == 0 {
        assert(clean(Seq::<char>::empty()));
    } else {
        let init = lines.drop_last();
        assert forall|i: int| 0 <= i < init.len() implies !(#[trigger] init[i]).contains('\n')
            && init[i].len() < usize::MAX by {
            assert(init[i] == lines[i]);
        }
        lemma_run_good(init);
        if let Some(st) = run(init) {
            assert(!lines[lines.len() - 1].contains('\n'));
            if step(st, lines.last()) is Some {
                lemma_step_good(st, lines.last());
            }
        }
    }
}

proof fn lemma_split_piece_len(s: Seq<char>, sep: Seq<char>, start: int)
    requires
        sep.len() > 0,
        0 <= start <= s.len(),
    ensures
        forall|i: int|
            0 <= i < split_from(s, sep, start).len() ==> (#[trigger] split_from(s, sep, start)[i]).len()
                <= s.len(),
    decreases s.len() - start,
{
    let m = first_match(s, sep, start);
    crate::text::lemma_first_match(s, sep, start);
    let ps = split_from(s, sep, start);
    if m >= 0 {
        lemma_split_piece_len(s, sep, m + sep.len());
        let rest = split_from(s, sep, m + sep.len());
        assert(ps == seq![s.subrange(start, m)] + rest);
        assert forall|i: int| 0 <= i < ps.len() implies (#[trigger] ps[i]).len() <= s.len() by {
            if i > 0 {
                assert(ps[i] == rest[i - 1]);
            }
        }
    }
}

/// Whether no entry of a document is excluded from the round trip (see
/// `kept_entry` and `kept_value`).
pub open spec fn kept_doc(x: FileV) -> bool {
    forall|i: int, j: int|
        0 <= i < x.sections.len() && 0 <= j < x.sections[i].entries.len() ==> kept_entry(
            #[trigger] x.sections[i].entries[j],
        )
}

/// A document that the reader returns for a text, once written, reads back
/// as the same document (its metadata, and its sections and entries with
/// their descriptions, defaults and values, in order), and writing that
/// again gives the same text; the excluded entries of `kept_entry` aside.
pub proof fn lemma_parse_write_parse(t: Seq<char>)
    requires
        t.len() < usize::MAX,
        parse_text(t) is Some,
        kept_doc(parse_text(t)->0),
    ensures
        parse_text(render(parse_text(t)->0)) == parse_text(t),
        render(parse_text(render(parse_text(t)->0))->0) == render(parse_text(t)->0),
{
    let nl = seq!['\n'];
    let lines = split(t, nl);
    crate::text::lemma_split_pieces(t, nl, 0);
    lemma_split_piece_len(t, nl, 0);
    assert forall|i: int| 0 <= i < lines.len() implies !(#[trigger] lines[i]).contains('\n')
        && lines[i].len() < usize::MAX by {
        lemma_occurs_char(lines[i], '\n');
    }
    lemma_run_good(lines);
    let st = run(lines)->0;
    let x = finish(st);
    assert(parse_text(t) == Some(x));
    assert(clean(Seq::<char>::empty()));
    let ss = x.sections;
    assert forall|i: int| 0 <= i < ss.len() implies section_writable(#[trigger] ss[i]) by {
        assert(section_good(ss[i])) by {
            if i < st.sections.len() {
                assert(ss[i] == st.sections[i]);
            }
        }
        assert forall|j: int| 0 <= j < ss[i].entries.len() implies entry_writable(
            #[trigger] ss[i].entries[j],
        ) by {
            assert(kept_entry(x.sections[i].entries[j]));
        }
    }
    assert(writable(x));
    lemma_write_then_parse(x);
}

} // verus!
