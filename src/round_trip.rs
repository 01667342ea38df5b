use vstd::prelude::*;
use crate::bepinex_cfg::{EntryV, FileV, MetadataV, SectionV, ValueV, FLAGS_MESSAGE, comment_lines, entry_lines, entries_lines, metadata_lines, picked, render, section_lines, sections_lines, type_text, value_options_of, value_text, default_line_of, prefixed};
use crate::cfg_parse::{BuilderV, PState, apply_meta, build_entry, empty_builder, entry_parts, flag_positions, initial_state, parse_text, position, run, step, strip_eol, read_metadata_text, finish, parse_value_text, parse_enum_text, is_section_line};
use crate::text::{first_match, join, occurs, replace, split, starts_with, trim, trim_end, trim_start, is_white};

verus! {

/// The state after the given lines, starting from `st`.
pub open spec fn steps(st: Option<PState>, lines: Seq<Seq<char>>) -> Option<PState>
    decreases lines.len(),
{
    if lines.len() == 0 {
        st
    } else {
        match steps(st, lines.drop_last()) {
            Some(s) => step(s, lines.last()),
            None => None,
        }
    }
}

proof fn lemma_run_steps(lines: Seq<Seq<char>>)
    ensures
        run(lines) == steps(Some(initial_state()), lines),
    decreases lines.len(),
{
    if lines.len() > 0 {
        lemma_run_steps(lines.drop_last());
    }
}

proof fn lemma_steps_append(st: Option<PState>, a: Seq<Seq<char>>, b: Seq<Seq<char>>)
    ensures
        steps(st, a + b) == steps(steps(st, a), b),
    decreases b.len(),
{
    if b.len() == 0 {
        assert(a + b == a);
    } else {
        lemma_steps_append(st, a, b.drop_last());
        assert((a + b).drop_last() == a + b.drop_last());
        assert((a + b).last() == b.last());
    }
    if steps(st, a) is None {
        lemma_steps_none(b);
    }
}

proof fn lemma_steps_none(b: Seq<Seq<char>>)
    ensures
        steps(None, b) is None,
    decreases b.len(),
{
    if b.len() > 0 {
        lemma_steps_none(b.drop_last());
    }
}

proof fn lemma_steps_one(st: PState, l: Seq<char>)
    ensures
        steps(Some(st), seq![l]) == step(st, l),
{
    assert(seq![l].drop_last() == Seq::<Seq<char>>::empty());
    assert(seq![l].last() == l);
    assert(steps(Some(st), Seq::<Seq<char>>::empty()) == Some(st));
}

/// A line that the reader takes as it stands: no trailing carriage return.
pub open spec fn line_end_ok(s: Seq<char>) -> bool {
    s.len() == 0 || (s.last() != '\r' && s.last() != '\n')
}

proof fn lemma_strip_eol_id(s: Seq<char>)
    requires
        line_end_ok(s),
    ensures
        strip_eol(s) == s,
{
}

pub open spec fn meta_prefix() -> Seq<char> {
    "## Settings file was created by plugin "@
}

proof fn lemma_literals()
    ensures
        meta_prefix().len() == 39,
        meta_prefix()[0] == '#',
        meta_prefix()[1] == '#',
        meta_prefix().skip(3) == "Settings file was created by plugin "@,
        meta_prefix() == "## "@ + "Settings file was created by plugin "@,
        "##"@ == seq!['#', '#'],
        "# "@ == seq!['#', ' '],
        "## "@ == seq!['#', '#', ' '],
        FLAGS_MESSAGE@.len() > 3,
        FLAGS_MESSAGE@[0] == '#',
        FLAGS_MESSAGE@[1] == ' ',
        FLAGS_MESSAGE@[2] == 'M',
        FLAGS_MESSAGE@.last() == ')',
        !FLAGS_MESSAGE@.contains('\n'),
        "## Plugin GUID: "@.len() == 16,
        "## Plugin GUID: "@[0] == '#',
        "## Plugin GUID: "@[1] == '#',
        "## Plugin GUID: "@[3] == 'P',
        "## Plugin GUID: "@[15] == ' ',
        "Settings file was created by plugin "@[0] == 'S',
        "Setting type: "@.len() == 14,
        "Setting type: "@[0] == 'S',
        "Default value: "@.len() == 15,
        "Default value: "@[0] == 'D',
        "Default value:"@.len() == 14,
        "Default value:"@[0] == 'D',
        "Default value: "@ == "Default value:"@ + seq![' '],
        "Acceptable values: "@.len() == 19,
        "Acceptable values: "@[0] == 'A',
        "Acceptable values: "@[16] == 's',
        "Acceptable value range: From "@.len() == 29,
        "Acceptable value range: From "@[0] == 'A',
        "Acceptable value range: From "@[16] == ' ',
        "Acceptable value range: From "@.take(16) == "Acceptable values: "@.take(16),
        " to "@ == seq![' ', 't', 'o', ' '],
        "# Setting type: "@ == "# "@ + "Setting type: "@,
        "# Default value: "@ == "# "@ + "Default value: "@,
        "# Default value:"@ == "# "@ + "Default value:"@,
        "# Acceptable values: "@ == "# "@ + "Acceptable values: "@,
        "# Acceptable value range: From "@ == "# "@ + "Acceptable value range: From "@,
        "Boolean"@.len() == 7,
        "String"@.len() == 6,
        "Int32"@.len() == 5,
        "Single"@.len() == 6,
        "Acceptable values: "@[18] == ' ',
        "Boolean"@.last() == 'n',
        "String"@.last() == 'g',
        "Int32"@.last() == '2',
        "Single"@.last() == 'e',
        "Default value:"@.last() == ':',
        " = "@ == seq![' ', '=', ' '],
        " "@ == seq![' '],
        "["@ == seq!['['],
        "]"@ == seq![']'],
{
    reveal_strlit("## Settings file was created by plugin ");
    reveal_strlit("Settings file was created by plugin ");
    reveal_strlit("##");
    reveal_strlit("# ");
    reveal_strlit("## ");
    reveal_strlit("# Multiple values can be set at the same time by separating them with , (e.g. Debug, Warning)");
    reveal_strlit("## Plugin GUID: ");
    reveal_strlit("Setting type: ");
    reveal_strlit("Default value: ");
    reveal_strlit("Default value:");
    reveal_strlit("Acceptable values: ");
    reveal_strlit("Acceptable value range: From ");
    reveal_strlit(" to ");
    reveal_strlit("# Setting type: ");
    reveal_strlit("# Default value: ");
    reveal_strlit("# Default value:");
    reveal_strlit("# Acceptable values: ");
    reveal_strlit("# Acceptable value range: From ");
    reveal_strlit("Boolean");
    reveal_strlit("String");
    reveal_strlit("Int32");
    reveal_strlit("Single");
    reveal_strlit(" = ");
    reveal_strlit(" ");
    reveal_strlit("[");
    reveal_strlit("]");
    assert("# Setting type: "@ == "# "@ + "Setting type: "@);
    assert("# Default value: "@ == "# "@ + "Default value: "@);
    assert("# Default value:"@ == "# "@ + "Default value:"@);
    assert("# Acceptable values: "@ == "# "@ + "Acceptable values: "@);
    assert("# Acceptable value range: From "@ == "# "@ + "Acceptable value range: From "@);
    assert(meta_prefix().skip(3) == "Settings file was created by plugin "@);
    assert(meta_prefix() == "## "@ + "Settings file was created by plugin "@);
    assert("Default value: "@ == "Default value:"@ + seq![' ']);
    assert("Acceptable value range: From "@.take(16) == "Acceptable values: "@.take(16));
    assert(!FLAGS_MESSAGE@.contains('\n')) by {
        if FLAGS_MESSAGE@.contains('\n') {
            let i = choose|i: int| 0 <= i < FLAGS_MESSAGE@.len() && FLAGS_MESSAGE@[i] == '\n';
        }
    }
}

} // verus!

verus! {

pub proof fn lemma_occurs_char(s: Seq<char>, c: char)
    ensures
        occurs(s, seq![c]) <==> s.contains(c),
{
    crate::text::lemma_first_match(s, seq![c], 0);
    if occurs(s, seq![c]) {
        let m = first_match(s, seq![c], 0);
        assert(s.subrange(m, m + 1)[0] == s[m]);
    }
    if s.contains(c) {
        let i = choose|i: int| 0 <= i < s.len() && s[i] == c;
        if !occurs(s, seq![c]) {
            crate::text::lemma_first_match_min(s, seq![c], 0, i);
            assert(s.subrange(i, i + 1) == seq![c]);
        }
    }
}

proof fn lemma_step_comment(st: PState, rest: Seq<char>)
    requires
        st.header is None,
        rest.len() > 0,
        rest[0] != 'M',
        line_end_ok(rest),
    ensures
        step(st, "# "@ + rest) == Some(PState { builder: apply_meta(st.builder, rest), ..st }),
{
    lemma_literals();
    let line = "# "@ + rest;
    assert(line.last() == rest.last());
    lemma_strip_eol_id(line);
    assert(line[1] == ' ');
    assert(!starts_with(line, meta_prefix())) by {
        if starts_with(line, meta_prefix()) {
            assert(line.take(39)[1] == line[1]);
        }
    }
    assert(!starts_with(line, "##"@)) by {
        if starts_with(line, "##"@) {
            assert(line.take(2)[1] == line[1]);
        }
    }
    assert(line != FLAGS_MESSAGE@) by {
        assert(line[2] == rest[0]);
    }
    assert(starts_with(line, "# "@)) by {
        assert(line.take(2) == "# "@);
    }
    assert(line.skip(2) == rest);
}

proof fn lemma_step_flags(st: PState)
    requires
        st.header is None,
    ensures
        step(st, FLAGS_MESSAGE@) == Some(
            PState { builder: BuilderV { is_flags: true, ..st.builder }, ..st },
        ),
{
    lemma_literals();
    let line = FLAGS_MESSAGE@;
    lemma_strip_eol_id(line);
    assert(!starts_with(line, meta_prefix())) by {
        if starts_with(line, meta_prefix()) {
            assert(line.take(39)[1] == line[1]);
        }
    }
    assert(!starts_with(line, "##"@)) by {
        if starts_with(line, "##"@) {
            assert(line.take(2)[1] == line[1]);
        }
    }
}

proof fn lemma_step_blank(st: PState)
    requires
        st.header is None,
    ensures
        step(st, Seq::empty()) == Some(st),
{
}

#[verifier::rlimit(40)]
proof fn lemma_step_desc(st: PState, l: Seq<char>)
    requires
        st.header is None,
        line_end_ok(l),
        !starts_with(l, "Settings file was created by plugin "@),
    ensures
        step(st, "## "@ + l) == Some(PState { desc: st.desc.push(l), ..st }),
{
    lemma_literals();
    let line = "## "@ + l;
    assert(line.last() == (if l.len() == 0 { ' ' } else { l.last() }));
    lemma_strip_eol_id(line);
    assert(!starts_with(line, meta_prefix())) by {
        if starts_with(line, meta_prefix()) {
            assert(l.take(36) == line.take(39).skip(3));
            assert(meta_prefix().skip(3) == "Settings file was created by plugin "@);
        }
    }
    assert(starts_with(line, "##"@)) by {
        assert(line.take(2) == "##"@);
    }
    assert(line.skip(2) == seq![' '] + l);
    assert((seq![' '] + l).skip(1) == l);
}

proof fn lemma_step_section(st: PState, name: Seq<char>)
    requires
        st.header is None,
    ensures
        step(st, "["@ + name + "]"@) == Some(
            PState {
                sections: match st.current {
                    Some(c) => st.sections.push(c),
                    None => st.sections,
                },
                current: Some(SectionV { name, entries: Seq::empty() }),
                ..st
            },
        ),
{
    lemma_literals();
    let line = "["@ + name + "]"@;
    lemma_strip_eol_id(line);
    assert(!starts_with(line, meta_prefix())) by {
        if starts_with(line, meta_prefix()) {
            assert(line.take(39)[0] == line[0]);
        }
    }
    assert(is_section_line(line));
    assert(line.subrange(1, line.len() - 1) == name);
}

} // verus!

verus! {

proof fn lemma_trim_start_len(s: Seq<char>)
    ensures
        trim_start(s).len() <= s.len(),
    decreases s.len(),
{
    if s.len() > 0 && is_white(s[0]) {
        lemma_trim_start_len(s.skip(1));
    }
}

proof fn lemma_trim_end_len(s: Seq<char>)
    ensures
        trim_end(s).len() <= s.len(),
    decreases s.len(),
{
    if s.len() > 0 && is_white(s.last()) {
        lemma_trim_end_len(s.drop_last());
    }
}

pub proof fn lemma_trimmed_ends(s: Seq<char>)
    requires
        trim(s) == s,
        s.len() > 0,
    ensures
        !is_white(s[0]),
        !is_white(s.last()),
        trim_start(s) == s,
{
    lemma_trim_start_len(s);
    if is_white(s[0]) {
        lemma_trim_start_len(s.skip(1));
        lemma_trim_end_len(trim_start(s));
    }
    assert(trim_start(s) == s);
    if is_white(s.last()) {
        lemma_trim_end_len(s.drop_last());
    }
}

proof fn lemma_trim_space_after(a: Seq<char>)
    requires
        trim(a) == a,
    ensures
        trim(a + seq![' ']) == a,
{
    let s = a + seq![' '];
    if a.len() == 0 {
        assert(s == seq![' ']);
        assert(s.skip(1) == Seq::<char>::empty());
        assert(is_white(s[0]));
        assert(trim_start(Seq::<char>::empty()) == Seq::<char>::empty());
        assert(trim_start(s) == Seq::<char>::empty());
    } else {
        lemma_trimmed_ends(a);
        assert(s[0] == a[0]);
        assert(trim_start(s) == s);
        assert(s.drop_last() == a);
        assert(trim_end(s) == trim_end(a));
        assert(trim_end(a) == a);
    }
}

proof fn lemma_trim_space_before(v: Seq<char>)
    requires
        trim(v) == v,
    ensures
        trim(seq![' '] + v) == v,
{
    let s = seq![' '] + v;
    assert(s.skip(1) == v);
    if v.len() == 0 {
        assert(trim_start(v) == v);
    } else {
        lemma_trimmed_ends(v);
    }
    assert(trim_start(s) == trim_start(v));
}

proof fn lemma_step_header(st: PState, n: Seq<char>, v: Seq<char>)
    requires
        st.header is None,
        !v.contains(' '),
        line_end_ok(v),
    ensures
        step(st, meta_prefix() + n + " "@ + v) == Some(PState { header: Some((n, v)), ..st }),
{
    lemma_literals();
    let line = meta_prefix() + n + " "@ + v;
    assert(line.last() == (if v.len() == 0 { ' ' } else { v.last() }));
    lemma_strip_eol_id(line);
    assert(line.take(39) == meta_prefix());
    let rest = line.skip(39);
    assert(rest == n + seq![' '] + v);
    let sp = seq![' '];
    let p = split(n, sp);
    crate::text::lemma_split_from_nonempty(n, sp, 0);
    crate::text::lemma_split_pieces(n, sp, 0);
    crate::text::lemma_join_split(n, sp);
    let q = p.push(v);
    assert(q.drop_last() == p);
    assert(join(q, sp) == join(p, sp) + sp + v);
    lemma_occurs_char(v, ' ');
    assert forall|i: int| 0 <= i < q.len() implies !occurs(#[trigger] q[i], sp) by {
        if i < p.len() {
            assert(q[i] == p[i]);
        }
    }
    crate::text::lemma_split_join_sep(q, sp);
    assert(split(rest, sp) == q);
    assert(read_metadata_text(line) == Some((n, v)));
}

proof fn lemma_step_guid(st: PState, n: Seq<char>, v: Seq<char>, g: Seq<char>)
    requires
        st.header == Some((n, v)),
        line_end_ok(g),
    ensures
        step(st, "## Plugin GUID: "@ + g) == Some(
            PState {
                metadata: Some(MetadataV { mod_name: n, mod_version: v, mod_guid: g }),
                header: None,
                ..st
            },
        ),
{
    lemma_literals();
    let line = "## Plugin GUID: "@ + g;
    assert(line.last() == (if g.len() == 0 { ' ' } else { g.last() }));
    lemma_strip_eol_id(line);
    assert(line.take(16) == "## Plugin GUID: "@);
    assert(line.skip(16) == g);
}

/// Whether a key reads back as the key of an entry line.
pub open spec fn key_ok(name: Seq<char>) -> bool {
    &&& !name.contains('=')
    &&& trim(name) == name
    &&& (name.len() == 0 || (name[0] != '#' && name[0] != '['))
}

proof fn lemma_step_entry(st: PState, name: Seq<char>, vt: Seq<char>)
    requires
        st.header is None,
        key_ok(name),
        trim(vt) == vt,
    ensures
        step(st, name + " = "@ + vt) == (match build_entry(st.builder, st.desc, name, vt) {
            None => None,
            Some(e) => match st.current {
                None => None,
                Some(c) => Some(
                    PState {
                        current: Some(SectionV { name: c.name, entries: c.entries.push(e) }),
                        builder: empty_builder(),
                        desc: Seq::empty(),
                        ..st
                    },
                ),
            },
        }),
{
    lemma_literals();
    let line = name + " = "@ + vt;
    if vt.len() > 0 {
        lemma_trimmed_ends(vt);
        assert(line.last() == vt.last());
    } else {
        assert(line.last() == ' ');
    }
    lemma_strip_eol_id(line);
    assert(line[0] == (if name.len() == 0 { ' ' } else { name[0] }));
    assert(!starts_with(line, meta_prefix())) by {
        if starts_with(line, meta_prefix()) {
            assert(line.take(39)[0] == line[0]);
        }
    }
    assert(!starts_with(line, "##"@)) by {
        if starts_with(line, "##"@) {
            assert(line.take(2)[0] == line[0]);
        }
    }
    assert(!starts_with(line, "# "@)) by {
        if starts_with(line, "# "@) {
            assert(line.take(2)[0] == line[0]);
        }
    }
    assert(line != FLAGS_MESSAGE@);
    let a = name + seq![' '];
    let r = seq![' '] + vt;
    assert(line == a + seq!['='] + r);
    lemma_occurs_char(a, '=');
    assert(!a.contains('=')) by {
        if a.contains('=') {
            let i = choose|i: int| 0 <= i < a.len() && a[i] == '=';
            if i < name.len() {
                assert(name[i] == '=');
            }
        }
    }
    crate::text::lemma_first_match_after(a, seq!['='], r);
    assert(line.take(a.len() as int) == a);
    assert(line.skip(a.len() as int + 1) == r);
    lemma_trim_space_after(name);
    lemma_trim_space_before(vt);
    assert(entry_parts(line) == Some((name, vt)));
}

} // verus!

verus! {

/// Whether the text that the writer emits for a value reads back as that
/// value: decimals are normalised; a string holds no backslash before an
/// `n` (such a pair would read back as a newline); a choice names the first
/// option of its name; a flag set names first options, or, when empty, no
/// option is named `0`.
pub open spec fn reads_back(v: ValueV) -> bool {
    match v {
        ValueV::Bool(_) => true,
        ValueV::Int(_, _) => true,
        ValueV::Float(d, r) => d.normalized() && (r matches Some((a, b)) ==> a.normalized()
            && b.normalized()),
        ValueV::Str(s) => str_reads_back(s),
        ValueV::Enum(i, o) => i < o.len() && position(o, o[i as int], 0) == i,
        ValueV::Flags(ix, o) => flags_read_back(ix, o),
    }
}

pub open spec fn str_reads_back(s: Seq<char>) -> bool {
    forall|i: int|
        0 <= i < split(s, seq!['\n']).len() ==> !occurs(
            #[trigger] split(s, seq!['\n'])[i],
            seq!['\\', 'n'],
        )
}

pub open spec fn flags_read_back(ix: Seq<usize>, o: Seq<Seq<char>>) -> bool {
    if ix.len() == 0 {
        !o.contains(seq!['0'])
    } else {
        split(join(picked(ix, o), seq![',', ' ']), seq![',', ' ']) == picked(ix, o) && flag_positions(
            picked(ix, o),
            o,
        ) == ix
    }
}

/// The comment fields that the reader gathers from the lines written above
/// an entry with value `v` and default text `dflt`.
pub open spec fn written_builder(v: ValueV, dflt: Option<Seq<char>>) -> BuilderV {
    BuilderV {
        setting_type: Some(type_text(v)),
        default_value: dflt,
        acceptable_values: value_options_of(v),
        is_flags: v is Flags,
        range: crate::laws::written_range(v),
    }
}

/// Whether a default is of the value's kind: the same type, range and options.
pub open spec fn same_kind(d: ValueV, v: ValueV) -> bool {
    match (d, v) {
        (ValueV::Bool(_), ValueV::Bool(_)) => true,
        (ValueV::Str(_), ValueV::Str(_)) => true,
        (ValueV::Int(_, r1), ValueV::Int(_, r2)) => r1 == r2,
        (ValueV::Float(_, r1), ValueV::Float(_, r2)) => r1 == r2,
        (ValueV::Enum(_, o1), ValueV::Enum(_, o2)) => o1 == o2,
        (ValueV::Flags(_, o1), ValueV::Flags(_, o2)) => o1 == o2,
        _ => false,
    }
}

proof fn lemma_unescape_escape(s: Seq<char>)
    requires
        str_reads_back(s),
    ensures
        replace(replace(s, seq!['\n'], seq!['\\', 'n']), seq!['\\', 'n'], seq!['\n']) == s,
{
    let nl = seq!['\n'];
    let bn = seq!['\\', 'n'];
    let p = split(s, nl);
    crate::text::lemma_split_from_nonempty(s, nl, 0);
    assert(forall|i: int|
        0 <= i < split(s, seq!['\n']).len() ==> !occurs(
            #[trigger] split(s, seq!['\n'])[i],
            seq!['\\', 'n'],
        ));
    assert(p == split(s, seq!['\n']));
    assert(bn == seq!['\\', 'n']);
    crate::text::lemma_split_join_sep(p, bn);
    crate::text::lemma_join_split(s, nl);
}

/// The value read back from the text the writer emits for it, with the
/// fields gathered from the lines above it.
proof fn lemma_value_reads_back(d: ValueV, v: ValueV, dflt: Option<Seq<char>>)
    requires
        reads_back(d),
        same_kind(d, v),
        0 < (match value_options_of(v) {
            Some(o) => o.len(),
            None => 1,
        }) <= usize::MAX,
    ensures
        parse_value_text(value_text(d), written_builder(v, dflt), type_text(v)) == Some(d),
{
    reveal_strlit("Boolean");
    reveal_strlit("String");
    reveal_strlit("Int32");
    reveal_strlit("Number");
    reveal_strlit("Single");
    reveal_strlit("Double");
    reveal_strlit("true");
    reveal_strlit("false");
    assert("Single"@[1] != "String"@[1]);
    let b = written_builder(v, dflt);
    match d {
        ValueV::Bool(x) => {
            crate::laws::lemma_trim_plain("true"@);
            crate::laws::lemma_trim_plain("false"@);
            assert(parse_value_text(value_text(d), b, type_text(v)) == Some(d));
        },
        ValueV::Str(s) => {
            assert(str_reads_back(s));
            lemma_unescape_escape(s);
            assert(parse_value_text(value_text(d), b, type_text(v)) == Some(d));
        },
        ValueV::Int(n, r) => {
            crate::laws::lemma_int_round_trip(n);
            if let Some((a, c)) = r {
                crate::laws::lemma_int_round_trip(a);
                crate::laws::lemma_int_round_trip(c);
            }
            assert(v is Int);
            assert(type_text(v) == "Int32"@);
            assert(parse_value_text(value_text(d), b, type_text(v)) == Some(d));
        },
        ValueV::Float(x, r) => {
            crate::laws::lemma_decimal_round_trip(x);
            if let Some((a, c)) = r {
                crate::laws::lemma_decimal_round_trip(a);
                crate::laws::lemma_decimal_round_trip(c);
            }
            assert(parse_value_text(value_text(d), b, type_text(v)) == Some(d));
        },
        ValueV::Enum(i, o) => {
            assert(parse_value_text(value_text(d), b, type_text(v)) == Some(d));
        },
        ValueV::Flags(ix, o) => {
            assert(flags_read_back(ix, o));
            if ix.len() == 0 {
                crate::laws::lemma_empty_flags_round_trip(o);
                assert(ix == Seq::<usize>::empty());
                assert(value_text(d) == seq!['0']);
            } else {
                assert(value_text(d) == join(picked(ix, o), seq![',', ' ']));
                assert(parse_enum_text(value_text(d), o, true) == ValueV::Flags(ix, o));
            }
            assert(v is Flags);
            assert(b.acceptable_values == Some(o));
            assert(b.is_flags);
            assert(parse_value_text(value_text(d), b, type_text(v)) == Some(d));
        },
    }
}

} // verus!

verus! {

proof fn lemma_first_match_after_head(a: Seq<char>, sep: Seq<char>, r: Seq<char>)
    requires
        sep.len() > 0,
        !a.contains(sep[0]),
    ensures
        first_match(a + sep + r, sep, 0) == a.len(),
{
    let s = a + sep + r;
    assert forall|j: int| 0 <= j < a.len() implies #[trigger] s.subrange(j, j + sep.len()) != sep by {
        assert(s.subrange(j, j + sep.len())[0] == a[j]);
    }
    assert(s.subrange(a.len() as int, a.len() + sep.len() as int) == sep);
    crate::text::lemma_first_match_from_at(s, sep, 0, a.len() as int);
}

/// The characters of a number's text: digits, a minus sign, a dot; it ends
/// with a digit.
pub open spec fn number_text(t: Seq<char>) -> bool {
    &&& t.len() > 0
    &&& crate::number::is_digit(t.last())
    &&& forall|i: int|
        0 <= i < t.len() ==> crate::number::is_digit(#[trigger] t[i]) || t[i] == '-' || t[i] == '.'
}

proof fn lemma_int_text_chars(n: int)
    ensures
        number_text(crate::number::int_text(n)),
{
    let m: nat = if n < 0 {
        (-n) as nat
    } else {
        n as nat
    };
    crate::number::lemma_nat_text(m);
    let d = crate::number::nat_text(m);
    let t = crate::number::int_text(n);
    assert(t.last() == d.last());
    assert forall|i: int| 0 <= i < t.len() implies crate::number::is_digit(#[trigger] t[i]) || t[i]
        == '-' || t[i] == '.' by {
        if n < 0 && i > 0 {
            assert(t[i] == d[i - 1]);
        } else if n >= 0 {
            assert(t[i] == d[i]);
        }
    }
}

proof fn lemma_decimal_text_chars(x: crate::number::Decimal)
    ensures
        number_text(crate::number::decimal_text(x)),
{
    let m = x.mantissa as nat;
    crate::number::lemma_nat_text(m);
    let digits = crate::number::nat_text(m);
    let padded = if digits.len() <= x.scale {
        crate::number::zeros((x.scale + 1 - digits.len()) as nat) + digits
    } else {
        digits
    };
    assert forall|i: int| 0 <= i < padded.len() implies crate::number::is_digit(#[trigger] padded[i]) by {
        if digits.len() <= x.scale {
            let z = (x.scale + 1 - digits.len()) as int;
            if i >= z {
                assert(padded[i] == digits[i - z]);
            }
        }
    }
    assert(padded.last() == digits.last());
    let sign = if x.negative {
        seq!['-']
    } else {
        Seq::<char>::empty()
    };
    let t = crate::number::decimal_text(x);
    if x.scale == 0 {
        assert(t == sign + digits);
        assert(t.last() == digits.last());
        assert forall|i: int| 0 <= i < t.len() implies crate::number::is_digit(#[trigger] t[i]) || t[i]
            == '-' || t[i] == '.' by {
            if i >= sign.len() {
                assert(t[i] == digits[i - sign.len()]);
            }
        }
    } else {
        let cut = padded.len() - x.scale;
        let head = padded.take(cut);
        let tail = padded.skip(cut);
        assert(t == sign + head + seq!['.'] + tail);
        assert(t.last() == tail.last());
        assert(tail.last() == padded.last());
        assert forall|i: int| 0 <= i < t.len() implies crate::number::is_digit(#[trigger] t[i]) || t[i]
            == '-' || t[i] == '.' by {
            if i >= sign.len() && i < sign.len() + head.len() {
                assert(t[i] == padded[i - sign.len()]);
            } else if i > sign.len() + head.len() {
                assert(t[i] == padded[cut + i - sign.len() - head.len() - 1]);
            }
        }
    }
}

/// The text of an integer is a number text: no white space, no newline,
/// and it ends with a digit.
pub proof fn lemma_int_text_plain(n: int)
    ensures
        ({
            let t = crate::number::int_text(n);
            &&& t.len() > 0
            &&& !is_white(t[0])
            &&& !is_white(t.last())
            &&& line_end_ok(t)
            &&& !t.contains('\n')
        }),
{
    lemma_int_text_chars(n);
    let t = crate::number::int_text(n);
    lemma_number_text_plain(t);
    assert(crate::number::is_digit(t[0]) || t[0] == '-' || t[0] == '.');
}

/// The text of a decimal is a number text, as for integers.
pub proof fn lemma_decimal_text_plain(d: crate::number::Decimal)
    ensures
        ({
            let t = crate::number::decimal_text(d);
            &&& t.len() > 0
            &&& !is_white(t[0])
            &&& !is_white(t.last())
            &&& line_end_ok(t)
            &&& !t.contains('\n')
        }),
{
    lemma_decimal_text_chars(d);
    let t = crate::number::decimal_text(d);
    lemma_number_text_plain(t);
    assert(crate::number::is_digit(t[0]) || t[0] == '-' || t[0] == '.');
}

proof fn lemma_number_text_plain(t: Seq<char>)
    requires
        number_text(t),
    ensures
        !t.contains(' '),
        !t.contains('\n'),
        line_end_ok(t),
{
    if t.contains(' ') {
        let i = choose|i: int| 0 <= i < t.len() && t[i] == ' ';
        assert(crate::number::is_digit(t[i]) || t[i] == '-' || t[i] == '.');
    }
    if t.contains('\n') {
        let i = choose|i: int| 0 <= i < t.len() && t[i] == '\n';
        assert(crate::number::is_digit(t[i]) || t[i] == '-' || t[i] == '.');
    }
}

} // verus!

verus! {

proof fn lemma_line_type(st: PState, v: ValueV)
    requires
        st.header is None,
    ensures
        step(st, "# Setting type: "@ + type_text(v)) == Some(
            PState { builder: BuilderV { setting_type: Some(type_text(v)), ..st.builder }, ..st },
        ),
{
    lemma_literals();
    let rest = "Setting type: "@ + type_text(v);
    assert("# Setting type: "@ + type_text(v) == "# "@ + rest);
    assert(rest.last() == type_text(v).last());
    lemma_step_comment(st, rest);
    assert(rest.take(14) == "Setting type: "@);
    assert(rest.skip(14) == type_text(v));
}

proof fn lemma_line_default(st: PState, d: Option<ValueV>)
    requires
        st.header is None,
        d matches Some(x) ==> line_end_ok(value_text(x)),
    ensures
        step(st, default_line_of(d)) == Some(
            PState {
                builder: BuilderV {
                    default_value: match d {
                        Some(x) => Some(value_text(x)),
                        None => None,
                    },
                    ..st.builder
                },
                ..st
            },
        ),
{
    lemma_literals();
    match d {
        Some(x) => {
            let vt = value_text(x);
            let rest = "Default value: "@ + vt;
            assert(default_line_of(d) == "# "@ + rest);
            assert(rest.last() == (if vt.len() == 0 { ' ' } else { vt.last() }));
            lemma_step_comment(st, rest);
            assert(!starts_with(rest, "Setting type: "@)) by {
                assert(rest.take(14)[0] == rest[0]);
            }
            assert(rest.take(15) == "Default value: "@);
            assert(rest.skip(15) == vt);
        },
        None => {
            let rest = "Default value:"@;
            assert(default_line_of(d) == "# "@ + rest);
            lemma_step_comment(st, rest);
            assert(!starts_with(rest, "Setting type: "@)) by {
                if starts_with(rest, "Setting type: "@) {
                    assert(rest.take(14)[0] == rest[0]);
                }
            }
            assert(!starts_with(rest, "Default value: "@));
        },
    }
}

proof fn lemma_line_options(st: PState, o: Seq<Seq<char>>)
    requires
        st.header is None,
        line_end_ok(join(o, seq![',', ' '])),
    ensures
        step(st, "# Acceptable values: "@ + join(o, seq![',', ' '])) == Some(
            PState {
                builder: BuilderV {
                    acceptable_values: Some(split(join(o, seq![',', ' ']), seq![',', ' '])),
                    ..st.builder
                },
                ..st
            },
        ),
{
    lemma_literals();
    let j = join(o, seq![',', ' ']);
    let rest = "Acceptable values: "@ + j;
    assert("# Acceptable values: "@ + j == "# "@ + rest);
    assert(rest.last() == (if j.len() == 0 { ' ' } else { j.last() }));
    lemma_step_comment(st, rest);
    assert(!starts_with(rest, "Setting type: "@)) by {
        assert(rest.take(14)[0] == rest[0]);
    }
    assert(!starts_with(rest, "Default value: "@)) by {
        assert(rest.take(15)[0] == rest[0]);
    }
    assert(rest != "Default value:"@) by {
        assert(rest[0] == 'A');
    }
    assert(rest.take(19) == "Acceptable values: "@);
    assert(rest.skip(19) == j);
}

proof fn lemma_line_range(st: PState, ta: Seq<char>, tb: Seq<char>)
    requires
        st.header is None,
        number_text(ta),
        number_text(tb),
    ensures
        step(st, "# Acceptable value range: From "@ + ta + " to "@ + tb) == Some(
            PState { builder: BuilderV { range: Some((ta, tb)), ..st.builder }, ..st },
        ),
{
    lemma_literals();
    lemma_number_text_plain(ta);
    lemma_number_text_plain(tb);
    let r = ta + " to "@ + tb;
    let rest = "Acceptable value range: From "@ + r;
    assert("# Acceptable value range: From "@ + ta + " to "@ + tb == "# "@ + rest);
    assert(rest.last() == tb.last());
    lemma_step_comment(st, rest);
    assert(!starts_with(rest, "Setting type: "@)) by {
        assert(rest.take(14)[0] == rest[0]);
    }
    assert(!starts_with(rest, "Default value: "@)) by {
        assert(rest.take(15)[0] == rest[0]);
    }
    assert(rest != "Default value:"@) by {
        assert(rest[0] == 'A');
    }
    assert(!starts_with(rest, "Acceptable values: "@)) by {
        assert(rest.take(19)[16] == rest[16]);
    }
    assert(rest.take(29) == "Acceptable value range: From "@);
    assert(rest.skip(29) == r);
    lemma_first_match_after_head(ta, " to "@, tb);
    assert(r.take(ta.len() as int) == ta);
    assert(r.skip(ta.len() as int + 4) == tb);
}

} // verus!

verus! {

/// A description line that reads back as one: no trailing carriage return,
/// and not the text of a metadata header.
pub open spec fn desc_line_ok(l: Seq<char>) -> bool {
    line_end_ok(l) && !starts_with(l, "Settings file was created by plugin "@)
}

pub open spec fn desc_text_ok(d: Seq<char>) -> bool {
    forall|i: int|
        0 <= i < split(d, seq!['\n']).len() ==> desc_line_ok(#[trigger] split(d, seq!['\n'])[i])
}

pub open spec fn desc_ok(d: Option<Seq<char>>) -> bool {
    match d {
        None => true,
        Some(t) => desc_text_ok(t),
    }
}

/// An option list that reads back from its `, `-joined line.
pub open spec fn options_read_back(o: Seq<Seq<char>>) -> bool {
    &&& 0 < o.len() <= usize::MAX
    &&& split(join(o, seq![',', ' ']), seq![',', ' ']) == o
    &&& line_end_ok(join(o, seq![',', ' ']))
}

pub open spec fn options_ok(v: ValueV) -> bool {
    match value_options_of(v) {
        None => true,
        Some(o) => options_read_back(o),
    }
}

pub open spec fn default_ok(d: Option<ValueV>, v: ValueV) -> bool {
    match d {
        None => true,
        Some(x) => reads_back(x) && same_kind(x, v) && line_end_ok(value_text(x)),
    }
}

/// Whether the lines written for an entry read back as that entry.
pub open spec fn entry_ok(e: EntryV) -> bool {
    &&& key_ok(e.name)
    &&& desc_ok(e.description)
    &&& reads_back(e.value)
    &&& options_ok(e.value)
    &&& trim(value_text(e.value)) == value_text(e.value)
    &&& default_ok(e.default, e.value)
}

pub open spec fn desc_lines_of(d: Option<Seq<char>>) -> Seq<Seq<char>> {
    match d {
        Some(t) => split(t, seq!['\n']),
        None => Seq::empty(),
    }
}

pub open spec fn default_text_of(d: Option<ValueV>) -> Option<Seq<char>> {
    match d {
        Some(x) => Some(value_text(x)),
        None => None,
    }
}

proof fn lemma_desc_lines(st: PState, lines: Seq<Seq<char>>)
    requires
        st.header is None,
        forall|i: int| 0 <= i < lines.len() ==> desc_line_ok(#[trigger] lines[i]),
    ensures
        steps(Some(st), prefixed("## "@, lines)) == Some(PState { desc: st.desc + lines, ..st }),
    decreases lines.len(),
{
    let p = prefixed("## "@, lines);
    if lines.len() == 0 {
        assert(st.desc + lines == st.desc);
        assert(p.len() == 0);
    } else {
        let init = lines.drop_last();
        assert forall|i: int| 0 <= i < init.len() implies desc_line_ok(#[trigger] init[i]) by {
            assert(init[i] == lines[i]);
        }
        lemma_desc_lines(st, init);
        assert(p.drop_last() == prefixed("## "@, init));
        assert(p.last() == "## "@ + lines.last());
        let s1 = PState { desc: st.desc + init, ..st };
        assert(desc_line_ok(lines[lines.len() - 1]));
        lemma_step_desc(s1, lines.last());
        assert(st.desc + init + seq![lines.last()] == st.desc + lines);
        assert((st.desc + init).push(lines.last()) == st.desc + lines);
    }
}

proof fn lemma_build_back(e: EntryV)
    requires
        entry_ok(e),
    ensures
        build_entry(
            written_builder(e.value, default_text_of(e.default)),
            desc_lines_of(e.description),
            e.name,
            value_text(e.value),
        ) == Some(e),
{
    let v = e.value;
    let dt = default_text_of(e.default);
    let b = written_builder(v, dt);
    assert(same_kind(v, v));
    assert(0 < (match value_options_of(v) {
        Some(o) => o.len(),
        None => 1,
    }) <= usize::MAX);
    lemma_value_reads_back(v, v, dt);
    if let Some(x) = e.default {
        lemma_value_reads_back(x, v, dt);
    }
    if let Some(t) = e.description {
        crate::text::lemma_split_from_nonempty(t, seq!['\n'], 0);
        crate::text::lemma_join_split(t, seq!['\n']);
    }
}

} // verus!

verus! {

proof fn lemma_steps_two(st: PState, a: Seq<char>, b: Seq<char>)
    ensures
        steps(Some(st), seq![a, b]) == (match step(st, a) {
            Some(s) => step(s, b),
            None => None,
        }),
{
    assert(seq![a, b].drop_last() == seq![a]);
    assert(seq![a, b].last() == b);
    lemma_steps_one(st, a);
}

/// The lines written for an entry, read into an open section with nothing
/// gathered yet, add that entry to the section.
proof fn lemma_entry_block(st: PState, e: EntryV)
    requires
        st.header is None,
        st.builder == empty_builder(),
        st.desc == Seq::<Seq<char>>::empty(),
        st.current is Some,
        entry_ok(e),
    ensures
        steps(Some(st), entry_lines(e)) == Some(
            PState {
                current: Some(
                    SectionV {
                        name: st.current->0.name,
                        entries: st.current->0.entries.push(e),
                    },
                ),
                ..st
            },
        ),
{
    lemma_literals();
    let v = e.value;
    let dl = desc_lines_of(e.description);
    let descl = match e.description {
        Some(d) => prefixed("## "@, split(d, seq!['\n'])),
        None => Seq::<Seq<char>>::empty(),
    };
    assert(descl == prefixed("## "@, dl));
    if let Some(t) = e.description {
        assert(desc_text_ok(t));
    }
    assert forall|i: int| 0 <= i < dl.len() implies desc_line_ok(#[trigger] dl[i]) by {}
    lemma_desc_lines(st, dl);
    assert(st.desc + dl == dl);
    let s1 = PState { desc: dl, ..st };
    let tline = "# Setting type: "@ + type_text(v);
    let dline = default_line_of(e.default);
    lemma_line_type(s1, v);
    let s2 = PState { builder: BuilderV { setting_type: Some(type_text(v)), ..s1.builder }, ..s1 };
    lemma_line_default(s2, e.default);
    let dt = default_text_of(e.default);
    let s3 = PState { builder: BuilderV { default_value: dt, ..s2.builder }, ..s2 };
    lemma_steps_two(s1, tline, dline);
    let td = seq![tline, dline];
    let opts = match value_options_of(v) {
        Some(o) => seq!["# Acceptable values: "@ + join(o, seq![',', ' '])],
        None => Seq::<Seq<char>>::empty(),
    };
    let s4 = PState {
        builder: BuilderV { acceptable_values: value_options_of(v), ..s3.builder },
        ..s3
    };
    if let Some(o) = value_options_of(v) {
        assert(options_read_back(o));
        lemma_line_options(s3, o);
        lemma_steps_one(s3, opts[0]);
        assert(opts == seq![opts[0]]);
    } else {
        assert(s4 == s3);
    }
    assert(steps(Some(s3), opts) == Some(s4));
    let extra = match v {
        ValueV::Flags(_, _) => seq![FLAGS_MESSAGE@],
        ValueV::Int(_, Some((a, b))) => seq![
            "# Acceptable value range: From "@ + crate::number::int_text(a as int) + " to "@
                + crate::number::int_text(b as int),
        ],
        ValueV::Float(_, Some((a, b))) => seq![
            "# Acceptable value range: From "@ + crate::number::decimal_text(a) + " to "@
                + crate::number::decimal_text(b),
        ],
        _ => Seq::<Seq<char>>::empty(),
    };
    let b5 = written_builder(v, dt);
    let s5 = PState { builder: b5, ..s4 };
    match v {
        ValueV::Flags(_, _) => {
            lemma_step_flags(s4);
            lemma_steps_one(s4, FLAGS_MESSAGE@);
        },
        ValueV::Int(_, Some((a, b))) => {
            lemma_int_text_chars(a as int);
            lemma_int_text_chars(b as int);
            lemma_line_range(s4, crate::number::int_text(a as int), crate::number::int_text(b as int));
            lemma_steps_one(s4, extra[0]);
        },
        ValueV::Float(_, Some((a, b))) => {
            lemma_decimal_text_chars(a);
            lemma_decimal_text_chars(b);
            lemma_line_range(s4, crate::number::decimal_text(a), crate::number::decimal_text(b));
            lemma_steps_one(s4, extra[0]);
        },
        _ => {},
    }
    assert(steps(Some(s4), extra) == Some(s5));
    assert(comment_lines(e) == descl + td + opts + extra);
    lemma_steps_append(Some(st), descl, td);
    lemma_steps_append(Some(st), descl + td, opts);
    lemma_steps_append(Some(st), descl + td + opts, extra);
    assert(steps(Some(st), comment_lines(e)) == Some(s5));
    let eline = e.name + " = "@ + value_text(v);
    lemma_step_entry(s5, e.name, value_text(v));
    lemma_build_back(e);
    let c = st.current->0;
    let s6 = PState {
        current: Some(SectionV { name: c.name, entries: c.entries.push(e) }),
        builder: empty_builder(),
        desc: Seq::empty(),
        ..s5
    };
    lemma_step_blank(s6);
    lemma_steps_two(s5, eline, Seq::empty());
    assert(entry_lines(e) == comment_lines(e) + seq![eline, Seq::<char>::empty()]);
    lemma_steps_append(Some(st), comment_lines(e), seq![eline, Seq::<char>::empty()]);
}

} // verus!

verus! {

pub open spec fn section_ok(s: SectionV) -> bool {
    forall|i: int| 0 <= i < s.entries.len() ==> entry_ok(#[trigger] s.entries[i])
}

proof fn lemma_entries_block(st: PState, es: Seq<EntryV>)
    requires
        st.header is None,
        st.builder == empty_builder(),
        st.desc == Seq::<Seq<char>>::empty(),
        st.current is Some,
        forall|i: int| 0 <= i < es.len() ==> entry_ok(#[trigger] es[i]),
    ensures
        steps(Some(st), entries_lines(es)) == Some(
            PState {
                current: Some(
                    SectionV {
                        name: st.current->0.name,
                        entries: st.current->0.entries + es,
                    },
                ),
                ..st
            },
        ),
    decreases es.len(),
{
    let c = st.current->0;
    if es.len() == 0 {
        assert(c.entries + es == c.entries);
        assert(SectionV { name: c.name, entries: c.entries } == c);
    } else {
        let init = es.drop_last();
        assert forall|i: int| 0 <= i < init.len() implies entry_ok(#[trigger] init[i]) by {
            assert(init[i] == es[i]);
        }
        lemma_entries_block(st, init);
        let s1 = PState {
            current: Some(SectionV { name: c.name, entries: c.entries + init }),
            ..st
        };
        assert(entry_ok(es[es.len() - 1]));
        lemma_entry_block(s1, es.last());
        lemma_steps_append(Some(st), entries_lines(init), entry_lines(es.last()));
        assert((c.entries + init).push(es.last()) == c.entries + es);
    }
}

proof fn lemma_section_block(st: PState, s: SectionV)
    requires
        st.header is None,
        st.builder == empty_builder(),
        st.desc == Seq::<Seq<char>>::empty(),
        section_ok(s),
    ensures
        steps(Some(st), section_lines(s)) == Some(
            PState {
                sections: match st.current {
                    Some(c) => st.sections.push(c),
                    None => st.sections,
                },
                current: Some(s),
                ..st
            },
        ),
{
    lemma_literals();
    let head = "["@ + s.name + "]"@;
    lemma_step_section(st, s.name);
    let s1 = PState {
        sections: match st.current {
            Some(c) => st.sections.push(c),
            None => st.sections,
        },
        current: Some(SectionV { name: s.name, entries: Seq::empty() }),
        ..st
    };
    lemma_step_blank(s1);
    lemma_steps_two(st, head, Seq::empty());
    assert forall|i: int| 0 <= i < s.entries.len() implies entry_ok(#[trigger] s.entries[i]) by {}
    lemma_entries_block(s1, s.entries);
    assert(Seq::<EntryV>::empty() + s.entries == s.entries);
    assert(SectionV { name: s.name, entries: s.entries } == s);
    assert(section_lines(s) == seq![head, Seq::<char>::empty()] + entries_lines(s.entries));
    lemma_steps_append(Some(st), seq![head, Seq::<char>::empty()], entries_lines(s.entries));
}

pub open spec fn after_sections(st: PState, ss: Seq<SectionV>) -> PState {
    if ss.len() == 0 {
        st
    } else {
        PState { sections: ss.drop_last(), current: Some(ss.last()), ..st }
    }
}

proof fn lemma_sections_block(st: PState, ss: Seq<SectionV>)
    requires
        st.header is None,
        st.builder == empty_builder(),
        st.desc == Seq::<Seq<char>>::empty(),
        st.current is None,
        st.sections == Seq::<SectionV>::empty(),
        forall|i: int| 0 <= i < ss.len() ==> section_ok(#[trigger] ss[i]),
    ensures
        steps(Some(st), sections_lines(ss)) == Some(after_sections(st, ss)),
    decreases ss.len(),
{
    if ss.len() > 0 {
        let init = ss.drop_last();
        assert forall|i: int| 0 <= i < init.len() implies section_ok(#[trigger] init[i]) by {
            assert(init[i] == ss[i]);
        }
        lemma_sections_block(st, init);
        let s1 = after_sections(st, init);
        assert(section_ok(ss[ss.len() - 1]));
        lemma_section_block(s1, ss.last());
        lemma_steps_append(Some(st), sections_lines(init), section_lines(ss.last()));
        if init.len() > 0 {
            assert(init.drop_last().push(init.last()) == init);
        } else {
            assert(init == Seq::<SectionV>::empty());
            assert(s1 == st);
        }
        let s2 = PState {
            sections: match s1.current {
                Some(c) => s1.sections.push(c),
                None => s1.sections,
            },
            current: Some(ss.last()),
            ..s1
        };
        assert(s2.sections == init);
        assert(s2 == after_sections(st, ss));
    }
}

pub open spec fn metadata_ok(m: Option<MetadataV>) -> bool {
    match m {
        None => true,
        Some(m) => !m.mod_version.contains(' ') && line_end_ok(m.mod_version) && line_end_ok(
            m.mod_guid,
        ),
    }
}

proof fn lemma_metadata_block(m: Option<MetadataV>)
    requires
        metadata_ok(m),
    ensures
        steps(Some(initial_state()), metadata_lines(m)) == Some(
            PState { metadata: m, ..initial_state() },
        ),
{
    lemma_literals();
    let st = initial_state();
    match m {
        None => {
            assert(PState { metadata: m, ..initial_state() } == st);
        },
        Some(md) => {
            let l1 = meta_prefix() + md.mod_name + " "@ + md.mod_version;
            let l2 = "## Plugin GUID: "@ + md.mod_guid;
            lemma_step_header(st, md.mod_name, md.mod_version);
            let s1 = PState { header: Some((md.mod_name, md.mod_version)), ..st };
            lemma_step_guid(s1, md.mod_name, md.mod_version, md.mod_guid);
            let s2 = PState { metadata: m, header: None, ..s1 };
            lemma_step_blank(s2);
            lemma_steps_two(st, l1, l2);
            assert(metadata_lines(m) == seq![l1, l2] + seq![Seq::<char>::empty()]);
            lemma_steps_append(Some(st), seq![l1, l2], seq![Seq::<char>::empty()]);
            lemma_steps_one(s2, Seq::empty());
        },
    }
}

} // verus!

verus! {

pub open spec fn lines_plain(l: Seq<Seq<char>>) -> bool {
    forall|i: int| 0 <= i < l.len() ==> !(#[trigger] l[i]).contains('\n')
}

proof fn lemma_concat_plain(a: Seq<char>, b: Seq<char>)
    requires
        !a.contains('\n'),
        !b.contains('\n'),
    ensures
        !(a + b).contains('\n'),
{
    if (a + b).contains('\n') {
        let i = choose|i: int| 0 <= i < (a + b).len() && (a + b)[i] == '\n';
        if i < a.len() {
            assert(a[i] == '\n');
        } else {
            assert(b[i - a.len()] == '\n');
        }
    }
}

proof fn lemma_lines_append(a: Seq<Seq<char>>, b: Seq<Seq<char>>)
    requires
        lines_plain(a),
        lines_plain(b),
    ensures
        lines_plain(a + b),
{
    assert forall|i: int| 0 <= i < (a + b).len() implies !(#[trigger] (a + b)[i]).contains('\n') by {
        if i < a.len() {
            assert((a + b)[i] == a[i]);
        } else {
            assert((a + b)[i] == b[i - a.len()]);
        }
    }
}

pub proof fn lemma_join_plain(parts: Seq<Seq<char>>, sep: Seq<char>)
    requires
        lines_plain(parts),
        !sep.contains('\n'),
    ensures
        !join(parts, sep).contains('\n'),
    decreases parts.len(),
{
    if parts.len() == 1 {
        assert(!parts[0].contains('\n'));
    } else if parts.len() > 1 {
        let init = parts.drop_last();
        assert forall|i: int| 0 <= i < init.len() implies !(#[trigger] init[i]).contains('\n') by {
            assert(init[i] == parts[i]);
        }
        lemma_join_plain(init, sep);
        assert(!parts[parts.len() - 1].contains('\n'));
        lemma_concat_plain(join(init, sep), sep);
        lemma_concat_plain(join(init, sep) + sep, parts.last());
    }
}

pub proof fn lemma_split_plain(s: Seq<char>)
    ensures
        lines_plain(split(s, seq!['\n'])),
{
    crate::text::lemma_split_pieces(s, seq!['\n'], 0);
    assert forall|i: int| 0 <= i < split(s, seq!['\n']).len() implies !(#[trigger] split(
        s,
        seq!['\n'],
    )[i]).contains('\n') by {
        lemma_occurs_char(split(s, seq!['\n'])[i], '\n');
    }
}

proof fn lemma_picked_plain(ix: Seq<usize>, o: Seq<Seq<char>>)
    requires
        lines_plain(o),
    ensures
        lines_plain(picked(ix, o)),
    decreases ix.len(),
{
    if ix.len() > 0 {
        lemma_picked_plain(ix.drop_last(), o);
        let rest = picked(ix.drop_last(), o);
        if ix.last() < o.len() {
            assert(!o[ix.last() as int].contains('\n'));
            assert forall|i: int| 0 <= i < rest.push(o[ix.last() as int]).len() implies !(#[trigger] rest.push(
                o[ix.last() as int],
            )[i]).contains('\n') by {
                if i < rest.len() {
                    assert(rest.push(o[ix.last() as int])[i] == rest[i]);
                }
            }
        }
    }
}

proof fn lemma_small_literals_plain()
    ensures
        !"true"@.contains('\n'),
        !"false"@.contains('\n'),
        !"Boolean"@.contains('\n'),
        !"String"@.contains('\n'),
        !"Int32"@.contains('\n'),
        !"Single"@.contains('\n'),
        !seq!['0'].contains('\n'),
        !seq![',', ' '].contains('\n'),
        !seq!['\\', 'n'].contains('\n'),
{
    reveal_strlit("true");
    reveal_strlit("false");
    reveal_strlit("Boolean");
    reveal_strlit("String");
    reveal_strlit("Int32");
    reveal_strlit("Single");
    assert(!"true"@.contains('\n'));
    assert(!"false"@.contains('\n'));
    assert(!"Boolean"@.contains('\n'));
    assert(!"String"@.contains('\n'));
    assert(!"Int32"@.contains('\n'));
    assert(!"Single"@.contains('\n'));
    assert(!seq!['0'].contains('\n'));
    assert(!seq![',', ' '].contains('\n'));
    assert(!seq!['\\', 'n'].contains('\n'));
}

proof fn lemma_line_literals_plain()
    ensures
        !"## Settings file was created by plugin "@.contains('\n'),
        !"## Plugin GUID: "@.contains('\n'),
        !"# Setting type: "@.contains('\n'),
        !"# Default value: "@.contains('\n'),
        !"# Default value:"@.contains('\n'),
        !"# Acceptable values: "@.contains('\n'),
        !"# Acceptable value range: From "@.contains('\n'),
        !" to "@.contains('\n'),
        !" = "@.contains('\n'),
        !" "@.contains('\n'),
        !"["@.contains('\n'),
        !"]"@.contains('\n'),
        !"## "@.contains('\n'),
        !FLAGS_MESSAGE@.contains('\n'),
{
    lemma_literals();
    reveal_strlit("## Settings file was created by plugin ");
    reveal_strlit("## Plugin GUID: ");
    reveal_strlit("# Setting type: ");
    reveal_strlit("# Default value: ");
    reveal_strlit("# Default value:");
    reveal_strlit("# Acceptable values: ");
    reveal_strlit("# Acceptable value range: From ");
    assert(!"## Settings file was created by plugin "@.contains('\n'));
    assert(!"## Plugin GUID: "@.contains('\n'));
    assert(!"# Setting type: "@.contains('\n'));
    assert(!"# Default value: "@.contains('\n'));
    assert(!"# Default value:"@.contains('\n'));
    assert(!"# Acceptable values: "@.contains('\n'));
    assert(!"# Acceptable value range: From "@.contains('\n'));
    assert(!" to "@.contains('\n'));
    assert(!" = "@.contains('\n'));
    assert(!" "@.contains('\n'));
    assert(!"["@.contains('\n'));
    assert(!"]"@.contains('\n'));
    assert(!"## "@.contains('\n'));
}

} // verus!

verus! {

pub open spec fn options_plain(v: ValueV) -> bool {
    match value_options_of(v) {
        Some(o) => lines_plain(o),
        None => true,
    }
}

proof fn lemma_value_plain(v: ValueV)
    requires
        options_plain(v),
    ensures
        !value_text(v).contains('\n'),
{
    lemma_small_literals_plain();
    match v {
        ValueV::Bool(_) => {},
        ValueV::Str(s) => {
            lemma_split_plain(s);
            lemma_join_plain(split(s, seq!['\n']), seq!['\\', 'n']);
        },
        ValueV::Int(n, _) => {
            lemma_int_text_chars(n as int);
            lemma_number_text_plain(crate::number::int_text(n as int));
        },
        ValueV::Float(d, _) => {
            lemma_decimal_text_chars(d);
            lemma_number_text_plain(crate::number::decimal_text(d));
        },
        ValueV::Enum(i, o) => {
            if i < o.len() {
                assert(!o[i as int].contains('\n'));
            }
        },
        ValueV::Flags(ix, o) => {
            if ix.len() > 0 {
                lemma_picked_plain(ix, o);
                lemma_join_plain(picked(ix, o), seq![',', ' ']);
            }
        },
    }
}

pub open spec fn entry_plain(e: EntryV) -> bool {
    !e.name.contains('\n') && options_plain(e.value)
}

proof fn lemma_prefixed_plain(p: Seq<char>, lines: Seq<Seq<char>>)
    requires
        !p.contains('\n'),
        lines_plain(lines),
    ensures
        lines_plain(prefixed(p, lines)),
{
    assert forall|i: int| 0 <= i < prefixed(p, lines).len() implies !(#[trigger] prefixed(p, lines)[i]).contains('\n') by {
        assert(!lines[i].contains('\n'));
        lemma_concat_plain(p, lines[i]);
    }
}

proof fn lemma_entry_lines_plain(e: EntryV)
    requires
        entry_plain(e),
        e.default matches Some(d) ==> same_kind(d, e.value),
    ensures
        lines_plain(entry_lines(e)),
{
    lemma_line_literals_plain();
    lemma_small_literals_plain();
    let v = e.value;
    lemma_value_plain(v);
    let descl = match e.description {
        Some(d) => prefixed("## "@, split(d, seq!['\n'])),
        None => Seq::<Seq<char>>::empty(),
    };
    if let Some(d) = e.description {
        lemma_split_plain(d);
        lemma_prefixed_plain("## "@, split(d, seq!['\n']));
    }
    let tline = "# Setting type: "@ + type_text(v);
    assert(!type_text(v).contains('\n'));
    lemma_concat_plain("# Setting type: "@, type_text(v));
    let dline = default_line_of(e.default);
    if let Some(d) = e.default {
        assert(options_plain(d));
        lemma_value_plain(d);
        lemma_concat_plain("# Default value: "@, value_text(d));
    }
    assert(!dline.contains('\n'));
    let td = seq![tline, dline];
    assert(lines_plain(td));
    let opts = match value_options_of(v) {
        Some(o) => seq!["# Acceptable values: "@ + join(o, seq![',', ' '])],
        None => Seq::<Seq<char>>::empty(),
    };
    if let Some(o) = value_options_of(v) {
        lemma_join_plain(o, seq![',', ' ']);
        lemma_concat_plain("# Acceptable values: "@, join(o, seq![',', ' ']));
    }
    assert(lines_plain(opts));
    let extra = match v {
        ValueV::Flags(_, _) => seq![FLAGS_MESSAGE@],
        ValueV::Int(_, Some((a, b))) => seq![
            "# Acceptable value range: From "@ + crate::number::int_text(a as int) + " to "@
                + crate::number::int_text(b as int),
        ],
        ValueV::Float(_, Some((a, b))) => seq![
            "# Acceptable value range: From "@ + crate::number::decimal_text(a) + " to "@
                + crate::number::decimal_text(b),
        ],
        _ => Seq::<Seq<char>>::empty(),
    };
    match v {
        ValueV::Int(_, Some((a, b))) => {
            let ta = crate::number::int_text(a as int);
            let tb = crate::number::int_text(b as int);
            lemma_int_text_chars(a as int);
            lemma_int_text_chars(b as int);
            lemma_number_text_plain(ta);
            lemma_number_text_plain(tb);
            lemma_concat_plain("# Acceptable value range: From "@, ta);
            lemma_concat_plain("# Acceptable value range: From "@ + ta, " to "@);
            lemma_concat_plain("# Acceptable value range: From "@ + ta + " to "@, tb);
        },
        ValueV::Float(_, Some((a, b))) => {
            let ta = crate::number::decimal_text(a);
            let tb = crate::number::decimal_text(b);
            lemma_decimal_text_chars(a);
            lemma_decimal_text_chars(b);
            lemma_number_text_plain(ta);
            lemma_number_text_plain(tb);
            lemma_concat_plain("# Acceptable value range: From "@, ta);
            lemma_concat_plain("# Acceptable value range: From "@ + ta, " to "@);
            lemma_concat_plain("# Acceptable value range: From "@ + ta + " to "@, tb);
        },
        _ => {},
    }
    assert(lines_plain(extra));
    let eline = e.name + " = "@ + value_text(v);
    lemma_concat_plain(e.name, " = "@);
    lemma_concat_plain(e.name + " = "@, value_text(v));
    let tail = seq![eline, Seq::<char>::empty()];
    assert(lines_plain(tail));
    lemma_lines_append(descl, td);
    lemma_lines_append(descl + td, opts);
    lemma_lines_append(descl + td + opts, extra);
    lemma_lines_append(descl + td + opts + extra, tail);
    assert(entry_lines(e) == descl + td + opts + extra + tail);
}

pub open spec fn entry_writable(e: EntryV) -> bool {
    entry_ok(e) && entry_plain(e)
}

pub open spec fn section_writable(s: SectionV) -> bool {
    &&& !s.name.contains('\n')
    &&& forall|i: int| 0 <= i < s.entries.len() ==> entry_writable(#[trigger] s.entries[i])
}

proof fn lemma_entries_lines_plain(es: Seq<EntryV>)
    requires
        forall|i: int| 0 <= i < es.len() ==> entry_writable(#[trigger] es[i]),
    ensures
        lines_plain(entries_lines(es)),
    decreases es.len(),
{
    if es.len() > 0 {
        let init = es.drop_last();
        assert forall|i: int| 0 <= i < init.len() implies entry_writable(#[trigger] init[i]) by {
            assert(init[i] == es[i]);
        }
        lemma_entries_lines_plain(init);
        assert(entry_writable(es[es.len() - 1]));
        let e = es.last();
        assert(default_ok(e.default, e.value));
        lemma_entry_lines_plain(e);
        lemma_lines_append(entries_lines(init), entry_lines(e));
    }
}

proof fn lemma_sections_lines_plain(ss: Seq<SectionV>)
    requires
        forall|i: int| 0 <= i < ss.len() ==> section_writable(#[trigger] ss[i]),
    ensures
        lines_plain(sections_lines(ss)),
        ss.len() > 0 ==> sections_lines(ss).len() > 0,
    decreases ss.len(),
{
    lemma_line_literals_plain();
    if ss.len() > 0 {
        let init = ss.drop_last();
        assert forall|i: int| 0 <= i < init.len() implies section_writable(#[trigger] init[i]) by {
            assert(init[i] == ss[i]);
        }
        lemma_sections_lines_plain(init);
        let s = ss.last();
        assert(section_writable(ss[ss.len() - 1]));
        assert forall|i: int| 0 <= i < s.entries.len() implies entry_writable(#[trigger] s.entries[i]) by {}
        lemma_entries_lines_plain(s.entries);
        lemma_concat_plain("["@, s.name);
        lemma_concat_plain("["@ + s.name, "]"@);
        let head = seq!["["@ + s.name + "]"@, Seq::<char>::empty()];
        assert(lines_plain(head));
        lemma_lines_append(head, entries_lines(s.entries));
        lemma_lines_append(sections_lines(init), section_lines(s));
    }
}

} // verus!

verus! {

/// Whether a document's text reads back as the document: every section and
/// entry, with its description, default and value, survives writing and
/// reading (see `entry_ok`, `reads_back`, `desc_ok` and `options_read_back`
/// for what each part must satisfy), no name or metadata field holds a
/// newline, and the plugin version holds no space.
pub open spec fn writable(f: FileV) -> bool {
    &&& metadata_ok(f.metadata)
    &&& (f.metadata matches Some(m) ==> !m.mod_name.contains('\n') && !m.mod_version.contains('\n')
        && !m.mod_guid.contains('\n'))
    &&& forall|i: int| 0 <= i < f.sections.len() ==> section_writable(#[trigger] f.sections[i])
}

/// Reading back the written text of a writable document gives the same
/// document: the same metadata, and the same sections and entries, with
/// their descriptions, defaults and values, in the same order.
pub proof fn lemma_write_then_parse(f: FileV)
    requires
        writable(f),
    ensures
        parse_text(render(f)) == Some(f),
{
    lemma_line_literals_plain();
    let meta = metadata_lines(f.metadata);
    let secs = sections_lines(f.sections);
    let lines = meta + secs;
    let nl = seq!['\n'];
    assert forall|i: int| 0 <= i < f.sections.len() implies section_ok(#[trigger] f.sections[i]) by {
        assert(section_writable(f.sections[i]));
        assert forall|j: int| 0 <= j < f.sections[i].entries.len() implies entry_ok(
            #[trigger] f.sections[i].entries[j],
        ) by {
            assert(entry_writable(f.sections[i].entries[j]));
        }
    }
    lemma_sections_lines_plain(f.sections);
    assert(lines_plain(meta)) by {
        if let Some(m) = f.metadata {
            lemma_concat_plain("## Settings file was created by plugin "@, m.mod_name);
            lemma_concat_plain("## Settings file was created by plugin "@ + m.mod_name, " "@);
            lemma_concat_plain("## Settings file was created by plugin "@ + m.mod_name + " "@, m.mod_version);
            lemma_concat_plain("## Plugin GUID: "@, m.mod_guid);
        }
    }
    lemma_lines_append(meta, secs);
    lemma_metadata_block(f.metadata);
    let st = PState { metadata: f.metadata, ..initial_state() };
    lemma_sections_block(st, f.sections);
    lemma_steps_append(Some(initial_state()), meta, secs);
    if lines.len() == 0 {
        assert(f.metadata is None);
        assert(f.sections.len() == 0);
        assert(render(f) == Seq::<char>::empty());
        assert(crate::text::first_match(Seq::<char>::empty(), nl, 0) == -1);
        assert(Seq::<char>::empty().subrange(0, 0) == Seq::<char>::empty());
        assert(split(Seq::<char>::empty(), nl) == seq![Seq::<char>::empty()]);
        lemma_run_steps(seq![Seq::<char>::empty()]);
        lemma_steps_one(initial_state(), Seq::empty());
        assert(f.sections == Seq::<SectionV>::empty());
        assert(run(split(render(f), nl)) == Some(initial_state()));
        assert(finish(initial_state()) == f);
    } else {
        assert forall|i: int| 0 <= i < lines.len() implies !occurs(#[trigger] lines[i], nl) by {
            lemma_occurs_char(lines[i], '\n');
        }
        crate::text::lemma_split_join_sep(lines, nl);
        lemma_run_steps(lines);
        if f.sections.len() > 0 {
            assert(f.sections.drop_last().push(f.sections.last()) == f.sections);
        } else {
            assert(f.sections == Seq::<SectionV>::empty());
        }
        assert(finish(after_sections(st, f.sections)).sections == f.sections);
        assert(finish(after_sections(st, f.sections)).metadata == f.metadata);
        assert(split(render(f), nl) == lines);
        assert(run(lines) == Some(after_sections(st, f.sections)));
        assert(finish(after_sections(st, f.sections)) == f);
    }
}

/// Writing a writable document, reading the text back and writing again
/// gives the same text: the written form is a fixed point.
pub proof fn lemma_rewrite_is_fixed_point(f: FileV)
    requires
        writable(f),
    ensures
        parse_text(render(f)) matches Some(g) && render(g) == render(f),
{
    lemma_write_then_parse(f);
}

} // verus!
