use vstd::prelude::*;
use std::ops::Range;
pub use crate::cfg_parse::parse;
use crate::number::{Decimal, decimal_text, int_text, push_decimal_text, push_int_text};
use crate::text::{chars_of, join, replace, split, split_chars, join_chars, string_chars, string_of};

verus! {

/// The comment line that marks a multi-choice entry.
pub const FLAGS_MESSAGE: &'static str =
    "# Multiple values can be set at the same time by separating them with , (e.g. Debug, Warning)";

/// A number with an optional half-open range of acceptable values.
#[derive(Debug, Clone)]
pub struct Num<T> {
    pub value: T,
    pub range: Option<Range<T>>,
}

/// The plugin that created a settings file.
#[derive(Debug, Clone)]
pub struct Metadata {
    pub mod_name: String,
    pub mod_version: String,
    pub mod_guid: String,
}

/// A whole settings file.
#[derive(Debug, Clone)]
pub struct FileData {
    pub metadata: Option<Metadata>,
    pub sections: Vec<Section>,
}

/// A `[name]` section and its entries, in file order.
#[derive(Debug, Clone)]
pub struct Section {
    pub name: String,
    pub entries: Vec<Entry>,
}

/// One setting: its key, comment, default and current value.
#[derive(Debug, Clone)]
pub struct Entry {
    pub name: String,
    pub description: Option<String>,
    pub default: Option<Value>,
    pub value: Value,
}

/// A typed setting value. Numbers that the file writes with a fraction are
/// held exactly as decimals.
#[derive(Debug, Clone)]
pub enum Value {
    Bool(bool),
    String(String),
    Int(Num<i32>),
    Float(Num<Decimal>),
    Enum { index: usize, options: Vec<String> },
    Flags { indicies: Vec<usize>, options: Vec<String> },
}

/// The mathematical content of a `Value`.
pub enum ValueV {
    Bool(bool),
    Str(Seq<char>),
    Int(i32, Option<(i32, i32)>),
    Float(Decimal, Option<(Decimal, Decimal)>),
    Enum(usize, Seq<Seq<char>>),
    Flags(Seq<usize>, Seq<Seq<char>>),
}

pub struct MetadataV {
    pub mod_name: Seq<char>,
    pub mod_version: Seq<char>,
    pub mod_guid: Seq<char>,
}

pub struct EntryV {
    pub name: Seq<char>,
    pub description: Option<Seq<char>>,
    pub default: Option<ValueV>,
    pub value: ValueV,
}

pub struct SectionV {
    pub name: Seq<char>,
    pub entries: Seq<EntryV>,
}

pub struct FileV {
    pub metadata: Option<MetadataV>,
    pub sections: Seq<SectionV>,
}

pub open spec fn range_view<T>(r: Option<Range<T>>) -> Option<(T, T)> {
    match r {
        Some(r) => Some((r.start, r.end)),
        None => None,
    }
}

pub open spec fn strings_view(v: Seq<String>) -> Seq<Seq<char>> {
    v.map_values(|s: String| s@)
}

pub open spec fn opt_string_view(v: Option<String>) -> Option<Seq<char>> {
    match v {
        Some(s) => Some(s@),
        None => None,
    }
}

pub open spec fn opt_value_view(v: Option<Value>) -> Option<ValueV> {
    match v {
        Some(x) => Some(x@),
        None => None,
    }
}

impl View for Value {
    type V = ValueV;

    open spec fn view(&self) -> ValueV {
        match self {
            Value::Bool(b) => ValueV::Bool(*b),
            Value::String(s) => ValueV::Str(s@),
            Value::Int(n) => ValueV::Int(n.value, range_view(n.range)),
            Value::Float(n) => ValueV::Float(n.value, range_view(n.range)),
            Value::Enum { index, options } => ValueV::Enum(*index, strings_view(options@)),
            Value::Flags { indicies, options } => ValueV::Flags(
                indicies@,
                strings_view(options@),
            ),
        }
    }
}

impl View for Metadata {
    type V = MetadataV;

    open spec fn view(&self) -> MetadataV {
        MetadataV { mod_name: self.mod_name@, mod_version: self.mod_version@, mod_guid: self.mod_guid@ }
    }
}

impl View for Entry {
    type V = EntryV;

    open spec fn view(&self) -> EntryV {
        EntryV {
            name: self.name@,
            description: opt_string_view(self.description),
            default: opt_value_view(self.default),
            value: self.value@,
        }
    }
}

impl View for Section {
    type V = SectionV;

    open spec fn view(&self) -> SectionV {
        SectionV { name: self.name@, entries: self.entries@.map_values(|e: Entry| e@) }
    }
}

impl View for FileData {
    type V = FileV;

    open spec fn view(&self) -> FileV {
        FileV {
            metadata: match self.metadata {
                Some(m) => Some(m@),
                None => None,
            },
            sections: self.sections@.map_values(|s: Section| s@),
        }
    }
}

pub open spec fn views(v: Seq<Vec<char>>) -> Seq<Seq<char>> {
    v.map_values(|p: Vec<char>| p@)
}

fn push_line(lines: &mut Vec<Vec<char>>, l: Vec<char>)
    ensures
        views(final(lines)@) == views(old(lines)@).push(l@),
{
    let ghost l_view = l@;
    lines.push(l);
    assert(views(lines@) == views(old(lines)@).push(l_view));
}

fn strings_chars(v: &Vec<String>) -> (r: Vec<Vec<char>>)
    ensures
        views(r@) == strings_view(v@),
{
    let mut out: Vec<Vec<char>> = Vec::new();
    let mut i: usize = 0;
    while i < v.len()
        invariant
            i <= v.len(),
            views(out@) == strings_view(v@).take(i as int),
        decreases v.len() - i,
    {
        push_line(&mut out, string_chars(&v[i]));
        i += 1;
        assert(strings_view(v@).take(i as int) == strings_view(v@).take(i - 1).push(v@[i - 1]@));
    }
    assert(strings_view(v@).take(v.len() as int) == strings_view(v@));
    out
}

// ---------------------------------------------------------------- rendering

/// The option names at the given positions, skipping positions out of range.
pub open spec fn picked(ix: Seq<usize>, options: Seq<Seq<char>>) -> Seq<Seq<char>>
    decreases ix.len(),
{
    if ix.len() == 0 {
        Seq::empty()
    } else {
        let rest = picked(ix.drop_last(), options);
        if ix.last() < options.len() {
            rest.push(options[ix.last() as int])
        } else {
            rest
        }
    }
}

/// How a value is written after `name = `.
pub open spec fn value_text(v: ValueV) -> Seq<char> {
    match v {
        ValueV::Bool(b) => if b {
            "true"@
        } else {
            "false"@
        },
        ValueV::Str(s) => replace(s, seq!['\n'], seq!['\\', 'n']),
        ValueV::Int(n, _) => int_text(n as int),
        ValueV::Float(d, _) => decimal_text(d),
        ValueV::Enum(i, o) => if i < o.len() {
            o[i as int]
        } else {
            Seq::empty()
        },
        ValueV::Flags(ix, o) => if ix.len() == 0 {
            seq!['0']
        } else {
            join(picked(ix, o), seq![',', ' '])
        },
    }
}

fn picked_options(ix: &Vec<usize>, options: &Vec<Vec<char>>) -> (r: Vec<Vec<char>>)
    ensures
        views(r@) == picked(ix@, views(options@)),
{
    let mut out: Vec<Vec<char>> = Vec::new();
    let mut i: usize = 0;
    while i < ix.len()
        invariant
            i <= ix.len(),
            views(out@) == picked(ix@.take(i as int), views(options@)),
        decreases ix.len() - i,
    {
        assert(ix@.take(i + 1).drop_last() == ix@.take(i as int));
        if ix[i] < options.len() {
            push_line(&mut out, options[ix[i]].clone());
        }
        i += 1;
    }
    assert(ix@.take(ix.len() as int) == ix@);
    out
}

/// Appends the text of a string value, each newline written as `\n`.
fn push_escaped(out: &mut Vec<char>, s: &String)
    ensures
        final(out)@ == old(out)@ + replace(s@, seq!['\n'], seq!['\\', 'n']),
{
    let cs = string_chars(s);
    let nl: Vec<char> = vec!['\n'];
    let parts = split_chars(&cs, &nl);
    let esc: Vec<char> = vec!['\\', 'n'];
    let mut joined = join_chars(&parts, &esc);
    proof {
        assert(nl@ == seq!['\n']);
        assert(esc@ == seq!['\\', 'n']);
    }
    out.append(&mut joined);
}

/// Appends how `v` is written after `name = `.
pub fn push_value_text(out: &mut Vec<char>, v: &Value)
    ensures
        final(out)@ == old(out)@ + value_text(v@),
{
    match v {
        Value::Bool(b) => {
            let mut t = if *b {
                chars_of("true")
            } else {
                chars_of("false")
            };
            out.append(&mut t);
        },
        Value::String(s) => {
            push_escaped(out, s);
        },
        Value::Int(n) => {
            push_int_text(out, n.value);
        },
        Value::Float(n) => {
            push_decimal_text(out, n.value);
        },
        Value::Enum { index, options } => {
            if *index < options.len() {
                let mut t = string_chars(&options[*index]);
                out.append(&mut t);
            } else {
                assert(old(out)@ + Seq::<char>::empty() == old(out)@);
            }
        },
        Value::Flags { indicies, options } => {
            if indicies.len() == 0 {
                out.push('0');
                assert(out@ == old(out)@ + seq!['0']);
            } else {
                let opts = strings_chars(options);
                let picked = picked_options(indicies, &opts);
                let sep: Vec<char> = vec![',', ' '];
                let mut t = join_chars(&picked, &sep);
                assert(sep@ == seq![',', ' ']);
                out.append(&mut t);
            }
        },
    }
}

/// The text after `name = ` for `v`.
pub fn value_to_string(v: &Value) -> (r: String)
    ensures
        r@ == value_text(v@),
{
    let mut out: Vec<char> = Vec::new();
    push_value_text(&mut out, v);
    assert(out@ == value_text(v@));
    string_of(&out)
}

} // verus!

verus! {

/// The type named in `# Setting type:` for a value.
pub open spec fn type_text(v: ValueV) -> Seq<char> {
    match v {
        ValueV::Bool(_) => "Boolean"@,
        ValueV::Int(_, _) => "Int32"@,
        ValueV::Float(_, _) => "Single"@,
        _ => "String"@,
    }
}

pub open spec fn prefixed(p: Seq<char>, lines: Seq<Seq<char>>) -> Seq<Seq<char>> {
    lines.map_values(|l: Seq<char>| p + l)
}

pub open spec fn value_options_of(v: ValueV) -> Option<Seq<Seq<char>>> {
    match v {
        ValueV::Enum(_, o) => Some(o),
        ValueV::Flags(_, o) => Some(o),
        _ => None,
    }
}

pub open spec fn default_line_of(d: Option<ValueV>) -> Seq<char> {
    match d {
        Some(d) => "# Default value: "@ + value_text(d),
        None => "# Default value:"@,
    }
}

/// The comment lines written above an entry.
pub open spec fn comment_lines(e: EntryV) -> Seq<Seq<char>> {
    let desc = match e.description {
        Some(d) => prefixed("## "@, split(d, seq!['\n'])),
        None => Seq::empty(),
    };
    let default_line = default_line_of(e.default);
    let opts = match value_options_of(e.value) {
        Some(o) => seq!["# Acceptable values: "@ + join(o, seq![',', ' '])],
        None => Seq::empty(),
    };
    let extra = match e.value {
        ValueV::Flags(_, _) => seq![FLAGS_MESSAGE@],
        ValueV::Int(_, Some((a, b))) => seq![
            "# Acceptable value range: From "@ + int_text(a as int) + " to "@ + int_text(b as int),
        ],
        ValueV::Float(_, Some((a, b))) => seq![
            "# Acceptable value range: From "@ + decimal_text(a) + " to "@ + decimal_text(b),
        ],
        _ => Seq::empty(),
    };
    desc + seq!["# Setting type: "@ + type_text(e.value), default_line] + opts + extra
}

/// All lines written for an entry, ending with a blank line.
pub open spec fn entry_lines(e: EntryV) -> Seq<Seq<char>> {
    comment_lines(e) + seq![e.name + " = "@ + value_text(e.value), Seq::empty()]
}

pub open spec fn entries_lines(es: Seq<EntryV>) -> Seq<Seq<char>>
    decreases es.len(),
{
    if es.len() == 0 {
        Seq::empty()
    } else {
        entries_lines(es.drop_last()) + entry_lines(es.last())
    }
}

pub open spec fn section_lines(s: SectionV) -> Seq<Seq<char>> {
    seq!["["@ + s.name + "]"@, Seq::empty()] + entries_lines(s.entries)
}

pub open spec fn sections_lines(ss: Seq<SectionV>) -> Seq<Seq<char>>
    decreases ss.len(),
{
    if ss.len() == 0 {
        Seq::empty()
    } else {
        sections_lines(ss.drop_last()) + section_lines(ss.last())
    }
}

pub open spec fn metadata_lines(m: Option<MetadataV>) -> Seq<Seq<char>> {
    match m {
        Some(m) => seq![
            "## Settings file was created by plugin "@ + m.mod_name + " "@ + m.mod_version,
            "## Plugin GUID: "@ + m.mod_guid,
            Seq::empty(),
        ],
        None => Seq::empty(),
    }
}

/// The canonical text of a settings file: its lines joined by newlines.
pub open spec fn render(f: FileV) -> Seq<char> {
    join(metadata_lines(f.metadata) + sections_lines(f.sections), seq!['\n'])
}

fn cat3(a: &str, b: &[char], c: &str) -> (r: Vec<char>)
    ensures
        r@ == a@ + b@ + c@,
{
    let mut out = chars_of(a);
    out.extend_from_slice(b);
    let mut tail = chars_of(c);
    out.append(&mut tail);
    out
}

fn lit(a: &str) -> (r: Vec<char>)
    ensures
        r@ == a@,
{
    chars_of(a)
}

/// The type named in `# Setting type:` for the entry's value.
fn infer_type_name(entry: &Entry) -> (r: Vec<char>)
    ensures
        r@ == type_text(entry.value@),
{
    match &entry.value {
        Value::Bool(_) => lit("Boolean"),
        Value::Int(_) => lit("Int32"),
        Value::Float(_) => lit("Single"),
        _ => lit("String"),
    }
}

/// The option list of an enum or flags value.
fn value_options(entry: &Entry) -> (r: Option<&Vec<String>>)
    ensures
        match r {
            Some(o) => value_options_of(entry.value@) == Some(strings_view(o@)),
            None => value_options_of(entry.value@) is None,
        },
{
    match &entry.value {
        Value::Enum { options, .. } => Some(options),
        Value::Flags { options, .. } => Some(options),
        _ => None,
    }
}

fn push_all(lines: &mut Vec<Vec<char>>, more: Vec<Vec<char>>)
    ensures
        views(final(lines)@) == views(old(lines)@) + views(more@),
{
    let ghost m = more@;
    let mut more = more;
    lines.append(&mut more);
    assert(views(lines@) == views(old(lines)@) + views(m));
}

/// The comment lines written above an entry.
fn render_entry_comments(entry: &Entry) -> (r: Vec<Vec<char>>)
    ensures
        views(r@) == comment_lines(entry@),
{
    let mut out: Vec<Vec<char>> = Vec::new();
    match &entry.description {
        Some(desc) => {
            let d = string_chars(desc);
            let nl: Vec<char> = vec!['\n'];
            let parts = split_chars(&d, &nl);
            assert(nl@ == seq!['\n']);
            let mut i: usize = 0;
            while i < parts.len()
                invariant
                    i <= parts.len(),
                    views(parts@) == split(d@, seq!['\n']),
                    views(out@) == prefixed("## "@, views(parts@)).take(i as int),
                decreases parts.len() - i,
            {
                let mut l = lit("## ");
                let mut p = parts[i].clone();
                l.append(&mut p);
                push_line(&mut out, l);
                i += 1;
                assert(prefixed("## "@, views(parts@)).take(i as int) == prefixed(
                    "## "@,
                    views(parts@),
                ).take(i - 1).push("## "@ + parts@[i - 1]@));
            }
            assert(prefixed("## "@, views(parts@)).take(parts.len() as int) == prefixed(
                "## "@,
                views(parts@),
            ));
        },
        None => {},
    }
    let ghost desc_lines = views(out@);
    let tn = infer_type_name(entry);
    let mut tl = lit("# Setting type: ");
    let ghost tl0 = tl@;
    tl.extend_from_slice(&tn);
    assert(tl@ == tl0 + tn@);
    assert(tl@ == "# Setting type: "@ + type_text(entry.value@));
    push_line(&mut out, tl);
    let ghost with_type = views(out@);
    assert(with_type == desc_lines.push("# Setting type: "@ + type_text(entry.value@)));
    match &entry.default {
        Some(d) => {
            let mut l = lit("# Default value: ");
            push_value_text(&mut l, d);
            assert(l@ == default_line_of(entry@.default));
            push_line(&mut out, l);
        },
        None => {
            push_line(&mut out, lit("# Default value:"));
        },
    }
    assert(views(out@) == with_type.push(default_line_of(entry@.default)));
    proof {
        let x = "# Setting type: "@ + type_text(entry.value@);
        let y = default_line_of(entry@.default);
        assert(views(out@) == desc_lines.push(x).push(y));
        assert(desc_lines + seq![x, y] == desc_lines.push(x).push(y));
    }
    let ghost head = views(out@);
    match value_options(entry) {
        Some(opts) => {
            let o = strings_chars(opts);
            let sep: Vec<char> = vec![',', ' '];
            let mut j = join_chars(&o, &sep);
            assert(sep@ == seq![',', ' ']);
            let mut l = lit("# Acceptable values: ");
            l.append(&mut j);
            push_line(&mut out, l);
        },
        None => {},
    }
    let ghost with_opts = views(out@);
    match &entry.value {
        Value::Flags { .. } => {
            push_line(&mut out, lit(FLAGS_MESSAGE));
        },
        Value::Int(n) => {
            match &n.range {
                Some(r) => {
                    let mut l = lit("# Acceptable value range: From ");
                    push_int_text(&mut l, r.start);
                    let mut t = lit(" to ");
                    l.append(&mut t);
                    push_int_text(&mut l, r.end);
                    push_line(&mut out, l);
                },
                None => {},
            }
        },
        Value::Float(n) => {
            match &n.range {
                Some(r) => {
                    let mut l = lit("# Acceptable value range: From ");
                    push_decimal_text(&mut l, r.start);
                    let mut t = lit(" to ");
                    l.append(&mut t);
                    push_decimal_text(&mut l, r.end);
                    push_line(&mut out, l);
                },
                None => {},
            }
        },
        _ => {},
    }
    proof {
        let e = entry@;
        let opts = match value_options_of(e.value) {
            Some(o) => seq!["# Acceptable values: "@ + join(o, seq![',', ' '])],
            None => Seq::<Seq<char>>::empty(),
        };
        assert(with_opts == head + opts);
        assert(views(out@) == comment_lines(e));
    }
    out
}

/// The canonical text of a settings file. Rendering never fails.
pub fn write(file: &FileData) -> (r: Result<String, String>)
    ensures
        r matches Ok(s) && s@ == render(file@),
{
    let mut out: Vec<Vec<char>> = Vec::new();
    match &file.metadata {
        Some(m) => {
            let mut l = lit("## Settings file was created by plugin ");
            let mut n = string_chars(&m.mod_name);
            l.append(&mut n);
            let mut sp = lit(" ");
            l.append(&mut sp);
            let mut v = string_chars(&m.mod_version);
            l.append(&mut v);
            push_line(&mut out, l);
            let mut g = lit("## Plugin GUID: ");
            let mut gv = string_chars(&m.mod_guid);
            g.append(&mut gv);
            push_line(&mut out, g);
            push_line(&mut out, Vec::new());
            assert(views(out@) == metadata_lines(file@.metadata));
        },
        None => {
            assert(views(out@) == metadata_lines(file@.metadata));
        },
    }
    let ghost meta = views(out@);
    let ghost secs = file@.sections;
    let mut i: usize = 0;
    while i < file.sections.len()
        invariant
            i <= file.sections.len(),
            secs == file@.sections,
            secs.len() == file.sections.len(),
            views(out@) == meta + sections_lines(secs.take(i as int)),
        decreases file.sections.len() - i,
    {
        let section = &file.sections[i];
        let ghost before = views(out@);
        push_line(&mut out, cat3("[", &string_chars(&section.name), "]"));
        push_line(&mut out, Vec::new());
        let ghost ents = section@.entries;
        let mut j: usize = 0;
        while j < section.entries.len()
            invariant
                j <= section.entries.len(),
                ents == section@.entries,
                ents.len() == section.entries.len(),
                views(out@) == before + seq!["["@ + section@.name + "]"@, Seq::<char>::empty()]
                    + entries_lines(ents.take(j as int)),
            decreases section.entries.len() - j,
        {
            let entry = &section.entries[j];
            let ghost b2 = views(out@);
            push_all(&mut out, render_entry_comments(entry));
            let mut l = string_chars(&entry.name);
            let mut eq = lit(" = ");
            l.append(&mut eq);
            push_value_text(&mut l, &entry.value);
            push_line(&mut out, l);
            push_line(&mut out, Vec::new());
            proof {
                assert(ents[j as int] == entry@);
                assert(ents.take(j + 1).drop_last() == ents.take(j as int));
                assert(views(out@) == b2 + entry_lines(entry@));
            }
            j += 1;
        }
        proof {
            assert(ents.take(ents.len() as int) == ents);
            assert(secs[i as int] == section@);
            assert(secs.take(i + 1).drop_last() == secs.take(i as int));
        }
        i += 1;
    }
    assert(secs.take(secs.len() as int) == secs);
    let nl: Vec<char> = vec!['\n'];
    let text = join_chars(&out, &nl);
    assert(nl@ == seq!['\n']);
    Ok(string_of(&text))
}

} // verus!

verus! {

/// The first position at or after `i` of a section named `name`, or -1.
pub open spec fn section_position(ss: Seq<SectionV>, name: Seq<char>, i: int) -> int
    decreases ss.len() - i,
{
    if i < 0 || i >= ss.len() {
        -1
    } else if ss[i].name == name {
        i
    } else {
        section_position(ss, name, i + 1)
    }
}

/// The first position at or after `i` of an entry named `name`, or -1.
pub open spec fn entry_position(es: Seq<EntryV>, name: Seq<char>, i: int) -> int
    decreases es.len() - i,
{
    if i < 0 || i >= es.len() {
        -1
    } else if es[i].name == name {
        i
    } else {
        entry_position(es, name, i + 1)
    }
}

/// The entries with the first one named `name` given the value `v`, or, where
/// none is so named, with a new entry of that name and value at the end.
pub open spec fn with_entry_value(es: Seq<EntryV>, name: Seq<char>, v: ValueV) -> Seq<EntryV> {
    let k = entry_position(es, name, 0);
    if k >= 0 {
        es.update(k, EntryV { value: v, ..es[k] })
    } else {
        es.push(EntryV { name, description: None, default: None, value: v })
    }
}

/// The document with entry `name` of section `sec` set to `v`; the section is
/// added at the end where it is missing.
pub open spec fn with_setting(f: FileV, sec: Seq<char>, name: Seq<char>, v: ValueV) -> FileV {
    let k = section_position(f.sections, sec, 0);
    let ss = if k >= 0 {
        f.sections
    } else {
        f.sections.push(SectionV { name: sec, entries: Seq::empty() })
    };
    let at = if k >= 0 {
        k
    } else {
        f.sections.len() as int
    };
    FileV {
        sections: ss.update(
            at,
            SectionV { entries: with_entry_value(ss[at].entries, name, v), ..ss[at] },
        ),
        ..f
    }
}

pub proof fn lemma_position_bounds(ss: Seq<SectionV>, name: Seq<char>, i: int)
    ensures
        section_position(ss, name, i) == -1 || (i <= section_position(ss, name, i) < ss.len()
            && ss[section_position(ss, name, i)].name == name),
    decreases ss.len() - i,
{
    if 0 <= i < ss.len() && ss[i].name != name {
        lemma_position_bounds(ss, name, i + 1);
    }
}

pub proof fn lemma_entry_position_bounds(es: Seq<EntryV>, name: Seq<char>, i: int)
    ensures
        entry_position(es, name, i) == -1 || (i <= entry_position(es, name, i) < es.len()
            && es[entry_position(es, name, i)].name == name),
    decreases es.len() - i,
{
    if 0 <= i < es.len() && es[i].name != name {
        lemma_entry_position_bounds(es, name, i + 1);
    }
}

/// Sets entry `entry` of section `section` to `value`, adding the section
/// and the entry where they are missing. Other entries are left as they are.
pub fn set_entry_value(file: &mut FileData, section: &String, entry: &String, value: Value)
    ensures
        final(file)@ == with_setting(old(file)@, section@, entry@, value@),
{
    let ghost f0 = file@;
    let mut k: usize = 0;
    while k < file.sections.len() && !(file.sections[k].name == *section)
        invariant
            k <= file.sections.len(),
            file@ == f0,
            section_position(f0.sections, section@, 0) == section_position(
                f0.sections,
                section@,
                k as int,
            ),
        decreases file.sections.len() - k,
    {
        k += 1;
    }
    proof {
        lemma_position_bounds(f0.sections, section@, 0);
    }
    if k == file.sections.len() {
        let ghost s0 = file.sections@;
        file.sections.push(Section { name: section.clone(), entries: Vec::new() });
        proof {
            assert(file.sections@ == s0.push(file.sections@.last()));
            assert(file.sections@.last()@.entries == Seq::<EntryV>::empty());
            assert(file.sections@.map_values(|s: Section| s@) == f0.sections.push(
                SectionV { name: section@, entries: Seq::empty() },
            ));
        }
    }
    let ghost mid = file@;
    let mut sec = file.sections.remove(k);
    let ghost sv = sec@;
    assert(sv == mid.sections[k as int]);
    let ghost es0 = sv.entries;
    let mut j: usize = 0;
    while j < sec.entries.len() && !(sec.entries[j].name == *entry)
        invariant
            j <= sec.entries.len(),
            sec@ == sv,
            es0 == sec.entries@.map_values(|e: Entry| e@),
            entry_position(es0, entry@, 0) == entry_position(es0, entry@, j as int),
        decreases sec.entries.len() - j,
    {
        j += 1;
    }
    proof {
        lemma_entry_position_bounds(es0, entry@, 0);
    }
    let ghost vv = value@;
    if j < sec.entries.len() {
        let mut e = sec.entries.remove(j);
        let ghost ev = e@;
        e.value = value;
        sec.entries.insert(j, e);
        proof {
            assert(sec@.entries == es0.update(j as int, EntryV { value: vv, ..ev }));
        }
    } else {
        let ghost e0 = sec.entries@;
        sec.entries.push(Entry { name: entry.clone(), description: None, default: None, value });
        proof {
            assert(sec.entries@ == e0.push(sec.entries@.last()));
            assert(sec@.entries == es0.push(EntryV { name: entry@, description: None, default: None, value: vv }));
        }
    }
    let ghost secv = sec@;
    assert(secv == SectionV { entries: with_entry_value(es0, entry@, vv), ..sv });
    assert(mid.sections == (if section_position(f0.sections, section@, 0) >= 0 {
        f0.sections
    } else {
        f0.sections.push(SectionV { name: section@, entries: Seq::empty() })
    }));
    let ghost rest = file.sections@;
    file.sections.insert(k, sec);
    proof {
        assert(file.sections@ == rest.insert(k as int, file.sections@[k as int]));
        assert(file@.sections == mid.sections.update(k as int, secv));
        assert(file@.metadata == f0.metadata);
    }
}

} // verus!

verus! {

/// Package metadata of an installed plugin: name, version and dependencies.
#[derive(Debug, Clone)]
pub struct BepInExManifest {
    pub name: String,
    pub description: String,
    pub version_number: String,
    pub dependencies: Vec<String>,
    pub website_url: String,
}

} // verus!
