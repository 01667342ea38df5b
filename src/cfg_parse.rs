use vstd::prelude::*;
use std::ops::Range;
use crate::bepinex_cfg::{EntryV, Entry, FileData, FileV, Metadata, MetadataV, Num, Section, SectionV, Value, ValueV, FLAGS_MESSAGE, strings_view, views};
use crate::number::{is_digit, parse_int_text, parse_decimal_text, parse_i32, parse_decimal};
use crate::text::{chars_of, first_match, find_from, join, join_chars, replace, same_chars, split, split_chars, string_of, trim, trim_chars, lemma_first_match, slice_chars, starts_with, has_prefix};

verus! {

/// Comment fields gathered for the entry that comes next.
pub struct BuilderV {
    pub setting_type: Option<Seq<char>>,
    pub default_value: Option<Seq<char>>,
    pub acceptable_values: Option<Seq<Seq<char>>>,
    pub is_flags: bool,
    pub range: Option<(Seq<char>, Seq<char>)>,
}

pub open spec fn empty_builder() -> BuilderV {
    BuilderV {
        setting_type: None,
        default_value: None,
        acceptable_values: None,
        is_flags: false,
        range: None,
    }
}

/// The type guessed from a value's first character.
pub open spec fn value_type_of(v: Seq<char>) -> Seq<char> {
    if v.len() > 0 && is_digit(v[0]) {
        if first_match(v, seq!['.'], 0) >= 0 {
            "Single"@
        } else {
            "Int32"@
        }
    } else if v.len() > 0 && (v[0] == 't' || v[0] == 'f') {
        "Boolean"@
    } else {
        "String"@
    }
}

/// The first position at or after `i` of `x` in `o`, or -1.
pub open spec fn position(o: Seq<Seq<char>>, x: Seq<char>, i: int) -> int
    decreases o.len() - i,
{
    if i < 0 || i >= o.len() {
        -1
    } else if o[i] == x {
        i
    } else {
        position(o, x, i + 1)
    }
}

/// The positions in `o` of the tokens that occur there, in token order.
pub open spec fn flag_positions(tokens: Seq<Seq<char>>, o: Seq<Seq<char>>) -> Seq<usize>
    decreases tokens.len(),
{
    if tokens.len() == 0 {
        Seq::empty()
    } else {
        let rest = flag_positions(tokens.drop_last(), o);
        let p = position(o, tokens.last(), 0);
        if p >= 0 {
            rest.push(p as usize)
        } else {
            rest
        }
    }
}

/// A value read against a list of options.
pub open spec fn parse_enum_text(raw: Seq<char>, o: Seq<Seq<char>>, is_flags: bool) -> ValueV {
    if is_flags {
        ValueV::Flags(flag_positions(split(raw, seq![',', ' ']), o), o)
    } else {
        let p = position(o, raw, 0);
        ValueV::Enum(
            if p >= 0 {
                p as usize
            } else {
                0
            },
            o,
        )
    }
}

pub open spec fn parse_bool_text(s: Seq<char>) -> Option<bool> {
    if trim(s) == "true"@ {
        Some(true)
    } else if trim(s) == "false"@ {
        Some(false)
    } else {
        None
    }
}

pub open spec fn int_value_text(raw: Seq<char>, range: Option<(Seq<char>, Seq<char>)>) -> Option<
    ValueV,
> {
    match parse_int_text(raw) {
        None => None,
        Some(v) => match range {
            None => Some(ValueV::Int(v, None)),
            Some((a, b)) => match (parse_int_text(a), parse_int_text(b)) {
                (Some(x), Some(y)) => Some(ValueV::Int(v, Some((x, y)))),
                _ => None,
            },
        },
    }
}

pub open spec fn float_value_text(raw: Seq<char>, range: Option<(Seq<char>, Seq<char>)>) -> Option<
    ValueV,
> {
    match parse_decimal_text(raw) {
        None => None,
        Some(v) => match range {
            None => Some(ValueV::Float(v, None)),
            Some((a, b)) => match (parse_decimal_text(a), parse_decimal_text(b)) {
                (Some(x), Some(y)) => Some(ValueV::Float(v, Some((x, y)))),
                _ => None,
            },
        },
    }
}

/// A value of the named type, or None where the text does not fit it.
pub open spec fn parse_simple_text(
    raw: Seq<char>,
    setting_type: Seq<char>,
    range: Option<(Seq<char>, Seq<char>)>,
) -> Option<ValueV> {
    if setting_type == "Boolean"@ {
        match parse_bool_text(raw) {
            Some(b) => Some(ValueV::Bool(b)),
            None => None,
        }
    } else if setting_type == "String"@ {
        Some(ValueV::Str(replace(raw, seq!['\\', 'n'], seq!['\n'])))
    } else if setting_type == "Int32"@ || setting_type == "Number"@ {
        int_value_text(raw, range)
    } else if setting_type == "Single"@ || setting_type == "Double"@ {
        float_value_text(raw, range)
    } else {
        Some(ValueV::Str(raw))
    }
}

/// A value read with the entry's comment fields.
pub open spec fn parse_value_text(raw: Seq<char>, b: BuilderV, setting_type: Seq<char>) -> Option<
    ValueV,
> {
    match b.acceptable_values {
        Some(o) => Some(parse_enum_text(raw, o, b.is_flags)),
        None => parse_simple_text(raw, setting_type, b.range),
    }
}

/// The entry made of the gathered fields, the description lines, the key
/// and the value text; None where the default or the value does not parse.
pub open spec fn build_entry(b: BuilderV, desc: Seq<Seq<char>>, name: Seq<char>, raw: Seq<char>) -> Option<
    EntryV,
> {
    let tn = match b.setting_type {
        Some(t) => t,
        None => value_type_of(raw),
    };
    let dflt: Option<Option<ValueV>> = match b.default_value {
        None => Some(None),
        Some(d) => match parse_value_text(d, b, tn) {
            Some(v) => Some(Some(v)),
            None => None,
        },
    };
    match (dflt, parse_value_text(raw, b, tn)) {
        (Some(d), Some(v)) => Some(
            EntryV {
                name,
                description: if desc.len() == 0 {
                    None
                } else {
                    Some(join(desc, seq!['\n']))
                },
                default: d,
                value: v,
            },
        ),
        _ => None,
    }
}

// ------------------------------------------------------------ exec, values

/// The type guessed from a value's first character: a digit gives `Single`
/// when a dot follows somewhere and `Int32` otherwise, `t` or `f` gives
/// `Boolean`, anything else `String`.
pub fn check_value_type(value: &[char]) -> (r: Vec<char>)
    ensures
        r@ == value_type_of(value@),
{
    if value.len() > 0 && '0' <= value[0] && value[0] <= '9' {
        let dot: Vec<char> = vec!['.'];
        let m = find_from(value, &dot, 0);
        assert(dot@ == seq!['.']);
        if m.is_some() {
            chars_of("Single")
        } else {
            chars_of("Int32")
        }
    } else if value.len() > 0 && (value[0] == 't' || value[0] == 'f') {
        chars_of("Boolean")
    } else {
        chars_of("String")
    }
}

fn position_of(o: &Vec<Vec<char>>, x: &[char]) -> (r: Option<usize>)
    ensures
        match r {
            Some(p) => p == position(views(o@), x@, 0),
            None => position(views(o@), x@, 0) == -1,
        },
{
    let mut i: usize = 0;
    while i < o.len()
        invariant
            i <= o.len(),
            position(views(o@), x@, 0) == position(views(o@), x@, i as int),
        decreases o.len() - i,
    {
        if same_chars(&o[i], x) {
            return Some(i);
        }
        i += 1;
    }
    None
}

fn strings_of(v: &Vec<Vec<char>>) -> (r: Vec<String>)
    ensures
        strings_view(r@) == views(v@),
{
    let mut out: Vec<String> = Vec::new();
    let mut i: usize = 0;
    while i < v.len()
        invariant
            i <= v.len(),
            strings_view(out@) == views(v@).take(i as int),
        decreases v.len() - i,
    {
        let s = string_of(&v[i]);
        let ghost sv = s@;
        let ghost o0 = out@;
        out.push(s);
        proof {
            assert(out@ == o0.push(s));
            assert(strings_view(out@) == strings_view(o0).push(sv));
            assert(views(v@).take(i + 1) == views(v@).take(i as int).push(v@[i as int]@));
        }
        i += 1;
    }
    assert(views(v@).take(v.len() as int) == views(v@));
    out
}

/// Reads a trimmed 32-bit number and, when given, its range.
fn parse_num_i32(value: &[char], range: Option<&(Vec<char>, Vec<char>)>) -> (r: Result<
    Num<i32>,
    String,
>)
    ensures
        match r {
            Ok(n) => int_value_text(
                value@,
                match range {
                    Some(p) => Some((p.0@, p.1@)),
                    None => None,
                },
            ) == Some(Value::Int(n)@),
            Err(_) => int_value_text(
                value@,
                match range {
                    Some(p) => Some((p.0@, p.1@)),
                    None => None,
                },
            ) is None,
        },
{
    let v = match parse_i32(value) {
        Some(v) => v,
        None => return Err(string_of(&chars_of("invalid digit found in string"))),
    };
    let range = match range {
        Some((min, max)) => {
            let a = match parse_i32(min) {
                Some(a) => a,
                None => return Err(string_of(&chars_of("invalid digit found in string"))),
            };
            let b = match parse_i32(max) {
                Some(b) => b,
                None => return Err(string_of(&chars_of("invalid digit found in string"))),
            };
            Some(Range { start: a, end: b })
        },
        None => None,
    };
    Ok(Num { value: v, range })
}

/// Reads a decimal number, commas read as dots, and, when given, its range.
fn parse_num_f32(value: &[char], range: Option<&(Vec<char>, Vec<char>)>) -> (r: Result<
    Num<crate::number::Decimal>,
    String,
>)
    ensures
        match r {
            Ok(n) => float_value_text(
                value@,
                match range {
                    Some(p) => Some((p.0@, p.1@)),
                    None => None,
                },
            ) == Some(Value::Float(n)@),
            Err(_) => float_value_text(
                value@,
                match range {
                    Some(p) => Some((p.0@, p.1@)),
                    None => None,
                },
            ) is None,
        },
{
    let v = match parse_decimal(value) {
        Some(v) => v,
        None => return Err(string_of(&chars_of("invalid float literal"))),
    };
    let range = match range {
        Some((min, max)) => {
            let a = match parse_decimal(min) {
                Some(a) => a,
                None => return Err(string_of(&chars_of("invalid float literal"))),
            };
            let b = match parse_decimal(max) {
                Some(b) => b,
                None => return Err(string_of(&chars_of("invalid float literal"))),
            };
            Some(Range { start: a, end: b })
        },
        None => None,
    };
    Ok(Num { value: v, range })
}

} // verus!

verus! {

/// Comment fields gathered for the entry that comes next.
pub struct EntryBuilder {
    pub setting_type: Option<Vec<char>>,
    pub default_value: Option<Vec<char>>,
    pub acceptable_values: Option<Vec<Vec<char>>>,
    pub is_flags: bool,
    pub range: Option<(Vec<char>, Vec<char>)>,
}

pub open spec fn opt_chars_view(v: Option<Vec<char>>) -> Option<Seq<char>> {
    match v {
        Some(s) => Some(s@),
        None => None,
    }
}

pub open spec fn pair_view(v: Option<(Vec<char>, Vec<char>)>) -> Option<(Seq<char>, Seq<char>)> {
    match v {
        Some(p) => Some((p.0@, p.1@)),
        None => None,
    }
}

impl View for EntryBuilder {
    type V = BuilderV;

    open spec fn view(&self) -> BuilderV {
        BuilderV {
            setting_type: opt_chars_view(self.setting_type),
            default_value: opt_chars_view(self.default_value),
            acceptable_values: match self.acceptable_values {
                Some(o) => Some(views(o@)),
                None => None,
            },
            is_flags: self.is_flags,
            range: pair_view(self.range),
        }
    }
}

fn is_lit(s: &[char], l: &str) -> (r: bool)
    ensures
        r == (s@ == l@),
{
    same_chars(s, &chars_of(l))
}

fn error_text(l: &str) -> String {
    string_of(&chars_of(l))
}

impl EntryBuilder {
    pub fn new() -> (r: EntryBuilder)
        ensures
            r@ == empty_builder(),
    {
        EntryBuilder {
            setting_type: None,
            default_value: None,
            acceptable_values: None,
            is_flags: false,
            range: None,
        }
    }

    /// A value read against a list of options: for flags, the positions of
    /// the `, `-separated names that occur among the options; otherwise the
    /// position of the exact name, or 0 where it does not occur.
    pub fn parse_enum(string: &[char], options: &Vec<Vec<char>>, is_flags: bool) -> (r: Value)
        ensures
            r@ == parse_enum_text(string@, views(options@), is_flags),
    {
        let opts = strings_of(options);
        if is_flags {
            let sep: Vec<char> = vec![',', ' '];
            let tokens = split_chars(string, &sep);
            assert(sep@ == seq![',', ' ']);
            let mut ix: Vec<usize> = Vec::new();
            let mut i: usize = 0;
            while i < tokens.len()
                invariant
                    i <= tokens.len(),
                    ix@ == flag_positions(views(tokens@).take(i as int), views(options@)),
                decreases tokens.len() - i,
            {
                let p = position_of(options, &tokens[i]);
                proof {
                    let t = views(tokens@).take(i + 1);
                    assert(t.drop_last() == views(tokens@).take(i as int));
                    assert(t.last() == tokens@[i as int]@);
                }
                match p {
                    Some(p) => {
                        ix.push(p);
                    },
                    None => {},
                }
                i += 1;
            }
            assert(views(tokens@).take(tokens.len() as int) == views(tokens@));
            Value::Flags { indicies: ix, options: opts }
        } else {
            let p = position_of(options, string);
            let index = match p {
                Some(p) => p,
                None => 0,
            };
            Value::Enum { index, options: opts }
        }
    }

    /// A value of the named type.
    pub fn parse_simple_value(
        value: &[char],
        setting_type: &[char],
        range: Option<&(Vec<char>, Vec<char>)>,
    ) -> (r: Result<Value, String>)
        ensures
            match r {
                Ok(v) => parse_simple_text(
                    value@,
                    setting_type@,
                    match range {
                        Some(p) => Some((p.0@, p.1@)),
                        None => None,
                    },
                ) == Some(v@),
                Err(_) => parse_simple_text(
                    value@,
                    setting_type@,
                    match range {
                        Some(p) => Some((p.0@, p.1@)),
                        None => None,
                    },
                ) is None,
            },
    {
        if is_lit(setting_type, "Boolean") {
            let t = trim_chars(value);
            if is_lit(&t, "true") {
                Ok(Value::Bool(true))
            } else if is_lit(&t, "false") {
                Ok(Value::Bool(false))
            } else {
                Err(error_text("provided string was not `true` or `false`"))
            }
        } else if is_lit(setting_type, "String") {
            let pat: Vec<char> = vec!['\\', 'n'];
            let nl: Vec<char> = vec!['\n'];
            let parts = split_chars(value, &pat);
            let joined = join_chars(&parts, &nl);
            assert(pat@ == seq!['\\', 'n']);
            assert(nl@ == seq!['\n']);
            Ok(Value::String(string_of(&joined)))
        } else if is_lit(setting_type, "Int32") || is_lit(setting_type, "Number") {
            match parse_num_i32(value, range) {
                Ok(n) => Ok(Value::Int(n)),
                Err(e) => Err(e),
            }
        } else if is_lit(setting_type, "Single") || is_lit(setting_type, "Double") {
            match parse_num_f32(value, range) {
                Ok(n) => Ok(Value::Float(n)),
                Err(e) => Err(e),
            }
        } else {
            Ok(Value::String(string_of(value)))
        }
    }

    /// A value read with the gathered comment fields.
    pub fn parse_value(&self, string: &[char], setting_type: &[char]) -> (r: Result<Value, String>)
        ensures
            match r {
                Ok(v) => parse_value_text(string@, self@, setting_type@) == Some(v@),
                Err(_) => parse_value_text(string@, self@, setting_type@) is None,
            },
    {
        match &self.acceptable_values {
            Some(options) => Ok(Self::parse_enum(string, options, self.is_flags)),
            None => Self::parse_simple_value(string, setting_type, self.range.as_ref()),
        }
    }

    /// The entry made of the gathered fields, the description lines, the key
    /// and the value text.
    pub fn build(&self, desc: &Vec<Vec<char>>, name: &[char], raw: &[char]) -> (r: Result<
        Entry,
        String,
    >)
        ensures
            match r {
                Ok(e) => build_entry(self@, views(desc@), name@, raw@) == Some(e@),
                Err(_) => build_entry(self@, views(desc@), name@, raw@) is None,
            },
    {
        let tn = match &self.setting_type {
            Some(t) => t.clone(),
            None => check_value_type(raw),
        };
        assert(tn@ == match self@.setting_type {
            Some(t) => t,
            None => value_type_of(raw@),
        });
        let default = match &self.default_value {
            Some(d) => match self.parse_value(d, &tn) {
                Ok(v) => Some(v),
                Err(e) => return Err(e),
            },
            None => None,
        };
        let value = match self.parse_value(raw, &tn) {
            Ok(v) => v,
            Err(e) => return Err(e),
        };
        let description = if desc.len() == 0 {
            None
        } else {
            let nl: Vec<char> = vec!['\n'];
            let j = join_chars(desc, &nl);
            assert(nl@ == seq!['\n']);
            Some(string_of(&j))
        };
        Ok(Entry { name: string_of(name), description, default, value })
    }
}

} // verus!

verus! {

/// What the parser holds between two lines.
pub struct PState {
    pub metadata: Option<MetadataV>,
    pub sections: Seq<SectionV>,
    pub current: Option<SectionV>,
    pub builder: BuilderV,
    pub desc: Seq<Seq<char>>,
    /// Plugin name and version of a header line whose GUID line comes next.
    pub header: Option<(Seq<char>, Seq<char>)>,
}

pub open spec fn initial_state() -> PState {
    PState {
        metadata: None,
        sections: Seq::empty(),
        current: None,
        builder: empty_builder(),
        desc: Seq::empty(),
        header: None,
    }
}

/// A line without its trailing carriage returns and newlines.
pub open spec fn strip_eol(l: Seq<char>) -> Seq<char>
    decreases l.len(),
{
    if l.len() > 0 && (l.last() == '\n' || l.last() == '\r') {
        strip_eol(l.drop_last())
    } else {
        l
    }
}

/// Name and version of a metadata header line: the version is the last
/// space-separated word, the name everything before it.
pub open spec fn read_metadata_text(line: Seq<char>) -> Option<(Seq<char>, Seq<char>)> {
    if starts_with(line, "## Settings file was created by plugin "@) {
        let parts = split(
            line.skip("## Settings file was created by plugin "@.len() as int),
            seq![' '],
        );
        if parts.len() < 2 {
            None
        } else {
            Some((join(parts.drop_last(), seq![' ']), parts.last()))
        }
    } else {
        None
    }
}

pub open spec fn guid_of(line: Seq<char>) -> Seq<char> {
    if starts_with(line, "## Plugin GUID: "@) {
        line.skip("## Plugin GUID: "@.len() as int)
    } else {
        Seq::empty()
    }
}

pub open spec fn is_section_line(l: Seq<char>) -> bool {
    l.len() >= 2 && l[0] == '[' && l.last() == ']'
}

/// A description line's text: without `##` and one space after it.
pub open spec fn desc_text(l: Seq<char>) -> Seq<char> {
    let r = l.skip(2);
    if r.len() > 0 && r[0] == ' ' {
        r.skip(1)
    } else {
        r
    }
}

/// Key and value text of an entry line, split at the first `=` and trimmed.
pub open spec fn entry_parts(l: Seq<char>) -> Option<(Seq<char>, Seq<char>)> {
    let k = first_match(l, seq!['='], 0);
    if k < 0 {
        None
    } else {
        Some((trim(l.take(k)), trim(l.skip(k + 1))))
    }
}

/// The builder after one `# ` comment, given the text after `# `.
pub open spec fn apply_meta(b: BuilderV, m: Seq<char>) -> BuilderV {
    if starts_with(m, "Setting type: "@) {
        BuilderV { setting_type: Some(m.skip("Setting type: "@.len() as int)), ..b }
    } else if starts_with(m, "Default value: "@) {
        BuilderV { default_value: Some(m.skip("Default value: "@.len() as int)), ..b }
    } else if m == "Default value:"@ {
        BuilderV { default_value: None, ..b }
    } else if starts_with(m, "Acceptable values: "@) {
        BuilderV {
            acceptable_values: Some(
                split(m.skip("Acceptable values: "@.len() as int), seq![',', ' ']),
            ),
            ..b
        }
    } else if starts_with(m, "Acceptable value range: From "@) {
        let r = m.skip("Acceptable value range: From "@.len() as int);
        let k = first_match(r, " to "@, 0);
        if k >= 0 {
            BuilderV { range: Some((r.take(k), r.skip(k + " to "@.len()))), ..b }
        } else {
            b
        }
    } else {
        b
    }
}

/// The state after one physical line, or None where the file is rejected.
pub open spec fn step(st: PState, line0: Seq<char>) -> Option<PState> {
    let line = strip_eol(line0);
    match st.header {
        Some((n, v)) => Some(
            PState {
                metadata: Some(MetadataV { mod_name: n, mod_version: v, mod_guid: guid_of(line) }),
                header: None,
                ..st
            },
        ),
        None => if line.len() == 0 {
            Some(st)
        } else if starts_with(line, "## Settings file was created by plugin "@) {
            Some(PState { header: read_metadata_text(line), ..st })
        } else if is_section_line(line) {
            Some(
                PState {
                    sections: match st.current {
                        Some(c) => st.sections.push(c),
                        None => st.sections,
                    },
                    current: Some(
                        SectionV { name: line.subrange(1, line.len() - 1), entries: Seq::empty() },
                    ),
                    ..st
                },
            )
        } else if starts_with(line, "##"@) {
            Some(PState { desc: st.desc.push(desc_text(line)), ..st })
        } else if line == FLAGS_MESSAGE@ {
            Some(PState { builder: BuilderV { is_flags: true, ..st.builder }, ..st })
        } else if starts_with(line, "# "@) {
            Some(PState { builder: apply_meta(st.builder, line.skip(2)), ..st })
        } else {
            match entry_parts(line) {
                None => Some(st),
                Some((name, raw)) => match build_entry(st.builder, st.desc, name, raw) {
                    None => None,
                    Some(e) => match st.current {
                        None => None,
                        Some(c) => Some(
                            PState {
                                current: Some(
                                    SectionV { name: c.name, entries: c.entries.push(e) },
                                ),
                                builder: empty_builder(),
                                desc: Seq::empty(),
                                ..st
                            },
                        ),
                    },
                },
            }
        },
    }
}

/// The state after the given lines, in order.
pub open spec fn run(lines: Seq<Seq<char>>) -> Option<PState>
    decreases lines.len(),
{
    if lines.len() == 0 {
        Some(initial_state())
    } else {
        match run(lines.drop_last()) {
            Some(st) => step(st, lines.last()),
            None => None,
        }
    }
}

proof fn lemma_run_stays_none(lines: Seq<Seq<char>>, i: int)
    requires
        0 <= i <= lines.len(),
        run(lines.take(i)) is None,
    ensures
        run(lines) is None,
    decreases lines.len() - i,
{
    if i < lines.len() {
        let t = lines.take(i + 1);
        assert(t.drop_last() == lines.take(i));
        lemma_run_stays_none(lines, i + 1);
    } else {
        assert(lines.take(i) == lines);
    }
}

/// The document once the input has ended: a header without its GUID line
/// gets an empty GUID, and the open section is closed.
pub open spec fn finish(st: PState) -> FileV {
    FileV {
        metadata: match st.header {
            Some((n, v)) => Some(MetadataV { mod_name: n, mod_version: v, mod_guid: Seq::empty() }),
            None => st.metadata,
        },
        sections: match st.current {
            Some(c) => st.sections.push(c),
            None => st.sections,
        },
    }
}

/// The document that a settings text denotes, or None where it is rejected.
pub open spec fn parse_text(t: Seq<char>) -> Option<FileV> {
    match run(split(t, seq!['\n'])) {
        Some(st) => Some(finish(st)),
        None => None,
    }
}

} // verus!

verus! {

/// Name and version of a metadata header line.
pub fn read_metadata_line(line: &[char]) -> (r: Option<(Vec<char>, Vec<char>)>)
    ensures
        pair_view(r) == read_metadata_text(line@),
{
    let prefix = chars_of("## Settings file was created by plugin ");
    if !has_prefix(line, &prefix) {
        return None;
    }
    let rest = slice_chars(line, prefix.len(), line.len());
    assert(rest@ == line@.skip("## Settings file was created by plugin "@.len() as int));
    let sp: Vec<char> = vec![' '];
    let mut parts = split_chars(&rest, &sp);
    assert(sp@ == seq![' ']);
    if parts.len() < 2 {
        return None;
    }
    let ghost pv = views(parts@);
    let version = parts.pop().unwrap();
    assert(views(parts@) == pv.drop_last());
    let name = join_chars(&parts, &sp);
    Some((name, version))
}

/// Key and value text of an entry line, split at the first `=` and trimmed.
pub fn parse_orphaned_entry_line(line: &[char]) -> (r: Option<(Vec<char>, Vec<char>)>)
    ensures
        pair_view(r) == entry_parts(line@),
{
    let eq: Vec<char> = vec!['='];
    let k = find_from(line, &eq, 0);
    assert(eq@ == seq!['=']);
    proof {
        lemma_first_match(line@, eq@, 0);
    }
    match k {
        None => None,
        Some(k) => {
            let name = trim_chars(&slice_chars(line, 0, k));
            let value = trim_chars(&slice_chars(line, k + 1, line.len()));
            assert(line@.subrange(0, k as int) == line@.take(k as int));
            assert(line@.subrange(k + 1, line.len() as int) == line@.skip(k + 1));
            Some((name, value))
        },
    }
}

fn strip_line_end(l: &[char]) -> (r: Vec<char>)
    ensures
        r@ == strip_eol(l@),
{
    let mut n: usize = l.len();
    assert(l@.subrange(0, n as int) == l@);
    while n > 0 && (l[n - 1] == '\n' || l[n - 1] == '\r')
        invariant
            n <= l.len(),
            strip_eol(l@) == strip_eol(l@.subrange(0, n as int)),
        decreases n,
    {
        assert(l@.subrange(0, n as int).drop_last() == l@.subrange(0, n - 1));
        n -= 1;
    }
    slice_chars(l, 0, n)
}

fn skip_chars(s: &[char], n: usize) -> (r: Vec<char>)
    requires
        n <= s.len(),
    ensures
        r@ == s@.skip(n as int),
{
    let r = slice_chars(s, n, s.len());
    assert(s@.subrange(n as int, s.len() as int) == s@.skip(n as int));
    r
}

impl EntryBuilder {
    /// Takes in one `# ` comment, given the text after `# `.
    fn apply_meta(&mut self, m: &[char])
        ensures
            final(self)@ == apply_meta(old(self)@, m@),
    {
        let p_type = chars_of("Setting type: ");
        let p_default = chars_of("Default value: ");
        let p_values = chars_of("Acceptable values: ");
        let p_range = chars_of("Acceptable value range: From ");
        if has_prefix(m, &p_type) {
            self.setting_type = Some(skip_chars(m, p_type.len()));
        } else if has_prefix(m, &p_default) {
            self.default_value = Some(skip_chars(m, p_default.len()));
        } else if is_lit(m, "Default value:") {
            self.default_value = None;
        } else if has_prefix(m, &p_values) {
            let rest = skip_chars(m, p_values.len());
            let sep: Vec<char> = vec![',', ' '];
            let parts = split_chars(&rest, &sep);
            assert(sep@ == seq![',', ' ']);
            self.acceptable_values = Some(parts);
        } else if has_prefix(m, &p_range) {
            let r = skip_chars(m, p_range.len());
            let to = chars_of(" to ");
            let k = find_from(&r, &to, 0);
            proof {
                lemma_first_match(r@, to@, 0);
            }
            match k {
                Some(k) => {
                    let a = slice_chars(&r, 0, k);
                    let b = skip_chars(&r, k + to.len());
                    assert(r@.subrange(0, k as int) == r@.take(k as int));
                    self.range = Some((a, b));
                },
                None => {},
            }
        }
    }
}

/// The parser between two lines.
struct LineParser {
    metadata: Option<Metadata>,
    sections: Vec<Section>,
    current: Option<Section>,
    builder: EntryBuilder,
    desc: Vec<Vec<char>>,
    header: Option<(Vec<char>, Vec<char>)>,
}

impl View for LineParser {
    type V = PState;

    closed spec fn view(&self) -> PState {
        PState {
            metadata: match self.metadata {
                Some(m) => Some(m@),
                None => None,
            },
            sections: self.sections@.map_values(|s: Section| s@),
            current: match self.current {
                Some(c) => Some(c@),
                None => None,
            },
            builder: self.builder@,
            desc: views(self.desc@),
            header: pair_view(self.header),
        }
    }
}

impl LineParser {
    fn new() -> (r: LineParser)
        ensures
            r@ == initial_state(),
    {
        let r = LineParser {
            metadata: None,
            sections: Vec::new(),
            current: None,
            builder: EntryBuilder::new(),
            desc: Vec::new(),
            header: None,
        };
        assert(r@.sections == Seq::<SectionV>::empty());
        assert(r@.desc == Seq::<Seq<char>>::empty());
        r
    }

    fn close_section(&mut self)
        ensures
            final(self)@ == (PState {
                sections: match old(self)@.current {
                    Some(c) => old(self)@.sections.push(c),
                    None => old(self)@.sections,
                },
                current: None,
                ..old(self)@
            }),
    {
        match self.current.take() {
            Some(sec) => {
                let ghost sv = sec@;
                self.sections.push(sec);
                assert(self.sections@.map_values(|s: Section| s@) == old(self)@.sections.push(sv));
            },
            None => {},
        }
    }

    /// Takes in one physical line.
    fn feed(&mut self, line0: &[char]) -> (r: Result<(), String>)
        ensures
            match r {
                Ok(()) => step(old(self)@, line0@) == Some(final(self)@),
                Err(_) => step(old(self)@, line0@) is None,
            },
    {
        let line = strip_line_end(line0);
        match self.header.take() {
            Some((n, v)) => {
                let gp = chars_of("## Plugin GUID: ");
                let guid = if has_prefix(&line, &gp) {
                    skip_chars(&line, gp.len())
                } else {
                    Vec::new()
                };
                assert(guid@ == guid_of(line@));
                self.metadata = Some(
                    Metadata { mod_name: string_of(&n), mod_version: string_of(&v), mod_guid: string_of(&guid) },
                );
                return Ok(());
            },
            None => {},
        }
        if line.len() == 0 {
            return Ok(());
        }
        if has_prefix(&line, &chars_of("## Settings file was created by plugin ")) {
            self.header = read_metadata_line(&line);
            return Ok(());
        }
        if line.len() >= 2 && line[0] == '[' && line[line.len() - 1] == ']' {
            self.close_section();
            let name = slice_chars(&line, 1, line.len() - 1);
            let sec = Section { name: string_of(&name), entries: Vec::new() };
            assert(sec@.entries == Seq::<EntryV>::empty());
            self.current = Some(sec);
            return Ok(());
        }
        if has_prefix(&line, &chars_of("##")) {
            proof {
                reveal_strlit("##");
            }
            let r = skip_chars(&line, 2);
            let t = if r.len() > 0 && r[0] == ' ' {
                skip_chars(&r, 1)
            } else {
                r
            };
            let ghost d0 = views(self.desc@);
            let ghost tv = t@;
            self.desc.push(t);
            assert(views(self.desc@) == d0.push(tv));
            return Ok(());
        }
        if is_lit(&line, FLAGS_MESSAGE) {
            self.builder.is_flags = true;
            return Ok(());
        }
        if has_prefix(&line, &chars_of("# ")) {
            proof {
                reveal_strlit("# ");
            }
            let m = skip_chars(&line, 2);
            self.builder.apply_meta(&m);
            return Ok(());
        }
        match parse_orphaned_entry_line(&line) {
            None => Ok(()),
            Some((name, raw)) => {
                let entry = match self.builder.build(&self.desc, &name, &raw) {
                    Ok(e) => e,
                    Err(e) => return Err(e),
                };
                match &mut self.current {
                    None => Err(error_text("entry has no section")),
                    Some(sec) => {
                        let ghost ev = entry@;
                        let ghost es0 = sec@.entries;
                        sec.entries.push(entry);
                        assert(sec@.entries == es0.push(ev));
                        self.builder = EntryBuilder::new();
                        self.desc = Vec::new();
                        assert(views(self.desc@) == Seq::<Seq<char>>::empty());
                        Ok(())
                    },
                }
            },
        }
    }

    fn into_file(self) -> (r: FileData)
        ensures
            r@ == finish(self@),
    {
        let mut me = self;
        me.close_section();
        let metadata = match me.header {
            Some((n, v)) => Some(
                Metadata { mod_name: string_of(&n), mod_version: string_of(&v), mod_guid: String::new() },
            ),
            None => me.metadata,
        };
        FileData { metadata, sections: me.sections }
    }
}

/// Reads a settings file: its optional metadata header and its sections of
/// typed entries. Fails where a boolean or a number does not parse, or where
/// an entry comes before any section.
pub fn parse(text: &str) -> (r: Result<FileData, String>)
    ensures
        match r {
            Ok(f) => parse_text(text@) == Some(f@),
            Err(_) => parse_text(text@) is None,
        },
{
    let chars = chars_of(text);
    let nl: Vec<char> = vec!['\n'];
    let lines = split_chars(&chars, &nl);
    assert(nl@ == seq!['\n']);
    let ghost lv = views(lines@);
    let mut p = LineParser::new();
    let mut i: usize = 0;
    while i < lines.len()
        invariant
            i <= lines.len(),
            lv == views(lines@),
            lv == split(text@, seq!['\n']),
            run(lv.take(i as int)) == Some(p@),
        decreases lines.len() - i,
    {
        let ghost before = p@;
        let r = p.feed(&lines[i]);
        proof {
            let t = lv.take(i + 1);
            assert(t.drop_last() == lv.take(i as int));
            assert(t.last() == lines@[i as int]@);
        }
        match r {
            Ok(()) => {},
            Err(e) => {
                proof {
                    lemma_run_stays_none(lv, i + 1);
                }
                return Err(e);
            },
        }
        i += 1;
    }
    assert(lv.take(lines.len() as int) == lv);
    Ok(p.into_file())
}

} // verus!
