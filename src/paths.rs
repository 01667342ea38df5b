use vstd::prelude::*;
use crate::text::{same_chars, string_chars};

verus! {

/// One component of a file path, as `std::path::Path::components` yields it.
#[derive(Debug, Clone)]
pub enum PathPart {
    /// A Windows drive or share prefix, with its text.
    Prefix(String),
    RootDir,
    CurDir,
    ParentDir,
    Normal(String),
}

pub enum PathPartV {
    Prefix(Seq<char>),
    RootDir,
    CurDir,
    ParentDir,
    Normal(Seq<char>),
}

impl View for PathPart {
    type V = PathPartV;

    open spec fn view(&self) -> PathPartV {
        match self {
            PathPart::Prefix(s) => PathPartV::Prefix(s@),
            PathPart::RootDir => PathPartV::RootDir,
            PathPart::CurDir => PathPartV::CurDir,
            PathPart::ParentDir => PathPartV::ParentDir,
            PathPart::Normal(s) => PathPartV::Normal(s@),
        }
    }
}

pub open spec fn parts_view(p: Seq<PathPart>) -> Seq<PathPartV> {
    p.map_values(|x: PathPart| x@)
}

/// Whether a relative path only names entries below its base: every part is
/// a plain name (no prefix, root, `.` or `..`).
pub fn is_safe_rel_path(parts: &[PathPart]) -> (r: bool)
    ensures
        r == forall|i: int| 0 <= i < parts.len() ==> (#[trigger] parts@[i]) is Normal,
{
    let mut i: usize = 0;
    while i < parts.len()
        invariant
            i <= parts.len(),
            forall|j: int| 0 <= j < i ==> (#[trigger] parts@[j]) is Normal,
        decreases parts.len() - i,
    {
        match &parts[i] {
            PathPart::Normal(_) => {},
            _ => return false,
        }
        i += 1;
    }
    true
}

/// The plain names of a path with its `.` parts dropped; None where it has
/// a prefix, a root or a `..`, or no name at all.
pub open spec fn sanitized(p: Seq<PathPartV>) -> Option<Seq<Seq<char>>>
    decreases p.len(),
{
    if p.len() == 0 {
        Some(Seq::empty())
    } else {
        match sanitized(p.drop_last()) {
            None => None,
            Some(names) => match p.last() {
                PathPartV::CurDir => Some(names),
                PathPartV::Normal(s) => Some(names.push(s)),
                _ => None,
            },
        }
    }
}

pub open spec fn sanitized_path(p: Seq<PathPartV>) -> Option<Seq<Seq<char>>> {
    match sanitized(p) {
        Some(names) => if names.len() == 0 {
            None
        } else {
            Some(names)
        },
        None => None,
    }
}

proof fn lemma_sanitized_none(p: Seq<PathPartV>, i: int)
    requires
        0 <= i <= p.len(),
        sanitized(p.take(i)) is None,
    ensures
        sanitized(p) is None,
    decreases p.len() - i,
{
    if i < p.len() {
        assert(p.take(i + 1).drop_last() == p.take(i));
        lemma_sanitized_none(p, i + 1);
    } else {
        assert(p.take(i) == p);
    }
}

/// The names of an archive entry's relative path, checked: `.` parts are
/// dropped, and a prefix, a root, a `..` or an empty result rejects it.
pub fn sanitize_tar_rel_path(parts: &[PathPart]) -> (r: Option<Vec<String>>)
    ensures
        match r {
            Some(names) => sanitized_path(parts_view(parts@)) == Some(names@.map_values(|s: String| s@)),
            None => sanitized_path(parts_view(parts@)) is None,
        },
{
    let ghost pv = parts_view(parts@);
    let mut out: Vec<String> = Vec::new();
    let mut i: usize = 0;
    while i < parts.len()
        invariant
            i <= parts.len(),
            pv == parts_view(parts@),
            sanitized(pv.take(i as int)) == Some(out@.map_values(|s: String| s@)),
        decreases parts.len() - i,
    {
        proof {
            assert(pv.take(i + 1).drop_last() == pv.take(i as int));
            assert(pv.take(i + 1).last() == parts@[i as int]@);
        }
        match &parts[i] {
            PathPart::CurDir => {},
            PathPart::Normal(s) => {
                let ghost o0 = out@;
                out.push(s.clone());
                assert(out@.map_values(|s: String| s@) == o0.map_values(|s: String| s@).push(s@));
            },
            _ => {
                proof {
                    lemma_sanitized_none(pv, i + 1);
                }
                return None;
            },
        }
        i += 1;
    }
    assert(pv.take(parts.len() as int) == pv);
    if out.len() == 0 {
        None
    } else {
        Some(out)
    }
}

/// How many leading components match the prefix names, one by one: the
/// prefix's length where all of them match, None otherwise.
pub fn strip_prefix_components(comps: &[String], prefix: &[String]) -> (r: Option<usize>)
    ensures
        match r {
            Some(n) => n == prefix.len() && prefix.len() <= comps.len() && forall|i: int|
                0 <= i < prefix.len() ==> #[trigger] comps@[i]@ == prefix@[i]@,
            None => prefix.len() > comps.len() || exists|i: int|
                0 <= i < prefix.len() && #[trigger] comps@[i]@ != prefix@[i]@,
        },
{
    if comps.len() < prefix.len() {
        return None;
    }
    let mut i: usize = 0;
    while i < prefix.len()
        invariant
            i <= prefix.len() <= comps.len(),
            forall|j: int| 0 <= j < i ==> #[trigger] comps@[j]@ == prefix@[j]@,
        decreases prefix.len() - i,
    {
        if !same_chars(&string_chars(&comps[i]), &string_chars(&prefix[i])) {
            return None;
        }
        i += 1;
    }
    Some(prefix.len())
}

} // verus!
