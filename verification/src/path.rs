//! Path rules: normalising `.` and `..`, joining, and the parent directory.
//!
//! How a path string splits into components, and how components join back
//! into a string, is the platform's (std's `Path`); the decisions made on the
//! components are this module's and are verified.

use vstd::prelude::*;
use std::path::PathBuf;
use crate::text::contains_seq;

verus! {

/// One component of a path, with the text it stands for.
pub enum PathPart {
    /// A Windows prefix such as `C:`.
    Prefix(String),
    /// The root separator.
    Root(String),
    /// `.`
    Current,
    /// `..`
    Parent,
    /// A plain name.
    Normal(String),
}

/// `out` with its last component removed when that component is a plain
/// name (what popping a path buffer does; a root or prefix stays).
pub open spec fn pop_name(out: Seq<PathPart>) -> Seq<PathPart> {
    if out.len() > 0 && out.last() is Normal {
        out.drop_last()
    } else {
        out
    }
}

/// The components of a path with `.` dropped and each `..` removing the name
/// before it (a `..` with no name before it is dropped).
pub open spec fn normalize(parts: Seq<PathPart>) -> Seq<PathPart>
    decreases parts.len(),
{
    if parts.len() == 0 {
        Seq::empty()
    } else {
        let prev = normalize(parts.drop_last());
        match parts.last() {
            PathPart::Current => prev,
            PathPart::Parent => pop_name(prev),
            other => prev.push(other),
        }
    }
}

/// No component is `.` or `..`.
pub open spec fn is_clean(parts: Seq<PathPart>) -> bool {
    forall|i: int| 0 <= i < parts.len() ==> !(#[trigger] parts[i] is Current) && !(parts[i] is Parent)
}

/// A normalised path holds no `.` or `..`.
pub proof fn lemma_normalize_is_clean(parts: Seq<PathPart>)
    ensures
        is_clean(normalize(parts)),
    decreases parts.len(),
{
    if parts.len() > 0 {
        lemma_normalize_is_clean(parts.drop_last());
    }
}

/// Normalising a path without `.` or `..` leaves it as it is.
pub proof fn lemma_normalize_clean(parts: Seq<PathPart>)
    requires
        is_clean(parts),
    ensures
        normalize(parts) == parts,
    decreases parts.len(),
{
    if parts.len() > 0 {
        lemma_normalize_clean(parts.drop_last());
        assert(parts.drop_last().push(parts.last()) =~= parts);
    }
}

/// Normalising twice is normalising once.
pub proof fn lemma_normalize_idempotent(parts: Seq<PathPart>)
    ensures
        normalize(normalize(parts)) == normalize(parts),
{
    lemma_normalize_is_clean(parts);
    lemma_normalize_clean(normalize(parts));
}

/// A copy of a component.
fn copy_part(p: &PathPart) -> (res: PathPart)
    ensures
        res == *p,
{
    match p {
        PathPart::Prefix(s) => PathPart::Prefix(s.clone()),
        PathPart::Root(s) => PathPart::Root(s.clone()),
        PathPart::Current => PathPart::Current,
        PathPart::Parent => PathPart::Parent,
        PathPart::Normal(s) => PathPart::Normal(s.clone()),
    }
}

/// Drops `.` components and resolves `..` against the name before it.
pub fn normalize_parts(parts: &Vec<PathPart>) -> (res: Vec<PathPart>)
    ensures
        res@ == normalize(parts@),
{
    let mut out: Vec<PathPart> = Vec::new();
    let mut i: usize = 0;
    while i < parts.len()
        invariant
            i <= parts.len(),
            out@ == normalize(parts@.take(i as int)),
        decreases parts.len() - i,
    {
        proof {
            assert(parts@.take(i + 1).drop_last() =~= parts@.take(i as int));
        }
        match &parts[i] {
            PathPart::Current => {},
            PathPart::Parent => {
                let n = out.len();
                if n > 0 {
                    let last_is_name = match &out[n - 1] {
                        PathPart::Normal(_) => true,
                        _ => false,
                    };
                    if last_is_name {
                        out.pop();
                    }
                }
            },
            other => {
                out.push(copy_part(other));
            },
        }
        i += 1;
    }
    assert(parts@.take(parts@.len() as int) =~= parts@);
    out
}

/// `s` is a single path segment on every platform: it is not empty and holds
/// no `/`, no `\\` and no `:` (so neither a separator nor a Windows prefix).
pub open spec fn single_segment(s: Seq<char>) -> bool {
    &&& s.len() > 0
    &&& forall|i: int| 0 <= i < s.len() ==> #[trigger] s[i] != '/' && s[i] != '\\' && s[i] != ':'
}

/// `c` separates path components on some platform: `/`, or `\\` on Windows.
pub open spec fn is_separator(c: char) -> bool {
    c == '/' || c == '\\'
}

/// `s` holds no `/`, no `\\` and no `:`; it may be empty.
pub open spec fn loose_segment(s: Seq<char>) -> bool {
    forall|i: int| 0 <= i < s.len() ==> #[trigger] s[i] != '/' && s[i] != '\\' && s[i] != ':'
}

/// Every one of `segs` is a loose segment.
pub open spec fn loose_segments(segs: Seq<Seq<char>>) -> bool {
    forall|i: int| 0 <= i < segs.len() ==> loose_segment(#[trigger] segs[i])
}

/// `path` is a relative path on every platform: the segments joined by `/`,
/// the first one not empty (later empty ones stand for repeated or trailing
/// `/`).
pub open spec fn relative_split(path: Seq<char>, segs: Seq<Seq<char>>) -> bool {
    &&& loose_segments(segs)
    &&& segs.len() > 0
    &&& segs[0].len() > 0
    &&& path == slash_joined(segs)
}

/// `path` is a rooted path with no prefix on every platform: `/` followed by
/// the segments joined by `/`, and not starting with two `/`.
pub open spec fn rooted_split(path: Seq<char>, segs: Seq<Seq<char>>) -> bool {
    &&& loose_segments(segs)
    &&& segs.len() > 0
    &&& (segs.len() > 1 ==> segs[0].len() > 0)
    &&& path == seq!['/'] + slash_joined(segs)
}

/// Every one of `segs` is a single segment.
pub open spec fn all_segments(segs: Seq<Seq<char>>) -> bool {
    forall|i: int| 0 <= i < segs.len() ==> single_segment(#[trigger] segs[i])
}

/// The segments joined by `/`.
pub open spec fn slash_joined(segs: Seq<Seq<char>>) -> Seq<char>
    decreases segs.len(),
{
    if segs.len() == 0 {
        Seq::empty()
    } else if segs.len() == 1 {
        segs[0]
    } else {
        slash_joined(segs.drop_last()) + seq!['/'] + segs.last()
    }
}

/// The segments joined by the characters of `seps`, one between each two.
pub open spec fn joined_with(segs: Seq<Seq<char>>, seps: Seq<char>) -> Seq<char>
    decreases segs.len(),
{
    if segs.len() == 0 {
        Seq::empty()
    } else if segs.len() == 1 {
        segs[0]
    } else {
        joined_with(segs.drop_last(), seps.drop_last()) + seq![seps.last()] + segs.last()
    }
}

/// `t` is the segments joined by separators, one between each two (on one
/// platform always its own separator, `/` or `\\`).
pub open spec fn separated(segs: Seq<Seq<char>>, t: Seq<char>) -> bool {
    exists|seps: Seq<char>|
        {
            &&& seps.len() + 1 == segs.len()
            &&& forall|i: int| 0 <= i < seps.len() ==> is_separator(#[trigger] seps[i])
            &&& t == joined_with(segs, seps)
        }
}

/// What a component is, with the text of a name or a root.
pub enum PartView {
    Current,
    Parent,
    Name(Seq<char>),
    Root(Seq<char>),
    Other,
}

/// The view of a component: a prefix is `Other`.
pub open spec fn part_view(p: PathPart) -> PartView {
    match p {
        PathPart::Current => PartView::Current,
        PathPart::Parent => PartView::Parent,
        PathPart::Normal(s) => PartView::Name(s@),
        PathPart::Root(s) => PartView::Root(s@),
        _ => PartView::Other,
    }
}

/// The views of a list of components.
pub open spec fn parts_view(parts: Seq<PathPart>) -> Seq<PartView> {
    parts.map_values(|p: PathPart| part_view(p))
}

/// The components std reads from one segment: an empty one (from a repeated
/// or trailing `/`) is skipped, `.` is the current directory only as the
/// first segment of a relative path and is skipped elsewhere, `..` is the
/// parent directory, and any other segment is a name.
pub open spec fn segment_view(seg: Seq<char>, first: bool) -> Seq<PartView> {
    if seg.len() == 0 {
        Seq::empty()
    } else if seg == "."@ {
        if first {
            seq![PartView::Current]
        } else {
            Seq::empty()
        }
    } else if seg == ".."@ {
        seq![PartView::Parent]
    } else {
        seq![PartView::Name(seg)]
    }
}

/// The components std reads from segments joined by `/`.
pub open spec fn segment_views(segs: Seq<Seq<char>>) -> Seq<PartView>
    decreases segs.len(),
{
    if segs.len() == 0 {
        Seq::empty()
    } else {
        segment_views(segs.drop_last()) + segment_view(segs.last(), segs.len() == 1)
    }
}

/// The components std reads after the root from segments joined by `/`:
/// no `.` is kept.
pub open spec fn rooted_views(segs: Seq<Seq<char>>) -> Seq<PartView>
    decreases segs.len(),
{
    if segs.len() == 0 {
        Seq::empty()
    } else {
        rooted_views(segs.drop_last()) + segment_view(segs.last(), false)
    }
}

/// `normalize` on views.
pub open spec fn normalize_views(parts: Seq<PartView>) -> Seq<PartView>
    decreases parts.len(),
{
    if parts.len() == 0 {
        Seq::empty()
    } else {
        let prev = normalize_views(parts.drop_last());
        match parts.last() {
            PartView::Current => prev,
            PartView::Parent => if prev.len() > 0 && prev.last() is Name {
                prev.drop_last()
            } else {
                prev
            },
            other => prev.push(other),
        }
    }
}

/// The texts of the names in a list of views.
pub open spec fn name_texts(parts: Seq<PartView>) -> Seq<Seq<char>> {
    parts.map_values(|p: PartView| p->Name_0)
}

/// The names left of segments joined by `/` once `.` and `..` are resolved.
pub open spec fn normalized_names(segs: Seq<Seq<char>>) -> Seq<Seq<char>> {
    name_texts(normalize_views(segment_views(segs)))
}

/// The names left after the root of `/` and segments joined by `/`, once
/// `.` and `..` are resolved (a `..` right after the root stays there).
pub open spec fn normalized_rooted_names(segs: Seq<Seq<char>>) -> Seq<Seq<char>> {
    name_texts(normalize_views(rooted_views(segs)))
}

/// Every view is a name whose text is a single segment.
pub open spec fn all_names(parts: Seq<PartView>) -> bool {
    forall|i: int| 0 <= i < parts.len() ==> (#[trigger] parts[i] matches PartView::Name(s) && single_segment(s))
}

/// Every view is `.`, `..` or a name whose text is a single segment.
pub open spec fn relative_views(parts: Seq<PartView>) -> bool {
    forall|i: int|
        0 <= i < parts.len() ==> (#[trigger] parts[i] is Current || parts[i] is Parent || (
        parts[i] matches PartView::Name(s) && single_segment(s)))
}

/// Normalising commutes with taking views.
pub proof fn lemma_normalize_view(parts: Seq<PathPart>)
    ensures
        parts_view(normalize(parts)) == normalize_views(parts_view(parts)),
    decreases parts.len(),
{
    if parts.len() > 0 {
        lemma_normalize_view(parts.drop_last());
        assert(parts_view(parts.drop_last()) =~= parts_view(parts).drop_last());
        let prev = normalize(parts.drop_last());
        if prev.len() > 0 {
            assert(parts_view(prev.drop_last()) =~= parts_view(prev).drop_last());
        }
        assert(parts_view(prev.push(parts.last())) =~= parts_view(prev).push(part_view(parts.last())));
    }
}

/// The segments of a path read as `.`, `..` and names.
proof fn lemma_segment_views_relative(segs: Seq<Seq<char>>)
    requires
        loose_segments(segs),
    ensures
        relative_views(segment_views(segs)),
        relative_views(rooted_views(segs)),
    decreases segs.len(),
{
    if segs.len() > 0 {
        assert(loose_segments(segs.drop_last()));
        lemma_segment_views_relative(segs.drop_last());
        assert(loose_segment(segs[segs.len() - 1]));
    }
}

/// A root in front stays in front when normalising.
proof fn lemma_normalize_views_root(x: PartView, rest: Seq<PartView>)
    requires
        x is Root,
    ensures
        normalize_views(seq![x] + rest) == seq![x] + normalize_views(rest),
    decreases rest.len(),
{
    let all = seq![x] + rest;
    if rest.len() == 0 {
        assert(all =~= seq![x]);
        assert(all.drop_last() =~= Seq::<PartView>::empty());
        assert(normalize_views(Seq::<PartView>::empty()) == Seq::<PartView>::empty());
        assert(all.last() == x);
        assert(normalize_views(all) =~= Seq::<PartView>::empty().push(x));
        assert(seq![x] + normalize_views(rest) =~= seq![x]);
    } else {
        lemma_normalize_views_root(x, rest.drop_last());
        assert(all.drop_last() =~= seq![x] + rest.drop_last());
        assert(all.last() == rest.last());
        let prev = normalize_views(rest.drop_last());
        let front = seq![x] + prev;
        assert(normalize_views(all.drop_last()) == front);
        if prev.len() > 0 {
            assert(front.drop_last() =~= seq![x] + prev.drop_last());
            assert(front.last() == prev.last());
        } else {
            assert(front.last() == x);
        }
        match rest.last() {
            PartView::Current => {},
            PartView::Parent => {},
            other => {
                assert(front.push(other) =~= seq![x] + prev.push(other));
            },
        }
    }
}

/// Normalising `.`, `..` and names leaves only names.
proof fn lemma_normalize_views_names(parts: Seq<PartView>)
    requires
        relative_views(parts),
    ensures
        all_names(normalize_views(parts)),
    decreases parts.len(),
{
    if parts.len() > 0 {
        assert(relative_views(parts.drop_last()));
        lemma_normalize_views_names(parts.drop_last());
        assert(relative_views(parts) ==> (parts[parts.len() - 1] is Current || parts[parts.len() - 1] is Parent
            || (parts[parts.len() - 1] matches PartView::Name(s) && single_segment(s))));
    }
}

/// The text std gives a root: one separator, `/` or `\\` (the platform's).
pub open spec fn root_text(p: PathPart) -> bool {
    p matches PathPart::Root(r) && r@.len() == 1 && is_separator(r@[0])
}

/// The components of `path` as std's `Path::components` reads them on this
/// platform, with the text of each. Stated is what std documents for every
/// platform, for paths of segments joined by `/` with no `\\` and no `:`
/// (so no prefix): empty segments (repeated or trailing `/`) are skipped; a
/// relative path reads as its segments, a first `.` being the current
/// directory, any later `.` skipped, `..` the parent directory and any other
/// segment a name; a path starting with one `/` reads as the root, whose text
/// is the platform's separator, followed by its segments read the same way
/// except that no `.` is kept. How other strings split depends on the
/// platform's separators and prefixes and is left unsaid.
#[verifier::external_body]
pub(crate) fn path_components(path: &str) -> (res: Vec<PathPart>)
    ensures
        forall|segs: Seq<Seq<char>>| #[trigger] relative_split(path@, segs) ==> parts_view(res@) == segment_views(segs),
        forall|segs: Seq<Seq<char>>| #[trigger] rooted_split(path@, segs) ==> res@.len() > 0 && root_text(res@[0])
            && parts_view(res@.drop_first()) == rooted_views(segs),
{
    std::path::Path::new(path).components().map(|c| match c {
        std::path::Component::Prefix(p) => PathPart::Prefix(p.as_os_str().to_string_lossy().into_owned()),
        std::path::Component::RootDir => PathPart::Root(c.as_os_str().to_string_lossy().into_owned()),
        std::path::Component::CurDir => PathPart::Current,
        std::path::Component::ParentDir => PathPart::Parent,
        std::path::Component::Normal(s) => PathPart::Normal(s.to_string_lossy().into_owned()),
    }).collect()
}

/// `s` holds no `:`.
pub open spec fn no_colon(s: Seq<char>) -> bool {
    forall|i: int| 0 <= i < s.len() ==> #[trigger] s[i] != ':'
}

/// A path that a relative path is pushed onto in the plain way on every
/// platform: it is not empty, holds no `:` (no drive) and does not start with
/// two `\\` (no verbatim prefix).
pub open spec fn pushable(s: Seq<char>) -> bool {
    &&& s.len() > 0
    &&& no_colon(s)
    &&& !(s.len() >= 2 && s[0] == '\\' && s[1] == '\\')
}

/// A pushable path with no prefix on any platform: it does not start with
/// two separators either.
pub open spec fn unprefixed(s: Seq<char>) -> bool {
    &&& pushable(s)
    &&& !(s.len() >= 2 && is_separator(s[0]) && is_separator(s[1]))
}

/// `s` ends in `\\`.
pub open spec fn ends_in_backslash(s: Seq<char>) -> bool {
    s.len() > 0 && s.last() == '\\'
}

/// A path with no root and no prefix on any platform: it does not start
/// with `/` or `\\` and holds no `:`.
pub open spec fn plainly_relative(s: Seq<char>) -> bool {
    &&& (s.len() > 0 ==> s[0] != '/' && s[0] != '\\')
    &&& no_colon(s)
}

/// A path with a root and no prefix on every platform: it starts with `/`
/// and holds no `\\` and no `:`.
pub open spec fn plainly_rooted(s: Seq<char>) -> bool {
    &&& s.len() > 0
    &&& s[0] == '/'
    &&& forall|i: int| 0 <= i < s.len() ==> #[trigger] s[i] != '\\' && s[i] != ':'
}

/// `PathBuf::push` on the path whose text is `base`, as text (the path is
/// built from, and read back as, UTF-8 text without loss). Stated is what
/// std documents for every platform: pushing onto the empty path gives the
/// pushed path; pushing a relative path onto a base with no drive and no
/// verbatim prefix adds the platform's separator (`/` or `\\`) between the
/// two unless `base` already ends in a separator: after `/` nothing is
/// added, after `\\` nothing where `\\` is a separator (Windows) and `/`
/// where it is not; a rooted path replaces a base with no prefix. What
/// happens with drives and verbatim prefixes depends on the platform and is
/// left unsaid.
#[verifier::external_body]
fn push_path(base: &str, part: &str) -> (res: String)
    ensures
        base@.len() == 0 ==> res@ == part@,
        pushable(base@) && plainly_relative(part@) && !is_separator(base@.last()) ==> exists|c: char|
            res@ == base@ + seq![c] + part@ && is_separator(res@[base@.len() as int]),
        pushable(base@) && plainly_relative(part@) && base@.last() == '/' ==> res@ == base@ + part@,
        pushable(base@) && plainly_relative(part@) && ends_in_backslash(base@) ==> res@ == base@ + part@
            || res@ == base@ + seq!['/'] + part@,
        unprefixed(base@) && plainly_rooted(part@) ==> res@ == part@,
{
    let mut buf = PathBuf::from(base);
    buf.push(part);
    buf.to_string_lossy().into_owned()
}

/// `t` is `name` adjoined to `dir` as `push_path` states it: under the empty
/// directory `name` itself; a relative name after a platform separator, or
/// directly after a trailing `/` (after a trailing `\\`, directly or after
/// `/`); a rooted name in place of `dir`.
pub open spec fn joins_as_child(dir: Seq<char>, name: Seq<char>, t: Seq<char>) -> bool {
    &&& dir.len() == 0 ==> t == name
    &&& pushable(dir) && plainly_relative(name) && !is_separator(dir.last()) ==> exists|c: char|
        is_separator(c) && t == dir + seq![c] + name
    &&& pushable(dir) && plainly_relative(name) && dir.last() == '/' ==> t == dir + name
    &&& pushable(dir) && plainly_relative(name) && ends_in_backslash(dir) ==> t == dir + name || t == dir
        + seq!['/'] + name
    &&& unprefixed(dir) && plainly_rooted(name) ==> t == name
}

/// The text of a component.
pub open spec fn part_text_of(p: PathPart) -> Seq<char> {
    match p {
        PathPart::Prefix(s) => s@,
        PathPart::Root(s) => s@,
        PathPart::Current => "."@,
        PathPart::Parent => ".."@,
        PathPart::Normal(s) => s@,
    }
}

/// The text of a component.
fn part_text(p: &PathPart) -> (res: &str)
    ensures
        res@ == part_text_of(*p),
{
    match p {
        PathPart::Prefix(s) => s.as_str(),
        PathPart::Root(s) => s.as_str(),
        PathPart::Current => ".",
        PathPart::Parent => "..",
        PathPart::Normal(s) => s.as_str(),
    }
}

/// The texts of a list of components.
pub open spec fn part_texts(parts: Seq<PathPart>) -> Seq<Seq<char>> {
    parts.map_values(|p: PathPart| part_text_of(p))
}

/// Joining one more segment onto segments joined by separators.
proof fn lemma_join_step(segs: Seq<Seq<char>>, seps: Seq<char>, t: Seq<char>, c: char, seg: Seq<char>)
    requires
        segs.len() >= 1,
        seps.len() + 1 == segs.len(),
        forall|i: int| 0 <= i < seps.len() ==> is_separator(#[trigger] seps[i]),
        t == joined_with(segs, seps),
        is_separator(c),
    ensures
        seps.push(c).len() + 1 == segs.push(seg).len(),
        forall|i: int| 0 <= i < seps.push(c).len() ==> is_separator(#[trigger] seps.push(c)[i]),
        t + seq![c] + seg == joined_with(segs.push(seg), seps.push(c)),
{
    assert(segs.push(seg).drop_last() =~= segs);
    assert(seps.push(c).drop_last() =~= seps);
    assert forall|i: int| 0 <= i < seps.push(c).len() implies is_separator(#[trigger] seps.push(c)[i]) by {
        if i < seps.len() {
            assert(seps.push(c)[i] == seps[i]);
        }
    }
}

/// A single segment followed by a separator and a single segment holds no
/// `:`, and starts and ends as the segments do.
proof fn lemma_join_shape(t: Seq<char>, c: char, seg: Seq<char>)
    requires
        no_colon(t),
        is_separator(c),
        single_segment(seg),
    ensures
        no_colon(t + seq![c] + seg),
        (t + seq![c] + seg).last() == seg.last(),
        t.len() > 0 ==> (t + seq![c] + seg)[0] == t[0],
{
    let u = t + seq![c] + seg;
    assert forall|i: int| 0 <= i < u.len() implies #[trigger] u[i] != ':' by {
        if i < t.len() {
            assert(u[i] == t[i]);
        } else if i > t.len() {
            assert(u[i] == seg[i - t.len() - 1]);
        }
    }
}

/// `t` is the root's separator `r` followed by the names joined by
/// separators. Where `r` is `\\`, `push_path` also admits `\\/` in its place
/// (what push does after a `\\` where `\\` is no separator; std's root is
/// `\\` only where it is one).
pub open spec fn rooted_join(r: char, names: Seq<Seq<char>>, t: Seq<char>) -> bool {
    &&& names.len() == 0 ==> t == seq![r]
    &&& names.len() > 0 ==> exists|j: Seq<char>|
        separated(names, j) && (t == seq![r] + j || (r == '\\' && t == seq![r, '/'] + j))
}

/// The components are names that are single segments.
pub open spec fn plain_names(parts: Seq<PathPart>) -> bool {
    forall|i: int| 0 <= i < parts.len() ==> #[trigger] parts[i] is Normal && single_segment(part_text_of(parts[i]))
}

/// The path made by pushing each component, in order, onto the empty path:
/// no components give the empty path, one component gives its text, names
/// that are single segments come out joined by separators, and a root
/// followed by such names comes out as `rooted_join` says.
pub fn join_parts(parts: &Vec<PathPart>) -> (res: String)
    ensures
        parts@.len() == 0 ==> res@.len() == 0,
        parts@.len() == 1 ==> res@ == part_text_of(parts@[0]),
        parts@.len() >= 1 && plain_names(parts@) ==> separated(part_texts(parts@), res@),
        parts@.len() >= 1 && root_text(parts@[0]) && plain_names(parts@.drop_first()) ==> rooted_join(
            part_text_of(parts@[0])[0],
            part_texts(parts@).drop_first(),
            res@,
        ),
{
    let ghost names = plain_names(parts@);
    let ghost rooted = parts@.len() >= 1 && root_text(parts@[0]) && plain_names(parts@.drop_first());
    let ghost texts = part_texts(parts@);
    let ghost r: char = if parts@.len() >= 1 { part_text_of(parts@[0])[0] } else { '/' };
    let ghost mut seps: Seq<char> = Seq::empty();
    let ghost mut lead: Seq<char> = Seq::empty();
    let mut text = String::new();
    let mut i: usize = 0;
    while i < parts.len()
        invariant
            i <= parts.len(),
            texts == part_texts(parts@),
            names == plain_names(parts@),
            rooted == (parts@.len() >= 1 && root_text(parts@[0]) && plain_names(parts@.drop_first())),
            r == (if parts@.len() >= 1 { part_text_of(parts@[0])[0] } else { '/' }),
            i == 0 ==> text@.len() == 0 && seps.len() == 0,
            i == 1 ==> text@ == part_text_of(parts@[0]) && seps.len() == 0,
            names && i >= 1 ==> {
                &&& seps.len() + 1 == i
                &&& forall|j: int| 0 <= j < seps.len() ==> is_separator(#[trigger] seps[j])
                &&& text@ == joined_with(texts.take(i as int), seps)
                &&& pushable(text@)
                &&& !is_separator(text@.last())
                &&& !is_separator(text@[0])
            },
            rooted && i >= 2 ==> {
                &&& (lead == seq![r] || (r == '\\' && lead == seq![r, '/']))
                &&& seps.len() + 2 == i
                &&& forall|j: int| 0 <= j < seps.len() ==> is_separator(#[trigger] seps[j])
                &&& text@ == lead + joined_with(texts.subrange(1, i as int), seps)
                &&& text@.len() >= 2
                &&& pushable(text@)
                &&& !is_separator(text@.last())
            },
        decreases parts.len() - i,
    {
        let ghost before = text@;
        let piece = part_text(&parts[i]);
        text = push_path(text.as_str(), piece);
        proof {
            assert(texts[i as int] == part_text_of(parts@[i as int]));
            assert(texts.take(i + 1) =~= texts.take(i as int).push(texts[i as int]));
            if names {
                assert(parts@[i as int] is Normal && single_segment(part_text_of(parts@[i as int])));
                let seg = part_text_of(parts@[i as int]);
                assert(seg[0] != '/' && seg[0] != '\\' && seg[0] != ':');
                assert(seg[seg.len() - 1] != '/' && seg[seg.len() - 1] != '\\');
                if i == 0 {
                    assert(texts.take(1) =~= seq![seg]);
                    assert forall|j: int| 0 <= j < text@.len() implies #[trigger] text@[j] != ':' by {
                        assert(text@[j] == seg[j]);
                    }
                } else {
                    let c = text@[before.len() as int];
                    assert(text@ == before + seq![c] + seg);
                    lemma_join_step(texts.take(i as int), seps, before, c, seg);
                    lemma_join_shape(before, c, seg);
                    seps = seps.push(c);
                }
            } else if rooted && i >= 1 {
                assert(parts@.drop_first()[i - 1] == parts@[i as int]);
                assert(parts@[i as int] is Normal && single_segment(part_text_of(parts@[i as int])));
                let seg = part_text_of(parts@[i as int]);
                assert(seg[0] != '/' && seg[0] != '\\' && seg[0] != ':');
                assert(seg[seg.len() - 1] != '/' && seg[seg.len() - 1] != '\\');
                assert(texts.subrange(1, i + 1) =~= texts.subrange(1, i as int).push(seg));
                if i == 1 {
                    assert(before =~= seq![r]);
                    assert(no_colon(before));
                    if text@ =~= before + seg {
                        lead = seq![r];
                    } else {
                        assert(r == '\\');
                        lead = seq![r, '/'];
                    }
                    assert(texts.subrange(1, 2) =~= seq![seg]);
                    assert(text@ =~= lead + seg);
                    assert forall|j: int| 0 <= j < text@.len() implies #[trigger] text@[j] != ':' by {
                        if j >= lead.len() {
                            assert(text@[j] == seg[j - lead.len()]);
                        }
                    }
                    assert(text@[1] != '\\');
                    assert(text@.last() == seg.last());
                } else {
                    let c = text@[before.len() as int];
                    assert(text@ == before + seq![c] + seg);
                    let body = joined_with(texts.subrange(1, i as int), seps);
                    assert(before == lead + body);
                    lemma_join_step(texts.subrange(1, i as int), seps, body, c, seg);
                    lemma_join_shape(before, c, seg);
                    assert(text@ =~= lead + (body + seq![c] + seg));
                    assert(text@[0] == before[0] && text@[1] == before[1]);
                    seps = seps.push(c);
                }
            }
        }
        i += 1;
    }
    proof {
        assert(texts.take(parts@.len() as int) =~= texts);
        if rooted {
            if parts@.len() == 1 {
                assert(part_text_of(parts@[0]) =~= seq![r]);
                assert(texts.drop_first().len() == 0);
            } else {
                assert(texts.subrange(1, parts@.len() as int) =~= texts.drop_first());
                let j = joined_with(texts.drop_first(), seps);
                assert(separated(texts.drop_first(), j));
            }
        }
    }
    text
}

/// What `fix_path` makes of segments joined by `/`: the names left once `.`
/// and `..` are resolved, joined by separators; the empty path when none is
/// left.
pub open spec fn fixed_as(segs: Seq<Seq<char>>, t: Seq<char>) -> bool {
    &&& normalized_names(segs).len() == 0 ==> t.len() == 0
    &&& normalized_names(segs).len() > 0 ==> separated(normalized_names(segs), t)
}

/// What `fix_path` makes of a rooted path of segments: the root's
/// separator followed by the names left once `.` and `..` are resolved
/// (`rooted_join`).
pub open spec fn fixed_rooted(segs: Seq<Seq<char>>, t: Seq<char>) -> bool {
    exists|r: char| is_separator(r) && rooted_join(r, normalized_rooted_names(segs), t)
}

/// Normalised components that view as names are plain names with those
/// texts.
proof fn lemma_clean_names(clean: Seq<PathPart>, views: Seq<PartView>)
    requires
        parts_view(clean) == views,
        all_names(views),
    ensures
        plain_names(clean),
        part_texts(clean) == name_texts(views),
{
    assert(clean.len() == views.len());
    assert forall|i: int| 0 <= i < clean.len() implies #[trigger] clean[i] is Normal && single_segment(
        part_text_of(clean[i]),
    ) by {
        assert(parts_view(clean)[i] == part_view(clean[i]));
        assert(views[i] matches PartView::Name(s) && single_segment(s));
    }
    assert forall|i: int| 0 <= i < clean.len() implies #[trigger] part_texts(clean)[i] == name_texts(views)[i] by {
        assert(parts_view(clean)[i] == part_view(clean[i]));
    }
    assert(part_texts(clean) =~= name_texts(views));
}

/// `fix_path`: the path with `.` components dropped and each `..` removing
/// the name before it. The components come from, and go back to, std's
/// platform path handling; the decision made on them is `normalize_parts`.
/// On every platform a relative path of segments joined by `/` (none holding
/// `\\` or `:`) comes out as its normalised names joined by separators, and
/// a path starting with one `/` as the root's separator followed by them.
pub fn fix_path(path: &str) -> (res: String)
    ensures
        forall|segs: Seq<Seq<char>>| #[trigger] relative_split(path@, segs) ==> fixed_as(segs, res@),
        forall|segs: Seq<Seq<char>>| #[trigger] rooted_split(path@, segs) ==> fixed_rooted(segs, res@),
{
    let parts = path_components(path);
    let clean = normalize_parts(&parts);
    let res = join_parts(&clean);
    proof {
        lemma_normalize_view(parts@);
        assert forall|segs: Seq<Seq<char>>| #[trigger] relative_split(path@, segs) implies fixed_as(segs, res@) by {
            lemma_segment_views_relative(segs);
            lemma_normalize_views_names(segment_views(segs));
            lemma_clean_names(clean@, normalize_views(segment_views(segs)));
        }
        assert forall|segs: Seq<Seq<char>>| #[trigger] rooted_split(path@, segs) implies fixed_rooted(segs, res@) by {
            lemma_segment_views_relative(segs);
            lemma_normalize_views_names(rooted_views(segs));
            let root = part_view(parts@[0]);
            assert(parts_view(parts@) =~= seq![root] + parts_view(parts@.drop_first()));
            lemma_normalize_views_root(root, rooted_views(segs));
            let names = normalize_views(rooted_views(segs));
            assert(parts_view(clean@) == seq![root] + names);
            assert(parts_view(clean@)[0] == part_view(clean@[0]));
            assert(root_text(clean@[0]));
            assert forall|k: int| 0 <= k < names.len() implies #[trigger] parts_view(clean@.drop_first())[k]
                == names[k] by {
                assert(parts_view(clean@.drop_first())[k] == part_view(clean@[k + 1]));
                assert(parts_view(clean@)[k + 1] == part_view(clean@[k + 1]));
                assert((seq![root] + names)[k + 1] == names[k]);
            }
            assert(parts_view(clean@.drop_first()) =~= names);
            lemma_clean_names(clean@.drop_first(), names);
            assert(part_texts(clean@).drop_first() =~= part_texts(clean@.drop_first()));
            let r = part_text_of(clean@[0])[0];
            assert(is_separator(r));
        }
    }
    res
}

/// `ts` are the paths made in turn by adjoining the pieces: the first piece
/// itself, then each later piece adjoined to the path before it
/// (`joins_as_child`).
pub open spec fn join_chain(pieces: Seq<Seq<char>>, ts: Seq<Seq<char>>) -> bool {
    &&& ts.len() == pieces.len()
    &&& ts.len() > 0 ==> ts[0] == pieces[0]
    &&& forall|k: int| 1 <= k < ts.len() ==> joins_as_child(ts[k - 1], pieces[k], #[trigger] ts[k])
}

/// `join_path`: the first piece as a path, with each later piece adjoined in
/// turn (`join_chain`). No pieces give the empty path and one piece gives
/// itself; single segments come out joined by separators; a last piece
/// rooted on every platform, after single segments, replaces them.
pub fn join_path(pieces: &Vec<String>) -> (res: String)
    ensures
        pieces@.len() >= 1 ==> exists|ts: Seq<Seq<char>>|
            join_chain(pieces@.map_values(|p: String| p@), ts) && res@ == ts.last(),
        pieces@.len() == 0 ==> res@.len() == 0,
        pieces@.len() == 1 ==> res@ == pieces@[0]@,
        pieces@.len() >= 1 && (forall|i: int| 0 <= i < pieces@.len() ==> single_segment(#[trigger] pieces@[i]@))
            ==> separated(pieces@.map_values(|p: String| p@), res@),
        pieces@.len() >= 2 && plainly_rooted(pieces@.last()@) && (forall|i: int|
            0 <= i < pieces@.len() - 1 ==> single_segment(#[trigger] pieces@[i]@)) ==> res@ == pieces@.last()@,
{
    let ghost texts = pieces@.map_values(|p: String| p@);
    let ghost n = pieces@.len();
    let ghost segs_before = forall|i: int| 0 <= i < n - 1 ==> single_segment(#[trigger] pieces@[i]@);
    let ghost mut seps: Seq<char> = Seq::empty();
    let ghost mut ts: Seq<Seq<char>> = Seq::empty();
    let mut text = String::new();
    let mut i: usize = 0;
    while i < pieces.len()
        invariant
            i <= pieces.len(),
            n == pieces@.len(),
            ts.len() == i,
            i >= 1 ==> ts[0] == texts[0] && text@ == ts[i - 1],
            forall|k: int| 1 <= k < i ==> joins_as_child(ts[k - 1], texts[k], #[trigger] ts[k]),
            texts == pieces@.map_values(|p: String| p@),
            segs_before == forall|i: int| 0 <= i < n - 1 ==> single_segment(#[trigger] pieces@[i]@),
            i == 0 ==> text@.len() == 0 && seps.len() == 0,
            i == 1 ==> text@ == pieces@[0]@,
            segs_before && 1 <= i <= n - 1 ==> {
                &&& seps.len() + 1 == i
                &&& forall|j: int| 0 <= j < seps.len() ==> is_separator(#[trigger] seps[j])
                &&& text@ == joined_with(texts.take(i as int), seps)
                &&& pushable(text@)
                &&& !is_separator(text@.last())
                &&& !is_separator(text@[0])
            },
            (forall|j: int| 0 <= j < n ==> single_segment(#[trigger] pieces@[j]@)) && 1 <= i ==> {
                &&& seps.len() + 1 == i
                &&& forall|j: int| 0 <= j < seps.len() ==> is_separator(#[trigger] seps[j])
                &&& text@ == joined_with(texts.take(i as int), seps)
            },
            i == n && n >= 2 && segs_before && plainly_rooted(pieces@[n - 1]@) ==> text@ == pieces@[n - 1]@,
        decreases pieces.len() - i,
    {
        let ghost before = text@;
        if i == 0 {
            text = pieces[i].clone();
        } else {
            text = push_path(text.as_str(), pieces[i].as_str());
        }
        proof {
            let seg = pieces@[i as int]@;
            assert(texts[i as int] == seg);
            assert(texts.take(i + 1) =~= texts.take(i as int).push(seg));
            if i >= 1 {
                if pushable(before) && plainly_relative(seg) && !is_separator(before.last()) {
                    let c = text@[before.len() as int];
                    assert(text@ == before + seq![c] + seg);
                }
                assert(joins_as_child(before, seg, text@));
            }
            ts = ts.push(text@);
            let all_segs = forall|j: int| 0 <= j < n ==> single_segment(#[trigger] pieces@[j]@);
            if (segs_before && i < n - 1) || all_segs {
                assert(single_segment(pieces@[i as int]@));
                assert(seg[0] != '/' && seg[0] != '\\' && seg[0] != ':');
                assert(seg[seg.len() - 1] != '/' && seg[seg.len() - 1] != '\\');
                if i == 0 {
                    assert(texts.take(1) =~= seq![seg]);
                    assert forall|j: int| 0 <= j < text@.len() implies #[trigger] text@[j] != ':' by {
                        assert(text@[j] == seg[j]);
                    }
                } else {
                    if all_segs && i >= n - 1 {
                        assert(segs_before);
                    }
                    let c = text@[before.len() as int];
                    assert(text@ == before + seq![c] + seg);
                    lemma_join_step(texts.take(i as int), seps, before, c, seg);
                    lemma_join_shape(before, c, seg);
                }
            }
            if i >= 1 && ((segs_before && i < n - 1) || all_segs) {
                let c = text@[before.len() as int];
                seps = seps.push(c);
            }
        }
        i += 1;
    }
    proof {
        assert(texts.take(n as int) =~= texts);
        if n >= 1 {
            assert(join_chain(texts, ts));
            assert(text@ == ts.last());
            assert(join_chain(pieces@.map_values(|p: String| p@), ts) && text@ == ts.last());
        }
    }
    text
}

/// `path` is segments joined by `/` (at least two, each a single segment),
/// perhaps with one trailing `/`, of which the last is not `.`, nor the one
/// before it unless it is the first: then std's `Path::parent` is the path
/// without its final segment (a trailing `/` ends no segment).
pub open spec fn parent_splits(path: Seq<char>, segs: Seq<Seq<char>>) -> bool {
    &&& all_segments(segs)
    &&& segs.len() >= 2
    &&& (path == slash_joined(segs) || path == slash_joined(segs) + seq!['/'])
    &&& segs.last() != "."@
    &&& (segs[segs.len() - 2] == "."@ ==> segs.len() == 2)
}

/// `path` is `/` followed by segments joined by `/` (at least one, each a
/// single segment), perhaps with one trailing `/`, of which the last is not
/// `.`, nor the one before it:
/// then std's `Path::parent` is the path without its final segment, which
/// for one segment is the root `/`.
pub open spec fn rooted_parent_splits(path: Seq<char>, segs: Seq<Seq<char>>) -> bool {
    &&& all_segments(segs)
    &&& segs.len() >= 1
    &&& (path == seq!['/'] + slash_joined(segs) || path == seq!['/'] + slash_joined(segs) + seq!['/'])
    &&& segs.last() != "."@
    &&& (segs.len() >= 2 ==> segs[segs.len() - 2] != "."@)
}

/// `Path::parent` as text. Stated is what std documents for every platform:
/// the empty path and the root `/` have no parent, a relative path of one
/// component has the empty path as parent, and a relative or rooted path of
/// segments joined by `/` has the path without its final component as parent
/// (std also trims `.` components that this leaves at the end, hence the
/// conditions of `parent_splits` and `rooted_parent_splits`). What it gives
/// otherwise depends on the platform and is left unsaid.
#[verifier::external_body]
pub(crate) fn path_parent(path: &str) -> (res: Option<String>)
    ensures
        path@.len() == 0 ==> res is None,
        single_segment(path@) ==> res is Some && res.unwrap()@.len() == 0,
        forall|segs: Seq<Seq<char>>| #[trigger] parent_splits(path@, segs) ==> res is Some && res.unwrap()@
            == slash_joined(segs.drop_last()),
        path@ == seq!['/'] ==> res is None,
        forall|segs: Seq<Seq<char>>| #[trigger] rooted_parent_splits(path@, segs) ==> res is Some
            && res.unwrap()@ == seq!['/'] + slash_joined(segs.drop_last()),
{
    std::path::Path::new(path).parent().map(|d| d.to_string_lossy().into_owned())
}

/// The parent directory to report for `path`, given what `Path::parent`
/// gave: the parent when there is a non-empty one, else `path` itself.
pub fn parent_or_self(path: &str, parent: Option<String>) -> (res: String)
    ensures
        parent matches Some(d) ==> (d@.len() > 0 ==> res@ == d@),
        parent matches Some(d) ==> (d@.len() == 0 ==> res@ == path@),
        parent is None ==> res@ == path@,
{
    match parent {
        Some(dir) => {
            if dir.as_str().is_empty() {
                path.to_owned()
            } else {
                dir
            }
        },
        None => path.to_owned(),
    }
}

/// Segments joined by `/` are not empty.
proof fn lemma_slash_joined_nonempty(segs: Seq<Seq<char>>)
    requires
        all_segments(segs),
        segs.len() >= 1,
    ensures
        slash_joined(segs).len() > 0,
    decreases segs.len(),
{
    assert(single_segment(segs[0]));
    if segs.len() > 1 {
        assert(all_segments(segs.drop_last()));
        lemma_slash_joined_nonempty(segs.drop_last());
    }
}

/// `get_parent_dir`: the parent directory of `path`, or `path` itself when it
/// has none or the parent is empty. On every platform: the empty path and a
/// single segment give themselves, and so does the root `/`; a relative or
/// rooted path of segments joined by `/` gives the path without its final
/// segment (as `parent_splits` and `rooted_parent_splits` say), so `/x`
/// gives `/`.
pub fn get_parent_dir(path: &str) -> (res: String)
    ensures
        path@.len() == 0 ==> res@ == path@,
        single_segment(path@) ==> res@ == path@,
        path@ == seq!['/'] ==> res@ == path@,
        forall|segs: Seq<Seq<char>>| #[trigger] parent_splits(path@, segs) ==> res@ == slash_joined(segs.drop_last()),
        forall|segs: Seq<Seq<char>>| #[trigger] rooted_parent_splits(path@, segs) ==> res@ == seq!['/']
            + slash_joined(segs.drop_last()),
{
    let parent = path_parent(path);
    proof {
        assert forall|segs: Seq<Seq<char>>| #[trigger] parent_splits(path@, segs) implies parent is Some
            && parent.unwrap()@.len() > 0 by {
            assert(all_segments(segs.drop_last()));
            lemma_slash_joined_nonempty(segs.drop_last());
        }
    }
    parent_or_self(path, parent)
}

/// A trailing `/` does not change the parent directory: a path of
/// segments and the same path with one `/` after it meet the conditions of
/// `get_parent_dir` alike, so both give the path without its final segment,
/// which never ends in `/`.
pub proof fn lemma_trailing_slash_same_parent(segs: Seq<Seq<char>>)
    ensures
        parent_splits(slash_joined(segs), segs) <==> parent_splits(slash_joined(segs) + seq!['/'], segs),
        rooted_parent_splits(seq!['/'] + slash_joined(segs), segs) <==> rooted_parent_splits(
            seq!['/'] + slash_joined(segs) + seq!['/'],
            segs,
        ),
        parent_splits(slash_joined(segs), segs) ==> slash_joined(segs.drop_last()).len() > 0
            && slash_joined(segs.drop_last()).last() != '/',
{
    if parent_splits(slash_joined(segs), segs) {
        assert(all_segments(segs.drop_last()));
        lemma_slash_joined_nonempty(segs.drop_last());
        lemma_slash_joined_last(segs.drop_last());
    }
}

/// Segments joined by `/` end as their last segment does.
proof fn lemma_slash_joined_last(segs: Seq<Seq<char>>)
    requires
        all_segments(segs),
        segs.len() >= 1,
    ensures
        slash_joined(segs).len() > 0,
        slash_joined(segs).last() == segs.last().last(),
        slash_joined(segs).last() != '/',
    decreases segs.len(),
{
    assert(single_segment(segs[segs.len() - 1]));
    let l = segs.last();
    assert(l[l.len() - 1] != '/');
    if segs.len() == 1 {
    } else {
        let t = slash_joined(segs.drop_last()) + seq!['/'] + l;
        assert(t[t.len() - 1] == l[l.len() - 1]);
    }
}

/// `Path::file_name` as text: the final component, if it is a name. Stated
/// is what std documents: the file name is the final component of the path,
/// so its text occurs in the path's text. Where the path splits depends on
/// the platform and is left unsaid.
#[verifier::external_body]
pub(crate) fn path_file_name(path: &str) -> (res: Option<String>)
    ensures
        res is Some ==> contains_seq(path@, res.unwrap()@),
{
    std::path::Path::new(path).file_name().map(|n| n.to_string_lossy().into_owned())
}

/// `Path::extension` as text. Stated is what std documents: the extension is
/// the part of the file name after its final `.`, so a `.` followed by it
/// occurs in the path's text. Where the path splits depends on the platform
/// and is left unsaid.
#[verifier::external_body]
pub(crate) fn path_extension(path: &str) -> (res: Option<String>)
    ensures
        res is Some ==> contains_seq(path@, seq!['.'] + res.unwrap()@),
{
    std::path::Path::new(path).extension().map(|n| n.to_string_lossy().into_owned())
}

/// `s` starts with `//`: a root on Unix, and a UNC prefix, which brings its
/// own root, on Windows.
pub open spec fn starts_with_double_slash(s: Seq<char>) -> bool {
    s.len() >= 2 && s[0] == '/' && s[1] == '/'
}

/// `Path::is_relative`. Stated is what std documents for every platform: a
/// path with neither a root nor a prefix is relative, and a path starting
/// with `//` is absolute (rooted on Unix; a UNC path, prefix and root, on
/// Windows). Which other paths are absolute depends on the platform and is
/// left unsaid.
#[verifier::external_body]
pub(crate) fn path_is_relative(path: &str) -> (res: bool)
    ensures
        plainly_relative(path@) ==> res,
        starts_with_double_slash(path@) ==> !res,
{
    std::path::Path::new(path).is_relative()
}

/// `dir` with `name` adjoined, as `Path::join` makes it on this platform
/// (`joins_as_child`).
pub fn child_path(dir: &str, name: &str) -> (res: String)
    ensures
        joins_as_child(dir@, name@, res@),
{
    let res = push_path(dir, name);
    proof {
        if pushable(dir@) && plainly_relative(name@) && !is_separator(dir@.last()) {
            let c = res@[dir@.len() as int];
            assert(res@ == dir@ + seq![c] + name@);
        }
    }
    res
}

} // verus!
