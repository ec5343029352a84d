//! Regular expressions: matching, finding the first match, replacing.
//!
//! Compiling and searching are the `regex` crate's; what a search returns is
//! named here and stated as far as the crate documents it.

use vstd::prelude::*;
use vstd::utf8::*;

verus! {

#[verifier::external_type_specification]
#[verifier::external_body]
pub struct ExRegex(regex::Regex);

/// The message of the error with which `regex::Regex::new` refuses
/// `pattern`, or `None` where it accepts it.
pub uninterp spec fn regex_refusal(pattern: Seq<char>) -> Option<Seq<char>>;

/// `regex::Regex::new` accepts `pattern`.
pub open spec fn regex_accepts(pattern: Seq<char>) -> bool {
    regex_refusal(pattern) is None
}

/// `r` is the error of a refused pattern, with the crate's message for it.
pub open spec fn refused_as(pattern: Seq<char>, e: RegexError) -> bool {
    regex_refusal(pattern) == Some(e.message@)
}

/// Whether the compiled `pattern` matches somewhere in `text`
/// (`Regex::is_match`).
pub uninterp spec fn regex_matches(pattern: Seq<char>, text: Seq<char>) -> bool;

/// The byte offsets of the first match of `pattern` in `text`
/// (`Regex::find`).
pub uninterp spec fn regex_first_match(pattern: Seq<char>, text: Seq<char>) -> Option<(int, int)>;

/// `text` with every non-overlapping match of `pattern` replaced by
/// `replacement`, with `$` references expanded (`Regex::replace_all`).
pub uninterp spec fn regex_replaced(pattern: Seq<char>, text: Seq<char>, replacement: Seq<char>) -> Seq<char>;

/// Why a pattern was refused: the message of the `regex` crate's error.
#[derive(Debug)]
pub struct RegexError {
    pub message: String,
}

/// A compiled pattern together with its source text.
pub struct Pattern {
    regex: regex::Regex,
    source: String,
}

/// A match: its 1-based start and its end as byte offsets, and its text.
pub struct MatchInfo {
    pub start: usize,
    pub end: usize,
    pub text: String,
}

/// `regex::Regex::new`, with its error as its message (`to_string`). Claims
/// that the outcome depends on the pattern alone (`regex_refusal`): it
/// succeeds exactly where no refusal is named, and fails with the named
/// message; what it builds is opaque.
#[verifier::external_body]
fn compile(pattern: &str) -> (res: Result<regex::Regex, String>)
    ensures
        res is Ok <==> regex_refusal(pattern@) is None,
        res matches Err(m) ==> regex_refusal(pattern@) == Some(m@),
{
    regex::Regex::new(pattern).map_err(|e| e.to_string())
}

/// `Regex::is_match` on the pattern's regex. Claims that the result is
/// `regex_matches` of the source the regex was compiled from, which holds
/// because `Pattern::new` is the only constructor.
#[verifier::external_body]
fn search_is_match(p: &Pattern, text: &str) -> (res: bool)
    ensures
        res == regex_matches(p.source@, text@),
{
    p.regex.is_match(text)
}

/// `Regex::find` on the pattern's regex, as the match's byte offsets. Claims
/// the named result and what the crate documents: a match is found exactly
/// when `is_match` holds, `start <= end`, both offsets fall on character
/// boundaries of `text`, and `end` is within `text` (whose length is at
/// most `isize::MAX`).
#[verifier::external_body]
fn search_find(p: &Pattern, text: &str) -> (res: Option<(usize, usize)>)
    ensures
        res is Some <==> regex_matches(p.source@, text@),
        res is None ==> regex_first_match(p.source@, text@) is None,
        res matches Some((s, e)) ==> {
            &&& regex_first_match(p.source@, text@) == Some((s as int, e as int))
            &&& s <= e <= encode_utf8(text@).len()
            &&& e <= isize::MAX
            &&& is_char_boundary(encode_utf8(text@), s as int)
            &&& is_char_boundary(encode_utf8(text@), e as int)
        },
{
    p.regex.find(text).map(|m| (m.start(), m.end()))
}

/// `Regex::replace_all` on the pattern's regex. Claims the named result and
/// the documented fact that a text without a match comes back unchanged.
#[verifier::external_body]
fn search_replace_all(p: &Pattern, text: &str, replacement: &str) -> (res: String)
    ensures
        res@ == regex_replaced(p.source@, text@, replacement@),
        !regex_matches(p.source@, text@) ==> res@ == text@,
{
    p.regex.replace_all(text, replacement).into_owned()
}

/// A boundary of valid UTF-8 is a boundary of any prefix that reaches it.
proof fn lemma_boundary_of_prefix(bytes: Seq<u8>, s: int, e: int)
    requires
        valid_utf8(bytes),
        0 <= s <= e <= bytes.len(),
        is_char_boundary(bytes, s),
        is_char_boundary(bytes, e),
    ensures
        valid_utf8(bytes.subrange(0, e)),
        is_char_boundary(bytes.subrange(0, e), s),
{
    let p = bytes.subrange(0, e);
    valid_utf8_split(bytes, e);
    if s == e {
        is_char_boundary_start_end_of_seq(p);
    } else {
        is_char_boundary_iff_not_is_continuation_byte(bytes, s);
        is_char_boundary_iff_not_is_continuation_byte(p, s);
    }
}

/// The text between two character boundaries of `text`.
fn slice_between(text: &str, s: usize, e: usize) -> (res: String)
    requires
        s <= e <= encode_utf8(text@).len(),
        is_char_boundary(encode_utf8(text@), s as int),
        is_char_boundary(encode_utf8(text@), e as int),
    ensures
        res@ == decode_utf8(encode_utf8(text@).subrange(s as int, e as int)),
{
    let ghost bytes = encode_utf8(text@);
    proof {
        encode_utf8_valid_utf8(text@);
        lemma_boundary_of_prefix(bytes, s as int, e as int);
    }
    let (head, _) = text.split_at(e);
    assert(encode_utf8(head@) =~= bytes.subrange(0, e as int));
    let (_, mid) = head.split_at(s);
    assert(encode_utf8(mid@) =~= bytes.subrange(s as int, e as int));
    proof {
        encode_utf8_decode_utf8(mid@);
    }
    mid.to_owned()
}

impl Pattern {
    /// The source text the pattern was compiled from.
    pub closed spec fn source(self) -> Seq<char> {
        self.source@
    }

    /// Compiles `pattern`; fails exactly when the `regex` crate refuses it,
    /// with the crate's message.
    pub fn new(pattern: &str) -> (res: Result<Pattern, RegexError>)
        ensures
            res is Ok <==> regex_accepts(pattern@),
            res matches Ok(p) ==> p.source() == pattern@,
            res matches Err(e) ==> refused_as(pattern@, e),
    {
        match compile(pattern) {
            Ok(regex) => Ok(Pattern { regex, source: pattern.to_owned() }),
            Err(m) => Err(RegexError { message: m }),
        }
    }

    /// Whether the pattern matches somewhere in `text`.
    pub fn is_match(&self, text: &str) -> (res: bool)
        ensures
            res == regex_matches(self.source(), text@),
    {
        search_is_match(self, text)
    }

    /// The first match in `text`: found exactly when the pattern matches;
    /// its start is 1-based, its end is the byte offset after it, and its
    /// text is the part of `text` between them.
    pub fn find(&self, text: &str) -> (res: Option<MatchInfo>)
        ensures
            res is Some <==> regex_matches(self.source(), text@),
            res is None ==> regex_first_match(self.source(), text@) is None,
            res matches Some(m) ==> {
                &&& 1 <= m.start
                &&& regex_first_match(self.source(), text@) == Some((m.start - 1, m.end as int))
                &&& m.text@ == decode_utf8(encode_utf8(text@).subrange(m.start - 1, m.end as int))
            },
    {
        match search_find(self, text) {
            Some((s, e)) => {
                let t = slice_between(text, s, e);
                Some(MatchInfo { start: s + 1, end: e, text: t })
            },
            None => None,
        }
    }

    /// `text` with every match replaced by `replacement` (with `$` group
    /// references expanded); unchanged when nothing matches.
    pub fn replace_all(&self, text: &str, replacement: &str) -> (res: String)
        ensures
            res@ == regex_replaced(self.source(), text@, replacement@),
            !regex_matches(self.source(), text@) ==> res@ == text@,
    {
        search_replace_all(self, text, replacement)
    }
}

/// `regex_is_match`: whether `pattern` matches somewhere in `text`; an error
/// when the pattern does not compile.
pub fn regex_is_match(pattern: &str, text: &str) -> (res: Result<bool, RegexError>)
    ensures
        res is Ok <==> regex_accepts(pattern@),
        res matches Err(e) ==> refused_as(pattern@, e),
        res matches Ok(b) ==> b == regex_matches(pattern@, text@),
{
    let p = match Pattern::new(pattern) {
        Ok(p) => p,
        Err(e) => {
            return Err(e);
        },
    };
    Ok(p.is_match(text))
}

/// `regex_find`: the first match of `pattern` in `text`, with its 1-based
/// start, its end and its text; `None` exactly when `regex_is_match` gives
/// false; an error when the pattern does not compile.
pub fn regex_find(pattern: &str, text: &str) -> (res: Result<Option<MatchInfo>, RegexError>)
    ensures
        res is Ok <==> regex_accepts(pattern@),
        res matches Err(e) ==> refused_as(pattern@, e),
        res matches Ok(found) ==> (found is Some <==> regex_matches(pattern@, text@)),
        res matches Ok(found) ==> (found is None ==> regex_first_match(pattern@, text@) is None),
        res matches Ok(found) ==> (found matches Some(m) ==> {
            &&& 1 <= m.start
            &&& regex_first_match(pattern@, text@) == Some((m.start - 1, m.end as int))
            &&& m.text@ == decode_utf8(encode_utf8(text@).subrange(m.start - 1, m.end as int))
        }),
{
    let p = match Pattern::new(pattern) {
        Ok(p) => p,
        Err(e) => {
            return Err(e);
        },
    };
    Ok(p.find(text))
}

/// `regex_find_text`: the text of the first match of `pattern` in `text`.
pub fn regex_find_text(pattern: &str, text: &str) -> (res: Result<Option<String>, RegexError>)
    ensures
        res is Ok <==> regex_accepts(pattern@),
        res matches Err(e) ==> refused_as(pattern@, e),
        res matches Ok(found) ==> (found is Some <==> regex_matches(pattern@, text@)),
        res matches Ok(found) ==> (found matches Some(t) ==> exists|s: int, e: int|
            regex_first_match(pattern@, text@) == Some((s, e)) && t@ == decode_utf8(
                encode_utf8(text@).subrange(s, e),
            )),
{
    let p = match Pattern::new(pattern) {
        Ok(p) => p,
        Err(e) => {
            return Err(e);
        },
    };
    match p.find(text) {
        Some(m) => {
            assert(regex_first_match(pattern@, text@) == Some((m.start - 1, m.end as int)));
            Ok(Some(m.text))
        },
        None => Ok(None),
    }
}

/// `regex_replace`: `text` with every match of `pattern` replaced by
/// `replacement`; unchanged when nothing matches; an error when the pattern
/// does not compile.
pub fn regex_replace(pattern: &str, text: &str, replacement: &str) -> (res: Result<String, RegexError>)
    ensures
        res is Ok <==> regex_accepts(pattern@),
        res matches Err(e) ==> refused_as(pattern@, e),
        res matches Ok(r) ==> r@ == regex_replaced(pattern@, text@, replacement@),
        res matches Ok(r) ==> (!regex_matches(pattern@, text@) ==> r@ == text@),
{
    let p = match Pattern::new(pattern) {
        Ok(p) => p,
        Err(e) => {
            return Err(e);
        },
    };
    Ok(p.replace_all(text, replacement))
}

/// What the file search does with a directory entry.
#[derive(PartialEq, Eq, Structural, Clone, Copy, Debug)]
pub enum FindStep {
    /// Search the directory in turn.
    Descend,
    /// Report the file.
    Keep,
    /// Pass over the entry.
    Skip,
}

/// The file search's decision for one entry: a directory is searched in
/// turn; a file whose name is UTF-8 is kept exactly when the pattern matches
/// its name; any other entry is passed over.
pub fn found_entry(is_dir: bool, name: Option<&str>, p: &Pattern) -> (res: FindStep)
    ensures
        is_dir ==> res == FindStep::Descend,
        !is_dir ==> (res == FindStep::Keep <==> (name matches Some(n) && regex_matches(p.source(), n@))),
        !is_dir ==> res != FindStep::Descend,
{
    if is_dir {
        FindStep::Descend
    } else {
        match name {
            Some(n) => {
                if p.is_match(n) {
                    FindStep::Keep
                } else {
                    FindStep::Skip
                }
            },
            None => FindStep::Skip,
        }
    }
}

} // verus!
