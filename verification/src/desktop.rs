//! Desktop rules: the message box's buttons, icon and answer, and which
//! top-level windows a title search finds.

use vstd::prelude::*;
use crate::text::{contains_seq, occurs_at, text_contains, text_equal};

verus! {

/// The buttons a message box shows.
#[derive(PartialEq, Eq, Structural, Clone, Copy, Debug)]
pub enum Buttons {
    OkOnly,
    OkCancel,
    YesNo,
    YesNoCancel,
    AbortRetryIgnore,
    RetryCancel,
    CancelTryContinue,
}

/// The icon a message box shows.
#[derive(PartialEq, Eq, Structural, Clone, Copy, Debug)]
pub enum Icon {
    Information,
    Warning,
    Error,
    Question,
}

/// The button a message box was closed with.
#[derive(PartialEq, Eq, Structural, Clone, Copy, Debug)]
pub enum Answer {
    Okay,
    Cancel,
    Abort,
    Retry,
    Ignore,
    Yes,
    No,
    TryAgain,
    Continue,
    Unknown,
}

/// The buttons a name selects; no name, and any unknown name, select `OkOnly`.
pub open spec fn buttons_named(name: Option<Seq<char>>) -> Buttons {
    match name {
        None => Buttons::OkOnly,
        Some(s) => if s == "okcancel"@ {
            Buttons::OkCancel
        } else if s == "yesno"@ {
            Buttons::YesNo
        } else if s == "yesnocancel"@ {
            Buttons::YesNoCancel
        } else if s == "abortretryignore"@ {
            Buttons::AbortRetryIgnore
        } else if s == "retrycancel"@ {
            Buttons::RetryCancel
        } else if s == "canceltrycontinue"@ {
            Buttons::CancelTryContinue
        } else {
            Buttons::OkOnly
        },
    }
}

/// The buttons of each set, left to right, as Windows shows them.
pub open spec fn buttons_shown(b: Buttons) -> Seq<Answer> {
    match b {
        Buttons::OkOnly => seq![Answer::Okay],
        Buttons::OkCancel => seq![Answer::Okay, Answer::Cancel],
        Buttons::YesNo => seq![Answer::Yes, Answer::No],
        Buttons::YesNoCancel => seq![Answer::Yes, Answer::No, Answer::Cancel],
        Buttons::AbortRetryIgnore => seq![Answer::Abort, Answer::Retry, Answer::Ignore],
        Buttons::RetryCancel => seq![Answer::Retry, Answer::Cancel],
        Buttons::CancelTryContinue => seq![Answer::Cancel, Answer::TryAgain, Answer::Continue],
    }
}

/// The word that names a button in a button-set name.
pub open spec fn button_word(a: Answer) -> Seq<char> {
    match a {
        Answer::Okay => "ok"@,
        Answer::Cancel => "cancel"@,
        Answer::Abort => "abort"@,
        Answer::Retry => "retry"@,
        Answer::Ignore => "ignore"@,
        Answer::Yes => "yes"@,
        Answer::No => "no"@,
        Answer::TryAgain => "try"@,
        Answer::Continue => "continue"@,
        Answer::Unknown => Seq::empty(),
    }
}

/// The words of the buttons, one after another.
pub open spec fn spelled(buttons: Seq<Answer>) -> Seq<char>
    decreases buttons.len(),
{
    if buttons.len() == 0 {
        Seq::empty()
    } else {
        spelled(buttons.drop_last()) + button_word(buttons.last())
    }
}

/// A button-set name spells the buttons it shows: every set is selected by
/// the words of its own buttons, left to right, and any name that selects a
/// set other than the plain OK box is exactly those words. So distinct names
/// select distinct sets, and no name selects a set that lacks one of the
/// buttons it names.
pub proof fn lemma_button_names_spell_buttons(b: Buttons, name: Seq<char>)
    ensures
        buttons_named(Some(spelled(buttons_shown(b)))) == b,
        buttons_named(Some(name)) != Buttons::OkOnly ==> name == spelled(buttons_shown(buttons_named(Some(name)))),
{
    reveal_strlit("ok");
    reveal_strlit("cancel");
    reveal_strlit("abort");
    reveal_strlit("retry");
    reveal_strlit("ignore");
    reveal_strlit("yes");
    reveal_strlit("no");
    reveal_strlit("try");
    reveal_strlit("continue");
    reveal_strlit("okcancel");
    reveal_strlit("yesno");
    reveal_strlit("yesnocancel");
    reveal_strlit("abortretryignore");
    reveal_strlit("retrycancel");
    reveal_strlit("canceltrycontinue");
    reveal_with_fuel(spelled, 4);
    let ok = spelled(seq![Answer::Okay]);
    assert(ok =~= "ok"@);
    assert(spelled(seq![Answer::Okay, Answer::Cancel]) =~= "okcancel"@);
    assert(spelled(seq![Answer::Yes, Answer::No]) =~= "yesno"@);
    assert(spelled(seq![Answer::Yes, Answer::No, Answer::Cancel]) =~= "yesnocancel"@);
    assert(spelled(seq![Answer::Abort, Answer::Retry, Answer::Ignore]) =~= "abortretryignore"@);
    assert(spelled(seq![Answer::Retry, Answer::Cancel]) =~= "retrycancel"@);
    assert(spelled(seq![Answer::Cancel, Answer::TryAgain, Answer::Continue]) =~= "canceltrycontinue"@);
    assert(ok != "okcancel"@ && ok != "yesno"@ && ok != "yesnocancel"@ && ok != "abortretryignore"@
        && ok != "retrycancel"@ && ok != "canceltrycontinue"@) by {
        assert(ok.len() != "okcancel"@.len());
        assert(ok.len() != "yesnocancel"@.len());
        assert(ok.len() != "abortretryignore"@.len());
        assert(ok.len() != "retrycancel"@.len());
        assert(ok.len() != "canceltrycontinue"@.len());
        assert(ok[0] != "yesno"@[0]);
    }
    assert("yesno"@ != "okcancel"@) by { assert("yesno"@[0] != "okcancel"@[0]); }
    assert("yesnocancel"@ != "okcancel"@) by { assert("yesnocancel"@.len() != "okcancel"@.len()); }
    assert("yesnocancel"@ != "yesno"@) by { assert("yesnocancel"@.len() != "yesno"@.len()); }
    assert("abortretryignore"@ != "okcancel"@ && "abortretryignore"@ != "yesno"@ && "abortretryignore"@
        != "yesnocancel"@) by {
        assert("abortretryignore"@[0] != "okcancel"@[0]);
        assert("abortretryignore"@[0] != "yesno"@[0]);
        assert("abortretryignore"@[0] != "yesnocancel"@[0]);
    }
    assert("retrycancel"@ != "okcancel"@ && "retrycancel"@ != "yesno"@ && "retrycancel"@ != "yesnocancel"@
        && "retrycancel"@ != "abortretryignore"@) by {
        assert("retrycancel"@[0] != "okcancel"@[0]);
        assert("retrycancel"@[0] != "yesno"@[0]);
        assert("retrycancel"@[0] != "yesnocancel"@[0]);
        assert("retrycancel"@[0] != "abortretryignore"@[0]);
    }
    assert("canceltrycontinue"@ != "okcancel"@ && "canceltrycontinue"@ != "yesno"@ && "canceltrycontinue"@
        != "yesnocancel"@ && "canceltrycontinue"@ != "abortretryignore"@ && "canceltrycontinue"@
        != "retrycancel"@) by {
        assert("canceltrycontinue"@[0] != "okcancel"@[0]);
        assert("canceltrycontinue"@[0] != "yesno"@[0]);
        assert("canceltrycontinue"@[0] != "yesnocancel"@[0]);
        assert("canceltrycontinue"@[0] != "abortretryignore"@[0]);
        assert("canceltrycontinue"@[0] != "retrycancel"@[0]);
    }
}

/// The icon a name selects; no name, and any unknown name, select
/// `Information`.
pub open spec fn icon_named(name: Option<Seq<char>>) -> Icon {
    match name {
        None => Icon::Information,
        Some(s) => if s == "warning"@ {
            Icon::Warning
        } else if s == "error"@ {
            Icon::Error
        } else if s == "question"@ {
            Icon::Question
        } else {
            Icon::Information
        },
    }
}

/// The view of an optional string.
pub open spec fn opt_view(s: Option<&str>) -> Option<Seq<char>> {
    match s {
        Some(t) => Some(t@),
        None => None,
    }
}

/// The buttons that `messagebox` shows for its `buttons` argument.
pub fn buttons_for(name: Option<&str>) -> (res: Buttons)
    ensures
        res == buttons_named(opt_view(name)),
{
    match name {
        None => Buttons::OkOnly,
        Some(s) => if text_equal(s, "okcancel") {
            Buttons::OkCancel
        } else if text_equal(s, "yesno") {
            Buttons::YesNo
        } else if text_equal(s, "yesnocancel") {
            Buttons::YesNoCancel
        } else if text_equal(s, "abortretryignore") {
            Buttons::AbortRetryIgnore
        } else if text_equal(s, "retrycancel") {
            Buttons::RetryCancel
        } else if text_equal(s, "canceltrycontinue") {
            Buttons::CancelTryContinue
        } else {
            Buttons::OkOnly
        },
    }
}

/// The icon that `messagebox` shows for its `icon` argument.
pub fn icon_for(name: Option<&str>) -> (res: Icon)
    ensures
        res == icon_named(opt_view(name)),
{
    match name {
        None => Icon::Information,
        Some(s) => if text_equal(s, "warning") {
            Icon::Warning
        } else if text_equal(s, "error") {
            Icon::Error
        } else if text_equal(s, "question") {
            Icon::Question
        } else {
            Icon::Information
        },
    }
}

/// The name a script gets for an answer.
pub open spec fn answer_text(a: Answer) -> Seq<char> {
    match a {
        Answer::Okay => "ok"@,
        Answer::Cancel => "cancel"@,
        Answer::Abort => "abort"@,
        Answer::Retry => "retry"@,
        Answer::Ignore => "ignore"@,
        Answer::Yes => "yes"@,
        Answer::No => "no"@,
        Answer::TryAgain => "tryagain"@,
        Answer::Continue => "continue"@,
        Answer::Unknown => "unknown"@,
    }
}

/// The name `messagebox` returns for the button the box was closed with.
pub fn answer_name(a: Answer) -> (res: String)
    ensures
        res@ == answer_text(a),
{
    let s = match a {
        Answer::Okay => "ok",
        Answer::Cancel => "cancel",
        Answer::Abort => "abort",
        Answer::Retry => "retry",
        Answer::Ignore => "ignore",
        Answer::Yes => "yes",
        Answer::No => "no",
        Answer::TryAgain => "tryagain",
        Answer::Continue => "continue",
        Answer::Unknown => "unknown",
    };
    s.to_owned()
}

/// The title of a message box: the one given, else `Message`.
pub fn dialog_title(title: Option<String>) -> (res: String)
    ensures
        title matches Some(t) ==> res@ == t@,
        title is None ==> res@ == "Message"@,
{
    match title {
        Some(t) => t,
        None => "Message".to_owned(),
    }
}

/// What `str::to_lowercase` makes of `s`.
pub uninterp spec fn lowercase(s: Seq<char>) -> Seq<char>;

/// `s` holds no capital sigma, the one character whose lower case
/// `str::to_lowercase` chooses by what stands around it.
pub open spec fn no_capital_sigma(s: Seq<char>) -> bool {
    forall|i: int| 0 <= i < s.len() ==> #[trigger] s[i] != '\u{3a3}'
}

/// One character lower-cased on its own: an ASCII capital becomes its small
/// letter, any other ASCII character stays, and any other character is
/// lower-cased as a text of that character alone is.
pub open spec fn char_folded(c: char) -> Seq<char> {
    if 65 <= (c as u32) && (c as u32) <= 90 {
        seq![((c as u32) + 32) as char]
    } else if (c as u32) < 128 {
        seq![c]
    } else {
        lowercase(seq![c])
    }
}

/// Each character of `s` lower-cased on its own, one after another.
pub open spec fn lower_each(s: Seq<char>) -> Seq<char>
    decreases s.len(),
{
    if s.len() == 0 {
        Seq::empty()
    } else {
        lower_each(s.drop_last()) + char_folded(s.last())
    }
}

/// `c` with an ASCII small letter made capital.
pub open spec fn ascii_upper(c: char) -> char {
    if 97 <= (c as u32) && (c as u32) <= 122 {
        ((c as u32) - 32) as char
    } else {
        c
    }
}

/// `s` with its ASCII small letters made capital.
pub open spec fn ascii_upper_text(s: Seq<char>) -> Seq<char> {
    s.map_values(|c: char| ascii_upper(c))
}

/// `s` lower-cased as `str::to_lowercase` does it: character by character
/// where no capital sigma stands in it.
pub open spec fn folded(s: Seq<char>) -> Seq<char> {
    if no_capital_sigma(s) {
        lower_each(s)
    } else {
        lowercase(s)
    }
}

/// `str::to_lowercase`. Its result is named `lowercase`. Claimed too is what
/// std documents and its source shows: every character but a capital sigma
/// is mapped on its own (by its Unicode lower-case mapping, the same as in a
/// text of that character alone, which for ASCII turns `A`-`Z` into `a`-`z`
/// and keeps the rest), so a text without one is the lower case of each of
/// its characters in turn. The mapping of other characters is left unsaid.
#[verifier::external_body]
fn to_lowercase(s: &str) -> (res: String)
    ensures
        res@ == lowercase(s@),
        no_capital_sigma(s@) ==> res@ == lower_each(s@),
{
    s.to_lowercase()
}

/// A capital ASCII letter and its small letter lower-case alike.
proof fn lemma_fold_upper_char(c: char)
    ensures
        char_folded(ascii_upper(c)) == char_folded(c),
{
    if 97 <= (c as u32) && (c as u32) <= 122 {
        let u = ((c as u32) - 32) as char;
        assert((u as u32) == (c as u32) - 32);
        assert((((u as u32) + 32) as char) == c);
    }
}

/// Making ASCII small letters capital changes nothing that lower-casing
/// each character gives.
proof fn lemma_fold_upper_text(s: Seq<char>)
    ensures
        lower_each(ascii_upper_text(s)) == lower_each(s),
        no_capital_sigma(s) ==> no_capital_sigma(ascii_upper_text(s)),
    decreases s.len(),
{
    if s.len() > 0 {
        lemma_fold_upper_text(s.drop_last());
        assert(ascii_upper_text(s).drop_last() =~= ascii_upper_text(s.drop_last()));
        assert(ascii_upper_text(s).last() == ascii_upper(s.last()));
        lemma_fold_upper_char(s.last());
    }
    if no_capital_sigma(s) {
        assert forall|i: int| 0 <= i < ascii_upper_text(s).len() implies #[trigger] ascii_upper_text(s)[i]
            != '\u{3a3}' by {
            assert(ascii_upper_text(s)[i] == ascii_upper(s[i]));
            assert(s[i] != '\u{3a3}');
        }
    }
}

/// A title search that ignores case does not tell ASCII letters of either
/// case apart: making the small letters of the query, or of the title,
/// capital does not change which windows it finds (texts without a capital
/// sigma, whose lower case depends on its neighbours).
pub proof fn lemma_ignore_case_ascii_letters(query: Seq<char>, title: Seq<char>, visible: bool)
    requires
        no_capital_sigma(query),
        no_capital_sigma(title),
    ensures
        window_matches(TitleMatch::IgnoreCase, ascii_upper_text(query), visible, Some(title)) == window_matches(
            TitleMatch::IgnoreCase,
            query,
            visible,
            Some(title),
        ),
        window_matches(TitleMatch::IgnoreCase, query, visible, Some(ascii_upper_text(title))) == window_matches(
            TitleMatch::IgnoreCase,
            query,
            visible,
            Some(title),
        ),
{
    lemma_fold_upper_text(query);
    lemma_fold_upper_text(title);
}

/// Lower-casing each character of two texts one after another is
/// lower-casing each, one after the other.
pub proof fn lemma_lower_each_concat(a: Seq<char>, b: Seq<char>)
    ensures
        lower_each(a + b) == lower_each(a) + lower_each(b),
    decreases b.len(),
{
    if b.len() == 0 {
        assert(a + b =~= a);
        assert(lower_each(a) + lower_each(b) =~= lower_each(a));
    } else {
        lemma_lower_each_concat(a, b.drop_last());
        assert((a + b).drop_last() =~= a + b.drop_last());
        assert((a + b).last() == b.last());
        assert(lower_each(a) + (lower_each(b.drop_last()) + char_folded(b.last())) =~= (lower_each(a)
            + lower_each(b.drop_last())) + char_folded(b.last()));
    }
}

/// A title search that ignores case finds every visible window whose title
/// holds the query as typed (titles without a capital sigma, whose lower case
/// depends on its neighbours), and so does a search that does not.
pub proof fn lemma_ignore_case_finds_typed_query(query: Seq<char>, title: Seq<char>)
    requires
        contains_seq(title, query),
    ensures
        window_matches(TitleMatch::Exact, query, true, Some(title)),
        no_capital_sigma(title) ==> window_matches(TitleMatch::IgnoreCase, query, true, Some(title)),
{
    if no_capital_sigma(title) {
        let k = choose|k: int| occurs_at(title, query, k);
        let pre = title.subrange(0, k);
        let post = title.subrange(k + query.len(), title.len() as int);
        assert(title =~= pre + query + post);
        assert(no_capital_sigma(query)) by {
            assert forall|i: int| 0 <= i < query.len() implies #[trigger] query[i] != '\u{3a3}' by {
                assert(query[i] == title[k + i]);
            }
        }
        lemma_lower_each_concat(pre, query);
        lemma_lower_each_concat(pre + query, post);
        let big = lower_each(title);
        let lq = lower_each(query);
        let lp = lower_each(pre);
        assert(big =~= lp + lq + lower_each(post));
        assert(big.subrange(lp.len() as int, (lp.len() + lq.len()) as int) =~= lq);
        assert(occurs_at(big, lq, lp.len() as int));
    }
}

/// How a search compares a window title with the query.
#[derive(PartialEq, Eq, Structural, Clone, Copy, Debug)]
pub enum TitleMatch {
    /// The query occurs in the title as it is.
    Exact,
    /// The query occurs in the title when both are lower-cased (`folded`).
    IgnoreCase,
}

/// A visible window with a non-empty title matches the query.
pub open spec fn window_matches(mode: TitleMatch, query: Seq<char>, visible: bool, title: Option<Seq<char>>) -> bool {
    visible && match title {
        Some(t) => match mode {
            TitleMatch::Exact => contains_seq(t, query),
            TitleMatch::IgnoreCase => contains_seq(folded(t), folded(query)),
        },
        None => false,
    }
}

/// A search over the top-level windows for titles holding a query: every
/// match, or only the first.
pub struct WindowSearch {
    query: String,
    mode: TitleMatch,
    first_only: bool,
    found: Vec<usize>,
}

impl WindowSearch {
    /// The query.
    pub closed spec fn query(self) -> Seq<char> {
        self.query@
    }

    /// How titles are compared.
    pub closed spec fn mode(self) -> TitleMatch {
        self.mode
    }

    /// Whether the search stops at the first match.
    pub closed spec fn first_only(self) -> bool {
        self.first_only
    }

    /// The windows found so far, in the order they were visited.
    pub closed spec fn found(self) -> Seq<usize> {
        self.found@
    }

    /// `find_windows`: every visible window whose title holds `query`.
    pub fn all_matching(query: String) -> (res: WindowSearch)
        ensures
            res.query() == query@,
            res.mode() == TitleMatch::Exact,
            !res.first_only(),
            res.found() == Seq::<usize>::empty(),
    {
        WindowSearch { query, mode: TitleMatch::Exact, first_only: false, found: Vec::new() }
    }

    /// `find_window_by_text`: the first visible window whose title holds
    /// `query`, ignoring case.
    pub fn first_matching(query: String) -> (res: WindowSearch)
        ensures
            res.query() == query@,
            res.mode() == TitleMatch::IgnoreCase,
            res.first_only(),
            res.found() == Seq::<usize>::empty(),
    {
        WindowSearch { query, mode: TitleMatch::IgnoreCase, first_only: true, found: Vec::new() }
    }

    /// Visits the window `handle`, given whether it is visible and its title
    /// (`None` when it has none or it could not be read). A matching window
    /// is found; the answer says whether to visit more windows, which is
    /// false once a first-only search has found one.
    pub fn visit(&mut self, handle: usize, visible: bool, title: Option<String>) -> (more: bool)
        ensures
            final(self).query() == old(self).query(),
            final(self).mode() == old(self).mode(),
            final(self).first_only() == old(self).first_only(),
            ({
                let hit = window_matches(old(self).mode(), old(self).query(), visible, match title {
                    Some(t) => Some(t@),
                    None => None,
                });
                &&& hit ==> final(self).found() == old(self).found().push(handle)
                &&& !hit ==> final(self).found() == old(self).found()
                &&& more == !(hit && old(self).first_only())
            }),
    {
        if !visible {
            return true;
        }
        let hit = match &title {
            Some(t) => match self.mode {
                TitleMatch::Exact => text_contains(t.as_str(), self.query.as_str()),
                TitleMatch::IgnoreCase => {
                    let lt = to_lowercase(t.as_str());
                    let lq = to_lowercase(self.query.as_str());
                    text_contains(lt.as_str(), lq.as_str())
                },
            },
            None => false,
        };
        if hit {
            self.found.push(handle);
            !self.first_only
        } else {
            true
        }
    }

    /// The windows found, in the order they were visited.
    pub fn found_windows(&self) -> (res: Vec<usize>)
        ensures
            res@ == self.found(),
    {
        self.found.clone()
    }

    /// The first window found, or 0 when there is none.
    pub fn first_found(&self) -> (res: usize)
        ensures
            self.found().len() == 0 ==> res == 0,
            self.found().len() > 0 ==> res == self.found()[0],
    {
        if self.found.len() == 0 {
            0
        } else {
            self.found[0]
        }
    }
}

} // verus!
