//! Application listings: the installed applications that the device manager
//! prints as a property list, and the running applications that the launch
//! daemon prints.

use vstd::prelude::*;
use crate::search::{first_where, lemma_first_where_is};
use crate::order::{
    lemma_text_before_total, lemma_text_before_transitive, precedes, text_before,
};
use crate::text::{
    chars_of, contains, contains_seq, is_space, is_whitespace, lines, lines_of, lowercase,
    same_chars, string_of, trim, trimmed, views,
};

verus! {

/// A compiled expression of the `regex` crate, carried as an opaque value.
#[verifier::external_type_specification]
#[verifier::external_body]
pub struct ExRegex(regex::Regex);

/// The error type of the `regex` crate, carried as an opaque value.
#[verifier::external_type_specification]
#[verifier::external_body]
pub struct ExRegexError(regex::Error);

/// Whether `pattern` is a regular expression that the matcher accepts.
pub uninterp spec fn is_pattern(pattern: Seq<char>) -> bool;

/// The pattern that a compiled expression was made from.
pub uninterp spec fn pattern_of(re: regex::Regex) -> Seq<char>;

/// What the first group of `pattern` captures in the leftmost match in
/// `text`, or `None` where `text` has no match or the group takes no part in
/// it.
pub uninterp spec fn first_group(pattern: Seq<char>, text: Seq<char>) -> Option<Seq<char>>;

/// `regex::Regex::new` compiles a pattern, or fails where the pattern is not
/// valid or too large. The compiled expression keeps the pattern it was made
/// from.
#[verifier::external_body]
fn compile(pattern: &str) -> (r: Result<regex::Regex, regex::Error>)
    ensures
        match r {
            Ok(re) => is_pattern(pattern@) && pattern_of(re) == pattern@,
            Err(_) => !is_pattern(pattern@),
        },
{
    regex::Regex::new(pattern)
}

/// `regex::Regex::captures` finds the leftmost match in the text, and
/// `Captures::get(1)` gives the part that the first group matched. The
/// contract claims only that the outcome is a function of pattern and text.
#[verifier::external_body]
fn capture(re: &regex::Regex, text: &str) -> (r: Option<String>)
    ensures
        match r {
            Some(s) => first_group(pattern_of(*re), text@) == Some(s@),
            None => first_group(pattern_of(*re), text@) is None,
        },
{
    re.captures(text).and_then(|c| c.get(1)).map(|m| m.as_str().to_string())
}

/// A line that opens the record of an application: the bundle identifier in
/// double quotes, indented, followed by `= {`.
pub const BUNDLE_PATTERN: &'static str = "^\\s+\"([^\"]+)\"\\s+=\\s+\\{";

/// A line that gives the display name of an application.
pub const DISPLAY_PATTERN: &'static str = "CFBundleDisplayName\\s*=\\s*\"?([^\";]+)\"?\\s*;";

/// A line of the launch daemon that names a running application.
pub const ACTIVITY_PATTERN: &'static str = "UIKitApplication:([^\\[]+)\\[";

/// A pattern of this module was not accepted by the matcher.
#[derive(Clone, Copy, Debug, PartialEq, Eq, Structural)]
pub struct PatternError;

/// What a line of a listing of installed applications says.
#[derive(Clone, Debug, PartialEq, Eq)]
pub enum LineKind {
    /// The line opens the record of the application with this bundle
    /// identifier.
    Opens(String),
    /// The line gives this display name.
    Names(String),
    /// The line says nothing that matters here.
    Other,
}

/// The mathematical value of a `LineKind`.
pub enum LineKindView {
    Opens(Seq<char>),
    Names(Seq<char>),
    Other,
}

impl View for LineKind {
    type V = LineKindView;

    open spec fn view(&self) -> LineKindView {
        match self {
            LineKind::Opens(b) => LineKindView::Opens(b@),
            LineKind::Names(d) => LineKindView::Names(d@),
            LineKind::Other => LineKindView::Other,
        }
    }
}

/// What `line` says: it opens a record where the bundle pattern matches it,
/// and else gives a display name where the display pattern matches it.
pub open spec fn line_kind(line: Seq<char>) -> LineKindView {
    match first_group(BUNDLE_PATTERN@, line) {
        Some(b) => LineKindView::Opens(b),
        None => match first_group(DISPLAY_PATTERN@, line) {
            Some(d) => LineKindView::Names(d),
            None => LineKindView::Other,
        },
    }
}

/// What is known while the records of a listing are read: the entries of the
/// records that are closed, and the bundle identifier and display name of the
/// record that is open.
#[derive(Clone, Debug)]
pub struct RecordScan {
    pub entries: Vec<String>,
    pub bundle: Option<String>,
    pub display: Option<String>,
}

/// The mathematical value of a `RecordScan`.
pub struct Scan {
    pub entries: Seq<Seq<char>>,
    pub bundle: Option<Seq<char>>,
    pub display: Option<Seq<char>>,
}

/// The view of an optional text.
pub open spec fn optional_view(o: Option<String>) -> Option<Seq<char>> {
    match o {
        Some(v) => Some(v@),
        None => None,
    }
}

impl View for RecordScan {
    type V = Scan;

    open spec fn view(&self) -> Scan {
        Scan {
            entries: self.entries.deep_view(),
            bundle: optional_view(self.bundle),
            display: optional_view(self.display),
        }
    }
}

/// The entry of an application: its bundle identifier, followed by its
/// display name in parentheses where it has one.
pub open spec fn entry(bundle: Seq<char>, display: Option<Seq<char>>) -> Seq<char> {
    match display {
        Some(d) => if d.len() == 0 {
            bundle
        } else {
            bundle + seq![' ', '('] + d + seq![')']
        },
        None => bundle,
    }
}

/// The entries of `scan` with that of the open record, if there is one.
pub open spec fn closed(scan: Scan) -> Seq<Seq<char>> {
    match scan.bundle {
        Some(b) => scan.entries.push(entry(b, scan.display)),
        None => scan.entries,
    }
}

/// What is known after one more line. A line that opens a record closes the
/// record before it; a line that gives a display name sets the name of the
/// open record, if there is one, to what it gives without the white space
/// around it; every other line changes nothing.
pub open spec fn after(scan: Scan, line: LineKindView) -> Scan {
    match line {
        LineKindView::Opens(b) => Scan { entries: closed(scan), bundle: Some(b), display: None },
        LineKindView::Names(d) => if scan.bundle is Some {
            Scan { display: Some(trimmed(d)), ..scan }
        } else {
            scan
        },
        LineKindView::Other => scan,
    }
}

/// What is known after `lines`.
pub open spec fn after_lines(lines: Seq<Seq<char>>) -> Scan
    decreases lines.len(),
{
    if lines.len() == 0 {
        Scan { entries: Seq::empty(), bundle: None, display: None }
    } else {
        after(after_lines(lines.drop_last()), line_kind(lines.last()))
    }
}

/// The entries of the applications that `listing` records, in its order.
pub open spec fn app_entries(listing: Seq<char>) -> Seq<Seq<char>> {
    closed(after_lines(lines_of(listing)))
}

/// Makes the entry of an application.
pub fn entry_of(bundle: &str, display: Option<&str>) -> (e: String)
    ensures
        e@ == entry(
            bundle@,
            match display {
                Some(d) => Some(d@),
                None => None,
            },
        ),
{
    let mut e: Vec<char> = chars_of(bundle);
    match display {
        Some(name) => {
            let d: Vec<char> = chars_of(name);
            if d.len() > 0 {
                e.push(' ');
                e.push('(');
                let mut i: usize = 0;
                while i < d.len()
                    invariant
                        i <= d.len(),
                        e@ == bundle@ + seq![' ', '('] + d@.take(i as int),
                    decreases d.len() - i,
                {
                    e.push(d[i]);
                    i += 1;
                }
                e.push(')');
                proof {
                    assert(d@.take(d.len() as int) == d@);
                }
            }
        },
        None => {},
    }
    string_of(e.as_slice())
}

impl RecordScan {
    /// Nothing read yet.
    pub fn new() -> (scan: RecordScan)
        ensures
            scan@ == after_lines(Seq::empty()),
    {
        let scan = RecordScan { entries: Vec::new(), bundle: None, display: None };
        proof {
            assert(scan.entries.deep_view() == Seq::<Seq<char>>::empty());
        }
        scan
    }

    /// Closes the open record, if there is one.
    fn close(&mut self)
        ensures
            final(self).entries.deep_view() == closed(old(self)@),
            final(self).bundle is None,
            final(self).display is None,
    {
        let ghost before = self.entries.deep_view();
        let open: Option<String> = self.bundle.take();
        let shown: Option<String> = self.display.take();
        match open {
            Some(b) => {
                let e: String = match &shown {
                    Some(d) => entry_of(b.as_str(), Some(d.as_str())),
                    None => entry_of(b.as_str(), None),
                };
                self.entries.push(e);
                proof {
                    assert(self.entries.deep_view() == before.push(e@));
                }
            },
            None => {},
        }
    }

    /// Takes in what one more line says.
    pub fn line(&mut self, kind: LineKind)
        ensures
            final(self)@ == after(old(self)@, kind@),
    {
        match kind {
            LineKind::Opens(b) => {
                self.close();
                self.bundle = Some(b);
                self.display = None;
            },
            LineKind::Names(d) => {
                if self.bundle.is_some() {
                    let shown: Vec<char> = chars_of(d.as_str());
                    self.display = Some(string_of(trim(shown.as_slice())));
                }
            },
            LineKind::Other => {},
        }
    }

    /// The entries of all records read, the open one included.
    pub fn finish(self) -> (entries: Vec<String>)
        ensures
            entries.deep_view() == closed(self@),
    {
        let mut scan = self;
        scan.close();
        scan.entries
    }
}

/// Says what `line` says.
fn classify(line: &str, bundle_re: &regex::Regex, display_re: &regex::Regex) -> (kind: LineKind)
    requires
        pattern_of(*bundle_re) == BUNDLE_PATTERN@,
        pattern_of(*display_re) == DISPLAY_PATTERN@,
    ensures
        kind@ == line_kind(line@),
{
    match capture(bundle_re, line) {
        Some(b) => LineKind::Opens(b),
        None => match capture(display_re, line) {
            Some(d) => LineKind::Names(d),
            None => LineKind::Other,
        },
    }
}

/// Reads the entries of the applications that `listing` records.
fn read_entries(listing: &str, bundle_re: &regex::Regex, display_re: &regex::Regex) -> (out: Vec<
    String,
>)
    requires
        pattern_of(*bundle_re) == BUNDLE_PATTERN@,
        pattern_of(*display_re) == DISPLAY_PATTERN@,
    ensures
        out.deep_view() == app_entries(listing@),
{
    let text: Vec<char> = chars_of(listing);
    let all: Vec<Vec<char>> = lines(text.as_slice());
    let mut scan: RecordScan = RecordScan::new();
    let mut i: usize = 0;
    proof {
        assert(views(all@).take(0) == Seq::<Seq<char>>::empty());
    }
    while i < all.len()
        invariant
            i <= all.len(),
            pattern_of(*bundle_re) == BUNDLE_PATTERN@,
            pattern_of(*display_re) == DISPLAY_PATTERN@,
            scan@ == after_lines(views(all@).take(i as int)),
        decreases all.len() - i,
    {
        proof {
            let t = views(all@).take(i + 1);
            assert(t.drop_last() == views(all@).take(i as int));
            assert(t.last() == all@[i as int]@);
        }
        let line: String = string_of(all[i].as_slice());
        scan.line(classify(line.as_str(), bundle_re, display_re));
        i += 1;
    }
    proof {
        assert(views(all@).take(all.len() as int) == views(all@));
    }
    scan.finish()
}

/// Whether every text of `s` comes before the texts behind it in dictionary
/// order. Such a list holds no text twice.
pub open spec fn ascending(s: Seq<Seq<char>>) -> bool {
    forall|i: int, j: int| 0 <= i < j < s.len() ==> text_before(s[i], s[j])
}

/// Whether the entry `e` passes `filter`: its lowercase form contains the
/// lowercase form of the filter. Without a filter every entry passes.
pub open spec fn passes(e: Seq<char>, filter: Option<Seq<char>>) -> bool {
    match filter {
        Some(f) => contains_seq(lowercase(e), lowercase(f)),
        None => true,
    }
}

/// Whether `out` is the list of installed applications that `listing` gives
/// under `filter`: it holds exactly the entries of `listing` that pass the
/// filter, each once, in dictionary order.
pub open spec fn is_app_list(out: Seq<Seq<char>>, listing: Seq<char>, filter: Option<Seq<char>>) -> bool {
    &&& ascending(out)
    &&& forall|e: Seq<char>| #[trigger]
        out.contains(e) <==> app_entries(listing).contains(e) && passes(e, filter)
}

/// Two ascending lists with the same texts are the same list.
pub proof fn lemma_ascending_is_unique(a: Seq<Seq<char>>, b: Seq<Seq<char>>)
    requires
        ascending(a),
        ascending(b),
        forall|e: Seq<char>| a.contains(e) <==> b.contains(e),
    ensures
        a == b,
    decreases a.len(),
{
    if a.len() == 0 {
        if b.len() > 0 {
            assert(b.contains(b[0]));
            assert(a.contains(b[0]));
        }
        assert(a == b);
    } else {
        assert(a.contains(a.last()));
        assert(b.contains(a.last()));
        let k = choose|k: int| 0 <= k < b.len() && b[k] == a.last();
        if k < b.len() - 1 {
            assert(b.contains(b.last()));
            assert(a.contains(b.last()));
            let m = choose|m: int| 0 <= m < a.len() && a[m] == b.last();
            assert(text_before(b[k], b.last()));
            lemma_text_before_total(a.last(), b.last());
            if m < a.len() - 1 {
                assert(text_before(a[m], a.last()));
            }
            assert(false);
        }
        let a0 = a.drop_last();
        let b0 = b.drop_last();
        assert forall|e: Seq<char>| a0.contains(e) <==> b0.contains(e) by {
            if a0.contains(e) {
                let i = choose|i: int| 0 <= i < a0.len() && a0[i] == e;
                assert(a[i] == e);
                assert(a.contains(e));
                assert(text_before(a[i], a.last()));
                lemma_text_before_total(e, a.last());
                let j = choose|j: int| 0 <= j < b.len() && b[j] == e;
                assert(b0[j] == e);
            }
            if b0.contains(e) {
                let j = choose|j: int| 0 <= j < b0.len() && b0[j] == e;
                assert(b[j] == e);
                assert(b.contains(e));
                assert(text_before(b[j], b.last()));
                lemma_text_before_total(e, b.last());
                let i = choose|i: int| 0 <= i < a.len() && a[i] == e;
                assert(a0[i] == e);
            }
        }
        assert forall|i: int, j: int| 0 <= i < j < a0.len() implies text_before(a0[i], a0[j]) by {
            assert(a0[i] == a[i] && a0[j] == a[j]);
        }
        assert forall|i: int, j: int| 0 <= i < j < b0.len() implies text_before(b0[i], b0[j]) by {
            assert(b0[i] == b[i] && b0[j] == b[j]);
        }
        lemma_ascending_is_unique(a0, b0);
        assert(a == a0.push(a.last()));
        assert(b == b0.push(b.last()));
    }
}

/// Puts `x` into the ascending list `out`, unless `out` holds it already.
fn insert_distinct(out: &mut Vec<Vec<char>>, x: Vec<char>)
    requires
        ascending(views(old(out)@)),
    ensures
        ascending(views(final(out)@)),
        forall|e: Seq<char>| #[trigger]
            views(final(out)@).contains(e) <==> views(old(out)@).contains(e) || e == x@,
{
    let ghost before = views(out@);
    let mut at: usize = out.len();
    while at > 0 && precedes(x.as_slice(), out[at - 1].as_slice())
        invariant
            at <= out.len(),
            before == views(out@),
            forall|k: int| at <= k < before.len() ==> text_before(x@, #[trigger] before[k]),
        decreases at,
    {
        at -= 1;
    }
    if at > 0 && same_chars(out[at - 1].as_slice(), x.as_slice()) {
        proof {
            assert(before[at - 1] == x@);
            assert(before.contains(x@));
        }
        return ;
    }
    proof {
        if at > 0 {
            lemma_text_before_total(before[at - 1], x@);
            assert forall|k: int| 0 <= k < at implies text_before(#[trigger] before[k], x@) by {
                if k < at - 1 {
                    assert(text_before(before[k], before[at - 1]));
                    lemma_text_before_transitive(before[k], before[at - 1], x@);
                }
            }
        }
    }
    out.insert(at, x);
    proof {
        let after = views(out@);
        assert(after.len() == before.len() + 1);
        assert(after[at as int] == x@);
        assert forall|k: int| 0 <= k < after.len() implies #[trigger] after[k] == (if k < at {
            before[k]
        } else if k == at {
            x@
        } else {
            before[k - 1]
        }) by {}
        assert forall|i: int, j: int| 0 <= i < j < after.len() implies text_before(
            after[i],
            after[j],
        ) by {
            if j < at {
                assert(text_before(before[i], before[j]));
            } else if j == at {
                assert(text_before(before[i], x@));
            } else if i < at {
                assert(text_before(before[i], before[j - 1]));
            } else if i == at {
                assert(text_before(x@, before[j - 1]));
            } else {
                assert(text_before(before[i - 1], before[j - 1]));
            }
        }
        assert forall|e: Seq<char>| #[trigger]
            after.contains(e) <==> before.contains(e) || e == x@ by {
            if after.contains(e) {
                let k = choose|k: int| 0 <= k < after.len() && after[k] == e;
                if k < at {
                    assert(before[k] == e);
                } else if k > at {
                    assert(before[k - 1] == e);
                }
            }
            if before.contains(e) {
                let k = choose|k: int| 0 <= k < before.len() && before[k] == e;
                if k < at {
                    assert(after[k] == e);
                } else {
                    assert(after[k + 1] == e);
                }
            }
        }
    }
}

/// Puts `entries` in dictionary order and leaves out repetitions: the result
/// is ascending and holds exactly the texts that `entries` holds.
pub fn sort_distinct(entries: &[String]) -> (out: Vec<String>)
    ensures
        ascending(out.deep_view()),
        forall|e: Seq<char>| #[trigger]
            out.deep_view().contains(e) <==> entries.deep_view().contains(e),
{
    let ghost all = entries.deep_view();
    let mut kept: Vec<Vec<char>> = Vec::new();
    let mut i: usize = 0;
    while i < entries.len()
        invariant
            i <= entries.len(),
            all == entries.deep_view(),
            ascending(views(kept@)),
            forall|e: Seq<char>| #[trigger]
                views(kept@).contains(e) <==> all.take(i as int).contains(e),
        decreases entries.len() - i,
    {
        insert_distinct(&mut kept, chars_of(entries[i].as_str()));
        proof {
            let t = all.take(i + 1);
            assert(t.drop_last() == all.take(i as int));
            assert(t.last() == entries@[i as int]@);
            assert forall|e: Seq<char>| #[trigger] views(kept@).contains(e) <==> t.contains(e) by {
                if t.contains(e) {
                    let k = choose|k: int| 0 <= k < t.len() && t[k] == e;
                    if k < i {
                        assert(all.take(i as int)[k] == e);
                    }
                }
                if all.take(i as int).contains(e) {
                    let k = choose|k: int| 0 <= k < i && all.take(i as int)[k] == e;
                    assert(t[k] == e);
                }
                if e == t.last() {
                    assert(t[i as int] == e);
                }
            }
        }
        i += 1;
    }
    proof {
        assert(all.take(entries.len() as int) == all);
    }
    let mut out: Vec<String> = Vec::new();
    let mut k: usize = 0;
    while k < kept.len()
        invariant
            k <= kept.len(),
            out.deep_view() == views(kept@).take(k as int),
        decreases kept.len() - k,
    {
        let ghost done = out.deep_view();
        let text: String = string_of(kept[k].as_slice());
        out.push(text);
        proof {
            assert(out.deep_view() == done.push(kept@[k as int]@));
        }
        k += 1;
    }
    proof {
        assert(views(kept@).take(kept.len() as int) == views(kept@));
    }
    out
}

/// Whether the entry `e` passes `filter`, given in lowercase.
fn entry_passes(
    e: &str,
    filter: &Option<Vec<char>>,
    Ghost(given): Ghost<Option<Seq<char>>>,
) -> (r: bool)
    requires
        match given {
            Some(f) => filter matches Some(l) && l@ == lowercase(f),
            None => filter is None,
        },
    ensures
        r == passes(e@, given),
{
    match filter {
        Some(l) => {
            let lower: Vec<char> = chars_of(e.to_lowercase().as_str());
            contains(lower.as_slice(), l.as_slice())
        },
        None => true,
    }
}

/// The view of an optional filter.
pub open spec fn filter_view(filter: Option<&str>) -> Option<Seq<char>> {
    match filter {
        Some(f) => Some(f@),
        None => None,
    }
}

/// Lists the installed applications that `listing` records: the entries that
/// pass `filter`, in dictionary order, each once. Fails only where the
/// matcher does not accept a pattern of this module.
pub fn list_apps(listing: &str, filter: Option<&str>) -> (r: Result<Vec<String>, PatternError>)
    ensures
        match r {
            Ok(apps) => is_pattern(BUNDLE_PATTERN@) && is_pattern(DISPLAY_PATTERN@) && is_app_list(
                apps.deep_view(),
                listing@,
                filter_view(filter),
            ),
            Err(_) => !is_pattern(BUNDLE_PATTERN@) || !is_pattern(DISPLAY_PATTERN@),
        },
{
    let bundle_re: regex::Regex = match compile(BUNDLE_PATTERN) {
        Ok(re) => re,
        Err(_) => {
            return Err(PatternError);
        },
    };
    let display_re: regex::Regex = match compile(DISPLAY_PATTERN) {
        Ok(re) => re,
        Err(_) => {
            return Err(PatternError);
        },
    };
    let entries: Vec<String> = read_entries(listing, &bundle_re, &display_re);
    let lower: Option<Vec<char>> = match filter {
        Some(f) => Some(chars_of(f.to_lowercase().as_str())),
        None => None,
    };
    let ghost given = filter_view(filter);
    let ghost all = entries.deep_view();
    let mut kept: Vec<String> = Vec::new();
    let mut i: usize = 0;
    while i < entries.len()
        invariant
            i <= entries.len(),
            all == entries.deep_view(),
            match given {
                Some(f) => lower matches Some(l) && l@ == lowercase(f),
                None => lower is None,
            },
            forall|e: Seq<char>| #[trigger]
                kept.deep_view().contains(e) <==> all.take(i as int).contains(e) && passes(e, given),
        decreases entries.len() - i,
    {
        let ghost so_far = kept.deep_view();
        if entry_passes(entries[i].as_str(), &lower, Ghost(given)) {
            kept.push(entries[i].clone());
            proof {
                assert(kept.deep_view() == so_far.push(entries@[i as int]@));
            }
        }
        proof {
            let t = all.take(i + 1);
            let now = kept.deep_view();
            assert(t.drop_last() == all.take(i as int));
            assert(t.last() == entries@[i as int]@);
            assert forall|e: Seq<char>| #[trigger] now.contains(e) <==> t.contains(e) && passes(
                e,
                given,
            ) by {
                if now.contains(e) {
                    let k = choose|k: int| 0 <= k < now.len() && now[k] == e;
                    if k < so_far.len() {
                        assert(so_far[k] == e);
                        assert(so_far.contains(e));
                        let m = choose|m: int| 0 <= m < i && all.take(i as int)[m] == e;
                        assert(t[m] == e);
                    } else {
                        assert(t[i as int] == e);
                    }
                }
                if t.contains(e) && passes(e, given) {
                    let k = choose|k: int| 0 <= k < t.len() && t[k] == e;
                    if k < i {
                        assert(all.take(i as int)[k] == e);
                        assert(so_far.contains(e));
                        let m = choose|m: int| 0 <= m < so_far.len() && so_far[m] == e;
                        assert(now[m] == e);
                    } else {
                        assert(now[now.len() - 1] == e);
                    }
                }
            }
        }
        i += 1;
    }
    proof {
        assert(all.take(entries.len() as int) == all);
    }
    let shown: &[String] = kept.as_slice();
    proof {
        assert(shown.deep_view() == kept.deep_view());
    }
    Ok(sort_distinct(shown))
}

/// The first word of `line`: what stands between the white space it starts
/// with and the next white space. It is empty where the line holds no word.
pub open spec fn first_word(line: Seq<char>) -> Seq<char> {
    let t = trimmed(line);
    t.take(first_where(t, |c: char| is_space(c)))
}

/// Whether `bundle` names one of the system services that run in the
/// background of every device.
pub open spec fn is_service(bundle: Seq<char>) -> bool {
    ||| contains_seq(bundle, "WidgetRenderer"@)
    ||| contains_seq(bundle, "ViewService"@)
    ||| contains_seq(bundle, "Spotlight"@)
}

/// Whether `line` reports the application `bundle` as running: the
/// application is no system service, and the first word of the line, the
/// process number, is not a dash.
pub open spec fn reports_running_spec(bundle: Seq<char>, line: Seq<char>) -> bool {
    !is_service(bundle) && first_word(line).len() > 0 && first_word(line) != seq!['-']
}

/// The application that `line` reports as running, if any: the line names an
/// application and reports it as running.
pub open spec fn running_app(line: Seq<char>) -> Option<Seq<char>> {
    match first_group(ACTIVITY_PATTERN@, line) {
        Some(bundle) => if reports_running_spec(bundle, line) {
            Some(bundle)
        } else {
            None
        },
        None => None,
    }
}

/// The applications that `lines` report as running, in order.
pub open spec fn running_among(lines: Seq<Seq<char>>) -> Seq<Seq<char>>
    decreases lines.len(),
{
    if lines.len() == 0 {
        Seq::empty()
    } else {
        let init = running_among(lines.drop_last());
        match running_app(lines.last()) {
            Some(bundle) => init.push(bundle),
            None => init,
        }
    }
}

/// The applications that the process list `listing` reports as running.
pub open spec fn running_apps_spec(listing: Seq<char>) -> Seq<Seq<char>> {
    running_among(lines_of(listing))
}

/// Whether the first word of `line` is a process number, not a dash.
fn has_process_number(line: &[char]) -> (r: bool)
    ensures
        r == (first_word(line@).len() > 0 && first_word(line@) != seq!['-']),
{
    let t: &[char] = trim(line);
    let mut end: usize = 0;
    while end < t.len() && !is_whitespace(t[end])
        invariant
            end <= t.len(),
            forall|j: int| 0 <= j < end ==> !is_space(#[trigger] t@[j]),
        decreases t.len() - end,
    {
        end += 1;
    }
    proof {
        lemma_first_where_is(t@, |c: char| is_space(c), end as int);
        if end == 1 {
            assert(t@.take(1)[0] == t@[0]);
            if t@[0] == '-' {
                assert(t@.take(1) == seq!['-']);
            }
        }
        assert(seq!['-'].len() == 1);
    }
    end > 0 && !(end == 1 && t[0] == '-')
}

/// Whether `bundle` names a system service.
fn names_service(bundle: &[char]) -> (r: bool)
    ensures
        r == is_service(bundle@),
{
    let widget: Vec<char> = chars_of("WidgetRenderer");
    let view: Vec<char> = chars_of("ViewService");
    let spotlight: Vec<char> = chars_of("Spotlight");
    contains(bundle, widget.as_slice()) || contains(bundle, view.as_slice()) || contains(
        bundle,
        spotlight.as_slice(),
    )
}

/// Whether `line`, which names the application `bundle`, reports it as
/// running.
pub fn reports_running(bundle: &str, line: &str) -> (r: bool)
    ensures
        r == reports_running_spec(bundle@, line@),
{
    let name: Vec<char> = chars_of(bundle);
    let text: Vec<char> = chars_of(line);
    !names_service(name.as_slice()) && has_process_number(text.as_slice())
}

/// Lists the applications that the process list `listing` reports as
/// running, in its order; the first is the one in the foreground. Fails only
/// where the matcher does not accept the pattern of this module.
pub fn running_apps(listing: &str) -> (r: Result<Vec<String>, PatternError>)
    ensures
        match r {
            Ok(apps) => is_pattern(ACTIVITY_PATTERN@) && apps.deep_view() == running_apps_spec(
                listing@,
            ),
            Err(_) => !is_pattern(ACTIVITY_PATTERN@),
        },
{
    let re: regex::Regex = match compile(ACTIVITY_PATTERN) {
        Ok(re) => re,
        Err(_) => {
            return Err(PatternError);
        },
    };
    let text: Vec<char> = chars_of(listing);
    let all: Vec<Vec<char>> = lines(text.as_slice());
    let mut apps: Vec<String> = Vec::new();
    let mut i: usize = 0;
    while i < all.len()
        invariant
            i <= all.len(),
            pattern_of(re) == ACTIVITY_PATTERN@,
            apps.deep_view() == running_among(views(all@).take(i as int)),
        decreases all.len() - i,
    {
        let ghost done = apps.deep_view();
        proof {
            let t = views(all@).take(i + 1);
            assert(t.drop_last() == views(all@).take(i as int));
            assert(t.last() == all@[i as int]@);
        }
        let line: String = string_of(all[i].as_slice());
        match capture(&re, line.as_str()) {
            Some(bundle) => {
                if reports_running(bundle.as_str(), line.as_str()) {
                    apps.push(bundle);
                    proof {
                        assert(apps.deep_view() == done.push(bundle@));
                    }
                }
            },
            None => {},
        }
        i += 1;
    }
    proof {
        assert(views(all@).take(all.len() as int) == views(all@));
    }
    Ok(apps)
}

} // verus!
