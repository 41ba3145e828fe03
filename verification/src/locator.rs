//! The element locator: resolves a text query to the centre of the first
//! element of a snapshot that shows the text and has a positive area.
//!
//! The search proper, `find_exact`, compares texts as they stand. `find`
//! sets letter case aside by searching, for the query in lowercase, a copy of
//! the snapshot whose texts are in lowercase.

use vstd::prelude::*;
use crate::mapper::ScreenPoint;
use crate::search::{first_where, lemma_first_where, lemma_first_where_is};
use crate::text::{chars_of, contains, contains_seq, lowercase};
use crate::tree::{parse_tree, parse_tree_spec, UiElement, UiElementView};

verus! {

/// Whether the title, the value or the description of `e` contains `needle`.
pub open spec fn shows(e: UiElementView, needle: Seq<char>) -> bool {
    ||| contains_seq(e.title, needle)
    ||| contains_seq(e.value, needle)
    ||| contains_seq(e.description, needle)
}

/// Whether the frame of `e` has a positive width and a positive height.
pub open spec fn has_area(e: UiElementView) -> bool {
    e.width > 0 && e.height > 0
}

/// Whether `e` answers the search for `needle`: it has an area and shows the
/// needle.
pub open spec fn eligible(e: UiElementView, needle: Seq<char>) -> bool {
    has_area(e) && shows(e, needle)
}

/// The centre of the frame of `e`, halves rounded down.
pub open spec fn center(e: UiElementView) -> (int, int) {
    (e.x + e.width / 2, e.y + e.height / 2)
}

/// Index of the first element that answers the search for `needle`, or the
/// number of elements if none does.
pub open spec fn first_eligible(elements: Seq<UiElementView>, needle: Seq<char>) -> int {
    first_where(elements, |e: UiElementView| eligible(e, needle))
}

/// What `find_exact` returns: the centre of the first element that answers
/// the search for `needle`, if there is one.
pub open spec fn find_exact_spec(elements: Seq<UiElementView>, needle: Seq<char>) -> Option<
    (int, int),
> {
    let i = first_eligible(elements, needle);
    if 0 <= i < elements.len() {
        Some(center(elements[i]))
    } else {
        None
    }
}

/// `e` with its title, value and description in lowercase.
pub open spec fn folded(e: UiElementView) -> UiElementView {
    UiElementView {
        title: lowercase(e.title),
        value: lowercase(e.value),
        description: lowercase(e.description),
        ..e
    }
}

/// The elements with their texts in lowercase.
pub open spec fn folded_all(elements: Seq<UiElementView>) -> Seq<UiElementView> {
    Seq::new(elements.len(), |i: int| folded(elements[i]))
}

/// Index of the element that `find` takes: the first that has an area and
/// shows the query, letter case set aside; or the number of elements.
pub open spec fn position_spec(elements: Seq<UiElementView>, query: Seq<char>) -> int {
    first_eligible(folded_all(elements), lowercase(query))
}

/// What `find` returns: the centre of the first element that has an area and
/// shows the query, letter case set aside.
pub open spec fn find_spec(elements: Seq<UiElementView>, query: Seq<char>) -> Option<(int, int)> {
    find_exact_spec(folded_all(elements), lowercase(query))
}

/// Whether the title, the value or the description of `e` contains `needle`.
fn element_shows(e: &UiElement, needle: &[char]) -> (b: bool)
    ensures
        b == shows(e@, needle@),
{
    let title: Vec<char> = chars_of(e.title.as_str());
    if contains(title.as_slice(), needle) {
        return true;
    }
    let value: Vec<char> = chars_of(e.value.as_str());
    if contains(value.as_slice(), needle) {
        return true;
    }
    let description: Vec<char> = chars_of(e.description.as_str());
    contains(description.as_slice(), needle)
}

/// Index of the first element, in the order of `elements`, that has a
/// positive area and whose title, value or description contains `needle` as
/// it stands; `None` where there is no such element.
pub fn position_exact(elements: &[UiElement], needle: &str) -> (r: Option<usize>)
    ensures
        match r {
            Some(i) => i < elements.len() && i == first_eligible(elements.deep_view(), needle@),
            None => first_eligible(elements.deep_view(), needle@) == elements.len(),
        },
{
    let wanted: Vec<char> = chars_of(needle);
    let ghost views = elements.deep_view();
    let mut i: usize = 0;
    while i < elements.len()
        invariant
            i <= elements.len(),
            wanted@ == needle@,
            views == elements.deep_view(),
            forall|j: int| 0 <= j < i ==> !eligible(#[trigger] views[j], needle@),
        decreases elements.len() - i,
    {
        let e: &UiElement = &elements[i];
        assert(views[i as int] == e@);
        if e.width > 0 && e.height > 0 && element_shows(e, wanted.as_slice()) {
            proof {
                lemma_first_where_is(views, |e: UiElementView| eligible(e, needle@), i as int);
            }
            return Some(i);
        }
        i += 1;
    }
    proof {
        lemma_first_where_is(
            views,
            |e: UiElementView| eligible(e, needle@),
            elements.len() as int,
        );
    }
    None
}

/// Finds the first element, in the order of `elements`, that has a positive
/// area and whose title, value or description contains `needle` as it
/// stands, and returns the centre of its frame.
pub fn find_exact(elements: &[UiElement], needle: &str) -> (r: Option<ScreenPoint>)
    ensures
        match r {
            Some(p) => find_exact_spec(elements.deep_view(), needle@) == Some(p@),
            None => find_exact_spec(elements.deep_view(), needle@) is None,
        },
{
    match position_exact(elements, needle) {
        Some(i) => {
            let e: &UiElement = &elements[i];
            proof {
                assert(elements.deep_view()[i as int] == e@);
                lemma_first_where(elements.deep_view(), |e: UiElementView| eligible(e, needle@));
            }
            Some(
                ScreenPoint {
                    x: e.x as i64 + (e.width / 2) as i64,
                    y: e.y as i64 + (e.height / 2) as i64,
                },
            )
        },
        None => None,
    }
}

/// Copies `elements` with their titles, values and descriptions in
/// lowercase.
pub fn fold_case(elements: &[UiElement]) -> (out: Vec<UiElement>)
    ensures
        out.deep_view() == folded_all(elements.deep_view()),
{
    let mut out: Vec<UiElement> = Vec::new();
    let mut i: usize = 0;
    while i < elements.len()
        invariant
            i <= elements.len(),
            out.len() == i,
            forall|j: int| 0 <= j < i ==> (#[trigger] out[j])@ == folded(elements[j]@),
        decreases elements.len() - i,
    {
        let e: &UiElement = &elements[i];
        out.push(
            UiElement {
                index: e.index,
                role: e.role.clone(),
                title: e.title.as_str().to_lowercase(),
                value: e.value.as_str().to_lowercase(),
                description: e.description.as_str().to_lowercase(),
                x: e.x,
                y: e.y,
                width: e.width,
                height: e.height,
            },
        );
        i += 1;
    }
    out
}

/// Index of the first element, in the order of `elements`, that has a
/// positive area and whose title, value or description contains `query`,
/// letter case set aside; `None` where there is no such element.
pub fn position(elements: &[UiElement], query: &str) -> (r: Option<usize>)
    ensures
        match r {
            Some(i) => i < elements.len() && i == position_spec(elements.deep_view(), query@),
            None => position_spec(elements.deep_view(), query@) == elements.len(),
        },
{
    let lowered: Vec<UiElement> = fold_case(elements);
    let needle: String = query.to_lowercase();
    let all: &[UiElement] = lowered.as_slice();
    proof {
        assert(all.deep_view() == lowered.deep_view());
    }
    position_exact(all, needle.as_str())
}

/// Finds the first element, in the order of `elements`, that has a positive
/// area and whose title, value or description contains `query`, letter case
/// set aside, and returns the centre of its frame. Returns `None` where there
/// is no such element.
pub fn find(elements: &[UiElement], query: &str) -> (r: Option<ScreenPoint>)
    ensures
        match r {
            Some(p) => find_spec(elements.deep_view(), query@) == Some(p@),
            None => find_spec(elements.deep_view(), query@) is None,
        },
{
    let lowered: Vec<UiElement> = fold_case(elements);
    let needle: String = query.to_lowercase();
    let all: &[UiElement] = lowered.as_slice();
    proof {
        assert(all.deep_view() == lowered.deep_view());
    }
    find_exact(all, needle.as_str())
}

/// Finds, in a dump of the accessibility tree, the first element that has a
/// positive area and shows `query`, and returns the centre of its frame.
pub fn find_element(dump: &str, query: &str) -> (r: Option<ScreenPoint>)
    ensures
        match r {
            Some(p) => find_spec(parse_tree_spec(dump@), query@) == Some(p@),
            None => find_spec(parse_tree_spec(dump@), query@) is None,
        },
{
    let elements: Vec<UiElement> = parse_tree(dump);
    let all: &[UiElement] = elements.as_slice();
    proof {
        assert(all.deep_view() == elements.deep_view());
    }
    find(all, query)
}

/// Nothing is found exactly where no element both has an area and shows the
/// needle; what is found is the centre of the first element that does.
pub proof fn lemma_find_exact_result(elements: Seq<UiElementView>, needle: Seq<char>)
    ensures
        0 <= first_eligible(elements, needle) <= elements.len(),
        find_exact_spec(elements, needle) is None <==> forall|i: int|
            0 <= i < elements.len() ==> !eligible(#[trigger] elements[i], needle),
        find_exact_spec(elements, needle) is Some ==> {
            let i = first_eligible(elements, needle);
            &&& eligible(elements[i], needle)
            &&& find_exact_spec(elements, needle) == Some(center(elements[i]))
            &&& forall|j: int| 0 <= j < i ==> !eligible(#[trigger] elements[j], needle)
        },
{
    lemma_first_where(elements, |e: UiElementView| eligible(e, needle));
    let i = first_eligible(elements, needle);
    if i < elements.len() {
        assert(eligible(elements[i], needle));
    }
}

/// Dropping the elements without area changes neither whether an element is
/// found nor which.
pub proof fn lemma_find_exact_skips_empty_frames(elements: Seq<UiElementView>, needle: Seq<char>)
    ensures
        find_exact_spec(elements, needle) == find_exact_spec(
            elements.filter(|e: UiElementView| has_area(e)),
            needle,
        ),
    decreases elements.len(),
{
    let keep = |e: UiElementView| has_area(e);
    let kept = elements.filter(keep);
    let wanted = |e: UiElementView| eligible(e, needle);
    if elements.len() == 0 {
        reveal(Seq::filter);
        assert(kept.len() == 0);
    } else {
        let rest = elements.drop_first();
        lemma_find_exact_skips_empty_frames(rest, needle);
        lemma_first_where(elements, wanted);
        lemma_first_where(rest, wanted);
        lemma_first_where(kept, wanted);
        lemma_first_where(rest.filter(keep), wanted);
        elements.lemma_filter_eq_filter_alt(keep);
        if has_area(elements[0]) {
            assert(kept == seq![elements[0]] + rest.filter(keep));
            assert(kept[0] == elements[0]);
            assert(kept.drop_first() == rest.filter(keep));
        } else {
            assert(kept == rest.filter(keep));
        }
    }
}

/// Letter case does not matter: two queries with the same lowercase form
/// find the same point in every list.
pub proof fn lemma_find_ignores_case(
    elements: Seq<UiElementView>,
    query: Seq<char>,
    other: Seq<char>,
)
    requires
        lowercase(query) == lowercase(other),
    ensures
        find_spec(elements, query) == find_spec(elements, other),
        position_spec(elements, query) == position_spec(elements, other),
{
}

/// Nothing is found exactly where no element both has an area and shows the
/// query in one of its texts, all taken in lowercase; what is found is the
/// centre of the first element that does.
pub proof fn lemma_find_result(elements: Seq<UiElementView>, query: Seq<char>)
    ensures
        0 <= position_spec(elements, query) <= elements.len(),
        find_spec(elements, query) is None <==> position_spec(elements, query) == elements.len(),
        find_spec(elements, query) is None <==> forall|i: int|
            0 <= i < elements.len() ==> !eligible(folded(#[trigger] elements[i]), lowercase(query)),
        find_spec(elements, query) is Some ==> {
            let i = position_spec(elements, query);
            &&& eligible(folded(elements[i]), lowercase(query))
            &&& find_spec(elements, query) == Some(center(elements[i]))
            &&& forall|j: int|
                0 <= j < i ==> !eligible(folded(#[trigger] elements[j]), lowercase(query))
        },
{
    let low = folded_all(elements);
    lemma_find_exact_result(low, lowercase(query));
    assert forall|i: int| 0 <= i < elements.len() implies low[i] == folded(
        #[trigger] elements[i],
    ) by {}
    if find_spec(elements, query) is None {
        assert forall|i: int| 0 <= i < elements.len() implies !eligible(
            folded(#[trigger] elements[i]),
            lowercase(query),
        ) by {
            assert(!eligible(low[i], lowercase(query)));
        }
    } else {
        let i = position_spec(elements, query);
        assert(low[i] == folded(elements[i]));
        assert forall|j: int| 0 <= j < i implies !eligible(
            folded(#[trigger] elements[j]),
            lowercase(query),
        ) by {
            assert(!eligible(low[j], lowercase(query)));
        }
    }
    if forall|i: int|
        0 <= i < elements.len() ==> !eligible(folded(#[trigger] elements[i]), lowercase(query)) {
        assert forall|i: int| 0 <= i < low.len() implies !eligible(
            #[trigger] low[i],
            lowercase(query),
        ) by {
            assert(!eligible(folded(elements[i]), lowercase(query)));
        }
    }
}

/// Nothing is found in an empty list.
pub proof fn lemma_find_in_empty_list(query: Seq<char>)
    ensures
        find_spec(Seq::<UiElementView>::empty(), query) is None,
{
    lemma_find_result(Seq::<UiElementView>::empty(), query);
}

/// Nothing is found where no text field of any element contains the query,
/// letter case set aside.
pub proof fn lemma_find_without_match(elements: Seq<UiElementView>, query: Seq<char>)
    requires
        forall|i: int|
            0 <= i < elements.len() ==> !shows(folded(#[trigger] elements[i]), lowercase(query)),
    ensures
        find_spec(elements, query) is None,
{
    lemma_find_result(elements, query);
}

/// Elements without area are passed over: nothing is found where every
/// element that shows the query has no area, and an element that is found has
/// one.
pub proof fn lemma_find_skips_empty_frames(elements: Seq<UiElementView>, query: Seq<char>)
    ensures
        (forall|i: int|
            0 <= i < elements.len() && shows(folded(#[trigger] elements[i]), lowercase(query))
                ==> !has_area(elements[i])) ==> find_spec(elements, query) is None,
        find_spec(elements, query) is Some ==> has_area(elements[position_spec(elements, query)]),
{
    lemma_find_result(elements, query);
}

} // verus!
