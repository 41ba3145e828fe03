//! The accessibility snapshot: a list of typed elements read from a
//! line-oriented, delimiter-separated dump of the host window's UI tree.
//!
//! Each line of the dump holds seven fields separated by `|`:
//! index, role, title, value, description, position `x,y` and size
//! `width x height`. Reading is best effort: a line that is not of this form
//! is dropped and the rest of the dump is still read. Indices are taken as
//! they are written; they are not counted anew.

use vstd::prelude::*;
use crate::number::{numbers, numbers_in, parse_usize, parse_usize_spec};
use crate::text::{chars_of, lines, lines_of, same_chars, split, split_on, string_of, views};

verus! {

/// The character between the fields of a line.
pub const FIELD_SEPARATOR: char = '|';

/// The character between the two coordinates of a position.
pub const POSITION_SEPARATOR: char = ',';

/// The character between the two extents of a size.
pub const SIZE_SEPARATOR: char = 'x';

/// One element of the accessibility tree. The frame is in host-screen
/// coordinates, not in device pixels.
#[derive(Clone, Debug)]
pub struct UiElement {
    pub index: usize,
    pub role: String,
    pub title: String,
    pub value: String,
    pub description: String,
    pub x: i32,
    pub y: i32,
    pub width: i32,
    pub height: i32,
}

/// The mathematical value of a `UiElement`.
pub struct UiElementView {
    pub index: nat,
    pub role: Seq<char>,
    pub title: Seq<char>,
    pub value: Seq<char>,
    pub description: Seq<char>,
    pub x: int,
    pub y: int,
    pub width: int,
    pub height: int,
}

impl View for UiElement {
    type V = UiElementView;

    open spec fn view(&self) -> UiElementView {
        UiElementView {
            index: self.index as nat,
            role: self.role@,
            title: self.title@,
            value: self.value@,
            description: self.description@,
            x: self.x as int,
            y: self.y as int,
            width: self.width as int,
            height: self.height as int,
        }
    }
}

impl DeepView for UiElement {
    type V = UiElementView;

    open spec fn deep_view(&self) -> UiElementView {
        self@
    }
}

/// The text by which an element is shown in a listing: its title, or else
/// its description, or else its value.
pub open spec fn label_spec(e: UiElementView) -> Seq<char> {
    if e.title.len() > 0 {
        e.title
    } else if e.description.len() > 0 {
        e.description
    } else {
        e.value
    }
}

impl UiElement {
    /// The text by which this element is shown in a listing.
    pub fn label(&self) -> (l: &str)
        ensures
            l@ == label_spec(self@),
    {
        if !self.title.as_str().is_empty() {
            self.title.as_str()
        } else if !self.description.as_str().is_empty() {
            self.description.as_str()
        } else {
            self.value.as_str()
        }
    }
}

/// The token that the host writes in place of an absent text field.
pub open spec fn missing_value() -> Seq<char> {
    "missing value"@
}

/// The text of an optional field: empty where the host wrote the token for
/// an absent value.
pub open spec fn text_field(raw: Seq<char>) -> Seq<char> {
    if raw == missing_value() {
        Seq::empty()
    } else {
        raw
    }
}

/// The element that `line` describes, if it is well formed: it has exactly
/// seven fields, exactly two of the parts of the sixth between commas are
/// integers, and exactly two of the parts of the seventh between `x` are.
/// White space around an integer is set aside and parts that are no
/// integers are passed over. An index that is no number is read as zero, and
/// only title, value and description are read as optional texts.
pub open spec fn parse_line_spec(line: Seq<char>) -> Option<UiElementView> {
    let f = split_on(line, FIELD_SEPARATOR);
    if f.len() != 7 {
        None
    } else {
        let position = numbers_in(f[5], POSITION_SEPARATOR);
        let size = numbers_in(f[6], SIZE_SEPARATOR);
        if position.len() == 2 && size.len() == 2 {
            Some(
                UiElementView {
                    index: match parse_usize_spec(f[0]) {
                        Some(i) => i as nat,
                        None => 0,
                    },
                    role: f[1],
                    title: text_field(f[2]),
                    value: text_field(f[3]),
                    description: text_field(f[4]),
                    x: position[0] as int,
                    y: position[1] as int,
                    width: size[0] as int,
                    height: size[1] as int,
                },
            )
        } else {
            None
        }
    }
}

/// The elements described by the well-formed lines among `lines`, in order.
pub open spec fn kept_elements(lines: Seq<Seq<char>>) -> Seq<UiElementView>
    decreases lines.len(),
{
    if lines.len() == 0 {
        Seq::empty()
    } else {
        let init = kept_elements(lines.drop_last());
        match parse_line_spec(lines.last()) {
            Some(e) => init.push(e),
            None => init,
        }
    }
}

/// The elements that a dump describes.
pub open spec fn parse_tree_spec(dump: Seq<char>) -> Seq<UiElementView> {
    kept_elements(lines_of(dump))
}

/// Reads an optional text field.
fn read_text_field(raw: &[char], missing: &[char]) -> (s: String)
    requires
        missing@ == missing_value(),
    ensures
        s@ == text_field(raw@),
{
    if same_chars(raw, missing) {
        String::new()
    } else {
        string_of(raw)
    }
}

/// Reads one line of a dump.
pub fn parse_line(line: &[char]) -> (r: Option<UiElement>)
    ensures
        r is Some <==> parse_line_spec(line@) is Some,
        r is Some ==> r.unwrap()@ == parse_line_spec(line@).unwrap(),
{
    let fields: Vec<Vec<char>> = split(line, FIELD_SEPARATOR);
    if fields.len() != 7 {
        return None;
    }
    let position: Vec<i32> = numbers(fields[5].as_slice(), POSITION_SEPARATOR);
    let size: Vec<i32> = numbers(fields[6].as_slice(), SIZE_SEPARATOR);
    if position.len() != 2 || size.len() != 2 {
        return None;
    }
    let index: usize = match parse_usize(fields[0].as_slice()) {
        Some(i) => i,
        None => 0,
    };
    let missing: Vec<char> = chars_of("missing value");
    Some(
        UiElement {
            index,
            role: string_of(fields[1].as_slice()),
            title: read_text_field(fields[2].as_slice(), missing.as_slice()),
            value: read_text_field(fields[3].as_slice(), missing.as_slice()),
            description: read_text_field(fields[4].as_slice(), missing.as_slice()),
            x: position[0],
            y: position[1],
            width: size[0],
            height: size[1],
        },
    )
}

/// Reads a dump of the accessibility tree. The result holds one element for
/// each well-formed line, in the order of the lines; it is empty where no
/// line is well formed.
pub fn parse_tree(dump: &str) -> (elements: Vec<UiElement>)
    ensures
        elements.deep_view() == parse_tree_spec(dump@),
{
    let chars: Vec<char> = chars_of(dump);
    let all: Vec<Vec<char>> = lines(chars.as_slice());
    let mut elements: Vec<UiElement> = Vec::new();
    let mut i: usize = 0;
    while i < all.len()
        invariant
            i <= all.len(),
            elements.deep_view() == kept_elements(views(all@).take(i as int)),
        decreases all.len() - i,
    {
        let ghost before = elements.deep_view();
        proof {
            let t = views(all@).take(i + 1);
            assert(t.drop_last() == views(all@).take(i as int));
            assert(t.last() == all@[i as int]@);
        }
        match parse_line(all[i].as_slice()) {
            Some(e) => {
                elements.push(e);
                proof {
                    assert(elements.deep_view() == before.push(e@));
                }
            },
            None => {},
        }
        i += 1;
    }
    proof {
        assert(views(all@).take(all.len() as int) == views(all@));
    }
    elements
}

/// Whether `line` describes an element.
pub open spec fn well_formed(line: Seq<char>) -> bool {
    parse_line_spec(line) is Some
}

/// The positions of the well-formed lines among `lines`, in increasing order.
pub open spec fn well_formed_positions(lines: Seq<Seq<char>>) -> Seq<int>
    decreases lines.len(),
{
    if lines.len() == 0 {
        Seq::empty()
    } else {
        let init = well_formed_positions(lines.drop_last());
        if well_formed(lines.last()) {
            init.push(lines.len() - 1)
        } else {
            init
        }
    }
}

/// Reading keeps exactly the well-formed lines, in their order: the result
/// has one element for each well-formed line and none for the others, and
/// the `k`-th element is the one that the `k`-th well-formed line describes.
pub proof fn lemma_well_formed_lines_are_kept_in_order(lines: Seq<Seq<char>>)
    ensures
        kept_elements(lines).len() == well_formed_positions(lines).len(),
        kept_elements(lines).len() <= lines.len(),
        forall|k: int|
            0 <= k < well_formed_positions(lines).len() ==> {
                let at = #[trigger] well_formed_positions(lines)[k];
                &&& 0 <= at < lines.len()
                &&& parse_line_spec(lines[at]) == Some(kept_elements(lines)[k])
            },
        forall|j: int, k: int|
            0 <= j < k < well_formed_positions(lines).len() ==> well_formed_positions(lines)[j]
                < well_formed_positions(lines)[k],
        forall|i: int|
            0 <= i < lines.len() && well_formed(#[trigger] lines[i]) ==> well_formed_positions(
                lines,
            ).contains(i),
    decreases lines.len(),
{
    if lines.len() > 0 {
        let init = lines.drop_last();
        lemma_well_formed_lines_are_kept_in_order(init);
        let pos = well_formed_positions(lines);
        let init_pos = well_formed_positions(init);
        assert forall|k: int| 0 <= k < pos.len() implies {
            let at = #[trigger] pos[k];
            &&& 0 <= at < lines.len()
            &&& parse_line_spec(lines[at]) == Some(kept_elements(lines)[k])
        } by {
            if k < init_pos.len() {
                assert(pos[k] == init_pos[k]);
                assert(lines[init_pos[k]] == init[init_pos[k]]);
            }
        }
        assert forall|j: int, k: int| 0 <= j < k < pos.len() implies pos[j] < pos[k] by {
            assert(pos[j] == init_pos[j]);
            if k < init_pos.len() {
                assert(pos[k] == init_pos[k]);
            }
        }
        assert forall|i: int| 0 <= i < lines.len() && well_formed(#[trigger] lines[i]) implies pos.contains(
            i,
        ) by {
            if i < init.len() {
                assert(init[i] == lines[i]);
                assert(init_pos.contains(i));
                let k = choose|k: int| 0 <= k < init_pos.len() && init_pos[k] == i;
                assert(pos[k] == i);
            } else {
                assert(pos[pos.len() - 1] == i);
            }
        }
    }
}

/// A dump with `n` well-formed and `m` other lines is read as `n` elements.
pub proof fn lemma_element_count(lines: Seq<Seq<char>>)
    ensures
        kept_elements(lines).len() == lines.filter(|l: Seq<char>| well_formed(l)).len(),
    decreases lines.len(),
{
    reveal(Seq::filter);
    if lines.len() > 0 {
        lemma_element_count(lines.drop_last());
    }
}

/// An element never shows the token for an absent value in its title, value
/// or description: where the line holds the token, the field is empty, and
/// where it holds anything else, the field is that text.
pub proof fn lemma_missing_value_reads_as_empty(line: Seq<char>)
    requires
        well_formed(line),
    ensures
        ({
            let f = split_on(line, FIELD_SEPARATOR);
            let e = parse_line_spec(line).unwrap();
            &&& f.len() == 7
            &&& e.title == if f[2] == missing_value() { Seq::<char>::empty() } else { f[2] }
            &&& e.value == if f[3] == missing_value() { Seq::<char>::empty() } else { f[3] }
            &&& e.description == if f[4] == missing_value() { Seq::<char>::empty() } else { f[4] }
            &&& e.title != missing_value()
            &&& e.value != missing_value()
            &&& e.description != missing_value()
        }),
{
    reveal_strlit("missing value");
    assert(missing_value().len() == 13);
}

} // verus!
