//! Text primitives over sequences of characters: splitting on a delimiter,
//! splitting into lines, trimming white space and reading decimal integers.
//!
//! Each executable function is specified by a spec function over `Seq<char>`.

use vstd::prelude::*;

verus! {

/// The views of the pieces held in a vector of character vectors.
pub open spec fn views(v: Seq<Vec<char>>) -> Seq<Seq<char>> {
    Seq::new(v.len(), |i: int| v[i]@)
}

/// Index of the first occurrence of `c` in `s`, or `s.len()` if there is none.
pub open spec fn first_index(s: Seq<char>, c: char) -> int
    decreases s.len(),
{
    if s.len() == 0 || s[0] == c {
        0
    } else {
        1 + first_index(s.drop_first(), c)
    }
}

/// `first_index` is in range, nothing before it is `c`, and `c` stands at it
/// unless it is the length.
pub proof fn lemma_first_index(s: Seq<char>, c: char)
    ensures
        0 <= first_index(s, c) <= s.len(),
        forall|j: int| 0 <= j < first_index(s, c) ==> s[j] != c,
        first_index(s, c) < s.len() ==> s[first_index(s, c)] == c,
    decreases s.len(),
{
    if s.len() == 0 || s[0] == c {
    } else {
        lemma_first_index(s.drop_first(), c);
        assert forall|j: int| 0 <= j < first_index(s, c) implies s[j] != c by {
            if j > 0 {
                assert(s[j] == s.drop_first()[j - 1]);
            }
        }
    }
}

/// An index with the properties of `first_index` is `first_index`.
pub proof fn lemma_first_index_is(s: Seq<char>, c: char, i: int)
    requires
        0 <= i <= s.len(),
        forall|j: int| 0 <= j < i ==> s[j] != c,
        i < s.len() ==> s[i] == c,
    ensures
        first_index(s, c) == i,
{
    lemma_first_index(s, c);
    let k = first_index(s, c);
    if k < i {
        assert(s[k] != c);
    } else if i < k {
        assert(s[i] != c);
    }
}

/// The pieces of `s` between occurrences of `d`. There is always at least one
/// piece; `n` delimiters give `n + 1` pieces, some of which may be empty.
pub open spec fn split_on(s: Seq<char>, d: char) -> Seq<Seq<char>>
    decreases s.len(),
{
    let i = first_index(s, d);
    if 0 <= i < s.len() {
        seq![s.subrange(0, i)] + split_on(s.subrange(i + 1, s.len() as int), d)
    } else {
        seq![s]
    }
}

/// `pieces` written one after the other with `d` between them.
pub open spec fn joined(pieces: Seq<Seq<char>>, d: char) -> Seq<char>
    decreases pieces.len(),
{
    if pieces.len() == 0 {
        Seq::empty()
    } else if pieces.len() == 1 {
        pieces[0]
    } else {
        pieces[0] + seq![d] + joined(pieces.drop_first(), d)
    }
}

/// The number of occurrences of `c` in `s`.
pub open spec fn count_of(s: Seq<char>, c: char) -> nat
    decreases s.len(),
{
    if s.len() == 0 {
        0
    } else {
        count_of(s.drop_last(), c) + if s.last() == c {
            1nat
        } else {
            0nat
        }
    }
}

/// Only the first character of a non-empty text decides whether an
/// occurrence is counted there.
proof fn lemma_count_of_first(s: Seq<char>, c: char)
    requires
        s.len() > 0,
    ensures
        count_of(s, c) == count_of(s.drop_first(), c) + if s[0] == c {
            1nat
        } else {
            0nat
        },
    decreases s.len(),
{
    if s.len() == 1 {
        assert(s.drop_first() == Seq::<char>::empty());
        assert(s.drop_last() == Seq::<char>::empty());
    } else {
        lemma_count_of_first(s.drop_last(), c);
        assert(s.drop_last().drop_first() == s.drop_first().drop_last());
        assert(s.drop_first().last() == s.last());
        assert(s.drop_last()[0] == s[0]);
    }
}

/// A text without `c` counts no occurrence of it.
proof fn lemma_count_of_absent(s: Seq<char>, c: char)
    requires
        forall|j: int| 0 <= j < s.len() ==> s[j] != c,
    ensures
        count_of(s, c) == 0,
    decreases s.len(),
{
    if s.len() > 0 {
        assert forall|j: int| 0 <= j < s.drop_last().len() implies s.drop_last()[j] != c by {
            assert(s.drop_last()[j] == s[j]);
        }
        lemma_count_of_absent(s.drop_last(), c);
    }
}

/// Counting in a text is counting in its two parts.
proof fn lemma_count_of_parts(a: Seq<char>, b: Seq<char>, c: char)
    ensures
        count_of(a + b, c) == count_of(a, c) + count_of(b, c),
    decreases b.len(),
{
    if b.len() == 0 {
        assert(a + b == a);
    } else {
        assert((a + b).drop_last() == a + b.drop_last());
        assert((a + b).last() == b.last());
        lemma_count_of_parts(a, b.drop_last(), c);
    }
}

/// Splitting is the inverse of joining: no piece holds the delimiter, the
/// pieces joined by the delimiter give the text back, and there is one piece
/// more than the text holds delimiters.
pub proof fn lemma_split_on(s: Seq<char>, d: char)
    ensures
        split_on(s, d).len() == count_of(s, d) + 1,
        forall|k: int, j: int|
            0 <= k < split_on(s, d).len() && 0 <= j < split_on(s, d)[k].len() ==> split_on(
                s,
                d,
            )[k][j] != d,
        joined(split_on(s, d), d) == s,
    decreases s.len(),
{
    lemma_first_index(s, d);
    let i = first_index(s, d);
    if 0 <= i < s.len() {
        let head = s.subrange(0, i);
        let tail = s.subrange(i + 1, s.len() as int);
        let rest = split_on(tail, d);
        let all = split_on(s, d);
        lemma_split_on(tail, d);
        assert(all == seq![head] + rest);
        assert(all[0] == head);
        assert(all.drop_first() == rest);
        assert(s == head + seq![d] + tail);
        assert forall|k: int, j: int| 0 <= k < all.len() && 0 <= j < all[k].len() implies all[k][j]
            != d by {
            if k == 0 {
                assert(head[j] == s[j]);
            } else {
                assert(all[k] == rest[k - 1]);
            }
        }
        assert(count_of(s, d) == count_of(tail, d) + 1) by {
            lemma_count_of_parts(head + seq![d], tail, d);
            lemma_count_of_parts(head, seq![d], d);
            assert forall|j: int| 0 <= j < head.len() implies head[j] != d by {
                assert(head[j] == s[j]);
            }
            lemma_count_of_absent(head, d);
            lemma_count_of_first(seq![d], d);
            assert(seq![d].drop_first() == Seq::<char>::empty());
        }
    } else {
        lemma_count_of_absent(s, d);
    }
}

/// Position of the first `c` at or after `from`, or `s.len()` if there is none.
fn find_char(s: &[char], from: usize, c: char) -> (i: usize)
    requires
        from <= s.len(),
    ensures
        from <= i <= s.len(),
        i - from == first_index(s@.subrange(from as int, s.len() as int), c),
{
    let mut i: usize = from;
    while i < s.len() && s[i] != c
        invariant
            from <= i <= s.len(),
            forall|j: int| from <= j < i ==> s@[j] != c,
        decreases s.len() - i,
    {
        i += 1;
    }
    proof {
        lemma_first_index_is(s@.subrange(from as int, s.len() as int), c, i - from);
    }
    i
}

/// A copy of `s[from..to]`.
fn copy_range(s: &[char], from: usize, to: usize) -> (v: Vec<char>)
    requires
        from <= to <= s.len(),
    ensures
        v@ == s@.subrange(from as int, to as int),
{
    let mut v: Vec<char> = Vec::new();
    let mut i: usize = from;
    while i < to
        invariant
            from <= i <= to <= s.len(),
            v@ == s@.subrange(from as int, i as int),
        decreases to - i,
    {
        v.push(s[i]);
        i += 1;
    }
    v
}

/// Splits `s` at every occurrence of `d`.
pub fn split(s: &[char], d: char) -> (pieces: Vec<Vec<char>>)
    ensures
        views(pieces@) == split_on(s@, d),
{
    let mut pieces: Vec<Vec<char>> = Vec::new();
    let mut start: usize = 0;
    proof {
        assert(s@.subrange(0, s.len() as int) == s@);
        assert(views(pieces@) + split_on(s@, d) == split_on(s@, d));
    }
    loop
        invariant_except_break
            start <= s.len(),
            split_on(s@, d) == views(pieces@) + split_on(s@.subrange(start as int, s.len() as int), d),
        ensures
            views(pieces@) == split_on(s@, d),
        decreases s.len() - start,
    {
        let ghost rest = s@.subrange(start as int, s.len() as int);
        let ghost done = views(pieces@);
        let end: usize = find_char(s, start, d);
        let piece: Vec<char> = copy_range(s, start, end);
        pieces.push(piece);
        proof {
            assert(rest.subrange(0, end - start) == piece@);
            assert(views(pieces@) == done.push(piece@));
        }
        if end >= s.len() {
            proof {
                assert(rest == piece@);
                assert(done + seq![rest] == done.push(rest));
            }
            break;
        }
        proof {
            assert(rest.subrange(end - start + 1, rest.len() as int) == s@.subrange(
                end + 1,
                s.len() as int,
            ));
            assert(done + (seq![piece@] + split_on(s@.subrange(end + 1, s.len() as int), d))
                == done.push(piece@) + split_on(s@.subrange(end + 1, s.len() as int), d));
        }
        start = end + 1;
    }
    pieces
}

/// A line without the carriage return that may end it.
pub open spec fn without_carriage_return(l: Seq<char>) -> Seq<char> {
    if l.len() > 0 && l.last() == '\r' {
        l.drop_last()
    } else {
        l
    }
}

/// The lines of `s`. A line ends at a line feed, or at a carriage return
/// directly followed by a line feed; neither is part of the line. The last
/// line need not be terminated, and an unterminated last line is kept as it
/// stands. Text that ends in a line feed has no empty line after it.
pub open spec fn lines_of(s: Seq<char>) -> Seq<Seq<char>>
    decreases s.len(),
{
    if s.len() == 0 {
        Seq::empty()
    } else {
        let i = first_index(s, '\n');
        if 0 <= i < s.len() {
            seq![without_carriage_return(s.subrange(0, i))] + lines_of(
                s.subrange(i + 1, s.len() as int),
            )
        } else {
            seq![s]
        }
    }
}

/// Splits `s` into its lines.
pub fn lines(s: &[char]) -> (out: Vec<Vec<char>>)
    ensures
        views(out@) == lines_of(s@),
{
    let mut out: Vec<Vec<char>> = Vec::new();
    let mut start: usize = 0;
    proof {
        assert(s@.subrange(0, s.len() as int) == s@);
        assert(views(out@) + lines_of(s@) == lines_of(s@));
    }
    while start < s.len()
        invariant
            start <= s.len(),
            lines_of(s@) == views(out@) + lines_of(s@.subrange(start as int, s.len() as int)),
        decreases s.len() - start,
    {
        let ghost rest = s@.subrange(start as int, s.len() as int);
        let ghost done = views(out@);
        let end: usize = find_char(s, start, '\n');
        proof {
            assert(rest.subrange(0, end - start) == s@.subrange(start as int, end as int));
        }
        if end >= s.len() {
            let line: Vec<char> = copy_range(s, start, end);
            out.push(line);
            proof {
                assert(rest == line@);
                assert(views(out@) == done.push(line@));
                assert(done + seq![rest] == done.push(rest));
                assert(lines_of(s@.subrange(s.len() as int, s.len() as int)) == Seq::<
                    Seq<char>,
                >::empty());
                assert(views(out@) + Seq::<Seq<char>>::empty() == views(out@));
            }
            start = s.len();
        } else {
            let stop: usize = if end > start && s[end - 1] == '\r' {
                end - 1
            } else {
                end
            };
            let line: Vec<char> = copy_range(s, start, stop);
            out.push(line);
            proof {
                assert(line@ == without_carriage_return(rest.subrange(0, end - start)));
                assert(views(out@) == done.push(line@));
                assert(rest.subrange(end - start + 1, rest.len() as int) == s@.subrange(
                    end + 1,
                    s.len() as int,
                ));
                assert(done + (seq![line@] + lines_of(s@.subrange(end + 1, s.len() as int)))
                    == done.push(line@) + lines_of(s@.subrange(end + 1, s.len() as int)));
            }
            start = end + 1;
        }
    }
    proof {
        assert(views(out@) + Seq::<Seq<char>>::empty() == views(out@));
    }
    out
}

/// The characters with the Unicode property White_Space.
pub open spec fn is_space(c: char) -> bool {
    let u = c as u32;
    ||| 0x09 <= u <= 0x0d
    ||| u == 0x20
    ||| u == 0x85
    ||| u == 0xa0
    ||| u == 0x1680
    ||| 0x2000 <= u <= 0x200a
    ||| u == 0x2028
    ||| u == 0x2029
    ||| u == 0x202f
    ||| u == 0x205f
    ||| u == 0x3000
}

/// Whether `c` is white space.
pub fn is_whitespace(c: char) -> (b: bool)
    ensures
        b == is_space(c),
{
    let u: u32 = c as u32;
    (0x09 <= u && u <= 0x0d) || u == 0x20 || u == 0x85 || u == 0xa0 || u == 0x1680 || (0x2000 <= u
        && u <= 0x200a) || u == 0x2028 || u == 0x2029 || u == 0x202f || u == 0x205f || u == 0x3000
}

/// `s` without the white space it starts with.
pub open spec fn trim_start(s: Seq<char>) -> Seq<char>
    decreases s.len(),
{
    if s.len() > 0 && is_space(s[0]) {
        trim_start(s.drop_first())
    } else {
        s
    }
}

/// `s` without the white space it ends with.
pub open spec fn trim_end(s: Seq<char>) -> Seq<char>
    decreases s.len(),
{
    if s.len() > 0 && is_space(s.last()) {
        trim_end(s.drop_last())
    } else {
        s
    }
}

/// `s` without leading and trailing white space.
pub open spec fn trimmed(s: Seq<char>) -> Seq<char> {
    trim_end(trim_start(s))
}

/// The part of `s` between its leading and its trailing white space.
pub fn trim(s: &[char]) -> (t: &[char])
    ensures
        t@ == trimmed(s@),
{
    let mut a: usize = 0;
    proof {
        assert(s@.subrange(0, s.len() as int) == s@);
    }
    while a < s.len() && is_whitespace(s[a])
        invariant
            a <= s.len(),
            trim_start(s@) == trim_start(s@.subrange(a as int, s.len() as int)),
        decreases s.len() - a,
    {
        proof {
            assert(s@.subrange(a as int, s.len() as int).drop_first() == s@.subrange(
                a + 1,
                s.len() as int,
            ));
        }
        a += 1;
    }
    let mut b: usize = s.len();
    while b > a && is_whitespace(s[b - 1])
        invariant
            a <= b <= s.len(),
            trim_end(s@.subrange(a as int, s.len() as int)) == trim_end(
                s@.subrange(a as int, b as int),
            ),
        decreases b - a,
    {
        proof {
            assert(s@.subrange(a as int, b as int).drop_last() == s@.subrange(
                a as int,
                b - 1,
            ));
        }
        b -= 1;
    }
    &s[a..b]
}

/// What is trimmed is a part of the text that neither starts nor ends with
/// white space, and only white space stands before and behind it.
pub proof fn lemma_trimmed(s: Seq<char>)
    ensures
        trimmed(s).len() > 0 ==> !is_space(trimmed(s)[0]) && !is_space(trimmed(s).last()),
        exists|a: int, b: int|
            {
                &&& 0 <= a <= b <= s.len()
                &&& trimmed(s) == #[trigger] s.subrange(a, b)
                &&& forall|j: int| 0 <= j < a ==> is_space(s[j])
                &&& forall|j: int| b <= j < s.len() ==> is_space(s[j])
            },
{
    lemma_trim_start(s);
    let a = choose|a: int|
        0 <= a <= s.len() && trim_start(s) == #[trigger] s.subrange(a, s.len() as int) && (forall|
            j: int,
        |
            0 <= j < a ==> is_space(s[j]));
    let t = trim_start(s);
    lemma_trim_end(t);
    let b = choose|b: int|
        0 <= b <= t.len() && trim_end(t) == #[trigger] t.subrange(0, b) && (forall|j: int|
            b <= j < t.len() ==> is_space(t[j]));
    assert(t.subrange(0, b) == s.subrange(a, a + b));
    assert forall|j: int| a + b <= j < s.len() implies is_space(s[j]) by {
        assert(t[j - a] == s[j]);
    }
    if trimmed(s).len() > 0 {
        assert(trimmed(s)[0] == t[0]);
    }
}

/// What `trim_start` leaves is the end of the text from the first character
/// that is no white space.
proof fn lemma_trim_start(s: Seq<char>)
    ensures
        trim_start(s).len() > 0 ==> !is_space(trim_start(s)[0]),
        exists|a: int|
            0 <= a <= s.len() && trim_start(s) == #[trigger] s.subrange(a, s.len() as int)
                && (forall|j: int| 0 <= j < a ==> is_space(s[j])),
    decreases s.len(),
{
    if s.len() > 0 && is_space(s[0]) {
        let r = s.drop_first();
        lemma_trim_start(r);
        let a = choose|a: int|
            0 <= a <= r.len() && trim_start(r) == #[trigger] r.subrange(a, r.len() as int)
                && (forall|j: int| 0 <= j < a ==> is_space(r[j]));
        assert(r.subrange(a, r.len() as int) == s.subrange(a + 1, s.len() as int));
        assert forall|j: int| 0 <= j < a + 1 implies is_space(s[j]) by {
            if j > 0 {
                assert(r[j - 1] == s[j]);
            }
        }
    } else {
        assert(s == s.subrange(0, s.len() as int));
    }
}

/// What `trim_end` leaves is the start of the text up to the last character
/// that is no white space.
proof fn lemma_trim_end(s: Seq<char>)
    ensures
        trim_end(s).len() > 0 ==> !is_space(trim_end(s).last()),
        trim_end(s).len() > 0 ==> trim_end(s)[0] == s[0],
        exists|b: int|
            0 <= b <= s.len() && trim_end(s) == #[trigger] s.subrange(0, b) && (forall|j: int|
                b <= j < s.len() ==> is_space(s[j])),
    decreases s.len(),
{
    if s.len() > 0 && is_space(s.last()) {
        let r = s.drop_last();
        lemma_trim_end(r);
        let b = choose|b: int|
            0 <= b <= r.len() && trim_end(r) == #[trigger] r.subrange(0, b) && (forall|j: int|
                b <= j < r.len() ==> is_space(r[j]));
        assert(r.subrange(0, b) == s.subrange(0, b));
        assert forall|j: int| b <= j < s.len() implies is_space(s[j]) by {
            if j < r.len() {
                assert(r[j] == s[j]);
            }
        }
    } else {
        assert(s == s.subrange(0, s.len() as int));
    }
}

/// The characters of `s`.
pub fn chars_of(s: &str) -> (v: Vec<char>)
    ensures
        v@ == s@,
{
    let mut v: Vec<char> = Vec::new();
    for c in it: s.chars()
        invariant
            it.seq() == s@,
            v@ == s@.take(it.index() as int),
    {
        v.push(c);
    }
    v
}

/// `String::push` appends one character to the end of the string.
pub assume_specification[ String::push ](s: &mut String, c: char)
    ensures
        final(s)@ == old(s)@.push(c),
;

/// The string made of the characters of `chars`.
pub fn string_of(chars: &[char]) -> (s: String)
    ensures
        s@ == chars@,
{
    let mut s: String = String::new();
    let mut i: usize = 0;
    while i < chars.len()
        invariant
            i <= chars.len(),
            s@ == chars@.take(i as int),
        decreases chars.len() - i,
    {
        s.push(chars[i]);
        i += 1;
    }
    s
}

/// The lowercase equivalent of a string, as Unicode defines it.
pub uninterp spec fn lowercase(s: Seq<char>) -> Seq<char>;

/// `str::to_lowercase` returns the lowercase equivalent of the string. The
/// result is a function of the characters alone; nothing else is claimed of it.
pub assume_specification[ str::to_lowercase ](s: &str) -> (r: String)
    ensures
        r@ == lowercase(s@),
;

/// Whether `needle` stands in `hay` at index `i`.
pub open spec fn occurs_at(hay: Seq<char>, needle: Seq<char>, i: int) -> bool {
    0 <= i && i + needle.len() <= hay.len() && hay.subrange(i, i + needle.len()) == needle
}

/// Whether `needle` is a contiguous part of `hay`. The empty sequence is part
/// of every sequence.
pub open spec fn contains_seq(hay: Seq<char>, needle: Seq<char>) -> bool {
    exists|i: int| occurs_at(hay, needle, i)
}

/// Whether `needle` stands in `hay` at index `at`.
fn matches_at(hay: &[char], needle: &[char], at: usize) -> (b: bool)
    requires
        at + needle.len() <= hay.len(),
    ensures
        b == occurs_at(hay@, needle@, at as int),
{
    let mut k: usize = 0;
    while k < needle.len()
        invariant
            k <= needle.len(),
            at + needle.len() <= hay.len(),
            forall|j: int| 0 <= j < k ==> hay@[at + j] == needle@[j],
        decreases needle.len() - k,
    {
        if hay[at + k] != needle[k] {
            proof {
                assert(hay@.subrange(at as int, at + needle.len())[k as int] != needle@[k as int]);
            }
            return false;
        }
        k += 1;
    }
    proof {
        assert(hay@.subrange(at as int, at + needle.len()) == needle@);
    }
    true
}

/// Whether `needle` is a contiguous part of `hay`.
pub fn contains(hay: &[char], needle: &[char]) -> (b: bool)
    ensures
        b == contains_seq(hay@, needle@),
{
    if needle.len() > hay.len() {
        return false;
    }
    let last: usize = hay.len() - needle.len();
    let mut i: usize = 0;
    while i < last
        invariant
            i <= last,
            last == hay.len() - needle.len(),
            forall|k: int| 0 <= k < i ==> !occurs_at(hay@, needle@, k),
        decreases last - i,
    {
        if matches_at(hay, needle, i) {
            return true;
        }
        i += 1;
    }
    matches_at(hay, needle, last)
}

/// Whether `a` and `b` hold the same characters.
pub fn same_chars(a: &[char], b: &[char]) -> (eq: bool)
    ensures
        eq == (a@ == b@),
{
    if a.len() != b.len() {
        return false;
    }
    proof {
        assert(a@.subrange(0, a.len() as int) == a@);
    }
    matches_at(a, b, 0)
}

/// Whether `a` and `b` are the same text.
pub fn same_text(a: &str, b: &str) -> (eq: bool)
    ensures
        eq == (a@ == b@),
{
    let x: Vec<char> = chars_of(a);
    let y: Vec<char> = chars_of(b);
    same_chars(x.as_slice(), y.as_slice())
}

/// `s` with every occurrence of `pattern` taken out. Occurrences are found
/// from the left and do not overlap; an empty pattern takes nothing out.
pub open spec fn without(s: Seq<char>, pattern: Seq<char>) -> Seq<char>
    decreases s.len(),
{
    if s.len() == 0 {
        s
    } else if pattern.len() > 0 && occurs_at(s, pattern, 0) {
        without(s.subrange(pattern.len() as int, s.len() as int), pattern)
    } else {
        seq![s[0]] + without(s.drop_first(), pattern)
    }
}

/// Takes every occurrence of `pattern` out of `s`.
pub fn remove_all(s: &[char], pattern: &[char]) -> (out: Vec<char>)
    ensures
        out@ == without(s@, pattern@),
{
    let mut out: Vec<char> = Vec::new();
    let mut i: usize = 0;
    proof {
        assert(s@.subrange(0, s.len() as int) == s@);
        assert(out@ + without(s@, pattern@) == without(s@, pattern@));
    }
    while i < s.len()
        invariant
            i <= s.len(),
            without(s@, pattern@) == out@ + without(s@.subrange(i as int, s.len() as int), pattern@),
        decreases s.len() - i,
    {
        let ghost rest = s@.subrange(i as int, s.len() as int);
        let ghost done = out@;
        if pattern.len() > 0 && pattern.len() <= s.len() - i && matches_at(s, pattern, i) {
            proof {
                assert(s@.subrange(i as int, i + pattern.len()) == rest.subrange(
                    0,
                    pattern.len() as int,
                ));
                assert(rest.subrange(pattern.len() as int, rest.len() as int) == s@.subrange(
                    i + pattern.len(),
                    s.len() as int,
                ));
            }
            i += pattern.len();
        } else {
            proof {
                if pattern.len() > 0 && pattern.len() <= s.len() - i {
                    assert(s@.subrange(i as int, i + pattern.len()) == rest.subrange(
                        0,
                        pattern.len() as int,
                    ));
                }
                assert(rest.drop_first() == s@.subrange(i + 1, s.len() as int));
                assert(done + (seq![rest[0]] + without(rest.drop_first(), pattern@)) == done.push(
                    s@[i as int],
                ) + without(rest.drop_first(), pattern@));
            }
            out.push(s[i]);
            i += 1;
        }
    }
    proof {
        assert(out@ + Seq::<char>::empty() == out@);
    }
    out
}

/// The first `n` lines of `text`, or all of them where there are fewer.
pub open spec fn first_lines_spec(text: Seq<char>, n: nat) -> Seq<Seq<char>> {
    let all = lines_of(text);
    if n < all.len() {
        all.take(n as int)
    } else {
        all
    }
}

/// The first `n` lines of `text`.
pub fn first_lines(text: &str, n: usize) -> (out: Vec<String>)
    ensures
        out.deep_view() == first_lines_spec(text@, n as nat),
{
    let chars: Vec<char> = chars_of(text);
    let all: Vec<Vec<char>> = lines(chars.as_slice());
    let mut out: Vec<String> = Vec::new();
    let mut i: usize = 0;
    while i < all.len() && i < n
        invariant
            i <= all.len(),
            i <= n,
            out.deep_view() == views(all@).take(i as int),
        decreases all.len() - i,
    {
        let ghost done = out.deep_view();
        let line: String = string_of(all[i].as_slice());
        out.push(line);
        proof {
            assert(out.deep_view() == done.push(all@[i as int]@));
        }
        i += 1;
    }
    proof {
        assert(views(all@).take(all.len() as int) == views(all@));
    }
    out
}

} // verus!
