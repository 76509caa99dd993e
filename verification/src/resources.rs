//! The resources of an event: a list of names between commas, of which
//! those that look like a course code are courses and the others are
//! locations.
use crate::text::{chars_of, is_digit, pieces, split, split_on, string_of, texts, trim, trimmed, CharClass};
use vstd::prelude::*;

verus! {

/// Whether `c` is one of the letters `A` to `Z`.
pub open spec fn is_upper(c: char) -> bool {
    'A' <= c <= 'Z'
}

/// Whether `c` may stand after the hyphen of a course code: a letter from
/// `A` to `Z`, a digit or a space.
pub open spec fn is_course_char(c: char) -> bool {
    is_upper(c) || is_digit(c) || c == ' '
}

/// Whether `s` is a course code: three letters from `A` to `Z`, a hyphen,
/// and then one or more letters from `A` to `Z`, digits and spaces.
pub open spec fn is_course(s: Seq<char>) -> bool {
    &&& s.len() >= 5
    &&& is_upper(s[0])
    &&& is_upper(s[1])
    &&& is_upper(s[2])
    &&& s[3] == '-'
    &&& forall|i: int| 4 <= i < s.len() ==> is_course_char(#[trigger] s[i])
}

/// The names in `text`: the pieces between its commas, each without the
/// white space around it.
pub open spec fn resource_tokens(text: Seq<char>) -> Seq<Seq<char>> {
    split_on(text, CharClass::Comma).map_values(|piece: Seq<char>| trimmed(piece))
}

/// Those of `tokens` that are course codes, in order.
pub open spec fn courses_among(tokens: Seq<Seq<char>>) -> Seq<Seq<char>>
    decreases tokens.len(),
{
    if tokens.len() == 0 {
        Seq::empty()
    } else if is_course(tokens.last()) {
        courses_among(tokens.drop_last()).push(tokens.last())
    } else {
        courses_among(tokens.drop_last())
    }
}

/// Those of `tokens` that are no course codes, in order.
pub open spec fn locations_among(tokens: Seq<Seq<char>>) -> Seq<Seq<char>>
    decreases tokens.len(),
{
    if tokens.len() == 0 {
        Seq::empty()
    } else if is_course(tokens.last()) {
        locations_among(tokens.drop_last())
    } else {
        locations_among(tokens.drop_last()).push(tokens.last())
    }
}

/// Every token is either a course or a location and never both: courses
/// and locations together are the tokens, each as often as it occurs, all
/// courses are course codes and no location is one.
pub proof fn lemma_classification_partitions(tokens: Seq<Seq<char>>)
    ensures
        courses_among(tokens).len() + locations_among(tokens).len() == tokens.len(),
        courses_among(tokens).to_multiset().add(locations_among(tokens).to_multiset())
            == tokens.to_multiset(),
        forall|i: int|
            0 <= i < courses_among(tokens).len() ==> is_course(#[trigger] courses_among(tokens)[i]),
        forall|i: int|
            0 <= i < locations_among(tokens).len() ==> !is_course(
                #[trigger] locations_among(tokens)[i],
            ),
    decreases tokens.len(),
{
    broadcast use vstd::seq_lib::group_to_multiset_ensures;

    if tokens.len() == 0 {
        assert(courses_among(tokens).to_multiset().add(locations_among(tokens).to_multiset())
            =~= tokens.to_multiset());
    } else {
        let front = tokens.drop_last();
        lemma_classification_partitions(front);
        assert(tokens =~= front.push(tokens.last()));
        assert(courses_among(tokens).to_multiset().add(locations_among(tokens).to_multiset())
            =~= tokens.to_multiset());
    }
}

/// Tests text for being a course code.
pub fn is_course_code(chars: &[char]) -> (yes: bool)
    ensures
        yes == is_course(chars@),
{
    if chars.len() < 5 {
        return false;
    }
    if !(is_upper_char(chars[0]) && is_upper_char(chars[1]) && is_upper_char(chars[2]) && chars[3]
        == '-') {
        return false;
    }
    let mut i: usize = 4;
    while i < chars.len()
        invariant
            4 <= i <= chars.len(),
            forall|j: int| 4 <= j < i ==> is_course_char(#[trigger] chars@[j]),
        decreases chars.len() - i,
    {
        let c = chars[i];
        if !(is_upper_char(c) || ('0' <= c && c <= '9') || c == ' ') {
            assert(!is_course_char(chars@[i as int]));
            return false;
        }
        i += 1;
    }
    true
}

/// Tests a character for being a letter from `A` to `Z`.
fn is_upper_char(c: char) -> (yes: bool)
    ensures
        yes == is_upper(c),
{
    'A' <= c && c <= 'Z'
}

/// The names in `text`, each without the white space around it.
pub fn list_resources(text: &str) -> (names: Vec<Vec<char>>)
    ensures
        pieces(names@) == resource_tokens(text@),
{
    let chars = chars_of(text);
    list_names(chars.as_slice())
}

/// The names in `chars`, each without the white space around it.
pub fn list_names(chars: &[char]) -> (names: Vec<Vec<char>>)
    ensures
        pieces(names@) == resource_tokens(chars@),
{
    let parts = split(chars, CharClass::Comma);
    let mut names: Vec<Vec<char>> = Vec::new();
    let mut i: usize = 0;
    while i < parts.len()
        invariant
            i <= parts.len(),
            pieces(parts@) == split_on(chars@, CharClass::Comma),
            pieces(names@) =~= resource_tokens(chars@).subrange(0, i as int),
        decreases parts.len() - i,
    {
        let ghost before = pieces(names@);
        let name = vstd::slice::slice_to_vec(trim(parts[i].as_slice()));
        assert(name@ == trimmed(pieces(parts@)[i as int]));
        names.push(name);
        assert(pieces(names@) =~= before.push(name@));
        i += 1;
    }
    names
}

/// The texts of `names` as strings.
pub fn strings_of(names: &Vec<Vec<char>>) -> (strings: Vec<String>)
    ensures
        texts(strings@) == pieces(names@),
{
    let mut strings: Vec<String> = Vec::new();
    let mut i: usize = 0;
    while i < names.len()
        invariant
            i <= names.len(),
            texts(strings@) =~= pieces(names@).subrange(0, i as int),
        decreases names.len() - i,
    {
        let ghost before = texts(strings@);
        let string = string_of(names[i].as_slice());
        strings.push(string);
        assert(texts(strings@) =~= before.push(names@[i as int]@));
        i += 1;
    }
    strings
}

/// Sorts the names of `names` into courses and locations, keeping the
/// order among each.
pub fn classify(names: &Vec<Vec<char>>) -> (sorted: (Vec<String>, Vec<String>))
    ensures
        texts(sorted.0@) == courses_among(pieces(names@)),
        texts(sorted.1@) == locations_among(pieces(names@)),
{
    let mut courses: Vec<String> = Vec::new();
    let mut locations: Vec<String> = Vec::new();
    let ghost all = pieces(names@);
    let mut i: usize = 0;
    assert(all.subrange(0, 0) =~= Seq::<Seq<char>>::empty());
    assert(texts(courses@) =~= Seq::<Seq<char>>::empty());
    assert(texts(locations@) =~= Seq::<Seq<char>>::empty());
    while i < names.len()
        invariant
            i <= names.len(),
            all == pieces(names@),
            texts(courses@) == courses_among(all.subrange(0, i as int)),
            texts(locations@) == locations_among(all.subrange(0, i as int)),
        decreases names.len() - i,
    {
        let ghost seen = all.subrange(0, i + 1);
        assert(seen.drop_last() =~= all.subrange(0, i as int));
        assert(seen.last() == names@[i as int]@);
        let ghost courses_before = texts(courses@);
        let ghost locations_before = texts(locations@);
        let name = string_of(names[i].as_slice());
        if is_course_code(names[i].as_slice()) {
            courses.push(name);
            assert(texts(courses@) =~= courses_before.push(name@));
        } else {
            locations.push(name);
            assert(texts(locations@) =~= locations_before.push(name@));
        }
        i += 1;
    }
    assert(all.subrange(0, names.len() as int) =~= all);
    (courses, locations)
}

/// Sorts the names in `text`, which stand between commas, into courses and
/// locations.
pub fn classify_resources(text: &str) -> (sorted: (Vec<String>, Vec<String>))
    ensures
        texts(sorted.0@) == courses_among(resource_tokens(text@)),
        texts(sorted.1@) == locations_among(resource_tokens(text@)),
{
    let names = list_resources(text);
    classify(&names)
}

} // verus!
