//! Character-level text handling: conversions between strings and character
//! sequences, character classes, trimming, splitting, joining and decimal
//! numbers. Everything is specified over `Seq<char>`.
use vstd::prelude::*;
use vstd::slice::slice_to_vec;
use vstd::string::StringExecFns;
use vstd::utf8::{encode_utf8, encode_utf8_decode_utf8};

verus! {

/// `String::push` appends one character to the end of the string.
pub assume_specification[ String::push ](text: &mut String, c: char)
    ensures
        final(text)@ == old(text)@.push(c),
;

/// The characters of `text`, in order.
pub fn chars_of(text: &str) -> (chars: Vec<char>)
    ensures
        chars@ == text@,
{
    let mut chars: Vec<char> = Vec::new();
    for c in it: text.chars()
        invariant
            it.seq() == text@,
            chars@ == it.seq().subrange(0, it.index() as int),
    {
        chars.push(c);
    }
    chars
}

/// The string made of `chars`, in order.
pub fn string_of(chars: &[char]) -> (text: String)
    ensures
        text@ == chars@,
{
    let mut text = String::new();
    let mut i: usize = 0;
    while i < chars.len()
        invariant
            i <= chars.len(),
            text@ == chars@.subrange(0, i as int),
        decreases chars.len() - i,
    {
        text.push(chars[i]);
        i += 1;
    }
    text
}

/// The views of a sequence of strings.
pub open spec fn texts(strings: Seq<String>) -> Seq<Seq<char>> {
    strings.map_values(|s: String| s@)
}

/// The views of a sequence of character vectors.
pub open spec fn pieces(vectors: Seq<Vec<char>>) -> Seq<Seq<char>> {
    vectors.map_values(|v: Vec<char>| v@)
}

/// Whether the strings `a` and `b` hold the same characters.
pub fn equal(a: &str, b: &str) -> (same: bool)
    ensures
        same == (a@ == b@),
{
    let left = a.as_bytes();
    let right = b.as_bytes();
    proof {
        encode_utf8_decode_utf8(a@);
        encode_utf8_decode_utf8(b@);
        assert(left@ == encode_utf8(a@));
        assert(right@ == encode_utf8(b@));
    }
    if left.len() != right.len() {
        return false;
    }
    let mut i: usize = 0;
    while i < left.len()
        invariant
            i <= left.len(),
            left.len() == right.len(),
            left@ == encode_utf8(a@),
            right@ == encode_utf8(b@),
            left@.subrange(0, i as int) == right@.subrange(0, i as int),
        decreases left.len() - i,
    {
        if left[i] != right[i] {
            assert(left@[i as int] != right@[i as int]);
            return false;
        }
        assert(left@.subrange(0, i + 1) =~= left@.subrange(0, i as int).push(left@[i as int]));
        assert(right@.subrange(0, i + 1) =~= right@.subrange(0, i as int).push(right@[i as int]));
        i += 1;
    }
    assert(left@ =~= left@.subrange(0, left.len() as int));
    assert(right@ =~= right@.subrange(0, left.len() as int));
    proof {
        encode_utf8_decode_utf8(a@);
        encode_utf8_decode_utf8(b@);
    }
    true
}

/// Whether `a` and `b` hold the same characters.
pub fn same_text(a: &[char], b: &str) -> (same: bool)
    ensures
        same == (a@ == b@),
{
    let other = chars_of(b);
    if a.len() != other.len() {
        return false;
    }
    let mut i: usize = 0;
    while i < a.len()
        invariant
            i <= a.len(),
            a.len() == other.len(),
            other@ == b@,
            a@.subrange(0, i as int) == other@.subrange(0, i as int),
        decreases a.len() - i,
    {
        if a[i] != other[i] {
            assert(a@[i as int] != b@[i as int]);
            return false;
        }
        assert(a@.subrange(0, i + 1) =~= a@.subrange(0, i as int).push(a@[i as int]));
        assert(other@.subrange(0, i + 1) =~= other@.subrange(0, i as int).push(other@[i as int]));
        i += 1;
    }
    assert(a@ =~= a@.subrange(0, a.len() as int));
    assert(other@ =~= other@.subrange(0, a.len() as int));
    true
}

/// Whether `s` begins with `prefix`.
pub open spec fn has_prefix(s: Seq<char>, prefix: Seq<char>) -> bool {
    prefix.len() <= s.len() && s.subrange(0, prefix.len() as int) == prefix
}

/// Whether `a` begins with the characters of `prefix`.
pub fn starts_with(a: &[char], prefix: &str) -> (yes: bool)
    ensures
        yes == has_prefix(a@, prefix@),
{
    let other = chars_of(prefix);
    if a.len() < other.len() {
        return false;
    }
    same_text(&a[0..other.len()], prefix)
}

/// Sets of characters that the text functions scan for.
#[derive(Clone, Copy, Debug)]
pub enum CharClass {
    /// Unicode white space.
    Whitespace,
    /// Tab, line feed, form feed, carriage return and space.
    AsciiWhitespace,
    /// Unicode white space and the hyphen-minus.
    WhitespaceOrHyphen,
    /// The digits `0` to `9`.
    Digit,
    /// The comma.
    Comma,
    /// The colon.
    Colon,
}

/// Whether `c` is one of the digits `0` to `9`.
pub open spec fn is_digit(c: char) -> bool {
    '0' <= c <= '9'
}

/// Whether `c` has the Unicode property White_Space.
pub open spec fn is_whitespace(c: char) -> bool {
    ||| '\u{9}' <= c <= '\u{d}'
    ||| c == ' '
    ||| c == '\u{85}'
    ||| c == '\u{a0}'
    ||| c == '\u{1680}'
    ||| '\u{2000}' <= c <= '\u{200a}'
    ||| c == '\u{2028}'
    ||| c == '\u{2029}'
    ||| c == '\u{202f}'
    ||| c == '\u{205f}'
    ||| c == '\u{3000}'
}

/// Whether `c` is white space in the ASCII sense.
pub open spec fn is_ascii_whitespace(c: char) -> bool {
    c == '\u{9}' || c == '\u{a}' || c == '\u{c}' || c == '\u{d}' || c == ' '
}

impl CharClass {
    /// Whether `c` belongs to the class.
    pub open spec fn holds(self, c: char) -> bool {
        match self {
            CharClass::Whitespace => is_whitespace(c),
            CharClass::AsciiWhitespace => is_ascii_whitespace(c),
            CharClass::WhitespaceOrHyphen => is_whitespace(c) || c == '-',
            CharClass::Digit => is_digit(c),
            CharClass::Comma => c == ',',
            CharClass::Colon => c == ':',
        }
    }

    /// Tests `c` for membership.
    pub fn test(self, c: char) -> (member: bool)
        ensures
            member == self.holds(c),
    {
        match self {
            CharClass::Whitespace => is_whitespace_char(c),
            CharClass::AsciiWhitespace => {
                c == '\u{9}' || c == '\u{a}' || c == '\u{c}' || c == '\u{d}' || c == ' '
            },
            CharClass::WhitespaceOrHyphen => is_whitespace_char(c) || c == '-',
            CharClass::Digit => '0' <= c && c <= '9',
            CharClass::Comma => c == ',',
            CharClass::Colon => c == ':',
        }
    }
}

/// Tests `c` for the Unicode property White_Space.
pub fn is_whitespace_char(c: char) -> (white: bool)
    ensures
        white == is_whitespace(c),
{
    ('\u{9}' <= c && c <= '\u{d}') || c == ' ' || c == '\u{85}' || c == '\u{a0}' || c
        == '\u{1680}' || ('\u{2000}' <= c && c <= '\u{200a}') || c == '\u{2028}' || c
        == '\u{2029}' || c == '\u{202f}' || c == '\u{205f}' || c == '\u{3000}'
}

/// The number of characters at the front of `s` whose membership in `class`
/// equals `inside`: the length of the longest such prefix.
pub open spec fn leading_run(s: Seq<char>, class: CharClass, inside: bool) -> nat
    decreases s.len(),
{
    if s.len() > 0 && class.holds(s[0]) == inside {
        1 + leading_run(s.drop_first(), class, inside)
    } else {
        0
    }
}

/// The number of characters at the back of `s` that belong to `class`.
pub open spec fn trailing_run(s: Seq<char>, class: CharClass) -> nat
    decreases s.len(),
{
    if s.len() > 0 && class.holds(s.last()) {
        1 + trailing_run(s.drop_last(), class)
    } else {
        0
    }
}

/// A leading run is no longer than the text, covers only matching characters
/// and ends at the first character that does not match.
pub(crate) proof fn lemma_leading_run(s: Seq<char>, class: CharClass, inside: bool)
    ensures
        leading_run(s, class, inside) <= s.len(),
        forall|i: int|
            0 <= i < leading_run(s, class, inside) ==> class.holds(#[trigger] s[i]) == inside,
        leading_run(s, class, inside) < s.len() ==> class.holds(
            s[leading_run(s, class, inside) as int],
        ) != inside,
    decreases s.len(),
{
    if s.len() > 0 && class.holds(s[0]) == inside {
        let rest = s.drop_first();
        lemma_leading_run(rest, class, inside);
        assert forall|i: int| 0 <= i < leading_run(s, class, inside) implies class.holds(
            #[trigger] s[i],
        ) == inside by {
            if i > 0 {
                assert(s[i] == rest[i - 1]);
            }
        }
        if leading_run(s, class, inside) < s.len() {
            assert(s[leading_run(s, class, inside) as int] == rest[leading_run(
                rest,
                class,
                inside,
            ) as int]);
        }
    }
}

/// Measures the leading run of `chars[from..]`.
pub(crate) fn scan_run(chars: &[char], from: usize, class: CharClass, inside: bool) -> (end: usize)
    requires
        from <= chars.len(),
    ensures
        from <= end <= chars.len(),
        end - from == leading_run(chars@.subrange(from as int, chars.len() as int), class, inside),
{
    let mut end = from;
    while end < chars.len() && class.test(chars[end]) == inside
        invariant
            from <= end <= chars.len(),
            leading_run(chars@.subrange(from as int, chars.len() as int), class, inside) == (end
                - from) + leading_run(
                chars@.subrange(end as int, chars.len() as int),
                class,
                inside,
            ),
        decreases chars.len() - end,
    {
        assert(chars@.subrange(end as int, chars.len() as int).drop_first() =~= chars@.subrange(
            end + 1,
            chars.len() as int,
        ));
        end += 1;
    }
    end
}

/// `s` without its leading white space.
pub open spec fn trimmed_start(s: Seq<char>) -> Seq<char> {
    s.subrange(leading_run(s, CharClass::Whitespace, true) as int, s.len() as int)
}

/// `s` without its leading and trailing white space.
pub open spec fn trimmed(s: Seq<char>) -> Seq<char> {
    let t = trimmed_start(s);
    t.subrange(0, t.len() - trailing_run(t, CharClass::Whitespace))
}

/// `s` without the characters of `class` at its end.
pub open spec fn without_trailing(s: Seq<char>, class: CharClass) -> Seq<char> {
    s.subrange(0, s.len() - trailing_run(s, class))
}

/// Removes the characters of `class` at the end.
pub fn trim_end(chars: &[char], class: CharClass) -> (rest: &[char])
    ensures
        rest@ == without_trailing(chars@, class),
{
    let mut end = chars.len();
    assert(chars@.subrange(0, chars.len() as int) =~= chars@);
    while end > 0 && class.test(chars[end - 1])
        invariant
            end <= chars.len(),
            trailing_run(chars@, class) == (chars.len() - end) + trailing_run(
                chars@.subrange(0, end as int),
                class,
            ),
        decreases end,
    {
        assert(chars@.subrange(0, end as int).drop_last() =~= chars@.subrange(0, end - 1));
        end -= 1;
    }
    &chars[0..end]
}

/// Removes leading white space.
pub fn trim_start(chars: &[char]) -> (rest: &[char])
    ensures
        rest@ == trimmed_start(chars@),
{
    let start = scan_run(chars, 0, CharClass::Whitespace, true);
    assert(chars@.subrange(0, chars.len() as int) =~= chars@);
    &chars[start..chars.len()]
}

/// Removes leading and trailing white space.
pub fn trim(chars: &[char]) -> (rest: &[char])
    ensures
        rest@ == trimmed(chars@),
{
    let t = trim_start(chars);
    let mut end = t.len();
    assert(t@.subrange(0, t.len() as int) =~= t@);
    while end > 0 && is_whitespace_char(t[end - 1])
        invariant
            end <= t.len(),
            trailing_run(t@, CharClass::Whitespace) == (t.len() - end) + trailing_run(
                t@.subrange(0, end as int),
                CharClass::Whitespace,
            ),
        decreases end,
    {
        assert(t@.subrange(0, end as int).drop_last() =~= t@.subrange(0, end - 1));
        end -= 1;
    }
    &t[0..end]
}

/// The pieces of `s` between the characters of `class`, each of which
/// separates two pieces. There is always at least one piece; pieces may be
/// empty.
pub open spec fn split_on(s: Seq<char>, class: CharClass) -> Seq<Seq<char>>
    decreases s.len(),
{
    let i = leading_run(s, class, false);
    if i >= s.len() {
        seq![s]
    } else {
        seq![s.subrange(0, i as int)] + split_on(s.subrange(i as int + 1, s.len() as int), class)
    }
}

/// The non-empty pieces of `s` between characters of `class`.
pub open spec fn tokens(s: Seq<char>, class: CharClass) -> Seq<Seq<char>> {
    split_on(s, class).filter(|piece: Seq<char>| piece.len() > 0)
}

/// Cuts `chars` at every character of `class`.
pub fn split(chars: &[char], class: CharClass) -> (parts: Vec<Vec<char>>)
    ensures
        pieces(parts@) == split_on(chars@, class),
{
    let mut parts: Vec<Vec<char>> = Vec::new();
    let mut start: usize = 0;
    assert(chars@.subrange(0, chars.len() as int) =~= chars@);
    assert(pieces(parts@) =~= Seq::<Seq<char>>::empty());
    loop
        invariant
            start <= chars.len(),
            pieces(parts@) + split_on(chars@.subrange(start as int, chars.len() as int), class)
                == split_on(chars@, class),
        decreases chars.len() - start,
    {
        let ghost rest = chars@.subrange(start as int, chars.len() as int);
        let ghost before = pieces(parts@);
        let end = scan_run(chars, start, class, false);
        let piece = slice_to_vec(&chars[start..end]);
        assert(piece@ =~= rest.subrange(0, end - start));
        parts.push(piece);
        assert(pieces(parts@) =~= before + seq![piece@]);
        if end == chars.len() {
            assert(rest.subrange(0, end - start) =~= rest);
            return parts;
        }
        assert(rest.subrange(end - start + 1, rest.len() as int) =~= chars@.subrange(
            end + 1,
            chars.len() as int,
        ));
        assert(before + split_on(rest, class) =~= (before + seq![piece@]) + split_on(
            chars@.subrange(end + 1, chars.len() as int),
            class,
        ));
        start = end + 1;
    }
}

/// The non-empty runs of `chars` between characters of `class`.
pub fn tokenize(chars: &[char], class: CharClass) -> (found: Vec<Vec<char>>)
    ensures
        pieces(found@) == tokens(chars@, class),
{
    let parts = split(chars, class);
    let ghost all = pieces(parts@);
    let ghost keep = |piece: Seq<char>| piece.len() > 0;
    let mut found: Vec<Vec<char>> = Vec::new();
    let mut i: usize = 0;
    assert(all.subrange(0, 0).filter(keep) =~= Seq::<Seq<char>>::empty()) by {
        reveal_with_fuel(Seq::filter, 1);
    }
    assert(pieces(found@) =~= Seq::<Seq<char>>::empty());
    while i < parts.len()
        invariant
            i <= parts.len(),
            all == pieces(parts@),
            keep == |piece: Seq<char>| piece.len() > 0,
            pieces(found@) == all.subrange(0, i as int).filter(keep),
        decreases parts.len() - i,
    {
        let ghost k = i as int;
        let ghost done = pieces(found@);
        assert(all.subrange(0, k + 1) =~= all.subrange(0, k) + seq![all[k]]);
        proof {
            Seq::filter_distributes_over_add(all.subrange(0, k), seq![all[k]], keep);
            reveal_with_fuel(Seq::filter, 2);
            assert(seq![all[k]].drop_last() =~= Seq::<Seq<char>>::empty());
        }
        if parts[i].len() > 0 {
            let piece = slice_to_vec(parts[i].as_slice());
            found.push(piece);
            assert(pieces(found@) =~= done.push(all[k]));
            assert(seq![all[k]].filter(keep) =~= seq![all[k]]);
        } else {
            assert(seq![all[k]].filter(keep) =~= Seq::<Seq<char>>::empty());
        }
        i += 1;
    }
    assert(all.subrange(0, all.len() as int) =~= all);
    found
}

/// The pieces of `parts` written one after another with `sep` between them.
pub open spec fn joined(parts: Seq<Seq<char>>, sep: Seq<char>) -> Seq<char>
    decreases parts.len(),
{
    if parts.len() == 0 {
        Seq::empty()
    } else if parts.len() == 1 {
        parts[0]
    } else {
        joined(parts.drop_last(), sep) + sep + parts.last()
    }
}

/// Writes the strings of `parts` one after another with `sep` between them.
pub fn join(parts: &Vec<String>, sep: &str) -> (text: String)
    ensures
        text@ == joined(texts(parts@), sep@),
{
    let mut text = String::new();
    let mut i: usize = 0;
    while i < parts.len()
        invariant
            i <= parts.len(),
            text@ == joined(texts(parts@).subrange(0, i as int), sep@),
        decreases parts.len() - i,
    {
        let ghost before = texts(parts@).subrange(0, i as int);
        let ghost after = texts(parts@).subrange(0, i + 1);
        assert(after.drop_last() =~= before);
        assert(after.last() == parts@[i as int]@);
        if i > 0 {
            text.append(sep);
        } else {
            assert(text@ + parts@[i as int]@ =~= parts@[i as int]@);
        }
        text.append(parts[i].as_str());
        i += 1;
    }
    assert(texts(parts@).subrange(0, parts.len() as int) =~= texts(parts@));
    text
}

/// `s` with a backslash put before every comma.
pub open spec fn escaped_commas(s: Seq<char>) -> Seq<char>
    decreases s.len(),
{
    if s.len() == 0 {
        Seq::empty()
    } else if s.last() == ',' {
        escaped_commas(s.drop_last()) + seq!['\\', ',']
    } else {
        escaped_commas(s.drop_last()).push(s.last())
    }
}

/// `s` with every backslash that stands directly before a comma removed,
/// reading from the left.
pub open spec fn unescaped_commas(s: Seq<char>) -> Seq<char>
    decreases s.len(),
{
    if s.len() == 0 {
        Seq::empty()
    } else if s.len() >= 2 && s[0] == '\\' && s[1] == ',' {
        seq![','] + unescaped_commas(s.subrange(2, s.len() as int))
    } else {
        seq![s[0]] + unescaped_commas(s.drop_first())
    }
}

/// Puts a backslash before every comma of `text`.
pub fn escape_commas(text: &str) -> (escaped: String)
    ensures
        escaped@ == escaped_commas(text@),
{
    let chars = chars_of(text);
    let mut escaped = String::new();
    let mut i: usize = 0;
    while i < chars.len()
        invariant
            i <= chars.len(),
            escaped@ == escaped_commas(chars@.subrange(0, i as int)),
        decreases chars.len() - i,
    {
        assert(chars@.subrange(0, i + 1).drop_last() =~= chars@.subrange(0, i as int));
        if chars[i] == ',' {
            escaped.push('\\');
            escaped.push(',');
            assert(escaped@ =~= escaped_commas(chars@.subrange(0, i as int)) + seq!['\\', ',']);
        } else {
            escaped.push(chars[i]);
        }
        i += 1;
    }
    assert(chars@.subrange(0, chars.len() as int) =~= chars@);
    escaped
}

/// Escaping the commas of a text escapes those of its first character and
/// those of the rest.
proof fn lemma_escaped_commas_from_front(s: Seq<char>)
    requires
        s.len() > 0,
    ensures
        escaped_commas(s) == escaped_commas(seq![s[0]]) + escaped_commas(s.drop_first()),
        escaped_commas(seq![s[0]]) == if s[0] == ',' {
            seq!['\\', ',']
        } else {
            seq![s[0]]
        },
    decreases s.len(),
{
    let one = seq![s[0]];
    assert(one.drop_last() =~= Seq::<char>::empty());
    assert(escaped_commas(one) =~= if s[0] == ',' {
        seq!['\\', ',']
    } else {
        seq![s[0]]
    }) by {
        reveal_with_fuel(escaped_commas, 2);
    }
    if s.len() == 1 {
        assert(s =~= one);
        assert(s.drop_first() =~= Seq::<char>::empty());
        assert(escaped_commas(one) + escaped_commas(s.drop_first()) =~= escaped_commas(one));
    } else {
        let front = s.drop_last();
        lemma_escaped_commas_from_front(front);
        assert(front.drop_first() =~= s.drop_first().drop_last());
        assert(s.drop_first().last() == s.last());
        assert(front[0] == s[0]);
        if s.last() == ',' {
            assert(escaped_commas(s) =~= escaped_commas(one) + (escaped_commas(
                s.drop_first().drop_last(),
            ) + seq!['\\', ',']));
        } else {
            assert(escaped_commas(s) =~= escaped_commas(one) + escaped_commas(
                s.drop_first().drop_last(),
            ).push(s.last()));
        }
    }
}

/// Taking the backslashes out again gives back the text whose commas were
/// escaped.
pub proof fn lemma_unescape_restores(s: Seq<char>)
    ensures
        unescaped_commas(escaped_commas(s)) == s,
    decreases s.len(),
{
    if s.len() == 0 {
    } else {
        let rest = s.drop_first();
        let escaped = escaped_commas(s);
        lemma_escaped_commas_from_front(s);
        lemma_unescape_restores(rest);
        if s[0] == ',' {
            assert(escaped.subrange(2, escaped.len() as int) =~= escaped_commas(rest));
            assert(seq![','] + rest =~= s);
        } else {
            if rest.len() > 0 {
                lemma_escaped_commas_from_front(rest);
                assert(escaped[1] == escaped_commas(rest)[0]);
                assert(escaped[1] != ',');
            }
            assert(escaped.drop_first() =~= escaped_commas(rest));
            assert(seq![s[0]] + rest =~= s);
        }
    }
}

/// Whether `text` holds no carriage return.
pub open spec fn returns_free(text: Seq<char>) -> bool {
    forall|i: int| 0 <= i < text.len() ==> #[trigger] text[i] != '\r'
}

/// Whether none of `parts` holds a carriage return.
pub open spec fn all_returns_free(parts: Seq<Seq<char>>) -> bool {
    forall|i: int| 0 <= i < parts.len() ==> returns_free(#[trigger] parts[i])
}

/// Escaping commas brings in no carriage return.
pub proof fn lemma_escaped_commas_returns_free(s: Seq<char>)
    requires
        returns_free(s),
    ensures
        returns_free(escaped_commas(s)),
    decreases s.len(),
{
    if s.len() > 0 {
        let front = s.drop_last();
        assert forall|i: int| 0 <= i < front.len() implies #[trigger] front[i] != '\r' by {
            assert(front[i] == s[i]);
        }
        lemma_escaped_commas_returns_free(front);
        assert(s.last() == s[s.len() - 1]);
    }
}

/// Joining parts brings in no carriage return.
pub proof fn lemma_joined_returns_free(parts: Seq<Seq<char>>, sep: Seq<char>)
    requires
        all_returns_free(parts),
        returns_free(sep),
    ensures
        returns_free(joined(parts, sep)),
    decreases parts.len(),
{
    if parts.len() == 1 {
        assert(returns_free(parts[0]));
    } else if parts.len() > 1 {
        let front = parts.drop_last();
        assert forall|i: int| 0 <= i < front.len() implies returns_free(#[trigger] front[i]) by {
            assert(front[i] == parts[i]);
        }
        lemma_joined_returns_free(front, sep);
        assert(returns_free(parts[parts.len() - 1]));
    }
}

} // verus!
