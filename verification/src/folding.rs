//! Content lines of a calendar file: a logical line is cut into physical
//! lines of at most 72 bytes, none of which ends inside a character.
use crate::text::returns_free;
use vstd::prelude::*;
use vstd::utf8::{
    encode_utf8, encode_utf8_valid_utf8, is_char_boundary,
    is_char_boundary_iff_not_is_continuation_byte, is_continuation_byte, length_of_first_scalar,
    pop_first_scalar, valid_utf8, valid_utf8_split,
};

verus! {

/// The most bytes of content that a physical line holds.
pub const LINE_LIMIT: usize = 72;

pub const CARRIAGE_RETURN: u8 = 0x0d;

pub const LINE_FEED: u8 = 0x0a;

pub const SPACE: u8 = 0x20;

/// How many bytes of `bytes` go on the first physical line: all of them
/// where they fit, else the most that fit without cutting a character of
/// up to four bytes in two.
pub open spec fn first_cut(bytes: Seq<u8>) -> int {
    if bytes.len() <= LINE_LIMIT {
        bytes.len() as int
    } else if !is_continuation_byte(bytes[72]) {
        72
    } else if !is_continuation_byte(bytes[71]) {
        71
    } else if !is_continuation_byte(bytes[70]) {
        70
    } else {
        69
    }
}

/// The contents of the physical lines that `bytes` is cut into.
pub open spec fn physical_lines(bytes: Seq<u8>) -> Seq<Seq<u8>>
    decreases bytes.len(),
{
    if bytes.len() == 0 {
        Seq::empty()
    } else {
        seq![bytes.subrange(0, first_cut(bytes))] + physical_lines(
            bytes.subrange(first_cut(bytes), bytes.len() as int),
        )
    }
}

/// What a physical line begins with: nothing for a first line, a space for
/// a line that continues another.
pub open spec fn line_start(first: bool) -> Seq<u8> {
    if first {
        Seq::empty()
    } else {
        seq![SPACE]
    }
}

/// What is written for physical lines: each content followed by a carriage
/// return and a line feed, and each but a first one preceded by a space.
pub open spec fn rendered(lines: Seq<Seq<u8>>, first: bool) -> Seq<u8>
    decreases lines.len(),
{
    if lines.len() == 0 {
        Seq::empty()
    } else {
        line_start(first) + lines[0] + seq![CARRIAGE_RETURN, LINE_FEED] + rendered(
            lines.drop_first(),
            false,
        )
    }
}

/// What is written for bytes that are not all written yet: their first
/// physical line, then the rest as continuation lines.
proof fn lemma_rendered_step(bytes: Seq<u8>, first: bool)
    requires
        bytes.len() > 0,
    ensures
        rendered(physical_lines(bytes), first) == line_start(first) + bytes.subrange(
            0,
            first_cut(bytes),
        ) + seq![CARRIAGE_RETURN, LINE_FEED] + rendered(
            physical_lines(bytes.subrange(first_cut(bytes), bytes.len() as int)),
            false,
        ),
{
    let head = bytes.subrange(0, first_cut(bytes));
    let tail = bytes.subrange(first_cut(bytes), bytes.len() as int);
    let lines = physical_lines(bytes);
    assert(lines == seq![head] + physical_lines(tail));
    assert(lines[0] == head);
    assert(lines.drop_first() =~= physical_lines(tail));
}

/// What is written for the logical line `bytes`. Nothing is written for an
/// empty line.
pub open spec fn folded(bytes: Seq<u8>) -> Seq<u8> {
    rendered(physical_lines(bytes), true)
}

/// What is written for the lines of `lines`, one after the other.
pub open spec fn folded_lines(lines: Seq<Seq<char>>) -> Seq<u8>
    decreases lines.len(),
{
    if lines.len() == 0 {
        Seq::empty()
    } else {
        folded_lines(lines.drop_last()) + folded(encode_utf8(lines.last()))
    }
}

/// `text` with every carriage return, line feed and space that follow one
/// another in this order taken out: the logical lines of a calendar file.
pub open spec fn unfolded(text: Seq<u8>) -> Seq<u8>
    decreases text.len(),
{
    if text.len() == 0 {
        Seq::empty()
    } else if text.len() >= 3 && text[0] == CARRIAGE_RETURN && text[1] == LINE_FEED && text[2]
        == SPACE {
        unfolded(text.subrange(3, text.len() as int))
    } else {
        seq![text[0]] + unfolded(text.drop_first())
    }
}

/// Whether a carriage return, a line feed and a space follow one another
/// somewhere in `bytes`.
pub open spec fn holds_fold_mark(bytes: Seq<u8>) -> bool {
    exists|i: int|
        0 <= i && i + 2 < bytes.len() && #[trigger] bytes[i] == CARRIAGE_RETURN && bytes[i + 1]
            == LINE_FEED && bytes[i + 2] == SPACE
}

/// Appends `bytes` to `output`.
pub fn append_bytes(output: &mut Vec<u8>, bytes: &[u8])
    ensures
        final(output)@ == old(output)@ + bytes@,
{
    let mut i: usize = 0;
    while i < bytes.len()
        invariant
            i <= bytes.len(),
            output@ == old(output)@ + bytes@.subrange(0, i as int),
        decreases bytes.len() - i,
    {
        output.push(bytes[i]);
        assert(bytes@.subrange(0, i + 1) =~= bytes@.subrange(0, i as int).push(bytes@[i as int]));
        i += 1;
    }
    assert(bytes@.subrange(0, bytes.len() as int) =~= bytes@);
}

/// Tests a byte for the form `10xxxxxx`.
fn continues_character(byte: u8) -> (yes: bool)
    ensures
        yes == is_continuation_byte(byte),
{
    0x80 <= byte && byte <= 0xbf
}

/// Finds how many of the bytes from `start` on go on one physical line.
fn cut_from(bytes: &[u8], start: usize) -> (cut: usize)
    requires
        start < bytes.len(),
    ensures
        cut == first_cut(bytes@.subrange(start as int, bytes.len() as int)),
        0 < cut <= bytes.len() - start,
{
    let ghost rest = bytes@.subrange(start as int, bytes.len() as int);
    let remaining = bytes.len() - start;
    if remaining <= LINE_LIMIT {
        remaining
    } else {
        assert(rest[72] == bytes@[start + 72]);
        assert(rest[71] == bytes@[start + 71]);
        assert(rest[70] == bytes@[start + 70]);
        if !continues_character(bytes[start + 72]) {
            72
        } else if !continues_character(bytes[start + 71]) {
            71
        } else if !continues_character(bytes[start + 70]) {
            70
        } else {
            69
        }
    }
}

/// What is written once a first physical line of `rest` has been written
/// after `before`: what was to be written for `rest`, less that line.
proof fn lemma_written_step(before: Seq<u8>, after: Seq<u8>, rest: Seq<u8>, first: bool)
    requires
        rest.len() > 0,
        after == before + line_start(first) + rest.subrange(0, first_cut(rest)) + seq![
            CARRIAGE_RETURN,
            LINE_FEED,
        ],
    ensures
        before + rendered(physical_lines(rest), first) == after + rendered(
            physical_lines(rest.subrange(first_cut(rest), rest.len() as int)),
            false,
        ),
{
    lemma_rendered_step(rest, first);
    let head = line_start(first) + rest.subrange(0, first_cut(rest)) + seq![
        CARRIAGE_RETURN,
        LINE_FEED,
    ];
    let tail = rendered(
        physical_lines(rest.subrange(first_cut(rest), rest.len() as int)),
        false,
    );
    assert(before + (head + tail) =~= (before + line_start(first) + rest.subrange(
        0,
        first_cut(rest),
    ) + seq![CARRIAGE_RETURN, LINE_FEED]) + tail);
}

/// Writes the logical line `line` as physical lines: at most 72 bytes of
/// content each, none ending inside a character, each ended by a carriage
/// return and a line feed, each but the first begun with a space.
pub fn write_ical_line(output: &mut Vec<u8>, line: &str)
    ensures
        final(output)@ == old(output)@ + folded(encode_utf8(line@)),
{
    let bytes = line.as_bytes();
    let mut start: usize = 0;
    assert(bytes@.subrange(0, bytes.len() as int) =~= bytes@);
    while start < bytes.len()
        invariant
            start <= bytes.len(),
            bytes@ == encode_utf8(line@),
            output@ + rendered(
                physical_lines(bytes@.subrange(start as int, bytes.len() as int)),
                start == 0,
            ) == old(output)@ + folded(bytes@),
        decreases bytes.len() - start,
    {
        let ghost rest = bytes@.subrange(start as int, bytes.len() as int);
        let ghost before = output@;
        let cut = cut_from(bytes, start);
        if start > 0 {
            output.push(SPACE);
        }
        append_bytes(output, &bytes[start..start + cut]);
        output.push(CARRIAGE_RETURN);
        output.push(LINE_FEED);
        proof {
            assert(bytes@.subrange(start as int, start + cut) =~= rest.subrange(0, cut as int));
            assert(bytes@.subrange(start + cut, bytes.len() as int) =~= rest.subrange(
                cut as int,
                rest.len() as int,
            ));
            assert(output@ =~= before + line_start(start == 0) + rest.subrange(0, cut as int)
                + seq![CARRIAGE_RETURN, LINE_FEED]);
            lemma_written_step(before, output@, rest, start == 0);
        }
        start = start + cut;
    }
    assert(bytes@.subrange(start as int, bytes.len() as int) =~= Seq::<u8>::empty());
    assert(output@ + Seq::<u8>::empty() =~= output@);
}

/// Of any four bytes in a row of valid UTF-8, one begins a character.
proof fn lemma_boundary_within_four(bytes: Seq<u8>, i: int)
    requires
        valid_utf8(bytes),
        0 <= i,
        i + 3 < bytes.len(),
    ensures
        is_char_boundary(bytes, i) || is_char_boundary(bytes, i + 1) || is_char_boundary(
            bytes,
            i + 2,
        ) || is_char_boundary(bytes, i + 3),
    decreases bytes.len(),
{
    let width = length_of_first_scalar(bytes);
    let tail = pop_first_scalar(bytes);
    if i == 0 {
    } else if i < width {
        assert(is_char_boundary(tail, 0));
        assert(is_char_boundary(bytes, width));
    } else {
        lemma_boundary_within_four(tail, i - width);
        if is_char_boundary(tail, i - width) {
            assert(is_char_boundary(bytes, i));
        } else if is_char_boundary(tail, i - width + 1) {
            assert(is_char_boundary(bytes, i + 1));
        } else if is_char_boundary(tail, i - width + 2) {
            assert(is_char_boundary(bytes, i + 2));
        } else {
            assert(is_char_boundary(bytes, i + 3));
        }
    }
}

/// The first physical line of valid UTF-8 ends where a character ends.
pub proof fn lemma_first_cut_is_boundary(bytes: Seq<u8>)
    requires
        valid_utf8(bytes),
    ensures
        is_char_boundary(bytes, first_cut(bytes)),
        bytes.len() > 0 ==> 0 < first_cut(bytes) <= LINE_LIMIT,
        first_cut(bytes) <= bytes.len(),
{
    if bytes.len() <= LINE_LIMIT {
        vstd::utf8::is_char_boundary_start_end_of_seq(bytes);
    } else {
        lemma_boundary_within_four(bytes, 69);
        is_char_boundary_iff_not_is_continuation_byte(bytes, 69);
        is_char_boundary_iff_not_is_continuation_byte(bytes, 70);
        is_char_boundary_iff_not_is_continuation_byte(bytes, 71);
        is_char_boundary_iff_not_is_continuation_byte(bytes, 72);
    }
}

/// No physical line is empty or holds more than 72 bytes of content.
pub proof fn lemma_physical_lines_fit(bytes: Seq<u8>)
    ensures
        forall|i: int|
            0 <= i < physical_lines(bytes).len() ==> 0 < (#[trigger] physical_lines(bytes)[i]).len()
                <= LINE_LIMIT,
    decreases bytes.len(),
{
    if bytes.len() > 0 {
        let tail = bytes.subrange(first_cut(bytes), bytes.len() as int);
        lemma_physical_lines_fit(tail);
        assert forall|i: int| 0 <= i < physical_lines(bytes).len() implies 0 < (
        #[trigger] physical_lines(bytes)[i]).len() <= LINE_LIMIT by {
            if i > 0 {
                assert(physical_lines(bytes)[i] == physical_lines(tail)[i - 1]);
            }
        }
    }
}

/// Folding never cuts a character in two: every physical line of valid
/// UTF-8 is valid UTF-8 itself.
pub proof fn lemma_physical_lines_keep_characters(bytes: Seq<u8>)
    requires
        valid_utf8(bytes),
    ensures
        forall|i: int|
            0 <= i < physical_lines(bytes).len() ==> valid_utf8(#[trigger] physical_lines(bytes)[i]),
    decreases bytes.len(),
{
    if bytes.len() > 0 {
        let cut = first_cut(bytes);
        let tail = bytes.subrange(cut, bytes.len() as int);
        lemma_first_cut_is_boundary(bytes);
        valid_utf8_split(bytes, cut);
        lemma_physical_lines_keep_characters(tail);
        assert forall|i: int| 0 <= i < physical_lines(bytes).len() implies valid_utf8(
            #[trigger] physical_lines(bytes)[i],
        ) by {
            if i > 0 {
                assert(physical_lines(bytes)[i] == physical_lines(tail)[i - 1]);
            }
        }
    }
}

/// The physical lines of a line of text hold at most 72 bytes each, and
/// whole characters only.
pub proof fn lemma_folded_text_fits(line: Seq<char>)
    ensures
        forall|i: int|
            0 <= i < physical_lines(encode_utf8(line)).len() ==> {
                &&& 0 < (#[trigger] physical_lines(encode_utf8(line))[i]).len() <= LINE_LIMIT
                &&& valid_utf8(physical_lines(encode_utf8(line))[i])
            },
{
    encode_utf8_valid_utf8(line);
    lemma_physical_lines_fit(encode_utf8(line));
    lemma_physical_lines_keep_characters(encode_utf8(line));
}

/// Unfolding passes over a stretch without a fold mark, where what follows
/// the stretch cannot complete a mark begun in it.
proof fn lemma_unfolded_passes(stretch: Seq<u8>, rest: Seq<u8>)
    requires
        !holds_fold_mark(stretch),
        rest.len() > 0 ==> rest[0] == CARRIAGE_RETURN,
    ensures
        unfolded(stretch + rest) == stretch + unfolded(rest),
    decreases stretch.len(),
{
    if stretch.len() == 0 {
        assert(stretch + rest =~= rest);
        assert(stretch + unfolded(rest) =~= unfolded(rest));
    } else {
        let text = stretch + rest;
        let shorter = stretch.drop_first();
        if text.len() >= 3 && text[0] == CARRIAGE_RETURN && text[1] == LINE_FEED && text[2]
            == SPACE {
            if stretch.len() >= 3 {
                assert(stretch[0] == CARRIAGE_RETURN && stretch[1] == LINE_FEED && stretch[2]
                    == SPACE);
                assert(holds_fold_mark(stretch));
            } else if stretch.len() == 2 {
                assert(text[2] == rest[0]);
            } else {
                assert(text[1] == rest[0]);
            }
        }
        assert(!holds_fold_mark(shorter)) by {
            if holds_fold_mark(shorter) {
                let i = choose|i: int|
                    0 <= i && i + 2 < shorter.len() && #[trigger] shorter[i] == CARRIAGE_RETURN
                        && shorter[i + 1] == LINE_FEED && shorter[i + 2] == SPACE;
                assert(stretch[i + 1] == CARRIAGE_RETURN && stretch[i + 2] == LINE_FEED
                    && stretch[i + 3] == SPACE);
            }
        }
        lemma_unfolded_passes(shorter, rest);
        assert(text.drop_first() =~= shorter + rest);
        assert(seq![text[0]] + (shorter + unfolded(rest)) =~= stretch + unfolded(rest));
    }
}

/// Whether none of the physical lines of `bytes` holds a fold mark.
pub open spec fn folds_cleanly(bytes: Seq<u8>) -> bool {
    forall|i: int|
        0 <= i < physical_lines(bytes).len() ==> !holds_fold_mark(#[trigger] physical_lines(bytes)[i])
}

/// Unfolding a physical line and the continuation lines after it gives the
/// logical line they were cut from, with its line end.
proof fn lemma_unfolded_continuation(line: Seq<u8>, tail: Seq<u8>)
    requires
        !holds_fold_mark(line),
        folds_cleanly(tail),
    ensures
        unfolded(line + seq![CARRIAGE_RETURN, LINE_FEED] + rendered(physical_lines(tail), false))
            == line + tail + seq![CARRIAGE_RETURN, LINE_FEED],
    decreases tail.len(),
{
    let end = seq![CARRIAGE_RETURN, LINE_FEED];
    let more = rendered(physical_lines(tail), false);
    assert(line + end + more =~= line + (end + more));
    lemma_unfolded_passes(line, end + more);
    if tail.len() == 0 {
        assert(end + more =~= end);
        assert(unfolded(end) =~= end) by {
            reveal_with_fuel(unfolded, 3);
            assert(end.drop_first() =~= seq![LINE_FEED]);
            assert(seq![LINE_FEED].drop_first() =~= Seq::<u8>::empty());
        }
        assert(line + tail + end =~= line + end);
    } else {
        let cut = first_cut(tail);
        let next = tail.subrange(0, cut);
        let after = tail.subrange(cut, tail.len() as int);
        let lines = physical_lines(tail);
        assert(lines == seq![next] + physical_lines(after));
        assert(lines[0] == next);
        assert(lines.drop_first() =~= physical_lines(after));
        assert(folds_cleanly(after)) by {
            assert forall|i: int| 0 <= i < physical_lines(after).len() implies !holds_fold_mark(
                #[trigger] physical_lines(after)[i],
            ) by {
                assert(physical_lines(after)[i] == lines[i + 1]);
            }
        }
        let following = next + end + rendered(physical_lines(after), false);
        lemma_rendered_step(tail, false);
        assert(more =~= seq![SPACE] + following);
        let text = end + more;
        assert(text.subrange(3, text.len() as int) =~= following);
        assert(unfolded(text) == unfolded(following));
        lemma_unfolded_continuation(next, after);
        assert(next + after =~= tail);
        assert(line + (next + after + end) =~= line + tail + end);
    }
}

/// Unfolding what was written for a logical line gives the line back,
/// followed by its line end. This holds of every line but the empty one, for
/// which nothing is written, and those with a physical line that holds a
/// carriage return, a line feed and a space in a row.
pub proof fn lemma_unfolding_restores(bytes: Seq<u8>)
    requires
        bytes.len() > 0,
        folds_cleanly(bytes),
    ensures
        unfolded(folded(bytes)) == bytes + seq![CARRIAGE_RETURN, LINE_FEED],
{
    let cut = first_cut(bytes);
    let first = bytes.subrange(0, cut);
    let tail = bytes.subrange(cut, bytes.len() as int);
    let lines = physical_lines(bytes);
    assert(lines == seq![first] + physical_lines(tail));
    assert(lines[0] == first);
    assert(lines.drop_first() =~= physical_lines(tail));
    assert(folds_cleanly(tail)) by {
        assert forall|i: int| 0 <= i < physical_lines(tail).len() implies !holds_fold_mark(
            #[trigger] physical_lines(tail)[i],
        ) by {
            assert(physical_lines(tail)[i] == lines[i + 1]);
        }
    }
    lemma_unfolded_continuation(first, tail);
    lemma_rendered_step(bytes, true);
    assert(folded(bytes) =~= first + seq![CARRIAGE_RETURN, LINE_FEED] + rendered(
        physical_lines(tail),
        false,
    ));
    assert(first + tail =~= bytes);
}

/// The logical lines of `lines` as they stand before folding: each
/// followed by a carriage return and a line feed.
pub open spec fn ended_lines(lines: Seq<Seq<char>>) -> Seq<u8>
    decreases lines.len(),
{
    if lines.len() == 0 {
        Seq::empty()
    } else {
        ended_lines(lines.drop_last()) + encode_utf8(lines.last()) + seq![
            CARRIAGE_RETURN,
            LINE_FEED,
        ]
    }
}

/// Whether the logical line `bytes` can be read back among other lines: it
/// is not empty, it begins with neither a space nor a line feed, so that
/// it cannot be taken for the continuation of the line before it, and none
/// of its physical lines holds a fold mark.
pub open spec fn reads_back(bytes: Seq<u8>) -> bool {
    &&& bytes.len() > 0
    &&& bytes[0] != SPACE
    &&& bytes[0] != LINE_FEED
    &&& folds_cleanly(bytes)
}

/// Unfolding two texts written one after the other unfolds each, where the
/// second begins with neither a space nor a line feed.
proof fn lemma_unfolded_of_two(first: Seq<u8>, second: Seq<u8>)
    requires
        second.len() > 0 ==> second[0] != SPACE && second[0] != LINE_FEED,
    ensures
        unfolded(first + second) == unfolded(first) + unfolded(second),
    decreases first.len(),
{
    let both = first + second;
    if first.len() == 0 {
        assert(both =~= second);
        assert(unfolded(first) + unfolded(second) =~= unfolded(second));
    } else if first.len() >= 3 && first[0] == CARRIAGE_RETURN && first[1] == LINE_FEED && first[2]
        == SPACE {
        assert(both[0] == first[0] && both[1] == first[1] && both[2] == first[2]);
        assert(both.subrange(3, both.len() as int) =~= first.subrange(3, first.len() as int)
            + second);
        lemma_unfolded_of_two(first.subrange(3, first.len() as int), second);
    } else {
        assert(both[0] == first[0]);
        if both.len() >= 3 && both[0] == CARRIAGE_RETURN && both[1] == LINE_FEED && both[2]
            == SPACE {
            if first.len() >= 3 {
                assert(both[1] == first[1] && both[2] == first[2]);
            } else if first.len() == 2 {
                assert(both[1] == first[1]);
                assert(both[2] == second[0]);
            } else {
                assert(both[1] == second[0]);
            }
            assert(false);
        }
        assert(both.drop_first() =~= first.drop_first() + second);
        lemma_unfolded_of_two(first.drop_first(), second);
        assert(seq![first[0]] + (unfolded(first.drop_first()) + unfolded(second)) =~= (seq![
            first[0],
        ] + unfolded(first.drop_first())) + unfolded(second));
    }
}

/// Unfolding what was written for lines gives the lines back, each with
/// its line end, where each of them can be read back.
pub proof fn lemma_unfolding_restores_lines(lines: Seq<Seq<char>>)
    requires
        forall|i: int| 0 <= i < lines.len() ==> reads_back(encode_utf8(#[trigger] lines[i])),
    ensures
        unfolded(folded_lines(lines)) == ended_lines(lines),
    decreases lines.len(),
{
    if lines.len() > 0 {
        let front = lines.drop_last();
        let bytes = encode_utf8(lines.last());
        assert(reads_back(bytes));
        assert forall|i: int| 0 <= i < front.len() implies reads_back(
            encode_utf8(#[trigger] front[i]),
        ) by {
            assert(front[i] == lines[i]);
        }
        lemma_unfolding_restores_lines(front);
        lemma_unfolding_restores(bytes);
        lemma_rendered_step(bytes, true);
        let written = folded(bytes);
        assert(written.len() > 0);
        assert(written[0] == bytes[0]) by {
            assert(line_start(true) =~= Seq::<u8>::empty());
            assert(first_cut(bytes) > 0);
            assert(bytes.subrange(0, first_cut(bytes))[0] == bytes[0]);
        }
        lemma_unfolded_of_two(folded_lines(front), written);
        assert(ended_lines(front) + (bytes + seq![CARRIAGE_RETURN, LINE_FEED]) =~= ended_lines(
            front,
        ) + bytes + seq![CARRIAGE_RETURN, LINE_FEED]);
    }
}

/// Whether `bytes` holds no carriage return.
pub open spec fn free_of_returns(bytes: Seq<u8>) -> bool {
    forall|i: int| 0 <= i < bytes.len() ==> #[trigger] bytes[i] != CARRIAGE_RETURN
}

/// A character that is no carriage return is written without the byte of
/// one.
proof fn lemma_scalar_free_of_returns(scalar: u32)
    requires
        scalar != 0x0d,
    ensures
        free_of_returns(vstd::utf8::encode_scalar(scalar)),
{
    let bytes = vstd::utf8::encode_scalar(scalar);
    assert(scalar <= 0x7f ==> (scalar & 0x7F) as u8 != 0x0du8) by (bit_vector)
        requires
            scalar != 0x0d,
    ;
    assert(0xC0u8 | ((scalar >> 6) & 0x1F) as u8 != 0x0du8) by (bit_vector);
    assert(0xE0u8 | ((scalar >> 12) & 0x0F) as u8 != 0x0du8) by (bit_vector);
    assert(0xF0u8 | ((scalar >> 18) & 0x7) as u8 != 0x0du8) by (bit_vector);
    assert(0x80u8 | (scalar & 0x3F) as u8 != 0x0du8) by (bit_vector);
    assert(0x80u8 | ((scalar >> 6) & 0x3F) as u8 != 0x0du8) by (bit_vector);
    assert(0x80u8 | ((scalar >> 12) & 0x3F) as u8 != 0x0du8) by (bit_vector);
    assert forall|i: int| 0 <= i < bytes.len() implies #[trigger] bytes[i] != CARRIAGE_RETURN by {
        if vstd::utf8::has_width_1_encoding(scalar) {
            assert(bytes[0] == vstd::utf8::leading_byte_width_1(scalar));
        } else if vstd::utf8::has_width_2_encoding(scalar) {
            assert(bytes[0] == vstd::utf8::leading_byte_width_2(scalar));
            assert(bytes[1] == vstd::utf8::last_continuation_byte(scalar));
        } else if vstd::utf8::has_width_3_encoding(scalar) {
            assert(bytes[0] == vstd::utf8::leading_byte_width_3(scalar));
            assert(bytes[1] == vstd::utf8::second_last_continuation_byte(scalar));
            assert(bytes[2] == vstd::utf8::last_continuation_byte(scalar));
        } else {
            assert(bytes[0] == vstd::utf8::leading_byte_width_4(scalar));
            assert(bytes[1] == vstd::utf8::third_last_continuation_byte(scalar));
            assert(bytes[2] == vstd::utf8::second_last_continuation_byte(scalar));
            assert(bytes[3] == vstd::utf8::last_continuation_byte(scalar));
        }
    }
}

/// A text without a carriage return is written without the byte of one.
pub proof fn lemma_text_free_of_returns(text: Seq<char>)
    requires
        returns_free(text),
    ensures
        free_of_returns(encode_utf8(text)),
    decreases text.len(),
{
    if text.len() > 0 {
        let rest = text.drop_first();
        assert forall|i: int| 0 <= i < rest.len() implies #[trigger] rest[i] != '\r' by {
            assert(rest[i] == text[i + 1]);
        }
        lemma_text_free_of_returns(rest);
        assert(text[0] != '\r');
        let scalar = text[0] as u32;
        if scalar == 0x0d {
            vstd::utf8::char_u32_cast(text[0], scalar);
            assert(false);
        }
        lemma_scalar_free_of_returns(scalar);
        let head = vstd::utf8::encode_scalar(scalar);
        let tail = encode_utf8(rest);
        assert(encode_utf8(text) == head + tail);
        assert forall|i: int| 0 <= i < (head + tail).len() implies #[trigger] (head + tail)[i]
            != CARRIAGE_RETURN by {
            if i < head.len() {
                assert((head + tail)[i] == head[i]);
            } else {
                assert((head + tail)[i] == tail[i - head.len()]);
            }
        }
    }
}

/// Bytes without a carriage return fold cleanly.
pub proof fn lemma_free_of_returns_folds_cleanly(bytes: Seq<u8>)
    requires
        free_of_returns(bytes),
    ensures
        folds_cleanly(bytes),
    decreases bytes.len(),
{
    if bytes.len() > 0 {
        let cut = first_cut(bytes);
        let head = bytes.subrange(0, cut);
        let tail = bytes.subrange(cut, bytes.len() as int);
        assert forall|i: int| 0 <= i < tail.len() implies #[trigger] tail[i]
            != CARRIAGE_RETURN by {
            assert(tail[i] == bytes[cut + i]);
        }
        lemma_free_of_returns_folds_cleanly(tail);
        let lines = physical_lines(bytes);
        assert(lines == seq![head] + physical_lines(tail));
        assert forall|i: int| 0 <= i < lines.len() implies !holds_fold_mark(#[trigger] lines[i]) by {
            if i == 0 {
                assert(lines[0] == head);
                if holds_fold_mark(head) {
                    let at = choose|at: int|
                        0 <= at && at + 2 < head.len() && #[trigger] head[at] == CARRIAGE_RETURN
                            && head[at + 1] == LINE_FEED && head[at + 2] == SPACE;
                    assert(head[at] == bytes[at]);
                    assert(false);
                }
            } else {
                assert(lines[i] == physical_lines(tail)[i - 1]);
            }
        }
    }
}

} // verus!
