//! The bytes that the fingerprint of a flashcard is computed from.
//!
//! The subject and the back of a flashcard are written down so that nothing of them is
//! lost: every text, every part, every line and the back itself start with a mark, and
//! the kind of the back stands at the end. A mark is a byte that the UTF-8 encoding of
//! no text holds, so two flashcards give the same bytes only where they have the same
//! subject and the same back.

use super::{FlashcardBackView, LinePartView};
use crate::common::hash::{hasher_input, hasher_seed, hasher_write};
use crate::text::{decimal_spec, lemma_decimal_reads_back};
use twox_hash::XxHash64;
use vstd::prelude::*;
use vstd::utf8::{
    encode_utf8, encode_utf8_decode_utf8, encode_utf8_valid_utf8,
    is_char_boundary_iff_is_leading_byte, is_char_boundary_iff_not_is_continuation_byte,
};

verus! {

/// The mark before each text.
pub const MARK_TEXT: u8 = 0xFF;

/// The mark before the parts of each line of a back with blanks.
pub const MARK_LINE: u8 = 0xFE;

/// The mark before a part that is a blank.
pub const MARK_BLANK: u8 = 0xFD;

/// The mark before a part that is no blank.
pub const MARK_PLAIN: u8 = 0xFC;

/// The mark before the lines of a back.
pub const MARK_BACK: u8 = 0xFB;

/// The mark after a back with blanks.
pub const MARK_FILL_THE_BLANK: u8 = 0xFA;

/// The mark after a back that is written in whole lines.
pub const MARK_WRITE_THE_LINE: u8 = 0xF9;

/// The greatest byte that the UTF-8 encoding of a text can hold. Every mark is above
/// it.
pub const MAX_UTF8_BYTE: u8 = 0xF7;

/// The bytes of a text: the mark of a text, then its UTF-8 encoding.
pub open spec fn text_bytes(text: Seq<char>) -> Seq<u8> {
    seq![MARK_TEXT] + encode_utf8(text)
}

/// The mark of a part that is a blank, or is none.
pub open spec fn part_mark(blank: bool) -> u8 {
    if blank {
        MARK_BLANK
    } else {
        MARK_PLAIN
    }
}

/// The bytes of a part: its mark, which tells whether it is a blank, then its text, then
/// the decimal numeral of the byte at which it starts.
pub open spec fn part_bytes(part: LinePartView) -> Seq<u8> {
    seq![part_mark(part.blank)] + text_bytes(part.text) + text_bytes(decimal_spec(part.index))
}

/// The bytes of `parts`, one part after the other.
pub open spec fn parts_bytes(parts: Seq<LinePartView>) -> Seq<u8>
    decreases parts.len(),
{
    if parts.len() == 0 {
        Seq::<u8>::empty()
    } else {
        parts_bytes(parts.drop_last()) + part_bytes(parts.last())
    }
}

/// The bytes of a line with blanks: the mark of a line, then its parts.
pub open spec fn line_bytes(parts: Seq<LinePartView>) -> Seq<u8> {
    seq![MARK_LINE] + parts_bytes(parts)
}

/// The bytes of `lines` with blanks, one line after the other.
pub open spec fn lines_bytes(lines: Seq<Seq<LinePartView>>) -> Seq<u8>
    decreases lines.len(),
{
    if lines.len() == 0 {
        Seq::<u8>::empty()
    } else {
        lines_bytes(lines.drop_last()) + line_bytes(lines.last())
    }
}

/// The bytes of `texts`, one text after the other.
pub open spec fn texts_bytes(texts: Seq<Seq<char>>) -> Seq<u8>
    decreases texts.len(),
{
    if texts.len() == 0 {
        Seq::<u8>::empty()
    } else {
        texts_bytes(texts.drop_last()) + text_bytes(texts.last())
    }
}

/// The bytes of a back: the mark of a back, then its lines, then the mark of its kind.
pub open spec fn back_bytes(back: FlashcardBackView) -> Seq<u8> {
    match back {
        FlashcardBackView::FillTheBlank(lines) => (seq![MARK_BACK] + lines_bytes(lines)).push(
            MARK_FILL_THE_BLANK,
        ),
        FlashcardBackView::WriteTheLine(lines) => (seq![MARK_BACK] + texts_bytes(lines)).push(
            MARK_WRITE_THE_LINE,
        ),
    }
}

/// The bytes that the fingerprint of a flashcard with this subject and this back is
/// computed from: those of the subject, then those of the back.
pub open spec fn input_bytes(subject: Seq<char>, back: FlashcardBackView) -> Seq<u8> {
    text_bytes(subject) + back_bytes(back)
}

/// Whether `bytes` end as a text does: with the mark of a text, or with a byte of a
/// UTF-8 encoding.
pub open spec fn ends_as_text(bytes: Seq<u8>) -> bool {
    bytes.len() > 0 && (bytes.last() == MARK_TEXT || bytes.last() <= MAX_UTF8_BYTE)
}

/// The UTF-8 encoding of a text holds no mark.
pub proof fn lemma_utf8_holds_no_mark(text: Seq<char>, i: int)
    requires
        0 <= i < encode_utf8(text).len(),
    ensures
        encode_utf8(text)[i] <= MAX_UTF8_BYTE,
{
    let bytes = encode_utf8(text);
    encode_utf8_valid_utf8(text);
    is_char_boundary_iff_not_is_continuation_byte(bytes, i);
    is_char_boundary_iff_is_leading_byte(bytes, i);
}

/// The bytes of a text end as a text does.
pub proof fn lemma_text_ends_as_text(text: Seq<char>)
    ensures
        ends_as_text(text_bytes(text)),
{
    let encoded = encode_utf8(text);
    if encoded.len() > 0 {
        lemma_utf8_holds_no_mark(text, encoded.len() - 1);
    }
}

/// The bytes of a part end as a text does.
pub proof fn lemma_part_ends_as_text(part: LinePartView)
    ensures
        ends_as_text(part_bytes(part)),
{
    lemma_text_ends_as_text(decimal_spec(part.index));
}

/// Bytes that end with the bytes of a text tell the text and what stands before it.
pub proof fn lemma_text_is_told(x: Seq<u8>, a: Seq<char>, y: Seq<u8>, b: Seq<char>)
    requires
        x + text_bytes(a) == y + text_bytes(b),
    ensures
        a == b,
        x == y,
{
    let left = x + text_bytes(a);
    let right = y + text_bytes(b);
    assert(left.len() == right.len());
    if x.len() < y.len() {
        let i = y.len() as int;
        assert(right[i] == MARK_TEXT);
        assert(left[i] == encode_utf8(a)[i - x.len() - 1]);
        lemma_utf8_holds_no_mark(a, i - x.len() - 1);
    }
    if y.len() < x.len() {
        let i = x.len() as int;
        assert(left[i] == MARK_TEXT);
        assert(right[i] == encode_utf8(b)[i - y.len() - 1]);
        lemma_utf8_holds_no_mark(b, i - y.len() - 1);
    }
    assert(x.len() == y.len());
    assert(x =~= y) by {
        assert forall|i: int| 0 <= i < x.len() implies x[i] == y[i] by {
            assert(left[i] == x[i]);
            assert(right[i] == y[i]);
        }
    }
    assert(encode_utf8(a) =~= encode_utf8(b)) by {
        assert(encode_utf8(a).len() == encode_utf8(b).len());
        assert forall|i: int| 0 <= i < encode_utf8(a).len() implies encode_utf8(a)[i]
            == encode_utf8(b)[i] by {
            assert(left[x.len() + 1 + i] == encode_utf8(a)[i]);
            assert(right[y.len() + 1 + i] == encode_utf8(b)[i]);
        }
    }
    encode_utf8_decode_utf8(a);
    encode_utf8_decode_utf8(b);
}

/// Bytes that end with one more byte tell that byte and what stands before it.
pub proof fn lemma_byte_is_told(x: Seq<u8>, a: u8, y: Seq<u8>, b: u8)
    requires
        x.push(a) == y.push(b),
    ensures
        a == b,
        x == y,
{
    assert(x.push(a).last() == a);
    assert(y.push(b).last() == b);
    assert(x.push(a).drop_last() =~= x);
    assert(y.push(b).drop_last() =~= y);
}

/// Bytes that end with the bytes of a part tell the part and what stands before it.
pub proof fn lemma_part_is_told(x: Seq<u8>, p: LinePartView, y: Seq<u8>, q: LinePartView)
    requires
        x + part_bytes(p) == y + part_bytes(q),
    ensures
        p == q,
        x == y,
{
    let xm = x.push(part_mark(p.blank));
    let ym = y.push(part_mark(q.blank));
    let xt = xm + text_bytes(p.text);
    let yt = ym + text_bytes(q.text);
    assert(x + part_bytes(p) =~= xt + text_bytes(decimal_spec(p.index)));
    assert(y + part_bytes(q) =~= yt + text_bytes(decimal_spec(q.index)));
    lemma_text_is_told(xt, decimal_spec(p.index), yt, decimal_spec(q.index));
    lemma_decimal_reads_back(p.index);
    lemma_decimal_reads_back(q.index);
    lemma_text_is_told(xm, p.text, ym, q.text);
    lemma_byte_is_told(x, part_mark(p.blank), y, part_mark(q.blank));
}

/// Bytes that end with the bytes of a line with blanks tell the line and what stands
/// before it.
pub proof fn lemma_line_is_told(
    x: Seq<u8>,
    ps: Seq<LinePartView>,
    y: Seq<u8>,
    qs: Seq<LinePartView>,
)
    requires
        x + line_bytes(ps) == y + line_bytes(qs),
    ensures
        ps == qs,
        x == y,
    decreases ps.len() + qs.len(),
{
    let left = x + line_bytes(ps);
    let right = y + line_bytes(qs);
    if ps.len() == 0 && qs.len() == 0 {
        assert(left =~= x.push(MARK_LINE));
        assert(right =~= y.push(MARK_LINE));
        lemma_byte_is_told(x, MARK_LINE, y, MARK_LINE);
        assert(ps =~= qs);
    } else if ps.len() == 0 {
        lemma_part_ends_as_text(qs.last());
        assert(left.last() == MARK_LINE);
        assert(right.last() == part_bytes(qs.last()).last());
    } else if qs.len() == 0 {
        lemma_part_ends_as_text(ps.last());
        assert(right.last() == MARK_LINE);
        assert(left.last() == part_bytes(ps.last()).last());
    } else {
        let xs = x + line_bytes(ps.drop_last());
        let ys = y + line_bytes(qs.drop_last());
        assert(left =~= xs + part_bytes(ps.last()));
        assert(right =~= ys + part_bytes(qs.last()));
        lemma_part_is_told(xs, ps.last(), ys, qs.last());
        lemma_line_is_told(x, ps.drop_last(), y, qs.drop_last());
        assert(ps =~= ps.drop_last().push(ps.last()));
        assert(qs =~= qs.drop_last().push(qs.last()));
    }
}

/// The bytes of a line with blanks end with the mark of a line or as a text does.
pub proof fn lemma_line_ends(parts: Seq<LinePartView>)
    ensures
        line_bytes(parts).len() > 0,
        line_bytes(parts).last() == MARK_LINE || ends_as_text(line_bytes(parts)),
{
    if parts.len() > 0 {
        lemma_part_ends_as_text(parts.last());
        assert(line_bytes(parts).last() == part_bytes(parts.last()).last());
    }
}

/// Bytes that end with the mark of a back and lines with blanks tell the lines and what
/// stands before the mark.
pub proof fn lemma_lines_are_told(
    x: Seq<u8>,
    ls: Seq<Seq<LinePartView>>,
    y: Seq<u8>,
    ms: Seq<Seq<LinePartView>>,
)
    requires
        x.push(MARK_BACK) + lines_bytes(ls) == y.push(MARK_BACK) + lines_bytes(ms),
    ensures
        ls == ms,
        x == y,
    decreases ls.len() + ms.len(),
{
    let left = x.push(MARK_BACK) + lines_bytes(ls);
    let right = y.push(MARK_BACK) + lines_bytes(ms);
    if ls.len() == 0 && ms.len() == 0 {
        assert(left =~= x.push(MARK_BACK));
        assert(right =~= y.push(MARK_BACK));
        lemma_byte_is_told(x, MARK_BACK, y, MARK_BACK);
        assert(ls =~= ms);
    } else if ls.len() == 0 {
        lemma_line_ends(ms.last());
        assert(left.last() == MARK_BACK);
        assert(right.last() == line_bytes(ms.last()).last());
    } else if ms.len() == 0 {
        lemma_line_ends(ls.last());
        assert(right.last() == MARK_BACK);
        assert(left.last() == line_bytes(ls.last()).last());
    } else {
        let xs = x.push(MARK_BACK) + lines_bytes(ls.drop_last());
        let ys = y.push(MARK_BACK) + lines_bytes(ms.drop_last());
        assert(left =~= xs + line_bytes(ls.last()));
        assert(right =~= ys + line_bytes(ms.last()));
        lemma_line_is_told(xs, ls.last(), ys, ms.last());
        lemma_lines_are_told(x, ls.drop_last(), y, ms.drop_last());
        assert(ls =~= ls.drop_last().push(ls.last()));
        assert(ms =~= ms.drop_last().push(ms.last()));
    }
}

/// Bytes that end with the mark of a back and texts tell the texts and what stands
/// before the mark.
pub proof fn lemma_texts_are_told(
    x: Seq<u8>,
    ts: Seq<Seq<char>>,
    y: Seq<u8>,
    us: Seq<Seq<char>>,
)
    requires
        x.push(MARK_BACK) + texts_bytes(ts) == y.push(MARK_BACK) + texts_bytes(us),
    ensures
        ts == us,
        x == y,
    decreases ts.len() + us.len(),
{
    let left = x.push(MARK_BACK) + texts_bytes(ts);
    let right = y.push(MARK_BACK) + texts_bytes(us);
    if ts.len() == 0 && us.len() == 0 {
        assert(left =~= x.push(MARK_BACK));
        assert(right =~= y.push(MARK_BACK));
        lemma_byte_is_told(x, MARK_BACK, y, MARK_BACK);
        assert(ts =~= us);
    } else if ts.len() == 0 {
        lemma_text_ends_as_text(us.last());
        assert(left.last() == MARK_BACK);
        assert(right.last() == text_bytes(us.last()).last());
    } else if us.len() == 0 {
        lemma_text_ends_as_text(ts.last());
        assert(right.last() == MARK_BACK);
        assert(left.last() == text_bytes(ts.last()).last());
    } else {
        let xs = x.push(MARK_BACK) + texts_bytes(ts.drop_last());
        let ys = y.push(MARK_BACK) + texts_bytes(us.drop_last());
        assert(left =~= xs + text_bytes(ts.last()));
        assert(right =~= ys + text_bytes(us.last()));
        lemma_text_is_told(xs, ts.last(), ys, us.last());
        lemma_texts_are_told(x, ts.drop_last(), y, us.drop_last());
        assert(ts =~= ts.drop_last().push(ts.last()));
        assert(us =~= us.drop_last().push(us.last()));
    }
}

/// The bytes that a fingerprint is computed from tell the subject and the back: two
/// flashcards give the same bytes only where they have the same subject and the same
/// back.
pub proof fn lemma_input_is_told(
    subject: Seq<char>,
    back: FlashcardBackView,
    other_subject: Seq<char>,
    other_back: FlashcardBackView,
)
    requires
        input_bytes(subject, back) == input_bytes(other_subject, other_back),
    ensures
        subject == other_subject,
        back == other_back,
{
    let x = text_bytes(subject);
    let y = text_bytes(other_subject);
    let none = Seq::<u8>::empty();
    match (back, other_back) {
        (FlashcardBackView::FillTheBlank(ls), FlashcardBackView::FillTheBlank(ms)) => {
            let left = x.push(MARK_BACK) + lines_bytes(ls);
            let right = y.push(MARK_BACK) + lines_bytes(ms);
            assert(input_bytes(subject, back) =~= left.push(MARK_FILL_THE_BLANK));
            assert(input_bytes(other_subject, other_back) =~= right.push(MARK_FILL_THE_BLANK));
            lemma_byte_is_told(left, MARK_FILL_THE_BLANK, right, MARK_FILL_THE_BLANK);
            lemma_lines_are_told(x, ls, y, ms);
        },
        (FlashcardBackView::WriteTheLine(ts), FlashcardBackView::WriteTheLine(us)) => {
            let left = x.push(MARK_BACK) + texts_bytes(ts);
            let right = y.push(MARK_BACK) + texts_bytes(us);
            assert(input_bytes(subject, back) =~= left.push(MARK_WRITE_THE_LINE));
            assert(input_bytes(other_subject, other_back) =~= right.push(MARK_WRITE_THE_LINE));
            lemma_byte_is_told(left, MARK_WRITE_THE_LINE, right, MARK_WRITE_THE_LINE);
            lemma_texts_are_told(x, ts, y, us);
        },
        _ => {
            assert(input_bytes(subject, back).last() == back_bytes(back).last());
            assert(input_bytes(other_subject, other_back).last() == back_bytes(other_back).last());
        },
    }
    assert(none + x =~= x);
    assert(none + y =~= y);
    lemma_text_is_told(none, subject, none, other_subject);
}

/// Writes one mark to the hasher.
pub(crate) fn write_mark(hasher: &mut XxHash64, mark: u8)
    ensures
        hasher_seed(*final(hasher)) == hasher_seed(*old(hasher)),
        hasher_input(*final(hasher)) == hasher_input(*old(hasher)).push(mark),
{
    let mut bytes: Vec<u8> = Vec::new();
    bytes.push(mark);
    hasher_write(hasher, bytes.as_slice());
    assert(hasher_input(*old(hasher)) + bytes@ =~= hasher_input(*old(hasher)).push(mark));
}

/// Writes the bytes of a text to the hasher.
pub(crate) fn write_text(hasher: &mut XxHash64, text: &str)
    ensures
        hasher_seed(*final(hasher)) == hasher_seed(*old(hasher)),
        hasher_input(*final(hasher)) == hasher_input(*old(hasher)) + text_bytes(text@),
{
    write_mark(hasher, MARK_TEXT);
    hasher_write(hasher, text.as_bytes());
    assert(hasher_input(*old(hasher)).push(MARK_TEXT) + encode_utf8(text@) =~= hasher_input(
        *old(hasher),
    ) + text_bytes(text@));
}

} // verus!
