//! Text as sequences of characters: lines, fields, words and decimal numbers.
//!
//! Everything here works on `Vec<char>`, whose view is the `Seq<char>` that the
//! specifications speak of; `chars_of` and `string_of` lead from and to strings.

use vstd::prelude::*;
use vstd::utf8::{encode_scalar, encode_utf8};

verus! {

/// Whether `c` has the Unicode property `White_Space`, as `char::is_whitespace` tells it.
pub uninterp spec fn char_is_whitespace(c: char) -> bool;

/// `char::is_whitespace` is a function of the character alone; its table is not restated.
pub assume_specification[ char::is_whitespace ](c: char) -> (b: bool)
    ensures
        b == char_is_whitespace(c),
;

/// Whether `c` has the Unicode property `Uppercase`, as `char::is_uppercase` tells it.
pub uninterp spec fn char_is_uppercase(c: char) -> bool;

/// `char::is_uppercase` is a function of the character alone; its table is not restated.
pub assume_specification[ char::is_uppercase ](c: char) -> (b: bool)
    ensures
        b == char_is_uppercase(c),
;

/// Whether `c` is a letter or a number, as `char::is_alphanumeric` tells it.
pub uninterp spec fn char_is_alphanumeric(c: char) -> bool;

/// `char::is_alphanumeric` is a function of the character alone; its table is not
/// restated.
pub assume_specification[ char::is_alphanumeric ](c: char) -> (b: bool)
    ensures
        b == char_is_alphanumeric(c),
;

/// The lowercase equivalent of the text `s`, as `str::to_lowercase` gives it.
pub uninterp spec fn str_to_lowercase(s: Seq<char>) -> Seq<char>;

/// `str::to_lowercase` is a function of the text alone; the Unicode tables that it
/// follows are not restated.
pub assume_specification[ str::to_lowercase ](s: &str) -> (lower: String)
    ensures
        lower@ == str_to_lowercase(s@),
;

/// `String::push` appends one character to the end of the string.
pub assume_specification[ String::push ](s: &mut String, c: char)
    ensures
        final(s)@ == old(s)@.push(c),
;

/// The views of the elements of `pieces`, in the same order.
pub open spec fn views(pieces: Seq<Vec<char>>) -> Seq<Seq<char>> {
    Seq::new(pieces.len(), |i: int| pieces[i]@)
}

/// Returns the characters of `text`.
pub fn chars_of(text: &str) -> (chars: Vec<char>)
    ensures
        chars@ == text@,
{
    let mut chars: Vec<char> = Vec::new();
    for c in it: text.chars()
        invariant
            it.seq() == text@,
            chars@ == text@.take(it.index() as int),
    {
        chars.push(c);
    }
    chars
}

/// Returns the string made of `chars`.
pub fn string_of(chars: &Vec<char>) -> (text: String)
    ensures
        text@ == chars@,
{
    let mut text = String::new();
    let mut i: usize = 0;
    while i < chars.len()
        invariant
            i <= chars.len(),
            text@ == chars@.take(i as int),
        decreases chars.len() - i,
    {
        text.push(chars[i]);
        i += 1;
    }
    text
}

/// Returns the characters of `chars` from index `from` up to, but without, index `to`.
pub fn subrange(chars: &Vec<char>, from: usize, to: usize) -> (part: Vec<char>)
    requires
        from <= to <= chars.len(),
    ensures
        part@ == chars@.subrange(from as int, to as int),
{
    let mut part: Vec<char> = Vec::new();
    let mut i: usize = from;
    while i < to
        invariant
            from <= i <= to <= chars.len(),
            part@ == chars@.subrange(from as int, i as int),
        decreases to - i,
    {
        part.push(chars[i]);
        i += 1;
    }
    part
}

/// What parts a text from one another.
#[derive(Clone, Copy, Debug, PartialEq, Eq, Structural)]
pub enum Separator {
    /// One given character.
    Char(char),
    /// Any whitespace character.
    Whitespace,
}

impl Separator {
    /// Whether `c` is a separator of this kind.
    pub open spec fn separates(self, c: char) -> bool {
        match self {
            Separator::Char(sep) => c == sep,
            Separator::Whitespace => char_is_whitespace(c),
        }
    }

    /// Returns `true` if `c` is a separator of this kind.
    pub fn is_separator(&self, c: char) -> (b: bool)
        ensures
            b == self.separates(c),
    {
        match self {
            Separator::Char(sep) => c == *sep,
            Separator::Whitespace => c.is_whitespace(),
        }
    }
}

/// The pieces of `s` between its separators, empty ones included: one more piece than
/// `s` has separators.
pub open spec fn split_spec(s: Seq<char>, sep: Separator) -> Seq<Seq<char>>
    decreases s.len(),
{
    if s.len() == 0 {
        seq![Seq::<char>::empty()]
    } else {
        let before = split_spec(s.drop_last(), sep);
        if sep.separates(s.last()) {
            before.push(Seq::<char>::empty())
        } else {
            before.update(before.len() - 1, before.last().push(s.last()))
        }
    }
}

/// A text always splits into at least one piece.
pub proof fn lemma_split_nonempty(s: Seq<char>, sep: Separator)
    ensures
        split_spec(s, sep).len() >= 1,
    decreases s.len(),
{
    if s.len() > 0 {
        lemma_split_nonempty(s.drop_last(), sep);
    }
}

/// No piece of a split holds a separator.
pub proof fn lemma_split_pieces_hold_no_separator(s: Seq<char>, sep: Separator)
    ensures
        forall|i: int, j: int|
            0 <= i < split_spec(s, sep).len() && 0 <= j < split_spec(s, sep)[i].len()
                ==> !sep.separates(#[trigger] split_spec(s, sep)[i][j]),
    decreases s.len(),
{
    if s.len() > 0 {
        lemma_split_nonempty(s.drop_last(), sep);
        lemma_split_pieces_hold_no_separator(s.drop_last(), sep);
    }
}

/// A text without a separator is one piece.
pub proof fn lemma_split_no_separator(s: Seq<char>, sep: Separator)
    requires
        forall|i: int| 0 <= i < s.len() ==> !sep.separates(#[trigger] s[i]),
    ensures
        split_spec(s, sep) == seq![s],
    decreases s.len(),
{
    if s.len() == 0 {
        assert(s == Seq::<char>::empty());
    } else {
        lemma_split_no_separator(s.drop_last(), sep);
        assert(s.drop_last().push(s.last()) == s);
    }
}

/// A text that ends with a separator splits as the text before that separator does,
/// with one empty piece more.
pub proof fn lemma_split_ends_with_separator(s: Seq<char>, c: char, sep: Separator)
    requires
        sep.separates(c),
    ensures
        split_spec(s.push(c), sep) == split_spec(s, sep).push(Seq::<char>::empty()),
{
    assert(s.push(c).drop_last() == s);
}

/// The pieces of two texts in a row are the pieces of the first and those of the
/// second, but that the last piece of the first and the first piece of the second are
/// one piece.
pub proof fn lemma_split_concat(a: Seq<char>, b: Seq<char>, sep: Separator)
    ensures
        split_spec(a + b, sep) == split_spec(a, sep).drop_last().push(
            split_spec(a, sep).last() + split_spec(b, sep)[0],
        ) + split_spec(b, sep).drop_first(),
    decreases b.len(),
{
    lemma_split_nonempty(a, sep);
    lemma_split_nonempty(b, sep);
    let sa = split_spec(a, sep);
    if b.len() == 0 {
        assert(a + b == a);
        assert(sa.last() + Seq::<char>::empty() == sa.last());
        assert(sa.drop_last().push(sa.last()) == sa);
        assert(split_spec(b, sep).drop_first() == Seq::<Seq<char>>::empty());
    } else {
        let b0 = b.drop_last();
        let c = b.last();
        lemma_split_concat(a, b0, sep);
        lemma_split_nonempty(b0, sep);
        lemma_split_nonempty(a + b0, sep);
        assert((a + b).drop_last() == a + b0);
        assert((a + b).last() == c);
        let sb0 = split_spec(b0, sep);
        let joined = sa.drop_last().push(sa.last() + sb0[0]) + sb0.drop_first();
        assert(split_spec(a + b0, sep) == joined);
        if sep.separates(c) {
            let sb = sb0.push(Seq::<char>::empty());
            assert(split_spec(b, sep) == sb);
            assert(sb[0] == sb0[0]);
            assert(sb.drop_first() == sb0.drop_first().push(Seq::<char>::empty()));
            assert(joined.push(Seq::<char>::empty()) == sa.drop_last().push(sa.last() + sb[0])
                + sb.drop_first());
        } else {
            let sb = sb0.update(sb0.len() - 1, sb0.last().push(c));
            assert(split_spec(b, sep) == sb);
            if sb0.len() == 1 {
                assert(sb[0] == sb0[0].push(c));
                assert(sb.drop_first() == Seq::<Seq<char>>::empty());
                assert(sb0.drop_first() == Seq::<Seq<char>>::empty());
                assert(joined.last() == sa.last() + sb0[0]);
                assert((sa.last() + sb0[0]).push(c) == sa.last() + sb[0]);
                assert(joined.update(joined.len() - 1, joined.last().push(c))
                    == sa.drop_last().push(sa.last() + sb[0]) + sb.drop_first());
            } else {
                assert(sb[0] == sb0[0]);
                assert(joined.last() == sb0.last());
                assert(sb.drop_first() == sb0.drop_first().update(
                    sb0.len() - 2,
                    sb0.last().push(c),
                ));
                assert(joined.update(joined.len() - 1, joined.last().push(c))
                    == sa.drop_last().push(sa.last() + sb[0]) + sb.drop_first());
            }
        }
    }
}

/// Splits `chars` at every separator, keeping empty pieces.
pub fn split(chars: &Vec<char>, sep: Separator) -> (pieces: Vec<Vec<char>>)
    ensures
        views(pieces@) == split_spec(chars@, sep),
{
    let mut pieces: Vec<Vec<char>> = Vec::new();
    let mut current: Vec<char> = Vec::new();
    let mut i: usize = 0;
    while i < chars.len()
        invariant
            i <= chars.len(),
            views(pieces@).push(current@) == split_spec(chars@.take(i as int), sep),
        decreases chars.len() - i,
    {
        let c = chars[i];
        let ghost done = views(pieces@).push(current@);
        proof {
            assert(chars@.take(i + 1).drop_last() == chars@.take(i as int));
        }
        if sep.is_separator(c) {
            pieces.push(current);
            current = Vec::new();
            assert(views(pieces@).push(current@) == done.push(Seq::<char>::empty()));
        } else {
            current.push(c);
            assert(views(pieces@).push(current@) == done.update(
                done.len() - 1,
                done.last().push(c),
            ));
        }
        i += 1;
    }
    proof {
        assert(chars@.take(i as int) == chars@);
        assert(views(pieces@.push(current)) == views(pieces@).push(current@));
    }
    pieces.push(current);
    pieces
}

/// `line` without a carriage return at its end.
pub open spec fn strip_cr_spec(line: Seq<char>) -> Seq<char> {
    if line.len() > 0 && line.last() == '\r' {
        line.drop_last()
    } else {
        line
    }
}

/// The lines of `text`. A line ends with a line feed, which is not part of it, nor is a
/// carriage return just before that line feed. What follows the last line feed is a line
/// of its own unless it is empty.
pub open spec fn lines_spec(text: Seq<char>) -> Seq<Seq<char>> {
    let pieces = split_spec(text, Separator::Char('\n'));
    let ended = Seq::new((pieces.len() - 1) as nat, |i: int| strip_cr_spec(pieces[i]));
    if pieces.last().len() == 0 {
        ended
    } else {
        ended.push(pieces.last())
    }
}

/// Returns the lines of `chars`, without their line endings.
pub fn lines(chars: &Vec<char>) -> (result: Vec<Vec<char>>)
    ensures
        views(result@) == lines_spec(chars@),
{
    let pieces = split(chars, Separator::Char('\n'));
    proof {
        lemma_split_nonempty(chars@, Separator::Char('\n'));
    }
    let ghost all = split_spec(chars@, Separator::Char('\n'));
    let mut result: Vec<Vec<char>> = Vec::new();
    let mut i: usize = 0;
    while i + 1 < pieces.len()
        invariant
            pieces.len() >= 1,
            i + 1 <= pieces.len(),
            views(pieces@) == all,
            views(result@) == Seq::new(i as nat, |k: int| strip_cr_spec(all[k])),
        decreases pieces.len() - i,
    {
        let piece = &pieces[i];
        assert(piece@ == all[i as int]);
        let n = piece.len();
        let line = if n > 0 && piece[n - 1] == '\r' {
            subrange(piece, 0, n - 1)
        } else {
            subrange(piece, 0, n)
        };
        assert(line@ == strip_cr_spec(all[i as int]));
        let ghost before = views(result@);
        result.push(line);
        assert(views(result@) == before.push(line@));
        assert(views(result@) == Seq::new((i + 1) as nat, |k: int| strip_cr_spec(all[k])));
        i += 1;
    }
    let last = &pieces[i];
    assert(last@ == all.last());
    if last.len() > 0 {
        let ghost before = views(result@);
        let line = subrange(last, 0, last.len());
        assert(line@ == last@);
        result.push(line);
        assert(views(result@) == before.push(last@));
    }
    result
}

/// `s` without the whitespace at its start.
pub open spec fn trim_start_spec(s: Seq<char>) -> Seq<char>
    decreases s.len(),
{
    if s.len() > 0 && char_is_whitespace(s[0]) {
        trim_start_spec(s.drop_first())
    } else {
        s
    }
}

/// `s` without the whitespace at its end.
pub open spec fn trim_end_spec(s: Seq<char>) -> Seq<char>
    decreases s.len(),
{
    if s.len() > 0 && char_is_whitespace(s.last()) {
        trim_end_spec(s.drop_last())
    } else {
        s
    }
}

/// `s` without the whitespace at its start and at its end.
pub open spec fn trim_spec(s: Seq<char>) -> Seq<char> {
    trim_end_spec(trim_start_spec(s))
}

/// Returns `chars` without the whitespace at its start and at its end.
pub fn trim(chars: &Vec<char>) -> (trimmed: Vec<char>)
    ensures
        trimmed@ == trim_spec(chars@),
{
    let n = chars.len();
    let mut start: usize = 0;
    assert(chars@.skip(0) == chars@);
    while start < n && chars[start].is_whitespace()
        invariant
            n == chars.len(),
            start <= n,
            trim_start_spec(chars@) == trim_start_spec(chars@.skip(start as int)),
        decreases n - start,
    {
        proof {
            assert(chars@.skip(start as int).drop_first() == chars@.skip(start + 1));
        }
        start += 1;
    }
    assert(chars@.skip(start as int) == chars@.subrange(start as int, n as int));
    let mut end: usize = n;
    while end > start && chars[end - 1].is_whitespace()
        invariant
            n == chars.len(),
            start <= end <= n,
            trim_spec(chars@) == trim_end_spec(chars@.subrange(start as int, end as int)),
        decreases end,
    {
        proof {
            assert(chars@.subrange(start as int, end as int).drop_last() == chars@.subrange(
                start as int,
                end - 1,
            ));
        }
        end -= 1;
    }
    subrange(chars, start, end)
}

/// The words of `s`: its longest runs of characters that are not whitespace.
pub open spec fn words_spec(s: Seq<char>) -> Seq<Seq<char>> {
    split_spec(s, Separator::Whitespace).filter(|piece: Seq<char>| piece.len() > 0)
}

/// Returns the words of `chars`, which whitespace parts from one another.
pub fn words(chars: &Vec<char>) -> (result: Vec<Vec<char>>)
    ensures
        views(result@) == words_spec(chars@),
{
    let pieces = split(chars, Separator::Whitespace);
    let ghost all = split_spec(chars@, Separator::Whitespace);
    let ghost nonempty = |piece: Seq<char>| piece.len() > 0;
    let mut result: Vec<Vec<char>> = Vec::new();
    let mut i: usize = 0;
    while i < pieces.len()
        invariant
            i <= pieces.len(),
            views(pieces@) == all,
            nonempty == |piece: Seq<char>| piece.len() > 0,
            views(result@) == all.take(i as int).filter(nonempty),
        decreases pieces.len() - i,
    {
        let piece = &pieces[i];
        assert(piece@ == all[i as int]);
        proof {
            assert(all.take(i + 1).drop_last() == all.take(i as int));
            reveal(Seq::filter);
        }
        if piece.len() > 0 {
            let ghost before = views(result@);
            let word = subrange(piece, 0, piece.len());
            assert(word@ == piece@);
            result.push(word);
            assert(views(result@) == before.push(piece@));
        }
        i += 1;
    }
    assert(all.take(i as int) == all);
    result
}

/// The number of bytes that `s` takes in UTF-8.
pub open spec fn utf8_len(s: Seq<char>) -> nat {
    encode_utf8(s).len()
}

/// Each character takes at least one byte in UTF-8 and at most four, and a text takes
/// the bytes of its characters.
pub proof fn lemma_utf8_len_push(s: Seq<char>, c: char)
    ensures
        1 <= utf8_len(seq![c]) <= 4,
        utf8_len(s.push(c)) == utf8_len(s) + utf8_len(seq![c]),
    decreases s.len(),
{
    assert(seq![c].drop_first() == Seq::<char>::empty());
    assert(encode_utf8(seq![c]) == encode_scalar(c as u32) + encode_utf8(Seq::<char>::empty()));
    if s.len() == 0 {
        assert(s.push(c) == seq![c]);
    } else {
        assert(s.push(c).drop_first() == s.drop_first().push(c));
        lemma_utf8_len_push(s.drop_first(), c);
    }
}

/// The number of bytes that `pieces` take where one more byte follows each piece.
pub open spec fn weight(pieces: Seq<Seq<char>>) -> nat
    decreases pieces.len(),
{
    if pieces.len() == 0 {
        0
    } else {
        weight(pieces.drop_last()) + utf8_len(pieces.last()) + 1
    }
}

/// The pieces of a text, with one byte after each, take at most one byte more than
/// the text itself.
pub proof fn lemma_split_weight(s: Seq<char>, sep: Separator)
    ensures
        weight(split_spec(s, sep)) <= utf8_len(s) + 1,
    decreases s.len(),
{
    if s.len() == 0 {
        let pieces = split_spec(s, sep);
        assert(pieces.drop_last() == Seq::<Seq<char>>::empty());
        assert(weight(pieces.drop_last()) == 0);
    } else {
        let before = split_spec(s.drop_last(), sep);
        let pieces = split_spec(s, sep);
        lemma_split_nonempty(s.drop_last(), sep);
        lemma_split_weight(s.drop_last(), sep);
        lemma_utf8_len_push(s.drop_last(), s.last());
        assert(s.drop_last().push(s.last()) == s);
        if sep.separates(s.last()) {
            assert(pieces.drop_last() == before);
            assert(utf8_len(Seq::<char>::empty()) == 0);
        } else {
            assert(pieces.drop_last() == before.drop_last());
            lemma_utf8_len_push(before.last(), s.last());
        }
    }
}

/// Leaving pieces out does not add to the weight.
pub proof fn lemma_filter_weight(pieces: Seq<Seq<char>>, keep: spec_fn(Seq<char>) -> bool)
    ensures
        weight(pieces.filter(keep)) <= weight(pieces),
    decreases pieces.len(),
{
    reveal(Seq::filter);
    if pieces.len() > 0 {
        lemma_filter_weight(pieces.drop_last(), keep);
        if keep(pieces.last()) {
            assert(pieces.filter(keep).drop_last() == pieces.drop_last().filter(keep));
        }
    }
}

/// The words of a text, with one byte after each, take at most one byte more than the
/// text itself.
pub proof fn lemma_words_weight(s: Seq<char>)
    ensures
        weight(words_spec(s)) <= utf8_len(s) + 1,
{
    lemma_split_weight(s, Separator::Whitespace);
    lemma_filter_weight(
        split_spec(s, Separator::Whitespace),
        |piece: Seq<char>| piece.len() > 0,
    );
}

/// The weight of the first pieces grows with their number, by the weight of each
/// piece that is added.
pub proof fn lemma_weight_take(pieces: Seq<Seq<char>>, n: int)
    requires
        0 <= n < pieces.len(),
    ensures
        weight(pieces.take(n + 1)) == weight(pieces.take(n)) + utf8_len(pieces[n]) + 1,
        weight(pieces.take(n + 1)) <= weight(pieces),
    decreases pieces.len() - n,
{
    assert(pieces.take(n + 1).drop_last() == pieces.take(n));
    if n + 1 == pieces.len() {
        assert(pieces.take(n + 1) == pieces);
    } else {
        lemma_weight_take(pieces, n + 1);
    }
}

/// The decimal digit that stands for `d`.
pub open spec fn digit_char_spec(d: nat) -> char {
    if d == 0 {
        '0'
    } else if d == 1 {
        '1'
    } else if d == 2 {
        '2'
    } else if d == 3 {
        '3'
    } else if d == 4 {
        '4'
    } else if d == 5 {
        '5'
    } else if d == 6 {
        '6'
    } else if d == 7 {
        '7'
    } else if d == 8 {
        '8'
    } else {
        '9'
    }
}

/// The number that the decimal digit `c` stands for, if `c` is one.
pub open spec fn digit_value_spec(c: char) -> Option<nat> {
    if c == '0' {
        Some(0)
    } else if c == '1' {
        Some(1)
    } else if c == '2' {
        Some(2)
    } else if c == '3' {
        Some(3)
    } else if c == '4' {
        Some(4)
    } else if c == '5' {
        Some(5)
    } else if c == '6' {
        Some(6)
    } else if c == '7' {
        Some(7)
    } else if c == '8' {
        Some(8)
    } else if c == '9' {
        Some(9)
    } else {
        None
    }
}

/// Returns the decimal digit that stands for `d`.
pub fn digit_char(d: u8) -> (c: char)
    requires
        d < 10,
    ensures
        c == digit_char_spec(d as nat),
{
    match d {
        0 => '0',
        1 => '1',
        2 => '2',
        3 => '3',
        4 => '4',
        5 => '5',
        6 => '6',
        7 => '7',
        8 => '8',
        _ => '9',
    }
}

/// Returns the number that the decimal digit `c` stands for, if `c` is one.
pub fn digit_value(c: char) -> (d: Option<u8>)
    ensures
        match d {
            Some(d) => digit_value_spec(c) == Some(d as nat),
            None => digit_value_spec(c) is None,
        },
{
    match c {
        '0' => Some(0),
        '1' => Some(1),
        '2' => Some(2),
        '3' => Some(3),
        '4' => Some(4),
        '5' => Some(5),
        '6' => Some(6),
        '7' => Some(7),
        '8' => Some(8),
        '9' => Some(9),
        _ => None,
    }
}

/// The decimal numeral of `n`, without a sign and without leading zeros.
pub open spec fn decimal_spec(n: nat) -> Seq<char>
    decreases n,
{
    if n < 10 {
        seq![digit_char_spec(n)]
    } else {
        decimal_spec(n / 10).push(digit_char_spec(n % 10))
    }
}

/// The number that `s` is a decimal numeral of, if `s` holds decimal digits only. The
/// empty text counts as zero here.
pub open spec fn digits_value_spec(s: Seq<char>) -> Option<nat>
    decreases s.len(),
{
    if s.len() == 0 {
        Some(0)
    } else {
        match (digits_value_spec(s.drop_last()), digit_value_spec(s.last())) {
            (Some(value), Some(digit)) => Some(value * 10 + digit),
            _ => None,
        }
    }
}

/// The number that `s` stands for: an optional `+`, then at least one decimal digit and
/// nothing else, with a value that fits in 64 bits.
pub open spec fn parse_u64_spec(s: Seq<char>) -> Option<u64> {
    let digits = if s.len() > 0 && s[0] == '+' {
        s.drop_first()
    } else {
        s
    };
    if digits.len() == 0 {
        None
    } else {
        value_u64_spec(digits)
    }
}

/// The number that the decimal digits `digits` stand for, if it fits in 64 bits.
pub open spec fn value_u64_spec(digits: Seq<char>) -> Option<u64> {
    match digits_value_spec(digits) {
        Some(value) => if value <= u64::MAX {
            Some(value as u64)
        } else {
            None
        },
        None => None,
    }
}

/// A numeral's value is at least the value of each of its beginnings, and where a
/// beginning is no numeral, the whole is none either.
pub proof fn lemma_digits_value_prefix(s: Seq<char>, n: int)
    requires
        0 <= n <= s.len(),
        digits_value_spec(s) is Some,
    ensures
        digits_value_spec(s.take(n)) is Some,
        digits_value_spec(s.take(n))->0 <= digits_value_spec(s)->0,
    decreases s.len(),
{
    if n == s.len() {
        assert(s.take(n) == s);
    } else {
        assert(s.drop_last().take(n) == s.take(n));
        lemma_digits_value_prefix(s.drop_last(), n);
    }
}

/// Every character of a decimal numeral is a digit, and the numeral reads back as the
/// number it was written for.
pub proof fn lemma_decimal_reads_back(n: nat)
    ensures
        decimal_spec(n).len() >= 1,
        forall|i: int|
            0 <= i < decimal_spec(n).len() ==> digit_value_spec(
                #[trigger] decimal_spec(n)[i],
            ) is Some,
        digits_value_spec(decimal_spec(n)) == Some(n),
    decreases n,
{
    if n < 10 {
        let s = decimal_spec(n);
        assert(s.drop_last() == Seq::<char>::empty());
        assert(digits_value_spec(s.drop_last()) == Some(0nat));
    } else {
        lemma_decimal_reads_back(n / 10);
        let s = decimal_spec(n);
        assert(s.drop_last() == decimal_spec(n / 10));
    }
}

/// What `parse_u64_spec` reads from the decimal numeral of a number is that number.
pub proof fn lemma_parse_u64_of_decimal(n: u64)
    ensures
        parse_u64_spec(decimal_spec(n as nat)) == Some(n),
{
    lemma_decimal_reads_back(n as nat);
    assert(digit_value_spec(decimal_spec(n as nat)[0]) is Some);
}

/// Parses a number as `parse_u64_spec` says.
pub fn parse_u64(chars: &Vec<char>) -> (number: Option<u64>)
    ensures
        number == parse_u64_spec(chars@),
{
    let n = chars.len();
    let start: usize = if n > 0 && chars[0] == '+' {
        1
    } else {
        0
    };
    let ghost digits = chars@.subrange(start as int, n as int);
    proof {
        if start == 1 {
            assert(digits == chars@.drop_first());
        } else {
            assert(digits == chars@);
        }
    }
    if start == n {
        return None;
    }
    let mut value: u64 = 0;
    let mut i: usize = start;
    assert(digits.take(0) == Seq::<char>::empty());
    while i < n
        invariant
            n == chars.len(),
            start <= i <= n,
            digits == chars@.subrange(start as int, n as int),
            parse_u64_spec(chars@) == value_u64_spec(digits),
            digits_value_spec(digits.take(i - start)) == Some(value as nat),
        decreases n - i,
    {
        proof {
            assert(digits.take(i - start + 1).drop_last() == digits.take(i - start));
            assert(digits.take(i - start + 1).last() == chars@[i as int]);
            if digits_value_spec(digits) is Some {
                lemma_digits_value_prefix(digits, i - start + 1);
            }
        }
        let digit = match digit_value(chars[i]) {
            Some(digit) => digit,
            None => { return None; },
        };
        let tens = match value.checked_mul(10) {
            Some(tens) => tens,
            None => { return None; },
        };
        value = match tens.checked_add(digit as u64) {
            Some(sum) => sum,
            None => { return None; },
        };
        i += 1;
    }
    proof {
        assert(digits.take(i - start) == digits);
    }
    Some(value)
}

/// Appends the decimal numeral of `n` to `out`.
pub fn push_decimal(out: &mut Vec<char>, n: u64)
    ensures
        final(out)@ == old(out)@ + decimal_spec(n as nat),
    decreases n,
{
    if n >= 10 {
        push_decimal(out, n / 10);
    }
    out.push(digit_char((n % 10) as u8));
}

} // verus!
