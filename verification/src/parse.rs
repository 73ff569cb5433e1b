//! Reading photos from text: a line with the number of photos, then a line
//! for each photo with `H` or `V`, the number of its tags and the tags.

use crate::photo::{Orientation, Photo, PhotoView};
use vstd::prelude::*;

verus! {

/// Why a text does not read as a list of photos.
#[derive(Debug, Clone, Copy, PartialEq, Eq, Structural)]
pub enum ParseError {
    /// The first line is not a positive number.
    Count,
    /// The line of the photo with this index is not `H` or `V`, a number
    /// and at least one tag, with white space between them and nowhere else.
    Line(usize),
    /// The line of the photo with this index declares another number of
    /// tags than it holds.
    TagCount(usize),
}

/// What parts the pieces of a text: a line feed, or any character of white
/// space.
#[derive(Debug, Clone, Copy, PartialEq, Eq, Structural)]
pub enum Separator {
    Line,
    Space,
}

/// White space: the characters that Unicode lists as such.
pub open spec fn is_space(c: char) -> bool {
    ||| '\t' <= c <= '\r'
    ||| c == ' '
    ||| c == '\u{85}'
    ||| c == '\u{a0}'
    ||| c == '\u{1680}'
    ||| '\u{2000}' <= c <= '\u{200a}'
    ||| '\u{2028}' <= c <= '\u{2029}'
    ||| c == '\u{202f}'
    ||| c == '\u{205f}'
    ||| c == '\u{3000}'
}

/// The digits `0` to `9`.
pub open spec fn is_digit(c: char) -> bool {
    '0' <= c <= '9'
}

/// The characters of a tag: the letters `a` to `z` and `A` to `Z`, the
/// digits and the underscore.
pub open spec fn is_word(c: char) -> bool {
    is_digit(c) || 'a' <= c <= 'z' || 'A' <= c <= 'Z' || c == '_'
}

impl Separator {
    /// Whether the character `c` parts two pieces.
    pub open spec fn parts(self, c: char) -> bool {
        match self {
            Separator::Line => c == '\n',
            Separator::Space => is_space(c),
        }
    }
}

/// The pieces of `text` between the characters that part them. There is one
/// piece more than there are such characters, and a piece is empty where
/// two of them meet or `text` begins or ends with one.
pub open spec fn split(text: Seq<char>, sep: Separator) -> Seq<Seq<char>>
    decreases text.len(),
{
    if text.len() == 0 {
        seq![Seq::empty()]
    } else {
        let before = split(text.drop_last(), sep);
        if sep.parts(text.last()) {
            before.push(Seq::empty())
        } else {
            before.drop_last().push(before.last().push(text.last()))
        }
    }
}

/// The pieces of `pieces` that are not empty.
pub open spec fn filled(pieces: Seq<Seq<char>>) -> Seq<Seq<char>> {
    pieces.filter(|piece: Seq<char>| piece.len() > 0)
}

/// The words of a line: what stands between its white space.
pub open spec fn words(line: Seq<char>) -> Seq<Seq<char>> {
    filled(split(line, Separator::Space))
}

/// Whether `text` is made of digits, and of one at least.
pub open spec fn all_digits(text: Seq<char>) -> bool {
    text.len() > 0 && forall|i: int| 0 <= i < text.len() ==> is_digit(#[trigger] text[i])
}

/// The number that the digits of `digits` write.
pub open spec fn number(digits: Seq<char>) -> nat
    decreases digits.len(),
{
    if digits.len() == 0 {
        0
    } else {
        10 * number(digits.drop_last()) + (digits.last() as nat - '0' as nat) as nat
    }
}

/// Whether `line` writes a positive number: digits, not all of them `0`,
/// with or without a `+` before them.
pub open spec fn is_count(line: Seq<char>) -> bool {
    let digits = if line.len() > 0 && line[0] == '+' {
        line.skip(1)
    } else {
        line
    };
    all_digits(digits) && number(digits) > 0
}

/// Whether `line` has the form of the line of a photo: `H` or `V`, then a
/// number, then one tag or more, with white space between them and nowhere
/// else.
pub open spec fn is_record(line: Seq<char>) -> bool {
    &&& line.len() > 0
    &&& !is_space(line.first())
    &&& !is_space(line.last())
    &&& forall|i: int| 0 <= i < line.len() ==> is_word(#[trigger] line[i]) || is_space(line[i])
    &&& words(line).len() >= 3
    &&& (words(line)[0] == seq!['H'] || words(line)[0] == seq!['V'])
    &&& all_digits(words(line)[1])
}

/// The photo that `line` describes, with the index `idx`, or why it
/// describes none.
pub open spec fn record_photo(line: Seq<char>, idx: usize) -> Result<PhotoView, ParseError> {
    if !is_record(line) {
        Err(ParseError::Line(idx))
    } else if number(words(line)[1]) != words(line).len() - 2 {
        Err(ParseError::TagCount(idx))
    } else {
        Ok(
            PhotoView {
                idx,
                orient: if words(line)[0] == seq!['H'] {
                    Orientation::Horizontal
                } else {
                    Orientation::Vertical
                },
                tags: words(line).skip(2),
            },
        )
    }
}

/// The photos that `lines` describe. Empty lines are passed over; the index
/// of a photo is the number of photos before it. The first line that
/// describes no photo ends the reading.
pub open spec fn read_lines(lines: Seq<Seq<char>>) -> Result<Seq<PhotoView>, ParseError>
    decreases lines.len(),
{
    if lines.len() == 0 {
        Ok(Seq::empty())
    } else {
        match read_lines(lines.drop_last()) {
            Err(error) => Err(error),
            Ok(photos) => if lines.last().len() == 0 {
                Ok(photos)
            } else {
                match record_photo(lines.last(), photos.len() as usize) {
                    Err(error) => Err(error),
                    Ok(photo) => Ok(photos.push(photo)),
                }
            },
        }
    }
}

/// The photos that `text` describes: its first line holds a positive
/// number, and each line after it that is not empty describes a photo.
pub open spec fn parsed(text: Seq<char>) -> Result<Seq<PhotoView>, ParseError> {
    if !is_count(split(text, Separator::Line)[0]) {
        Err(ParseError::Count)
    } else {
        read_lines(split(text, Separator::Line).skip(1))
    }
}

/// The characters of each of `pieces`.
pub open spec fn texts(pieces: Seq<Vec<char>>) -> Seq<Seq<char>> {
    Seq::new(pieces.len(), |i: int| pieces[i]@)
}

/// The characters of each of `pieces`.
pub open spec fn ref_texts(pieces: Seq<&Vec<char>>) -> Seq<Seq<char>> {
    Seq::new(pieces.len(), |i: int| pieces[i]@)
}

/// A text has at least one piece.
pub proof fn lemma_split_len(text: Seq<char>, sep: Separator)
    ensures
        split(text, sep).len() >= 1,
    decreases text.len(),
{
    if text.len() > 0 {
        lemma_split_len(text.drop_last(), sep);
    }
}

/// One more piece is kept where it is not empty.
pub proof fn lemma_filled_push(pieces: Seq<Seq<char>>, piece: Seq<char>)
    ensures
        piece.len() > 0 ==> filled(pieces.push(piece)) == filled(pieces).push(piece),
        piece.len() == 0 ==> filled(pieces.push(piece)) == filled(pieces),
{
    reveal(Seq::filter);
    assert(pieces.push(piece).drop_last() =~= pieces);
}

/// Once a line describes no photo, the lines after it change nothing.
pub proof fn lemma_error_stays(lines: Seq<Seq<char>>, upto: int)
    requires
        0 <= upto <= lines.len(),
        read_lines(lines.take(upto)) is Err,
    ensures
        read_lines(lines) == read_lines(lines.take(upto)),
    decreases lines.len() - upto,
{
    if upto == lines.len() {
        assert(lines.take(upto) =~= lines);
    } else {
        assert(lines.take(upto + 1).drop_last() =~= lines.take(upto));
        lemma_error_stays(lines, upto + 1);
    }
}

/// The photos read from lines are numbered from 0 in the order in which
/// they are read.
pub proof fn lemma_read_lines_indices(lines: Seq<Seq<char>>)
    requires
        lines.len() <= usize::MAX,
    ensures
        read_lines(lines) matches Ok(photos) ==> photos.len() <= lines.len(),
        read_lines(lines) matches Ok(photos) ==> forall|i: int|
            0 <= i < photos.len() ==> (#[trigger] photos[i]).idx == i,
    decreases lines.len(),
{
    if lines.len() > 0 {
        lemma_read_lines_indices(lines.drop_last());
    }
}

/// The number written by the first digits of `digits` is not above the
/// number written by all of them.
pub proof fn lemma_number_grows(digits: Seq<char>, upto: int)
    requires
        0 <= upto <= digits.len(),
    ensures
        number(digits.take(upto)) <= number(digits),
    decreases digits.len() - upto,
{
    if upto == digits.len() {
        assert(digits.take(upto) =~= digits);
    } else {
        assert(digits.take(upto + 1).drop_last() =~= digits.take(upto));
        lemma_number_grows(digits, upto + 1);
    }
}

/// Whether `c` is white space.
pub fn space(c: char) -> (yes: bool)
    ensures
        yes == is_space(c),
{
    ('\t' <= c && c <= '\r') || c == ' ' || c == '\u{85}' || c == '\u{a0}' || c == '\u{1680}' || (
    '\u{2000}' <= c && c <= '\u{200a}') || ('\u{2028}' <= c && c <= '\u{2029}') || c == '\u{202f}'
        || c == '\u{205f}' || c == '\u{3000}'
}

/// Whether `c` may stand in a tag.
pub fn word_char(c: char) -> (yes: bool)
    ensures
        yes == is_word(c),
{
    ('0' <= c && c <= '9') || ('a' <= c && c <= 'z') || ('A' <= c && c <= 'Z') || c == '_'
}

impl Separator {
    /// Whether the character `c` parts two pieces.
    pub fn parts_at(self, c: char) -> (yes: bool)
        ensures
            yes == self.parts(c),
    {
        match self {
            Separator::Line => c == '\n',
            Separator::Space => space(c),
        }
    }
}

/// The characters of `text`.
pub fn chars_of(text: &str) -> (chars: Vec<char>)
    ensures
        chars@ == text@,
{
    let mut chars: Vec<char> = Vec::new();
    for c in it: text.chars()
        invariant
            chars@ == it.seq().take(it.index() as int),
            it.seq() == text@,
    {
        chars.push(c);
    }
    chars
}

/// The characters of `chars` as a string.
pub fn string_of(chars: &Vec<char>) -> (text: String)
    ensures
        text@ == chars@,
{
    let mut text: String = String::new();
    let mut i: usize = 0;
    while i < chars.len()
        invariant
            i <= chars.len(),
            text@ == chars@.take(i as int),
        decreases chars.len() - i,
    {
        text.push(chars[i]);
        i += 1;
    }
    text
}

/// The pieces of `text` between the characters that part them.
pub fn split_at(text: &Vec<char>, sep: Separator) -> (pieces: Vec<Vec<char>>)
    ensures
        texts(pieces@) == split(text@, sep),
{
    let mut pieces: Vec<Vec<char>> = Vec::new();
    let mut piece: Vec<char> = Vec::new();
    let mut i: usize = 0;
    while i < text.len()
        invariant
            i <= text.len(),
            split(text@.take(i as int), sep) == texts(pieces@).push(piece@),
        decreases text.len() - i,
    {
        let c: char = text[i];
        assert(text@.take(i + 1).drop_last() =~= text@.take(i as int));
        if sep.parts_at(c) {
            pieces.push(piece);
            piece = Vec::new();
        } else {
            piece.push(c);
        }
        i += 1;
    }
    assert(text@.take(text.len() as int) =~= text@);
    pieces.push(piece);
    pieces
}

/// Whether `chars` from the place `from` on is made of digits, and of one
/// at least.
fn digits_from(chars: &Vec<char>, from: usize) -> (yes: bool)
    requires
        from <= chars.len(),
    ensures
        yes == all_digits(chars@.skip(from as int)),
{
    let ghost digits = chars@.skip(from as int);
    if from == chars.len() {
        return false;
    }
    let mut i: usize = from;
    while i < chars.len()
        invariant
            from <= i <= chars.len(),
            digits == chars@.skip(from as int),
            forall|k: int| 0 <= k < i - from ==> is_digit(#[trigger] digits[k]),
        decreases chars.len() - i,
    {
        let c: char = chars[i];
        if !('0' <= c && c <= '9') {
            assert(!is_digit(digits[i - from]));
            return false;
        }
        i += 1;
    }
    true
}

/// Whether the digits of `chars` from the place `from` on write a number
/// above 0.
fn positive_from(chars: &Vec<char>, from: usize) -> (yes: bool)
    requires
        from <= chars.len(),
        all_digits(chars@.skip(from as int)),
    ensures
        yes == (number(chars@.skip(from as int)) > 0),
{
    let ghost digits = chars@.skip(from as int);
    let mut yes: bool = false;
    let mut i: usize = from;
    while i < chars.len()
        invariant
            from <= i <= chars.len(),
            digits == chars@.skip(from as int),
            all_digits(digits),
            yes == (number(digits.take(i - from)) > 0),
        decreases chars.len() - i,
    {
        assert(digits.take(i - from + 1).drop_last() =~= digits.take(i - from));
        if chars[i] != '0' {
            yes = true;
        }
        i += 1;
    }
    assert(digits.take(chars.len() - from) =~= digits);
    yes
}

/// Whether `line` writes a positive number.
pub fn count_line(line: &Vec<char>) -> (yes: bool)
    ensures
        yes == is_count(line@),
{
    let from: usize = if line.len() > 0 && line[0] == '+' {
        1
    } else {
        0
    };
    assert(line@.skip(0) =~= line@);
    digits_from(line, from) && positive_from(line, from)
}

/// Whether the digits of `digits` write the number `n`.
fn number_is(digits: &Vec<char>, n: usize) -> (yes: bool)
    requires
        all_digits(digits@),
    ensures
        yes == (number(digits@) == n),
{
    let mut value: usize = 0;
    let mut i: usize = 0;
    while i < digits.len()
        invariant
            i <= digits.len(),
            all_digits(digits@),
            value == number(digits@.take(i as int)),
        decreases digits.len() - i,
    {
        assert(digits@.take(i + 1).drop_last() =~= digits@.take(i as int));
        let d: usize = (digits[i] as u8 - '0' as u8) as usize;
        if value > (usize::MAX - d) / 10 {
            proof {
                lemma_number_grows(digits@, i + 1);
            }
            return false;
        }
        value = 10 * value + d;
        i += 1;
    }
    assert(digits@.take(digits.len() as int) =~= digits@);
    value == n
}

/// The photo that `line` describes, with the index `idx`, or why it
/// describes none.
pub fn read_record(line: &Vec<char>, idx: usize) -> (photo: Result<Photo, ParseError>)
    ensures
        photo matches Ok(found) ==> record_photo(line@, idx) == Ok::<PhotoView, ParseError>(found@),
        photo matches Err(error) ==> record_photo(line@, idx) == Err::<PhotoView, ParseError>(
            error,
        ),
{
    if line.len() == 0 || space(line[0]) || space(line[line.len() - 1]) {
        return Err(ParseError::Line(idx));
    }
    let mut i: usize = 0;
    while i < line.len()
        invariant
            i <= line.len(),
            forall|k: int| 0 <= k < i ==> is_word(#[trigger] line@[k]) || is_space(line@[k]),
        decreases line.len() - i,
    {
        let c: char = line[i];
        if !word_char(c) && !space(c) {
            return Err(ParseError::Line(idx));
        }
        i += 1;
    }
    let pieces: Vec<Vec<char>> = split_at(line, Separator::Space);
    let mut found: Vec<&Vec<char>> = Vec::new();
    let mut k: usize = 0;
    while k < pieces.len()
        invariant
            k <= pieces.len(),
            ref_texts(found@) == filled(texts(pieces@).take(k as int)),
        decreases pieces.len() - k,
    {
        proof {
            assert(texts(pieces@).take(k + 1) =~= texts(pieces@).take(k as int).push(
                pieces@[k as int]@,
            ));
            lemma_filled_push(texts(pieces@).take(k as int), pieces@[k as int]@);
        }
        if pieces[k].len() > 0 {
            found.push(&pieces[k]);
        }
        k += 1;
    }
    assert(texts(pieces@).take(pieces.len() as int) =~= texts(pieces@));
    if found.len() < 3 {
        return Err(ParseError::Line(idx));
    }
    let kind: &Vec<char> = found[0];
    if kind.len() != 1 || (kind[0] != 'H' && kind[0] != 'V') {
        return Err(ParseError::Line(idx));
    }
    let orient: Orientation = if kind[0] == 'H' {
        Orientation::Horizontal
    } else {
        Orientation::Vertical
    };
    proof {
        if kind@[0] == 'H' {
            assert(kind@ =~= seq!['H']);
        } else {
            assert(kind@ =~= seq!['V']);
        }
    }
    let declared: &Vec<char> = found[1];
    assert(declared@.skip(0) =~= declared@);
    if !digits_from(declared, 0) {
        return Err(ParseError::Line(idx));
    }
    if !number_is(declared, found.len() - 2) {
        return Err(ParseError::TagCount(idx));
    }
    let mut tags: Vec<String> = Vec::new();
    let mut j: usize = 2;
    while j < found.len()
        invariant
            2 <= j <= found.len(),
            tags.len() == j - 2,
            forall|t: int| 0 <= t < tags.len() ==> tags@[t]@ == found@[t + 2]@,
        decreases found.len() - j,
    {
        tags.push(string_of(found[j]));
        j += 1;
    }
    assert(tags.deep_view() =~= words(line@).skip(2));
    Ok(Photo::new(idx, orient, tags))
}

/// The photos that `input` describes. Its first line holds a positive
/// number; each line after it that is not empty holds `H` or `V`, the number
/// of tags and the tags of a photo, with white space between them. The
/// index of a photo is the number of photos before it. The first line that
/// does not read so ends the reading with what is wrong with it.
pub fn parse(input: &str) -> (photos: Result<Vec<Photo>, ParseError>)
    ensures
        photos matches Ok(found) ==> parsed(input@) == Ok::<Seq<PhotoView>, ParseError>(
            found.deep_view(),
        ),
        photos matches Err(error) ==> parsed(input@) == Err::<Seq<PhotoView>, ParseError>(error),
        photos matches Ok(found) ==> forall|i: int|
            0 <= i < found.len() ==> (#[trigger] found[i])@.idx == i,
{
    let text: Vec<char> = chars_of(input);
    let lines: Vec<Vec<char>> = split_at(&text, Separator::Line);
    proof {
        lemma_split_len(text@, Separator::Line);
    }
    if !count_line(&lines[0]) {
        return Err(ParseError::Count);
    }
    let ghost rest = texts(lines@).skip(1);
    let mut photos: Vec<Photo> = Vec::new();
    let mut i: usize = 1;
    assert(photos.deep_view() =~= Seq::empty());
    while i < lines.len()
        invariant
            1 <= i <= lines.len(),
            texts(lines@) == split(input@, Separator::Line),
            is_count(texts(lines@)[0]),
            rest == texts(lines@).skip(1),
            read_lines(rest.take(i - 1)) == Ok::<Seq<PhotoView>, ParseError>(photos.deep_view()),
        decreases lines.len() - i,
    {
        assert(rest.take(i as int).drop_last() =~= rest.take(i - 1));
        if lines[i].len() > 0 {
            match read_record(&lines[i], photos.len()) {
                Err(error) => {
                    proof {
                        assert(read_lines(rest.take(i as int)) == Err::<Seq<PhotoView>, ParseError>(
                            error,
                        ));
                        lemma_error_stays(rest, i as int);
                    }
                    return Err(error);
                },
                Ok(photo) => {
                    let ghost before = photos.deep_view();
                    photos.push(photo);
                    assert(photos.deep_view() =~= before.push(photo@));
                },
            }
        }
        i += 1;
    }
    proof {
        assert(rest.take(lines.len() - 1) =~= rest);
        lemma_read_lines_indices(rest);
        assert forall|i: int| 0 <= i < photos.len() implies (#[trigger] photos[i])@.idx == i by {
            assert(photos[i]@ == photos.deep_view()[i]);
        }
    }
    Ok(photos)
}

} // verus!
