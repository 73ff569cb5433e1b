//! Slideshows as text: the number of slides on a line, then a line for each
//! slide with the indices of its photos.

use crate::photo::{Slide, SlideView};
use crate::trusted::{join, joined};
use vstd::prelude::*;

verus! {

/// The character of the digit `d`.
pub open spec fn digit(d: nat) -> char {
    ('0' as nat + d) as char
}

/// The number `n` in decimal digits, without leading zeros.
pub open spec fn decimal(n: nat) -> Seq<char>
    decreases n,
{
    if n < 10 {
        seq![digit(n)]
    } else {
        decimal(n / 10).push(digit(n % 10))
    }
}

/// The line of a slide: the index of its photo, or the indices of its two
/// photos with a space between them.
pub open spec fn slide_line(slide: SlideView) -> Seq<char> {
    match slide {
        SlideView::Vertical(first, second) => decimal(first.idx as nat) + seq![' '] + decimal(
            second.idx as nat,
        ),
        SlideView::Horizontal(only) => decimal(only.idx as nat),
    }
}

/// The lines of the slides of a slideshow.
pub open spec fn slide_lines(show: Seq<SlideView>) -> Seq<Seq<char>> {
    Seq::new(show.len(), |i: int| slide_line(show[i]))
}

/// A slideshow as text: the number of its slides, a line feed, and the lines
/// of its slides with a line feed between each two.
pub open spec fn rendered(show: Seq<SlideView>) -> Seq<char> {
    decimal(show.len()) + seq!['\n'] + joined(slide_lines(show), seq!['\n'])
}

/// The character of the digit `d`.
fn digit_char(d: usize) -> (c: char)
    requires
        d < 10,
    ensures
        c == digit(d as nat),
{
    ('0' as u8 + d as u8) as char
}

/// Appends `n` in decimal digits to `text`.
pub fn push_decimal(text: &mut String, n: usize)
    ensures
        final(text)@ == old(text)@ + decimal(n as nat),
    decreases n,
{
    if n >= 10 {
        push_decimal(text, n / 10);
    }
    text.push(digit_char(n % 10));
}

/// The line of `slide`.
fn line_of(slide: &Slide) -> (line: String)
    ensures
        line@ == slide_line(slide@),
{
    let mut line: String = String::new();
    match slide {
        Slide::Vertical(first, second) => {
            push_decimal(&mut line, first.idx());
            line.push(' ');
            push_decimal(&mut line, second.idx());
        },
        Slide::Horizontal(only) => {
            push_decimal(&mut line, only.idx());
        },
    }
    line
}

/// The line of `slide`: the index of its photo, or the indices of its two
/// photos, in the order in which they were paired, with a space between.
pub fn deserialize_slide(slide: Slide) -> (line: String)
    ensures
        line@ == slide_line(slide@),
{
    line_of(&slide)
}

/// The slideshow as text: the number of its slides on a line of its own,
/// then the lines of its slides with a line feed between each two.
pub fn deserialize(slideshow: Vec<Slide>) -> (text: String)
    ensures
        text@ == rendered(slideshow.deep_view()),
{
    let mut lines: Vec<String> = Vec::new();
    let mut i: usize = 0;
    while i < slideshow.len()
        invariant
            i <= slideshow.len(),
            lines.len() == i,
            forall|k: int| 0 <= k < i ==> lines[k]@ == slide_line(slideshow[k]@),
        decreases slideshow.len() - i,
    {
        lines.push(line_of(&slideshow[i]));
        i += 1;
    }
    assert(lines.deep_view() =~= slide_lines(slideshow.deep_view()));
    let mut text: String = String::new();
    push_decimal(&mut text, slideshow.len());
    text.push('\n');
    proof {
        reveal_strlit("\n");
        assert("\n"@ =~= seq!['\n']);
    }
    let body: String = join(&lines, "\n");
    text.append(body.as_str());
    text
}

/// What is written for the outcome of a search: the slideshow as text, or
/// for no slideshow a `0` on a line of its own.
pub fn deserialize_found(found: Option<Vec<Slide>>) -> (text: String)
    ensures
        found matches Some(show) ==> text@ == rendered(show.deep_view()),
        found is None ==> text@ == seq!['0', '\n'],
{
    match found {
        Some(show) => deserialize(show),
        None => {
            let mut text: String = String::new();
            text.push('0');
            text.push('\n');
            text
        },
    }
}

} // verus!
