//! Half-open byte ranges into a source text.

use vstd::prelude::*;
use vstd::string::*;
use vstd::utf8::*;

use crate::text::{
    digits, digits_of, lemma_boundary_around_ascii, lemma_boundary_in_prefix, line_after,
    newlines_between, NEWLINE,
};

verus! {

/// A half-open range `start..end` of byte offsets into a source text.
#[derive(Copy, Clone, PartialEq, Eq, Structural, Debug)]
pub struct Span {
    pub start: usize,
    pub end: usize,
}

/// Where the line starts in which the byte at `pos` stands: behind the
/// last newline before `pos`, or at the start of the text.
pub open spec fn line_start(bytes: Seq<u8>, pos: int) -> int
    decreases pos,
{
    if pos <= 0 {
        0
    } else if bytes[pos - 1] == NEWLINE {
        pos
    } else {
        line_start(bytes, pos - 1)
    }
}

/// Where the line ends in which the byte at `pos` stands: at the first
/// newline at or behind `pos`, or at the end of the text.
pub open spec fn line_end(bytes: Seq<u8>, pos: int) -> int
    decreases bytes.len() - pos,
{
    if 0 <= pos < bytes.len() && bytes[pos] != NEWLINE {
        line_end(bytes, pos + 1)
    } else {
        pos
    }
}

impl From<std::ops::Range<usize>> for Span {
    fn from(value: std::ops::Range<usize>) -> (span: Span) {
        Span { start: value.start, end: value.end }
    }
}

impl vstd::std_specs::convert::FromSpecImpl<std::ops::Range<usize>> for Span {
    open spec fn obeys_from_spec() -> bool {
        true
    }

    open spec fn from_spec(value: std::ops::Range<usize>) -> Span {
        Span { start: value.start, end: value.end }
    }
}

impl Span {
    /// True when the span lies inside `bytes` and both of its ends fall on
    /// character boundaries, so that the range can be cut out of the text.
    pub open spec fn fits(&self, bytes: Seq<u8>) -> bool {
        &&& self.start <= self.end <= bytes.len()
        &&& is_char_boundary(bytes, self.start as int)
        &&& is_char_boundary(bytes, self.end as int)
    }

    pub fn new(start: usize, end: usize) -> (span: Span)
        ensures
            span.start == start,
            span.end == end,
    {
        Span { start, end }
    }

    /// Decides at run time whether the span can be cut out of `string`.
    pub fn fits_in(&self, string: &str) -> (ok: bool)
        ensures
            ok == self.fits(string.spec_bytes()),
    {
        let bytes = string.as_bytes();
        self.start <= self.end && self.end <= bytes.len() && string.is_char_boundary(self.start)
            && string.is_char_boundary(self.end)
    }

    /// The text that the span covers.
    pub fn extract_from_str<'a>(&self, string: &'a str) -> (text: &'a str)
        requires
            self.fits(string.spec_bytes()),
        ensures
            text.spec_bytes() == string.spec_bytes().subrange(self.start as int, self.end as int),
    {
        let (head, _) = string.split_at(self.end);
        proof {
            encode_utf8_valid_utf8(string@);
            lemma_boundary_in_prefix(string.spec_bytes(), self.start as int, self.end as int);
        }
        let (_, text) = head.split_at(self.start);
        text
    }

    /// A line of blanks and carets as long as a line of text of the given
    /// length or longer: blanks up to the start of the span, a caret for each
    /// of its bytes, and blanks from its end up to the length. The span is
    /// counted from the start of the line.
    pub open spec fn marker(&self, length: nat) -> Seq<char> {
        let carets = if self.end > self.start {
            (self.end - self.start) as nat
        } else {
            0
        };
        let rest = if length > self.end {
            (length - self.end) as nat
        } else {
            0
        };
        Seq::new(self.start as nat, |i: int| ' ') + Seq::new(carets, |i: int| '^') + Seq::new(
            rest,
            |i: int| ' ',
        )
    }

    /// The marker of the span under a line of `length` bytes, from whose
    /// start the span is counted.
    fn marker_under(&self, length: usize) -> (marker: String)
        ensures
            marker@ == self.marker(length as nat),
    {
        let mut marker = String::new();
        proof {
            reveal_strlit(" ");
            reveal_strlit("^");
        }
        append_repeated(&mut marker, " ", self.start);
        if self.end > self.start {
            append_repeated(&mut marker, "^", self.end - self.start);
        }
        if length > self.end {
            append_repeated(&mut marker, " ", length - self.end);
        }
        marker
    }

    /// The number of the line in which the span starts, counted from 1: one
    /// more than the number of newlines that stand before its start.
    pub open spec fn line(&self, bytes: Seq<u8>) -> usize {
        let upto = if self.start < bytes.len() {
            self.start as int
        } else {
            bytes.len() as int
        };
        line_after(1, newlines_between(bytes, 0, upto))
    }

    /// The number of the line of `string` in which the span starts.
    pub fn find_line(&self, string: &str) -> (line: usize)
        ensures
            line == self.line(string.spec_bytes()),
    {
        let bytes = string.as_bytes();
        let upto = if self.start < bytes.len() {
            self.start
        } else {
            bytes.len()
        };
        let mut line: usize = 1;
        let mut index: usize = 0;
        while index < upto
            invariant
                index <= upto <= bytes@.len(),
                bytes@ == string.spec_bytes(),
                line == line_after(1, newlines_between(bytes@, 0, index as int)),
            decreases upto - index,
        {
            if bytes[index] == NEWLINE && line < usize::MAX {
                line += 1;
            }
            index += 1;
        }
        line
    }

    /// The span as `[start..end]`, both in decimal digits.
    pub open spec fn spec_text(&self) -> Seq<char> {
        "["@ + digits(self.start as nat, 10) + ".."@ + digits(self.end as nat, 10) + "]"@
    }

    /// The span as text.
    pub fn to_text(&self) -> (text: String)
        ensures
            text@ == self.spec_text(),
    {
        let mut text = String::from_str("[");
        text.append(digits_of(self.start, 10).as_str());
        text.append("..");
        text.append(digits_of(self.end, 10).as_str());
        text.append("]");
        text
    }

    /// The line in which the span starts, without the newline that ends
    /// it. A span that starts behind the text is taken to start at its end.
    pub open spec fn spec_line_span(&self, bytes: Seq<u8>) -> Span {
        let at = if self.start < bytes.len() {
            self.start as int
        } else {
            bytes.len() as int
        };
        Span { start: line_start(bytes, at) as usize, end: line_end(bytes, at) as usize }
    }

    /// The line of `string` in which the span starts. It can be cut out of
    /// `string`, and the start of the span lies in it or at its end.
    pub fn line_span(&self, string: &str) -> (line: Span)
        ensures
            line == self.spec_line_span(string.spec_bytes()),
            line.fits(string.spec_bytes()),
            self.start <= string.spec_bytes().len() ==> line.start <= self.start <= line.end,
    {
        let bytes = string.as_bytes();
        let at = if self.start < bytes.len() {
            self.start
        } else {
            bytes.len()
        };
        proof {
            encode_utf8_valid_utf8(string@);
            is_char_boundary_start_end_of_seq(bytes@);
        }
        let mut start = at;
        while start > 0 && bytes[start - 1] != NEWLINE
            invariant
                start <= at <= bytes@.len(),
                line_start(bytes@, start as int) == line_start(bytes@, at as int),
            decreases start,
        {
            start -= 1;
        }
        let mut end = at;
        while end < bytes.len() && bytes[end] != NEWLINE
            invariant
                at <= end <= bytes@.len(),
                line_end(bytes@, end as int) == line_end(bytes@, at as int),
            decreases bytes@.len() - end,
        {
            end += 1;
        }
        proof {
            if start > 0 {
                lemma_boundary_around_ascii(bytes@, start - 1);
            }
            if end < bytes@.len() {
                lemma_boundary_around_ascii(bytes@, end as int);
            }
        }
        Span { start, end }
    }

    /// The span as it lies on a line: counted from the start of the line,
    /// and cut where the line ends. A span that lies before or behind the
    /// line is empty.
    pub open spec fn spec_on_line(&self, line: Span) -> Span {
        let last = if self.end < line.end {
            self.end
        } else {
            line.end
        };
        Span {
            start: if self.start >= line.start {
                (self.start - line.start) as usize
            } else {
                0
            },
            end: if last >= line.start {
                (last - line.start) as usize
            } else {
                0
            },
        }
    }

    /// The span as it lies on `line`.
    pub fn on_line(&self, line: &Span) -> (span: Span)
        ensures
            span == self.spec_on_line(*line),
    {
        let last = if self.end < line.end {
            self.end
        } else {
            line.end
        };
        Span {
            start: if self.start >= line.start {
                self.start - line.start
            } else {
                0
            },
            end: if last >= line.start {
                last - line.start
            } else {
                0
            },
        }
    }

    /// The marker that belongs under the line of `string` in which the span
    /// starts: as long as that line, with carets where the span lies on it.
    /// The columns are those of the span on its own line, whatever stands
    /// before the line; what of the span lies behind the line's end is not
    /// marked.
    pub open spec fn spec_marker(&self, bytes: Seq<u8>) -> Seq<char> {
        let line = self.spec_line_span(bytes);
        self.spec_on_line(line).marker((line.end - line.start) as nat)
    }

    /// The marker for the span under its line of `string`.
    pub fn make_marker(&self, string: &str) -> (marker: String)
        ensures
            marker@ == self.spec_marker(string.spec_bytes()),
    {
        let line = self.line_span(string);
        self.on_line(&line).marker_under(line.end - line.start)
    }
}

/// Appends `count` times the one character of `piece`.
fn append_repeated(text: &mut String, piece: &str, count: usize)
    requires
        piece@.len() == 1,
    ensures
        final(text)@ == old(text)@ + Seq::new(count as nat, |i: int| piece@[0]),
{
    let mut done: usize = 0;
    while done < count
        invariant
            done <= count,
            piece@.len() == 1,
            text@ == old(text)@ + Seq::new(done as nat, |i: int| piece@[0]),
        decreases count - done,
    {
        text.append(piece);
        done += 1;
    }
}

} // verus!
