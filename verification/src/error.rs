//! The error value that every stage reports: a message and the place in the
//! source text that it is about.

use vstd::prelude::*;
use vstd::string::*;
use vstd::utf8::*;

use crate::span::Span;
use crate::text::{quoted, text_between};

verus! {

/// The first problem that a stage met; scanning, parsing and encoding all
/// stop at it. The span is the place in the source text that the error is
/// about; an error that no place stands for has the empty span at the start
/// of the text.
#[derive(Debug)]
pub struct Error {
    pub message: String,
    pub span: Span,
}

/// An [`Error`] with its message as a sequence of characters.
pub struct ErrorView {
    pub message: Seq<char>,
    pub span: Span,
}

impl View for Error {
    type V = ErrorView;

    open spec fn view(&self) -> ErrorView {
        ErrorView { message: self.message@, span: self.span }
    }
}

impl Clone for Error {
    fn clone(&self) -> (copy: Self)
        ensures
            copy == *self,
    {
        Error { message: self.message.clone(), span: self.span }
    }
}

/// What is shown of an error under a source text, in three lines: the
/// span, the message and the text that the span covers; the line of the
/// source in which the span starts; and a marker under that line, with
/// carets where the span lies on it.
pub open spec fn report_text(error: ErrorView, bytes: Seq<u8>) -> Seq<char> {
    let line = error.span.spec_line_span(bytes);
    "Error:["@ + error.span.spec_text() + " "@ + error.message + " `"@ + quoted(
        text_between(bytes, error.span.start as int, error.span.end as int),
    ) + "`\nSource: "@ + text_between(bytes, line.start as int, line.end as int) + "\n"@
        + error.span.spec_marker(bytes) + "\n"@
}

impl Error {
    pub fn new(message: String, span: Span) -> (error: Error)
        ensures
            error.message == message,
            error.span == span,
    {
        Error { message, span }
    }

    /// The error as it is shown under the source text that it is about.
    pub fn report(&self, source: &str) -> (text: String)
        requires
            self.span.fits(source.spec_bytes()),
        ensures
            text@ == report_text(self@, source.spec_bytes()),
    {
        let line = self.span.line_span(source);
        let covered = self.span.extract_from_str(source);
        let shown = line.extract_from_str(source);
        let marker = self.span.make_marker(source);
        proof {
            encode_utf8_decode_utf8(covered@);
            encode_utf8_decode_utf8(shown@);
        }
        let mut text = String::from_str("Error:[");
        text.append(self.span.to_text().as_str());
        text.append(" ");
        text.append(self.message.as_str());
        text.append(" `");
        text.append("\"");
        text.append(covered);
        text.append("\"");
        text.append("`\nSource: ");
        text.append(shown);
        text.append("\n");
        text.append(marker.as_str());
        text.append("\n");
        text
    }
}

} // verus!
