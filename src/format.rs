//! Whole-document formatting, done by the Varlink formatter.

use vstd::prelude::*;
use vstd::string::StringSliceAdditionalSpecFns;
use crate::diagnostics::{end_of_document, end_position};
use crate::resolve::TextEdit;
use crate::tree::{Position, Span};
use varlinkfmt_core::topiary_core::FormatterError;

verus! {

/// The indentation unit of formatted text.
#[derive(Clone, Copy, Debug, PartialEq, Eq, Structural)]
pub enum Indent {
    Tab,
    Spaces(usize),
}

pub open spec fn indent_unit(indent: Indent) -> Seq<char> {
    match indent {
        Indent::Tab => seq!['\t'],
        Indent::Spaces(n) => Seq::new(n as nat, |i: int| ' '),
    }
}

/// The formatter's output for a source text and an indentation unit.
pub uninterp spec fn formatted_text(source: Seq<char>, indent: Seq<char>) -> Seq<u8>;

#[verifier::external_type_specification]
#[verifier::external_body]
pub struct ExFormatterError(FormatterError);

/// Relies on varlinkfmt_core::formatter_str, with the language of
/// varlinkfmt_core::mk_language for the indentation unit and default options: the
/// formatted text it writes depends on the source and the indentation unit alone.
#[verifier::external_body]
fn format_source(source: &str, indent: Indent) -> (r: Result<Vec<u8>, FormatterError>)
    ensures
        r matches Ok(out) ==> out@ == formatted_text(source@, indent_unit(indent)),
{
    let indent = match indent {
        Indent::Tab => varlinkfmt_core::Indent::Tab,
        Indent::Spaces(n) => varlinkfmt_core::Indent::Spaces(n),
    };
    let language = varlinkfmt_core::mk_language(indent);
    let mut out = Vec::new();
    varlinkfmt_core::formatter_str(source, &mut out, &language, Default::default()).map(|()| out)
}

/// Why a document could not be formatted, as the formatter reports it.
pub struct FormatError {
    pub cause: FormatterError,
}

/// The span of a whole source text: from its start to just past its last line.
pub open spec fn whole_document(source: Seq<u8>) -> Span {
    Span { start: Position { line: 0, character: 0 }, end: end_of_document(source) }
}

/// The edit that replaces the whole of `source` with `formatted`.
pub fn formatting_edit(source: &str, formatted: Vec<u8>) -> (r: TextEdit)
    ensures
        r.span == whole_document(source.spec_bytes()),
        r.new_text@ == formatted@,
{
    let end = end_position(source.as_bytes());
    TextEdit { span: Span { start: Position { line: 0, character: 0 }, end }, new_text: formatted }
}

/// Formats a whole document: one edit that replaces all of it with the formatter's
/// output, or the formatter's error.
pub fn formatting(source: &str, indent: Indent) -> (r: Result<TextEdit, FormatError>)
    ensures
        r matches Ok(e) ==> e.span == whole_document(source.spec_bytes()) && e.new_text@
            == formatted_text(source@, indent_unit(indent)),
{
    match format_source(source, indent) {
        Ok(out) => Ok(formatting_edit(source, out)),
        Err(cause) => Err(FormatError { cause }),
    }
}

} // verus!
