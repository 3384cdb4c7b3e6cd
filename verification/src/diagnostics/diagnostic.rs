//! Diagnostics built for the user.
use vstd::prelude::*;
use crate::diagnostics::category::{category_text, error_type_text, type_of_category, ErrorCategory, ErrorType};
use crate::diagnostics::error_code::{code_text, code_value, ErrorCode};
use crate::diagnostics::source_manager::{SourceFile, SourceManager, Span};
use crate::text::owned;

verus! {

/// A diagnostic ready to be rendered: the file it points into, the
/// highlighted `(offset, length)`, the code text, its category and error
/// type, the message and the label under the highlight.
pub struct CompileDiagnostic {
    pub src: Option<SourceFile>,
    pub span: (usize, usize),
    pub code: String,
    pub category: ErrorCategory,
    pub error_type: ErrorType,
    pub message: String,
    pub label_message: String,
}

/// The heading of a rendered diagnostic: `type: code`, a line break, two
/// spaces and the message.
pub open spec fn diagnostic_text(d: CompileDiagnostic) -> Seq<char> {
    error_type_text(d.error_type) + ": "@ + d.code@ + "\n  "@ + d.message@
}

impl CompileDiagnostic {
    /// The heading of this diagnostic as text.
    pub fn to_display_string(&self) -> (r: String)
        ensures
            r@ == diagnostic_text(*self),
    {
        let mut s = owned(self.error_type.as_str());
        s.append(": ");
        s.append(self.code.as_str());
        s.append("\n  ");
        s.append(self.message.as_str());
        s
    }
}

/// Collects the parts of a diagnostic before it is placed in a file.
pub struct DiagnosticBuilder {
    category: ErrorCategory,
    code: ErrorCode,
    message: String,
    label_message: Option<String>,
}

/// The label used when none was given.
pub open spec fn default_label() -> Seq<char> {
    "error here"@
}

impl View for DiagnosticBuilder {
    type V = (ErrorCategory, ErrorCode, Seq<char>, Option<Seq<char>>);

    closed spec fn view(&self) -> Self::V {
        (self.category, self.code, self.message@, match self.label_message {
            Some(l) => Some(l@),
            None => None,
        })
    }
}

impl DiagnosticBuilder {
    /// A builder with no label of its own.
    pub fn new(category: ErrorCategory, code: ErrorCode, message: String) -> (r: DiagnosticBuilder)
        ensures
            r@ == (category, code, message@, None::<Seq<char>>),
    {
        DiagnosticBuilder { category, code, message, label_message: None }
    }

    /// Places the diagnostic at `span`; fails with `File not found` when the
    /// span's file is not registered.
    pub fn build(self, span: &Span, source_manager: &SourceManager) -> (r: Result<CompileDiagnostic, String>)
        requires
            source_manager.wf(),
        ensures
            r is Ok <==> span.file.0 < source_manager.files().len(),
            r matches Err(e) ==> e@ == "File not found"@,
            r matches Ok(d) ==> {
                &&& d.src matches Some(f) && f.name == source_manager.files()[span.file.0 as int].name
                    && f.content == source_manager.files()[span.file.0 as int].content
                &&& d.span.0 == span.range.start
                &&& d.span.1 == if span.range.end > span.range.start { span.range.end - span.range.start } else { 0 }
                &&& d.code@ == code_text(code_value(self@.1))
                &&& d.category == self@.0
                &&& d.error_type == type_of_category(self@.0)
                &&& d.message@ == self@.2
                &&& d.label_message@ == match self@.3 {
                    Some(l) => l,
                    None => default_label(),
                }
            },
    {
        let src = match source_manager.get_named_source(span.file) {
            Some(f) => f,
            None => return Err(owned("File not found")),
        };
        let label_message = match self.label_message {
            Some(l) => l,
            None => owned("error here"),
        };
        Ok(CompileDiagnostic {
            src: Some(src),
            span: span.offset_len(),
            code: self.code.code(),
            category: self.category,
            error_type: self.category.to_error_type(),
            message: self.message,
            label_message,
        })
    }
}

} // verus!
