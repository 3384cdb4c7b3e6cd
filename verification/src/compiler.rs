//! The compiler driver's decisions: diagnostics for each stage and the
//! code, location and message chosen for each kind of error.
use vstd::prelude::*;
use crate::diagnostics::category::ErrorCategory;
use crate::diagnostics::diagnostic::{CompileDiagnostic, DiagnosticBuilder};
use crate::diagnostics::error_code::ErrorCode;
use crate::diagnostics::source_manager::{FileId, SourceFile, SourceManager, Span};
use crate::parser::token::SourceLoc;
use crate::sema::event::EventValidationError;
use crate::sema::map::MapValidationError;
use crate::sema::unit::UnitValidationError;
use crate::sema::SemanticError;
use crate::text::{concat2, concat3, contains_str, decimal, is_prefix_of, occurs_in, owned, str_eq, u64_to_decimal};
use crate::emit::elf::is_bpf_elf;
use crate::ast::event::EventDecl;
use crate::ir::unit::decls_valid;
use crate::ir::LoweringError;
use crate::parser::parse_tokens;
use crate::parser::token::{Token, TokenKind};
use crate::parser::program::{events_view, program_view, unit_view, units_view, ProgramItems};
use crate::parser::spec_parse;
use crate::emit::ebpf::lemma_no_native_error;
use crate::parser::syntax::UnitItems;
use crate::parser::unit::section_texts;
use crate::ast::event::EventField;
use crate::ast::model::stmts_model;
use crate::ast::unit::{section_kind, ProgramKind, Unit};
use crate::ast::unit::Stmt;
use crate::sema::{first_map_error, first_unit_error};
use crate::sema::unit::{sections_valid, unit_error};
use crate::sema::check_program;
use crate::sema::event::{event_size, fields_valid, first_event_error, validate_event_type};
use crate::ir::model::{decl_fields, sizes_view, spec_lower_unit_body, StmtState};
use crate::ir::program::{event_sizes_of, lowered_from, unit_lowering};
use crate::emit::ebpf::{first_native_error, native_outcome, native_unit_error, outcome_view};
use crate::ir::program::ProgramIr;
use crate::ast::program::Program;
use crate::ir::unit::UnitIr;

verus! {

/// Builds diagnostics against the registered source files.
pub struct ErrorHandler {
    source_manager: SourceManager,
}

impl ErrorHandler {
    /// The registered files, in registration order.
    pub closed spec fn sources(&self) -> Seq<SourceFile> {
        self.source_manager.files()
    }

    /// The handler's file registry is consistent.
    pub closed spec fn wf(&self) -> bool {
        self.source_manager.wf()
    }

    /// A handler with no files.
    pub fn new() -> (r: ErrorHandler)
        ensures
            r.wf(),
            r.sources().len() == 0,
    {
        ErrorHandler { source_manager: SourceManager::new() }
    }

    /// Registers a source file.
    pub fn add_file(&mut self, path: String, content: String) -> (r: FileId)
        requires
            old(self).wf(),
            old(self).sources().len() < u32::MAX,
        ensures
            final(self).wf(),
            r.0 == old(self).sources().len(),
            final(self).sources().len() == old(self).sources().len() + 1,
            final(self).sources().subrange(0, r.0 as int) == old(self).sources(),
            final(self).sources()[r.0 as int].name == path,
            final(self).sources()[r.0 as int].content == content,
    {
        self.source_manager.add_file(path, content)
    }

    /// A diagnostic of `category` and `code` at `span`.
    fn diagnostic(&self, category: ErrorCategory, code: ErrorCode, message: String, span: &Span) -> (r: Result<CompileDiagnostic, String>)
        requires
            self.wf(),
        ensures
            diagnostic_built(self.sources(), category, code, message@, span, r),
    {
        DiagnosticBuilder::new(category, code, message).build(span, &self.source_manager)
    }

    /// A parse error at `span`, with code `UnexpectedToken`.
    pub fn parse_error(&self, message: String, span: &Span) -> (r: Result<CompileDiagnostic, String>)
        requires
            self.wf(),
        ensures
            diagnostic_built(self.sources(), ErrorCategory::Parse, ErrorCode::UnexpectedToken, message@, span, r),
    {
        self.diagnostic(ErrorCategory::Parse, ErrorCode::UnexpectedToken, message, span)
    }

    /// A semantic error at `span`.
    pub fn semantic_error(&self, code: ErrorCode, message: String, span: &Span) -> (r: Result<CompileDiagnostic, String>)
        requires
            self.wf(),
        ensures
            diagnostic_built(self.sources(), ErrorCategory::Semantic, code, message@, span, r),
    {
        self.diagnostic(ErrorCategory::Semantic, code, message, span)
    }

    /// A lexical error at `span`.
    pub fn lexical_error(&self, code: ErrorCode, message: String, span: &Span) -> (r: Result<CompileDiagnostic, String>)
        requires
            self.wf(),
        ensures
            diagnostic_built(self.sources(), ErrorCategory::Lexical, code, message@, span, r),
    {
        self.diagnostic(ErrorCategory::Lexical, code, message, span)
    }

    /// A code generation error at `span`, with code `CodegenError`.
    pub fn codegen_error(&self, message: String, span: &Span) -> (r: Result<CompileDiagnostic, String>)
        requires
            self.wf(),
        ensures
            diagnostic_built(self.sources(), ErrorCategory::Codegen, ErrorCode::CodegenError, message@, span, r),
    {
        self.diagnostic(ErrorCategory::Codegen, ErrorCode::CodegenError, message, span)
    }
}

/// `r` is the diagnostic of `category`, `code` and `message` placed at
/// `span` in `files`, with the default label; or `File not found` when the
/// span's file is not among `files`.
pub open spec fn diagnostic_built(
    files: Seq<SourceFile>,
    category: ErrorCategory,
    code: ErrorCode,
    message: Seq<char>,
    span: &Span,
    r: Result<CompileDiagnostic, String>,
) -> bool {
    &&& (r is Ok <==> span.file.0 < files.len())
    &&& (r matches Err(e) ==> e@ == "File not found"@)
    &&& (r matches Ok(d) ==> {
        &&& d.src matches Some(f) && f.name == files[span.file.0 as int].name
            && f.content == files[span.file.0 as int].content
        &&& d.span.0 == span.range.start
        &&& d.span.1 == if span.range.end > span.range.start { span.range.end - span.range.start } else { 0 }
        &&& d.code@ == crate::diagnostics::error_code::code_text(crate::diagnostics::error_code::code_value(code))
        &&& d.category == category
        &&& d.error_type == crate::diagnostics::category::type_of_category(category)
        &&& d.message@ == message
        &&& d.label_message@ == crate::diagnostics::diagnostic::default_label()
    })
}

/// The code of a lexer error, chosen by what its message mentions.
pub open spec fn lexical_code_of(message: Seq<char>) -> ErrorCode {
    if occurs_in("Unterminated comment"@, message) {
        ErrorCode::UnterminatedComment
    } else if occurs_in("Unterminated string"@, message) {
        ErrorCode::UnterminatedString
    } else if occurs_in("Invalid escape sequence"@, message) {
        ErrorCode::InvalidEscapeSequence
    } else {
        ErrorCode::InvalidCharacter
    }
}

/// The error code for a lexer error message.
pub fn lexical_error_code(message: &str) -> (r: ErrorCode)
    ensures
        r == lexical_code_of(message@),
{
    if contains_str(message, "Unterminated comment") {
        ErrorCode::UnterminatedComment
    } else if contains_str(message, "Unterminated string") {
        ErrorCode::UnterminatedString
    } else if contains_str(message, "Invalid escape sequence") {
        ErrorCode::InvalidEscapeSequence
    } else {
        ErrorCode::InvalidCharacter
    }
}

/// Where a semantic error points.
pub open spec fn semantic_error_loc(e: SemanticError) -> SourceLoc {
    match e {
        SemanticError::MapError(me) => match me {
            MapValidationError::DuplicateMapName(_, l) => l,
            MapValidationError::InvalidMaxEntries(l) => l,
            MapValidationError::InvalidType(l) => l,
            MapValidationError::MissingKey(l) => l,
            MapValidationError::MissingValue(l) => l,
            MapValidationError::UnexpectedKeyValue(l) => l,
            MapValidationError::UnknownMapMethod(_, l) => l,
            MapValidationError::InvalidMapMethodArity(_, _, _, l) => l,
            MapValidationError::UnknownMapName(_, l) => l,
        },
        SemanticError::EventError(ee) => match ee {
            EventValidationError::DuplicateEventName(_, l) => l,
            EventValidationError::EmptyEvent(_, l) => l,
            EventValidationError::DuplicateField(_, l) => l,
            EventValidationError::ZeroLengthArray(l) => l,
            EventValidationError::NestedArray(l) => l,
            EventValidationError::EventTooLarge(_, _, l) => l,
        },
        SemanticError::UnitError(ue) => match ue {
            UnitValidationError::EmptyUnitName(l) => l,
            UnitValidationError::NoSections(l) => l,
            UnitValidationError::InvalidSection(l) => l,
            UnitValidationError::MissingLicense(l) => l,
            UnitValidationError::NoReturnOrInstructions(l) => l,
        },
    }
}

/// The error code reported for a semantic error.
pub open spec fn semantic_error_code(e: SemanticError) -> ErrorCode {
    match e {
        SemanticError::MapError(me) => match me {
            MapValidationError::DuplicateMapName(_, _) => ErrorCode::DuplicateIdentifier,
            MapValidationError::InvalidType(_) => ErrorCode::InvalidMapType,
            _ => ErrorCode::InvalidMapDeclaration,
        },
        SemanticError::EventError(ee) => match ee {
            EventValidationError::DuplicateEventName(_, _) => ErrorCode::DuplicateIdentifier,
            _ => ErrorCode::InvalidEventDeclaration,
        },
        SemanticError::UnitError(ue) => match ue {
            UnitValidationError::NoSections(_) => ErrorCode::InvalidSectionType,
            UnitValidationError::InvalidSection(_) => ErrorCode::InvalidSectionType,
            _ => ErrorCode::InvalidProgramType,
        },
    }
}

/// `pre`, then `name` in single quotes, then `post`.
pub open spec fn quoted(pre: Seq<char>, name: Seq<char>, post: Seq<char>) -> Seq<char> {
    pre + name + post
}

/// The message reported for a semantic error.
pub open spec fn semantic_error_message(e: SemanticError) -> Seq<char> {
    match e {
        SemanticError::MapError(me) => match me {
            MapValidationError::DuplicateMapName(n, _) => quoted("Duplicate map name: '"@, n@, "'"@),
            MapValidationError::InvalidMaxEntries(_) => "Map 'max_entries' must be greater than zero"@,
            MapValidationError::InvalidType(_) => "Invalid map type"@,
            MapValidationError::MissingKey(_) => "Map missing required field: key"@,
            MapValidationError::MissingValue(_) => "Map missing required field: value"@,
            MapValidationError::UnexpectedKeyValue(_) => "This map type must not define key/value"@,
            MapValidationError::UnknownMapMethod(m, _) => quoted("Unknown map method '"@, m@, "'"@),
            MapValidationError::InvalidMapMethodArity(m, expected, got, _) =>
                "Map method '"@ + m@ + "' expects "@ + decimal(expected as nat) + " args, got "@ + decimal(got as nat),
            MapValidationError::UnknownMapName(n, _) => quoted("Unknown map '"@, n@, "'"@),
        },
        SemanticError::EventError(ee) => match ee {
            EventValidationError::DuplicateEventName(n, _) => quoted("Duplicate event name: '"@, n@, "'"@),
            EventValidationError::EmptyEvent(n, _) => quoted("Event '"@, n@, "' must contain at least one field"@),
            EventValidationError::DuplicateField(n, _) => quoted("Duplicate field '"@, n@, "' in event"@),
            EventValidationError::ZeroLengthArray(_) => "Array length must be greater than zero"@,
            EventValidationError::NestedArray(_) => "Nested arrays are not allowed in event fields"@,
            EventValidationError::EventTooLarge(n, size, _) =>
                "Event '"@ + n@ + "' exceeds maximum allowed size ("@ + decimal(size as nat) + " bytes)"@,
        },
        SemanticError::UnitError(ue) => match ue {
            UnitValidationError::EmptyUnitName(_) => "Unit name cannot be empty"@,
            UnitValidationError::NoSections(_) => "Unit must have at least one section"@,
            UnitValidationError::InvalidSection(_) => "Invalid section name"@,
            UnitValidationError::MissingLicense(_) => "License is required for eBPF programs"@,
            UnitValidationError::NoReturnOrInstructions(_) => "Unit must have at least one return statement or instruction"@,
        },
    }
}

/// The location a semantic error is reported at.
pub fn semantic_loc(e: &SemanticError) -> (r: SourceLoc)
    ensures
        r == semantic_error_loc(*e),
{
    match e {
        SemanticError::MapError(me) => match me {
            MapValidationError::DuplicateMapName(_, l) => *l,
            MapValidationError::InvalidMaxEntries(l) => *l,
            MapValidationError::InvalidType(l) => *l,
            MapValidationError::MissingKey(l) => *l,
            MapValidationError::MissingValue(l) => *l,
            MapValidationError::UnexpectedKeyValue(l) => *l,
            MapValidationError::UnknownMapMethod(_, l) => *l,
            MapValidationError::InvalidMapMethodArity(_, _, _, l) => *l,
            MapValidationError::UnknownMapName(_, l) => *l,
        },
        SemanticError::EventError(ee) => match ee {
            EventValidationError::DuplicateEventName(_, l) => *l,
            EventValidationError::EmptyEvent(_, l) => *l,
            EventValidationError::DuplicateField(_, l) => *l,
            EventValidationError::ZeroLengthArray(l) => *l,
            EventValidationError::NestedArray(l) => *l,
            EventValidationError::EventTooLarge(_, _, l) => *l,
        },
        SemanticError::UnitError(ue) => match ue {
            UnitValidationError::EmptyUnitName(l) => *l,
            UnitValidationError::NoSections(l) => *l,
            UnitValidationError::InvalidSection(l) => *l,
            UnitValidationError::MissingLicense(l) => *l,
            UnitValidationError::NoReturnOrInstructions(l) => *l,
        },
    }
}

/// The error code and message a semantic error is reported with.
pub fn semantic_code_and_message(e: &SemanticError) -> (r: (ErrorCode, String))
    ensures
        r.0 == semantic_error_code(*e),
        r.1@ == semantic_error_message(*e),
{
    match e {
        SemanticError::MapError(me) => match me {
            MapValidationError::DuplicateMapName(n, _) =>
                (ErrorCode::DuplicateIdentifier, concat3("Duplicate map name: '", n.as_str(), "'")),
            MapValidationError::InvalidMaxEntries(_) =>
                (ErrorCode::InvalidMapDeclaration, owned("Map 'max_entries' must be greater than zero")),
            MapValidationError::InvalidType(_) => (ErrorCode::InvalidMapType, owned("Invalid map type")),
            MapValidationError::MissingKey(_) =>
                (ErrorCode::InvalidMapDeclaration, owned("Map missing required field: key")),
            MapValidationError::MissingValue(_) =>
                (ErrorCode::InvalidMapDeclaration, owned("Map missing required field: value")),
            MapValidationError::UnexpectedKeyValue(_) =>
                (ErrorCode::InvalidMapDeclaration, owned("This map type must not define key/value")),
            MapValidationError::UnknownMapMethod(m, _) =>
                (ErrorCode::InvalidMapDeclaration, concat3("Unknown map method '", m.as_str(), "'")),
            MapValidationError::InvalidMapMethodArity(m, expected, got, _) => {
                let mut s = concat3("Map method '", m.as_str(), "' expects ");
                let ex = u64_to_decimal(*expected as u64);
                s.append(ex.as_str());
                s.append(" args, got ");
                let g = u64_to_decimal(*got as u64);
                s.append(g.as_str());
                (ErrorCode::InvalidMapDeclaration, s)
            },
            MapValidationError::UnknownMapName(n, _) =>
                (ErrorCode::InvalidMapDeclaration, concat3("Unknown map '", n.as_str(), "'")),
        },
        SemanticError::EventError(ee) => match ee {
            EventValidationError::DuplicateEventName(n, _) =>
                (ErrorCode::DuplicateIdentifier, concat3("Duplicate event name: '", n.as_str(), "'")),
            EventValidationError::EmptyEvent(n, _) =>
                (ErrorCode::InvalidEventDeclaration, concat3("Event '", n.as_str(), "' must contain at least one field")),
            EventValidationError::DuplicateField(n, _) =>
                (ErrorCode::InvalidEventDeclaration, concat3("Duplicate field '", n.as_str(), "' in event")),
            EventValidationError::ZeroLengthArray(_) =>
                (ErrorCode::InvalidEventDeclaration, owned("Array length must be greater than zero")),
            EventValidationError::NestedArray(_) =>
                (ErrorCode::InvalidEventDeclaration, owned("Nested arrays are not allowed in event fields")),
            EventValidationError::EventTooLarge(n, size, _) => {
                let mut s = concat3("Event '", n.as_str(), "' exceeds maximum allowed size (");
                let sz = u64_to_decimal(*size as u64);
                s.append(sz.as_str());
                s.append(" bytes)");
                (ErrorCode::InvalidEventDeclaration, s)
            },
        },
        SemanticError::UnitError(ue) => match ue {
            UnitValidationError::EmptyUnitName(_) =>
                (ErrorCode::InvalidProgramType, owned("Unit name cannot be empty")),
            UnitValidationError::NoSections(_) =>
                (ErrorCode::InvalidSectionType, owned("Unit must have at least one section")),
            UnitValidationError::InvalidSection(_) =>
                (ErrorCode::InvalidSectionType, owned("Invalid section name")),
            UnitValidationError::MissingLicense(_) =>
                (ErrorCode::InvalidProgramType, owned("License is required for eBPF programs")),
            UnitValidationError::NoReturnOrInstructions(_) =>
                (ErrorCode::InvalidProgramType, owned("Unit must have at least one return statement or instruction")),
        },
    }
}

/// What a failed compilation reports: a diagnostic placed in the source,
/// or a bare message when the source file is not registered or the failure
/// has no place.
pub enum CompileFailure {
    Diagnostic(CompileDiagnostic),
    Message(String),
}

/// The failure reported for a diagnostic attempt `d` whose bare message is `m`.
pub open spec fn failure_of(d: Result<CompileDiagnostic, String>, m: Seq<char>, r: CompileFailure) -> bool {
    match d {
        Ok(diag) => r == CompileFailure::Diagnostic(diag),
        Err(_) => r matches CompileFailure::Message(s) && s@ == m,
    }
}

/// `r` reports a diagnostic of `category`, `code` and `message` on the
/// character at `offset` of `file`, or `fallback` when the file is unknown.
pub open spec fn reported_at(
    files: Seq<SourceFile>,
    category: ErrorCategory,
    code: ErrorCode,
    message: Seq<char>,
    fallback: Seq<char>,
    file: FileId,
    offset: usize,
    r: CompileFailure,
) -> bool {
    exists|span: Span, d: Result<CompileDiagnostic, String>| {
        &&& span.file == file
        &&& span.range.start == offset
        &&& span.range.end == offset.wrapping_add(1)
        &&& #[trigger] diagnostic_built(files, category, code, message, &span, d)
        &&& failure_of(d, fallback, r)
    }
}

/// The one-character span at `offset` in `file`.
fn point_span(file: FileId, offset: usize) -> (r: Span)
    ensures
        r.file == file,
        r.range.start == offset,
        r.range.end == offset.wrapping_add(1),
{
    Span::new(file, offset..offset.wrapping_add(1))
}

/// The failure reported for a lexer error: a lexical diagnostic at the
/// error's offset, with the code its message selects.
pub fn lexical_failure(handler: &ErrorHandler, file: FileId, err: (SourceLoc, String)) -> (r: CompileFailure)
    requires
        handler.wf(),
    ensures
        reported_at(handler.sources(), ErrorCategory::Lexical, lexical_code_of(err.1@), err.1@, err.1@, file,
            err.0.offset, r),
{
    let span = point_span(file, err.0.offset);
    let code = lexical_error_code(err.1.as_str());
    let msg = err.1;
    let d = handler.lexical_error(code, msg.clone(), &span);
    let ghost dd = d;
    let r = match d {
        Ok(diag) => CompileFailure::Diagnostic(diag),
        Err(_) => CompileFailure::Message(msg),
    };
    assert(failure_of(dd, err.1@, r));
    r
}

/// The failure reported for a parse error: a parse diagnostic with code
/// `UnexpectedToken` at the error's offset.
pub fn parse_failure(handler: &ErrorHandler, file: FileId, err: (SourceLoc, String)) -> (r: CompileFailure)
    requires
        handler.wf(),
    ensures
        reported_at(handler.sources(), ErrorCategory::Parse, ErrorCode::UnexpectedToken, err.1@, err.1@, file,
            err.0.offset, r),
{
    let span = point_span(file, err.0.offset);
    let msg = err.1;
    let d = handler.parse_error(msg.clone(), &span);
    let ghost dd = d;
    let r = match d {
        Ok(diag) => CompileFailure::Diagnostic(diag),
        Err(_) => CompileFailure::Message(msg),
    };
    assert(failure_of(dd, err.1@, r));
    r
}

/// The text of a semantic error without a place.
pub open spec fn semantic_summary(e: SemanticError) -> Seq<char> {
    match e {
        SemanticError::MapError(_) => "Semantic error: Map validation failed"@,
        SemanticError::UnitError(_) => "Semantic error: Unit validation failed"@,
        SemanticError::EventError(_) => "Semantic error: Event validation failed"@,
    }
}

/// The failure reported for a semantic error: a semantic diagnostic at the
/// error's location with the code and message chosen for it.
pub fn semantic_failure(handler: &ErrorHandler, file: FileId, err: &SemanticError) -> (r: CompileFailure)
    requires
        handler.wf(),
    ensures
        reported_at(handler.sources(), ErrorCategory::Semantic, semantic_error_code(*err), semantic_error_message(*err),
            semantic_summary(*err), file, semantic_error_loc(*err).offset, r),
{
    let loc = semantic_loc(err);
    let span = point_span(file, loc.offset);
    let (code, msg) = semantic_code_and_message(err);
    let d = handler.semantic_error(code, msg, &span);
    let ghost dd = d;
    let r = match d {
        Ok(diag) => CompileFailure::Diagnostic(diag),
        Err(_) => CompileFailure::Message(match err {
            SemanticError::MapError(_) => owned("Semantic error: Map validation failed"),
            SemanticError::UnitError(_) => owned("Semantic error: Unit validation failed"),
            SemanticError::EventError(_) => owned("Semantic error: Event validation failed"),
        }),
    };
    assert(failure_of(dd, semantic_summary(*err), r));
    r
}

/// The failure reported when code generation fails: a code generation
/// diagnostic on the first character, `Code generation failed: ` and the
/// back end's message.
pub fn codegen_failure(handler: &ErrorHandler, file: FileId, err: String) -> (r: CompileFailure)
    requires
        handler.wf(),
    ensures
        reported_at(handler.sources(), ErrorCategory::Codegen, ErrorCode::CodegenError,
            "Code generation failed: "@ + err@, "Code generation failed: "@ + err@, file, 0, r),
{
    let span = point_span(file, 0);
    let msg = concat2("Code generation failed: ", err.as_str());
    let d = handler.codegen_error(msg.clone(), &span);
    let ghost dd = d;
    let r = match d {
        Ok(diag) => CompileFailure::Diagnostic(diag),
        Err(_) => CompileFailure::Message(msg),
    };
    assert(failure_of(dd, "Code generation failed: "@ + err@, r));
    r
}

/// Whether every field of every event has a layout.
pub fn events_have_layouts(events: &Vec<EventDecl>) -> (r: bool)
    ensures
        r == decls_valid(events@),
{
    let mut i: usize = 0;
    while i < events.len()
        invariant
            i <= events@.len(),
            forall|j: int| 0 <= j < i ==> fields_valid((#[trigger] events@[j]).fields@),
        decreases events@.len() - i,
    {
        let fields = &events[i].fields;
        let mut k: usize = 0;
        while k < fields.len()
            invariant
                i < events@.len(),
                fields@ == events@[i as int].fields@,
                k <= fields@.len(),
                forall|j: int| 0 <= j < k ==> (#[trigger] crate::sema::event::type_layout(fields@[j].ty)) is Some,
            decreases fields@.len() - k,
        {
            match validate_event_type(&fields[k].ty, fields[k].loc) {
                Ok(_) => {},
                Err(_) => {
                    assert(crate::sema::event::type_layout(events@[i as int].fields@[k as int].ty) is None);
                    assert(!fields_valid(events@[i as int].fields@));
                    return false;
                },
            }
            k = k + 1;
        }
        i = i + 1;
    }
    true
}

/// The program a token stream declares, if it parses.
pub open spec fn parse_outcome(toks: Seq<Token>) -> Option<ProgramItems> {
    match spec_parse(toks) {
        Ok((items, _)) => Some(items),
        Err(_) => None,
    }
}

/// What is wrong with a unit as the grammar describes it, checked in the
/// order `check_unit` uses.
pub open spec fn items_unit_error(u: (Seq<char>, SourceLoc, UnitItems)) -> Option<UnitValidationError> {
    let (name, loc, it) = u;
    if name.len() == 0 {
        Some(UnitValidationError::EmptyUnitName(loc))
    } else if it.sections.len() == 0 {
        Some(UnitValidationError::NoSections(loc))
    } else if !(forall|i: int| 0 <= i < it.sections.len() ==> section_kind(#[trigger] it.sections[i]) != ProgramKind::Unknown) {
        Some(UnitValidationError::InvalidSection(loc))
    } else if it.license is None {
        Some(UnitValidationError::MissingLicense(loc))
    } else if it.body.len() == 0 {
        Some(UnitValidationError::NoReturnOrInstructions(loc))
    } else {
        None
    }
}

/// The first unit error, in declaration order.
pub open spec fn first_items_unit_error(units: Seq<(Seq<char>, SourceLoc, UnitItems)>) -> Option<UnitValidationError>
    decreases units.len(),
{
    if units.len() == 0 {
        None
    } else {
        match first_items_unit_error(units.drop_last()) {
            Some(e) => Some(e),
            None => items_unit_error(units.last()),
        }
    }
}

/// What validation reports first for a parsed program: a map error, else
/// an event error, else a unit error.
pub open spec fn items_semantic_error(items: ProgramItems) -> Option<SemanticError> {
    match first_map_error(items.maps) {
        Some(e) => Some(SemanticError::MapError(e)),
        None => match first_event_error(items.events) {
            Some(e) => Some(SemanticError::EventError(e)),
            None => match first_items_unit_error(items.units) {
                Some(e) => Some(SemanticError::UnitError(e)),
                None => None,
            },
        },
    }
}

/// Every field of every declared event has a layout.
pub open spec fn items_events_valid(events: Seq<(String, Seq<EventField>, SourceLoc)>) -> bool {
    forall|i: int| 0 <= i < events.len() ==> fields_valid((#[trigger] events[i]).1)
}

proof fn lemma_stmts_model_len(s: Seq<Stmt>)
    ensures
        stmts_model(s).len() == s.len(),
    decreases s.len(),
{
    if s.len() > 0 {
        lemma_stmts_model_len(s.subrange(0, s.len() - 1));
    }
}

proof fn lemma_unit_error_view(u: Unit)
    ensures
        unit_error(u) == items_unit_error(unit_view(u)),
{
    lemma_stmts_model_len(u.body@);
    let texts = section_texts(u.sections@);
    assert(texts.len() == u.sections@.len());
    assert((forall|i: int| 0 <= i < texts.len() ==> section_kind(#[trigger] texts[i]) != ProgramKind::Unknown)
        == sections_valid(u.sections@)) by {
        if sections_valid(u.sections@) {
            assert forall|i: int| 0 <= i < texts.len() implies section_kind(#[trigger] texts[i]) != ProgramKind::Unknown by {
                assert(texts[i] == u.sections@[i]@);
            }
        }
        if forall|i: int| 0 <= i < texts.len() ==> section_kind(#[trigger] texts[i]) != ProgramKind::Unknown {
            assert forall|i: int| 0 <= i < u.sections@.len() implies section_kind((#[trigger] u.sections@[i])@) != ProgramKind::Unknown by {
                assert(texts[i] == u.sections@[i]@);
            }
        }
    }
}

proof fn lemma_first_unit_error_view(units: Seq<Unit>)
    ensures
        first_unit_error(units) == first_items_unit_error(units_view(units)),
    decreases units.len(),
{
    if units.len() > 0 {
        lemma_first_unit_error_view(units.drop_last());
        assert(units_view(units).drop_last() =~= units_view(units.drop_last()));
        lemma_unit_error_view(units.last());
    }
}

proof fn lemma_events_valid_view(events: Seq<EventDecl>)
    ensures
        decls_valid(events) == items_events_valid(events_view(events)),
{
    let v = events_view(events);
    if decls_valid(events) {
        assert forall|i: int| 0 <= i < v.len() implies fields_valid((#[trigger] v[i]).1) by {
            assert(v[i].1 == events[i].fields@);
        }
    }
    if items_events_valid(v) {
        assert forall|i: int| 0 <= i < events.len() implies fields_valid((#[trigger] events[i]).fields@) by {
            assert(v[i].1 == events[i].fields@);
        }
    }
}

/// The program kind a unit's sections select.
pub open spec fn items_kind(sections: Seq<Seq<char>>) -> ProgramKind {
    if sections.len() > 0 { section_kind(sections[0]) } else { ProgramKind::Unknown }
}

/// Each event's record size, by name.
pub open spec fn items_event_sizes(events: Seq<(String, Seq<EventField>, SourceLoc)>) -> Seq<(Seq<char>, u32)> {
    Seq::new(events.len(), |j: int| (events[j].0@, event_size(events[j].1)))
}

/// Each event's name and fields.
pub open spec fn items_decl_fields(events: Seq<(String, Seq<EventField>, SourceLoc)>) -> Seq<(Seq<char>, Seq<EventField>)> {
    Seq::new(events.len(), |j: int| (events[j].0@, events[j].1))
}

/// How a unit, as the grammar describes it, lowers: each unit sees every
/// event's size and fields.
pub open spec fn items_unit_lowering(u: (Seq<char>, SourceLoc, UnitItems), events: Seq<(String, Seq<EventField>, SourceLoc)>)
    -> Result<StmtState, Seq<char>> {
    spec_lower_unit_body(items_kind(u.2.sections), items_event_sizes(events), items_decl_fields(events), u.2.body)
}

/// Unit `i` is the first whose lowering fails, with message `m`.
pub open spec fn first_lowering_failure(items: ProgramItems, i: int, m: Seq<char>) -> bool {
    &&& 0 <= i < items.units.len()
    &&& forall|j: int| 0 <= j < i ==> (#[trigger] items_unit_lowering(items.units[j], items.events)) is Ok
    &&& items_unit_lowering(items.units[i], items.events) == Err::<StmtState, Seq<char>>(m)
}

/// Every unit lowers.
pub open spec fn items_lower(items: ProgramItems) -> bool {
    forall|i: int| 0 <= i < items.units.len() ==> (#[trigger] items_unit_lowering(items.units[i], items.events)) is Ok
}

/// The failure reported for a lowering failure with message `m`.
pub open spec fn lowering_message(m: Seq<char>) -> Seq<char> {
    "Lowering failed: UnitLowering(\""@ + m + "\")"@
}

/// Why the native back end refuses a unit, as the grammar describes it.
pub open spec fn items_native_unit_error(u: (Seq<char>, SourceLoc, UnitItems)) -> Option<Seq<char>> {
    let secs = u.2.sections;
    if secs.len() == 0 {
        Some("unit '"@ + u.0 + "' has no section"@)
    } else if !(items_kind(secs) == ProgramKind::Tracepoint && is_prefix_of("tracepoint/"@, secs[0])) {
        Some("native Rust backend currently supports only tracepoint sections, got '"@ + secs[0] + "'"@)
    } else {
        None
    }
}

/// The first refused unit's error, if any.
pub open spec fn items_native_error(units: Seq<(Seq<char>, SourceLoc, UnitItems)>) -> Option<Seq<char>>
    decreases units.len(),
{
    if units.len() == 0 {
        None
    } else {
        match items_native_error(units.drop_last()) {
            Some(e) => Some(e),
            None => items_native_unit_error(units.last()),
        }
    }
}

/// A unit lowers as its grammar description does.
proof fn lemma_items_lowering(program: crate::ast::program::Program, i: int)
    requires
        0 <= i < program.units@.len(),
        program.units@[i].kind == crate::parser::unit::kind_of_sections(program.units@[i].sections@),
    ensures
        items_unit_lowering(program_view(program).units[i], program_view(program).events)
            == unit_lowering(program.units@[i], program.events@),
{
    let items = program_view(program);
    let u = program.units@[i];
    assert(items.units[i] == unit_view(u));
    assert(items_event_sizes(items.events) =~= sizes_view(event_sizes_of(program.events@)));
    assert(items_decl_fields(items.events) =~= decl_fields(program.events@));
    if u.sections@.len() > 0 {
        assert(section_texts(u.sections@)[0] == u.sections@[0]@);
    }
}

/// The native back end refuses lowered units as it refuses their grammar
/// descriptions.
proof fn lemma_items_native_prefix(ir_units: Seq<UnitIr>, units: Seq<Unit>)
    requires
        ir_units.len() == units.len(),
        forall|i: int| 0 <= i < ir_units.len() ==> {
            &&& (#[trigger] ir_units[i]).name == units[i].name
            &&& ir_units[i].sections@ == units[i].sections@
            &&& ir_units[i].program_type == units[i].kind
            &&& units[i].kind == crate::parser::unit::kind_of_sections(units[i].sections@)
        },
    ensures
        first_native_error(ir_units) == items_native_error(units_view(units)),
    decreases ir_units.len(),
{
    if ir_units.len() > 0 {
        let n = ir_units.len() - 1;
        let iu = ir_units.drop_last();
        let pu = units.drop_last();
        assert(units_view(units).drop_last() =~= units_view(pu));
        assert forall|i: int| 0 <= i < iu.len() implies {
            &&& (#[trigger] iu[i]).name == pu[i].name
            &&& iu[i].sections@ == pu[i].sections@
            &&& iu[i].program_type == pu[i].kind
            &&& pu[i].kind == crate::parser::unit::kind_of_sections(pu[i].sections@)
        } by {
            assert(iu[i] == ir_units[i]);
            assert(pu[i] == units[i]);
        }
        lemma_items_native_prefix(iu, pu);
        let u = units[n];
        assert(units_view(units).last() == unit_view(u));
        assert(ir_units.last() == ir_units[n]);
        if u.sections@.len() > 0 {
            assert(section_texts(u.sections@)[0] == u.sections@[0]@);
        }
    }
}

/// Whether a file extension names a source file: it is exactly `snx`.
pub fn is_source_extension(ext: Option<&str>) -> (r: bool)
    ensures
        r <==> (ext matches Some(e) && e@ == "snx"@),
{
    match ext {
        Some(e) => str_eq(e, "snx"),
        None => false,
    }
}

/// `r` is what compiling a lowered program `ir` gives: the object file the
/// native back end writes, or its failure reported as a code generation
/// error.
pub open spec fn compiled_as(sources: Seq<SourceFile>, file: FileId, ir: ProgramIr, r: Result<Vec<u8>, CompileFailure>) -> bool {
    match r {
        Ok(b) => native_outcome(ir, Ok(b@)),
        Err(f) => exists|m: Seq<char>| native_outcome(ir, Err(m)) && #[trigger] reported_at(sources, ErrorCategory::Codegen,
            ErrorCode::CodegenError, "Code generation failed: "@ + m, "Code generation failed: "@ + m, file, 0, f),
    }
}

/// Lowers a validated program and generates its object with the native
/// back end, reporting the first unit whose lowering fails, else what code
/// generation gives for the lowered program.
#[verifier::rlimit(100)]
#[verifier::spinoff_prover]
pub fn lower_and_emit(handler: &ErrorHandler, file: FileId, program: &Program) -> (r: Result<Vec<u8>, CompileFailure>)
    requires
        handler.wf(),
        decls_valid(program.events@),
        forall|i: int| 0 <= i < program.units@.len() ==> (#[trigger] program.units@[i]).kind
            == crate::parser::unit::kind_of_sections(program.units@[i].sections@),
    ensures
        ({
            let items = program_view(*program);
            &&& forall|i: int, m: Seq<char>| #[trigger] first_lowering_failure(items, i, m)
                ==> (r matches Err(CompileFailure::Message(x)) && x@ == lowering_message(m))
            &&& items_lower(items) ==> exists|ir: ProgramIr| #[trigger] lowered_from(*program, ir)
                && compiled_as(handler.sources(), file, ir, r)
            &&& items_lower(items) ==> (items_native_error(items.units) matches Some(e) ==> r matches Err(f)
                && reported_at(handler.sources(), ErrorCategory::Codegen, ErrorCode::CodegenError,
                    "Code generation failed: "@ + e, "Code generation failed: "@ + e, file, 0, f))
        }),
        r matches Ok(b) ==> is_bpf_elf(b@),
        r is Ok ==> items_lower(program_view(*program)) && forall|i: int| 0 <= i < program_view(*program).units.len()
            ==> (#[trigger] program_view(*program).units[i]).2.sections.len() > 0
                && is_prefix_of("tracepoint/"@, program_view(*program).units[i].2.sections[0]),
{
    let ghost items = program_view(*program);
    proof {
        assert forall|i: int| 0 <= i < program.units@.len() implies
            #[trigger] items_unit_lowering(items.units[i], items.events) == unit_lowering(program.units@[i], program.events@) by {
            lemma_items_lowering(*program, i);
        }
    }
    let ir = match crate::ir::program::lower_program(program) {
        Ok(ir) => ir,
        Err(LoweringError::UnitLowering(m)) => {
            let msg = concat3("Lowering failed: UnitLowering(\"", m.as_str(), "\")");
            proof {
                let i0 = choose|i: int| {
                    &&& 0 <= i < program.units@.len()
                    &&& (forall|j: int| 0 <= j < i ==> (#[trigger] unit_lowering(program.units@[j], program.events@)) is Ok)
                    &&& unit_lowering(program.units@[i], program.events@) == Err::<StmtState, Seq<char>>(m@)
                };
                assert(items_unit_lowering(items.units[i0], items.events) == unit_lowering(program.units@[i0], program.events@));
                assert forall|i: int, mm: Seq<char>| #[trigger] first_lowering_failure(items, i, mm) implies mm == m@ by {
                    if i < i0 {
                        assert(items_unit_lowering(items.units[i], items.events) == unit_lowering(program.units@[i], program.events@));
                    } else if i > i0 {
                        assert(items_unit_lowering(items.units[i0], items.events) is Ok);
                    }
                }
                assert(!items_lower(items)) by {
                    assert(items_unit_lowering(items.units[i0], items.events) is Err);
                }
                assert(msg@ == lowering_message(m@));
            }
            return Err(CompileFailure::Message(msg));
        },
    };
    proof {
        assert(items_lower(items)) by {
            assert forall|i: int| 0 <= i < items.units.len() implies (#[trigger] items_unit_lowering(items.units[i], items.events)) is Ok by {
                assert(items_unit_lowering(items.units[i], items.events) == unit_lowering(program.units@[i], program.events@));
            }
        }
        assert forall|i: int, mm: Seq<char>| #[trigger] first_lowering_failure(items, i, mm) implies false by {
            assert(items_unit_lowering(items.units[i], items.events) is Ok);
        }
        assert(lowered_from(*program, ir));
        lemma_items_native_prefix(ir.units@, program.units@);
        assert(items.units == units_view(program.units@));
    }
    let out = crate::emit::ebpf::emit_program(&ir);
    match out {
        Ok(bytes) => {
            proof {
                assert(lowered_from(*program, ir) && compiled_as(handler.sources(), file, ir, Ok::<Vec<u8>, CompileFailure>(bytes)));
                assert forall|i: int| 0 <= i < items.units.len() implies (#[trigger] items.units[i]).2.sections.len() > 0
                    && is_prefix_of("tracepoint/"@, items.units[i].2.sections[0]) by {
                    lemma_no_native_error(ir.units@, i);
                    assert(items.units[i] == unit_view(program.units@[i]));
                    assert(section_texts(program.units@[i].sections@)[0] == program.units@[i].sections@[0]@);
                }
            }
            Ok(bytes)
        },
        Err(e) => {
            let ghost em = e@;
            let f = codegen_failure(handler, file, e);
            proof {
                assert(native_outcome(ir, Err(em)));
                assert(compiled_as(handler.sources(), file, ir, Err::<Vec<u8>, CompileFailure>(f)));
            }
            Err(f)
        },
    }
}

/// Compiles a token stream into an eBPF object: parse, validate, lower and
/// generate code with the native back end, reporting the first stage that
/// fails. Events whose fields lack a layout cannot be lowered and are
/// reported as a lowering failure.
#[verifier::rlimit(100)]
#[verifier::spinoff_prover]
pub fn compile_tokens(handler: &ErrorHandler, file: FileId, tokens: Vec<Token>) -> (r: Result<Vec<u8>, CompileFailure>)
    requires
        handler.wf(),
    ensures
        match spec_parse(tokens@) {
            Err(e) => r matches Err(f) && reported_at(handler.sources(), ErrorCategory::Parse, ErrorCode::UnexpectedToken,
                e.1, e.1, file, e.0.offset, f),
            Ok((items, _)) => match items_semantic_error(items) {
                Some(e) => r matches Err(f) && reported_at(handler.sources(), ErrorCategory::Semantic, semantic_error_code(e),
                    semantic_error_message(e), semantic_summary(e), file, semantic_error_loc(e).offset, f),
                None => {
                    &&& !items_events_valid(items.events) ==> (r matches Err(CompileFailure::Message(m))
                        && m@ == "Lowering failed: an event field has no layout"@)
                    &&& items_events_valid(items.events) ==> {
                        &&& forall|i: int, m: Seq<char>| #[trigger] first_lowering_failure(items, i, m)
                            ==> (r matches Err(CompileFailure::Message(x)) && x@ == lowering_message(m))
                        &&& items_lower(items) ==> exists|p: Program, ir: ProgramIr| #[trigger] lowered_from(p, ir)
                            && program_view(p) == items && compiled_as(handler.sources(), file, ir, r)
                        &&& items_lower(items) ==> (items_native_error(items.units) matches Some(e) ==> r matches Err(f)
                            && reported_at(handler.sources(), ErrorCategory::Codegen, ErrorCode::CodegenError,
                                "Code generation failed: "@ + e, "Code generation failed: "@ + e, file, 0, f))
                    }
                },
            },
        },
        r matches Ok(b) ==> is_bpf_elf(b@),
        r is Ok ==> (parse_outcome(tokens@) matches Some(items) && items_semantic_error(items) is None
            && items_events_valid(items.events)
            && forall|i: int| 0 <= i < items.units.len() ==> (#[trigger] items.units[i]).2.sections.len() > 0
                && is_prefix_of("tracepoint/"@, items.units[i].2.sections[0])),
{
    let program = match parse_tokens(tokens) {
        Ok(p) => p,
        Err(e) => return Err(parse_failure(handler, file, e)),
    };
    proof {
        lemma_first_unit_error_view(program.units@);
        lemma_events_valid_view(program.events@);
    }
    match check_program(&program) {
        Ok(()) => {},
        Err(sem) => return Err(semantic_failure(handler, file, &sem)),
    }
    if !events_have_layouts(&program.events) {
        return Err(CompileFailure::Message(owned("Lowering failed: an event field has no layout")));
    }
    let r = lower_and_emit(handler, file, &program);
    proof {
        let items = program_view(program);
        if items_lower(items) {
            let ir = choose|ir: ProgramIr| #[trigger] lowered_from(program, ir) && compiled_as(handler.sources(), file, ir, r);
            assert(lowered_from(program, ir) && program_view(program) == items && compiled_as(handler.sources(), file, ir, r));
        }
    }
    r
}

} // verus!
