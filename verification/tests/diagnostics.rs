use solnix::compiler::{lexical_error_code, ErrorHandler};
use solnix::diagnostics::category::{ErrorCategory, ErrorType};
use solnix::diagnostics::diagnostic::DiagnosticBuilder;
use solnix::diagnostics::error_code::ErrorCode;
use solnix::diagnostics::source_manager::{FileId, SourceManager, Span};

const ALL_CODES: [ErrorCode; 12] = [
    ErrorCode::UnterminatedComment,
    ErrorCode::InvalidCharacter,
    ErrorCode::UnterminatedString,
    ErrorCode::InvalidEscapeSequence,
    ErrorCode::UnexpectedToken,
    ErrorCode::InvalidMapDeclaration,
    ErrorCode::InvalidEventDeclaration,
    ErrorCode::DuplicateIdentifier,
    ErrorCode::InvalidSectionType,
    ErrorCode::InvalidProgramType,
    ErrorCode::InvalidMapType,
    ErrorCode::CodegenError,
];

#[test]
fn error_code_text_is_e_and_four_hex_digits() {
    assert_eq!(ErrorCode::UnterminatedComment.code(), "E0101");
    assert_eq!(ErrorCode::UnexpectedToken.code(), "E0201");
    assert_eq!(ErrorCode::InvalidMapType.code(), "E0309");
    assert_eq!(ErrorCode::CodegenError.code(), "E0401");
    assert_eq!(ErrorCode::InvalidMapType.value(), 0x0309);
    assert_eq!(ErrorCode::DuplicateIdentifier.as_str(), "duplicate identifier");
    assert_eq!(
        ErrorCode::UnexpectedToken.to_display_string(),
        "E0201: unexpected token"
    );
}

#[test]
fn error_code_texts_are_distinct() {
    for (i, a) in ALL_CODES.iter().enumerate() {
        for (j, b) in ALL_CODES.iter().enumerate() {
            if i != j {
                assert_ne!(a.code(), b.code());
                assert_ne!(a.value(), b.value());
            }
        }
    }
}

#[test]
fn each_stage_has_its_own_error_type() {
    assert_eq!(ErrorCategory::Lexical.to_error_type(), ErrorType::InvalidToken);
    assert_eq!(ErrorCategory::Parse.to_error_type(), ErrorType::SyntaxError);
    assert_eq!(ErrorCategory::Semantic.to_error_type(), ErrorType::TypeError);
    assert_eq!(ErrorCategory::Codegen.to_error_type(), ErrorType::InternalError);
    assert_eq!(ErrorCategory::Semantic.as_str(), "Semantic");
    assert_eq!(ErrorType::SyntaxError.as_str(), "Syntax error");
}

#[test]
fn lexer_messages_pick_their_codes() {
    assert_eq!(
        lexical_error_code("Unterminated comment starting here"),
        ErrorCode::UnterminatedComment
    );
    assert_eq!(
        lexical_error_code("Unterminated string literal"),
        ErrorCode::UnterminatedString
    );
    assert_eq!(
        lexical_error_code("Invalid escape sequence '\\q'"),
        ErrorCode::InvalidEscapeSequence
    );
    assert_eq!(lexical_error_code("Unexpected character '$'"), ErrorCode::InvalidCharacter);
    assert_eq!(lexical_error_code(""), ErrorCode::InvalidCharacter);
}

#[test]
fn source_manager_hands_back_registered_text() {
    let mut sm = SourceManager::new();
    let a = sm.add_file("a.snx".to_string(), "map m {}".to_string());
    let b = sm.add_file("b.snx".to_string(), "unit u {}".to_string());
    assert_eq!(a, FileId(0));
    assert_eq!(b, FileId(1));
    let f = sm.get_named_source(b).unwrap();
    assert_eq!(f.name, "b.snx");
    assert_eq!(f.content.as_str(), "unit u {}");
    assert!(sm.get_named_source(FileId(2)).is_none());
}

#[test]
fn span_offset_and_length() {
    assert_eq!(Span::new(FileId(0), 4..9).offset_len(), (4, 5));
    assert_eq!(Span::new(FileId(0), 9..4).offset_len(), (9, 0));
}

#[test]
fn builder_uses_default_label_and_source() {
    let mut sm = SourceManager::new();
    let id = sm.add_file("prog.snx".to_string(), "map x {".to_string());
    let d = DiagnosticBuilder::new(
        ErrorCategory::Parse,
        ErrorCode::UnexpectedToken,
        "Expected '}'".to_string(),
    )
    .build(&Span::new(id, 6..7), &sm)
    .unwrap();
    assert_eq!(d.code, "E0201");
    assert_eq!(d.category, ErrorCategory::Parse);
    assert_eq!(d.error_type, ErrorType::SyntaxError);
    assert_eq!(d.message, "Expected '}'");
    assert_eq!(d.label_message, "error here");
    assert_eq!(d.span, (6, 1));
    let src = d.src.as_ref().unwrap();
    assert_eq!(src.name, "prog.snx");
    assert_eq!(src.content.as_str(), "map x {");
    assert_eq!(d.to_display_string(), "Syntax error: E0201\n  Expected '}'");
}

#[test]
fn builder_refuses_unknown_file() {
    let sm = SourceManager::new();
    let r = DiagnosticBuilder::new(
        ErrorCategory::Semantic,
        ErrorCode::DuplicateIdentifier,
        "dup".to_string(),
    )
    .build(&Span::new(FileId(3), 0..1), &sm);
    match r {
        Err(e) => assert_eq!(e, "File not found"),
        Ok(_) => panic!("expected an error"),
    }
}

#[test]
fn handler_builds_each_kind_of_diagnostic() {
    let mut h = ErrorHandler::new();
    let id = h.add_file("x.snx".to_string(), "abcdef".to_string());
    let span = Span::new(id, 1..3);
    let p = h.parse_error("bad".to_string(), &span).unwrap();
    assert_eq!((p.category, p.code.as_str()), (ErrorCategory::Parse, "E0201"));
    let s = h
        .semantic_error(ErrorCode::InvalidSectionType, "Invalid section name".to_string(), &span)
        .unwrap();
    assert_eq!((s.category, s.error_type, s.code.as_str()), (ErrorCategory::Semantic, ErrorType::TypeError, "E0305"));
    let l = h
        .lexical_error(ErrorCode::InvalidCharacter, "odd".to_string(), &span)
        .unwrap();
    assert_eq!((l.category, l.error_type, l.code.as_str()), (ErrorCategory::Lexical, ErrorType::InvalidToken, "E0102"));
    let c = h.codegen_error("boom".to_string(), &span).unwrap();
    assert_eq!((c.category, c.error_type, c.code.as_str()), (ErrorCategory::Codegen, ErrorType::InternalError, "E0401"));
    assert_eq!(c.span, (1, 2));
    assert!(h.codegen_error("boom".to_string(), &Span::new(FileId(9), 0..1)).is_err());
}
