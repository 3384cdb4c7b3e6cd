use solnix::ast::event::{EventDecl, EventField, EventType, PrimitiveType};
use solnix::ast::unit::ProgramKind;
use solnix::emit::vars::{contains_u32, index_of_u32, sorted_unique};
use solnix::ir::ctx::CtxMethod;
use solnix::parser::token::SourceLoc;
use solnix::sema::event::{
    align_up, check_event, compute_event_size, compute_field_offset, compute_field_size, EventValidationError,
};
use solnix::sema::section::SectionValidator;
use solnix::text::{push_decimal, push_signed_decimal, sanitize_ident_or, trim_quotes_str, u64_to_decimal};

fn loc(offset: usize) -> SourceLoc {
    SourceLoc::new(1, 1, offset)
}

fn field(name: &str, ty: EventType) -> EventField {
    EventField { name: name.to_string(), ty, loc: loc(0) }
}

fn event(name: &str, fields: Vec<EventField>) -> EventDecl {
    EventDecl { name: name.to_string(), fields, loc: loc(7) }
}

#[test]
fn align_up_rounds_to_power_of_two() {
    assert_eq!(align_up(0, 4), 0);
    assert_eq!(align_up(5, 4), 8);
    assert_eq!(align_up(8, 8), 8);
    assert_eq!(align_up(9, 1), 9);
    assert_eq!(align_up(u32::MAX, 8), 0);
}

#[test]
fn exec_event_layout() {
    let e = event("exec_event", vec![field("pid", EventType::U32), field("filename", EventType::Bytes(256))]);
    assert_eq!(compute_event_size(&e), 260);
    assert_eq!(compute_field_offset(&e, "pid"), Some(0));
    assert_eq!(compute_field_offset(&e, "filename"), Some(4));
    assert_eq!(compute_field_size(&e, "filename"), Some(256));
    assert_eq!(compute_field_offset(&e, "missing"), None);
    assert_eq!(compute_field_size(&e, "missing"), None);
}

#[test]
fn fields_are_aligned_and_do_not_overlap() {
    let e = event(
        "mixed",
        vec![
            field("a", EventType::Bytes(3)),
            field("b", EventType::U64),
            field("c", EventType::U32),
            field("d", EventType::Array { elem: PrimitiveType::I64, len: 2 }),
            field("e", EventType::Bytes(1)),
        ],
    );
    let names = ["a", "b", "c", "d", "e"];
    let sizes = [3u32, 8, 4, 16, 1];
    let aligns = [1u32, 8, 4, 8, 1];
    let mut end = 0;
    for i in 0..names.len() {
        let off = compute_field_offset(&e, names[i]).unwrap();
        assert_eq!(compute_field_size(&e, names[i]), Some(sizes[i]));
        assert_eq!(off % aligns[i], 0);
        assert!(off >= end);
        end = off + sizes[i];
    }
    assert_eq!(compute_field_offset(&e, "b"), Some(8));
    assert_eq!(compute_field_offset(&e, "d"), Some(24));
    assert_eq!(compute_event_size(&e), 48);
    assert!(end <= compute_event_size(&e));
}

#[test]
fn event_checks_report_each_error() {
    let mut names = Vec::new();
    assert!(check_event(&event("ok", vec![field("x", EventType::U32)]), &mut names).is_ok());
    assert_eq!(names, vec!["ok".to_string()]);
    match check_event(&event("ok", vec![field("x", EventType::U32)]), &mut names) {
        Err(EventValidationError::DuplicateEventName(n, l)) => {
            assert_eq!(n, "ok");
            assert_eq!(l.offset, 7);
        }
        other => panic!("unexpected {:?}", other),
    }
    assert_eq!(names.len(), 1);
    match check_event(&event("empty", vec![]), &mut names) {
        Err(EventValidationError::EmptyEvent(n, _)) => assert_eq!(n, "empty"),
        other => panic!("unexpected {:?}", other),
    }
    match check_event(&event("dup", vec![field("x", EventType::U32), field("x", EventType::U64)]), &mut names) {
        Err(EventValidationError::DuplicateField(n, _)) => assert_eq!(n, "x"),
        other => panic!("unexpected {:?}", other),
    }
    match check_event(&event("zero", vec![field("b", EventType::Bytes(0))]), &mut names) {
        Err(EventValidationError::ZeroLengthArray(_)) => {}
        other => panic!("unexpected {:?}", other),
    }
    match check_event(&event("big", vec![field("b", EventType::Bytes(513))]), &mut names) {
        Err(EventValidationError::EventTooLarge(n, size, _)) => {
            assert_eq!(n, "big");
            assert_eq!(size, 513);
        }
        other => panic!("unexpected {:?}", other),
    }
    assert!(check_event(&event("max", vec![field("b", EventType::Bytes(512))]), &mut names).is_ok());
}

#[test]
fn section_names_select_program_kinds() {
    assert_eq!(ProgramKind::from_section("tracepoint/syscalls/sys_enter_execve"), ProgramKind::Tracepoint);
    assert_eq!(ProgramKind::from_section("kprobe/do_sys_open"), ProgramKind::Kprobe);
    assert_eq!(ProgramKind::from_section("kretprobe/do_sys_open"), ProgramKind::Kprobe);
    assert_eq!(ProgramKind::from_section("xdp"), ProgramKind::Xdp);
    assert_eq!(ProgramKind::from_section("classifier"), ProgramKind::Tc);
    assert_eq!(ProgramKind::from_section("raw_tracepoint/sched_switch"), ProgramKind::RawTracepoint);
    assert_eq!(ProgramKind::from_section("lsm/file_open"), ProgramKind::Lsm);
    assert_eq!(ProgramKind::from_section("bogus"), ProgramKind::Unknown);
    assert!(SectionValidator::is_valid("fentry/vfs_read"));
    assert!(!SectionValidator::is_valid("bogus"));
}

#[test]
fn ctx_method_names() {
    assert_eq!(CtxMethod::from_str("get_pid_tgid"), Some(CtxMethod::GetPidTgid));
    assert_eq!(CtxMethod::from_str("load_u32"), Some(CtxMethod::LoadU32));
    assert_eq!(CtxMethod::from_str("launch_missiles"), None);
    assert!(ProgramKind::Tracepoint.allows_ctx_method(CtxMethod::GetPidTgid));
}

#[test]
fn sanitized_names_are_identifiers() {
    assert_eq!(sanitize_ident_or("9lives-x.y", "_map"), "_lives_x_y");
    assert_eq!(sanitize_ident_or("ok_name1", "_map"), "ok_name1");
    assert_eq!(sanitize_ident_or("", "_map"), "_map");
    assert_eq!(sanitize_ident_or("é", "_sym"), "_");
    let once = sanitize_ident_or("a b-c", "_map");
    assert_eq!(sanitize_ident_or(&once, "_map"), once);
}

#[test]
fn decimal_text() {
    assert_eq!(u64_to_decimal(0), "0");
    assert_eq!(u64_to_decimal(u64::MAX), "18446744073709551615");
    let mut s = String::from("n=");
    push_decimal(&mut s, 42);
    assert_eq!(s, "n=42");
    let mut t = String::new();
    push_signed_decimal(&mut t, -42);
    push_signed_decimal(&mut t, i64::MIN);
    assert_eq!(t, "-42-9223372036854775808");
}

#[test]
fn quotes_are_trimmed_from_both_ends() {
    assert_eq!(trim_quotes_str("\"GPL\""), "GPL");
    assert_eq!(trim_quotes_str("\"\"x\""), "x");
    assert_eq!(trim_quotes_str("a\"b"), "a\"b");
    assert_eq!(trim_quotes_str("\"\""), "");
}

#[test]
fn variable_sets() {
    assert_eq!(sorted_unique(&vec![3, 1, 3, 2, 1]), vec![1, 2, 3]);
    assert!(sorted_unique(&vec![]).is_empty());
    assert!(contains_u32(&vec![4, 5], 5));
    assert!(!contains_u32(&vec![4, 5], 6));
    assert_eq!(index_of_u32(&vec![4, 5, 5], 5), Some(1));
    assert_eq!(index_of_u32(&vec![4, 5], 9), None);
}

#[test]
fn an_event_past_four_gigabytes_is_too_large() {
    let mut names = Vec::new();
    let huge = event("huge", vec![field("a", EventType::Array { elem: PrimitiveType::U64, len: 1 << 30 })]);
    match check_event(&huge, &mut names) {
        Err(EventValidationError::EventTooLarge(n, size, _)) => {
            assert_eq!(n, "huge");
            assert_eq!(size, u32::MAX);
        }
        _ => panic!("expected an oversized event"),
    }
    let mut names = Vec::new();
    let wide = event("wide", vec![
        field("a", EventType::Bytes(u32::MAX)),
        field("b", EventType::U64),
    ]);
    assert!(matches!(check_event(&wide, &mut names), Err(EventValidationError::EventTooLarge(_, _, _))));
    let mut names = Vec::new();
    let just = event("just", vec![field("a", EventType::Array { elem: PrimitiveType::U64, len: 64 })]);
    assert!(check_event(&just, &mut names).is_ok());
    let mut names = Vec::new();
    let over = event("over", vec![field("a", EventType::Array { elem: PrimitiveType::U64, len: 64 }), field("b", EventType::U32)]);
    match check_event(&over, &mut names) {
        Err(EventValidationError::EventTooLarge(_, size, _)) => assert_eq!(size, 520),
        _ => panic!("expected an oversized event"),
    }
}
