use ownership::binding::{DeclSite, Location, Name};
use ownership::checker::analyze;
use ownership::diagnostics::{Violation, ViolationKind};
use ownership::idioms::{
    _calculate_length, _clone, _gives_ownership, _interact_integer, _memory_one, _new, _scope,
    _string_literal, _takes_and_gives_back, _test,
};
use ownership::ir::{Init, Instr, Operand};
use ownership::planner::Release;
use ownership::value::{TypeDescriptor, ValueKind};

const S: Name = 1;
const S1: Name = 2;
const S2: Name = 3;
const S3: Name = 4;
const VX: Name = 5;
const VY: Name = 6;
const TAKES_OWNERSHIP: Name = 20;
const MAKE_COPY: Name = 21;
const GIVES_OWNERSHIP: Name = 22;
const TAKES_AND_GIVES_BACK: Name = 23;

fn at(n: u32) -> Location {
    Location { line: n, column: 5 }
}

fn declare(name: Name, ty: TypeDescriptor, init: Init, n: u32) -> Instr {
    Instr::Declare { name, ty, init, at: at(n) }
}

fn owed(name: Name, depth: usize, position: usize) -> Release {
    Release { binding: name, declared_at: DeclSite { depth, position } }
}

#[test]
fn idioms_run() {
    _scope();
    _string_literal();
    _memory_one();
    _interact_integer();
    _test();
    _clone();
    _new();
}

#[test]
fn gives_ownership_gives_yours() {
    assert_eq!(_gives_ownership(), "yours");
}

#[test]
fn takes_and_gives_back_returns_its_argument() {
    assert_eq!(_takes_and_gives_back(String::from("hello")), "hello");
    assert_eq!(_takes_and_gives_back(String::new()), "");
}

#[test]
fn calculate_length_counts_bytes() {
    assert_eq!(_calculate_length(String::from("hello")), (String::from("hello"), 5));
    assert_eq!(_calculate_length(String::new()), (String::new(), 0));
    assert_eq!(_calculate_length(String::from("h\u{e9}llo")), (String::from("h\u{e9}llo"), 6));
}

#[test]
fn program_of_scope_releases_text_at_block_end() {
    let program = vec![
        Instr::BlockEnter { at: at(1) },
        declare(S, TypeDescriptor::Text, Init::Value, 2),
        Instr::BlockExit { at: at(3) },
    ];
    let report = analyze(&program).unwrap();
    assert!(report.ok);
    assert_eq!(report.releases, vec![owed(S, 1, 0)]);
}

#[test]
fn program_of_interact_integer_is_clean() {
    let program = vec![
        declare(VX, TypeDescriptor::Integer, Init::Value, 1),
        declare(VY, TypeDescriptor::Integer, Init::Ident(VX), 2),
        declare(S1, TypeDescriptor::Text, Init::Value, 3),
        declare(S2, TypeDescriptor::Text, Init::Ident(S1), 4),
    ];
    let report = analyze(&program).unwrap();
    assert!(report.ok);
    assert_eq!(report.releases, vec![owed(S2, 0, 3)]);
}

#[test]
fn program_of_test_with_the_print_is_rejected() {
    let program = vec![
        declare(S1, TypeDescriptor::Text, Init::Value, 1),
        declare(S2, TypeDescriptor::Text, Init::Ident(S1), 2),
        Instr::Read { name: S1, at: at(3) },
    ];
    let report = analyze(&program).unwrap();
    assert!(!report.ok);
    assert_eq!(
        report.violations,
        vec![
            Violation {
                kind: ViolationKind::UseAfterMove,
                binding: S1,
                location: at(3),
                operand: 0,
                declared_at: Some(DeclSite { depth: 0, position: 0 }),
                caused_by: Some(at(2)),
            },
        ]
    );
}

#[test]
fn program_of_main_releases_nothing() {
    let program = vec![
        declare(S, TypeDescriptor::Text, Init::Value, 1),
        Instr::Call {
            callee: TAKES_OWNERSHIP,
            args: vec![Operand { name: S, expects: ValueKind::MoveOnly }],
            at: at(2),
        },
        declare(VX, TypeDescriptor::Integer, Init::Value, 3),
        Instr::Call {
            callee: MAKE_COPY,
            args: vec![Operand { name: VX, expects: ValueKind::Copyable }],
            at: at(4),
        },
    ];
    let report = analyze(&program).unwrap();
    assert!(report.ok);
    assert!(report.releases.is_empty());
}

#[test]
fn program_of_new_releases_s3_then_s1() {
    let program = vec![
        Instr::Call { callee: GIVES_OWNERSHIP, args: vec![], at: at(1) },
        declare(S1, TypeDescriptor::Text, Init::Value, 1),
        declare(S2, TypeDescriptor::Text, Init::Value, 2),
        Instr::Call {
            callee: TAKES_AND_GIVES_BACK,
            args: vec![Operand { name: S2, expects: ValueKind::MoveOnly }],
            at: at(3),
        },
        declare(S3, TypeDescriptor::Text, Init::Value, 3),
    ];
    let report = analyze(&program).unwrap();
    assert!(report.ok);
    assert_eq!(report.releases, vec![owed(S3, 0, 2), owed(S1, 0, 0)]);
}
