use ownership::binding::{Binding, BindingState, DeclSite, Location};
use ownership::diagnostics::{Reporter, Violation, ViolationKind};
use ownership::planner::{plan_release, Release};
use ownership::table::{BindingHandle, BindingTable};
use ownership::value::ValueKind;

fn here() -> Location {
    Location { line: 7, column: 3 }
}

fn live(name: u64, kind: ValueKind, depth: usize, position: usize) -> Binding {
    Binding {
        name,
        synthetic: false,
        kind,
        state: BindingState::Live,
        declared_at: DeclSite { depth, position },
    }
}

#[test]
fn new_table_is_empty_at_depth_zero() {
    let table = BindingTable::new();
    assert_eq!(table.depth(), 0);
    assert_eq!(table.declared(), 0);
    assert_eq!(table.lookup(1), Err(ViolationKind::UnknownIdentifier));
    assert_eq!(table.get(BindingHandle { index: 0 }), None);
}

#[test]
fn declare_creates_a_live_binding() {
    let mut table = BindingTable::new();
    let handle = table.declare(1, ValueKind::MoveOnly).unwrap();
    assert_eq!(handle, BindingHandle { index: 0 });
    assert_eq!(table.get(handle), Some(live(1, ValueKind::MoveOnly, 0, 0)));
    assert_eq!(table.lookup(1), Ok(handle));
    assert_eq!(table.declared(), 1);
}

#[test]
fn declare_twice_in_one_scope_fails() {
    let mut table = BindingTable::new();
    let first = table.declare(1, ValueKind::MoveOnly).unwrap();
    assert_eq!(table.declare(1, ValueKind::Copyable), Err(ViolationKind::DoubleBindingName));
    assert_eq!(table.declared(), 1);
    assert_eq!(table.lookup(1), Ok(first));
}

#[test]
fn declare_in_inner_scope_shadows() {
    let mut table = BindingTable::new();
    let outer = table.declare(1, ValueKind::MoveOnly).unwrap();
    table.enter_scope();
    assert_eq!(table.depth(), 1);
    assert_eq!(table.lookup(1), Ok(outer));
    let inner = table.declare(1, ValueKind::Copyable).unwrap();
    assert_eq!(table.lookup(1), Ok(inner));
    assert_eq!(table.get(inner), Some(live(1, ValueKind::Copyable, 1, 1)));
    let leaving = table.exit_scope();
    assert_eq!(leaving, vec![live(1, ValueKind::Copyable, 1, 1)]);
    assert_eq!(table.depth(), 0);
    assert_eq!(table.lookup(1), Ok(outer));
}

#[test]
fn declare_after_move_is_allowed_and_the_new_binding_is_found() {
    let mut table = BindingTable::new();
    let first = table.declare(1, ValueKind::MoveOnly).unwrap();
    assert!(table.move_out(first, here()));
    let second = table.declare(1, ValueKind::MoveOnly).unwrap();
    assert_eq!(second, BindingHandle { index: 1 });
    assert_eq!(table.lookup(1), Ok(second));
}

#[test]
fn synthetic_binding_is_not_found_by_name() {
    let mut table = BindingTable::new();
    let hidden = table.declare_synthetic(1, ValueKind::MoveOnly);
    assert_eq!(table.lookup(1), Err(ViolationKind::UnknownIdentifier));
    let binding = table.get(hidden).unwrap();
    assert!(binding.synthetic);
    assert_eq!(binding.state, BindingState::Live);
    assert_eq!(table.declare(1, ValueKind::MoveOnly), Ok(BindingHandle { index: 1 }));
}

#[test]
fn move_out_moves_only_live_move_only_values() {
    let mut table = BindingTable::new();
    let text = table.declare(1, ValueKind::MoveOnly).unwrap();
    let number = table.declare(2, ValueKind::Copyable).unwrap();
    assert!(!table.move_out(number, here()));
    assert_eq!(table.get(number).unwrap().state, BindingState::Live);
    assert!(table.move_out(text, here()));
    assert_eq!(table.get(text).unwrap().state, BindingState::Moved { at: here() });
    assert!(!table.move_out(text, Location { line: 9, column: 9 }));
    assert_eq!(table.get(text).unwrap().state, BindingState::Moved { at: here() });
    assert!(!table.move_out(BindingHandle { index: 5 }, here()));
}

#[test]
fn revive_makes_a_moved_binding_live_again() {
    let mut table = BindingTable::new();
    let text = table.declare(1, ValueKind::MoveOnly).unwrap();
    assert!(!table.revive(text));
    assert!(table.move_out(text, here()));
    assert!(table.revive(text));
    assert_eq!(table.get(text), Some(live(1, ValueKind::MoveOnly, 0, 0)));
    assert!(!table.revive(BindingHandle { index: 1 }));
}

#[test]
fn revive_leaves_a_binding_that_was_declared_anew() {
    let mut table = BindingTable::new();
    let first = table.declare(1, ValueKind::MoveOnly).unwrap();
    assert!(table.move_out(first, here()));
    let second = table.declare(1, ValueKind::MoveOnly).unwrap();
    assert!(!table.revive(first));
    assert_eq!(table.get(first).unwrap().state, BindingState::Moved { at: here() });
    assert!(table.move_out(second, here()));
    assert!(table.revive(second));
    assert_eq!(table.declare(1, ValueKind::MoveOnly), Err(ViolationKind::DoubleBindingName));
}

#[test]
fn exit_scope_returns_live_bindings_latest_first() {
    let mut table = BindingTable::new();
    table.declare(9, ValueKind::MoveOnly).unwrap();
    table.enter_scope();
    table.declare(1, ValueKind::MoveOnly).unwrap();
    let moved = table.declare(2, ValueKind::MoveOnly).unwrap();
    table.declare(3, ValueKind::Copyable).unwrap();
    assert!(table.move_out(moved, here()));
    let leaving = table.exit_scope();
    assert_eq!(leaving, vec![live(3, ValueKind::Copyable, 1, 3), live(1, ValueKind::MoveOnly, 1, 1)]);
    assert_eq!(table.depth(), 0);
    assert_eq!(table.declared(), 4);
    assert_eq!(table.lookup(1), Err(ViolationKind::UnknownIdentifier));
    assert_eq!(table.lookup(9), Ok(BindingHandle { index: 0 }));
}

#[test]
fn exit_of_an_empty_scope_returns_nothing() {
    let mut table = BindingTable::new();
    table.declare(1, ValueKind::MoveOnly).unwrap();
    table.enter_scope();
    assert!(table.exit_scope().is_empty());
    assert_eq!(table.lookup(1), Ok(BindingHandle { index: 0 }));
}

#[test]
fn exit_of_the_outermost_scope_empties_it() {
    let mut table = BindingTable::new();
    table.declare(1, ValueKind::MoveOnly).unwrap();
    table.declare(2, ValueKind::MoveOnly).unwrap();
    let leaving = table.exit_scope();
    assert_eq!(leaving, vec![live(2, ValueKind::MoveOnly, 0, 1), live(1, ValueKind::MoveOnly, 0, 0)]);
    assert_eq!(table.depth(), 0);
    assert_eq!(table.lookup(1), Err(ViolationKind::UnknownIdentifier));
    assert!(table.exit_scope().is_empty());
}

#[test]
fn positions_are_not_reused_after_a_scope_ends() {
    let mut table = BindingTable::new();
    table.enter_scope();
    table.declare(1, ValueKind::MoveOnly).unwrap();
    table.exit_scope();
    table.enter_scope();
    let again = table.declare(1, ValueKind::MoveOnly).unwrap();
    assert_eq!(again, BindingHandle { index: 0 });
    assert_eq!(table.get(again).unwrap().declared_at, DeclSite { depth: 1, position: 1 });
}

#[test]
fn plan_releases_move_only_values_in_the_given_order() {
    let mut leaving = vec![
        live(3, ValueKind::MoveOnly, 1, 2),
        live(2, ValueKind::Copyable, 1, 1),
        live(1, ValueKind::MoveOnly, 1, 0),
    ];
    let plan = plan_release(&mut leaving);
    assert_eq!(
        plan,
        vec![
            Release { binding: 3, declared_at: DeclSite { depth: 1, position: 2 } },
            Release { binding: 1, declared_at: DeclSite { depth: 1, position: 0 } },
        ]
    );
    assert_eq!(leaving[0].state, BindingState::Dropped);
    assert_eq!(leaving[1].state, BindingState::Live);
    assert_eq!(leaving[2].state, BindingState::Dropped);
}

#[test]
fn plan_skips_bindings_that_are_not_live() {
    let mut moved = live(1, ValueKind::MoveOnly, 0, 0);
    moved.state = BindingState::Moved { at: here() };
    let mut dropped = live(2, ValueKind::MoveOnly, 0, 1);
    dropped.state = BindingState::Dropped;
    let mut leaving = vec![dropped, moved];
    let plan = plan_release(&mut leaving);
    assert!(plan.is_empty());
    assert_eq!(leaving, vec![dropped, moved]);
    let mut nothing: Vec<Binding> = vec![];
    assert!(plan_release(&mut nothing).is_empty());
}

#[test]
fn reporter_keeps_violations_in_order() {
    let mut reporter = Reporter::new();
    assert!(!reporter.has_errors());
    assert!(reporter.all().is_empty());
    let first = Violation {
        kind: ViolationKind::UseAfterMove,
        binding: 1,
        location: here(),
        operand: 0,
        declared_at: Some(DeclSite { depth: 0, position: 0 }),
        caused_by: Some(Location { line: 1, column: 1 }),
    };
    let second = Violation {
        kind: ViolationKind::UnknownIdentifier,
        binding: 2,
        location: here(),
        operand: 1,
        declared_at: None,
        caused_by: None,
    };
    reporter.report(first);
    reporter.report(second);
    reporter.report(first);
    assert!(reporter.has_errors());
    assert_eq!(reporter.all(), &vec![first, second, first]);
    assert_eq!(reporter.into_violations(), vec![first, second, first]);
}

#[test]
fn every_kind_has_its_explanation() {
    assert_eq!(ViolationKind::UseAfterMove.explanation(), "value used after it was moved");
    assert_eq!(
        ViolationKind::DoubleBindingName.explanation(),
        "name is already bound in this scope"
    );
    assert_eq!(
        ViolationKind::CopyOfMoveOnlyWithoutClone.explanation(),
        "move-only value copied without a clone"
    );
    assert_eq!(
        ViolationKind::MoveOnlyWithDropAnnotatedAsCopy.explanation(),
        "type with a release action annotated as copyable"
    );
    assert_eq!(
        ViolationKind::UnknownIdentifier.explanation(),
        "identifier is not bound in any open scope"
    );
}
