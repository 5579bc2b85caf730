//! What holds of every use of a variable: a value that was moved away is
//! missed at its next use, a copy and a clone are never missed, and of two
//! consumers in one call the first one wins.

use vstd::prelude::*;
use crate::binding::{Binding, BindingState, Location, Name};
use crate::checker::{run, CheckerView, Use};
use crate::diagnostics::{Violation, ViolationKind};
use crate::ir::{Init, Instr, MalformedInput, Operand};
use crate::table::{lemma_resolve_in, resolve_in, TableView};
use crate::value::{kind_of, TypeDescriptor, ValueKind};

verus! {

/// Whether `instr` uses the variable `name`, exactly once, and does nothing
/// else: it reads it, returns it, or passes it as the only argument of a
/// call.
pub open spec fn uses_once(instr: Instr, name: Name) -> bool {
    match instr {
        Instr::Read { name: used, .. } => used == name,
        Instr::Return { value, .. } => value.name == name,
        Instr::Call { args, .. } => args@.len() == 1 && args@[0].name == name,
        _ => false,
    }
}

/// The violations that declaring `name` at `at` adds in `table`: one
/// `DoubleBindingName` if the name is live in the innermost scope, none
/// otherwise.
pub open spec fn redeclaration(table: TableView, name: Name, at: Location) -> Seq<Violation> {
    if table.live_in_scope(name) {
        seq![
            Violation {
                kind: ViolationKind::DoubleBindingName,
                binding: name,
                location: at,
                operand: 0,
                declared_at: table.site_of(name),
                caused_by: None,
            },
        ]
    } else {
        Seq::empty()
    }
}

/// A new binding at the end of the table is found under its own name, and
/// changes what no other name denotes.
pub proof fn lemma_resolve_push(bindings: Seq<Binding>, added: Binding, name: Name)
    ensures
        resolve_in(bindings.push(added), name) == if added.answers_to(name) {
            Some(bindings.len() as int)
        } else {
            resolve_in(bindings, name)
        },
{
    assert(bindings.push(added).drop_last() == bindings);
}

/// What a name denotes does not depend on the state of any binding.
pub proof fn lemma_resolve_with_state(
    bindings: Seq<Binding>,
    index: int,
    state: BindingState,
    name: Name,
)
    requires
        0 <= index < bindings.len(),
    ensures
        resolve_in(bindings.update(index, Binding { state, ..bindings[index] }), name) == resolve_in(
            bindings,
            name,
        ),
    decreases bindings.len(),
{
    let changed = bindings.update(index, Binding { state, ..bindings[index] });
    if index == bindings.len() - 1 {
        assert(changed.drop_last() == bindings.drop_last());
    } else {
        assert(changed.drop_last() == bindings.drop_last().update(
            index,
            Binding { state, ..bindings.drop_last()[index] },
        ));
        lemma_resolve_with_state(bindings.drop_last(), index, state, name);
    }
}

/// Whether a name is live in the innermost scope does not depend on the
/// state of a binding of another name.
pub proof fn lemma_live_in_scope_with_state(
    table: TableView,
    index: int,
    state: BindingState,
    name: Name,
)
    requires
        0 <= index < table.bindings.len(),
        !table.bindings[index].answers_to(name),
    ensures
        table.with_state(index, state).live_in_scope(name) == table.live_in_scope(name),
{
    let changed = table.with_state(index, state);
    if table.live_in_scope(name) {
        let i = choose|i: int|
            0 <= i < table.bindings.len() && (#[trigger] table.bindings[i]).declared_at.depth
                == table.depth && table.bindings[i].answers_to(name) && table.bindings[i].state is Live;
        assert(changed.bindings[i] == table.bindings[i]);
    }
    if changed.live_in_scope(name) {
        let i = choose|i: int|
            0 <= i < changed.bindings.len() && (#[trigger] changed.bindings[i]).declared_at.depth
                == changed.depth && changed.bindings[i].answers_to(name) && changed.bindings[i].state is Live;
        assert(changed.bindings[i] == table.bindings[i]);
    }
}

/// A use of a name leaves every other name bound as it was.
pub proof fn lemma_use_keeps_other_names(
    state: CheckerView,
    used: Name,
    mode: Use,
    at: Location,
    operand: usize,
    other: Name,
)
    ensures
        state.use_name(used, mode, at, operand).table.resolve(other) == state.table.resolve(other),
        state.use_name(used, mode, at, operand).table.bindings.len() == state.table.bindings.len(),
        used != other ==> state.use_name(used, mode, at, operand).table.live_in_scope(other)
            == state.table.live_in_scope(other),
{
    lemma_resolve_in(state.table.bindings, used);
    match state.table.resolve(used) {
        None => {},
        Some(index) => {
            lemma_resolve_with_state(state.table.bindings, index, BindingState::Live, other);
            lemma_resolve_with_state(state.table.bindings, index, BindingState::Moved { at }, other);
            if used != other {
                lemma_live_in_scope_with_state(state.table, index, BindingState::Live, other);
                lemma_live_in_scope_with_state(state.table, index, BindingState::Moved { at }, other);
            }
        },
    }
}

/// Move-then-use is always flagged.
///
/// Let `y` denote a live binding with a move-only value. After `let x = y`,
/// where `x` is another name and its type is move-only too, an instruction
/// that uses `y` — reads it, returns it or passes it to a call — gives
/// exactly one `UseAfterMove`: it names `y`, stands at the using instruction
/// and cites the `let` as its cause. Nothing else is reported, but for the
/// declaration of `x` itself where `x` was already live in the scope.
pub proof fn law_move_then_use(
    state: CheckerView,
    x: Name,
    y: Name,
    ty: TypeDescriptor,
    at: Location,
    second: Instr,
)
    requires
        state.table.binding_of(y) matches Some(binding) && binding.owes_release(),
        kind_of(ty) is MoveOnly,
        x != y,
        uses_once(second, y),
    ensures
        state.step(Instr::Declare { name: x, ty, init: Init::Ident(y), at }) matches Ok(declared)
            && declared.step(second) matches Ok(after) && after.violations == state.violations
            + redeclaration(state.table, x, at) + seq![
            Violation {
                kind: ViolationKind::UseAfterMove,
                binding: y,
                location: second.location(),
                operand: 0,
                declared_at: state.table.site_of(y),
                caused_by: Some(at),
            },
        ],
{
    let index = state.table.resolve(y)->Some_0;
    lemma_resolve_in(state.table.bindings, y);
    let moved = state.use_name(y, Use::Take(ValueKind::MoveOnly), at, 0);
    assert(moved.table == state.table.with_state(index, BindingState::Moved { at }));
    assert(moved.violations == state.violations);
    lemma_use_keeps_other_names(state, y, Use::Take(ValueKind::MoveOnly), at, 0, x);
    lemma_use_keeps_other_names(state, y, Use::Take(ValueKind::MoveOnly), at, 0, y);
    let declared = moved.declare(x, ValueKind::MoveOnly, at);
    lemma_resolve_in(state.table.bindings, x);
    assert(moved.table.site_of(x) == state.table.site_of(x));
    assert(declared.violations == state.violations + redeclaration(state.table, x, at));
    let added = moved.table.fresh(x, moved.table.live_in_scope(x), ValueKind::MoveOnly);
    lemma_resolve_push(moved.table.bindings, added, y);
    assert(declared.table.resolve(y) == Some(index));
    assert(declared.table.bindings[index].state == BindingState::Moved { at });
    reveal_with_fuel(CheckerView::pass, 3);
}

/// What a sequence of instructions that each use `name` once leaves behind,
/// as long as `name` denotes a live binding with a copyable value: nothing
/// changes.
proof fn lemma_copies_change_nothing(state: CheckerView, name: Name, uses: Seq<Instr>, count: nat)
    requires
        state.table.binding_of(name) matches Some(binding) && binding.kind is Copyable
            && binding.state is Live,
        count <= uses.len(),
        forall|i: int| 0 <= i < uses.len() ==> uses_once(#[trigger] uses[i], name),
    ensures
        run(state, uses, count) == Ok::<CheckerView, MalformedInput>(state),
    decreases count,
{
    if count > 0 {
        lemma_copies_change_nothing(state, name, uses, (count - 1) as nat);
        assert(uses_once(uses[count - 1], name));
        reveal_with_fuel(CheckerView::pass, 3);
    }
}

/// Copy is never flagged.
///
/// Let `y` denote a binding with a copyable value. After `let x = y`, where
/// `x` is free in the innermost scope and is another name than `y` or has a
/// copyable type itself, any number of instructions that each use `y` — read
/// it, return it or pass it to a call — give no violation at all.
pub proof fn law_copy_never_flagged(
    state: CheckerView,
    x: Name,
    y: Name,
    ty: TypeDescriptor,
    at: Location,
    uses: Seq<Instr>,
)
    requires
        state.table.wf(),
        state.table.binding_of(y) matches Some(binding) && binding.kind is Copyable,
        x != y || kind_of(ty) is Copyable,
        !state.table.live_in_scope(x),
        forall|i: int| 0 <= i < uses.len() ==> uses_once(#[trigger] uses[i], y),
    ensures
        state.step(Instr::Declare { name: x, ty, init: Init::Ident(y), at }) matches Ok(declared)
            && run(declared, uses, uses.len()) matches Ok(after) && after.violations
            == state.violations,
{
    let index = state.table.resolve(y)->Some_0;
    lemma_resolve_in(state.table.bindings, y);
    let kind = kind_of(ty);
    let used = state.use_name(y, Use::Take(kind), at, 0);
    assert(used == state);
    let declared = used.declare(x, kind, at);
    lemma_resolve_push(state.table.bindings, state.table.fresh(x, false, kind), y);
    lemma_copies_change_nothing(declared, y, uses, uses.len());
}

/// Clone restores independence.
///
/// Let `y` denote a live binding, of whatever kind. After
/// `let x = y.clone()`, where `x` is free in the innermost scope, a read of
/// `y` and a read of `x` give no violation, and both bindings are live.
pub proof fn law_clone_keeps_both(
    state: CheckerView,
    x: Name,
    y: Name,
    ty: TypeDescriptor,
    at: Location,
    at_y: Location,
    at_x: Location,
)
    requires
        state.table.binding_of(y) matches Some(binding) && binding.state is Live,
        !state.table.live_in_scope(x),
    ensures
        state.step(Instr::Declare { name: x, ty, init: Init::CloneOf(y), at }) matches Ok(declared)
            && declared.step(Instr::Read { name: y, at: at_y }) matches Ok(read)
            && read.step(Instr::Read { name: x, at: at_x }) matches Ok(after)
            && after.violations == state.violations
            && after.table == declared.table
            && (after.table.binding_of(y) matches Some(binding) && binding.state is Live)
            && (after.table.binding_of(x) matches Some(binding) && binding.state is Live),
{
    let index = state.table.resolve(y)->Some_0;
    lemma_resolve_in(state.table.bindings, y);
    let kind = kind_of(ty);
    let added = state.table.fresh(x, false, kind);
    lemma_resolve_push(state.table.bindings, added, y);
    lemma_resolve_push(state.table.bindings, added, x);
}

/// First consumer wins.
///
/// Let `y` denote a live binding with a move-only value. A call that passes
/// `y` to two parameters that both take a move-only value by value gives
/// exactly one `UseAfterMove`: it is attributed to the second operand, and
/// its cause is the call itself, whose first operand took the value.
pub proof fn law_first_consumer_wins(state: CheckerView, y: Name, call: Instr)
    requires
        state.table.binding_of(y) matches Some(binding) && binding.owes_release(),
        call matches Instr::Call { args, .. } && args@ == seq![
            Operand { name: y, expects: ValueKind::MoveOnly },
            Operand { name: y, expects: ValueKind::MoveOnly },
        ],
    ensures
        state.step(call) matches Ok(after) && after.violations == state.violations.push(
            Violation {
                kind: ViolationKind::UseAfterMove,
                binding: y,
                location: call.location(),
                operand: 1,
                declared_at: state.table.site_of(y),
                caused_by: Some(call.location()),
            },
        ),
{
    let index = state.table.resolve(y)->Some_0;
    let at = call.location();
    lemma_resolve_in(state.table.bindings, y);
    lemma_use_keeps_other_names(state, y, Use::Take(ValueKind::MoveOnly), at, 0, y);
    reveal_with_fuel(CheckerView::pass, 3);
}

} // verus!
