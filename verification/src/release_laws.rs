//! What holds of the releases that an analysis plans: each binding is
//! released at most once, a scope releases exactly the move-only values that
//! its bindings still own, and it releases them latest declaration first.

use vstd::prelude::*;
use crate::binding::{Binding, Location, Name};
use crate::checker::{outcome, run, CheckerView, Use};
use crate::ir::{Init, Instr, Operand};
use crate::planner::{plan_for, release_of, Release};
use crate::table::{lemma_resolve_in, lemma_scope_start_in, live_latest_first, TableView};
use crate::value::{kind_of, ValueKind};

verus! {

/// The releases that the bindings of `scope` owe when the scope ends, the
/// latest declaration first.
pub open spec fn owed_by(scope: Seq<Binding>) -> Seq<Release>
    decreases scope.len(),
{
    if scope.len() == 0 {
        Seq::empty()
    } else if scope.last().owes_release() {
        seq![release_of(scope.last())] + owed_by(scope.drop_last())
    } else {
        owed_by(scope.drop_last())
    }
}

/// The plan for two lists of bindings, one after the other, is the plan for
/// the first followed by the plan for the second.
pub proof fn lemma_plan_for_concat(first: Seq<Binding>, second: Seq<Binding>)
    ensures
        plan_for(first + second) == plan_for(first) + plan_for(second),
    decreases second.len(),
{
    if second.len() == 0 {
        assert(first + second == first);
        assert(plan_for(first) + plan_for(second) == plan_for(first));
    } else {
        assert((first + second).drop_last() == first + second.drop_last());
        lemma_plan_for_concat(first, second.drop_last());
        assert(plan_for(first + second) == plan_for(first) + plan_for(second));
    }
}

/// The plan that is made of what a scope hands over is what its bindings
/// owe.
pub proof fn lemma_plan_is_owed(scope: Seq<Binding>)
    ensures
        plan_for(live_latest_first(scope)) == owed_by(scope),
    decreases scope.len(),
{
    if scope.len() > 0 {
        let last = scope.last();
        lemma_plan_is_owed(scope.drop_last());
        if last.state is Live {
            lemma_plan_for_concat(seq![last], live_latest_first(scope.drop_last()));
            reveal_with_fuel(plan_for, 2);
            assert(seq![last].drop_last() == Seq::<Binding>::empty());
            if last.owes_release() {
                assert(plan_for(seq![last]) == seq![release_of(last)]);
            } else {
                assert(plan_for(seq![last]) == Seq::<Release>::empty());
                assert(Seq::<Release>::empty() + owed_by(scope.drop_last()) == owed_by(scope.drop_last()));
            }
        }
    }
}

/// Whether the positions in `bindings` grow from each binding to the next.
pub open spec fn positions_grow(bindings: Seq<Binding>) -> bool {
    forall|i: int, j: int|
        #![trigger bindings[i], bindings[j]]
        0 <= i < j < bindings.len() ==> bindings[i].declared_at.position
            < bindings[j].declared_at.position
}

/// Whether the positions in `releases` fall from each release to the next.
pub open spec fn positions_fall(releases: Seq<Release>) -> bool {
    forall|i: int, j: int|
        #![trigger releases[i], releases[j]]
        0 <= i < j < releases.len() ==> releases[i].declared_at.position
            > releases[j].declared_at.position
}

/// How what a scope owes is made up of what its last binding owes and what
/// the bindings before it owe.
pub proof fn lemma_owed_by_last(scope: Seq<Binding>)
    requires
        scope.len() > 0,
    ensures
        scope.last().owes_release() ==> owed_by(scope).len() == owed_by(scope.drop_last()).len() + 1
            && owed_by(scope)[0] == release_of(scope.last()) && forall|k: int|
            0 <= k < owed_by(scope.drop_last()).len() ==> owed_by(scope)[k + 1]
                == #[trigger] owed_by(scope.drop_last())[k],
        !scope.last().owes_release() ==> owed_by(scope) == owed_by(scope.drop_last()),
{
}

/// Every release that a scope owes is that of one of its bindings, which is
/// live with a move-only value. The result is the index of that binding.
pub proof fn lemma_owed_source(scope: Seq<Binding>, k: int) -> (i: int)
    requires
        0 <= k < owed_by(scope).len(),
    ensures
        0 <= i < scope.len(),
        scope[i].owes_release(),
        release_of(scope[i]) == owed_by(scope)[k],
    decreases scope.len(),
{
    lemma_owed_by_last(scope);
    let front = scope.drop_last();
    if scope.last().owes_release() {
        if k == 0 {
            scope.len() - 1
        } else {
            assert(owed_by(scope)[(k - 1) + 1] == owed_by(front)[k - 1]);
            let i = lemma_owed_source(front, k - 1);
            assert(front[i] == scope[i]);
            i
        }
    } else {
        let i = lemma_owed_source(front, k);
        assert(front[i] == scope[i]);
        i
    }
}

/// Every binding of a scope that is live with a move-only value has its
/// release among those that the scope owes. The result is the index of that
/// release.
pub proof fn lemma_owed_slot(scope: Seq<Binding>, i: int) -> (k: int)
    requires
        0 <= i < scope.len(),
        scope[i].owes_release(),
    ensures
        0 <= k < owed_by(scope).len(),
        owed_by(scope)[k] == release_of(scope[i]),
    decreases scope.len(),
{
    lemma_owed_by_last(scope);
    let front = scope.drop_last();
    if i == scope.len() - 1 {
        0
    } else {
        assert(front[i] == scope[i]);
        let k = lemma_owed_slot(front, i);
        if scope.last().owes_release() {
            assert(owed_by(scope)[k + 1] == owed_by(front)[k]);
            k + 1
        } else {
            k
        }
    }
}

/// The releases that a scope owes stand latest declaration first.
pub proof fn lemma_owed_order(scope: Seq<Binding>, a: int, b: int)
    requires
        positions_grow(scope),
        0 <= a < b < owed_by(scope).len(),
    ensures
        owed_by(scope)[a].declared_at.position > owed_by(scope)[b].declared_at.position,
    decreases scope.len(),
{
    lemma_owed_by_last(scope);
    let front = scope.drop_last();
    assert forall|i: int, j: int|
        #![trigger front[i], front[j]]
        0 <= i < j < front.len() implies front[i].declared_at.position
        < front[j].declared_at.position by {
        assert(front[i] == scope[i] && front[j] == scope[j]);
    }
    if scope.last().owes_release() {
        assert(owed_by(scope)[(b - 1) + 1] == owed_by(front)[b - 1]);
        if a == 0 {
            let i = lemma_owed_source(front, b - 1);
            assert(front[i] == scope[i]);
            assert(scope[i].declared_at.position < scope[scope.len() - 1].declared_at.position);
        } else {
            assert(owed_by(scope)[(a - 1) + 1] == owed_by(front)[a - 1]);
            lemma_owed_order(front, a - 1, b - 1);
        }
    } else {
        lemma_owed_order(front, a, b);
    }
}

/// Where every binding of a scope is live with a move-only value, the scope
/// owes one release for each, in the reverse of their declaration.
pub proof fn lemma_owed_by_all(scope: Seq<Binding>)
    requires
        forall|i: int| 0 <= i < scope.len() ==> (#[trigger] scope[i]).owes_release(),
    ensures
        owed_by(scope) == scope.reverse().map_values(|b: Binding| release_of(b)),
    decreases scope.len(),
{
    if scope.len() > 0 {
        let front = scope.drop_last();
        assert forall|i: int| 0 <= i < front.len() implies (#[trigger] front[i]).owes_release() by {
            assert(front[i] == scope[i]);
        }
        lemma_owed_by_all(front);
        assert(scope[scope.len() - 1].owes_release());
        assert(owed_by(scope) =~= scope.reverse().map_values(|b: Binding| release_of(b)));
    } else {
        assert(owed_by(scope) =~= scope.reverse().map_values(|b: Binding| release_of(b)));
    }
}

/// Drop ordering.
///
/// When a scope ends whose bindings are all live with a move-only value,
/// the releases that are planned for it are those of its bindings in the
/// reverse of their declaration: for `a, b, c` they are `c, b, a`.
pub proof fn law_drop_order(state: CheckerView)
    requires
        state.table.wf(),
        forall|i: int|
            0 <= i < state.table.scope().len() ==> (#[trigger] state.table.scope()[i]).owes_release(),
    ensures
        state.exit().releases == state.releases + state.table.scope().reverse().map_values(
            |b: Binding| release_of(b),
        ),
{
    lemma_plan_is_owed(state.table.scope());
    lemma_owed_by_all(state.table.scope());
}

/// The bindings of the innermost scope are the bindings of that depth, and
/// their positions grow.
pub proof fn lemma_scope(table: TableView)
    requires
        table.wf(),
    ensures
        0 <= table.scope_start() <= table.bindings.len(),
        positions_grow(table.scope()),
        forall|i: int|
            0 <= i < table.bindings.len() ==> ((#[trigger] table.bindings[i]).declared_at.depth
                == table.depth <==> table.scope_start() <= i),
{
    lemma_scope_start_in(table.bindings, table.depth);
    let start = table.scope_start();
    assert forall|i: int| 0 <= i < start implies (#[trigger] table.bindings[i]).declared_at.depth
        != table.depth by {
        assert(table.bindings[start - 1].declared_at.depth != table.depth);
        if i < start - 1 {
            assert(table.bindings[i].declared_at.depth <= table.bindings[start - 1].declared_at.depth);
        }
    }
    let scope = table.scope();
    assert forall|i: int, j: int|
        #![trigger scope[i], scope[j]]
        0 <= i < j < scope.len() implies scope[i].declared_at.position
        < scope[j].declared_at.position by {
        assert(scope[i] == table.bindings[start + i]);
        assert(scope[j] == table.bindings[start + j]);
    }
}

/// Whether `release` is the release of a binding of the innermost scope of
/// `table` that is live with a move-only value.
pub open spec fn scope_owes(table: TableView, release: Release) -> bool {
    exists|i: int|
        0 <= i < table.bindings.len() && (#[trigger] table.bindings[i]).declared_at.depth
            == table.depth && table.bindings[i].owes_release() && release_of(table.bindings[i])
            == release
}

/// Exactly one release for every owed value.
///
/// When a scope ends, the releases that are planned for it are, one for one,
/// those of its bindings that are live with a move-only value: each such
/// binding has its release in the plan, the plan holds nothing else, and no
/// two of its releases are of the same binding.
pub proof fn law_scope_releases_what_it_owes(state: CheckerView)
    requires
        state.table.wf(),
    ensures
        ({
            let plan = plan_for(state.table.leaving());
            let table = state.table;
            &&& state.exit().releases == state.releases + plan
            &&& forall|i: int|
                0 <= i < table.bindings.len() && (#[trigger] table.bindings[i]).declared_at.depth
                    == table.depth && table.bindings[i].owes_release() ==> plan.contains(
                    release_of(table.bindings[i]),
                )
            &&& forall|k: int| 0 <= k < plan.len() ==> scope_owes(table, #[trigger] plan[k])
            &&& positions_fall(plan)
        }),
{
    let table = state.table;
    let scope = table.scope();
    let start = table.scope_start();
    let plan = plan_for(table.leaving());
    lemma_scope(table);
    lemma_plan_is_owed(scope);
    assert forall|i: int|
        0 <= i < table.bindings.len() && (#[trigger] table.bindings[i]).declared_at.depth
            == table.depth && table.bindings[i].owes_release() implies plan.contains(
        release_of(table.bindings[i]),
    ) by {
        assert(scope[i - start] == table.bindings[i]);
        let k = lemma_owed_slot(scope, i - start);
        assert(plan[k] == release_of(table.bindings[i]));
    }
    assert forall|k: int| 0 <= k < plan.len() implies scope_owes(table, #[trigger] plan[k]) by {
        let i = lemma_owed_source(scope, k);
        assert(scope[i] == table.bindings[start + i]);
        assert(table.bindings[start + i].declared_at.depth == table.depth);
    }
    assert forall|a: int, b: int|
        #![trigger plan[a], plan[b]]
        0 <= a < b < plan.len() implies plan[a].declared_at.position
        > plan[b].declared_at.position by {
        lemma_owed_order(scope, a, b);
    }
}

/// The invariant of an analysis: the table meets its own invariant, and no
/// binding has been released twice or is still in the table after its
/// release.
pub open spec fn released_once(state: CheckerView) -> bool {
    &&& state.table.wf()
    &&& forall|k: int|
        0 <= k < state.releases.len() ==> (#[trigger] state.releases[k]).declared_at.position
            < state.table.declared
    &&& forall|k: int, l: int|
        #![trigger state.releases[k], state.releases[l]]
        0 <= k < l < state.releases.len() ==> state.releases[k].declared_at.position
            != state.releases[l].declared_at.position
    &&& forall|k: int, i: int|
        #![trigger state.releases[k], state.table.bindings[i]]
        0 <= k < state.releases.len() && 0 <= i < state.table.bindings.len()
            ==> state.releases[k].declared_at.position != state.table.bindings[i].declared_at.position
}

/// A use of a name keeps the invariant, and opens no scope and declares
/// nothing.
pub proof fn lemma_use_keeps_invariant(
    state: CheckerView,
    name: Name,
    mode: Use,
    at: Location,
    operand: usize,
)
    requires
        released_once(state),
    ensures
        released_once(state.use_name(name, mode, at, operand)),
        state.use_name(name, mode, at, operand).table.depth == state.table.depth,
        state.use_name(name, mode, at, operand).table.declared == state.table.declared,
        state.use_name(name, mode, at, operand).releases == state.releases,
{
    lemma_resolve_in(state.table.bindings, name);
    let after = state.use_name(name, mode, at, operand);
    assert forall|i: int| 0 <= i < after.table.bindings.len() implies (
    #[trigger] after.table.bindings[i]).declared_at == state.table.bindings[i].declared_at by {}
}

/// Passing arguments keeps the invariant, and opens no scope and declares
/// nothing.
pub proof fn lemma_pass_keeps_invariant(
    state: CheckerView,
    args: Seq<Operand>,
    at: Location,
    count: nat,
)
    requires
        released_once(state),
    ensures
        released_once(state.pass(args, at, count)),
        state.pass(args, at, count).table.depth == state.table.depth,
        state.pass(args, at, count).table.declared == state.table.declared,
    decreases count,
{
    if count > 0 {
        let index = (count - 1) as nat;
        lemma_pass_keeps_invariant(state, args, at, index);
        lemma_use_keeps_invariant(
            state.pass(args, at, index),
            args[index as int].name,
            Use::Take(args[index as int].expects),
            at,
            index as usize,
        );
    }
}

/// A declaration keeps the invariant, as long as the table can count it.
pub proof fn lemma_declare_keeps_invariant(
    state: CheckerView,
    name: Name,
    kind: ValueKind,
    at: Location,
)
    requires
        released_once(state),
        state.table.declared < usize::MAX,
    ensures
        released_once(state.declare(name, kind, at)),
        state.declare(name, kind, at).table.depth == state.table.depth,
        state.declare(name, kind, at).table.declared == state.table.declared + 1,
{
}

/// The end of a scope keeps the invariant.
pub proof fn lemma_exit_keeps_invariant(state: CheckerView)
    requires
        released_once(state),
    ensures
        released_once(state.exit()),
        state.exit().table.depth <= state.table.depth,
        state.exit().table.declared == state.table.declared,
{
    let table = state.table;
    let after = state.exit();
    let start = table.scope_start();
    let plan = plan_for(table.leaving());
    let old_len = state.releases.len() as int;
    lemma_scope(table);
    law_scope_releases_what_it_owes(state);
    assert(after.table.wf()) by {
        assert forall|i: int| 0 <= i < after.table.bindings.len() implies (
        #[trigger] after.table.bindings[i]).declared_at.depth <= after.table.depth by {
            assert(after.table.bindings[i] == table.bindings[i]);
            assert(table.bindings[i].declared_at.depth != table.depth);
        }
        assert forall|i: int, j: int|
            #![trigger after.table.bindings[i], after.table.bindings[j]]
            0 <= i < j < after.table.bindings.len() implies after.table.bindings[i].declared_at.depth
            <= after.table.bindings[j].declared_at.depth
            && after.table.bindings[i].declared_at.position
            < after.table.bindings[j].declared_at.position by {
            assert(after.table.bindings[i] == table.bindings[i]);
            assert(after.table.bindings[j] == table.bindings[j]);
        }
    }
    assert forall|k: int| 0 <= k < after.releases.len() implies (
    #[trigger] after.releases[k]).declared_at.position < after.table.declared by {
        if k >= old_len {
            assert(after.releases[k] == plan[k - old_len]);
            assert(scope_owes(table, plan[k - old_len]));
        } else {
            assert(after.releases[k] == state.releases[k]);
        }
    }
    assert forall|k: int, l: int|
        #![trigger after.releases[k], after.releases[l]]
        0 <= k < l < after.releases.len() implies after.releases[k].declared_at.position
        != after.releases[l].declared_at.position by {
        if k >= old_len {
            assert(after.releases[k] == plan[k - old_len]);
            assert(after.releases[l] == plan[l - old_len]);
        } else if l >= old_len {
            assert(after.releases[k] == state.releases[k]);
            assert(after.releases[l] == plan[l - old_len]);
            assert(scope_owes(table, plan[l - old_len]));
        } else {
            assert(after.releases[k] == state.releases[k]);
            assert(after.releases[l] == state.releases[l]);
        }
    }
    assert forall|k: int, i: int|
        #![trigger after.releases[k], after.table.bindings[i]]
        0 <= k < after.releases.len() && 0 <= i < after.table.bindings.len()
        implies after.releases[k].declared_at.position
        != after.table.bindings[i].declared_at.position by {
        assert(after.table.bindings[i] == table.bindings[i]);
        if k >= old_len {
            assert(after.releases[k] == plan[k - old_len]);
            assert(scope_owes(table, plan[k - old_len]));
        } else {
            assert(after.releases[k] == state.releases[k]);
        }
    }
}

/// An instruction keeps the invariant, as long as the table can count it;
/// it opens at most one scope and declares at most one binding.
pub proof fn lemma_step_keeps_invariant(state: CheckerView, instr: Instr)
    requires
        released_once(state),
        state.table.depth < usize::MAX,
        state.table.declared < usize::MAX,
    ensures
        state.step(instr) matches Ok(next) ==> released_once(next) && next.table.depth
            <= state.table.depth + 1 && next.table.declared <= state.table.declared + 1,
{
    match instr {
        Instr::Declare { name, ty, init, at } => {
            let kind = kind_of(ty);
            lemma_use_keeps_invariant(state, init->Ident_0, Use::Take(kind), at, 0);
            lemma_use_keeps_invariant(state, init->CloneOf_0, Use::Inspect, at, 0);
            let used = match init {
                Init::Value => state,
                Init::Ident(source) => state.use_name(source, Use::Take(kind), at, 0),
                Init::CloneOf(source) => state.use_name(source, Use::Inspect, at, 0),
            };
            lemma_declare_keeps_invariant(used, name, kind, at);
        },
        Instr::Read { name, at } => {
            lemma_use_keeps_invariant(state, name, Use::Inspect, at, 0);
        },
        Instr::Call { callee, args, at } => {
            lemma_pass_keeps_invariant(state, args@, at, args@.len());
        },
        Instr::Return { value, at } => {
            lemma_use_keeps_invariant(state, value.name, Use::Take(value.expects), at, 0);
        },
        Instr::BlockEnter { at } => {},
        Instr::BlockExit { at } => {
            lemma_exit_keeps_invariant(state);
        },
    }
}

/// The invariant holds after any number of instructions of a program, and
/// the table has counted no more scopes and bindings than instructions.
pub proof fn lemma_run_keeps_invariant(program: Seq<Instr>, count: nat)
    requires
        count <= program.len() <= usize::MAX,
    ensures
        run(CheckerView::initial(), program, count) matches Ok(state) ==> released_once(state)
            && state.table.depth <= count && state.table.declared <= count,
    decreases count,
{
    if count > 0 {
        lemma_run_keeps_invariant(program, (count - 1) as nat);
        match run(CheckerView::initial(), program, (count - 1) as nat) {
            Ok(state) => {
                lemma_step_keeps_invariant(state, program[count - 1]);
            },
            Err(_) => {},
        }
    }
}

/// At most one release per binding.
///
/// Over a whole program, no two of the planned releases are of the same
/// binding: their positions, which tell the bindings of one analysis apart,
/// all differ.
pub proof fn law_release_at_most_once(program: Seq<Instr>)
    requires
        program.len() <= usize::MAX,
    ensures
        outcome(program) matches Ok(end) ==> forall|k: int, l: int|
            #![trigger end.releases[k], end.releases[l]]
            0 <= k < l < end.releases.len() ==> end.releases[k].declared_at.position
                != end.releases[l].declared_at.position,
{
    lemma_run_keeps_invariant(program, program.len());
    match run(CheckerView::initial(), program, program.len()) {
        Ok(state) => {
            lemma_exit_keeps_invariant(state);
        },
        Err(_) => {},
    }
}

} // verus!
