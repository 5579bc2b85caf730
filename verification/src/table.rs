//! The binding table: the bindings of all open scopes, and the operations
//! that declare, find and retire them.
//!
//! The table keeps the bindings of every open scope in one sequence, in the
//! order of their declaration. A binding's depth tells which scope it belongs
//! to, so the bindings of the innermost scope are the tail of the sequence.

use vstd::prelude::*;
use crate::binding::{Binding, BindingState, DeclSite, Location, Name};
use crate::diagnostics::ViolationKind;
use crate::value::ValueKind;

verus! {

/// The place of a binding in its table. A handle stays valid until the scope
/// of its binding is exited.
#[derive(Clone, Copy, Debug, PartialEq, Eq, Structural)]
pub struct BindingHandle {
    pub index: usize,
}

/// What a binding table holds, as a mathematical value.
pub struct TableView {
    /// The bindings of all open scopes, in the order of their declaration.
    pub bindings: Seq<Binding>,
    /// The depth of the innermost open scope; the outermost has depth 0.
    pub depth: nat,
    /// How many bindings were declared so far, those of closed scopes
    /// included.
    pub declared: nat,
}

/// The index of the latest binding in `bindings` that `name` can denote.
pub open spec fn resolve_in(bindings: Seq<Binding>, name: Name) -> Option<int>
    decreases bindings.len(),
{
    if bindings.len() == 0 {
        None
    } else if bindings.last().answers_to(name) {
        Some(bindings.len() - 1)
    } else {
        resolve_in(bindings.drop_last(), name)
    }
}

/// The index at which the bindings of depth `depth` begin, given that they
/// are the tail of `bindings`.
pub open spec fn scope_start_in(bindings: Seq<Binding>, depth: nat) -> int
    decreases bindings.len(),
{
    if bindings.len() == 0 || bindings.last().declared_at.depth != depth {
        bindings.len() as int
    } else {
        scope_start_in(bindings.drop_last(), depth)
    }
}

/// The live bindings of `scope`, the latest declaration first.
pub open spec fn live_latest_first(scope: Seq<Binding>) -> Seq<Binding>
    decreases scope.len(),
{
    if scope.len() == 0 {
        Seq::empty()
    } else if scope.last().state is Live {
        seq![scope.last()] + live_latest_first(scope.drop_last())
    } else {
        live_latest_first(scope.drop_last())
    }
}

impl TableView {
    /// The table of a fresh analysis: the outermost scope, with no binding.
    pub open spec fn initial() -> TableView {
        TableView { bindings: Seq::empty(), depth: 0, declared: 0 }
    }

    /// The invariant of a binding table: the counters fit the machine; no
    /// binding is deeper than the innermost scope, is dropped, or has lost a
    /// copyable value; the bindings stand in the order of their declaration,
    /// scope by scope; and of the bindings that one name denotes in one
    /// scope, only the latest can be live.
    pub open spec fn wf(self) -> bool {
        &&& self.depth <= usize::MAX
        &&& self.declared <= usize::MAX
        &&& forall|i: int|
            0 <= i < self.bindings.len() ==> {
                let b = #[trigger] self.bindings[i];
                &&& b.declared_at.depth <= self.depth
                &&& b.declared_at.position < self.declared
                &&& !(b.state is Dropped)
                &&& (b.kind is Copyable ==> b.state is Live)
            }
        &&& forall|i: int, j: int|
            #![trigger self.bindings[i], self.bindings[j]]
            0 <= i < j < self.bindings.len() ==> {
                &&& self.bindings[i].declared_at.depth <= self.bindings[j].declared_at.depth
                &&& self.bindings[i].declared_at.position < self.bindings[j].declared_at.position
                &&& (self.bindings[i].declared_at.depth == self.bindings[j].declared_at.depth
                    && self.bindings[j].answers_to(self.bindings[i].name)
                    && !self.bindings[i].synthetic ==> !(self.bindings[i].state is Live))
            }
    }

    /// The binding that `name` denotes: the latest declaration of `name`
    /// in the innermost scope that has one.
    pub open spec fn resolve(self, name: Name) -> Option<int> {
        resolve_in(self.bindings, name)
    }

    /// The binding that `name` denotes, if it denotes one.
    pub open spec fn binding_of(self, name: Name) -> Option<Binding> {
        match self.resolve(name) {
            Some(index) => Some(self.bindings[index]),
            None => None,
        }
    }

    /// Where the binding that `name` denotes was declared.
    pub open spec fn site_of(self, name: Name) -> Option<DeclSite> {
        match self.resolve(name) {
            Some(index) => Some(self.bindings[index].declared_at),
            None => None,
        }
    }

    /// Whether `name` denotes a live binding of the innermost scope.
    pub open spec fn live_in_scope(self, name: Name) -> bool {
        exists|i: int|
            0 <= i < self.bindings.len() && (#[trigger] self.bindings[i]).declared_at.depth
                == self.depth && self.bindings[i].answers_to(name) && self.bindings[i].state is Live
    }

    /// The table after a scope was entered.
    pub open spec fn enter(self) -> TableView {
        TableView { depth: self.depth + 1, ..self }
    }

    /// The binding that the next declaration of `name` creates.
    pub open spec fn fresh(self, name: Name, synthetic: bool, kind: ValueKind) -> Binding {
        Binding {
            name,
            synthetic,
            kind,
            state: BindingState::Live,
            declared_at: DeclSite { depth: self.depth as usize, position: self.declared as usize },
        }
    }

    /// The table after a binding for `name` was added to the innermost scope.
    pub open spec fn bind(self, name: Name, synthetic: bool, kind: ValueKind) -> TableView {
        TableView {
            bindings: self.bindings.push(self.fresh(name, synthetic, kind)),
            declared: self.declared + 1,
            ..self
        }
    }

    /// The binding at `index`, if there is one.
    pub open spec fn at(self, index: int) -> Option<Binding> {
        if 0 <= index < self.bindings.len() {
            Some(self.bindings[index])
        } else {
            None
        }
    }

    /// The table with the state of the binding at `index` replaced.
    pub open spec fn with_state(self, index: int, state: BindingState) -> TableView {
        TableView {
            bindings: self.bindings.update(index, Binding { state, ..self.bindings[index] }),
            ..self
        }
    }

    /// Whether the binding at `index` holds a move-only value that can be
    /// moved away.
    pub open spec fn movable(self, index: int) -> bool {
        0 <= index < self.bindings.len() && self.bindings[index].owes_release()
    }

    /// Whether the binding at `index` lost its value to a move and is the
    /// binding that its name denotes.
    pub open spec fn revivable(self, index: int) -> bool {
        &&& 0 <= index < self.bindings.len()
        &&& self.bindings[index].state is Moved
        &&& self.resolve(self.bindings[index].name) == Some(index)
    }

    /// The index of the first binding of the innermost scope.
    pub open spec fn scope_start(self) -> int {
        scope_start_in(self.bindings, self.depth)
    }

    /// The bindings of the innermost scope, in the order of their
    /// declaration.
    pub open spec fn scope(self) -> Seq<Binding> {
        self.bindings.subrange(self.scope_start(), self.bindings.len() as int)
    }

    /// What exiting the innermost scope hands over for release: its live
    /// bindings, the latest declaration first.
    pub open spec fn leaving(self) -> Seq<Binding> {
        live_latest_first(self.scope())
    }

    /// The table after the innermost scope was exited. Exiting the outermost
    /// scope empties it and leaves it open.
    pub open spec fn leave(self) -> TableView {
        TableView {
            bindings: self.bindings.subrange(0, self.scope_start()),
            depth: if self.depth > 0 {
                (self.depth - 1) as nat
            } else {
                0
            },
            ..self
        }
    }
}

/// `resolve_in` finds the last binding that answers to `name`, and finds none
/// only where there is none.
pub proof fn lemma_resolve_in(bindings: Seq<Binding>, name: Name)
    ensures
        match resolve_in(bindings, name) {
            Some(k) => {
                &&& 0 <= k < bindings.len()
                &&& bindings[k].answers_to(name)
                &&& forall|j: int| k < j < bindings.len() ==> !(#[trigger] bindings[j]).answers_to(name)
            },
            None => forall|j: int| 0 <= j < bindings.len() ==> !(#[trigger] bindings[j]).answers_to(name),
        },
    decreases bindings.len(),
{
    if bindings.len() > 0 && !bindings.last().answers_to(name) {
        lemma_resolve_in(bindings.drop_last(), name);
        let prefix = bindings.drop_last();
        assert forall|j: int| 0 <= j < prefix.len() implies prefix[j] == bindings[j] by {}
    }
}

/// The bindings from `scope_start_in` on all have depth `depth`, and the one
/// just before, if there is one, has not.
pub proof fn lemma_scope_start_in(bindings: Seq<Binding>, depth: nat)
    ensures
        0 <= scope_start_in(bindings, depth) <= bindings.len(),
        forall|j: int|
            scope_start_in(bindings, depth) <= j < bindings.len() ==> (#[trigger] bindings[j]).declared_at.depth
                == depth,
        scope_start_in(bindings, depth) > 0 ==> bindings[scope_start_in(bindings, depth) - 1].declared_at.depth
            != depth,
    decreases bindings.len(),
{
    if !(bindings.len() == 0 || bindings.last().declared_at.depth != depth) {
        lemma_scope_start_in(bindings.drop_last(), depth);
        let prefix = bindings.drop_last();
        assert forall|j: int| 0 <= j < prefix.len() implies prefix[j] == bindings[j] by {}
    }
}

/// A name is unique among the live bindings of a scope.
///
/// In a table that meets its invariant, a name that is live in the innermost
/// scope denotes exactly that live binding: no other binding of the scope
/// that answers to the name is live, and no inner declaration hides it.
pub proof fn law_live_name_is_unique(table: TableView, name: Name)
    requires
        table.wf(),
        table.live_in_scope(name),
    ensures
        table.binding_of(name) matches Some(binding) && binding.state is Live
            && binding.declared_at.depth == table.depth,
        forall|i: int|
            0 <= i < table.bindings.len() && (#[trigger] table.bindings[i]).declared_at.depth
                == table.depth && table.bindings[i].answers_to(name) && table.bindings[i].state is Live
                ==> table.resolve(name) == Some(i),
{
    lemma_resolve_in(table.bindings, name);
    let k = table.resolve(name)->Some_0;
    assert forall|i: int|
        0 <= i < table.bindings.len() && (#[trigger] table.bindings[i]).declared_at.depth
            == table.depth && table.bindings[i].answers_to(name)
            && table.bindings[i].state is Live implies table.resolve(name) == Some(i) by {
        if i < k {
            assert(table.bindings[i].declared_at.depth <= table.bindings[k].declared_at.depth);
        }
    }
}

/// The bindings of all open scopes.
pub struct BindingTable {
    bindings: Vec<Binding>,
    depth: usize,
    declared: usize,
}

impl View for BindingTable {
    type V = TableView;

    closed spec fn view(&self) -> TableView {
        TableView {
            bindings: self.bindings@,
            depth: self.depth as nat,
            declared: self.declared as nat,
        }
    }
}

impl BindingTable {
    /// Whether the table meets its invariant. Every table that `new` made
    /// and that only the methods below have changed does.
    pub open spec fn wf(&self) -> bool {
        self@.wf()
    }

    /// A table with the outermost scope open and no binding in it.
    pub fn new() -> (table: BindingTable)
        ensures
            table.wf(),
            table@ == TableView::initial(),
    {
        BindingTable { bindings: Vec::new(), depth: 0, declared: 0 }
    }

    /// The depth of the innermost open scope.
    pub fn depth(&self) -> (depth: usize)
        ensures
            depth == self@.depth,
    {
        self.depth
    }

    /// How many bindings were declared so far.
    pub fn declared(&self) -> (declared: usize)
        ensures
            declared == self@.declared,
    {
        self.declared
    }

    /// Opens a new innermost scope, with no binding in it.
    pub fn enter_scope(&mut self)
        requires
            old(self).wf(),
            old(self)@.depth < usize::MAX,
        ensures
            final(self).wf(),
            final(self)@ == old(self)@.enter(),
    {
        self.depth = self.depth + 1;
    }

    /// Closes the innermost scope and returns its live bindings, the latest
    /// declaration first. The bindings of the scope leave the table.
    pub fn exit_scope(&mut self) -> (leaving: Vec<Binding>)
        requires
            old(self).wf(),
        ensures
            final(self).wf(),
            final(self)@ == old(self)@.leave(),
            leaving@ == old(self)@.leaving(),
    {
        let ghost before = self@;
        let mut leaving: Vec<Binding> = Vec::new();
        proof {
            lemma_scope_start_in(before.bindings, before.depth);
        }
        loop
            invariant
                self.depth == before.depth,
                self.declared == before.declared,
                0 <= before.scope_start() <= self.bindings@.len() <= before.bindings.len(),
                self.bindings@ == before.bindings.subrange(0, self.bindings@.len() as int),
                scope_start_in(self.bindings@, before.depth) == before.scope_start(),
                leaving@ + live_latest_first(
                    before.bindings.subrange(before.scope_start(), self.bindings@.len() as int),
                ) == before.leaving(),
            ensures
                self.depth == before.depth,
                self.declared == before.declared,
                self.bindings@ == before.bindings.subrange(0, before.scope_start()),
                leaving@ == before.leaving(),
            decreases self.bindings@.len(),
        {
            let len: usize = self.bindings.len();
            proof {
                lemma_scope_start_in(before.bindings, before.depth);
            }
            if len == 0 || self.bindings[len - 1].declared_at.depth != self.depth {
                proof {
                    let rest = before.bindings.subrange(before.scope_start(), len as int);
                    assert(rest.len() == 0);
                    assert(leaving@ + Seq::<Binding>::empty() == leaving@);
                }
                break;
            }
            let ghost current = before.bindings.subrange(before.scope_start(), len as int);
            let last = self.bindings.pop().unwrap();
            proof {
                assert(current.last() == last);
                assert(current.drop_last() == before.bindings.subrange(
                    before.scope_start(),
                    len as int - 1,
                ));
                assert(self.bindings@ == before.bindings.subrange(0, len as int - 1));
            }
            match last.state {
                BindingState::Live => {
                    proof {
                        assert(leaving@.push(last) + live_latest_first(current.drop_last())
                            == leaving@ + (seq![last] + live_latest_first(current.drop_last())));
                    }
                    leaving.push(last);
                },
                _ => {},
            }
        }
        if self.depth > 0 {
            self.depth = self.depth - 1;
        }
        leaving
    }

    /// Declares `name` in the innermost scope, as a live binding of kind
    /// `kind`. Fails with `DoubleBindingName`, and leaves the table as it
    /// was, if `name` denotes a live binding of that scope.
    pub fn declare(&mut self, name: Name, kind: ValueKind) -> (result: Result<
        BindingHandle,
        ViolationKind,
    >)
        requires
            old(self).wf(),
            old(self)@.declared < usize::MAX,
        ensures
            final(self).wf(),
            match result {
                Ok(handle) => {
                    &&& !old(self)@.live_in_scope(name)
                    &&& final(self)@ == old(self)@.bind(name, false, kind)
                    &&& handle.index == old(self)@.bindings.len()
                },
                Err(error) => {
                    &&& old(self)@.live_in_scope(name)
                    &&& error == ViolationKind::DoubleBindingName
                    &&& final(self)@ == old(self)@
                },
            },
    {
        let mut i: usize = self.bindings.len();
        while i > 0 && self.bindings[i - 1].declared_at.depth == self.depth
            invariant
                self.wf(),
                i <= self.bindings@.len(),
                forall|j: int|
                    i <= j < self.bindings@.len() ==> !({
                        &&& (#[trigger] self.bindings@[j]).declared_at.depth == self.depth
                        &&& self.bindings@[j].answers_to(name)
                        &&& self.bindings@[j].state is Live
                    }),
            decreases i,
        {
            let b = self.bindings[i - 1];
            if b.name == name && !b.synthetic {
                match b.state {
                    BindingState::Live => {
                        return Err(ViolationKind::DoubleBindingName);
                    },
                    _ => {},
                }
            }
            i -= 1;
        }
        proof {
            assert forall|j: int| 0 <= j < i implies (#[trigger] self.bindings@[j]).declared_at.depth
                != self.depth by {
                if i > 0 {
                    assert(self.bindings@[i - 1].declared_at.depth != self.depth);
                    if j < i - 1 {
                        assert(self.bindings@[j].declared_at.depth
                            <= self.bindings@[i - 1].declared_at.depth);
                    }
                }
            }
        }
        proof {
            if self@.live_in_scope(name) {
                let k = choose|k: int|
                    0 <= k < self.bindings@.len() && (#[trigger] self.bindings@[k]).declared_at.depth
                        == self.depth && self.bindings@[k].answers_to(name)
                        && self.bindings@[k].state is Live;
                assert(false);
            }
        }
        Ok(self.push(name, false, kind))
    }

    /// Adds a binding for `name` to the innermost scope under a synthetic
    /// name: it owns a value of kind `kind`, and no identifier resolves to it.
    pub fn declare_synthetic(&mut self, name: Name, kind: ValueKind) -> (handle: BindingHandle)
        requires
            old(self).wf(),
            old(self)@.declared < usize::MAX,
        ensures
            final(self).wf(),
            final(self)@ == old(self)@.bind(name, true, kind),
            handle.index == old(self)@.bindings.len(),
    {
        self.push(name, true, kind)
    }

    fn push(&mut self, name: Name, synthetic: bool, kind: ValueKind) -> (handle: BindingHandle)
        requires
            old(self).wf(),
            old(self)@.declared < usize::MAX,
            synthetic || !old(self)@.live_in_scope(name),
        ensures
            final(self).wf(),
            final(self)@ == old(self)@.bind(name, synthetic, kind),
            handle.index == old(self)@.bindings.len(),
    {
        let index: usize = self.bindings.len();
        proof {
            assert forall|i: int|
                0 <= i < self.bindings@.len() && !synthetic && (
                #[trigger] self.bindings@[i]).declared_at.depth == self.depth
                    && self.bindings@[i].answers_to(name) implies !(self.bindings@[i].state is Live) by {
                if self.bindings@[i].state is Live {
                    assert(self@.live_in_scope(name));
                }
            }
        }
        self.bindings.push(
            Binding {
                name,
                synthetic,
                kind,
                state: BindingState::Live,
                declared_at: DeclSite { depth: self.depth, position: self.declared },
            },
        );
        self.declared = self.declared + 1;
        BindingHandle { index }
    }

    /// Finds the binding that `name` denotes: the scopes are searched from
    /// the innermost outwards, and in each the latest declaration counts.
    /// Fails with `UnknownIdentifier` if no open scope binds `name`.
    pub fn lookup(&self, name: Name) -> (result: Result<BindingHandle, ViolationKind>)
        ensures
            match result {
                Ok(handle) => self@.resolve(name) == Some(handle.index as int),
                Err(error) => error == ViolationKind::UnknownIdentifier && self@.resolve(name) is None,
            },
    {
        let mut i: usize = self.bindings.len();
        while i > 0
            invariant
                i <= self.bindings@.len(),
                forall|j: int| i <= j < self.bindings@.len() ==> !(#[trigger] self.bindings@[j]).answers_to(name),
            decreases i,
        {
            let b = self.bindings[i - 1];
            if b.name == name && !b.synthetic {
                proof {
                    lemma_resolve_in(self.bindings@, name);
                    assert(self.bindings@[i - 1].answers_to(name));
                }
                return Ok(BindingHandle { index: i - 1 });
            }
            i -= 1;
        }
        proof {
            lemma_resolve_in(self.bindings@, name);
        }
        Err(ViolationKind::UnknownIdentifier)
    }

    /// The binding that `handle` points to, if it is still in the table.
    pub fn get(&self, handle: BindingHandle) -> (binding: Option<Binding>)
        ensures
            binding == self@.at(handle.index as int),
    {
        if handle.index < self.bindings.len() {
            Some(self.bindings[handle.index])
        } else {
            None
        }
    }

    /// Moves the value out of the binding at `handle`, on behalf of the
    /// instruction at `at`. Only a live binding with a move-only value can be
    /// moved from; any other is left as it is, and the result is `false`.
    pub fn move_out(&mut self, handle: BindingHandle, at: Location) -> (moved: bool)
        requires
            old(self).wf(),
        ensures
            final(self).wf(),
            moved == old(self)@.movable(handle.index as int),
            final(self)@ == if moved {
                old(self)@.with_state(handle.index as int, BindingState::Moved { at })
            } else {
                old(self)@
            },
    {
        if handle.index >= self.bindings.len() {
            return false;
        }
        let b = self.bindings[handle.index];
        match (b.state, b.kind) {
            (BindingState::Live, ValueKind::MoveOnly) => {
                self.bindings[handle.index] = Binding { state: BindingState::Moved { at }, ..b };
                true
            },
            _ => false,
        }
    }

    /// Makes the binding at `handle` live again after a use of its moved
    /// value was reported. Only a moved binding that its name still denotes
    /// can be revived; any other is left as it is, and the result is `false`.
    pub fn revive(&mut self, handle: BindingHandle) -> (revived: bool)
        requires
            old(self).wf(),
        ensures
            final(self).wf(),
            revived == old(self)@.revivable(handle.index as int),
            final(self)@ == if revived {
                old(self)@.with_state(handle.index as int, BindingState::Live)
            } else {
                old(self)@
            },
    {
        if handle.index >= self.bindings.len() {
            return false;
        }
        let b = self.bindings[handle.index];
        match b.state {
            BindingState::Moved { .. } => {
                match self.lookup(b.name) {
                    Ok(found) => {
                        if found.index == handle.index {
                            proof {
                                lemma_resolve_in(self.bindings@, b.name);
                            }
                            self.bindings[handle.index] = Binding { state: BindingState::Live, ..b };
                            true
                        } else {
                            false
                        }
                    },
                    Err(_) => false,
                }
            },
            _ => false,
        }
    }
}

} // verus!
