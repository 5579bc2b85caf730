//! The move checker: one pass over the instructions, which updates the
//! binding table, reports every violation and plans the releases of every
//! scope that ends.

use vstd::prelude::*;
use crate::binding::{BindingState, DeclSite, Location, Name};
use crate::diagnostics::{Reporter, Violation, ViolationKind};
use crate::ir::{Init, Instr, MalformedInput, Operand};
use crate::planner::{plan_for, plan_release, Release};
use crate::table::{lemma_resolve_in, BindingTable, TableView};
use crate::value::{classify, kind_of, ValueKind};

verus! {

/// What an instruction does with a variable that it names.
#[derive(Clone, Copy, Debug, PartialEq, Eq, Structural)]
pub enum Use {
    /// The value is looked at and stays where it is.
    Inspect,
    /// The value is handed to a place that expects the given kind.
    Take(ValueKind),
}

/// The state of an analysis, as a mathematical value.
pub struct CheckerView {
    pub table: TableView,
    /// The violations found so far, in the order of their detection.
    pub violations: Seq<Violation>,
    /// The releases planned so far, in the order in which they are due.
    pub releases: Seq<Release>,
}

impl CheckerView {
    /// The state before the first instruction.
    pub open spec fn initial() -> CheckerView {
        CheckerView {
            table: TableView::initial(),
            violations: Seq::empty(),
            releases: Seq::empty(),
        }
    }

    /// The state after operand number `operand` of the instruction at `at`
    /// was found to break the rule `kind` by its use of `name`.
    pub open spec fn flag(
        self,
        kind: ViolationKind,
        name: Name,
        at: Location,
        operand: usize,
        caused_by: Option<Location>,
    ) -> CheckerView {
        CheckerView {
            violations: self.violations.push(
                Violation {
                    kind,
                    binding: name,
                    location: at,
                    operand,
                    declared_at: self.table.site_of(name),
                    caused_by,
                },
            ),
            ..self
        }
    }

    /// The state after operand number `operand` of the instruction at `at`
    /// used the variable `name`.
    ///
    /// - An unbound name is reported as `UnknownIdentifier`.
    /// - A binding that is not live is reported as `UseAfterMove`, with the
    ///   instruction that moved its value as the cause, and is live again
    ///   afterwards.
    /// - A live binding is left alone if its value is only looked at or is
    ///   copyable. A move-only value that is handed to a place expecting a
    ///   move-only value is moved; handed to a place expecting a copy, it is
    ///   reported as `CopyOfMoveOnlyWithoutClone` and stays.
    pub open spec fn use_name(self, name: Name, mode: Use, at: Location, operand: usize) -> CheckerView {
        match self.table.resolve(name) {
            None => self.flag(ViolationKind::UnknownIdentifier, name, at, operand, None),
            Some(index) => {
                let binding = self.table.bindings[index];
                match binding.state {
                    BindingState::Moved { at: cause } => CheckerView {
                        table: self.table.with_state(index, BindingState::Live),
                        ..self.flag(ViolationKind::UseAfterMove, name, at, operand, Some(cause))
                    },
                    BindingState::Dropped => self.flag(
                        ViolationKind::UseAfterMove,
                        name,
                        at,
                        operand,
                        None,
                    ),
                    BindingState::Live => match mode {
                        Use::Inspect => self,
                        Use::Take(expects) => if binding.kind is Copyable {
                            self
                        } else if expects is MoveOnly {
                            CheckerView {
                                table: self.table.with_state(index, BindingState::Moved { at }),
                                ..self
                            }
                        } else {
                            self.flag(
                                ViolationKind::CopyOfMoveOnlyWithoutClone,
                                name,
                                at,
                                operand,
                                None,
                            )
                        },
                    },
                }
            },
        }
    }

    /// The state after the instruction at `at` declared `name` with a value
    /// of kind `kind`. A name that is live in the innermost scope is reported
    /// as `DoubleBindingName`, and the new binding is kept under a synthetic
    /// name.
    pub open spec fn declare(self, name: Name, kind: ValueKind, at: Location) -> CheckerView {
        if self.table.live_in_scope(name) {
            CheckerView {
                table: self.table.bind(name, true, kind),
                ..self.flag(ViolationKind::DoubleBindingName, name, at, 0, None)
            }
        } else {
            CheckerView { table: self.table.bind(name, false, kind), ..self }
        }
    }

    /// The state after the first `count` of `args` were passed by value, by
    /// the instruction at `at`.
    pub open spec fn pass(self, args: Seq<Operand>, at: Location, count: nat) -> CheckerView
        decreases count,
    {
        if count == 0 {
            self
        } else {
            let index = (count - 1) as nat;
            self.pass(args, at, index).use_name(
                args[index as int].name,
                Use::Take(args[index as int].expects),
                at,
                index as usize,
            )
        }
    }

    /// The state after the innermost scope ended: its bindings have left the
    /// table, and the releases of its live move-only values are planned, the
    /// latest declaration first.
    pub open spec fn exit(self) -> CheckerView {
        CheckerView {
            table: self.table.leave(),
            releases: self.releases + plan_for(self.table.leaving()),
            ..self
        }
    }

    /// The state after `instr`, or the reason why `instr` cannot be part of
    /// a program.
    pub open spec fn step(self, instr: Instr) -> Result<CheckerView, MalformedInput> {
        match instr {
            Instr::Declare { name, ty, init, at } => {
                let kind = kind_of(ty);
                let used = match init {
                    Init::Value => self,
                    Init::Ident(source) => self.use_name(source, Use::Take(kind), at, 0),
                    Init::CloneOf(source) => self.use_name(source, Use::Inspect, at, 0),
                };
                Ok(used.declare(name, kind, at))
            },
            Instr::Read { name, at } => Ok(self.use_name(name, Use::Inspect, at, 0)),
            Instr::Call { callee, args, at } => Ok(self.pass(args@, at, args@.len())),
            Instr::Return { value, at } => Ok(
                self.use_name(value.name, Use::Take(value.expects), at, 0),
            ),
            Instr::BlockEnter { at } => Ok(CheckerView { table: self.table.enter(), ..self }),
            Instr::BlockExit { at } => if self.table.depth == 0 {
                Err(MalformedInput::UnmatchedBlockExit { at })
            } else {
                Ok(self.exit())
            },
        }
    }

    /// The state after the last instruction: the outermost scope ends too.
    /// A block that is still open makes the input malformed.
    pub open spec fn finish(self) -> Result<CheckerView, MalformedInput> {
        if self.table.depth != 0 {
            Err(MalformedInput::UnclosedBlock { depth: self.table.depth as usize })
        } else {
            Ok(self.exit())
        }
    }
}

/// The state after the first `count` instructions of `program`, starting
/// from `start`, or the first reason why the input is malformed.
pub open spec fn run(start: CheckerView, program: Seq<Instr>, count: nat) -> Result<
    CheckerView,
    MalformedInput,
>
    decreases count,
{
    if count == 0 {
        Ok(start)
    } else {
        match run(start, program, (count - 1) as nat) {
            Ok(state) => state.step(program[count - 1]),
            Err(error) => Err(error),
        }
    }
}

/// The state in which the analysis of `program` ends.
pub open spec fn outcome(program: Seq<Instr>) -> Result<CheckerView, MalformedInput> {
    match run(CheckerView::initial(), program, program.len()) {
        Ok(state) => state.finish(),
        Err(error) => Err(error),
    }
}

/// What an analysis found.
#[derive(Debug, PartialEq, Eq)]
pub struct Report {
    /// The violations, in the order of the instructions that caused them.
    pub violations: Vec<Violation>,
    /// Whether there is no violation.
    pub ok: bool,
    /// The releases that the program owes, in the order in which they are
    /// due.
    pub releases: Vec<Release>,
}

impl Report {
    /// Whether this is the report of an analysis that ended in `state`.
    pub open spec fn reports(self, state: CheckerView) -> bool {
        &&& self.violations@ == state.violations
        &&& self.releases@ == state.releases
        &&& self.ok == (state.violations.len() == 0)
    }
}

/// An analysis in progress.
pub struct MoveChecker {
    table: BindingTable,
    reporter: Reporter,
    releases: Vec<Release>,
}

impl View for MoveChecker {
    type V = CheckerView;

    closed spec fn view(&self) -> CheckerView {
        CheckerView { table: self.table@, violations: self.reporter@, releases: self.releases@ }
    }
}

impl MoveChecker {
    /// Whether the checker meets its invariant. Every checker that `new`
    /// made and that only the methods below have changed does.
    pub open spec fn wf(&self) -> bool {
        self@.table.wf()
    }

    /// Whether the checker can take one more instruction: the counters of
    /// its table have not reached the limit of `usize`.
    pub open spec fn has_room(&self) -> bool {
        self@.table.depth < usize::MAX && self@.table.declared < usize::MAX
    }

    /// A checker that has seen no instruction.
    pub fn new() -> (checker: MoveChecker)
        ensures
            checker.wf(),
            checker@ == CheckerView::initial(),
    {
        MoveChecker { table: BindingTable::new(), reporter: Reporter::new(), releases: Vec::new() }
    }

    /// The violations found so far, in the order of their detection.
    pub fn violations(&self) -> (violations: &Vec<Violation>)
        ensures
            violations@ == self@.violations,
    {
        self.reporter.all()
    }

    /// The releases planned so far, in the order in which they are due.
    pub fn releases(&self) -> (releases: &Vec<Release>)
        ensures
            releases@ == self@.releases,
    {
        &self.releases
    }

    fn flag(
        &mut self,
        kind: ViolationKind,
        name: Name,
        at: Location,
        operand: usize,
        declared_at: Option<DeclSite>,
        caused_by: Option<Location>,
    )
        requires
            declared_at == old(self)@.table.site_of(name),
        ensures
            final(self)@ == old(self)@.flag(kind, name, at, operand, caused_by),
    {
        self.reporter.report(
            Violation { kind, binding: name, location: at, operand, declared_at, caused_by },
        );
    }

    fn use_name(&mut self, name: Name, mode: Use, at: Location, operand: usize)
        requires
            old(self).wf(),
        ensures
            final(self).wf(),
            final(self)@ == old(self)@.use_name(name, mode, at, operand),
            final(self)@.table.depth == old(self)@.table.depth,
            final(self)@.table.declared == old(self)@.table.declared,
    {
        proof {
            lemma_resolve_in(self@.table.bindings, name);
        }
        match self.table.lookup(name) {
            Err(kind) => {
                self.flag(kind, name, at, operand, None, None);
            },
            Ok(handle) => {
                let binding = self.table.get(handle).unwrap();
                let site = Some(binding.declared_at);
                match binding.state {
                    BindingState::Moved { at: cause } => {
                        self.flag(ViolationKind::UseAfterMove, name, at, operand, site, Some(cause));
                        self.table.revive(handle);
                    },
                    BindingState::Dropped => {
                        self.flag(ViolationKind::UseAfterMove, name, at, operand, site, None);
                    },
                    BindingState::Live => {
                        match (mode, binding.kind) {
                            (Use::Take(ValueKind::MoveOnly), ValueKind::MoveOnly) => {
                                self.table.move_out(handle, at);
                            },
                            (Use::Take(ValueKind::Copyable), ValueKind::MoveOnly) => {
                                self.flag(
                                    ViolationKind::CopyOfMoveOnlyWithoutClone,
                                    name,
                                    at,
                                    operand,
                                    site,
                                    None,
                                );
                            },
                            _ => {},
                        }
                    },
                }
            },
        }
    }

    fn declare(&mut self, name: Name, kind: ValueKind, at: Location)
        requires
            old(self).wf(),
            old(self)@.table.declared < usize::MAX,
        ensures
            final(self).wf(),
            final(self)@ == old(self)@.declare(name, kind, at),
            final(self)@.table.depth == old(self)@.table.depth,
            final(self)@.table.declared == old(self)@.table.declared + 1,
    {
        match self.table.declare(name, kind) {
            Ok(_) => {},
            Err(error) => {
                proof {
                    lemma_resolve_in(self@.table.bindings, name);
                }
                let site = match self.table.lookup(name) {
                    Ok(handle) => Some(self.table.get(handle).unwrap().declared_at),
                    Err(_) => None,
                };
                self.flag(error, name, at, 0, site, None);
                self.table.declare_synthetic(name, kind);
            },
        }
    }

    fn exit(&mut self)
        requires
            old(self).wf(),
        ensures
            final(self).wf(),
            final(self)@ == old(self)@.exit(),
    {
        let mut leaving = self.table.exit_scope();
        let mut plan = plan_release(&mut leaving);
        self.releases.append(&mut plan);
    }

    /// Analyses one instruction.
    ///
    /// Violations are recorded and the analysis goes on; only a `BlockExit`
    /// with no block open is an error, and it leaves the checker as it was.
    pub fn step(&mut self, instr: &Instr) -> (result: Result<(), MalformedInput>)
        requires
            old(self).wf(),
            old(self).has_room(),
        ensures
            final(self).wf(),
            match result {
                Ok(()) => old(self)@.step(*instr) == Ok::<CheckerView, MalformedInput>(final(self)@),
                Err(error) => old(self)@.step(*instr) == Err::<CheckerView, MalformedInput>(error)
                    && final(self)@ == old(self)@,
            },
            final(self)@.table.depth <= old(self)@.table.depth + 1,
            final(self)@.table.declared <= old(self)@.table.declared + 1,
    {
        match instr {
            Instr::Declare { name, ty, init, at } => {
                let kind = classify(ty);
                match *init {
                    Init::Value => {},
                    Init::Ident(source) => {
                        self.use_name(source, Use::Take(kind), *at, 0);
                    },
                    Init::CloneOf(source) => {
                        self.use_name(source, Use::Inspect, *at, 0);
                    },
                }
                self.declare(*name, kind, *at);
                Ok(())
            },
            Instr::Read { name, at } => {
                self.use_name(*name, Use::Inspect, *at, 0);
                Ok(())
            },
            Instr::Call { callee, args, at } => {
                let ghost before = self@;
                let mut i: usize = 0;
                while i < args.len()
                    invariant
                        self.wf(),
                        i <= args@.len(),
                        self@ == before.pass(args@, *at, i as nat),
                        self@.table.depth == before.table.depth,
                        self@.table.declared == before.table.declared,
                    decreases args@.len() - i,
                {
                    let arg = args[i];
                    self.use_name(arg.name, Use::Take(arg.expects), *at, i);
                    i += 1;
                }
                Ok(())
            },
            Instr::Return { value, at } => {
                self.use_name(value.name, Use::Take(value.expects), *at, 0);
                Ok(())
            },
            Instr::BlockEnter { at } => {
                self.table.enter_scope();
                Ok(())
            },
            Instr::BlockExit { at } => {
                if self.table.depth() == 0 {
                    Err(MalformedInput::UnmatchedBlockExit { at: *at })
                } else {
                    self.exit();
                    Ok(())
                }
            },
        }
    }

    /// Ends the analysis: the outermost scope ends, and the report is drawn
    /// up. Fails if a block is still open.
    pub fn finish(self) -> (result: Result<Report, MalformedInput>)
        requires
            self.wf(),
        ensures
            match result {
                Ok(report) => self@.finish() is Ok && report.reports(self@.finish()->Ok_0),
                Err(error) => self@.finish() == Err::<CheckerView, MalformedInput>(error),
            },
    {
        let mut checker = self;
        let depth: usize = checker.table.depth();
        if depth != 0 {
            return Err(MalformedInput::UnclosedBlock { depth });
        }
        checker.exit();
        let ok = !checker.reporter.has_errors();
        Ok(Report { violations: checker.reporter.into_violations(), ok, releases: checker.releases })
    }
}

/// Analyses `program` from its first instruction to its last.
///
/// Every violation is recorded and the walk goes on to the end; the report
/// lists them in the order of the instructions. The one fatal condition is a
/// sequence whose blocks do not nest: a `BlockExit` with no block open ends
/// the walk at once, and a block left open is found at the end.
pub fn analyze(program: &Vec<Instr>) -> (result: Result<Report, MalformedInput>)
    ensures
        match result {
            Ok(report) => outcome(program@) is Ok && report.reports(outcome(program@)->Ok_0),
            Err(error) => outcome(program@) == Err::<CheckerView, MalformedInput>(error),
        },
{
    let mut checker = MoveChecker::new();
    let mut i: usize = 0;
    while i < program.len()
        invariant
            checker.wf(),
            i <= program@.len(),
            run(CheckerView::initial(), program@, i as nat) == Ok::<CheckerView, MalformedInput>(
                checker@,
            ),
            checker@.table.depth <= i,
            checker@.table.declared <= i,
        decreases program@.len() - i,
    {
        match checker.step(&program[i]) {
            Ok(()) => {},
            Err(error) => {
                proof {
                    lemma_run_stays_failed(CheckerView::initial(), program@, i as nat + 1, program@.len());
                }
                return Err(error);
            },
        }
        i += 1;
    }
    checker.finish()
}

/// Once a run has failed, it stays failed with the same error however many
/// instructions follow.
pub proof fn lemma_run_stays_failed(start: CheckerView, program: Seq<Instr>, failed: nat, count: nat)
    requires
        run(start, program, failed) is Err,
        failed <= count,
    ensures
        run(start, program, count) == run(start, program, failed),
    decreases count,
{
    if failed < count {
        lemma_run_stays_failed(start, program, failed, (count - 1) as nat);
    }
}

} // verus!
