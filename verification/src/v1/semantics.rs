//! The meaning of programs.
//!
//! The spec functions of this module say what the evaluation of an
//! expression, a statement or a call gives, and how it leaves the heap, the
//! scopes and the modules, as far as that is settled by the program alone.
//! Where the host has a say (a floating-point number is computed, input is
//! read, a command runs) and where tasks are scheduled, the meaning is left
//! open. The interpreter is proved to compute what is settled here.
//!
//! Evaluation is bounded as the interpreter bounds it: by the depth that is
//! left, and by the number of rounds that a loop may run.

use vstd::prelude::*;
use std::sync::Arc;
use crate::context::{
    declared, lemma_declared_is_local, lemma_declared_is_visible, lemma_outer_scope_unchanged, sees,
    visible, ScopeView,
};
use crate::error::{fault_of, Fault, PipelineError};
use crate::module::{merged, Builtin, Function, Module};
use crate::table::placed;
use crate::v1::access::{
    element, handle_fault, index_fault, is_key, size, store_fault, with_appended, with_element,
    without_element, cell_of,
};
use crate::v1::expr::{Expr, FnCallExpr, Op};
use crate::v1::interpreter::{scoped, selected, Flow, Worker};
use crate::v1::operators::{defined, is_arithmetic, plain_text, settled};
use crate::v1::parser::{FnDef, VariableDeclaration};
use crate::v1::position::Position;
use crate::v1::stmt::{IfBranchStmt, Stmt};
use crate::v1::types::{
    array_view, content, kind_name, live, DynamicView, FnPtrView, Value, ValueView,
};

verus! {

/// The part of the state of a run that the meaning of a program speaks of.
pub struct Core {
    pub heap: Seq<Option<DynamicView>>,
    pub scopes: Seq<ScopeView>,
    /// The functions of the main module.
    pub functions: Map<Seq<char>, Function>,
    /// The methods of the classes of the main module, by class.
    pub methods: Map<Seq<char>, Map<Seq<char>, Function>>,
    pub modules: Map<Seq<char>, Module>,
    /// The number of rounds that a loop may run.
    pub rounds: u64,
    /// The texts that were handed to the host to be written, in order.
    pub written: Seq<Seq<char>>,
    /// The settings of the run.
    pub settings: Map<Seq<char>, Seq<char>>,
    /// The join-sets of the pipelines that are running, the innermost last:
    /// the tasks that were submitted and have not run yet.
    pub join_sets: Seq<Seq<WorkerView>>,
    /// For every task that is running, the innermost last, how much output
    /// of commands waits to be handed to the logger.
    pub waiting: Seq<nat>,
}

/// A task that was submitted.
pub struct WorkerView {
    pub name: Seq<char>,
    pub body: FnPtrView,
    pub scope: usize,
}

impl View for Worker {
    type V = WorkerView;

    open spec fn view(&self) -> WorkerView {
        WorkerView { name: self.name@, body: self.body@, scope: self.scope }
    }
}

/// The views of the tasks of a join-set.
pub open spec fn workers_view(set: Seq<Worker>) -> Seq<WorkerView> {
    Seq::new(set.len(), |i: int| set[i]@)
}

/// The views of the join-sets.
pub open spec fn sets_view(sets: Seq<Vec<Worker>>) -> Seq<Seq<WorkerView>> {
    Seq::new(sets.len(), |i: int| workers_view(sets[i]@))
}

/// The filter that a setting holds: its value, or `all` where it is not
/// set.
pub open spec fn filter_of(c: Core, key: Seq<char>) -> Seq<char> {
    if c.settings.contains_key(key) {
        c.settings[key]
    } else {
        "all"@
    }
}

/// What an evaluation gives: nothing that is settled here, or a result and
/// the state it leaves.
pub enum Outcome<T> {
    Unsettled,
    Settled(Result<T, Fault>, Core),
}

pub open spec fn done<T>(v: T, c: Core) -> Outcome<T> {
    Outcome::Settled(Ok(v), c)
}

pub open spec fn failed<T>(f: Fault, c: Core) -> Outcome<T> {
    Outcome::Settled(Err(f), c)
}

/// How a statement ends.
pub enum FlowView {
    Normal(ValueView),
    Break,
    Continue,
    Return(ValueView),
}

impl View for Flow {
    type V = FlowView;

    open spec fn view(&self) -> FlowView {
        match self {
            Flow::Normal(v) => FlowView::Normal(v@),
            Flow::Break => FlowView::Break,
            Flow::Continue => FlowView::Continue,
            Flow::Return(v) => FlowView::Return(v@),
        }
    }
}

pub open spec fn unit_view() -> ValueView {
    ValueView::Immutable(DynamicView::Unit)
}

/// The form in which a value is kept inside an array, a map or an instance.
pub open spec fn kept_view(v: ValueView) -> ValueView {
    match v {
        ValueView::Mutable(h) => ValueView::Refer(h),
        other => other,
    }
}

/// The state with `d` in a new cell of the heap.
pub open spec fn allocated(c: Core, d: DynamicView) -> Core {
    Core { heap: c.heap.push(Some(d)), ..c }
}

/// The number of the cell that `allocated` makes.
pub open spec fn fresh_cell(c: Core) -> usize {
    c.heap.len() as usize
}

/// The state with a new scope inside the scope `parent`.
pub open spec fn entered(c: Core, parent: usize) -> Core {
    Core {
        scopes: c.scopes.push(
            ScopeView { parent: Some(parent), bindings: Map::<Seq<char>, ValueView>::empty() },
        ),
        ..c
    }
}

/// The number of the scope that `entered` makes.
pub open spec fn fresh_scope(c: Core) -> usize {
    c.scopes.len() as usize
}

/// The state with `name` bound to `v` in the scope `scope`.
pub open spec fn bound(c: Core, scope: usize, name: Seq<char>, v: ValueView) -> Core {
    Core { scopes: declared(c.scopes, scope as int, name, v), ..c }
}

/// The methods of a class of the main module.
pub open spec fn methods_of(c: Core, class: Seq<char>) -> Map<Seq<char>, Function> {
    if c.methods.contains_key(class) {
        c.methods[class]
    } else {
        Map::empty()
    }
}

/// What a call resolves to: see [`crate::v1::interpreter::resolution`].
pub open spec fn resolved(c: Core, name: Seq<char>, receiver: Option<Seq<char>>) -> Result<
    (Function, bool),
    Fault,
> {
    match scoped(name) {
        Some((m, f)) => if c.modules.contains_key(m) {
            if c.modules[m].functions().contains_key(f) {
                Ok((c.modules[m].functions()[f], false))
            } else {
                Err(Fault::FunctionUndefined)
            }
        } else {
            Err(Fault::UnknownModule)
        },
        None => if receiver is Some && methods_of(c, receiver->0).contains_key(name) {
            Ok((methods_of(c, receiver->0)[name], true))
        } else if c.functions.contains_key(name) {
            Ok((c.functions[name], false))
        } else {
            Err(Fault::FunctionUndefined)
        },
    }
}

/// The class of the instance that a value stands for.
pub open spec fn receiver_class(c: Core, v: Option<ValueView>) -> Option<Seq<char>> {
    match v {
        Some(v) => match content(c.heap, v) {
            Some(DynamicView::Struct(name, _)) => Some(name),
            _ => None,
        },
        None => None,
    }
}

/// The result of a binary operator on two values.
pub open spec fn sem_binary(c: Core, op: Op, l: ValueView, r: ValueView) -> Outcome<ValueView> {
    match (content(c.heap, l), content(c.heap, r)) {
        (Some(ld), Some(rd)) => if defined(op, ld, rd) {
            match settled(op, ld, rd) {
                Some(v) => done(ValueView::Immutable(v), c),
                None => Outcome::Unsettled,
            }
        } else {
            failed(Fault::UndefinedOperation, c)
        },
        _ => failed(Fault::VariableUndefined, c),
    }
}

/// What is read at an index of a value.
pub open spec fn sem_index(c: Core, base: ValueView, index: ValueView) -> Outcome<ValueView> {
    match content(c.heap, index) {
        Some(id) => match content(c.heap, base) {
            Some(d) => match element(d, id) {
                Some(v) => done(v, c),
                None => failed(index_fault(d, id), c),
            },
            None => failed(Fault::VariableUndefined, c),
        },
        None => failed(Fault::VariableUndefined, c),
    }
}

/// The index of the first field called `name`.
pub open spec fn field_position(props: Seq<(Seq<char>, ValueView)>, name: Seq<char>) -> Option<int> {
    crate::table::position_of(Seq::new(props.len(), |i: int| props[i].0), name)
}

/// The value of a field of an instance.
pub open spec fn sem_member(c: Core, base: ValueView, name: Seq<char>) -> Outcome<ValueView> {
    match content(c.heap, base) {
        Some(DynamicView::Struct(_, props)) => match field_position(props, name) {
            Some(i) => done(props[i].1, c),
            None => failed(Fault::VariableUndefined, c),
        },
        Some(_) => failed(Fault::ExpectedType, c),
        None => failed(Fault::VariableUndefined, c),
    }
}

/// The fields of a struct literal with one more field: a field of the same
/// name is replaced.
pub open spec fn with_field(props: Seq<(Seq<char>, ValueView)>, name: Seq<char>, v: ValueView) -> Seq<
    (Seq<char>, ValueView),
> {
    match field_position(props, name) {
        Some(i) => props.update(i, (name, v)),
        None => props.push((name, v)),
    }
}

/// Binding a name to a value: an array, a map or an instance that lives in
/// a cell is bound by a handle to that cell; anything else is copied into a
/// new cell.
pub open spec fn sem_bind(c: Core, scope: usize, name: Seq<char>, v: ValueView) -> Outcome<()> {
    match content(c.heap, v) {
        None => failed(Fault::VariableUndefined, c),
        Some(d) => {
            let shared = (d is Array || d is Mapping || d is Struct) && cell_of(v) is Some;
            let c1 = if shared {
                c
            } else {
                allocated(c, d)
            };
            let h = if shared {
                cell_of(v)->0
            } else {
                fresh_cell(c)
            };
            if scope < c.scopes.len() {
                done((), bound(c1, scope, name, ValueView::Mutable(h)))
            } else {
                failed(Fault::VariableUndefined, c1)
            }
        },
    }
}

/// Assigning through a value: the cell that it names holds what `v` stands
/// for.
pub open spec fn sem_assign(c: Core, target: ValueView, v: ValueView) -> Outcome<()> {
    match content(c.heap, v) {
        None => failed(Fault::VariableUndefined, c),
        Some(d) => match crate::v1::access::assigned(c.heap, target, d) {
            Some(heap) => done((), Core { heap, ..c }),
            None => failed(handle_fault(target), c),
        },
    }
}

/// Storing at an index through a value.
pub open spec fn sem_store(c: Core, target: ValueView, index: ValueView, v: ValueView) -> Outcome<()> {
    match content(c.heap, index) {
        None => failed(Fault::VariableUndefined, c),
        Some(id) => match crate::v1::access::stored(c.heap, target, id, kept_view(v)) {
            Some(heap) => done((), Core { heap, ..c }),
            None => failed(
                match content(c.heap, target) {
                    Some(d) => if target is Immutable {
                        Fault::UnexpectedType
                    } else {
                        store_fault(d, id)
                    },
                    None => handle_fault(target),
                },
                c,
            ),
        },
    }
}

/// Importing a module into the main module.
pub open spec fn sem_import(c: Core, name: Seq<char>) -> Outcome<()> {
    if c.modules.contains_key(name) {
        let m = c.modules[name];
        done(
            (),
            Core {
                functions: merged(c.functions, m.functions()),
                methods: Map::new(
                    |class: Seq<char>| c.methods.contains_key(class) || m.class_names().contains(class),
                    |class: Seq<char>|
                        if c.methods.contains_key(class) {
                            c.methods[class]
                        } else {
                            m.methods(class)
                        },
                ),
                ..c
            },
        )
    } else {
        failed(Fault::UnknownModule, c)
    }
}

/// What a call gives for the way its body ended.
pub open spec fn result_view(flow: FlowView) -> ValueView {
    match flow {
        FlowView::Return(x) => x,
        FlowView::Normal(x) => x,
        _ => unit_view(),
    }
}

/// The state with the names bound in order, from the `i`-th on.
pub open spec fn bound_all(c: Core, scope: usize, bindings: Seq<(Seq<char>, ValueView)>, i: int) -> Core
    decreases bindings.len() - i,
{
    if i < 0 || i >= bindings.len() {
        c
    } else {
        bound_all(bound(c, scope, bindings[i].0, bindings[i].1), scope, bindings, i + 1)
    }
}

/// The state with the parameters of a function bound, from the `i`-th
/// parameter on: the `i`-th parameter to argument `i + skip`, and to the
/// unit where there is no such argument.
pub open spec fn bound_params(
    c: Core,
    scope: usize,
    params: Seq<VariableDeclaration>,
    args: Seq<ValueView>,
    skip: int,
    i: int,
) -> Core
    decreases params.len() - i,
{
    if i < 0 || i >= params.len() {
        c
    } else {
        let v = if 0 <= i + skip < args.len() {
            args[i + skip]
        } else {
            unit_view()
        };
        bound_params(bound(c, scope, params[i].name@, v), scope, params, args, skip, i + 1)
    }
}

/// The value of an expression.
#[verifier::opaque]
pub open spec fn sem_expr(c: Core, scope: usize, e: Expr, depth: nat) -> Outcome<ValueView>
    decreases depth, 2nat, 0nat,
{
    if depth == 0 {
        failed(Fault::BudgetExhausted, c)
    } else {
        let d = (depth - 1) as nat;
        match e {
            Expr::StringConstant(s, _) => done(ValueView::Immutable(DynamicView::Text(s@)), c),
            Expr::IntConstant(i, _) => done(ValueView::Immutable(DynamicView::Integer(i)), c),
            Expr::FloatConstant(_, _) => Outcome::Unsettled,
            Expr::Empty(_) => done(unit_view(), c),
            Expr::Variable(name, _) => match visible(c.scopes, scope as int, name@) {
                Some(v) => done(v, c),
                None => failed(Fault::VariableUndefined, c),
            },
            Expr::FnClosure(closure, _) => done(
                ValueView::Immutable(
                    DynamicView::FnPtr(
                        FnPtrView {
                            name: closure.def.name@,
                            defer: true,
                            fn_def: Some(closure.def),
                            scope: Some(scope),
                        },
                    ),
                ),
                c,
            ),
            Expr::FnCall(call, _) => sem_call(c, scope, call, d),
            Expr::BinaryExpr(op, l, r, _) => match sem_expr(c, scope, *l, d) {
                Outcome::Settled(Ok(lv), c1) => match sem_expr(c1, scope, *r, d) {
                    Outcome::Settled(Ok(rv), c2) => sem_binary(c2, op, lv, rv),
                    Outcome::Settled(Err(f), c2) => failed(f, c2),
                    Outcome::Unsettled => Outcome::Unsettled,
                },
                Outcome::Settled(Err(f), c1) => failed(f, c1),
                Outcome::Unsettled => Outcome::Unsettled,
            },
            Expr::Array(items, _) => match sem_items(c, scope, items@, d) {
                Outcome::Settled(Ok(values), c1) => done(
                    ValueView::Mutable(fresh_cell(c1)),
                    allocated(c1, DynamicView::Array(values)),
                ),
                Outcome::Settled(Err(f), c1) => failed(f, c1),
                Outcome::Unsettled => Outcome::Unsettled,
            },
            Expr::MapLiteral(entries, _) => match sem_entries(
                c,
                scope,
                entries@,
                0,
                DynamicView::Mapping(Seq::empty()),
                depth,
            ) {
                Outcome::Settled(Ok(map), c1) => done(
                    ValueView::Mutable(fresh_cell(c1)),
                    allocated(c1, map),
                ),
                Outcome::Settled(Err(f), c1) => failed(f, c1),
                Outcome::Unsettled => Outcome::Unsettled,
            },
            Expr::Struct(literal, _) => match sem_fields(
                c,
                scope,
                literal.props(),
                0,
                Seq::empty(),
                depth,
            ) {
                Outcome::Settled(Ok(props), c1) => done(
                    ValueView::Mutable(fresh_cell(c1)),
                    allocated(c1, DynamicView::Struct(literal.name(), props)),
                ),
                Outcome::Settled(Err(f), c1) => failed(f, c1),
                Outcome::Unsettled => Outcome::Unsettled,
            },
            Expr::Index(base, index, _) => match sem_expr(c, scope, *base, d) {
                Outcome::Settled(Ok(bv), c1) => match sem_expr(c1, scope, *index, d) {
                    Outcome::Settled(Ok(iv), c2) => sem_index(c2, bv, iv),
                    Outcome::Settled(Err(f), c2) => failed(f, c2),
                    Outcome::Unsettled => Outcome::Unsettled,
                },
                Outcome::Settled(Err(f), c1) => failed(f, c1),
                Outcome::Unsettled => Outcome::Unsettled,
            },
            Expr::MemberAccess(base, name, _) => match sem_expr(c, scope, *base, d) {
                Outcome::Settled(Ok(bv), c1) => sem_member(c1, bv, name@),
                Outcome::Settled(Err(f), c1) => failed(f, c1),
                Outcome::Unsettled => Outcome::Unsettled,
            },
        }
    }
}

/// The values of the items of an array literal, in the form in which they
/// are kept.
#[verifier::opaque]
pub open spec fn sem_items(c: Core, scope: usize, items: Seq<Expr>, depth: nat) -> Outcome<
    Seq<ValueView>,
>
    decreases depth, 2nat, 0nat,
{
    if depth == 0 {
        failed(Fault::BudgetExhausted, c)
    } else {
        sem_items_from(c, scope, items, 0, Seq::empty(), depth)
    }
}

#[verifier::opaque]
pub open spec fn sem_items_from(
    c: Core,
    scope: usize,
    items: Seq<Expr>,
    i: int,
    found: Seq<ValueView>,
    depth: nat,
) -> Outcome<Seq<ValueView>>
    decreases depth, 1nat, items.len() - i,
{
    if depth == 0 || i < 0 || i >= items.len() {
        done(found, c)
    } else {
        match sem_expr(c, scope, items[i], (depth - 1) as nat) {
            Outcome::Settled(Ok(v), c1) => sem_items_from(
                c1,
                scope,
                items,
                i + 1,
                found.push(kept_view(v)),
                depth,
            ),
            Outcome::Settled(Err(f), c1) => failed(f, c1),
            Outcome::Unsettled => Outcome::Unsettled,
        }
    }
}

/// The map of a map literal, from the `i`-th entry on.
#[verifier::opaque]
pub open spec fn sem_entries(
    c: Core,
    scope: usize,
    entries: Seq<(Expr, Expr)>,
    i: int,
    map: DynamicView,
    depth: nat,
) -> Outcome<DynamicView>
    decreases depth, 1nat, entries.len() - i,
{
    if depth == 0 || i < 0 || i >= entries.len() {
        done(map, c)
    } else {
        let d = (depth - 1) as nat;
        match sem_expr(c, scope, entries[i].0, d) {
            Outcome::Settled(Ok(key), c1) => match sem_expr(c1, scope, entries[i].1, d) {
                Outcome::Settled(Ok(value), c2) => match content(c2.heap, key) {
                    Some(k) => match with_element(map, k, kept_view(value)) {
                        Some(next) => sem_entries(c2, scope, entries, i + 1, next, depth),
                        None => failed(store_fault(map, k), c2),
                    },
                    None => failed(Fault::VariableUndefined, c2),
                },
                Outcome::Settled(Err(f), c2) => failed(f, c2),
                Outcome::Unsettled => Outcome::Unsettled,
            },
            Outcome::Settled(Err(f), c1) => failed(f, c1),
            Outcome::Unsettled => Outcome::Unsettled,
        }
    }
}

/// The fields of a struct literal, from the `i`-th on. Every field is kept
/// as a weak handle to a cell: what evaluates to a value that names no
/// cell gets a cell of its own.
#[verifier::opaque]
pub open spec fn sem_fields(
    c: Core,
    scope: usize,
    fields: Seq<(String, Expr)>,
    i: int,
    props: Seq<(Seq<char>, ValueView)>,
    depth: nat,
) -> Outcome<Seq<(Seq<char>, ValueView)>>
    decreases depth, 1nat, fields.len() - i,
{
    if depth == 0 || i < 0 || i >= fields.len() {
        done(props, c)
    } else {
        match sem_expr(c, scope, fields[i].1, (depth - 1) as nat) {
            Outcome::Settled(Ok(v), c1) => {
                let c2 = match v {
                    ValueView::Immutable(d) => allocated(c1, d),
                    _ => c1,
                };
                let field = match v {
                    ValueView::Immutable(_) => ValueView::Refer(fresh_cell(c1)),
                    ValueView::Mutable(h) => ValueView::Refer(h),
                    ValueView::Refer(h) => ValueView::Refer(h),
                };
                sem_fields(c2, scope, fields, i + 1, with_field(props, fields[i].0@, field), depth)
            },
            Outcome::Settled(Err(f), c1) => failed(f, c1),
            Outcome::Unsettled => Outcome::Unsettled,
        }
    }
}

/// `let name = value`.
#[verifier::opaque]
pub open spec fn sem_let(c: Core, scope: usize, name: Seq<char>, e: Expr, depth: nat) -> Outcome<()>
    decreases depth, 2nat, 0nat,
{
    if depth == 0 {
        failed(Fault::BudgetExhausted, c)
    } else {
        match sem_expr(c, scope, e, (depth - 1) as nat) {
            Outcome::Settled(Ok(v), c1) => sem_bind(c1, scope, name, v),
            Outcome::Settled(Err(f), c1) => failed(f, c1),
            Outcome::Unsettled => Outcome::Unsettled,
        }
    }
}

/// Whether the condition evaluates, within the depth, to a value that is
/// no truth value: a number, a string, the unit, a value that stands for
/// nothing.
pub open spec fn no_truth(c: Core, scope: usize, e: Expr, depth: nat) -> bool {
    depth > 0 && (match sem_expr(c, scope, e, (depth - 1) as nat) {
        Outcome::Settled(Ok(v), c1) => !(content(c1.heap, v) is Some && content(c1.heap, v)->0 is Boolean),
        _ => false,
    })
}

/// Whether the result is the error that asks for a truth value:
/// `ExpectedType` for `bool`.
pub open spec fn wants_bool<T>(r: Result<T, PipelineError>) -> bool {
    r matches Err(PipelineError::ExpectedType(s)) && s@ == "bool"@
}

/// Whether the result of a call names what is missing, where the arguments
/// of the call are evaluated and its name resolves to nothing: the name of
/// the call in `FunctionUndefined`, and in `UnknownModule` the name of the
/// module, which is what stands in front of `::`.
pub open spec fn names_missing(c: Core, scope: usize, call: FnCallExpr, depth: nat, r: Result<Value, PipelineError>) -> bool {
    if depth == 0 {
        true
    } else {
        match sem_args(c, scope, call.args@, (depth - 1) as nat) {
            Outcome::Settled(Ok(args), c1) => {
                let first = if args.len() > 0 {
                    Some(args[0])
                } else {
                    None
                };
                match resolved(c1, call.name@, receiver_class(c1, first)) {
                    Err(Fault::FunctionUndefined) => r matches Err(PipelineError::FunctionUndefined(s)) && s@
                        == call.name@,
                    Err(Fault::UnknownModule) => r matches Err(PipelineError::UnknownModule(s)) && (match scoped(
                        call.name@,
                    ) {
                        Some(parts) => s@ == parts.0,
                        None => false,
                    }),
                    _ => true,
                }
            },
            _ => true,
        }
    }
}

/// The truth value of a condition; a condition that is no truth value is
/// an `ExpectedType`.
#[verifier::opaque]
pub open spec fn sem_condition(c: Core, scope: usize, e: Expr, depth: nat) -> Outcome<bool>
    decreases depth, 2nat, 0nat,
{
    if depth == 0 {
        failed(Fault::BudgetExhausted, c)
    } else {
        match sem_expr(c, scope, e, (depth - 1) as nat) {
            Outcome::Settled(Ok(v), c1) => match content(c1.heap, v) {
                Some(DynamicView::Boolean(b)) => done(b, c1),
                _ => failed(Fault::ExpectedType, c1),
            },
            Outcome::Settled(Err(f), c1) => failed(f, c1),
            Outcome::Unsettled => Outcome::Unsettled,
        }
    }
}

/// Statements in order, up to the first that does not end normally.
#[verifier::opaque]
pub open spec fn sem_block(c: Core, scope: usize, stmts: Seq<Stmt>, depth: nat) -> Outcome<FlowView>
    decreases depth, 2nat, 0nat,
{
    if depth == 0 {
        failed(Fault::BudgetExhausted, c)
    } else {
        sem_block_from(c, scope, stmts, 0, unit_view(), depth)
    }
}

#[verifier::opaque]
pub open spec fn sem_block_from(
    c: Core,
    scope: usize,
    stmts: Seq<Stmt>,
    i: int,
    last: ValueView,
    depth: nat,
) -> Outcome<FlowView>
    decreases depth, 1nat, stmts.len() - i,
{
    if depth == 0 || i < 0 || i >= stmts.len() {
        done(FlowView::Normal(last), c)
    } else {
        match sem_stmt(c, scope, stmts[i], (depth - 1) as nat) {
            Outcome::Settled(Ok(FlowView::Normal(v)), c1) => sem_block_from(
                c1,
                scope,
                stmts,
                i + 1,
                v,
                depth,
            ),
            Outcome::Settled(Ok(other), c1) => done(other, c1),
            Outcome::Settled(Err(f), c1) => failed(f, c1),
            Outcome::Unsettled => Outcome::Unsettled,
        }
    }
}

/// The branches of an `if` from the `i`-th on: the body of the first whose
/// condition holds, else the body behind `else`, else nothing.
#[verifier::opaque]
pub open spec fn sem_if(
    c: Core,
    scope: usize,
    branches: Seq<IfBranchStmt>,
    i: int,
    else_body: Option<Vec<Stmt>>,
    depth: nat,
) -> Outcome<FlowView>
    decreases depth, 1nat, branches.len() - i,
{
    if depth == 0 {
        failed(Fault::BudgetExhausted, c)
    } else if i < 0 || i >= branches.len() {
        match else_body {
            Some(body) => sem_block(c, scope, body@, (depth - 1) as nat),
            None => done(FlowView::Normal(unit_view()), c),
        }
    } else {
        match sem_condition(c, scope, branches[i].condition(), (depth - 1) as nat) {
            Outcome::Settled(Ok(holds), c1) => if holds {
                sem_block(c1, scope, branches[i].body(), (depth - 1) as nat)
            } else {
                sem_if(c1, scope, branches, i + 1, else_body, depth)
            },
            Outcome::Settled(Err(f), c1) => failed(f, c1),
            Outcome::Unsettled => Outcome::Unsettled,
        }
    }
}

/// A `while` loop that may run `left` more rounds.
#[verifier::opaque]
pub open spec fn sem_while(
    c: Core,
    scope: usize,
    condition: Expr,
    body: Seq<Stmt>,
    left: nat,
    depth: nat,
) -> Outcome<FlowView>
    decreases depth, 1nat, left,
{
    if depth == 0 || left == 0 {
        failed(Fault::BudgetExhausted, c)
    } else {
        match sem_condition(c, scope, condition, (depth - 1) as nat) {
            Outcome::Settled(Ok(holds), c1) => if !holds {
                done(FlowView::Normal(unit_view()), c1)
            } else {
                match sem_block(c1, scope, body, (depth - 1) as nat) {
                    Outcome::Settled(Ok(FlowView::Break), c2) => done(
                        FlowView::Normal(unit_view()),
                        c2,
                    ),
                    Outcome::Settled(Ok(FlowView::Return(v)), c2) => done(FlowView::Return(v), c2),
                    Outcome::Settled(Ok(_), c2) => sem_while(
                        c2,
                        scope,
                        condition,
                        body,
                        (left - 1) as nat,
                        depth,
                    ),
                    Outcome::Settled(Err(f), c2) => failed(f, c2),
                    Outcome::Unsettled => Outcome::Unsettled,
                }
            },
            Outcome::Settled(Err(f), c1) => failed(f, c1),
            Outcome::Unsettled => Outcome::Unsettled,
        }
    }
}

/// The count of a round as an integer of the script.
pub open spec fn counted(i: int) -> i64 {
    if i <= i64::MAX {
        i as i64
    } else {
        i64::MAX
    }
}

/// A `for` loop over the items of a list, from the `i`-th on. With one name
/// the name is bound to the item; with two, the first is bound to the count
/// and the second to the item. The names are bound in the scope that the
/// loop stands in.
#[verifier::opaque]
pub open spec fn sem_for(
    c: Core,
    scope: usize,
    one: Seq<char>,
    other: Option<String>,
    list: Seq<ValueView>,
    i: int,
    body: Seq<Stmt>,
    depth: nat,
) -> Outcome<FlowView>
    decreases depth, 1nat, list.len() - i,
{
    if depth == 0 || i < 0 || i >= list.len() {
        done(FlowView::Normal(unit_view()), c)
    } else {
        let c1 = match other {
            Some(second) => bound(
                bound(c, scope, one, ValueView::Immutable(DynamicView::Integer(counted(i)))),
                scope,
                second@,
                list[i],
            ),
            None => bound(c, scope, one, list[i]),
        };
        match sem_block(c1, scope, body, (depth - 1) as nat) {
            Outcome::Settled(Ok(FlowView::Break), c2) => done(FlowView::Normal(unit_view()), c2),
            Outcome::Settled(Ok(FlowView::Return(v)), c2) => done(FlowView::Return(v), c2),
            Outcome::Settled(Ok(_), c2) => sem_for(c2, scope, one, other, list, i + 1, body, depth),
            Outcome::Settled(Err(f), c2) => failed(f, c2),
            Outcome::Unsettled => Outcome::Unsettled,
        }
    }
}

/// How a statement ends.
#[verifier::opaque]
pub open spec fn sem_stmt(c: Core, scope: usize, s: Stmt, depth: nat) -> Outcome<FlowView>
    decreases depth, 2nat, 0nat,
{
    if depth == 0 {
        failed(Fault::BudgetExhausted, c)
    } else {
        let d = (depth - 1) as nat;
        match s {
            Stmt::Noop => done(FlowView::Normal(unit_view()), c),
            Stmt::Break(_) => done(FlowView::Break, c),
            Stmt::Continue(_) => done(FlowView::Continue, c),
            Stmt::FnCall(call, _) => match sem_call(c, scope, *call, d) {
                Outcome::Settled(Ok(v), c1) => done(FlowView::Normal(v), c1),
                Outcome::Settled(Err(f), c1) => failed(f, c1),
                Outcome::Unsettled => Outcome::Unsettled,
            },
            Stmt::Import(name, _) => match sem_import(c, name@) {
                Outcome::Settled(Ok(_), c1) => done(FlowView::Normal(unit_view()), c1),
                Outcome::Settled(Err(f), c1) => failed(f, c1),
                Outcome::Unsettled => Outcome::Unsettled,
            },
            Stmt::Let(l, _) => match sem_let(c, scope, l.0@, l.1, d) {
                Outcome::Settled(Ok(_), c1) => done(FlowView::Normal(unit_view()), c1),
                Outcome::Settled(Err(f), c1) => failed(f, c1),
                Outcome::Unsettled => Outcome::Unsettled,
            },
            Stmt::Assign(pair, _) => match sem_expr(c, scope, pair.0, d) {
                Outcome::Settled(Ok(target), c1) => match sem_expr(c1, scope, pair.1, d) {
                    Outcome::Settled(Ok(value), c2) => match sem_assign(c2, target, value) {
                        Outcome::Settled(Ok(_), c3) => done(FlowView::Normal(unit_view()), c3),
                        Outcome::Settled(Err(f), c3) => failed(f, c3),
                        Outcome::Unsettled => Outcome::Unsettled,
                    },
                    Outcome::Settled(Err(f), c2) => failed(f, c2),
                    Outcome::Unsettled => Outcome::Unsettled,
                },
                Outcome::Settled(Err(f), c1) => failed(f, c1),
                Outcome::Unsettled => Outcome::Unsettled,
            },
            Stmt::IndexAssign(base, index, value, _) => match sem_expr(c, scope, *index, d) {
                Outcome::Settled(Ok(i), c1) => match sem_expr(c1, scope, *value, d) {
                    Outcome::Settled(Ok(v), c2) => match sem_expr(c2, scope, *base, d) {
                        Outcome::Settled(Ok(target), c3) => match sem_store(c3, target, i, v) {
                            Outcome::Settled(Ok(_), c4) => done(FlowView::Normal(unit_view()), c4),
                            Outcome::Settled(Err(f), c4) => failed(f, c4),
                            Outcome::Unsettled => Outcome::Unsettled,
                        },
                        Outcome::Settled(Err(f), c3) => failed(f, c3),
                        Outcome::Unsettled => Outcome::Unsettled,
                    },
                    Outcome::Settled(Err(f), c2) => failed(f, c2),
                    Outcome::Unsettled => Outcome::Unsettled,
                },
                Outcome::Settled(Err(f), c1) => failed(f, c1),
                Outcome::Unsettled => Outcome::Unsettled,
            },
            Stmt::Return(e, _) => match sem_expr(c, scope, *e, d) {
                Outcome::Settled(Ok(v), c1) => done(FlowView::Return(v), c1),
                Outcome::Settled(Err(f), c1) => failed(f, c1),
                Outcome::Unsettled => Outcome::Unsettled,
            },
            Stmt::If(branches, _) => sem_if(c, scope, branches.branches(), 0, branches.else_body(), depth),
            Stmt::While(condition, body, _) => sem_while(
                c,
                scope,
                *condition,
                body@,
                c.rounds as nat,
                depth,
            ),
            Stmt::ForIn(one, other, items, body, _) => match sem_expr(c, scope, *items, d) {
                Outcome::Settled(Ok(iv), c1) => match content(c1.heap, iv) {
                    Some(DynamicView::Array(list)) => sem_for(
                        c1,
                        scope,
                        one@,
                        other,
                        list,
                        0,
                        body@,
                        depth,
                    ),
                    Some(_) => failed(Fault::ExpectedType, c1),
                    None => failed(Fault::VariableUndefined, c1),
                },
                Outcome::Settled(Err(f), c1) => failed(f, c1),
                Outcome::Unsettled => Outcome::Unsettled,
            },
        }
    }
}

/// The result of a call: the arguments from left to right, then the
/// function that the name resolves to.
#[verifier::opaque]
pub open spec fn sem_call(c: Core, scope: usize, call: FnCallExpr, depth: nat) -> Outcome<ValueView>
    decreases depth, 2nat, 0nat,
{
    if depth == 0 {
        failed(Fault::BudgetExhausted, c)
    } else {
        let d = (depth - 1) as nat;
        match sem_args(c, scope, call.args@, d) {
            Outcome::Settled(Ok(args), c1) => {
                let first = if args.len() > 0 {
                    Some(args[0])
                } else {
                    None
                };
                match resolved(c1, call.name@, receiver_class(c1, first)) {
                    Ok((function, is_method)) => sem_apply(c1, scope, function, is_method, args, d),
                    Err(f) => failed(f, c1),
                }
            },
            Outcome::Settled(Err(f), c1) => failed(f, c1),
            Outcome::Unsettled => Outcome::Unsettled,
        }
    }
}

/// The arguments of a call. An argument that is a function which is not
/// deferred is called, and what it returns is the argument.
#[verifier::opaque]
pub open spec fn sem_args(c: Core, scope: usize, args: Seq<Expr>, depth: nat) -> Outcome<Seq<ValueView>>
    decreases depth, 2nat, 0nat,
{
    if depth == 0 {
        failed(Fault::BudgetExhausted, c)
    } else {
        sem_args_from(c, scope, args, 0, Seq::empty(), depth)
    }
}

#[verifier::opaque]
pub open spec fn sem_args_from(
    c: Core,
    scope: usize,
    args: Seq<Expr>,
    i: int,
    found: Seq<ValueView>,
    depth: nat,
) -> Outcome<Seq<ValueView>>
    decreases depth, 1nat, args.len() - i,
{
    if depth == 0 || i < 0 || i >= args.len() {
        done(found, c)
    } else {
        match sem_arg(c, scope, args[i], depth) {
            Outcome::Settled(Ok(v), c1) => sem_args_from(c1, scope, args, i + 1, found.push(v), depth),
            Outcome::Settled(Err(f), c1) => failed(f, c1),
            Outcome::Unsettled => Outcome::Unsettled,
        }
    }
}

/// One argument of a call: the value of the expression or, where that is a
/// function which is not deferred, what the call of that function gives.
#[verifier::opaque]
pub open spec fn sem_arg(c: Core, scope: usize, e: Expr, depth: nat) -> Outcome<ValueView>
    decreases depth, 0nat, 0nat,
{
    if depth == 0 {
        failed(Fault::BudgetExhausted, c)
    } else {
        let d = (depth - 1) as nat;
        match sem_expr(c, scope, e, d) {
            Outcome::Settled(Ok(v), c1) => match content(c1.heap, v) {
                Some(DynamicView::FnPtr(p)) => if p.defer {
                    done(v, c1)
                } else {
                    sem_pointer(c1, scope, p, Seq::empty(), d)
                },
                _ => done(v, c1),
            },
            Outcome::Settled(Err(f), c1) => failed(f, c1),
            Outcome::Unsettled => Outcome::Unsettled,
        }
    }
}

/// The call of a function value: of the block that it holds, in a new
/// scope inside the scope that the block was written in, with the given
/// names bound; or, where it holds no block, of the function of its name.
#[verifier::opaque]
pub open spec fn sem_pointer(
    c: Core,
    scope: usize,
    p: FnPtrView,
    bindings: Seq<(Seq<char>, ValueView)>,
    depth: nat,
) -> Outcome<ValueView>
    decreases depth, 2nat, 0nat,
{
    if depth == 0 {
        failed(Fault::BudgetExhausted, c)
    } else {
        let d = (depth - 1) as nat;
        match p.fn_def {
            Some(def) => {
                let outer = match p.scope {
                    Some(s) => s,
                    None => scope,
                };
                let inner = fresh_scope(c);
                let c1 = bound_all(entered(c, outer), inner, bindings, 0);
                match sem_block(c1, inner, def.body@, d) {
                    Outcome::Settled(Ok(flow), c2) => done(result_view(flow), c2),
                    Outcome::Settled(Err(f), c2) => failed(f, c2),
                    Outcome::Unsettled => Outcome::Unsettled,
                }
            },
            None => match resolved(c, p.name, None) {
                Ok((function, _)) => sem_apply(c, scope, function, false, Seq::empty(), d),
                Err(f) => failed(f, c),
            },
        }
    }
}

/// The call of a function with arguments. A function of the script runs in
/// a new scope inside the scope of the call, with its parameters bound to
/// the arguments in order; a method has `this` bound to the first argument
/// and its parameters to the others. The call gives what `return` hands
/// out, and the unit where the body ends without `return`.
#[verifier::opaque]
pub open spec fn sem_apply(
    c: Core,
    scope: usize,
    function: Function,
    is_method: bool,
    args: Seq<ValueView>,
    depth: nat,
) -> Outcome<ValueView>
    decreases depth, 2nat, 0nat,
{
    if depth == 0 {
        failed(Fault::BudgetExhausted, c)
    } else {
        let d = (depth - 1) as nat;
        match function {
            Function::Native(b) => sem_builtin(c, scope, b, args, d),
            Function::Script(def) | Function::Method(def) => {
                let inner = fresh_scope(c);
                let c1 = entered(c, scope);
                let with_this = is_method && args.len() > 0;
                let c2 = if with_this {
                    bound(c1, inner, "this"@, args[0])
                } else {
                    c1
                };
                let skip: int = if with_this {
                    1
                } else {
                    0
                };
                let c3 = bound_params(c2, inner, def.args@, args, skip, 0);
                match sem_block(c3, inner, def.body@, d) {
                    Outcome::Settled(Ok(FlowView::Return(v)), c4) => done(v, c4),
                    Outcome::Settled(Ok(_), c4) => done(unit_view(), c4),
                    Outcome::Settled(Err(f), c4) => failed(f, c4),
                    Outcome::Unsettled => Outcome::Unsettled,
                }
            },
        }
    }
}

/// The texts that display the first `upto` values, one behind the other;
/// nothing where one of them does not display without the host.
pub open spec fn joined(c: Core, args: Seq<ValueView>, upto: int) -> Option<Seq<char>>
    decreases upto,
{
    if upto <= 0 {
        Some(Seq::empty())
    } else if upto > args.len() {
        None
    } else {
        match (joined(c, args, upto - 1), content(c.heap, args[upto - 1])) {
            (Some(t), Some(d)) => match plain_text(d) {
                Some(p) => Some(t + p),
                None => None,
            },
            _ => None,
        }
    }
}

/// What `print` (and, with `line`, `println`) writes for the values.
pub open spec fn printed(c: Core, args: Seq<ValueView>, line: bool) -> Option<Seq<char>> {
    match joined(c, args, args.len() as int) {
        Some(t) => Some(
            if line {
                t + "\n"@
            } else {
                t
            },
        ),
        None => None,
    }
}

/// `print` and `println`: the texts that display the values are written,
/// one behind the other, with a line end behind them for `println`.
pub open spec fn sem_print(c: Core, args: Seq<ValueView>, line: bool) -> Outcome<ValueView> {
    if all_live(c, args) {
        match printed(c, args, line) {
            Some(t) => done(unit_view(), Core { written: c.written.push(t), ..c }),
            None => Outcome::Unsettled,
        }
    } else {
        failed(Fault::VariableUndefined, c)
    }
}

/// Whether all values stand for something.
pub open spec fn all_live(c: Core, args: Seq<ValueView>) -> bool {
    forall|i: int| 0 <= i < args.len() ==> content(c.heap, #[trigger] args[i]) is Some
}

/// The function value that argument `i` is.
pub open spec fn function_at(c: Core, args: Seq<ValueView>, i: int) -> Option<FnPtrView> {
    if 0 <= i < args.len() {
        match content(c.heap, args[i]) {
            Some(DynamicView::FnPtr(p)) => Some(p),
            _ => None,
        }
    } else {
        None
    }
}

/// The string that argument `i` is.
pub open spec fn text_at(c: Core, args: Seq<ValueView>, i: int) -> Option<Seq<char>> {
    if 0 <= i < args.len() {
        match content(c.heap, args[i]) {
            Some(DynamicView::Text(s)) => Some(s),
            _ => None,
        }
    } else {
        None
    }
}

/// The kind of the error of changing the value of a cell through a handle,
/// where the change itself fails with `otherwise`.
pub open spec fn change_fault(c: Core, target: ValueView, otherwise: Fault) -> Fault {
    match content(c.heap, target) {
        Some(_) => if target is Immutable {
            Fault::UnexpectedType
        } else {
            otherwise
        },
        None => handle_fault(target),
    }
}

/// The functions of the engine that work on values alone: `remove`,
/// `append`, `len`, `type`, `clone` and `set`.
#[verifier::opaque]
pub open spec fn sem_value_builtin(c: Core, b: Builtin, args: Seq<ValueView>) -> Outcome<ValueView> {
    match b {
        Builtin::Remove => if args.len() < 2 {
            failed(Fault::ExpectedType, c)
        } else {
            match content(c.heap, args[1]) {
                None => failed(Fault::VariableUndefined, c),
                Some(index) => match crate::v1::access::changed(
                    c.heap,
                    args[0],
                    |d: DynamicView| without_element(d, index),
                ) {
                    Some(heap) => done(unit_view(), Core { heap, ..c }),
                    None => failed(change_fault(c, args[0], Fault::UndefinedOperation), c),
                },
            }
        },
        Builtin::Append => if args.len() < 1 {
            failed(Fault::ExpectedType, c)
        } else {
            let items = Seq::new((args.len() - 1) as nat, |i: int| kept_view(args[i + 1]));
            match crate::v1::access::changed(
                c.heap,
                args[0],
                |d: DynamicView| with_appended(d, items),
            ) {
                Some(heap) => done(unit_view(), Core { heap, ..c }),
                None => failed(change_fault(c, args[0], Fault::ExpectedType), c),
            }
        },
        Builtin::Len => if args.len() < 1 {
            failed(Fault::ExpectedType, c)
        } else {
            match content(c.heap, args[0]) {
                None => failed(Fault::VariableUndefined, c),
                Some(d) => match size(d) {
                    Some(n) => done(ValueView::Immutable(DynamicView::Integer(counted(n))), c),
                    None => failed(Fault::UnexpectedType, c),
                },
            }
        },
        Builtin::TypeOf => if args.len() < 1 {
            failed(Fault::ExpectedType, c)
        } else {
            match content(c.heap, args[0]) {
                None => failed(Fault::VariableUndefined, c),
                Some(d) => done(ValueView::Immutable(DynamicView::Text(kind_name(d))), c),
            }
        },
        Builtin::CloneValue => if args.len() < 1 {
            failed(Fault::ExpectedType, c)
        } else {
            match content(c.heap, args[0]) {
                None => failed(Fault::VariableUndefined, c),
                Some(d) => if args[0] is Immutable {
                    done(ValueView::Immutable(d), c)
                } else {
                    done(ValueView::Mutable(fresh_cell(c)), allocated(c, d))
                },
            }
        },
        Builtin::SetVariable => if args.len() < 3 {
            failed(Fault::ExpectedType, c)
        } else {
            match (text_at(c, args, 1), text_at(c, args, 2)) {
                (Some(key), Some(value)) => match crate::v1::access::stored(
                    c.heap,
                    args[0],
                    DynamicView::Text(key),
                    ValueView::Immutable(DynamicView::Text(value)),
                ) {
                    Some(heap) => done(unit_view(), Core { heap, ..c }),
                    None => failed(
                        match content(c.heap, args[0]) {
                            Some(d) => if args[0] is Immutable {
                                Fault::UnexpectedType
                            } else {
                                store_fault(d, DynamicView::Text(key))
                            },
                            None => handle_fault(args[0]),
                        },
                        c,
                    ),
                },
                _ => failed(Fault::ExpectedType, c),
            }
        },
        _ => Outcome::Unsettled,
    }
}

/// `call(f, ..)`: the call of the function value `f`, with `it` bound to
/// the one further argument, or to an array of the further arguments where
/// there are more.
#[verifier::opaque]
pub open spec fn sem_call_closure(c: Core, scope: usize, args: Seq<ValueView>, depth: nat) -> Outcome<
    ValueView,
>
    decreases depth, 1nat, 0nat,
{
    if depth == 0 {
        failed(Fault::BudgetExhausted, c)
    } else {
        match function_at(c, args, 0) {
            None => failed(Fault::ExpectedType, c),
            Some(p) => {
                let rest = args.drop_first();
                let c1 = if rest.len() > 1 {
                    allocated(c, DynamicView::Array(rest))
                } else {
                    c
                };
                let bindings = if rest.len() == 1 {
                    seq![("it"@, rest[0])]
                } else if rest.len() > 1 {
                    seq![("it"@, ValueView::Mutable(fresh_cell(c)))]
                } else {
                    Seq::empty()
                };
                sem_pointer(c1, scope, p, bindings, (depth - 1) as nat)
            },
        }
    }
}

/// A task: its body runs with a join-set of its own for the output of its
/// commands. Where output waits when the body has ended, the host has a say
/// in what follows.
#[verifier::opaque]
pub open spec fn sem_run_task(c: Core, scope: usize, p: FnPtrView, depth: nat) -> Outcome<ValueView>
    decreases depth, 2nat, 0nat,
{
    if depth == 0 {
        failed(Fault::BudgetExhausted, c)
    } else {
        let c1 = Core { waiting: c.waiting.push(0), ..c };
        match sem_pointer(c1, scope, p, Seq::empty(), (depth - 1) as nat) {
            Outcome::Settled(r, c2) => if c2.waiting.len() > 0 && c2.waiting.last() == 0 {
                Outcome::Settled(r, Core { waiting: c2.waiting.drop_last(), ..c2 })
            } else {
                Outcome::Unsettled
            },
            Outcome::Unsettled => Outcome::Unsettled,
        }
    }
}

/// `step(name) { .. }`: where the filter `path_task` lets the name pass,
/// the task runs at once; where it does not, nothing happens.
#[verifier::opaque]
pub open spec fn sem_step(c: Core, scope: usize, name: Seq<char>, p: FnPtrView, depth: nat) -> Outcome<
    ValueView,
>
    decreases depth, 2nat, 0nat,
{
    if !selected(filter_of(c, "path_task"@), name) {
        done(unit_view(), c)
    } else if depth == 0 {
        failed(Fault::BudgetExhausted, c)
    } else {
        match sem_run_task(c, scope, p, (depth - 1) as nat) {
            Outcome::Settled(Ok(_), c1) => done(unit_view(), c1),
            Outcome::Settled(Err(f), c1) => failed(f, c1),
            Outcome::Unsettled => Outcome::Unsettled,
        }
    }
}

/// `parallel(name) { .. }`: where the filter `path_task` lets the name
/// pass, the task is added at the end of the join-set of the innermost
/// pipeline, to run when the pipeline joins its tasks; outside a pipeline
/// that is a `SchedulerError`. Where the filter does not let the name pass,
/// nothing happens.
pub open spec fn sem_parallel(c: Core, scope: usize, name: Seq<char>, p: FnPtrView) -> Outcome<
    ValueView,
> {
    if !selected(filter_of(c, "path_task"@), name) {
        done(unit_view(), c)
    } else if c.join_sets.len() == 0 {
        failed(Fault::SchedulerError, c)
    } else {
        let last = c.join_sets.len() - 1;
        done(
            unit_view(),
            Core {
                join_sets: c.join_sets.update(
                    last,
                    c.join_sets[last].push(WorkerView { name, body: p, scope }),
                ),
                ..c
            },
        )
    }
}

/// The join of a pipeline: the tasks of its join-set run in the order in
/// which they were submitted, tasks that are submitted meanwhile included,
/// for at most `left` rounds. The result is the first failure: the one
/// given, else a `SchedulerError` for the first task that failed, else
/// `BudgetExhausted` where tasks were left when the rounds were used up
/// (those tasks are dropped).
#[verifier::opaque]
pub open spec fn sem_drain(c: Core, failure: Option<Fault>, left: nat, depth: nat) -> Outcome<
    Option<Fault>,
>
    decreases depth, 1nat, left,
{
    if depth == 0 || c.join_sets.len() == 0 || c.join_sets.last().len() == 0 {
        done(failure, c)
    } else {
        let last = c.join_sets.len() - 1;
        if left == 0 {
            done(
                match failure {
                    Some(f) => Some(f),
                    None => Some(Fault::BudgetExhausted),
                },
                Core { join_sets: c.join_sets.update(last, Seq::empty()), ..c },
            )
        } else {
            let worker = c.join_sets[last][0];
            let c1 = Core { join_sets: c.join_sets.update(last, c.join_sets[last].drop_first()), ..c };
            match sem_run_task(c1, worker.scope, worker.body, (depth - 1) as nat) {
                Outcome::Settled(r, c2) => sem_drain(
                    c2,
                    if failure is None && r is Err {
                        Some(Fault::SchedulerError)
                    } else {
                        failure
                    },
                    (left - 1) as nat,
                    depth,
                ),
                Outcome::Unsettled => Outcome::Unsettled,
            }
        }
    }
}

/// `pipeline(name) { .. }`: where the filter `path_pipeline` lets the name
/// pass, the body runs with a new join-set, then the tasks of the join-set
/// run (see [`sem_drain`]), then the join-set is dropped; the first failure
/// is the result. Where the filter does not let the name pass, nothing
/// happens.
#[verifier::opaque]
pub open spec fn sem_pipeline(c: Core, scope: usize, name: Seq<char>, p: FnPtrView, depth: nat) -> Outcome<
    ValueView,
>
    decreases depth, 2nat, 0nat,
{
    if !selected(filter_of(c, "path_pipeline"@), name) {
        done(unit_view(), c)
    } else if depth == 0 {
        failed(Fault::BudgetExhausted, c)
    } else {
        let c1 = Core { join_sets: c.join_sets.push(Seq::empty()), ..c };
        match sem_pointer(c1, scope, p, Seq::empty(), (depth - 1) as nat) {
            Outcome::Settled(r, c2) => {
                let first = match r {
                    Ok(_) => None,
                    Err(f) => Some(f),
                };
                match sem_drain(c2, first, c2.rounds as nat, depth) {
                    Outcome::Settled(Ok(failure), c3) => {
                        let c4 = Core { join_sets: c3.join_sets.drop_last(), ..c3 };
                        match failure {
                            Some(f) => failed(f, c4),
                            None => done(unit_view(), c4),
                        }
                    },
                    Outcome::Settled(Err(f), c3) => failed(f, c3),
                    Outcome::Unsettled => Outcome::Unsettled,
                }
            },
            Outcome::Unsettled => Outcome::Unsettled,
        }
    }
}

/// The call of a function of the engine. What the host has a say in is not
/// settled here.
#[verifier::opaque]
pub open spec fn sem_builtin(c: Core, scope: usize, b: Builtin, args: Seq<ValueView>, depth: nat) -> Outcome<
    ValueView,
>
    decreases depth, 2nat, 0nat,
{
    if depth == 0 {
        failed(Fault::BudgetExhausted, c)
    } else {
        match b {
            Builtin::Print => sem_print(c, args, false),
            Builtin::Println => sem_print(c, args, true),
            Builtin::CallClosure => sem_call_closure(c, scope, args, depth),
            Builtin::Remove
            | Builtin::Append
            | Builtin::Len
            | Builtin::TypeOf
            | Builtin::CloneValue
            | Builtin::SetVariable => sem_value_builtin(c, b, args),
            Builtin::Pipeline | Builtin::Step | Builtin::Parallel => match (
                text_at(c, args, 0),
                function_at(c, args, 1),
            ) {
                (Some(name), Some(p)) => match b {
                    Builtin::Pipeline => sem_pipeline(c, scope, name, p, (depth - 1) as nat),
                    Builtin::Step => sem_step(c, scope, name, p, (depth - 1) as nat),
                    _ => sem_parallel(c, scope, name, p),
                },
                _ => failed(Fault::ExpectedType, c),
            },
            Builtin::Layout => match (text_at(c, args, 0), function_at(c, args, 1)) {
                (Some(name), Some(p)) => {
                    let c1 = Core { written: c.written.push("\x1b[32musing layout "@ + name + "\n"@), ..c };
                    let c2 = bound(
                        allocated(c1, DynamicView::Text(name)),
                        scope,
                        "layoutName"@,
                        ValueView::Mutable(fresh_cell(c1)),
                    );
                    match sem_pointer(c2, scope, p, Seq::empty(), (depth - 1) as nat) {
                        Outcome::Settled(Ok(_), c3) => done(
                            unit_view(),
                            Core { written: c3.written.push("╰─▶successfully finished.\x1b[0m\n"@), ..c3 },
                        ),
                        Outcome::Settled(Err(f), c3) => failed(f, c3),
                        Outcome::Unsettled => Outcome::Unsettled,
                    }
                },
                _ => failed(Fault::ExpectedType, c),
            },
            _ => Outcome::Unsettled,
        }
    }
}

/// The kind of a failure, where there is one.
pub open spec fn fault_view(failure: Option<PipelineError>) -> Option<Fault> {
    match failure {
        Some(e) => Some(fault_of(e)),
        None => None,
    }
}

/// Whether a result of the interpreter is the settled result.
pub open spec fn agrees(r: Result<Value, PipelineError>, o: Result<ValueView, Fault>) -> bool {
    match (r, o) {
        (Ok(v), Ok(w)) => v@ == w,
        (Err(e), Err(f)) => fault_of(e) == f,
        _ => false,
    }
}

pub open spec fn agrees_flow(r: Result<Flow, PipelineError>, o: Result<FlowView, Fault>) -> bool {
    match (r, o) {
        (Ok(v), Ok(w)) => v@ == w,
        (Err(e), Err(f)) => fault_of(e) == f,
        _ => false,
    }
}

pub open spec fn agrees_list(r: Result<Vec<Value>, PipelineError>, o: Result<Seq<ValueView>, Fault>) -> bool {
    match (r, o) {
        (Ok(v), Ok(w)) => array_view(v@) == w,
        (Err(e), Err(f)) => fault_of(e) == f,
        _ => false,
    }
}

pub open spec fn agrees_plain<T>(r: Result<T, PipelineError>, o: Result<T, Fault>) -> bool {
    match (r, o) {
        (Ok(v), Ok(w)) => v == w,
        (Err(e), Err(f)) => fault_of(e) == f,
        _ => false,
    }
}


/// Scope discipline. After `let name = v` in a scope and an assignment to
/// the name, the name stands for the assigned value in that scope and in
/// every scope inside it that does not bind the name itself. A scope around
/// it, or beside it, still has the binding that it had: the `let` shadows,
/// it does not overwrite.
pub proof fn lemma_let_then_assign(
    c: Core,
    scope: usize,
    name: Seq<char>,
    v: ValueView,
    w: ValueView,
    inner: int,
    other: int,
)
    requires
        sem_bind(c, scope, name, v) matches Outcome::Settled(Ok(_), c1) && (visible(
            c1.scopes,
            scope as int,
            name,
        ) matches Some(target) && sem_assign(c1, target, w) is Settled && sem_assign(
            c1,
            target,
            w,
        )->Settled_0 is Ok),
        sees(c.scopes, inner, scope as int, name),
        !sees(c.scopes, other, scope as int, name),
    ensures
        ({
            let c1 = sem_bind(c, scope, name, v)->Settled_1;
            let target = visible(c1.scopes, scope as int, name)->0;
            let c2 = sem_assign(c1, target, w)->Settled_1;
            &&& visible(c2.scopes, inner, name) == Some(target)
            &&& content(c2.heap, target) == content(c1.heap, w)
            &&& visible(c2.scopes, other, name) == visible(c.scopes, other, name)
        }),
{
    let c1 = sem_bind(c, scope, name, v)->Settled_1;
    let target = visible(c1.scopes, scope as int, name)->0;
    lemma_declared_is_visible(c.scopes, scope as int, name, target, scope as int);
    lemma_declared_is_visible(c.scopes, scope as int, name, target, inner);
    lemma_declared_is_local(c.scopes, scope as int, name, target, other, name);
}

/// The same for the scopes around: their numbers are smaller, and they keep
/// every binding.
pub proof fn lemma_let_keeps_outer_scopes(
    c: Core,
    scope: usize,
    name: Seq<char>,
    v: ValueView,
    outer: int,
    asked: Seq<char>,
)
    requires
        sem_bind(c, scope, name, v) matches Outcome::Settled(Ok(_), _),
        outer < scope,
    ensures
        visible(sem_bind(c, scope, name, v)->Settled_1.scopes, outer, asked) == visible(
            c.scopes,
            outer,
            asked,
        ),
{
    let c1 = sem_bind(c, scope, name, v)->Settled_1;
    let target = visible(c1.scopes, scope as int, name);
    lemma_declared_is_visible(c.scopes, scope as int, name, target->0, scope as int);
    lemma_outer_scope_unchanged(c.scopes, scope as int, name, target->0, outer, asked);
}

/// Without depth no expression is evaluated.
#[verifier::spinoff_prover]
pub proof fn lemma_no_depth(c: Core, scope: usize, e: Expr)
    ensures
        sem_expr(c, scope, e, 0) == failed::<ValueView>(Fault::BudgetExhausted, c),
{
    reveal(sem_expr);
}

/// What a name gives as an expression: what it stands for in the scope,
/// and `VariableUndefined` where it stands for nothing. The state stays as
/// it is.
#[verifier::spinoff_prover]
pub proof fn lemma_variable(c: Core, scope: usize, name: String, at: Position, depth: nat)
    requires
        depth > 0,
    ensures
        sem_expr(c, scope, Expr::Variable(name, at), depth) == (match visible(
            c.scopes,
            scope as int,
            name@,
        ) {
            Some(v) => done(v, c),
            None => failed(Fault::VariableUndefined, c),
        }),
{
    reveal(sem_expr);
}

/// What the statement `let name = e` does, where it succeeds: the
/// expression is evaluated, and the name is bound to its value as
/// `sem_bind` says.
#[verifier::spinoff_prover]
pub proof fn lemma_let_stmt(c: Core, scope: usize, name: String, e: Expr, pos: Position, depth: nat)
    requires
        sem_stmt(c, scope, Stmt::Let(Box::new((name, e)), pos), depth) matches Outcome::Settled(Ok(_), _),
    ensures
        depth >= 2,
        sem_expr(c, scope, e, (depth - 2) as nat) matches Outcome::Settled(Ok(v), c1) && sem_bind(
            c1,
            scope,
            name@,
            v,
        ) == done((), sem_stmt(c, scope, Stmt::Let(Box::new((name, e)), pos), depth)->Settled_1),
{
    reveal(sem_stmt);
    reveal(sem_let);
}

/// What the statement `name = e` does, where it succeeds: the value of the
/// expression is assigned through what the name stands for in the scope.
/// The cell that the nearest binding of the name names holds what the value
/// stood for, and every scope binds what it bound when the value had been
/// evaluated: an assignment binds nothing.
#[verifier::spinoff_prover]
pub proof fn lemma_assign_stmt(
    c: Core,
    scope: usize,
    name: String,
    at: Position,
    e: Expr,
    pos: Position,
    depth: nat,
)
    requires
        sem_stmt(
            c,
            scope,
            Stmt::Assign(Box::new((Expr::Variable(name, at), e)), pos),
            depth,
        ) matches Outcome::Settled(Ok(_), _),
    ensures
        depth >= 2,
        visible(c.scopes, scope as int, name@) matches Some(target) && (sem_expr(
            c,
            scope,
            e,
            (depth - 1) as nat,
        ) matches Outcome::Settled(Ok(w), c2) && ({
            let c3 = sem_stmt(
                c,
                scope,
                Stmt::Assign(Box::new((Expr::Variable(name, at), e)), pos),
                depth,
            )->Settled_1;
            &&& sem_assign(c2, target, w) == done((), c3)
            &&& c3.scopes == c2.scopes
            &&& content(c3.heap, target) == content(c2.heap, w)
        })),
{
    reveal(sem_stmt);
    if depth == 1 {
        lemma_no_depth(c, scope, Expr::Variable(name, at));
    } else if depth > 1 {
        lemma_variable(c, scope, name, at, (depth - 1) as nat);
    }
    let target = visible(c.scopes, scope as int, name@)->0;
    let found = sem_expr(c, scope, e, (depth - 1) as nat);
    let w = found->Settled_0->Ok_0;
    let c2 = found->Settled_1;
    let d = content(c2.heap, w)->0;
    crate::v1::access::lemma_content_assigned(c2.heap, target, target, d);
}

/// Scope discipline, for statements. After `let name = a` in a scope, an
/// assignment `name = b` in that scope, whose value binds nothing while it
/// is evaluated, writes the cell that the `let` has bound: the name stands
/// for that cell in the scope and in every scope inside it that does not
/// bind the name itself, and the cell holds what the value stood for. A
/// scope that does not see the binding has for the name what it had.
#[verifier::spinoff_prover]
pub proof fn lemma_let_then_assign_stmts(
    c: Core,
    scope: usize,
    name: String,
    a: Expr,
    b: Expr,
    at: Position,
    pos: Position,
    depth: nat,
    inner: int,
    other: int,
)
    requires
        sem_stmt(c, scope, Stmt::Let(Box::new((name, a)), pos), depth) matches Outcome::Settled(Ok(_), c1)
            && (sem_stmt(c1, scope, Stmt::Assign(Box::new((Expr::Variable(name, at), b)), pos), depth)
            matches Outcome::Settled(Ok(_), _) && sem_expr(c1, scope, b, (depth - 1) as nat)->Settled_1.scopes
            == c1.scopes),
        depth >= 2 ==> sees(sem_expr(c, scope, a, (depth - 2) as nat)->Settled_1.scopes, inner, scope as int, name@),
        depth >= 2 ==> !sees(
            sem_expr(c, scope, a, (depth - 2) as nat)->Settled_1.scopes,
            other,
            scope as int,
            name@,
        ),
    ensures
        ({
            let c0 = sem_expr(c, scope, a, (depth - 2) as nat)->Settled_1;
            let c1 = sem_stmt(c, scope, Stmt::Let(Box::new((name, a)), pos), depth)->Settled_1;
            let target = visible(c1.scopes, scope as int, name@)->0;
            let value = sem_expr(c1, scope, b, (depth - 1) as nat);
            let c3 = sem_stmt(
                c1,
                scope,
                Stmt::Assign(Box::new((Expr::Variable(name, at), b)), pos),
                depth,
            )->Settled_1;
            &&& target is Mutable
            &&& visible(c3.scopes, scope as int, name@) == Some(target)
            &&& visible(c3.scopes, inner, name@) == Some(target)
            &&& content(c3.heap, target) == content(value->Settled_1.heap, value->Settled_0->Ok_0)
            &&& visible(c3.scopes, other, name@) == visible(c0.scopes, other, name@)
        }),
{
    lemma_let_stmt(c, scope, name, a, pos, depth);
    let c0 = sem_expr(c, scope, a, (depth - 2) as nat)->Settled_1;
    let v = sem_expr(c, scope, a, (depth - 2) as nat)->Settled_0->Ok_0;
    let c1 = sem_stmt(c, scope, Stmt::Let(Box::new((name, a)), pos), depth)->Settled_1;
    lemma_assign_stmt(c1, scope, name, at, b, pos, depth);
    let target = visible(c1.scopes, scope as int, name@)->0;
    lemma_declared_is_visible(c0.scopes, scope as int, name@, target, scope as int);
    lemma_declared_is_visible(c0.scopes, scope as int, name@, target, inner);
    lemma_declared_is_local(c0.scopes, scope as int, name@, target, other, name@);
}

/// What a member access gives: the base is evaluated, and the field is
/// read from what it gives as `sem_member` says.
#[verifier::spinoff_prover]
pub proof fn lemma_member(c: Core, scope: usize, base: Expr, name: String, at: Position, depth: nat)
    requires
        depth > 0,
    ensures
        sem_expr(c, scope, Expr::MemberAccess(Box::new(base), name, at), depth) == (match sem_expr(
            c,
            scope,
            base,
            (depth - 1) as nat,
        ) {
            Outcome::Settled(Ok(bv), c1) => sem_member(c1, bv, name@),
            Outcome::Settled(Err(f), c1) => failed(f, c1),
            Outcome::Unsettled => Outcome::Unsettled,
        }),
{
    reveal(sem_expr);
}

/// What an indexing gives: the base is evaluated, then the index, and the
/// item is read as `sem_index` says.
#[verifier::spinoff_prover]
pub proof fn lemma_index(c: Core, scope: usize, base: Expr, index: Expr, at: Position, depth: nat)
    requires
        depth > 0,
    ensures
        sem_expr(c, scope, Expr::Index(Box::new(base), Box::new(index), at), depth) == (match sem_expr(
            c,
            scope,
            base,
            (depth - 1) as nat,
        ) {
            Outcome::Settled(Ok(bv), c1) => match sem_expr(c1, scope, index, (depth - 1) as nat) {
                Outcome::Settled(Ok(iv), c2) => sem_index(c2, bv, iv),
                Outcome::Settled(Err(f), c2) => failed(f, c2),
                Outcome::Unsettled => Outcome::Unsettled,
            },
            Outcome::Settled(Err(f), c1) => failed(f, c1),
            Outcome::Unsettled => Outcome::Unsettled,
        }),
{
    reveal(sem_expr);
}

/// What a binary expression gives: the left operand is evaluated, then the
/// right one, and the operator is applied as `sem_binary` says.
#[verifier::spinoff_prover]
pub proof fn lemma_binary(c: Core, scope: usize, op: Op, l: Expr, r: Expr, at: Position, depth: nat)
    requires
        depth > 0,
    ensures
        sem_expr(c, scope, Expr::BinaryExpr(op, Box::new(l), Box::new(r), at), depth) == (match sem_expr(
            c,
            scope,
            l,
            (depth - 1) as nat,
        ) {
            Outcome::Settled(Ok(lv), c1) => match sem_expr(c1, scope, r, (depth - 1) as nat) {
                Outcome::Settled(Ok(rv), c2) => sem_binary(c2, op, lv, rv),
                Outcome::Settled(Err(f), c2) => failed(f, c2),
                Outcome::Unsettled => Outcome::Unsettled,
            },
            Outcome::Settled(Err(f), c1) => failed(f, c1),
            Outcome::Unsettled => Outcome::Unsettled,
        }),
{
    reveal(sem_expr);
}

/// Arithmetic closure, for expressions. Where both operands of a binary
/// expression are evaluated, a pair of operands for which the operator is
/// not defined gives `UndefinedOperation` and no value, and an arithmetic
/// operator on two integers gives an integer or, for a quotient or
/// remainder by 0, `UndefinedOperation`.
#[verifier::spinoff_prover]
pub proof fn lemma_arithmetic_closure(c: Core, scope: usize, op: Op, l: Expr, r: Expr, at: Position, depth: nat)
    requires
        depth > 0,
        sem_expr(c, scope, l, (depth - 1) as nat) matches Outcome::Settled(Ok(_), c1) && sem_expr(
            c1,
            scope,
            r,
            (depth - 1) as nat,
        ) matches Outcome::Settled(Ok(_), _),
    ensures
        ({
            let first = sem_expr(c, scope, l, (depth - 1) as nat);
            let second = sem_expr(first->Settled_1, scope, r, (depth - 1) as nat);
            let c2 = second->Settled_1;
            let whole = sem_expr(c, scope, Expr::BinaryExpr(op, Box::new(l), Box::new(r), at), depth);
            match (content(c2.heap, first->Settled_0->Ok_0), content(c2.heap, second->Settled_0->Ok_0)) {
                (Some(ld), Some(rd)) => {
                    &&& !defined(op, ld, rd) ==> whole == failed::<ValueView>(Fault::UndefinedOperation, c2)
                    &&& ld is Integer && rd is Integer && is_arithmetic(op) ==> (whole matches Outcome::Settled(
                        o,
                        c3,
                    ) && c3 == c2 && (match o {
                        Ok(v) => v matches ValueView::Immutable(DynamicView::Integer(_)),
                        Err(f) => f == Fault::UndefinedOperation,
                    }))
                },
                _ => whole == failed::<ValueView>(Fault::VariableUndefined, c2),
            }
        }),
{
    lemma_binary(c, scope, op, l, r, at, depth);
}

/// Aliasing, for the statement `s.x[index] = value`. Where the statement
/// succeeds, the index is evaluated, then the value, and the value is
/// stored at the index in what the field `x` of the instance that `s` names
/// stands for. No scope binds anything else than before. Where the instance
/// does not live in the cell of its own field, `s.x` is afterwards the
/// field that it was, for every holder of the instance, and reading it at
/// the index gives the value in the form in which it is kept.
#[verifier::spinoff_prover]
pub proof fn lemma_field_item_stmt(
    c: Core,
    scope: usize,
    s: String,
    x: String,
    index: Expr,
    value: Expr,
    at: Position,
    pos: Position,
    depth: nat,
)
    requires
        sem_stmt(
            c,
            scope,
            Stmt::IndexAssign(
                Box::new(Expr::MemberAccess(Box::new(Expr::Variable(s, at)), x, at)),
                Box::new(index),
                Box::new(value),
                pos,
            ),
            depth,
        ) matches Outcome::Settled(Ok(_), _),
    ensures
        depth >= 3,
        sem_expr(c, scope, index, (depth - 1) as nat) matches Outcome::Settled(Ok(i), c1) && (sem_expr(
            c1,
            scope,
            value,
            (depth - 1) as nat,
        ) matches Outcome::Settled(Ok(v), c2) && (visible(c2.scopes, scope as int, s@) matches Some(
            instance,
        ) && (sem_member(c2, instance, x@) matches Outcome::Settled(Ok(field), _) && ({
            let c4 = sem_stmt(
                c,
                scope,
                Stmt::IndexAssign(
                    Box::new(Expr::MemberAccess(Box::new(Expr::Variable(s, at)), x, at)),
                    Box::new(index),
                    Box::new(value),
                    pos,
                ),
                depth,
            )->Settled_1;
            &&& sem_store(c2, field, i, v) == done((), c4)
            &&& c4.scopes == c2.scopes
            &&& cell_of(instance) != cell_of(field) ==> sem_member(c4, instance, x@) == done(field, c4)
                && (content(c4.heap, i) == content(c2.heap, i) ==> sem_index(c4, field, i) == done(
                kept_view(v),
                c4,
            ))
        })))),
{
    reveal(sem_stmt);
    if depth <= 1 {
        lemma_no_depth(c, scope, index);
    } else {
        let d = (depth - 1) as nat;
        let found = sem_expr(c, scope, index, d);
        let i = found->Settled_0->Ok_0;
        let c1 = found->Settled_1;
        let second = sem_expr(c1, scope, value, d);
        let v = second->Settled_0->Ok_0;
        let c2 = second->Settled_1;
        lemma_member(c2, scope, Expr::Variable(s, at), x, at, d);
        if depth == 2 {
            lemma_no_depth(c2, scope, Expr::Variable(s, at));
        } else {
            lemma_variable(c2, scope, s, at, (d - 1) as nat);
            let instance = visible(c2.scopes, scope as int, s@)->0;
            lemma_field_item_stored(c2, instance, x@, i, v);
        }
    }
}

/// An assignment succeeds. Where the name stands for a handle to a live
/// cell in the scope and the value is evaluated and stands for something,
/// the statement `name = e` succeeds.
#[verifier::spinoff_prover]
pub proof fn lemma_assign_succeeds(
    c: Core,
    scope: usize,
    name: String,
    at: Position,
    e: Expr,
    pos: Position,
    depth: nat,
)
    requires
        depth >= 2,
        visible(c.scopes, scope as int, name@) matches Some(target) && (sem_expr(
            c,
            scope,
            e,
            (depth - 1) as nat,
        ) matches Outcome::Settled(Ok(w), c2) && (content(c2.heap, w) matches Some(d)
            && crate::v1::access::assigned(c2.heap, target, d) is Some)),
    ensures
        sem_stmt(
            c,
            scope,
            Stmt::Assign(Box::new((Expr::Variable(name, at), e)), pos),
            depth,
        ) matches Outcome::Settled(Ok(_), _),
{
    reveal(sem_stmt);
    lemma_variable(c, scope, name, at, (depth - 1) as nat);
}

/// Scope discipline, for an assignment from a scope inside. Where a scope
/// sees a scope around it for a name that the scope around binds, the
/// statement `name = e` in the scope inside writes the cell that the scope
/// around has bound: both scopes read the assigned value through the name,
/// and the scope inside has no binding of its own for the name, as before.
#[verifier::spinoff_prover]
pub proof fn lemma_assign_from_inside(
    c: Core,
    outer: int,
    inner: usize,
    name: String,
    at: Position,
    e: Expr,
    pos: Position,
    depth: nat,
)
    requires
        sem_stmt(
            c,
            inner,
            Stmt::Assign(Box::new((Expr::Variable(name, at), e)), pos),
            depth,
        ) matches Outcome::Settled(Ok(_), _),
        sees(c.scopes, inner as int, outer, name@),
        inner != outer,
        0 <= outer < c.scopes.len(),
        c.scopes[outer].bindings.contains_key(name@),
        sem_expr(c, inner, e, (depth - 1) as nat)->Settled_1.scopes == c.scopes,
    ensures
        ({
            let target = c.scopes[outer].bindings[name@];
            let value = sem_expr(c, inner, e, (depth - 1) as nat);
            let c3 = sem_stmt(
                c,
                inner,
                Stmt::Assign(Box::new((Expr::Variable(name, at), e)), pos),
                depth,
            )->Settled_1;
            &&& c3.scopes == c.scopes
            &&& !c3.scopes[inner as int].bindings.contains_key(name@)
            &&& visible(c3.scopes, inner as int, name@) == Some(target)
            &&& visible(c3.scopes, outer, name@) == Some(target)
            &&& content(c3.heap, target) == content(value->Settled_1.heap, value->Settled_0->Ok_0)
        }),
{
    lemma_assign_stmt(c, inner, name, at, e, pos, depth);
    crate::context::lemma_sees_is_visible(c.scopes, inner as int, outer, name@);
}

/// Scope discipline, for a `let` in a scope inside. The statement
/// `let name = e` in a scope binds the name in that scope; every scope
/// around it, whose number is smaller, has for every name what it had when
/// the value had been evaluated, so that a name bound there stands for its
/// own cell as before.
#[verifier::spinoff_prover]
pub proof fn lemma_let_inside(
    c: Core,
    scope: usize,
    name: String,
    e: Expr,
    pos: Position,
    depth: nat,
    outer: int,
    asked: Seq<char>,
)
    requires
        sem_stmt(c, scope, Stmt::Let(Box::new((name, e)), pos), depth) matches Outcome::Settled(Ok(_), _),
        outer < scope,
    ensures
        ({
            let c0 = sem_expr(c, scope, e, (depth - 2) as nat)->Settled_1;
            let c1 = sem_stmt(c, scope, Stmt::Let(Box::new((name, e)), pos), depth)->Settled_1;
            &&& visible(c1.scopes, outer, asked) == visible(c0.scopes, outer, asked)
            &&& visible(c1.scopes, scope as int, name@) is Some
            &&& c1.scopes[scope as int].bindings.contains_key(name@)
        }),
{
    lemma_let_stmt(c, scope, name, e, pos, depth);
    let c0 = sem_expr(c, scope, e, (depth - 2) as nat)->Settled_1;
    let v = sem_expr(c, scope, e, (depth - 2) as nat)->Settled_0->Ok_0;
    lemma_let_keeps_outer_scopes(c0, scope, name@, v, outer, asked);
    let c1 = sem_bind(c0, scope, name@, v)->Settled_1;
    let target = visible(c1.scopes, scope as int, name@)->0;
    lemma_declared_is_visible(c0.scopes, scope as int, name@, target, scope as int);
}

/// Aliasing, for an item. Where the field `x` of the instance `s` is an
/// array or a map, storing `v` at an index of `s.x` and reading `s.x` at
/// that index again gives `v`, in the form in which it is kept; and `s.x`
/// is the field that it was. The instance must not live in the cell of its
/// own field.
pub proof fn lemma_field_item_stored(
    c: Core,
    s: ValueView,
    x: Seq<char>,
    index: ValueView,
    v: ValueView,
)
    requires
        sem_member(c, s, x) matches Outcome::Settled(Ok(field), _) && sem_store(c, field, index, v)
            matches Outcome::Settled(Ok(_), _) && cell_of(s) != cell_of(field),
    ensures
        ({
            let field = sem_member(c, s, x)->Settled_0->Ok_0;
            let c2 = sem_store(c, field, index, v)->Settled_1;
            &&& sem_member(c2, s, x) == done(field, c2)
            &&& content(c2.heap, index) == content(c.heap, index) ==> sem_index(c2, field, index)
                == done(kept_view(v), c2)
        }),
{
    let field = sem_member(c, s, x)->Settled_0->Ok_0;
    let id = content(c.heap, index)->0;
    crate::v1::access::lemma_fetch_stored(c.heap, field, field, id, kept_view(v));
}

/// Aliasing, for a field of a field. Assigning `v` to `s.x.k` and reading
/// `s.x.k` again gives what `v` stood for; and `s.x` is the field that it
/// was. The cell of `s.x.k` must be neither the cell of `s` nor that of
/// `s.x`.
pub proof fn lemma_field_of_field_assigned(
    c: Core,
    s: ValueView,
    x: Seq<char>,
    k: Seq<char>,
    v: ValueView,
)
    requires
        sem_member(c, s, x) matches Outcome::Settled(Ok(field), _) && (sem_member(c, field, k)
            matches Outcome::Settled(Ok(inner), _) && sem_assign(c, inner, v) matches Outcome::Settled(
            Ok(_),
            _,
        ) && cell_of(s) != cell_of(inner) && cell_of(field) != cell_of(inner)),
    ensures
        ({
            let field = sem_member(c, s, x)->Settled_0->Ok_0;
            let inner = sem_member(c, field, k)->Settled_0->Ok_0;
            let c2 = sem_assign(c, inner, v)->Settled_1;
            &&& sem_member(c2, s, x) == done(field, c2)
            &&& sem_member(c2, field, k) == done(inner, c2)
            &&& content(c2.heap, inner) == content(c.heap, v)
        }),
{
}

/// Importing a module a second time changes nothing.
pub proof fn lemma_import_twice(c: Core, name: Seq<char>)
    requires
        sem_import(c, name) matches Outcome::Settled(Ok(_), _),
    ensures
        sem_import(sem_import(c, name)->Settled_1, name) == sem_import(c, name),
{
    let c1 = sem_import(c, name)->Settled_1;
    let c2 = sem_import(c1, name)->Settled_1;
    crate::module::lemma_merge_twice(c.functions, c.modules[name].functions());
    assert(c2.methods =~= c1.methods);
}

/// What an import adds is only what was missing: every function that the
/// main module had is still the function of its name.
pub proof fn lemma_import_keeps(c: Core, name: Seq<char>, function: Seq<char>)
    requires
        sem_import(c, name) matches Outcome::Settled(Ok(_), _),
        c.functions.contains_key(function),
    ensures
        sem_import(c, name)->Settled_1.functions.contains_key(function),
        sem_import(c, name)->Settled_1.functions[function] == c.functions[function],
{
}


/// Path filter. A pipeline whose name the filter `path_pipeline` does not
/// let pass does nothing, and neither does a step or a parallel task whose
/// name the filter `path_task` does not let pass: the call gives the unit
/// and leaves the state as it was.
pub proof fn lemma_filtered_out(c: Core, scope: usize, name: Seq<char>, p: FnPtrView, depth: nat)
    ensures
        !selected(filter_of(c, "path_pipeline"@), name) ==> sem_pipeline(c, scope, name, p, depth)
            == done(unit_view(), c),
        !selected(filter_of(c, "path_task"@), name) ==> sem_step(c, scope, name, p, depth) == done(
            unit_view(),
            c,
        ) && sem_parallel(c, scope, name, p) == done(unit_view(), c),
{
    reveal(sem_pipeline);
    reveal(sem_step);
}

/// The filter `all` lets every name pass, and any other filter exactly the
/// name that it is.
pub proof fn lemma_selected(filter: Seq<char>, name: Seq<char>)
    ensures
        selected("all"@, name),
        selected(name, name),
        selected(filter, name) ==> filter == name || filter == "all"@,
{
}

/// Whether no task waits in the innermost join-set.
pub open spec fn nothing_waits(c: Core) -> bool {
    c.join_sets.len() == 0 || c.join_sets.last().len() == 0
}

/// Scheduler completion, at the join. Where the join of a pipeline has an
/// end, no task waits in the join-set of the pipeline: every task that was
/// submitted, by the body or by a task, was taken from the join-set and run,
/// or was dropped where the rounds were used up, and then the join tells
/// `BudgetExhausted`. The join tells no failure only where none was there
/// before it and no task failed.
pub proof fn lemma_drain_completes(c: Core, failure: Option<Fault>, left: nat, depth: nat)
    requires
        depth > 0,
    ensures
        sem_drain(c, failure, left, depth) matches Outcome::Settled(found, c1) ==> nothing_waits(c1)
            && found is Ok && (found == Ok::<Option<Fault>, Fault>(None) ==> failure is None),
    decreases left,
{
    reveal(sem_drain);
    reveal(sem_run_task);
    if c.join_sets.len() == 0 || c.join_sets.last().len() == 0 {
    } else if left == 0 {
        let last = c.join_sets.len() - 1;
        let c1 = Core { join_sets: c.join_sets.update(last, Seq::empty()), ..c };
        assert(c1.join_sets.last().len() == 0);
    } else {
        let last = c.join_sets.len() - 1;
        let worker = c.join_sets[last][0];
        let c1 = Core { join_sets: c.join_sets.update(last, c.join_sets[last].drop_first()), ..c };
        match sem_run_task(c1, worker.scope, worker.body, (depth - 1) as nat) {
            Outcome::Settled(r, c2) => {
                let next = if failure is None && r is Err {
                    Some(Fault::SchedulerError)
                } else {
                    failure
                };
                lemma_drain_completes(c2, next, (left - 1) as nat, depth);
            },
            Outcome::Unsettled => {},
        }
    }
}

/// Scheduler completion, for a pipeline. A pipeline that the filter lets
/// pass and that has an end has run its body and then joined: when its
/// join-set is dropped, no task waits in it. The pipeline succeeds only
/// where its body succeeded and the join told no failure.
pub proof fn lemma_pipeline_completes(c: Core, scope: usize, name: Seq<char>, p: FnPtrView, depth: nat)
    requires
        selected(filter_of(c, "path_pipeline"@), name),
        depth > 0,
        sem_pipeline(c, scope, name, p, depth) is Settled,
    ensures
        ({
            let c1 = Core { join_sets: c.join_sets.push(Seq::empty()), ..c };
            &&& sem_pointer(c1, scope, p, Seq::empty(), (depth - 1) as nat) matches Outcome::Settled(r, c2)
                && (sem_drain(
                c2,
                match r {
                    Ok(_) => None,
                    Err(f) => Some(f),
                },
                c2.rounds as nat,
                depth,
            ) matches Outcome::Settled(Ok(failure), c3) && nothing_waits(c3) && sem_pipeline(
                c,
                scope,
                name,
                p,
                depth,
            )->Settled_1 == (Core { join_sets: c3.join_sets.drop_last(), ..c3 }) && (sem_pipeline(
                c,
                scope,
                name,
                p,
                depth,
            )->Settled_0 is Ok ==> r is Ok && failure is None))
        }),
{
    reveal(sem_pipeline);
    reveal(sem_pointer);
    reveal(sem_drain);
    let c1 = Core { join_sets: c.join_sets.push(Seq::empty()), ..c };
    match sem_pointer(c1, scope, p, Seq::empty(), (depth - 1) as nat) {
        Outcome::Settled(r, c2) => {
            let first = match r {
                Ok(_) => None,
                Err(f) => Some(f),
            };
            lemma_drain_completes(c2, first, c2.rounds as nat, depth);
        },
        Outcome::Unsettled => {},
    }
}

/// A parallel task that is submitted in a pipeline waits at the end of the
/// join-set of the pipeline, behind the tasks that were submitted before
/// it.
pub proof fn lemma_parallel_submits(c: Core, scope: usize, name: Seq<char>, p: FnPtrView)
    requires
        selected(filter_of(c, "path_task"@), name),
        c.join_sets.len() > 0,
    ensures
        sem_parallel(c, scope, name, p) matches Outcome::Settled(Ok(_), c1) && c1.join_sets.len()
            == c.join_sets.len() && c1.join_sets.last() == c.join_sets.last().push(
            WorkerView { name, body: p, scope },
        ) && c1.join_sets.drop_last() == c.join_sets.drop_last(),
{
    let c1 = sem_parallel(c, scope, name, p)->Settled_1;
    assert(c1.join_sets.drop_last() =~= c.join_sets.drop_last());
}

} // verus!
