//! The interpreter: it walks the syntax tree and evaluates it.
//!
//! Evaluation is bounded: every evaluation is given a depth, which bounds how
//! deep expressions, statements and calls may nest, and every loop runs for
//! at most `rounds` rounds. A run that would go beyond either ends with
//! `BudgetExhausted`.
//!
//! What a run gives is stated in two ways. Where the host has no say, the
//! result and the state are those of the meaning of the program (the
//! functions `sem_*`). Where the host has a say, the contracts state what
//! holds whatever it answers, over three records that the state keeps: what
//! was written (`transcript`), what the host was asked (`asked`), and which
//! calls of function values and which pipelines have ended (`journal`). A
//! call is entered in the journal when it has ended, with what ended inside
//! it standing inside its entry; so a contract can say that a body was
//! called once, and what its result was, without knowing what the body
//! did.

use vstd::prelude::*;
use vstd::string::StringExecFns;
use std::sync::Arc;
use crate::context::{AppContext, Scopes};
use crate::error::{fault_of, Fault, PipelineError};
use crate::host::Host;
use crate::logger::{err_line, green, noted, out_line, red, said, texts, LogView, PipelineLogger};
use crate::module::{merged, Builtin, Function, Module};
use crate::builtin::{decode_line, is_system_gbk_err_command, is_system_gbk_output_command, random_integer, regex_replace_all, render_template};
use crate::host::{CommandOutput, FloatOrder};
use crate::operation::{Operation, OperationTypeView};
use crate::table::{get, put, table_map};
use crate::text::{chars_of, same_str, string_from_chars};
use crate::v1::expr::{Expr, FnCallExpr, Op};
use crate::v1::operators::{binary, display, DISPLAY_DEPTH};
use crate::v1::parser::FnDef;
use crate::v1::position::Position;
use crate::v1::stmt::Stmt;
use crate::v1::semantics::{
    agrees, agrees_flow, agrees_list, agrees_plain, all_live, bound_all, bound_params, entered,
    function_at, receiver_class, resolved, sem_apply, sem_arg, sem_args, sem_args_from, sem_builtin,
    sem_call, sem_call_closure, sem_pointer, sem_value_builtin, text_at, sem_assign, sem_bind,
    filter_of, sem_drain, sem_parallel, sem_pipeline, sem_run_task, sem_step, sets_view,
    workers_view, WorkerView,
    sem_block,
    sem_block_from, sem_condition, sem_entries, sem_expr, sem_fields, sem_for, sem_if, sem_import,
    sem_items, sem_items_from, sem_let, sem_member, sem_stmt, sem_store, sem_while, unit_view,
    with_field, Core, FlowView, Outcome,
    names_missing, no_truth, wants_bool,
};
use crate::v1::types::{
    array_view, lemma_array_view, lemma_props_view, live, props_view, Dynamic, DynamicView, FnPtr,
    FnPtrView, Heap, Struct, Value, ValueView,
};

verus! {

/// How a statement ends: it gives a value, or it leaves the loop, goes on
/// with the next round of the loop, or leaves the function with a value.
#[derive(Debug)]
pub enum Flow {
    Normal(Value),
    Break,
    Continue,
    Return(Value),
}

/// A task that was submitted to run in parallel: its name, its body and the
/// scope it was submitted in.
#[derive(Debug)]
pub struct Worker {
    pub name: String,
    pub body: FnPtr,
    pub scope: usize,
}

/// Lines of one stream of a command that wait to be handed to the logger.
#[derive(Debug)]
pub struct Pump {
    pub task: String,
    pub is_err: bool,
    pub lines: Vec<String>,
}

/// Lines that wait, as texts.
pub struct PumpView {
    pub task: Seq<char>,
    pub is_err: bool,
    pub lines: Seq<Seq<char>>,
}

impl View for Pump {
    type V = PumpView;

    open spec fn view(&self) -> PumpView {
        PumpView { task: self.task@, is_err: self.is_err, lines: texts(self.lines@) }
    }
}

/// The views of the pumps of a join-set.
pub open spec fn pumps_view(set: Seq<Pump>) -> Seq<PumpView> {
    Seq::new(set.len(), |i: int| set[i]@)
}

/// A line of a command as the logger keeps it.
pub open spec fn log_line(is_err: bool, line: Seq<char>) -> Seq<char> {
    if is_err {
        err_line(line)
    } else {
        out_line(line)
    }
}

/// The colour of the title of a task whose first line is of the stream.
pub open spec fn colour(is_err: bool) -> Seq<char> {
    if is_err {
        red()
    } else {
        green()
    }
}

/// Each text with the end of a line behind it.
pub open spec fn on_lines(shown: Seq<Seq<char>>) -> Seq<Seq<char>> {
    Seq::new(shown.len(), |i: int| shown[i] + "\n"@)
}

/// The log, and what has been written, after the first `upto` lines of a
/// pump have been handed to the logger: each line is kept under the task,
/// and what the logger shows for it is written, line by line.
pub open spec fn delivered(log: LogView, written: Seq<Seq<char>>, pump: PumpView, upto: int) -> (
    LogView,
    Seq<Seq<char>>,
)
    decreases upto,
{
    if upto <= 0 || upto > pump.lines.len() {
        (log, written)
    } else {
        let before = delivered(log, written, pump, upto - 1);
        let line = log_line(pump.is_err, pump.lines[upto - 1]);
        (
            noted(before.0, pump.task, line),
            before.1 + on_lines(said(before.0, pump.task, line, colour(pump.is_err))),
        )
    }
}

/// The texts of the lines of one stream of a command.
pub open spec fn decoded(lines: Seq<Vec<u8>>, gbk: bool) -> Seq<Seq<char>> {
    Seq::new(lines.len(), |i: int| crate::builtin::line_text(lines[i]@, gbk))
}

/// The log, and what has been written, after the first `upto` pumps have
/// been handed to the logger, one after the other, each with all its lines.
pub open spec fn delivered_all(log: LogView, written: Seq<Seq<char>>, pumps: Seq<PumpView>, upto: int) -> (
    LogView,
    Seq<Seq<char>>,
)
    decreases upto,
{
    if upto <= 0 || upto > pumps.len() {
        (log, written)
    } else {
        let before = delivered_all(log, written, pumps, upto - 1);
        delivered(before.0, before.1, pumps[upto - 1], pumps[upto - 1].lines.len() as int)
    }
}

/// Whether the value stands for a number.
pub open spec fn is_number(heap: Seq<Option<DynamicView>>, v: ValueView) -> bool {
    crate::v1::types::content(heap, v) matches Some(d) && (d is Integer || d is Float)
}

/// A table of texts as a map.
pub open spec fn text_table(values: Seq<(String, String)>) -> Map<Seq<char>, Seq<char>> {
    Map::new(|k: Seq<char>| table_map(values).contains_key(k), |k: Seq<char>| table_map(values)[k]@)
}

/// The names and values that the first `upto` entries of a map give to a
/// template: of two entries with one key the later one counts. Nothing
/// where a key or a value among them is no string.
pub open spec fn template_table(
    heap: Seq<Option<DynamicView>>,
    entries: Seq<(DynamicView, ValueView)>,
    upto: int,
) -> Option<Map<Seq<char>, Seq<char>>>
    decreases upto,
{
    if upto <= 0 || upto > entries.len() {
        Some(Map::empty())
    } else {
        match (
            template_table(heap, entries, upto - 1),
            entries[upto - 1].0,
            crate::v1::types::content(heap, entries[upto - 1].1),
        ) {
            (Some(table), DynamicView::Text(key), Some(DynamicView::Text(value))) => Some(
                table.insert(key, value),
            ),
            _ => None,
        }
    }
}

/// Entries that give nothing to a template give nothing when more entries
/// follow.
pub proof fn lemma_template_fails(
    heap: Seq<Option<DynamicView>>,
    entries: Seq<(DynamicView, ValueView)>,
    at: int,
    upto: int,
)
    requires
        0 < at <= upto <= entries.len(),
        template_table(heap, entries, at) is None,
    ensures
        template_table(heap, entries, upto) is None,
    decreases upto - at,
{
    if at < upto {
        lemma_template_fails(heap, entries, at, upto - 1);
    }
}

/// What the host was asked, and for a question about files what it
/// answered.
pub enum Request {
    /// An operation was handed to the host: the operation, the workspace to
    /// work in, and the environment, name by name in the order in which the
    /// names were set.
    Execute { operation: OperationTypeView, workspace: Seq<char>, env: Seq<(Seq<char>, Seq<char>)> },
    /// Whether a path exists, and whether the host found it.
    Exists { path: Seq<char>, found: bool },
    /// The text of a file in a workspace, and the text that the host gave.
    Read { workspace: Seq<char>, path: Seq<char>, found: Option<Seq<char>> },
    /// A text to be written to a file in a workspace, and whether the host
    /// has written it.
    Write { workspace: Seq<char>, path: Seq<char>, text: Seq<char>, done: bool },
    /// A directory to be made, and whether the host has made it.
    Folder { path: Seq<char>, done: bool },
    /// The text of a template of a layout, and the text that the host gave.
    Template { layout: Seq<char>, name: Seq<char>, found: Option<Seq<char>> },
}

/// A table of texts, entry by entry.
pub open spec fn pairs_of(frame: Seq<(String, String)>) -> Seq<(Seq<char>, Seq<char>)> {
    Seq::new(frame.len(), |i: int| (frame[i].0@, frame[i].1@))
}

/// What the journal of a run holds: the calls of function values and the
/// pipelines that have ended, each with what ended inside it.
pub enum Node {
    /// One call of a function value that has ended.
    Call {
        /// The function value that was called, and the scope of the call.
        ptr: FnPtrView,
        scope: usize,
        /// The kind of the error that the call gave; nothing where it gave
        /// a value.
        fault: Option<Fault>,
        /// The calls and pipelines that ended inside the call, in order.
        inside: Seq<Node>,
        /// The log, what was written, and the output of commands that
        /// waited in the join-set of the innermost task, when the call
        /// ended.
        log: LogView,
        written: Seq<Seq<char>>,
        waiting: Seq<PumpView>,
        /// The tasks that waited in the join-set of the innermost pipeline
        /// when the call ended.
        tasks: Seq<WorkerView>,
    },
    /// One pipeline that the filter let pass and that has ended.
    Pipeline {
        name: Seq<char>,
        /// The kind of the error that the pipeline gave.
        fault: Option<Fault>,
        /// First the call of the body, then one call for each task that was
        /// taken from the join-set of the pipeline, in the order in which
        /// they were taken.
        inside: Seq<Node>,
        /// The tasks that were taken from the join-set and run, in order.
        taken: Seq<WorkerView>,
        /// The number of tasks that were dropped without being run,
        /// because the rounds were used up.
        dropped: nat,
        /// The number of tasks that waited in the join-set when it was
        /// dropped.
        left: nat,
    },
}

/// The kind of the error that a call or a pipeline gave.
pub open spec fn node_fault(n: Node) -> Option<Fault> {
    match n {
        Node::Call { fault, .. } => fault,
        Node::Pipeline { fault, .. } => fault,
    }
}

/// The first failure among the first `upto` entries of what ended inside a
/// pipeline: the failure of the body as it is, the failure of a task as a
/// `SchedulerError`.
pub open spec fn first_failure(inside: Seq<Node>, upto: int) -> Option<Fault>
    decreases upto,
{
    if upto <= 0 || upto > inside.len() {
        None
    } else {
        match first_failure(inside, upto - 1) {
            Some(f) => Some(f),
            None => match node_fault(inside[upto - 1]) {
                Some(f) => Some(
                    if upto == 1 {
                        f
                    } else {
                        Fault::SchedulerError
                    },
                ),
                None => None,
            },
        }
    }
}

/// The failure of a pipeline: the first failure of its body and its tasks
/// or, where there is none and tasks were dropped because the rounds were
/// used up, `BudgetExhausted`.
pub open spec fn pipeline_failure(inside: Seq<Node>, dropped: nat) -> Option<Fault> {
    match first_failure(inside, inside.len() as int) {
        Some(f) => Some(f),
        None => if dropped > 0 {
            Some(Fault::BudgetExhausted)
        } else {
            None
        },
    }
}

/// Whether the entry is the call of the function value in the scope.
pub open spec fn is_call_of(n: Node, body: FnPtrView, scope: usize) -> bool {
    n matches Node::Call { ptr, scope: s, .. } && ptr == body && s == scope
}

/// The text that the host gave; nothing where it gave none.
pub open spec fn found_text(r: Result<String, PipelineError>) -> Option<Seq<char>> {
    match r {
        Ok(text) => Some(text@),
        Err(_) => None,
    }
}

/// The kind of the error of a result; nothing for a value.
pub open spec fn fault_in<T>(r: Result<T, PipelineError>) -> Option<Fault> {
    match r {
        Ok(_) => None,
        Err(e) => Some(fault_of(e)),
    }
}

/// The state of a run.
pub struct Interpreter {
    /// The modules that can be imported or called by `Module::function`.
    pub modules: Vec<(String, Module)>,
    /// The module in which bare names are looked up.
    pub main_module: Module,
    pub heap: Heap,
    pub scopes: Scopes,
    /// The settings of the run: `workspace`, `path_pipeline`, `path_task`.
    pub globals: AppContext<String>,
    pub logger: PipelineLogger,
    /// The environment of commands, one frame for each task that is running.
    pub env: Vec<Vec<(String, String)>>,
    /// The names of the tasks that are running, the innermost last.
    pub tasks: Vec<String>,
    /// The join-sets of the pipelines that are running, the innermost last.
    pub join_sets: Vec<Vec<Worker>>,
    /// The join-sets of the tasks that are running, the innermost last.
    pub op_join_sets: Vec<Vec<Pump>>,
    /// The position of the call that is being evaluated.
    pub position: Position,
    /// The number of rounds that a loop may run, and the number of tasks
    /// that a pipeline may join. It is the largest number where nothing
    /// else is set, so that a loop ends where its condition says so; a
    /// caller that wants every run to end in a given time sets a smaller
    /// one. The bound is what shows that evaluation ends.
    pub rounds: u64,
    /// The texts that were handed to the host to be written, in order.
    pub transcript: Ghost<Seq<Seq<char>>>,
    /// What the host was asked to execute and about files, in order.
    pub asked: Ghost<Seq<Request>>,
    /// The calls of function values and the pipelines that have ended, in
    /// order; what ended inside a call or a pipeline stands inside its
    /// entry.
    pub journal: Ghost<Seq<Node>>,
}

/// Whether `a` is the front of `b`.
pub open spec fn grown<T>(a: Seq<T>, b: Seq<T>) -> bool {
    a.len() <= b.len() && forall|i: int| 0 <= i < a.len() ==> b[i] == #[trigger] a[i]
}

/// A stack after some evaluation: as deep as before, and all but the
/// innermost entry unchanged.
pub open spec fn kept_below<T>(before: Seq<T>, after: Seq<T>) -> bool {
    &&& after.len() == before.len()
    &&& forall|k: int| 0 <= k < before.len() - 1 ==> after[k] == #[trigger] before[k]
}

/// A stack of join-sets after some evaluation: as many sets as before, all
/// but the innermost unchanged, and the innermost with what it held in front
/// of what was added.
pub open spec fn joined<T>(before: Seq<Vec<T>>, after: Seq<Vec<T>>) -> bool {
    &&& kept_below(before, after)
    &&& before.len() > 0 ==> grown(before.last()@, after.last()@)
}

/// What every step of a run keeps: no cell of the heap is dropped, no scope
/// is closed, and the bound on the rounds of a loop stays.
pub open spec fn steady(before: Interpreter, after: Interpreter) -> bool {
    &&& before.heap@.len() <= after.heap@.len()
    &&& forall|h: int| #[trigger] live(before.heap@, h) ==> live(after.heap@, h)
    &&& before.scopes@.len() <= after.scopes@.len()
    &&& after.rounds == before.rounds
}

/// What every evaluation keeps: what [`steady`] says; the environments of
/// all running tasks but the innermost; the names of the running tasks; and
/// the join-sets, from which nothing is taken and of which only the
/// innermost can gain.
pub open spec fn extends(before: Interpreter, after: Interpreter) -> bool {
    &&& steady(before, after)
    &&& kept_below(before.env@, after.env@)
    &&& after.tasks@ == before.tasks@
    &&& joined(before.join_sets@, after.join_sets@)
    &&& joined(before.op_join_sets@, after.op_join_sets@)
}

/// The first failure among the first entries depends on those entries
/// alone.
pub proof fn lemma_first_failure_same(a: Seq<Node>, b: Seq<Node>, upto: int)
    requires
        0 <= upto <= a.len(),
        upto <= b.len(),
        forall|i: int| 0 <= i < upto ==> a[i] == b[i],
    ensures
        first_failure(a, upto) == first_failure(b, upto),
    decreases upto,
{
    if upto > 0 {
        lemma_first_failure_same(a, b, upto - 1);
    }
}

/// A failure shows. Where the body of a pipeline or one of its tasks has
/// failed, the pipeline fails; and a pipeline that does not fail has
/// dropped no task.
pub proof fn lemma_failure_shows(inside: Seq<Node>, dropped: nat, at: int)
    requires
        0 <= at < inside.len(),
        node_fault(inside[at]) is Some,
    ensures
        pipeline_failure(inside, dropped) is Some,
{
    lemma_failure_stays(inside, at + 1, inside.len() as int);
}

/// A failure among the first entries is a failure among more of them.
pub proof fn lemma_failure_stays(inside: Seq<Node>, upto: int, more: int)
    requires
        0 <= upto <= more <= inside.len(),
        first_failure(inside, upto) is Some || (upto > 0 && node_fault(inside[upto - 1]) is Some),
    ensures
        first_failure(inside, more) is Some,
    decreases more - upto,
{
    if upto < more {
        lemma_failure_stays(inside, upto + 1, more);
    }
}

/// Whether `r`, with the state `after`, is an outcome of evaluating the
/// expression `e` in the state `before`: what
/// [`Interpreter::eval_expr`] promises of every outcome, whatever the host
/// says. A literal gives its value, a floating-point literal a
/// floating-point number; a name gives what it stands for.
pub open spec fn evaluated(
    before: Interpreter,
    scope: usize,
    e: Expr,
    depth: nat,
    r: Result<Value, PipelineError>,
    after: Interpreter,
) -> bool {
    &&& extends(before, after)
    &&& (sem_expr(before.essence(), scope, e, depth) matches Outcome::Settled(o, c) ==> agrees(r, o)
        && after.essence() == c)
    &&& (depth == 0 ==> r matches Err(PipelineError::BudgetExhausted))
    &&& depth > 0 ==> {
        &&& e matches Expr::IntConstant(i, _) ==> r matches Ok(v) && v@ == ValueView::Immutable(
            DynamicView::Integer(i),
        ) && after == before
        &&& e matches Expr::StringConstant(s, _) ==> r matches Ok(v) && v@ == ValueView::Immutable(
            DynamicView::Text(s@),
        ) && after == before
        &&& e matches Expr::FloatConstant(_, _) ==> r matches Ok(Value::Immutable(Dynamic::Float(_)))
            && after == before
        &&& e matches Expr::Variable(name, _) ==> after == before && (match crate::context::visible(
            before.scopes@,
            scope as int,
            name@,
        ) {
            Some(bound) => r matches Ok(v) && v@ == bound,
            None => r matches Err(PipelineError::VariableUndefined(n)) && n@ == name@,
        })
    }
}

/// Whether `r` is what a binary operator gives on two operands in a state:
/// see [`Interpreter::combine`].
pub open spec fn combined(state: Interpreter, op: Op, lv: Value, rv: Value, r: Result<Value, PipelineError>) -> bool {
    match (crate::v1::types::content(state.heap@, lv@), crate::v1::types::content(state.heap@, rv@)) {
        (Some(ld), Some(rd)) => {
            &&& r is Ok == crate::v1::operators::defined(op, ld, rd)
            &&& r matches Err(e) ==> e is UndefinedOperation
            &&& crate::v1::operators::settled(op, ld, rd) matches Some(v) ==> (r matches Ok(
                Value::Immutable(d),
            ) && d@ == v)
            &&& r matches Ok(v) ==> (v matches Value::Immutable(d) && ((ld is Integer || ld is Float) && (rd
                is Integer || rd is Float) && (ld is Float || rd is Float) ==> (
            if crate::v1::operators::is_arithmetic(op) {
                d is Float
            } else {
                d is Boolean
            })))
        },
        _ => r matches Err(e) && e is VariableUndefined,
    }
}

/// Whether `r`, with the state `after`, is an outcome of a binary
/// expression for the outcomes `first` and `second` of its operands: the
/// error of the left operand, else the error of the right operand, else
/// what the operator gives on the two values.
pub open spec fn both(
    before: Interpreter,
    scope: usize,
    op: Op,
    l: Expr,
    r: Expr,
    depth: nat,
    first: Result<Value, PipelineError>,
    mid: Interpreter,
    second: Result<Value, PipelineError>,
    last: Interpreter,
    out: Result<Value, PipelineError>,
    after: Interpreter,
) -> bool {
    &&& evaluated(before, scope, l, depth, first, mid)
    &&& match first {
        Err(e) => out == Err::<Value, PipelineError>(e) && after == mid,
        Ok(lv) => evaluated(mid, scope, r, depth, second, last) && after == last && (match second {
            Err(e) => out == Err::<Value, PipelineError>(e),
            Ok(rv) => combined(last, op, lv, rv, out),
        }),
    }
}

/// Whether `out`, with the state `after`, is an outcome of a binary
/// expression: there are outcomes of its operands, the left one first, for
/// which it is.
pub open spec fn binary_outcome(
    before: Interpreter,
    scope: usize,
    op: Op,
    l: Expr,
    r: Expr,
    depth: nat,
    out: Result<Value, PipelineError>,
    after: Interpreter,
) -> bool {
    exists|first: Result<Value, PipelineError>, mid: Interpreter, second: Result<Value, PipelineError>, last: Interpreter|
        both(before, scope, op, l, r, depth, first, mid, second, last, out, after)
}

/// Whether `r`, with the state `after`, is an outcome of a condition for
/// the outcome `found` of its expression: the error of the expression, the
/// truth value that it gave, or `ExpectedType` for `bool` where it gave a
/// value that is no truth value.
pub open spec fn decided(
    before: Interpreter,
    scope: usize,
    e: Expr,
    depth: nat,
    found: Result<Value, PipelineError>,
    r: Result<bool, PipelineError>,
    after: Interpreter,
) -> bool {
    &&& depth > 0
    &&& evaluated(before, scope, e, (depth - 1) as nat, found, after)
    &&& match found {
        Err(e) => r == Err::<bool, PipelineError>(e),
        Ok(v) => match crate::v1::types::content(after.heap@, v@) {
            Some(DynamicView::Boolean(b)) => r == Ok::<bool, PipelineError>(b),
            _ => wants_bool(r),
        },
    }
}

/// Whether `r`, with the state `after`, is an outcome of a condition,
/// whatever the host says: there is an outcome of its expression for which
/// it is.
pub open spec fn condition_outcome(
    before: Interpreter,
    scope: usize,
    e: Expr,
    depth: nat,
    r: Result<bool, PipelineError>,
    after: Interpreter,
) -> bool {
    depth > 0 ==> exists|found: Result<Value, PipelineError>|
        decided(before, scope, e, depth, found, r, after)
}

/// Whether `r`, with the state `after`, is an outcome of a call whose name
/// resolves to nothing, for the outcome `found` of its arguments, which
/// left the state `mid`: the error of the arguments, or the error that
/// names what is missing, with the state as the arguments left it.
pub open spec fn unresolved(
    before: Interpreter,
    scope: usize,
    call: FnCallExpr,
    depth: nat,
    found: Result<Vec<Value>, PipelineError>,
    mid: Interpreter,
    r: Result<Value, PipelineError>,
    after: Interpreter,
) -> bool {
    &&& depth > 0
    &&& extends(before, mid)
    &&& (sem_args(before.essence(), scope, call.args@, (depth - 1) as nat) matches Outcome::Settled(o, c)
        ==> agrees_list(found, o) && mid.essence() == c)
    &&& match found {
        Err(e) => r == Err::<Value, PipelineError>(e) && after == mid,
        Ok(args) => match resolution(
            call.name@,
            class_of(
                if args.len() > 0 {
                    crate::v1::types::content(mid.heap@, args@[0]@)
                } else {
                    None
                },
            ),
            mid.module_map(),
            mid.main_module,
        ) {
            Target::Undefined => (r matches Err(PipelineError::FunctionUndefined(s)) && s@ == call.name@)
                && after == mid,
            Target::UnknownModule(m) => (r matches Err(PipelineError::UnknownModule(s)) && s@ == m)
                && after == mid,
            _ => true,
        },
    }
}

/// Whether `r`, with the state `after`, is an outcome of a statement that is
/// evaluated to the depth `depth` and whose first condition `e` gave the
/// outcome `found` and left the state `mid`:
/// where the condition failed, its error is the result, and where it gave
/// a value that is no truth value, the result is `ExpectedType` for
/// `bool`; either way nothing ran behind the condition.
pub open spec fn refusing<T>(
    before: Interpreter,
    scope: usize,
    e: Expr,
    depth: nat,
    found: Result<Value, PipelineError>,
    mid: Interpreter,
    r: Result<T, PipelineError>,
    after: Interpreter,
) -> bool {
    &&& depth > 1
    &&& evaluated(before, scope, e, (depth - 2) as nat, found, mid)
    &&& match found {
        Err(e) => r == Err::<T, PipelineError>(e) && after == mid,
        Ok(v) => !(crate::v1::types::content(mid.heap@, v@) is Some && crate::v1::types::content(
            mid.heap@,
            v@,
        )->0 is Boolean) ==> wants_bool(r) && after == mid,
    }
}

/// Whether what is evaluated in the scope `scope` has kept to its scope:
/// every scope that there was before, but the scope `scope`, binds what it
/// bound; every task that waited in a join-set waits where it waited; and
/// every task that has come to wait since was submitted in the scope
/// `scope` or in a scope that was made since.
pub open spec fn binds_beside(before: Interpreter, after: Interpreter, scope: usize) -> bool {
    &&& forall|k: int|
        0 <= k < before.scopes@.len() && k != scope ==> after.scopes@[k] == #[trigger] before.scopes@[k]
    &&& before.scopes@.len() <= after.scopes@.len()
    &&& forall|j: int, i: int|
        0 <= j < before.join_sets@.len() && j < after.join_sets@.len() && 0 <= i < after.join_sets@[j]@.len()
            ==> (if i < before.join_sets@[j]@.len() {
            (#[trigger] after.join_sets@[j]@[i]) == before.join_sets@[j]@[i]
        } else {
            after.join_sets@[j]@[i].scope == scope || after.join_sets@[j]@[i].scope >= before.scopes@.len()
        })
}

/// Whether every scope that there was before binds what it bound: a call
/// of a function of the script binds its parameters, and what its body
/// declares, in a scope of its own, and the scope of the caller binds
/// afterwards exactly what it bound before.
pub open spec fn binds_below(before: Interpreter, after: Interpreter) -> bool {
    forall|k: int| 0 <= k < before.scopes@.len() ==> after.scopes@[k] == #[trigger] before.scopes@[k]
}

/// Whether every scope binds what it bound and every task waits where it
/// waited, none being added.
pub open spec fn binds_as_before(before: Interpreter, after: Interpreter) -> bool {
    &&& after.scopes@ == before.scopes@
    &&& after.join_sets@ == before.join_sets@
}

pub proof fn lemma_extends_itself(s: Interpreter)
    ensures
        extends(s, s),
{
}

/// The form in which a value is kept inside an array, a map or an instance:
/// a strong handle becomes a weak one, so that the aggregate does not own
/// the cell.
pub fn kept(v: Value) -> (r: Value)
    ensures
        r == (match v {
            Value::Mutable(h) => Value::Refer(h),
            other => other,
        }),
{
    match v {
        Value::Mutable(h) => Value::Refer(h),
        other => other,
    }
}

/// The unit value.
pub fn unit() -> (v: Value)
    ensures
        v == Value::Immutable(Dynamic::Unit),
{
    Value::Immutable(Dynamic::Unit)
}

fn dropped<T>() -> (r: Result<T, PipelineError>)
    ensures
        r matches Err(PipelineError::VariableUndefined(_)),
{
    Err(PipelineError::VariableUndefined(String::from_str("dropped value")))
}

fn expected<T>(kind: &str) -> (r: Result<T, PipelineError>)
    ensures
        r matches Err(PipelineError::ExpectedType(s)) && s@ == kind@,
{
    Err(PipelineError::ExpectedType(String::from_str(kind)))
}

/// The offset of the first `::` in a name.
pub open spec fn scope_mark(name: Seq<char>, from: int) -> Option<int>
    decreases name.len() - from,
{
    if from < 0 || from + 1 >= name.len() {
        None
    } else if name[from] == ':' && name[from + 1] == ':' {
        Some(from)
    } else {
        scope_mark(name, from + 1)
    }
}

/// The module and the function that a name of the form `module::function`
/// names; nothing for a name without `::`.
pub open spec fn scoped(name: Seq<char>) -> Option<(Seq<char>, Seq<char>)> {
    match scope_mark(name, 0) {
        Some(k) => Some((name.subrange(0, k), name.subrange(k + 2, name.len() as int))),
        None => None,
    }
}

/// Splits a name of the form `module::function`.
pub fn split_scoped(name: &str) -> (r: Option<(String, String)>)
    ensures
        match r {
            Some((m, f)) => scoped(name@) == Some((m@, f@)),
            None => scoped(name@) is None,
        },
{
    let chars = chars_of(name);
    let mut k: usize = 0;
    while chars.len() - k > 1
        invariant
            k <= chars.len(),
            chars@ == name@,
            scope_mark(name@, 0) == scope_mark(name@, k as int),
        decreases chars.len() - k,
    {
        if chars[k] == ':' && chars[k + 1] == ':' {
            let m = string_from_chars(&chars, 0, k);
            let f = string_from_chars(&chars, k + 2, chars.len());
            return Some((m, f));
        }
        k += 1;
    }
    None
}

/// What a call resolves to.
pub enum Target {
    /// A function of a module.
    Function(Function),
    /// A method of the class of the first argument.
    Method(Function),
    /// The name has the form `module::function` and no module is called so.
    UnknownModule(Seq<char>),
    /// No function is called so.
    Undefined,
}

/// The function that a call of `name` resolves to. A name of the form
/// `module::function` is looked up in the module of that name. Any other
/// name is a method where the first argument is an instance of a class of
/// the main module that has a method of that name, and a function of the
/// main module otherwise.
pub open spec fn resolution(
    name: Seq<char>,
    receiver: Option<Seq<char>>,
    modules: Map<Seq<char>, Module>,
    main: Module,
) -> Target {
    match scoped(name) {
        Some((m, f)) => if modules.contains_key(m) {
            if modules[m].functions().contains_key(f) {
                Target::Function(modules[m].functions()[f])
            } else {
                Target::Undefined
            }
        } else {
            Target::UnknownModule(m)
        },
        None => if receiver is Some && main.methods(receiver->0).contains_key(name) {
            Target::Method(main.methods(receiver->0)[name])
        } else if main.functions().contains_key(name) {
            Target::Function(main.functions()[name])
        } else {
            Target::Undefined
        },
    }
}

/// The class of the instance that a value is; nothing for a value of
/// another kind.
pub open spec fn class_of(d: Option<DynamicView>) -> Option<Seq<char>> {
    match d {
        Some(DynamicView::Struct(name, _)) => Some(name),
        _ => None,
    }
}

/// Whether a filter lets a name pass: the filter is the name, or `all`.
pub open spec fn selected(filter: Seq<char>, name: Seq<char>) -> bool {
    filter == name || filter == "all"@
}

/// Whether the filter lets the name pass.
pub fn is_selected(filter: &str, name: &str) -> (b: bool)
    ensures
        b == selected(filter@, name@),
{
    same_str(filter, name) || same_str(filter, "all")
}

impl Interpreter {
    /// The modules by name.
    pub open spec fn module_map(&self) -> Map<Seq<char>, Module> {
        table_map(self.modules@)
    }

    /// The part of the state that the meaning of a program speaks of.
    pub open spec fn essence(&self) -> Core {
        Core {
            heap: self.heap@,
            scopes: self.scopes@,
            functions: self.main_module.functions(),
            methods: Map::new(
                |class: Seq<char>| self.main_module.class_names().contains(class),
                |class: Seq<char>| self.main_module.methods(class),
            ),
            modules: self.module_map(),
            rounds: self.rounds,
            written: self.transcript@,
            settings: Map::new(
                |k: Seq<char>| self.globals@.contains_key(k),
                |k: Seq<char>| self.globals@[k]@,
            ),
            join_sets: sets_view(self.join_sets@),
            waiting: Seq::new(self.op_join_sets@.len(), |i: int| self.op_join_sets@[i]@.len()),
        }
    }

    /// Whether two states differ in nothing but what was written.
    pub open spec fn wrote_only(before: Interpreter, after: Interpreter) -> bool {
        &&& after.modules == before.modules
        &&& after.main_module == before.main_module
        &&& after.heap == before.heap
        &&& after.scopes == before.scopes
        &&& after.globals == before.globals
        &&& after.logger == before.logger
        &&& after.env == before.env
        &&& after.tasks == before.tasks
        &&& after.join_sets == before.join_sets
        &&& after.op_join_sets == before.op_join_sets
        &&& after.position == before.position
        &&& after.rounds == before.rounds
        &&& after.asked@ == before.asked@
        &&& after.journal@ == before.journal@
    }

    /// Hands a text to the host to be written to the standard output.
    pub fn emit<H: Host>(&mut self, host: &mut H, text: &str)
        ensures
            Self::wrote_only(*old(self), *final(self)),
            final(self).transcript@ == old(self).transcript@.push(text@),
    {
        host.write(text);
        self.transcript = Ghost(self.transcript@.push(text@));
    }

    /// The value of a setting of the run.
    pub open spec fn setting(&self, key: Seq<char>) -> Option<Seq<char>> {
        if self.globals@.contains_key(key) {
            Some(self.globals@[key]@)
        } else {
            None
        }
    }

    /// A fresh state: no modules, an empty main module, the scope of the
    /// program with `true` and `false` bound, and the settings `workspace`
    /// (`./`), `path_pipeline` and `path_task` (both `all`).
    pub fn new() -> (i: Self)
        ensures
            i.module_map() == Map::<Seq<char>, Module>::empty(),
            i.main_module.functions() == Map::<Seq<char>, Function>::empty(),
            i.join_sets@.len() == 0,
            i.op_join_sets@.len() == 0,
            i.env@.len() == 0,
            i.tasks@.len() == 0,
            i.setting("workspace"@) == Some("./"@),
            i.setting("path_pipeline"@) == Some("all"@),
            i.setting("path_task"@) == Some("all"@),
    {
        Self::with_shared_module(Module::new("main"))
    }

    /// A fresh state with the given main module.
    pub fn with_shared_module(sm: Module) -> (i: Self)
        ensures
            i.module_map() == Map::<Seq<char>, Module>::empty(),
            i.main_module == sm,
            i.join_sets@.len() == 0,
            i.op_join_sets@.len() == 0,
            i.env@.len() == 0,
            i.tasks@.len() == 0,
            i.setting("workspace"@) == Some("./"@),
            i.setting("path_pipeline"@) == Some("all"@),
            i.setting("path_task"@) == Some("all"@),
    {
        let mut globals: AppContext<String> = AppContext::new();
        globals.set_value("workspace", String::from_str("./"));
        globals.set_value("path_pipeline", String::from_str("all"));
        globals.set_value("path_task", String::from_str("all"));
        let mut scopes = Scopes::new();
        scopes.declare(0, "true", Value::Immutable(Dynamic::Boolean(true)));
        scopes.declare(0, "false", Value::Immutable(Dynamic::Boolean(false)));
        let i = Self {
            modules: Vec::new(),
            main_module: sm,
            heap: Heap::new(),
            scopes,
            globals,
            logger: PipelineLogger::new(),
            env: Vec::new(),
            tasks: Vec::new(),
            join_sets: Vec::new(),
            op_join_sets: Vec::new(),
            position: Position::new(0, 0),
            rounds: u64::MAX,
            transcript: Ghost(Seq::empty()),
            asked: Ghost(Seq::empty()),
            journal: Ghost(Seq::empty()),
        };
        assert(i.module_map() =~= Map::<Seq<char>, Module>::empty());
        proof {
            reveal_strlit("workspace");
            reveal_strlit("path_pipeline");
            reveal_strlit("path_task");
            assert("workspace"@.len() != "path_pipeline"@.len());
            assert("workspace"@[0] != "path_task"@[0]);
            assert("path_pipeline"@.len() != "path_task"@.len());
        }
        i
    }

    /// Makes a module known under a name; a module of that name is
    /// replaced.
    pub fn register_module(&mut self, name: &str, module: Module)
        ensures
            final(self).module_map() == old(self).module_map().insert(name@, module),
            final(self).main_module == old(self).main_module,
            extends(*old(self), *final(self)),
            binds_as_before(*old(self), *final(self)),
    {
        put(&mut self.modules, String::from_str(name), module);
        proof {
            lemma_extends_itself(*old(self));
        }
    }

    /// The module called `name`.
    pub fn get_module(&self, name: &str) -> (r: Option<&Module>)
        ensures
            match r {
                Some(m) => self.module_map().contains_key(name@) && self.module_map()[name@] == *m,
                None => !self.module_map().contains_key(name@),
            },
    {
        get(&self.modules, name)
    }

    /// Imports a module: every function and class of the module called
    /// `name` that the main module does not have yet is copied into the main
    /// module. Where no module is called so, the error is `UnknownModule`
    /// with the name, and nothing changes.
    pub fn merge_into_main_module(&mut self, module_name: &str) -> (r: Result<(), PipelineError>)
        ensures
            extends(*old(self), *final(self)),
            binds_as_before(*old(self), *final(self)),
            final(self).module_map() == old(self).module_map(),
            sem_import(old(self).essence(), module_name@) matches Outcome::Settled(o, c) && agrees_plain(
                r,
                o,
            ) && final(self).essence() == c,
            match r {
                Ok(_) => old(self).module_map().contains_key(module_name@) && final(self).main_module.functions() == merged(
                    old(self).main_module.functions(),
                    old(self).module_map()[module_name@].functions(),
                ),
                Err(e) => !old(self).module_map().contains_key(module_name@) && e
                    == PipelineError::UnknownModule(e->UnknownModule_0) && e->UnknownModule_0@
                    == module_name@ && final(self).main_module == old(self).main_module,
            },
    {
        proof {
            lemma_extends_itself(*old(self));
        }
        match get(&self.modules, module_name) {
            None => Err(PipelineError::UnknownModule(String::from_str(module_name))),
            Some(target) => {
                self.main_module.merge(target);
                proof {
                    let c = sem_import(old(self).essence(), module_name@)->Settled_1;
                    assert(self.essence().methods =~= c.methods);
                }
                Ok(())
            },
        }
    }

    /// Finds the function that a call of `name` resolves to, with the first
    /// argument `first` where the call has one, and says whether it is a
    /// method. A name `module::function` with a module that is not known
    /// gives `UnknownModule`; a name that resolves to nothing gives
    /// `FunctionUndefined`.
    pub fn resolve(&self, name: &str, first: Option<&Value>) -> (r: Result<
        (Function, bool),
        PipelineError,
    >)
        ensures
            match resolution(
                name@,
                class_of(
                    match first {
                        Some(v) => crate::v1::types::content(self.heap@, v@),
                        None => None,
                    },
                ),
                self.module_map(),
                self.main_module,
            ) {
                Target::Function(f) => r == Ok::<(Function, bool), PipelineError>((f, false)),
                Target::Method(f) => r == Ok::<(Function, bool), PipelineError>((f, true)),
                Target::UnknownModule(m) => r matches Err(PipelineError::UnknownModule(s)) && s@
                    == m,
                Target::Undefined => r matches Err(PipelineError::FunctionUndefined(s)) && s@
                    == name@,
            },
            agrees_plain(
                r,
                resolved(
                    self.essence(),
                    name@,
                    receiver_class(
                        self.essence(),
                        match first {
                            Some(v) => Some(v@),
                            None => None,
                        },
                    ),
                ),
            ),
    {
        proof {
            let class = class_of(
                match first {
                    Some(v) => crate::v1::types::content(self.heap@, v@),
                    None => None,
                },
            );
            if class is Some && !self.main_module.class_names().contains(class->0) {
                crate::module::lemma_methods_of_unknown_class(self.main_module, class->0);
            }
        }
        match split_scoped(name) {
            Some((m, f)) => match get(&self.modules, m.as_str()) {
                Some(module) => match module.get_function(f.as_str()) {
                    Some(function) => Ok((function, false)),
                    None => Err(PipelineError::FunctionUndefined(String::from_str(name))),
                },
                None => Err(PipelineError::UnknownModule(m)),
            },
            None => {
                let class: Option<&Struct> = match first {
                    Some(v) => match self.heap.resolve(v) {
                        Some(d) => d.as_struct(),
                        None => None,
                    },
                    None => None,
                };
                let method = match class {
                    Some(s) => self.main_module.get_class_function(s.name.as_str(), name),
                    None => None,
                };
                match method {
                    Some(function) => Ok((function, true)),
                    None => match self.main_module.get_function(name) {
                        Some(function) => Ok((function, false)),
                        None => Err(PipelineError::FunctionUndefined(String::from_str(name))),
                    },
                }
            },
        }
    }

    /// A copy of what a value stands for; `VariableUndefined` for a value
    /// that names a cell which is not live.
    pub fn snapshot(&self, v: &Value) -> (r: Result<Dynamic, PipelineError>)
        ensures
            match r {
                Ok(d) => crate::v1::types::content(self.heap@, v@) == Some(d@),
                Err(e) => crate::v1::types::content(self.heap@, v@) is None && e
                    is VariableUndefined,
            },
    {
        match v.as_dynamic(&self.heap) {
            Some(d) => Ok(d),
            None => dropped(),
        }
    }

    /// What a binary operator gives on the operands `lv` and `rv`, once
    /// both are evaluated, whatever the host says of floating-point
    /// numbers: a value exactly where the operator is defined on the pair
    /// and `UndefinedOperation` where it is not; the value that is settled
    /// without the host where there is one; and for a pair of numbers with
    /// a floating-point number among them a floating-point number from an
    /// arithmetic operator and a truth value from a comparison. An operand
    /// that stands for nothing gives `VariableUndefined`.
    #[verifier::spinoff_prover]
    pub fn combine<H: Host>(&self, host: &mut H, op: Op, lv: &Value, rv: &Value) -> (r: Result<
        Value,
        PipelineError,
    >)
        ensures
            combined(*self, op, *lv, *rv, r),
    {
        let ld = match self.heap.resolve(lv) {
            Some(d) => d,
            None => {
                return dropped();
            },
        };
        let rd = match self.heap.resolve(rv) {
            Some(d) => d,
            None => {
                return dropped();
            },
        };
        let out = binary(op, ld, rd, &self.heap, host)?;
        Ok(Value::Immutable(out))
    }

    /// Evaluates a binary expression: the left operand, then the right one,
    /// then the operator on what they gave.
    #[verifier::spinoff_prover]
    fn eval_binary<H: Host>(&mut self, host: &mut H, scope: usize, op: Op, l: &Expr, r: &Expr, depth: usize) -> (out:
        Result<Value, PipelineError>)
        requires
            depth > 0,
        ensures
            extends(*old(self), *final(self)),
            binds_beside(*old(self), *final(self), scope),
            (match sem_expr(old(self).essence(), scope, *l, (depth - 1) as nat) {
                Outcome::Settled(Ok(lv), c1) => match sem_expr(c1, scope, *r, (depth - 1) as nat) {
                    Outcome::Settled(Ok(rv), c2) => crate::v1::semantics::sem_binary(c2, op, lv, rv),
                    Outcome::Settled(Err(f), c2) => crate::v1::semantics::failed(f, c2),
                    Outcome::Unsettled => Outcome::Unsettled,
                },
                Outcome::Settled(Err(f), c1) => crate::v1::semantics::failed(f, c1),
                Outcome::Unsettled => Outcome::Unsettled,
            }) matches Outcome::Settled(o, c) ==> agrees(out, o) && final(self).essence() == c,
            binary_outcome(*old(self), scope, op, *l, *r, (depth - 1) as nat, out, *final(self)),
        decreases depth, 0nat,
    {
        let first = self.eval_expr(host, scope, l, depth - 1);
        let ghost mid = *self;
        let ghost begun = first;
        let lv = match first {
            Ok(v) => v,
            Err(e) => {
                proof {
                    assert(both(*old(self), scope, op, *l, *r, (depth - 1) as nat, begun, mid, begun, mid, begun, mid));
                }
                return Err(e);
            },
        };
        let second = self.eval_expr(host, scope, r, depth - 1);
        let ghost last = *self;
        let ghost ended = second;
        let rv = match second {
            Ok(v) => v,
            Err(e) => {
                proof {
                    assert(both(*old(self), scope, op, *l, *r, (depth - 1) as nat, begun, mid, ended, last, ended, last));
                }
                return Err(e);
            },
        };
        let out = self.combine(host, op, &lv, &rv);
        proof {
            assert(both(*old(self), scope, op, *l, *r, (depth - 1) as nat, begun, mid, ended, last, out, last));
        }
        out
    }

    /// Evaluates an expression in a scope.
    ///
    /// A literal gives its value, held immutably. A name gives the value
    /// that it has in the scope, and `VariableUndefined` where it has none.
    /// An array, map or struct literal gives a strong handle to a new cell;
    /// what its items evaluate to is kept in it in the form of [`kept`].
    #[verifier::spinoff_prover]
    #[verifier::loop_isolation(false)]
    pub fn eval_expr<H: Host>(&mut self, host: &mut H, scope: usize, expr: &Expr, depth: usize) -> (r:
        Result<Value, PipelineError>)
        ensures
            extends(*old(self), *final(self)),
            binds_beside(*old(self), *final(self), scope),
            sem_expr(old(self).essence(), scope, *expr, depth as nat) matches Outcome::Settled(o, c)
                ==> agrees(r, o) && final(self).essence() == c,
            depth == 0 ==> r matches Err(PipelineError::BudgetExhausted),
            depth > 0 ==> {
                &&& expr matches Expr::IntConstant(i, _) ==> r matches Ok(v) && v@
                    == crate::v1::types::ValueView::Immutable(DynamicView::Integer(*i)) && *final(self)
                    == *old(self)
                &&& expr matches Expr::StringConstant(s, _) ==> r matches Ok(v) && v@
                    == crate::v1::types::ValueView::Immutable(DynamicView::Text(s@)) && *final(self)
                    == *old(self)
                &&& expr matches Expr::Variable(name, _) ==> *final(self) == *old(self) && (
                match crate::context::visible(old(self).scopes@, scope as int, name@) {
                    Some(bound) => r matches Ok(v) && v@ == bound,
                    None => r matches Err(PipelineError::VariableUndefined(n)) && n@ == name@,
                })
                &&& expr matches Expr::FloatConstant(_, _) ==> r matches Ok(
                    Value::Immutable(Dynamic::Float(_)),
                ) && *final(self) == *old(self)
                &&& expr matches Expr::BinaryExpr(op, l, rr, _) ==> binary_outcome(
                    *old(self),
                    scope,
                    *op,
                    **l,
                    **rr,
                    (depth - 1) as nat,
                    r,
                    *final(self),
                )
            },
        decreases depth, 1nat,
    {
        proof {
            reveal(sem_expr);
            reveal(sem_entries);
            reveal(sem_fields);
        }
        proof {
            lemma_extends_itself(*old(self));
        }
        if depth == 0 {
            return Err(PipelineError::BudgetExhausted);
        }
        match expr {
            Expr::StringConstant(s, _) => Ok(Value::Immutable(Dynamic::String(s.clone()))),
            Expr::IntConstant(i, _) => Ok(Value::Immutable(Dynamic::Integer(*i))),
            Expr::FloatConstant(text, _) => Ok(
                Value::Immutable(Dynamic::Float(host.float_parse(text.as_str()))),
            ),
            Expr::Empty(_) => Ok(unit()),
            Expr::Variable(name, _) => match self.scopes.lookup(scope, name.as_str()) {
                Some(v) => Ok(v.duplicate()),
                None => Err(PipelineError::VariableUndefined(name.clone())),
            },
            Expr::FnClosure(closure, _) => {
                let mut ptr = FnPtr::new(closure.def.name.as_str());
                ptr.set_fn_def(&closure.def);
                ptr.set_defer(true);
                ptr.set_scope(scope);
                Ok(Value::Immutable(Dynamic::FnPtr(Box::new(ptr))))
            },
            Expr::FnCall(call, pos) => {
                self.position = *pos;
                self.eval_fn_call_expr_with_context(host, scope, call, depth - 1)
            },
            Expr::BinaryExpr(op, l, r, _) => self.eval_binary(host, scope, *op, l, r, depth),
            Expr::Array(items, _) => {
                let values = self.eval_items(host, scope, items, depth - 1)?;
                let h = self.heap.allocate(Dynamic::Array(values));
                Ok(Value::Mutable(h))
            },
            Expr::MapLiteral(entries, _) => {
                let mut map = Dynamic::Mapping(Vec::new());
                let mut i: usize = 0;
                proof {
                    crate::v1::types::lemma_entries_view(Seq::<(Dynamic, Value)>::empty());
                    assert(map@ == DynamicView::Mapping(Seq::empty())) by {
                        assert(crate::v1::types::entries_view(Seq::<(Dynamic, Value)>::empty())
                            =~= Seq::<(DynamicView, crate::v1::types::ValueView)>::empty());
                    }
                }
                while i < entries.len()
                    invariant
                        i <= entries.len(),
                        extends(*old(self), *self),
                        binds_beside(*old(self), *self, scope),
                        depth > 0,
                        map@ is Mapping,
                        sem_entries(
                            old(self).essence(),
                            scope,
                            entries@,
                            0,
                            DynamicView::Mapping(Seq::empty()),
                            depth as nat,
                        ) is Settled ==> sem_entries(
                            old(self).essence(),
                            scope,
                            entries@,
                            0,
                            DynamicView::Mapping(Seq::empty()),
                            depth as nat,
                        ) == sem_entries(self.essence(), scope, entries@, i as int, map@, depth as nat),
                    decreases entries.len() - i,
                {
                    let key = self.eval_expr(host, scope, &entries[i].0, depth - 1)?;
                    let value = self.eval_expr(host, scope, &entries[i].1, depth - 1)?;
                    let key = self.snapshot(&key)?;
                    map.index_assign(key, kept(value))?;
                    i += 1;
                }
                let h = self.heap.allocate(map);
                Ok(Value::Mutable(h))
            },
            Expr::Struct(literal, _) => {
                let mut props: Vec<(String, Value)> = Vec::new();
                let fields = literal.get_props();
                let mut i: usize = 0;
                proof {
                    assert(props_view(props@) =~= Seq::<
                        (Seq<char>, crate::v1::types::ValueView),
                    >::empty());
                }
                while i < fields.len()
                    invariant
                        i <= fields.len(),
                        fields@ == literal.props(),
                        extends(*old(self), *self),
                        binds_beside(*old(self), *self, scope),
                        depth > 0,
                        sem_fields(old(self).essence(), scope, fields@, 0, Seq::empty(), depth as nat)
                            is Settled ==> sem_fields(
                            old(self).essence(),
                            scope,
                            fields@,
                            0,
                            Seq::empty(),
                            depth as nat,
                        ) == sem_fields(
                            self.essence(),
                            scope,
                            fields@,
                            i as int,
                            props_view(props@),
                            depth as nat,
                        ),
                    decreases fields.len() - i,
                {
                    let value = self.eval_expr(host, scope, &fields[i].1, depth - 1)?;
                    let field = match value {
                        Value::Immutable(d) => Value::Refer(self.heap.allocate(d)),
                        Value::Mutable(h) => Value::Refer(h),
                        Value::Refer(h) => Value::Refer(h),
                    };
                    let ghost before = props@;
                    put(&mut props, fields[i].0.clone(), field);
                    proof {
                        Self::lemma_field_put(before, props@, fields@[i as int].0@, field);
                    }
                    i += 1;
                }
                let name = String::from_str(literal.get_name());
                let h = self.heap.allocate(Dynamic::Struct(Box::new(Struct::new(name, props))));
                Ok(Value::Mutable(h))
            },
            Expr::Index(base, index, _) => {
                let bv = self.eval_expr(host, scope, base, depth - 1)?;
                let iv = self.eval_expr(host, scope, index, depth - 1)?;
                let id = match self.heap.resolve(&iv) {
                    Some(d) => d,
                    None => {
                        return dropped();
                    },
                };
                self.heap.element(&bv, id)
            },
            Expr::MemberAccess(base, name, _) => {
                let bv = self.eval_expr(host, scope, base, depth - 1)?;
                self.member(&bv, name.as_str())
            },
        }
    }

    /// The value of the field `name` of the instance that `target` stands
    /// for. A target that is no instance gives `ExpectedType`; an instance
    /// without such a field, and a target that names a cell which is not
    /// live, give `VariableUndefined`.
    pub fn member(&self, target: &Value, name: &str) -> (r: Result<Value, PipelineError>)
        ensures
            sem_member(self.essence(), target@, name@) matches Outcome::Settled(o, _) && agrees(r, o),
    {
        match self.heap.resolve(target) {
            Some(d) => match d.as_struct() {
                Some(s) => {
                    proof {
                        lemma_props_view(s.props@);
                        assert(Seq::new(
                            props_view(s.props@).len(),
                            |i: int| props_view(s.props@)[i].0,
                        ) =~= s.field_names());
                        assert(d@ == DynamicView::Struct(s.name@, props_view(s.props@)));
                        crate::table::lemma_position_of(s.field_names(), name@);
                    }
                    match s.get_prop(name) {
                        Some(v) => Ok(v.duplicate()),
                        None => Err(PipelineError::VariableUndefined(String::from_str(name))),
                    }
                },
                None => expected("Struct"),
            },
            None => dropped(),
        }
    }

    /// The fields of a struct literal after one more field has been put.
    proof fn lemma_field_put(
        before: Seq<(String, Value)>,
        after: Seq<(String, Value)>,
        name: Seq<char>,
        field: Value,
    )
        requires
            crate::table::names(after) == crate::table::placed(
                crate::table::names(before),
                crate::table::names(before),
                name,
                name,
            ),
            crate::table::values_of(after) == crate::table::placed(
                crate::table::names(before),
                crate::table::values_of(before),
                name,
                field,
            ),
        ensures
            props_view(after) == with_field(props_view(before), name, field@),
    {
        lemma_props_view(before);
        lemma_props_view(after);
        let ns = crate::table::names(before);
        let vs = crate::table::values_of(before);
        let pv = props_view(before);
        assert(Seq::new(pv.len(), |i: int| pv[i].0) =~= ns);
        crate::table::lemma_position_of(ns, name);
        assert(crate::table::names(after).len() == after.len());
        assert(crate::table::values_of(after).len() == after.len());
        let goal = with_field(pv, name, field@);
        assert(props_view(after).len() == goal.len());
        assert forall|k: int| 0 <= k < goal.len() implies props_view(after)[k] == goal[k] by {
            assert(props_view(after)[k] == (after[k].0@, after[k].1@));
            assert(crate::table::names(after)[k] == after[k].0@);
            assert(crate::table::values_of(after)[k] == after[k].1);
            if k < before.len() {
                assert(ns[k] == before[k].0@);
                assert(vs[k] == before[k].1);
                assert(pv[k] == (before[k].0@, before[k].1@));
            }
        }
        assert(props_view(after) =~= goal);
    }

    /// Evaluates the items of an array literal from left to right.
    #[verifier::spinoff_prover]
    #[verifier::loop_isolation(false)]
    fn eval_items<H: Host>(&mut self, host: &mut H, scope: usize, items: &Vec<Expr>, depth: usize) -> (r:
        Result<Vec<Value>, PipelineError>)
        ensures
            extends(*old(self), *final(self)),
            binds_beside(*old(self), *final(self), scope),
            r matches Ok(values) ==> values.len() == items.len(),
            sem_items(old(self).essence(), scope, items@, depth as nat) matches Outcome::Settled(o, c)
                ==> agrees_list(r, o) && final(self).essence() == c,
        decreases depth,
    {
        proof {
            reveal(sem_items);
            reveal(sem_items_from);
        }
        if depth == 0 {
            return Err(PipelineError::BudgetExhausted);
        }
        let mut values: Vec<Value> = Vec::new();
        let mut i: usize = 0;
        proof {
            assert(array_view(values@) =~= Seq::<crate::v1::types::ValueView>::empty());
        }
        while i < items.len()
            invariant
                i <= items.len(),
                values.len() == i,
                extends(*old(self), *self),
                binds_beside(*old(self), *self, scope),
                depth > 0,
                sem_items_from(old(self).essence(), scope, items@, 0, Seq::empty(), depth as nat)
                    is Settled ==> sem_items_from(
                    old(self).essence(),
                    scope,
                    items@,
                    0,
                    Seq::empty(),
                    depth as nat,
                ) == sem_items_from(
                    self.essence(),
                    scope,
                    items@,
                    i as int,
                    array_view(values@),
                    depth as nat,
                ),
            decreases items.len() - i,
        {
            let v = self.eval_expr(host, scope, &items[i], depth - 1)?;
            let ghost before = values@;
            let item = kept(v);
            values.push(item);
            proof {
                lemma_array_view(before);
                lemma_array_view(values@);
                assert(array_view(values@) =~= array_view(before).push(item@));
            }
            i += 1;
        }
        Ok(values)
    }

    /// Evaluates the arguments of a call from left to right.
    #[verifier::spinoff_prover]
    #[verifier::loop_isolation(false)]
    fn eval_args<H: Host>(&mut self, host: &mut H, scope: usize, args: &Vec<Expr>, depth: usize) -> (r:
        Result<Vec<Value>, PipelineError>)
        ensures
            extends(*old(self), *final(self)),
            binds_beside(*old(self), *final(self), scope),
            r matches Ok(values) ==> values.len() == args.len(),
            sem_args(old(self).essence(), scope, args@, depth as nat) matches Outcome::Settled(o, c)
                ==> agrees_list(r, o) && final(self).essence() == c,
        decreases depth, 1nat,
    {
        proof {
            reveal(sem_args);
            reveal(sem_args_from);
        }
        if depth == 0 {
            return Err(PipelineError::BudgetExhausted);
        }
        let mut values: Vec<Value> = Vec::new();
        let mut i: usize = 0;
        proof {
            assert(array_view(values@) =~= Seq::<crate::v1::types::ValueView>::empty());
        }
        while i < args.len()
            invariant
                i <= args.len(),
                values.len() == i,
                extends(*old(self), *self),
                binds_beside(*old(self), *self, scope),
                depth > 0,
                sem_args_from(old(self).essence(), scope, args@, 0, Seq::empty(), depth as nat)
                    is Settled ==> sem_args_from(
                    old(self).essence(),
                    scope,
                    args@,
                    0,
                    Seq::empty(),
                    depth as nat,
                ) == sem_args_from(
                    self.essence(),
                    scope,
                    args@,
                    i as int,
                    array_view(values@),
                    depth as nat,
                ),
            decreases args.len() - i,
        {
            let v = self.eval_arg(host, scope, &args[i], depth)?;
            let ghost before = values@;
            values.push(v);
            proof {
                lemma_array_view(before);
                lemma_array_view(values@);
                assert(array_view(values@) =~= array_view(before).push(v@));
            }
            i += 1;
        }
        Ok(values)
    }

    /// Evaluates one argument of a call. An argument that is a function
    /// which is not deferred is called, and what it returns is the
    /// argument; a deferred one is handed on as it is.
    #[verifier::spinoff_prover]
    fn eval_arg<H: Host>(&mut self, host: &mut H, scope: usize, arg: &Expr, depth: usize) -> (r: Result<
        Value,
        PipelineError,
    >)
        requires
            depth > 0,
        ensures
            extends(*old(self), *final(self)),
            binds_beside(*old(self), *final(self), scope),
            sem_arg(old(self).essence(), scope, *arg, depth as nat) matches Outcome::Settled(o, c)
                ==> agrees(r, o) && final(self).essence() == c,
        decreases depth, 0nat,
    {
        proof {
            reveal(sem_arg);
        }
        let v = self.eval_expr(host, scope, arg, depth - 1)?;
        let eager: Option<Box<FnPtr>> = match self.heap.resolve(&v) {
            Some(Dynamic::FnPtr(p)) => if p.is_defer() {
                None
            } else {
                Some(Box::new(p.duplicate()))
            },
            _ => None,
        };
        match eager {
            Some(p) => {
                let empty: Vec<(String, Value)> = Vec::new();
                proof {
                    assert(props_view(empty@) =~= Seq::<
                        (Seq<char>, crate::v1::types::ValueView),
                    >::empty());
                }
                self.call_pointer(host, scope, &p, empty, depth - 1)
            },
            None => Ok(v),
        }
    }

    /// The tasks that wait in the join-set of the innermost pipeline that
    /// is running; none outside a pipeline.
    pub open spec fn waiting_tasks(&self) -> Seq<WorkerView> {
        if self.join_sets@.len() > 0 {
            workers_view(self.join_sets@.last()@)
        } else {
            Seq::empty()
        }
    }

    /// The output of commands that waits in the join-set of the innermost
    /// task that is running; none outside a task.
    pub open spec fn waiting_output(&self) -> Seq<PumpView> {
        if self.op_join_sets@.len() > 0 {
            pumps_view(self.op_join_sets@.last()@)
        } else {
            Seq::empty()
        }
    }

    /// Whether `after` is `before` with one call of the function value
    /// `ptr` in the scope `scope` made and ended, whose result is `r`: the
    /// journal has one entry more, the entry of that call, which tells the
    /// kind of the error of `r` and keeps the log, what was written and the
    /// output that waited when the call ended. What ended inside the call
    /// stands inside the entry, so that no other call and no pipeline has
    /// ended beside it.
    pub open spec fn called(
        before: Interpreter,
        after: Interpreter,
        scope: usize,
        ptr: FnPtrView,
        r: Result<Value, PipelineError>,
    ) -> bool {
        &&& after.journal@.len() == before.journal@.len() + 1
        &&& after.journal@.drop_last() == before.journal@
        &&& after.journal@.last() matches Node::Call { ptr: p, scope: s, fault, log, written, waiting, tasks, .. }
            && p == ptr && s == scope && fault == fault_in(r) && log == after.logger.log() && written
            == after.transcript@ && waiting == after.waiting_output() && tasks == after.waiting_tasks()
    }

    /// Calls a function value, once: the block that it holds, in a new
    /// scope inside the scope that the block was written in, with the given
    /// names bound; or, where it holds no block, the function of its name.
    /// The call is entered in the journal when it has ended, with what
    /// ended inside it.
    pub fn call_pointer<H: Host>(
        &mut self,
        host: &mut H,
        scope: usize,
        ptr: &FnPtr,
        bindings: Vec<(String, Value)>,
        depth: usize,
    ) -> (r: Result<Value, PipelineError>)
        ensures
            extends(*old(self), *final(self)),
            binds_beside(*old(self), *final(self), scope),
            sem_pointer(old(self).essence(), scope, ptr@, props_view(bindings@), depth as nat) matches Outcome::Settled(
                o,
                c,
            ) ==> agrees(r, o) && final(self).essence() == c,
            Self::called(*old(self), *final(self), scope, ptr@, r),
            ptr@.fn_def is Some ==> binds_below(*old(self), *final(self)),
        decreases depth, 1nat,
    {
        let ghost saved = self.journal@;
        self.journal = Ghost(Seq::empty());
        let r = self.call_once(host, scope, ptr, bindings, depth);
        self.journal = Ghost(
            saved.push(
                Node::Call {
                    ptr: ptr@,
                    scope,
                    fault: fault_in(r),
                    inside: self.journal@,
                    log: self.logger.log(),
                    written: self.transcript@,
                    waiting: self.waiting_output(),
                    tasks: self.waiting_tasks(),
                },
            ),
        );
        proof {
            assert(self.journal@.drop_last() =~= saved);
        }
        r
    }

    /// What a call of a function value does: the block that it holds, in a new scope
    /// inside the scope that the block was written in, with the given names
    /// bound; or, where it holds no block, the function of its name.
    #[verifier::spinoff_prover]
    #[verifier::loop_isolation(false)]
    fn call_once<H: Host>(
        &mut self,
        host: &mut H,
        scope: usize,
        ptr: &FnPtr,
        bindings: Vec<(String, Value)>,
        depth: usize,
    ) -> (r: Result<Value, PipelineError>)
        ensures
            extends(*old(self), *final(self)),
            binds_beside(*old(self), *final(self), scope),
            sem_pointer(old(self).essence(), scope, ptr@, props_view(bindings@), depth as nat) matches Outcome::Settled(
                o,
                c,
            ) ==> agrees(r, o) && final(self).essence() == c,
            ptr@.fn_def is Some ==> binds_below(*old(self), *final(self)),
        decreases depth, 0nat,
    {
        proof {
            reveal(sem_pointer);
        }
        if depth == 0 {
            return Err(PipelineError::BudgetExhausted);
        }
        match &ptr.fn_def {
            Some(def) => {
                let outer = match ptr.scope {
                    Some(s) => s,
                    None => scope,
                };
                let inner = self.scopes.enter(outer);
                let ghost start = self.essence();
                let ghost all = props_view(bindings@);
                let mut k: usize = 0;
                proof {
                    lemma_props_view(bindings@);
                    assert(start == entered(old(self).essence(), outer));
                }
                while k < bindings.len()
                    invariant
                        k <= bindings.len(),
                        extends(*old(self), *self),
                        binds_beside(*old(self), *self, scope),
                        inner == old(self).scopes@.len(),
                        binds_below(*old(self), *self),
                        all == props_view(bindings@),
                        all.len() == bindings.len(),
                        bound_all(start, inner, all, 0) == bound_all(self.essence(), inner, all, k as int),
                    decreases bindings.len() - k,
                {
                    proof {
                        lemma_props_view(bindings@);
                    }
                    let ghost before = self.essence();
                    self.scopes.declare(inner, bindings[k].0.as_str(), bindings[k].1.duplicate());
                    proof {
                        assert(self.essence() == crate::v1::semantics::bound(
                            before,
                            inner,
                            all[k as int].0,
                            all[k as int].1,
                        ));
                    }
                    k += 1;
                }
                let flow = self.eval_block(host, inner, &def.body, depth - 1)?;
                Ok(Self::result_of(flow))
            },
            None => {
                let (function, _) = self.resolve(ptr.name.as_str(), None)?;
                let none: Vec<Value> = Vec::new();
                proof {
                    assert(array_view(none@) =~= Seq::<crate::v1::types::ValueView>::empty());
                }
                self.apply(host, scope, &function, false, none, depth - 1)
            },
        }
    }

    /// What a call gives for the way its body ended.
    pub fn result_of(flow: Flow) -> (v: Value)
        ensures
            v == (match flow {
                Flow::Return(x) => x,
                Flow::Normal(x) => x,
                _ => Value::Immutable(Dynamic::Unit),
            }),
            v@ == crate::v1::semantics::result_view(flow@),
    {
        match flow {
            Flow::Return(x) => x,
            Flow::Normal(x) => x,
            _ => unit(),
        }
    }

    /// Evaluates a call: the arguments from left to right, then the
    /// function that the name resolves to (see [`resolution`]).
    #[verifier::spinoff_prover]
    #[verifier::loop_isolation(false)]
    pub fn eval_fn_call_expr_with_context<H: Host>(
        &mut self,
        host: &mut H,
        scope: usize,
        f: &FnCallExpr,
        depth: usize,
    ) -> (r: Result<Value, PipelineError>)
        ensures
            extends(*old(self), *final(self)),
            binds_beside(*old(self), *final(self), scope),
            sem_call(old(self).essence(), scope, *f, depth as nat) matches Outcome::Settled(o, c)
                ==> agrees(r, o) && final(self).essence() == c,
            names_missing(old(self).essence(), scope, *f, depth as nat, r),
            depth > 0 ==> exists|found: Result<Vec<Value>, PipelineError>, mid: Interpreter|
                unresolved(*old(self), scope, *f, depth as nat, found, mid, r, *final(self)),
        decreases depth,
    {
        proof {
            reveal(sem_call);
        }
        if depth == 0 {
            return Err(PipelineError::BudgetExhausted);
        }
        let found = self.eval_args(host, scope, &f.args, depth - 1);
        let ghost seen = found;
        let args = match found {
            Ok(args) => args,
            Err(e) => {
                proof {
                    assert(unresolved(*old(self), scope, *f, depth as nat, seen, *self, Err::<Value, PipelineError>(e), *self));
                }
                return Err(e);
            },
        };
        proof {
            lemma_array_view(args@);
        }
        let first = if args.len() > 0 {
            Some(&args[0])
        } else {
            None
        };
        let ghost mid = *self;
        let resolved_to = self.resolve(f.name.as_str(), first);
        let (function, is_method) = match resolved_to {
            Ok(pair) => pair,
            Err(e) => {
                proof {
                    assert(unresolved(*old(self), scope, *f, depth as nat, seen, mid, Err::<Value, PipelineError>(e), *self));
                }
                return Err(e);
            },
        };
        let r = self.apply(host, scope, &function, is_method, args, depth - 1);
        proof {
            assert(unresolved(*old(self), scope, *f, depth as nat, seen, mid, r, *self));
        }
        r
    }

    /// Calls a function with arguments. A function of the script runs in a
    /// new scope inside the scope of the call, with its parameters bound to
    /// the arguments in order (a parameter without an argument is bound to
    /// the unit); a method has `this` bound to the first argument and its
    /// parameters to the others. The call gives what `return` hands out,
    /// and the unit where the body ends without `return`.
    #[verifier::spinoff_prover]
    #[verifier::loop_isolation(false)]
    pub fn apply<H: Host>(
        &mut self,
        host: &mut H,
        scope: usize,
        function: &Function,
        is_method: bool,
        args: Vec<Value>,
        depth: usize,
    ) -> (r: Result<Value, PipelineError>)
        ensures
            extends(*old(self), *final(self)),
            binds_beside(*old(self), *final(self), scope),
            sem_apply(
                old(self).essence(),
                scope,
                *function,
                is_method,
                array_view(args@),
                depth as nat,
            ) matches Outcome::Settled(o, c) ==> agrees(r, o) && final(self).essence() == c,
            function matches Function::Native(b) ==> (depth > 1 ==> Self::hosted(
                *old(self),
                scope,
                *b,
                array_view(args@),
                (depth - 1) as nat,
                r,
                *final(self),
            )),
            !(function is Native) ==> binds_below(*old(self), *final(self)),
        decreases depth,
    {
        proof {
            reveal(sem_apply);
        }
        if depth == 0 {
            return Err(PipelineError::BudgetExhausted);
        }
        match function {
            Function::Native(b) => self.call_builtin(host, scope, *b, args, depth - 1),
            Function::Script(def) | Function::Method(def) => {
                let inner = self.scopes.enter(scope);
                proof {
                    lemma_array_view(args@);
                }
                let with_this = is_method && args.len() > 0;
                if with_this {
                    self.scopes.declare(inner, "this", args[0].duplicate());
                }
                let skip: usize = if with_this {
                    1
                } else {
                    0
                };
                let ghost start = self.essence();
                let ghost given = array_view(args@);
                let mut i: usize = 0;
                while i < def.args.len()
                    invariant
                        i <= def.args.len(),
                        extends(*old(self), *self),
                        binds_beside(*old(self), *self, scope),
                        inner == old(self).scopes@.len(),
                        binds_below(*old(self), *self),
                        skip <= args.len(),
                        given == array_view(args@),
                        bound_params(start, inner, def.args@, given, skip as int, 0) == bound_params(
                            self.essence(),
                            inner,
                            def.args@,
                            given,
                            skip as int,
                            i as int,
                        ),
                    decreases def.args.len() - i,
                {
                    proof {
                        lemma_array_view(args@);
                    }
                    let ghost before = self.essence();
                    let value = if i < args.len() - skip {
                        args[i + skip].duplicate()
                    } else {
                        unit()
                    };
                    self.scopes.declare(inner, def.args[i].name.as_str(), value);
                    proof {
                        assert(self.essence() == crate::v1::semantics::bound(
                            before,
                            inner,
                            def.args@[i as int].name@,
                            value@,
                        ));
                    }
                    i += 1;
                }
                let flow = self.eval_block(host, inner, &def.body, depth - 1)?;
                Ok(
                    match flow {
                        Flow::Return(v) => v,
                        _ => unit(),
                    },
                )
            },
        }
    }

    /// Evaluates statements in order, up to the first that does not end
    /// normally. Gives how that one ended or, where all ended normally, the
    /// value of the last (the unit for no statement).
    #[verifier::spinoff_prover]
    #[verifier::loop_isolation(false)]
    pub fn eval_block<H: Host>(&mut self, host: &mut H, scope: usize, stmts: &Vec<Stmt>, depth: usize) -> (r:
        Result<Flow, PipelineError>)
        ensures
            extends(*old(self), *final(self)),
            binds_beside(*old(self), *final(self), scope),
            sem_block(old(self).essence(), scope, stmts@, depth as nat) matches Outcome::Settled(o, c)
                ==> agrees_flow(r, o) && final(self).essence() == c,
            depth > 0 && stmts.len() == 0 ==> r == Ok::<Flow, PipelineError>(
                Flow::Normal(Value::Immutable(Dynamic::Unit)),
            ) && *final(self) == *old(self),
        decreases depth,
    {
        proof {
            reveal(sem_block);
            reveal(sem_block_from);
        }
        if depth == 0 {
            return Err(PipelineError::BudgetExhausted);
        }
        let mut last = unit();
        let mut i: usize = 0;
        while i < stmts.len()
            invariant
                i <= stmts.len(),
                extends(*old(self), *self),
                binds_beside(*old(self), *self, scope),
                depth > 0,
                i == 0 ==> *self == *old(self) && last == Value::Immutable(Dynamic::Unit),
                sem_block_from(old(self).essence(), scope, stmts@, 0, unit_view(), depth as nat)
                    is Settled ==> sem_block_from(
                    old(self).essence(),
                    scope,
                    stmts@,
                    0,
                    unit_view(),
                    depth as nat,
                ) == sem_block_from(self.essence(), scope, stmts@, i as int, last@, depth as nat),
            decreases stmts.len() - i,
        {
            let flow = self.eval_stmt_with_context(host, scope, &stmts[i], depth - 1)?;
            match flow {
                Flow::Normal(v) => {
                    last = v;
                },
                other => {
                    return Ok(other);
                },
            }
            i += 1;
        }
        Ok(Flow::Normal(last))
    }

    /// Evaluates a statement in the scope of the program.
    pub fn eval_stmt<H: Host>(&mut self, host: &mut H, stmt: &Stmt, depth: usize) -> (r: Result<
        Flow,
        PipelineError,
    >)
        ensures
            extends(*old(self), *final(self)),
            binds_beside(*old(self), *final(self), 0),
            sem_stmt(old(self).essence(), 0, *stmt, depth as nat) matches Outcome::Settled(o, c)
                ==> agrees_flow(r, o) && final(self).essence() == c,
    {
        self.eval_stmt_with_context(host, 0, stmt, depth)
    }

    /// Binds `name` in `scope` to what `value` stands for. An array, a map
    /// or an instance that lives in a cell is bound by a strong handle to
    /// that cell, so that the name and the value it came from are one; any
    /// other value is copied into a new cell.
    pub fn bind(&mut self, scope: usize, name: &str, value: Value) -> (r: Result<(), PipelineError>)
        ensures
            extends(*old(self), *final(self)),
            binds_beside(*old(self), *final(self), scope),
            r is Ok ==> (scope < old(self).scopes@.len() && (crate::context::visible(
                final(self).scopes@,
                scope as int,
                name@,
            ) matches Some(crate::v1::types::ValueView::Mutable(h)) && live(
                final(self).heap@,
                h as int,
            ) && Some(
                final(self).heap@[h as int]->0,
            ) == crate::v1::types::content(old(self).heap@, value@))),
            r matches Err(e) ==> e is VariableUndefined,
            sem_bind(old(self).essence(), scope, name@, value@) matches Outcome::Settled(o, c)
                && agrees_plain(r, o) && final(self).essence() == c,
    {
        let shared = match self.heap.resolve(&value) {
            Some(Dynamic::Array(_)) | Some(Dynamic::Mapping(_)) | Some(Dynamic::Struct(_)) => true,
            Some(_) => false,
            None => {
                return dropped();
            },
        };
        let handle = match value {
            Value::Mutable(h) if shared => h,
            Value::Refer(h) if shared => h,
            other => {
                let d = self.snapshot(&other)?;
                self.heap.allocate(d)
            },
        };
        if self.scopes.declare(scope, name, Value::Mutable(handle)) {
            Ok(())
        } else {
            dropped()
        }
    }

    /// `let name = value`: see [`Interpreter::bind`].
    #[verifier::spinoff_prover]
    #[verifier::loop_isolation(false)]
    pub fn eval_let_stmt<H: Host>(
        &mut self,
        host: &mut H,
        scope: usize,
        l: &(String, Expr),
        depth: usize,
    ) -> (r: Result<Value, PipelineError>)
        ensures
            extends(*old(self), *final(self)),
            binds_beside(*old(self), *final(self), scope),
            r matches Ok(v) ==> v == Value::Immutable(Dynamic::Unit),
            sem_let(old(self).essence(), scope, l.0@, l.1, depth as nat) matches Outcome::Settled(o, c)
                ==> (r is Ok == o is Ok) && (r matches Err(e) ==> o == Err::<(), Fault>(fault_of(e)))
                && final(self).essence() == c,
        decreases depth, 1nat,
    {
        proof {
            reveal(sem_let);
        }
        if depth == 0 {
            return Err(PipelineError::BudgetExhausted);
        }
        let value = self.eval_expr(host, scope, &l.1, depth - 1)?;
        self.bind(scope, l.0.as_str(), value)?;
        Ok(unit())
    }

    /// The truth value that a condition evaluates to; a condition that
    /// evaluates to anything else gives `ExpectedType` for `bool`.
    #[verifier::spinoff_prover]
    #[verifier::loop_isolation(false)]
    fn eval_condition<H: Host>(&mut self, host: &mut H, scope: usize, condition: &Expr, depth: usize) -> (r:
        Result<bool, PipelineError>)
        ensures
            extends(*old(self), *final(self)),
            binds_beside(*old(self), *final(self), scope),
            sem_condition(old(self).essence(), scope, *condition, depth as nat) matches Outcome::Settled(
                o,
                c,
            ) ==> agrees_plain(r, o) && final(self).essence() == c,
            no_truth(old(self).essence(), scope, *condition, depth as nat) ==> wants_bool(r),
            r is Ok ==> !no_truth(old(self).essence(), scope, *condition, depth as nat),
            condition_outcome(*old(self), scope, *condition, depth as nat, r, *final(self)),
        decreases depth, 2nat,
    {
        proof {
            reveal(sem_condition);
        }
        if depth == 0 {
            return Err(PipelineError::BudgetExhausted);
        }
        let found = self.eval_expr(host, scope, condition, depth - 1);
        let ghost seen = found;
        let v = match found {
            Ok(v) => v,
            Err(e) => {
                proof {
                    assert(decided(*old(self), scope, *condition, depth as nat, seen, Err::<bool, PipelineError>(e), *self));
                }
                return Err(e);
            },
        };
        let r = match v.as_bool(&self.heap) {
            Some(b) => Ok(b),
            None => expected("bool"),
        };
        proof {
            assert(decided(*old(self), scope, *condition, depth as nat, seen, r, *self));
        }
        r
    }

    /// Evaluates a statement in a scope.
    #[verifier::spinoff_prover]
    #[verifier::loop_isolation(false)]
    pub fn eval_stmt_with_context<H: Host>(&mut self, host: &mut H, scope: usize, stmt: &Stmt, depth: usize) -> (r:
        Result<Flow, PipelineError>)
        ensures
            extends(*old(self), *final(self)),
            binds_beside(*old(self), *final(self), scope),
            sem_stmt(old(self).essence(), scope, *stmt, depth as nat) matches Outcome::Settled(o, c)
                ==> agrees_flow(r, o) && final(self).essence() == c,
            depth > 0 ==> {
                &&& stmt is Break ==> r == Ok::<Flow, PipelineError>(Flow::Break) && *final(self)
                    == *old(self)
                &&& stmt is Continue ==> r == Ok::<Flow, PipelineError>(Flow::Continue) && *final(self) == *old(self)
                &&& stmt is Noop ==> r == Ok::<Flow, PipelineError>(
                    Flow::Normal(Value::Immutable(Dynamic::Unit)),
                ) && *final(self) == *old(self)
                &&& stmt matches Stmt::If(found, _) ==> (found.branches().len() > 0 && no_truth(
                    old(self).essence(),
                    scope,
                    found.branches()[0].condition(),
                    (depth - 1) as nat,
                ) ==> wants_bool(r))
                &&& stmt matches Stmt::While(condition, _, _) ==> (old(self).rounds > 0 && no_truth(
                    old(self).essence(),
                    scope,
                    **condition,
                    (depth - 1) as nat,
                ) ==> wants_bool(r))
                &&& stmt matches Stmt::While(condition, _, _) ==> (old(self).rounds > 0 && depth > 1
                    ==> exists|seen: Result<Value, PipelineError>, mid: Interpreter|
                    refusing(*old(self), scope, **condition, depth as nat, seen, mid, r, *final(self)))
                &&& stmt matches Stmt::If(found, _) ==> (found.branches().len() > 0 && depth > 1
                    ==> exists|seen: Result<Value, PipelineError>, mid: Interpreter|
                    refusing(
                        *old(self),
                        scope,
                        found.branches()[0].condition(),
                        depth as nat,
                        seen,
                        mid,
                        r,
                        *final(self),
                    ))
            },
        decreases depth, 2nat,
    {
        proof {
            reveal(sem_stmt);
        }
        if depth == 0 {
            return Err(PipelineError::BudgetExhausted);
        }
        match stmt {
            Stmt::Noop => Ok(Flow::Normal(unit())),
            Stmt::Break(_) => Ok(Flow::Break),
            Stmt::Continue(_) => Ok(Flow::Continue),
            Stmt::FnCall(call, pos) => {
                self.position = *pos;
                let v = self.eval_fn_call_expr_with_context(host, scope, call, depth - 1)?;
                Ok(Flow::Normal(v))
            },
            Stmt::Import(name, _) => {
                self.merge_into_main_module(name.as_str())?;
                Ok(Flow::Normal(unit()))
            },
            Stmt::Let(l, _) => {
                self.eval_let_stmt(host, scope, l, depth - 1)?;
                Ok(Flow::Normal(unit()))
            },
            Stmt::Assign(pair, _) => {
                let target = self.eval_expr(host, scope, &pair.0, depth - 1)?;
                let value = self.eval_expr(host, scope, &pair.1, depth - 1)?;
                let d = self.snapshot(&value)?;
                self.heap.assign(&target, d)?;
                Ok(Flow::Normal(unit()))
            },
            Stmt::IndexAssign(base, index, value, _) => {
                let i = self.eval_expr(host, scope, index, depth - 1)?;
                let v = self.eval_expr(host, scope, value, depth - 1)?;
                let target = self.eval_expr(host, scope, base, depth - 1)?;
                let i = self.snapshot(&i)?;
                self.heap.assign_element(&target, i, kept(v))?;
                Ok(Flow::Normal(unit()))
            },
            Stmt::Return(e, _) => {
                let v = self.eval_expr(host, scope, e, depth - 1)?;
                Ok(Flow::Return(v))
            },
            Stmt::If(branches, _) => {
                let (r, seen) = self.eval_if(host, scope, branches, depth);
                proof {
                    if branches.branches().len() > 0 && depth > 1 {
                        assert(refusing(
                            *old(self),
                            scope,
                            branches.branches()[0].condition(),
                            depth as nat,
                            seen@.0,
                            seen@.1,
                            r,
                            *self,
                        ));
                    }
                }
                r
            },
            Stmt::While(condition, body, _) => {
                let (r, seen) = self.eval_while(host, scope, condition, body, depth);
                proof {
                    if old(self).rounds > 0 && depth > 1 {
                        assert(refusing(*old(self), scope, **condition, depth as nat, seen@.0, seen@.1, r, *self));
                    }
                }
                r
            },
            Stmt::ForIn(one, other, items, body, _) => self.eval_for(
                host,
                scope,
                one,
                other,
                items,
                body,
                depth,
            ),
        }
    }

    /// `if`: the body of the first branch whose condition holds, else the
    /// body behind `else`, else nothing.
    #[verifier::spinoff_prover]
    #[verifier::loop_isolation(false)]
    fn eval_if<H: Host>(
        &mut self,
        host: &mut H,
        scope: usize,
        branches: &crate::v1::stmt::IfStmt,
        depth: usize,
    ) -> (out: (Result<Flow, PipelineError>, Ghost<(Result<Value, PipelineError>, Interpreter)>))
        requires
            depth > 0,
        ensures
            extends(*old(self), *final(self)),
            binds_beside(*old(self), *final(self), scope),
            sem_if(
                old(self).essence(),
                scope,
                branches.branches(),
                0,
                branches.else_body(),
                depth as nat,
            ) matches Outcome::Settled(o, c) ==> agrees_flow(out.0, o) && final(self).essence() == c,
            branches.branches().len() > 0 && no_truth(
                old(self).essence(),
                scope,
                branches.branches()[0].condition(),
                (depth - 1) as nat,
            ) ==> wants_bool(out.0),
            branches.branches().len() > 0 && depth > 1 ==> refusing(
                *old(self),
                scope,
                branches.branches()[0].condition(),
                depth as nat,
                out.1@.0,
                out.1@.1,
                out.0,
                *final(self),
            ),
        decreases depth, 1nat,
    {
        proof {
            reveal(sem_if);
        }
        let all = branches.get_branches();
        let ghost otherwise = branches.else_body();
        let ghost mut seen: (Result<Value, PipelineError>, Interpreter) = (
            Err(PipelineError::BudgetExhausted),
            *self,
        );
        let mut i: usize = 0;
        while i < all.len()
            invariant
                i <= all.len(),
                extends(*old(self), *self),
                binds_beside(*old(self), *self, scope),
                depth > 0,
                sem_if(old(self).essence(), scope, all@, 0, otherwise, depth as nat)
                    is Settled ==> sem_if(
                    old(self).essence(),
                    scope,
                    all@,
                    0,
                    otherwise,
                    depth as nat,
                ) == sem_if(self.essence(), scope, all@, i as int, otherwise, depth as nat),
                all@ == branches.branches(),
                i == 0 ==> *self == *old(self),
                i > 0 ==> !no_truth(old(self).essence(), scope, all@[0].condition(), (depth - 1) as nat),
                i > 0 && depth > 1 ==> evaluated(
                    *old(self),
                    scope,
                    all@[0].condition(),
                    (depth - 2) as nat,
                    seen.0,
                    seen.1,
                ) && (seen.0 matches Ok(v) && crate::v1::types::content(seen.1.heap@, v@) is Some
                    && crate::v1::types::content(seen.1.heap@, v@)->0 is Boolean),
            decreases all.len() - i,
        {
            let ghost at = *self;
            let decision = self.eval_condition(host, scope, all[i].get_condition(), depth - 1);
            proof {
                if i == 0 && depth > 1 {
                    let below: nat = (depth - 1) as nat;
                    let found = choose|found: Result<Value, PipelineError>|
                        decided(at, scope, all@[0].condition(), below, found, decision, *self);
                    seen = (found, *self);
                }
            }
            let holds = match decision {
                Ok(holds) => holds,
                Err(e) => {
                    return (Err(e), Ghost(seen));
                },
            };
            if holds {
                let flow = self.eval_block(host, scope, all[i].get_body(), depth - 1);
                return (flow, Ghost(seen));
            }
            i += 1;
        }
        match branches.get_else_body() {
            Some(body) => {
                let flow = self.eval_block(host, scope, body, depth - 1);
                (flow, Ghost(seen))
            },
            None => (Ok(Flow::Normal(unit())), Ghost(seen)),
        }
    }

    /// `while`: rounds of the body as long as the condition holds, up to
    /// the number of rounds that a loop may run.
    #[verifier::spinoff_prover]
    #[verifier::loop_isolation(false)]
    fn eval_while<H: Host>(
        &mut self,
        host: &mut H,
        scope: usize,
        condition: &Box<Expr>,
        body: &Box<Vec<Stmt>>,
        depth: usize,
    ) -> (out: (Result<Flow, PipelineError>, Ghost<(Result<Value, PipelineError>, Interpreter)>))
        requires
            depth > 0,
        ensures
            extends(*old(self), *final(self)),
            binds_beside(*old(self), *final(self), scope),
            sem_while(
                old(self).essence(),
                scope,
                **condition,
                body@,
                old(self).rounds as nat,
                depth as nat,
            ) matches Outcome::Settled(o, c) ==> agrees_flow(out.0, o) && final(self).essence() == c,
            old(self).rounds > 0 && no_truth(old(self).essence(), scope, **condition, (depth - 1) as nat)
                ==> wants_bool(out.0),
            old(self).rounds > 0 && depth > 1 ==> refusing(
                *old(self),
                scope,
                **condition,
                depth as nat,
                out.1@.0,
                out.1@.1,
                out.0,
                *final(self),
            ),
        decreases depth, 1nat,
    {
        proof {
            reveal(sem_while);
        }
        let mut left = self.rounds;
        let ghost mut first = true;
        let ghost mut seen: (Result<Value, PipelineError>, Interpreter) = (
            Err(PipelineError::BudgetExhausted),
            *self,
        );
        loop
            invariant
                extends(*old(self), *self),
                binds_beside(*old(self), *self, scope),
                depth > 0,
                first ==> *self == *old(self) && left == old(self).rounds,
                !first ==> !no_truth(old(self).essence(), scope, **condition, (depth - 1) as nat),
                !first && depth > 1 ==> old(self).rounds > 0 && evaluated(
                    *old(self),
                    scope,
                    **condition,
                    (depth - 2) as nat,
                    seen.0,
                    seen.1,
                ) && (seen.0 matches Ok(v) && crate::v1::types::content(seen.1.heap@, v@) is Some
                    && crate::v1::types::content(seen.1.heap@, v@)->0 is Boolean),
                sem_while(
                    old(self).essence(),
                    scope,
                    **condition,
                    body@,
                    old(self).rounds as nat,
                    depth as nat,
                ) is Settled ==> sem_while(
                    old(self).essence(),
                    scope,
                    **condition,
                    body@,
                    old(self).rounds as nat,
                    depth as nat,
                ) == sem_while(
                    self.essence(),
                    scope,
                    **condition,
                    body@,
                    left as nat,
                    depth as nat,
                ),
            decreases left,
        {
            if left == 0 {
                return (Err(PipelineError::BudgetExhausted), Ghost(seen));
            }
            left -= 1;
            let ghost at = *self;
            let decision = self.eval_condition(host, scope, condition, depth - 1);
            proof {
                if first && depth > 1 {
                    let below: nat = (depth - 1) as nat;
                    let found = choose|found: Result<Value, PipelineError>|
                        decided(at, scope, **condition, below, found, decision, *self);
                    seen = (found, *self);
                }
            }
            let holds = match decision {
                Ok(holds) => holds,
                Err(e) => {
                    return (Err(e), Ghost(seen));
                },
            };
            proof {
                first = false;
            }
            if !holds {
                return (Ok(Flow::Normal(unit())), Ghost(seen));
            }
            let flow = match self.eval_block(host, scope, body, depth - 1) {
                Ok(flow) => flow,
                Err(e) => {
                    return (Err(e), Ghost(seen));
                },
            };
            match flow {
                Flow::Break => {
                    return (Ok(Flow::Normal(unit())), Ghost(seen));
                },
                Flow::Return(v) => {
                    return (Ok(Flow::Return(v)), Ghost(seen));
                },
                _ => {},
            }
        }
    }

    /// `for`: one round of the body for every item of the array.
    #[verifier::spinoff_prover]
    #[verifier::loop_isolation(false)]
    fn eval_for<H: Host>(
        &mut self,
        host: &mut H,
        scope: usize,
        one: &String,
        other: &Option<String>,
        items: &Box<Expr>,
        body: &Box<Vec<Stmt>>,
        depth: usize,
    ) -> (r: Result<Flow, PipelineError>)
        requires
            depth > 0,
        ensures
            extends(*old(self), *final(self)),
            binds_beside(*old(self), *final(self), scope),
            (match sem_expr(old(self).essence(), scope, **items, (depth - 1) as nat) {
                Outcome::Settled(Ok(iv), c1) => match crate::v1::types::content(c1.heap, iv) {
                    Some(DynamicView::Array(list)) => sem_for(
                        c1,
                        scope,
                        one@,
                        *other,
                        list,
                        0,
                        body@,
                        depth as nat,
                    ),
                    Some(_) => crate::v1::semantics::failed(Fault::ExpectedType, c1),
                    None => crate::v1::semantics::failed(Fault::VariableUndefined, c1),
                },
                Outcome::Settled(Err(f), c1) => crate::v1::semantics::failed(f, c1),
                Outcome::Unsettled => Outcome::Unsettled,
            }) matches Outcome::Settled(o, c) ==> agrees_flow(r, o) && final(self).essence() == c,
        decreases depth, 1nat,
    {
        proof {
            reveal(sem_for);
        }
        let iv = self.eval_expr(host, scope, items, depth - 1)?;
        let ghost start = *self;
        let list: Vec<Value> = match self.snapshot(&iv)? {
            Dynamic::Array(list) => list,
            _ => {
                return expected("Array");
            },
        };
        let mut i: usize = 0;
        while i < list.len()
            invariant
                i <= list.len(),
                extends(*old(self), *self),
                binds_beside(*old(self), *self, scope),
                depth > 0,
                sem_for(
                    start.essence(),
                    scope,
                    one@,
                    *other,
                    array_view(list@),
                    0,
                    body@,
                    depth as nat,
                ) is Settled ==> sem_for(
                    start.essence(),
                    scope,
                    one@,
                    *other,
                    array_view(list@),
                    0,
                    body@,
                    depth as nat,
                ) == sem_for(
                    self.essence(),
                    scope,
                    one@,
                    *other,
                    array_view(list@),
                    i as int,
                    body@,
                    depth as nat,
                ),
            decreases list.len() - i,
        {
            proof {
                lemma_array_view(list@);
            }
            match other {
                Some(second) => {
                    self.scopes.declare(
                        scope,
                        one.as_str(),
                        Value::Immutable(Dynamic::Integer(Self::count(i))),
                    );
                    self.scopes.declare(scope, second.as_str(), list[i].duplicate());
                },
                None => {
                    self.scopes.declare(scope, one.as_str(), list[i].duplicate());
                },
            }
            proof {
                assert(binds_beside(*old(self), *self, scope));
            }
            let flow = self.eval_block(host, scope, body, depth - 1)?;
            match flow {
                Flow::Break => {
                    return Ok(Flow::Normal(unit()));
                },
                Flow::Return(v) => {
                    return Ok(Flow::Return(v));
                },
                _ => {},
            }
            i += 1;
        }
        Ok(Flow::Normal(unit()))
    }

    /// A count as an integer of the script.
    fn count(i: usize) -> (n: i64)
        ensures
            n == crate::v1::semantics::counted(i as int),
    {
        if i as u64 <= i64::MAX as u64 {
            i as i64
        } else {
            i64::MAX
        }
    }

    /// Whether the result is the unit.
    pub open spec fn is_unit(r: Result<Value, PipelineError>) -> bool {
        r == Ok::<Value, PipelineError>(Value::Immutable(Dynamic::Unit))
    }

    /// Whether the call failed because an argument is not of the kind that
    /// the function takes, and changed nothing.
    pub open spec fn refused(before: Interpreter, r: Result<Value, PipelineError>, after: Interpreter) -> bool {
        &&& r matches Err(e) && e is ExpectedType
        &&& after == before
    }

    /// The integer that argument `i` is.
    pub open spec fn integer_at(&self, args: Seq<ValueView>, i: int) -> Option<i64> {
        if 0 <= i < args.len() {
            match crate::v1::types::content(self.heap@, args[i]) {
                Some(DynamicView::Integer(n)) => Some(n),
                _ => None,
            }
        } else {
            None
        }
    }

    /// The function value that argument `i` is.
    pub open spec fn pointer_at(&self, args: Seq<ValueView>, i: int) -> Option<FnPtrView> {
        if 0 <= i < args.len() {
            match crate::v1::types::content(self.heap@, args[i]) {
                Some(DynamicView::FnPtr(p)) => Some(p),
                _ => None,
            }
        } else {
            None
        }
    }

    /// The string that argument `i` is.
    pub open spec fn string_at(&self, args: Seq<ValueView>, i: int) -> Option<Seq<char>> {
        if 0 <= i < args.len() {
            match crate::v1::types::content(self.heap@, args[i]) {
                Some(DynamicView::Text(t)) => Some(t),
                _ => None,
            }
        } else {
            None
        }
    }

    /// What holds of a call of a function of the engine in which the host
    /// has a say, whatever the host answers. An argument that is not of the
    /// kind that the function takes gives `ExpectedType`, and nothing
    /// changes; a failure of the host is a `HostError`.
    ///
    /// - `env(key, value)` sets the variable in the environment of the
    ///   innermost task; outside a task it is a `SchedulerError`.
    /// - `cmd(command)` asks the host for the command and takes in what it
    ///   has written.
    /// - `workspace(path)` makes the path the workspace where the host
    ///   finds it.
    /// - `copy(from, to)` and `move(from, to)` ask the host for the
    ///   operation.
    /// - `replace` asks the host for the text of the file and, where it
    ///   gets one and the pattern is a regular expression, asks it to write
    ///   the text with every match replaced; `folder` asks the host to make
    ///   the directory. What was asked and answered is kept in `asked`.
    /// - `max` and `randomInt` leave the state as it was.
    /// - The functions that read write their prompt, and give a value of
    ///   their kind or the `HostError` that nothing was read.
    /// - `template` fails before it begins where the target or the name of
    ///   the template is no string.
    /// - `pipeline`, `step` and `parallel` do nothing and leave the whole
    ///   state as it was, the mode of the logger included, where the filter
    ///   holds the name back; where it lets the name pass, they do what
    ///   [`Interpreter::ran_pipeline`], [`Interpreter::ran_task`] and
    ///   [`Interpreter::parallel`] say.
    pub open spec fn hosted(
        before: Interpreter,
        scope: usize,
        b: Builtin,
        args: Seq<ValueView>,
        depth: nat,
        r: Result<Value, PipelineError>,
        after: Interpreter,
    ) -> bool {
        match b {
            Builtin::Pipeline => match (before.string_at(args, 0), before.pointer_at(args, 1)) {
                (Some(name), Some(body)) => if !selected(before.filter("path_pipeline"@), name) {
                    Self::is_unit(r) && after == before
                } else if depth <= 1 {
                    r matches Err(PipelineError::BudgetExhausted) && after == before
                } else {
                    Self::ran_pipeline(before, after, scope, name, body, r)
                },
                _ => Self::refused(before, r, after),
            },
            Builtin::Step => match (before.string_at(args, 0), before.pointer_at(args, 1)) {
                (Some(name), Some(body)) => if !selected(before.filter("path_task"@), name) {
                    Self::is_unit(r) && after == before
                } else if depth <= 1 {
                    r matches Err(PipelineError::BudgetExhausted) && after == before
                } else {
                    Self::ran_task(before, after, scope, body, r) && (r is Ok ==> Self::is_unit(r))
                },
                _ => Self::refused(before, r, after),
            },
            Builtin::Parallel => match (before.string_at(args, 0), before.pointer_at(args, 1)) {
                (Some(name), Some(body)) => if !selected(before.filter("path_task"@), name) {
                    Self::is_unit(r) && after == before
                } else if before.join_sets@.len() == 0 {
                    (r matches Err(e) && e is SchedulerError) && after == before
                } else {
                    &&& Self::is_unit(r)
                    &&& after.logger.parallel()
                    &&& after.journal@ == before.journal@
                    &&& after.join_sets@.len() == before.join_sets@.len()
                    &&& after.join_sets@.drop_last() == before.join_sets@.drop_last()
                    &&& workers_view(after.join_sets@.last()@) == workers_view(
                        before.join_sets@.last()@,
                    ).push(WorkerView { name, body, scope })
                },
                _ => Self::refused(before, r, after),
            },
            Builtin::Env => match (before.string_at(args, 0), before.string_at(args, 1)) {
                (Some(key), Some(value)) => if before.env@.len() > 0 {
                    &&& Self::is_unit(r)
                    &&& Self::env_only(before, after)
                    &&& text_table(after.env@.last()@) == text_table(before.env@.last()@).insert(key, value)
                } else {
                    &&& r matches Err(e) && e is SchedulerError
                    &&& after == before
                },
                _ => Self::refused(before, r, after),
            },
            Builtin::Cmd => match before.string_at(args, 0) {
                Some(command) => {
                    &&& after.asked@ == before.asked@.push(Self::command_request(before, command))
                    &&& r is Ok ==> Self::is_unit(r) && exists|output: CommandOutput, mid: Interpreter|
                        Self::ran_command(before, mid, after, command, output)
                    &&& r matches Err(e) ==> e is HostError && Self::handed(
                        before,
                        after,
                        Self::command_request(before, command),
                    )
                },
                None => Self::refused(before, r, after),
            },
            Builtin::Workspace => match before.string_at(args, 0) {
                Some(path) => {
                    &&& after.asked@.len() == before.asked@.len() + 1
                    &&& after.asked@.drop_last() == before.asked@
                    &&& after.asked@.last() matches Request::Exists { path: p, found } && p == path && (r
                        is Ok <==> found)
                    &&& r is Ok ==> Self::is_unit(r) && Self::set_only(
                        Interpreter { asked: after.asked, ..before },
                        after,
                    ) && after.setting("workspace"@) == Some(path) && forall|k: Seq<char>|
                        k != "workspace"@ ==> after.setting(k) == before.setting(k)
                    &&& r matches Err(e) ==> Self::asked_only(before, after) && (e
                        matches PipelineError::HostError(text) && text@ == "the path does not exist: "@
                        + path)
                },
                None => Self::refused(before, r, after),
            },
            Builtin::CopyPath | Builtin::MovePath => match (
                before.string_at(args, 0),
                before.string_at(args, 1),
            ) {
                (Some(source), Some(target)) => {
                    &&& Self::handed(
                        before,
                        after,
                        Request::Execute {
                            operation: if b is CopyPath {
                                OperationTypeView::Copy(source, target)
                            } else {
                                OperationTypeView::Move(source, target)
                            },
                            workspace: before.workspace_text(),
                            env: before.environment(),
                        },
                    )
                    &&& r is Ok ==> Self::is_unit(r)
                    &&& r matches Err(e) ==> e is HostError
                },
                _ => Self::refused(before, r, after),
            },
            Builtin::Replace => match (
                before.string_at(args, 0),
                before.string_at(args, 1),
                before.string_at(args, 2),
            ) {
                (Some(path), Some(pattern), Some(replacement)) => {
                    let first = before.asked@.len() as int;
                    &&& Self::asked_only(before, after)
                    &&& after.asked@.len() > first
                    &&& after.asked@.take(first) == before.asked@
                    &&& r is Ok ==> Self::is_unit(r)
                    &&& r matches Err(e) ==> e is HostError
                    &&& after.asked@[first] matches Request::Read { workspace, path: p, found }
                        && workspace == before.workspace_text() && p == path && (match found {
                        None => after.asked@.len() == first + 1 && r is Err,
                        Some(text) => match crate::builtin::regex_replaced(pattern, text, replacement) {
                            None => after.asked@.len() == first + 1 && r is Err,
                            Some(changed) => after.asked@.len() == first + 2 && after.asked@[first + 1] == (
                                Request::Write { workspace, path, text: changed, done: r is Ok }
                            ),
                        },
                    })
                },
                _ => Self::refused(before, r, after),
            },
            Builtin::Folder => match before.string_at(args, 0) {
                Some(path) => {
                    &&& Self::handed(before, after, Request::Folder { path, done: r is Ok })
                    &&& r is Ok ==> Self::is_unit(r)
                    &&& r matches Err(e) ==> e is HostError
                },
                None => Self::refused(before, r, after),
            },
            Builtin::Max => {
                &&& after == before
                &&& r is Ok <==> args.len() > 0 && forall|i: int|
                    0 <= i < args.len() ==> is_number(before.heap@, #[trigger] args[i])
                &&& r matches Err(e) ==> e is ExpectedType
                &&& r is Ok ==> (r matches Ok(Value::Immutable(Dynamic::Float(b))) && exists|i: int|
                    0 <= i < args.len() && (crate::v1::types::content(before.heap@, #[trigger] args[i])
                        matches Some(DynamicView::Float(bits)) ==> b == bits))
            },
            Builtin::RandomInt => {
                &&& after == before
                &&& if (args.len() > 0 && before.integer_at(args, 0) is None) || (args.len() > 1
                    && before.integer_at(args, 1) is None) {
                    r matches Err(e) && e is ExpectedType
                } else {
                    match (before.integer_at(args, 0), before.integer_at(args, 1)) {
                        (Some(a), Some(b)) => if a <= b {
                            r matches Ok(Value::Immutable(Dynamic::Integer(v))) && a <= v <= b
                        } else {
                            r matches Err(e) && e is UndefinedOperation
                        },
                        (Some(a), None) => if 0 <= a {
                            r matches Ok(Value::Immutable(Dynamic::Integer(v))) && 0 <= v <= a
                        } else {
                            r matches Err(e) && e is UndefinedOperation
                        },
                        _ => r matches Ok(Value::Immutable(Dynamic::Integer(_))),
                    }
                }
            },
            Builtin::ReadLine | Builtin::ReadInt | Builtin::ReadFloat | Builtin::ReadString => if args.len()
                > 0 && before.string_at(args, 0) is None {
                Self::refused(before, r, after)
            } else {
                &&& Self::wrote_only(before, after)
                &&& after.transcript@ == (if args.len() > 0 {
                    before.transcript@.push(before.string_at(args, 0)->0)
                } else {
                    before.transcript@
                })
                &&& r matches Ok(v) ==> (match b {
                    Builtin::ReadLine => v matches Value::Immutable(Dynamic::String(_)),
                    Builtin::ReadInt => v matches Value::Immutable(Dynamic::Integer(_)),
                    Builtin::ReadFloat => v matches Value::Immutable(Dynamic::Float(_)),
                    _ => v matches Value::Immutable(Dynamic::String(_)),
                })
                &&& r matches Err(e) ==> !(b is ReadLine) && (e matches PipelineError::HostError(text)
                    && text@ == "no "@ + (match b {
                    Builtin::ReadInt => "integer"@,
                    Builtin::ReadFloat => "number"@,
                    _ => "word"@,
                }) + " was read"@)
            },
            Builtin::Template => before.string_at(args, 0) is None || before.string_at(args, 1) is None
                ==> Self::refused(before, r, after),
            _ => true,
        }
    }

    /// Calls a function of the engine in which the host has a say and which
    /// calls nothing of the script: see [`Interpreter::hosted`].
    #[verifier::spinoff_prover]
    fn call_hosted<H: Host>(&mut self, host: &mut H, builtin: Builtin, args: Vec<Value>) -> (r: Result<
        Value,
        PipelineError,
    >)
        requires
            builtin is Env || builtin is Cmd || builtin is Workspace || builtin is CopyPath || builtin
                is MovePath || builtin is Replace || builtin is Folder || builtin is Max || builtin
                is RandomInt || builtin is ReadLine || builtin is ReadInt || builtin is ReadFloat
                || builtin is ReadString,
        ensures
            extends(*old(self), *final(self)),
            binds_as_before(*old(self), *final(self)),
            Self::hosted(*old(self), 0, builtin, array_view(args@), 0, r, *final(self)),
    {
        proof {
            lemma_extends_itself(*old(self));
            lemma_array_view(args@);
        }
        match builtin {
            Builtin::ReadLine => {
                self.prompt(host, &args)?;
                Self::answered(Some(Dynamic::String(host.read_line())), "line")
            },
            Builtin::ReadInt => {
                self.prompt(host, &args)?;
                let found = match host.read_int() {
                    Some(i) => Some(Dynamic::Integer(i)),
                    None => None,
                };
                Self::answered(found, "integer")
            },
            Builtin::ReadFloat => {
                self.prompt(host, &args)?;
                let found = match host.read_float() {
                    Some(bits) => Some(Dynamic::Float(bits)),
                    None => None,
                };
                Self::answered(found, "number")
            },
            Builtin::ReadString => {
                self.prompt(host, &args)?;
                let found = match host.read_word() {
                    Some(word) => Some(Dynamic::String(word)),
                    None => None,
                };
                Self::answered(found, "word")
            },
            Builtin::Cmd => {
                let command = self.text_arg(&args, 0)?;
                self.cmd(host, command)?;
                Ok(unit())
            },
            Builtin::Env => {
                let key = self.text_arg(&args, 0)?;
                let value = self.text_arg(&args, 1)?;
                self.set_env(key, value)?;
                Ok(unit())
            },
            Builtin::Workspace => {
                let path = self.text_arg(&args, 0)?;
                let exists = self.ask_exists(host, path.as_str());
                let ghost asking = *self;
                let r = self.enter_workspace(path, exists);
                proof {
                    assert(self.asked@.drop_last() =~= old(self).asked@);
                    assert(asking.globals == old(self).globals);
                }
                r
            },
            Builtin::CopyPath | Builtin::MovePath => {
                let source = self.text_arg(&args, 0)?;
                let target = self.text_arg(&args, 1)?;
                let mut params: Vec<String> = Vec::new();
                params.push(source);
                params.push(target);
                let name = match builtin {
                    Builtin::CopyPath => "copy",
                    _ => "move",
                };
                proof {
                    reveal_strlit("copy");
                    reveal_strlit("move");
                    reveal_strlit("cmd");
                    reveal_strlit("workspace");
                    reveal_strlit("replace");
                    assert("copy"@[0] != "move"@[0]);
                    assert("copy"@.len() != "cmd"@.len());
                    assert("copy"@.len() != "workspace"@.len());
                    assert("move"@.len() != "cmd"@.len());
                    assert("move"@.len() != "workspace"@.len());
                }
                self.execute(host, &Operation::from_str(name, params))?;
                Ok(unit())
            },
            Builtin::Replace => {
                let path = self.text_arg(&args, 0)?;
                let pattern = self.text_arg(&args, 1)?;
                let replacement = self.text_arg(&args, 2)?;
                let workspace = self.workspace();
                let ghost first = self.asked@.len() as int;
                let read = self.ask_read(host, workspace.as_str(), path.as_str());
                proof {
                    assert(self.asked@.take(first) =~= old(self).asked@);
                }
                let text = read?;
                let replaced = regex_replace_all(pattern.as_str(), text.as_str(), replacement.as_str())?;
                let written = self.ask_write(host, workspace.as_str(), path.as_str(), replaced.as_str());
                proof {
                    assert(self.asked@.take(first) =~= old(self).asked@);
                }
                written?;
                Ok(unit())
            },
            Builtin::Folder => {
                let name = self.text_arg(&args, 0)?;
                self.ask_folder(host, name.as_str())?;
                Ok(unit())
            },
            Builtin::Max => {
                let found = self.max(host, &args);
                proof {
                    let views = array_view(args@);
                    assert forall|i: int| 0 <= i < args.len() implies is_number(
                        self.heap@,
                        #[trigger] views[i],
                    ) == is_number(self.heap@, args@[i]@) by {}
                    assert forall|i: int| 0 <= i < args.len() implies views[i] == (#[trigger] args@[i])@ by {}
                    if let Ok(b) = found {
                        let k = choose|k: int|
                            0 <= k < args.len() && (crate::v1::types::content(self.heap@, #[trigger] args@[k]@)
                                matches Some(DynamicView::Float(bits)) ==> b == bits);
                        assert(views[k] == args@[k]@);
                    }
                }
                let bits = found?;
                Ok(Value::Immutable(Dynamic::Float(bits)))
            },
            _ => {
                let low = if args.len() > 0 {
                    match args[0].as_integer(&self.heap) {
                        Some(i) => Some(i),
                        None => {
                            return expected("Integer");
                        },
                    }
                } else {
                    None
                };
                let high = if args.len() > 1 {
                    match args[1].as_integer(&self.heap) {
                        Some(i) => Some(i),
                        None => {
                            return expected("Integer");
                        },
                    }
                } else {
                    None
                };
                Ok(Value::Immutable(Dynamic::Integer(random_integer(low, high)?)))
            },
        }
    }

    /// Calls a function of the engine.
    #[verifier::spinoff_prover]
    #[verifier::loop_isolation(false)]
    pub fn call_builtin<H: Host>(
        &mut self,
        host: &mut H,
        scope: usize,
        builtin: Builtin,
        args: Vec<Value>,
        depth: usize,
    ) -> (r: Result<Value, PipelineError>)
        ensures
            extends(*old(self), *final(self)),
            binds_beside(*old(self), *final(self), scope),
            sem_builtin(old(self).essence(), scope, builtin, array_view(args@), depth as nat) matches Outcome::Settled(
                o,
                c,
            ) ==> agrees(r, o) && final(self).essence() == c,
            depth > 0 ==> Self::hosted(*old(self), scope, builtin, array_view(args@), depth as nat, r, *final(self)),
        decreases depth, 2nat,
    {
        proof {
            reveal(sem_builtin);
        }
        if depth == 0 {
            return Err(PipelineError::BudgetExhausted);
        }
        proof {
            lemma_array_view(args@);
        }
        match builtin {
            Builtin::Print => {
                proof {
                    reveal(crate::v1::semantics::sem_print);
                }
                self.print(host, &args, false)?;
                Ok(unit())
            },
            Builtin::Println => {
                proof {
                    reveal(crate::v1::semantics::sem_print);
                }
                self.print(host, &args, true)?;
                Ok(unit())
            },
            Builtin::CallClosure => self.call_closure(host, scope, args, depth),
            Builtin::Remove
            | Builtin::Append
            | Builtin::Len
            | Builtin::TypeOf
            | Builtin::CloneValue
            | Builtin::SetVariable => self.value_builtin(builtin, args),
            Builtin::ReadLine
            | Builtin::ReadInt
            | Builtin::ReadFloat
            | Builtin::ReadString
            | Builtin::Cmd
            | Builtin::Env
            | Builtin::Workspace
            | Builtin::CopyPath
            | Builtin::MovePath
            | Builtin::Replace
            | Builtin::Max
            | Builtin::RandomInt
            | Builtin::Folder => self.call_hosted(host, builtin, args),
            Builtin::Pipeline => {
                let name = self.text_arg(&args, 0)?;
                let body = self.function_arg(&args, 1)?;
                self.pipeline(host, scope, name.as_str(), &body, depth - 1)
            },
            Builtin::Step => {
                let name = self.text_arg(&args, 0)?;
                let body = self.function_arg(&args, 1)?;
                self.step(host, scope, name.as_str(), &body, depth - 1)
            },
            Builtin::Parallel => {
                let name = self.text_arg(&args, 0)?;
                let body = self.function_arg(&args, 1)?;
                proof {
                    reveal(sem_parallel);
                }
                let ghost label = name@;
                let ghost task = body@;
                let r = self.parallel(scope, name, *body);
                proof {
                    if r is Ok && selected(old(self).filter("path_task"@), label) {
                        let before = old(self).join_sets@.last()@;
                        assert(self.join_sets@.last()@.len() == before.len() + 1);
                        assert(workers_view(self.join_sets@.last()@) =~= workers_view(before).push(
                            WorkerView { name: label, body: task, scope },
                        ));
                        assert(self.join_sets@.drop_last().len() == old(self).join_sets@.drop_last().len());
                    }
                }
                r
            },
            Builtin::Layout => {
                let name = self.text_arg(&args, 0)?;
                let body = self.function_arg(&args, 1)?;
                let mut line = String::from_str("\x1b[32musing layout ");
                line.append(name.as_str());
                line.append("\n");
                self.emit(host, line.as_str());
                let h = self.heap.allocate(Dynamic::String(name));
                self.scopes.declare(scope, "layoutName", Value::Mutable(h));
                assert(extends(*old(self), *self));
                assert(binds_beside(*old(self), *self, scope));
                proof {
                    reveal(sem_pointer);
                    assert(array_view(Seq::<Value>::empty()) =~= Seq::<ValueView>::empty());
                }
                self.call_pointer(host, scope, &body, Vec::new(), depth - 1)?;
                self.emit(host, "╰─▶successfully finished.\x1b[0m\n");
                Ok(unit())
            },
            Builtin::Template => {
                let target = self.text_arg(&args, 0)?;
                let template = self.text_arg(&args, 1)?;
                let h = self.heap.allocate(Dynamic::Mapping(Vec::new()));
                self.scopes.declare(scope, "ctx", Value::Mutable(h));
                assert(extends(*old(self), *self));
                assert(binds_beside(*old(self), *self, scope));
                if args.len() > 2 {
                    let body = self.function_arg(&args, 2)?;
                    self.call_pointer(host, scope, &body, Vec::new(), depth - 1)?;
                }
                let values = self.template_values(&Value::Mutable(h))?;
                let layout = match self.scopes.lookup(scope, "layoutName") {
                    Some(v) => match v.as_string(&self.heap) {
                        Some(name) => name,
                        None => {
                            return expected("String");
                        },
                    },
                    None => {
                        return Err(PipelineError::VariableUndefined(String::from_str("layoutName")));
                    },
                };
                let content = self.ask_template(host, layout.as_str(), template.as_str())?;
                let text = render_template(content.as_str(), &values)?;
                self.ask_write(host, "", target.as_str(), text.as_str())?;
                Ok(unit())
            },
        }
    }

    /// `call(f, ..)`: calls the function value `f`, with `it` bound to the
    /// one further argument, or to an array of the further arguments where
    /// there are more.
    #[verifier::spinoff_prover]
    #[verifier::loop_isolation(false)]
    fn call_closure<H: Host>(&mut self, host: &mut H, scope: usize, args: Vec<Value>, depth: usize) -> (r:
        Result<Value, PipelineError>)
        ensures
            extends(*old(self), *final(self)),
            binds_beside(*old(self), *final(self), scope),
            sem_call_closure(old(self).essence(), scope, array_view(args@), depth as nat) matches Outcome::Settled(
                o,
                c,
            ) ==> agrees(r, o) && final(self).essence() == c,
        decreases depth, 1nat,
    {
        proof {
            reveal(sem_call_closure);
        }
        if depth == 0 {
            return Err(PipelineError::BudgetExhausted);
        }
        proof {
            lemma_array_view(args@);
        }
        let ptr = self.function_arg(&args, 0)?;
        let ghost all = array_view(args@);
        let mut rest: Vec<Value> = Vec::new();
        let mut i: usize = 1;
        proof {
            assert(array_view(rest@) =~= all.drop_first().take(0));
        }
        while i < args.len()
            invariant
                1 <= i <= args.len(),
                *self == *old(self),
                all == array_view(args@),
                array_view(rest@) == all.drop_first().take(i - 1),
            decreases args.len() - i,
        {
            let ghost before = rest@;
            let item = args[i].duplicate();
            rest.push(item);
            proof {
                lemma_array_view(before);
                lemma_array_view(rest@);
                lemma_array_view(args@);
                assert(array_view(rest@) =~= all.drop_first().take(i as int));
            }
            i += 1;
        }
        proof {
            assert(all.drop_first().take(args.len() - 1) =~= all.drop_first());
            lemma_array_view(rest@);
        }
        let mut bindings: Vec<(String, Value)> = Vec::new();
        if rest.len() == 1 {
            let only = rest.remove(0);
            bindings.push((String::from_str("it"), only));
            proof {
                lemma_props_view(bindings@);
                assert(props_view(bindings@) =~= seq![("it"@, all.drop_first()[0])]);
            }
        } else if rest.len() > 1 {
            let h = self.heap.allocate(Dynamic::Array(rest));
            bindings.push((String::from_str("it"), Value::Mutable(h)));
            proof {
                assert(extends(*old(self), *self));
                assert(binds_beside(*old(self), *self, scope));
                lemma_props_view(bindings@);
                assert(props_view(bindings@) =~= seq![
                    ("it"@, crate::v1::types::ValueView::Mutable(h)),
                ]);
            }
        } else {
            proof {
                assert(props_view(bindings@) =~= Seq::<
                    (Seq<char>, crate::v1::types::ValueView),
                >::empty());
            }
        }
        self.call_pointer(host, scope, &ptr, bindings, depth - 1)
    }

    /// The functions of the engine that work on values alone: `remove`,
    /// `append`, `len`, `type`, `clone` and `set`.
    pub fn value_builtin(&mut self, builtin: Builtin, args: Vec<Value>) -> (r: Result<
        Value,
        PipelineError,
    >)
        requires
            builtin is Remove || builtin is Append || builtin is Len || builtin is TypeOf || builtin
                is CloneValue || builtin is SetVariable,
        ensures
            extends(*old(self), *final(self)),
            binds_as_before(*old(self), *final(self)),
            sem_value_builtin(old(self).essence(), builtin, array_view(args@)) matches Outcome::Settled(
                o,
                c,
            ) && agrees(r, o) && final(self).essence() == c,
    {
        match builtin {
            Builtin::Remove => self.remove(args),
            Builtin::Append => self.append(args),
            Builtin::Len | Builtin::TypeOf => self.measure(builtin, args),
            Builtin::CloneValue => self.clone_value(args),
            _ => self.set_variable(args),
        }
    }

    /// `remove(target, index)`.
    fn remove(&mut self, args: Vec<Value>) -> (r: Result<Value, PipelineError>)
        ensures
            extends(*old(self), *final(self)),
            binds_as_before(*old(self), *final(self)),
            sem_value_builtin(old(self).essence(), Builtin::Remove, array_view(args@)) matches Outcome::Settled(
                o,
                c,
            ) && agrees(r, o) && final(self).essence() == c,
    {
        proof {
            reveal(sem_value_builtin);
        }
        proof {
            lemma_array_view(args@);
        }
        if args.len() < 2 {
            return expected("Array");
        }
        let index = self.snapshot(&args[1])?;
        self.heap.remove_element(&args[0], &index)?;
        Ok(unit())
    }

    /// `append(target, item, ..)`.
    fn append(&mut self, args: Vec<Value>) -> (r: Result<Value, PipelineError>)
        ensures
            extends(*old(self), *final(self)),
            binds_as_before(*old(self), *final(self)),
            sem_value_builtin(old(self).essence(), Builtin::Append, array_view(args@)) matches Outcome::Settled(
                o,
                c,
            ) && agrees(r, o) && final(self).essence() == c,
    {
        proof {
            reveal(sem_value_builtin);
        }
        proof {
            lemma_array_view(args@);
        }
        if args.len() < 1 {
            return expected("Array");
        }
        let mut items: Vec<Value> = Vec::new();
        let mut i: usize = 1;
        let ghost goal = Seq::new(
            (args.len() - 1) as nat,
            |k: int| crate::v1::semantics::kept_view(array_view(args@)[k + 1]),
        );
        proof {
            assert(array_view(items@) =~= goal.take(0));
        }
        while i < args.len()
            invariant
                1 <= i <= args.len(),
                *self == *old(self),
                goal == Seq::new(
                    (args.len() - 1) as nat,
                    |k: int| crate::v1::semantics::kept_view(array_view(args@)[k + 1]),
                ),
                array_view(items@) == goal.take(i - 1),
            decreases args.len() - i,
        {
            let ghost before = items@;
            let item = kept(args[i].duplicate());
            items.push(item);
            proof {
                lemma_array_view(before);
                lemma_array_view(items@);
                lemma_array_view(args@);
                assert(array_view(items@) =~= goal.take(i as int));
            }
            i += 1;
        }
        proof {
            assert(goal.take(args.len() - 1) =~= goal);
        }
        self.heap.append(&args[0], items)?;
        Ok(unit())
    }

    /// `len(value)` and `type(value)`.
    fn measure(&mut self, builtin: Builtin, args: Vec<Value>) -> (r: Result<Value, PipelineError>)
        requires
            builtin is Len || builtin is TypeOf,
        ensures
            *final(self) == *old(self),
            sem_value_builtin(old(self).essence(), builtin, array_view(args@)) matches Outcome::Settled(
                o,
                c,
            ) && agrees(r, o) && final(self).essence() == c,
    {
        proof {
            reveal(sem_value_builtin);
        }
        proof {
            lemma_array_view(args@);
        }
        if args.len() < 1 {
            return expected("value");
        }
        match self.heap.resolve(&args[0]) {
            Some(d) => match builtin {
                Builtin::Len => {
                    let n = d.len()?;
                    Ok(Value::Immutable(Dynamic::Integer(Self::count(n))))
                },
                _ => Ok(Value::Immutable(Dynamic::String(d.type_of()))),
            },
            None => dropped(),
        }
    }

    /// `clone(value)`.
    fn clone_value(&mut self, args: Vec<Value>) -> (r: Result<Value, PipelineError>)
        ensures
            extends(*old(self), *final(self)),
            binds_as_before(*old(self), *final(self)),
            sem_value_builtin(old(self).essence(), Builtin::CloneValue, array_view(args@)) matches Outcome::Settled(
                o,
                c,
            ) && agrees(r, o) && final(self).essence() == c,
    {
        proof {
            reveal(sem_value_builtin);
        }
        proof {
            lemma_array_view(args@);
        }
        if args.len() < 1 {
            return expected("value");
        }
        let d = self.snapshot(&args[0])?;
        match &args[0] {
            Value::Immutable(_) => Ok(Value::Immutable(d)),
            _ => Ok(Value::Mutable(self.heap.allocate(d))),
        }
    }

    /// `set(map, key, value)`.
    fn set_variable(&mut self, args: Vec<Value>) -> (r: Result<Value, PipelineError>)
        ensures
            extends(*old(self), *final(self)),
            binds_as_before(*old(self), *final(self)),
            sem_value_builtin(old(self).essence(), Builtin::SetVariable, array_view(args@)) matches Outcome::Settled(
                o,
                c,
            ) && agrees(r, o) && final(self).essence() == c,
    {
        proof {
            reveal(sem_value_builtin);
        }
        proof {
            lemma_array_view(args@);
        }
        if args.len() < 3 {
            return expected("String");
        }
        let key = self.text_arg(&args, 1)?;
        let value = self.text_arg(&args, 2)?;
        self.heap.assign_element(
            &args[0],
            Dynamic::String(key),
            Value::Immutable(Dynamic::String(value)),
        )?;
        Ok(unit())
    }

    /// The string that argument `i` is; `ExpectedType` for an argument that
    /// is missing or is no string.
    pub fn text_arg(&self, args: &Vec<Value>, i: usize) -> (r: Result<String, PipelineError>)
        ensures
            match r {
                Ok(s) => i < args.len() && crate::v1::types::content(self.heap@, args@[i as int]@)
                    == Some(DynamicView::Text(s@)),
                Err(e) => e is ExpectedType && !(i < args.len() && crate::v1::types::content(
                    self.heap@,
                    args@[i as int]@,
                ) matches Some(DynamicView::Text(_))),
            },
    {
        if i < args.len() {
            match args[i].as_string(&self.heap) {
                Some(s) => Ok(s),
                None => expected("String"),
            }
        } else {
            expected("String")
        }
    }

    /// The function that argument `i` is; `ExpectedType` for an argument
    /// that is missing or is no function.
    pub fn function_arg(&self, args: &Vec<Value>, i: usize) -> (r: Result<Box<FnPtr>, PipelineError>)
        ensures
            match r {
                Ok(p) => i < args.len() && crate::v1::types::content(self.heap@, args@[i as int]@)
                    == Some(DynamicView::FnPtr(p@)),
                Err(e) => e is ExpectedType && !(i < args.len() && crate::v1::types::content(
                    self.heap@,
                    args@[i as int]@,
                ) matches Some(DynamicView::FnPtr(_))),
            },
    {
        if i < args.len() {
            match self.heap.resolve(&args[i]) {
                Some(d) => match d.as_fn_ptr() {
                    Some(p) => Ok(p),
                    None => expected("Function"),
                },
                None => expected("Function"),
            }
        } else {
            expected("Function")
        }
    }

    /// Writes the first argument, where there is one, as a prompt. An
    /// argument that is no string gives `ExpectedType`, and nothing is
    /// written.
    pub fn prompt<H: Host>(&mut self, host: &mut H, args: &Vec<Value>) -> (r: Result<(), PipelineError>)
        ensures
            Self::wrote_only(*old(self), *final(self)),
            if args.len() == 0 {
                r is Ok && final(self).transcript@ == old(self).transcript@
            } else {
                match crate::v1::types::content(old(self).heap@, args@[0]@) {
                    Some(DynamicView::Text(text)) => r is Ok && final(self).transcript@ == old(self).transcript@.push(text),
                    _ => r matches Err(e) && e is ExpectedType && final(self).transcript@ == old(self).transcript@,
                }
            },
    {
        if args.len() > 0 {
            let text = self.text_arg(args, 0)?;
            self.emit(host, text.as_str());
        }
        Ok(())
    }

    /// What a function that reads gives for what the host has read: the
    /// value, or `HostError` where the host has read nothing of the kind
    /// `what`.
    pub fn answered(found: Option<Dynamic>, what: &str) -> (r: Result<Value, PipelineError>)
        ensures
            match found {
                Some(d) => r == Ok::<Value, PipelineError>(Value::Immutable(d)),
                None => r matches Err(PipelineError::HostError(text)) && text@ == "no "@ + what@
                    + " was read"@,
            },
    {
        match found {
            Some(d) => Ok(Value::Immutable(d)),
            None => {
                let mut text = String::from_str("no ");
                text.append(what);
                text.append(" was read");
                Err(PipelineError::HostError(text))
            },
        }
    }

    /// Makes `path` the workspace, where the host has found that the path
    /// exists; a path that does not exist gives `HostError` and changes
    /// nothing.
    pub fn enter_workspace(&mut self, path: String, exists: bool) -> (r: Result<Value, PipelineError>)
        ensures
            extends(*old(self), *final(self)),
            binds_as_before(*old(self), *final(self)),
            exists ==> r == Ok::<Value, PipelineError>(Value::Immutable(Dynamic::Unit)) && final(self).globals@ == old(self).globals@.insert("workspace"@, path) && Self::set_only(*old(self), *final(self)),
            !exists ==> *final(self) == *old(self) && (r matches Err(PipelineError::HostError(text))
                && text@ == "the path does not exist: "@ + path@),
    {
        proof {
            lemma_extends_itself(*old(self));
        }
        if !exists {
            let mut text = String::from_str("the path does not exist: ");
            text.append(path.as_str());
            return Err(PipelineError::HostError(text));
        }
        self.globals.set_value("workspace", path);
        Ok(unit())
    }

    /// Whether two states differ in nothing but the settings.
    pub open spec fn set_only(before: Interpreter, after: Interpreter) -> bool {
        &&& after.modules == before.modules
        &&& after.main_module == before.main_module
        &&& after.heap == before.heap
        &&& after.scopes == before.scopes
        &&& after.logger == before.logger
        &&& after.env == before.env
        &&& after.tasks == before.tasks
        &&& after.join_sets == before.join_sets
        &&& after.op_join_sets == before.op_join_sets
        &&& after.position == before.position
        &&& after.rounds == before.rounds
        &&& after.transcript@ == before.transcript@
        &&& after.asked@ == before.asked@
        &&& after.journal@ == before.journal@
    }

    /// The workspace: the setting `workspace`, or `./` where it is not set.
    pub open spec fn workspace_text(&self) -> Seq<char> {
        match self.setting("workspace"@) {
            Some(path) => path,
            None => "./"@,
        }
    }

    /// The workspace: the setting `workspace`, or `./` where it is not set.
    pub fn workspace(&self) -> (w: String)
        ensures
            w@ == self.workspace_text(),
    {
        match self.globals.value("workspace") {
            Some(path) => path.clone(),
            None => String::from_str("./"),
        }
    }

    /// The environment of commands: that of the innermost task that is
    /// running, and none outside a task.
    pub open spec fn environment(&self) -> Seq<(Seq<char>, Seq<char>)> {
        if self.env@.len() > 0 {
            pairs_of(self.env@.last()@)
        } else {
            Seq::empty()
        }
    }

    /// Whether `after` is `before` with `request` as one more thing that
    /// the host was asked, and nothing else changed.
    pub open spec fn handed(before: Interpreter, after: Interpreter, request: Request) -> bool {
        &&& after.modules == before.modules
        &&& after.main_module == before.main_module
        &&& after.heap == before.heap
        &&& after.scopes == before.scopes
        &&& after.globals == before.globals
        &&& after.logger == before.logger
        &&& after.env == before.env
        &&& after.tasks == before.tasks
        &&& after.join_sets == before.join_sets
        &&& after.op_join_sets == before.op_join_sets
        &&& after.position == before.position
        &&& after.rounds == before.rounds
        &&& after.transcript@ == before.transcript@
        &&& after.asked@ == before.asked@.push(request)
        &&& after.journal@ == before.journal@
    }

    /// The filter that the setting `key` holds: its value, or `all` where
    /// it is not set.
    pub open spec fn filter(&self, key: Seq<char>) -> Seq<char> {
        match self.setting(key) {
            Some(f) => f,
            None => "all"@,
        }
    }

    /// Whether the filter of the setting `key` lets `name` pass.
    pub fn passes(&self, key: &str, name: &str) -> (b: bool)
        ensures
            b == selected(self.filter(key@), name@),
    {
        match self.globals.value(key) {
            Some(f) => is_selected(f.as_str(), name),
            None => is_selected("all", name),
        }
    }

    /// Gives the variable `key` the value `value` in the environment of the
    /// innermost task that is running; `SchedulerError` where none is.
    pub fn set_env(&mut self, key: String, value: String) -> (r: Result<(), PipelineError>)
        ensures
            extends(*old(self), *final(self)),
            binds_as_before(*old(self), *final(self)),
            r is Ok == (old(self).env@.len() > 0),
            r matches Err(e) ==> e is SchedulerError && *final(self) == *old(self),
            r is Ok ==> table_map(final(self).env@.last()@) == table_map(old(self).env@.last()@).insert(
                key@,
                value,
            ),
            r is Ok ==> Self::env_only(*old(self), *final(self)) && text_table(final(self).env@.last()@)
                == text_table(old(self).env@.last()@).insert(key@, value@),
    {
        if self.env.len() == 0 {
            return Err(PipelineError::SchedulerError(String::from_str("no task is running")));
        }
        let ghost before = self.env@;
        match self.env.pop() {
            Some(mut frame) => {
                let ghost last = frame@;
                put(&mut frame, key, value);
                proof {
                    assert(text_table(frame@) =~= text_table(last).insert(key@, value@));
                }
                self.env.push(frame);
                proof {
                    assert(self.env@.drop_last() =~= before.drop_last());
                }
                Ok(())
            },
            None => Ok(()),
        }
    }

    /// Whether two states differ in nothing but the environment of the
    /// innermost task.
    pub open spec fn env_only(before: Interpreter, after: Interpreter) -> bool {
        &&& after.modules == before.modules
        &&& after.main_module == before.main_module
        &&& after.heap == before.heap
        &&& after.scopes == before.scopes
        &&& after.globals == before.globals
        &&& after.logger == before.logger
        &&& after.tasks == before.tasks
        &&& after.join_sets == before.join_sets
        &&& after.op_join_sets == before.op_join_sets
        &&& after.position == before.position
        &&& after.rounds == before.rounds
        &&& after.transcript@ == before.transcript@
        &&& after.asked@ == before.asked@
        &&& after.journal@ == before.journal@
        &&& after.env@.len() == before.env@.len()
        &&& after.env@.drop_last() == before.env@.drop_last()
    }

    /// Whether two states differ in nothing but what the host was asked.
    pub open spec fn asked_only(before: Interpreter, after: Interpreter) -> bool {
        &&& after.modules == before.modules
        &&& after.main_module == before.main_module
        &&& after.heap == before.heap
        &&& after.scopes == before.scopes
        &&& after.globals == before.globals
        &&& after.logger == before.logger
        &&& after.env == before.env
        &&& after.tasks == before.tasks
        &&& after.join_sets == before.join_sets
        &&& after.op_join_sets == before.op_join_sets
        &&& after.position == before.position
        &&& after.rounds == before.rounds
        &&& after.transcript@ == before.transcript@
        &&& after.journal@ == before.journal@
    }

    /// Asks the host whether a path exists.
    pub fn ask_exists<H: Host>(&mut self, host: &mut H, path: &str) -> (found: bool)
        ensures
            Self::handed(*old(self), *final(self), Request::Exists { path: path@, found }),
    {
        let found = host.path_exists(path);
        self.asked = Ghost(self.asked@.push(Request::Exists { path: path@, found }));
        found
    }

    /// Asks the host for the text of a file in a workspace.
    pub fn ask_read<H: Host>(&mut self, host: &mut H, workspace: &str, path: &str) -> (r: Result<
        String,
        PipelineError,
    >)
        ensures
            Self::handed(
                *old(self),
                *final(self),
                Request::Read {
                    workspace: workspace@,
                    path: path@,
                    found: found_text(r),
                },
            ),
            r matches Err(e) ==> e is HostError,
    {
        let r = Self::told(host.read_file(workspace, path));
        self.asked = Ghost(
            self.asked@.push(
                Request::Read {
                    workspace: workspace@,
                    path: path@,
                    found: found_text(r),
                },
            ),
        );
        r
    }

    /// Asks the host to write a text to a file in a workspace.
    pub fn ask_write<H: Host>(&mut self, host: &mut H, workspace: &str, path: &str, text: &str) -> (r: Result<
        (),
        PipelineError,
    >)
        ensures
            Self::handed(
                *old(self),
                *final(self),
                Request::Write { workspace: workspace@, path: path@, text: text@, done: r is Ok },
            ),
            r matches Err(e) ==> e is HostError,
    {
        let r = Self::told(host.write_file(workspace, path, text));
        self.asked = Ghost(
            self.asked@.push(
                Request::Write { workspace: workspace@, path: path@, text: text@, done: r is Ok },
            ),
        );
        r
    }

    /// Asks the host to make a directory.
    pub fn ask_folder<H: Host>(&mut self, host: &mut H, path: &str) -> (r: Result<(), PipelineError>)
        ensures
            Self::handed(*old(self), *final(self), Request::Folder { path: path@, done: r is Ok }),
            r matches Err(e) ==> e is HostError,
    {
        let r = Self::told(host.create_dir_all(path));
        self.asked = Ghost(self.asked@.push(Request::Folder { path: path@, done: r is Ok }));
        r
    }

    /// Asks the host for the text of a template of a layout.
    pub fn ask_template<H: Host>(&mut self, host: &mut H, layout: &str, name: &str) -> (r: Result<
        String,
        PipelineError,
    >)
        ensures
            Self::handed(
                *old(self),
                *final(self),
                Request::Template {
                    layout: layout@,
                    name: name@,
                    found: found_text(r),
                },
            ),
            r matches Err(e) ==> e is HostError,
    {
        let r = Self::told(host.read_template(layout, name));
        self.asked = Ghost(
            self.asked@.push(
                Request::Template {
                    layout: layout@,
                    name: name@,
                    found: found_text(r),
                },
            ),
        );
        r
    }

    /// What the engine makes of an answer of the host: what the host gives,
    /// or `HostError` with the message of the host.
    pub fn told<T>(answer: Result<T, String>) -> (r: Result<T, PipelineError>)
        ensures
            match answer {
                Ok(v) => r == Ok::<T, PipelineError>(v),
                Err(message) => r == Err::<T, PipelineError>(PipelineError::HostError(message)),
            },
    {
        match answer {
            Ok(v) => Ok(v),
            Err(message) => Err(PipelineError::HostError(message)),
        }
    }

    /// Hands an operation to the host, with the workspace and with the
    /// environment of the innermost task that is running (none outside a
    /// task). What was handed over is kept in `asked`. The result is the
    /// host's; a failure of the host is a `HostError` with its message.
    pub fn execute<H: Host>(&mut self, host: &mut H, operation: &Operation) -> (r: Result<
        CommandOutput,
        PipelineError,
    >)
        ensures
            Self::handed(
                *old(self),
                *final(self),
                Request::Execute {
                    operation: operation@,
                    workspace: old(self).workspace_text(),
                    env: old(self).environment(),
                },
            ),
            r matches Err(e) ==> e is HostError,
    {
        let workspace = self.workspace();
        self.asked = Ghost(
            self.asked@.push(
                Request::Execute { operation: operation@, workspace: workspace@, env: self.environment() },
            ),
        );
        let none: Vec<(String, String)> = Vec::new();
        let env = if self.env.len() > 0 {
            &self.env[self.env.len() - 1]
        } else {
            &none
        };
        Self::told(host.execute(operation, workspace.as_str(), env))
    }

    /// The texts of the lines of one stream of a command.
    fn decode_lines(lines: &Vec<Vec<u8>>, gbk: bool) -> (out: Vec<String>)
        ensures
            texts(out@) == decoded(lines@, gbk),
    {
        let mut out: Vec<String> = Vec::new();
        let mut i: usize = 0;
        while i < lines.len()
            invariant
                i <= lines.len(),
                out.len() == i,
                forall|k: int|
                    0 <= k < i ==> (#[trigger] out@[k])@ == crate::builtin::line_text(lines@[k]@, gbk),
            decreases lines.len() - i,
        {
            out.push(decode_line(&lines[i], gbk));
            i += 1;
        }
        proof {
            assert(texts(out@) =~= decoded(lines@, gbk));
        }
        out
    }

    /// The name of the innermost task that is running; the empty name
    /// outside a task.
    pub open spec fn running(&self) -> Seq<char> {
        if self.tasks@.len() > 0 {
            self.tasks@.last()@
        } else {
            Seq::<char>::empty()
        }
    }

    /// The name of the innermost task that is running; the empty name
    /// outside a task.
    pub fn task_name(&self) -> (name: String)
        ensures
            name@ == self.running(),
    {
        if self.tasks.len() > 0 {
            self.tasks[self.tasks.len() - 1].clone()
        } else {
            String::new()
        }
    }

    /// Whether two states differ in nothing but the output that waits in
    /// the join-set of the innermost task.
    pub open spec fn queued_only(before: Interpreter, after: Interpreter) -> bool {
        &&& after.modules == before.modules
        &&& after.main_module == before.main_module
        &&& after.heap == before.heap
        &&& after.scopes == before.scopes
        &&& after.globals == before.globals
        &&& after.logger == before.logger
        &&& after.env == before.env
        &&& after.tasks == before.tasks
        &&& after.join_sets == before.join_sets
        &&& after.position == before.position
        &&& after.rounds == before.rounds
        &&& after.transcript@ == before.transcript@
        &&& after.asked@ == before.asked@
        &&& after.journal@ == before.journal@
        &&& after.op_join_sets@.len() == before.op_join_sets@.len()
        &&& after.op_join_sets@.drop_last() == before.op_join_sets@.drop_last()
    }

    /// Whether `after` is `before` with what a command has written taken
    /// in: see [`Interpreter::take_output`].
    pub open spec fn took(
        before: Interpreter,
        after: Interpreter,
        output: CommandOutput,
        gbk_out: bool,
        gbk_err: bool,
    ) -> bool {
        let out = PumpView {
            task: before.running(),
            is_err: false,
            lines: decoded(output.stdout@, gbk_out),
        };
        let err = PumpView { task: before.running(), is_err: true, lines: decoded(output.stderr@, gbk_err) };
        if before.op_join_sets@.len() == 0 {
            let first = delivered(before.logger.log(), before.transcript@, out, out.lines.len() as int);
            &&& Self::logged_only(before, after)
            &&& (after.logger.log(), after.transcript@) == delivered(
                first.0,
                first.1,
                err,
                err.lines.len() as int,
            )
        } else {
            &&& Self::queued_only(before, after)
            &&& pumps_view(after.op_join_sets@.last()@) == pumps_view(before.op_join_sets@.last()@).push(
                out,
            ).push(err)
        }
    }

    /// Takes in what a command has written. The lines of each stream are
    /// decoded, those of the standard error as GBK only where `gbk_err`
    /// says so, those of the standard output only where `gbk_out` does.
    /// Inside a task the lines wait in the join-set of the innermost task,
    /// first those of the standard output, then those of the standard
    /// error; outside a task they are handed to the logger at once, in that
    /// order.
    pub fn take_output<H: Host>(&mut self, host: &mut H, output: &CommandOutput, gbk_out: bool, gbk_err: bool)
        ensures
            extends(*old(self), *final(self)),
            binds_as_before(*old(self), *final(self)),
            Self::took(*old(self), *final(self), *output, gbk_out, gbk_err),
    {
        proof {
            lemma_extends_itself(*old(self));
        }
        let task = self.task_name();
        let out = Pump {
            task: task.clone(),
            is_err: false,
            lines: Self::decode_lines(&output.stdout, gbk_out),
        };
        let err = Pump { task, is_err: true, lines: Self::decode_lines(&output.stderr, gbk_err) };
        if self.op_join_sets.len() == 0 {
            self.deliver(host, out);
            self.deliver(host, err);
            return ;
        }
        let ghost before = self.op_join_sets@;
        match self.op_join_sets.pop() {
            Some(mut set) => {
                let ghost waiting = set@;
                set.push(out);
                set.push(err);
                proof {
                    assert(pumps_view(set@) =~= pumps_view(waiting).push(out@).push(err@));
                }
                self.op_join_sets.push(set);
                proof {
                    assert(self.op_join_sets@.drop_last() =~= before.drop_last());
                }
            },
            None => {},
        }
    }

    /// Runs a command line through the host: the command is handed to the
    /// host as an operation, with the workspace and the environment of the
    /// innermost task, and what the host says that the command has written
    /// is taken in: see [`Interpreter::take_output`]. Whether a line of the
    /// command may be GBK follows from the command line. A command that the
    /// host could not run gives `HostError`, and nothing but `asked`
    /// changes.
    pub fn cmd<H: Host>(&mut self, host: &mut H, command: String) -> (r: Result<(), PipelineError>)
        ensures
            extends(*old(self), *final(self)),
            binds_as_before(*old(self), *final(self)),
            final(self).asked@ == old(self).asked@.push(Self::command_request(*old(self), command@)),
            r matches Err(e) ==> e is HostError && Self::handed(
                *old(self),
                *final(self),
                Self::command_request(*old(self), command@),
            ),
            r is Ok ==> exists|output: CommandOutput, mid: Interpreter|
                Self::ran_command(*old(self), mid, *final(self), command@, output),
    {
        proof {
            lemma_extends_itself(*old(self));
        }
        let gbk_out = is_system_gbk_output_command(command.as_str());
        let gbk_err = is_system_gbk_err_command(command.as_str());
        let ghost line = command@;
        let mut params: Vec<String> = Vec::new();
        params.push(command);
        let output = self.execute(host, &Operation::from_str("cmd", params))?;
        let ghost mid = *self;
        self.take_output(host, &output, gbk_out, gbk_err);
        proof {
            assert(Self::ran_command(*old(self), mid, *self, line, output));
        }
        Ok(())
    }

    /// What the host is asked for the command line `command`.
    pub open spec fn command_request(before: Interpreter, command: Seq<char>) -> Request {
        Request::Execute {
            operation: OperationTypeView::Cmd(command),
            workspace: before.workspace_text(),
            env: before.environment(),
        }
    }

    /// Whether `after` is `before` with the command line `command` run, for
    /// which the host has given `output`: in `mid` the host has been asked,
    /// and from there the output is taken in.
    pub open spec fn ran_command(
        before: Interpreter,
        mid: Interpreter,
        after: Interpreter,
        command: Seq<char>,
        output: CommandOutput,
    ) -> bool {
        &&& Self::handed(before, mid, Self::command_request(before, command))
        &&& Self::took(
            mid,
            after,
            output,
            crate::builtin::gbk_output(command),
            crate::builtin::gbk_err(command),
        )
    }

    /// Whether two states differ in nothing but the log and what was
    /// written.
    pub open spec fn logged_only(before: Interpreter, after: Interpreter) -> bool {
        &&& after.modules == before.modules
        &&& after.main_module == before.main_module
        &&& after.heap == before.heap
        &&& after.scopes == before.scopes
        &&& after.globals == before.globals
        &&& after.env == before.env
        &&& after.tasks == before.tasks
        &&& after.join_sets == before.join_sets
        &&& after.op_join_sets == before.op_join_sets
        &&& after.position == before.position
        &&& after.rounds == before.rounds
        &&& after.asked@ == before.asked@
        &&& after.journal@ == before.journal@
    }

    /// Hands the lines of a pump to the logger and writes what the logger
    /// shows for them, each text on a line of its own.
    pub fn deliver<H: Host>(&mut self, host: &mut H, pump: Pump)
        ensures
            Self::logged_only(*old(self), *final(self)),
            (final(self).logger.log(), final(self).transcript@) == delivered(
                old(self).logger.log(),
                old(self).transcript@,
                pump@,
                pump.lines.len() as int,
            ),
    {
        let mut i: usize = 0;
        while i < pump.lines.len()
            invariant
                i <= pump.lines.len(),
                Self::logged_only(*old(self), *self),
                (self.logger.log(), self.transcript@) == delivered(
                    old(self).logger.log(),
                    old(self).transcript@,
                    pump@,
                    i as int,
                ),
            decreases pump.lines.len() - i,
        {
            let ghost log = self.logger.log();
            let ghost written = self.transcript@;
            let shown = if pump.is_err {
                self.logger.task_err(pump.task.as_str(), pump.lines[i].as_str())
            } else {
                self.logger.task_out(pump.task.as_str(), pump.lines[i].as_str())
            };
            let ghost all = on_lines(texts(shown@));
            let mut k: usize = 0;
            proof {
                assert(written + all.take(0) =~= written);
            }
            while k < shown.len()
                invariant
                    k <= shown.len(),
                    i < pump.lines.len(),
                    Self::logged_only(*old(self), *self),
                    all == on_lines(texts(shown@)),
                    self.logger.log() == noted(log, pump@.task, log_line(pump.is_err, pump@.lines[i as int])),
                    self.transcript@ == written + all.take(k as int),
                decreases shown.len() - k,
            {
                let mut line = shown[k].clone();
                line.append("\n");
                self.emit(host, line.as_str());
                proof {
                    assert(all.take(k + 1) =~= all.take(k as int).push(all[k as int]));
                    assert(written + all.take(k + 1) =~= (written + all.take(k as int)).push(all[k as int]));
                }
                k += 1;
            }
            proof {
                assert(all.take(shown.len() as int) =~= all);
            }
            i += 1;
        }
    }

    /// Which of two numbers is kept as the greater one, where the host has
    /// said how `next` stands to `best`: `next` where it is greater, and
    /// `best` in every other case, also where the two do not compare.
    pub fn keep_greater(best: u64, next: u64, order: FloatOrder) -> (r: u64)
        ensures
            r == (if order is Greater {
                next
            } else {
                best
            }),
    {
        match order {
            FloatOrder::Greater => next,
            _ => best,
        }
    }

    /// The greatest of the candidates: the first, against which every later
    /// one is held in order and kept where the host says that it is greater
    /// than the one kept so far. Nothing without candidates.
    pub fn greatest<H: Host>(host: &mut H, candidates: &Vec<u64>) -> (r: Option<u64>)
        ensures
            r is Some <==> candidates.len() > 0,
            r matches Some(b) ==> exists|i: int| 0 <= i < candidates.len() && b == candidates[i],
            candidates.len() == 1 ==> r == Some(candidates[0]),
    {
        if candidates.len() == 0 {
            return None;
        }
        let mut best = candidates[0];
        let mut i: usize = 1;
        while i < candidates.len()
            invariant
                1 <= i <= candidates.len(),
                exists|k: int| 0 <= k < i && best == candidates[k],
                candidates.len() == 1 ==> best == candidates[0],
            decreases candidates.len() - i,
        {
            let order = host.float_order(candidates[i], best);
            best = Self::keep_greater(best, candidates[i], order);
            i += 1;
        }
        Some(best)
    }

    /// The numbers as floating-point numbers, in order: a floating-point
    /// number as it is, an integer as the host says. An argument that is no
    /// number gives `ExpectedType`.
    pub fn candidates<H: Host>(&self, host: &mut H, args: &Vec<Value>) -> (r: Result<Vec<u64>, PipelineError>)
        ensures
            r is Ok <==> forall|i: int| 0 <= i < args.len() ==> is_number(self.heap@, #[trigger] args@[i]@),
            r matches Err(e) ==> e is ExpectedType,
            r matches Ok(found) ==> found.len() == args.len() && forall|i: int|
                0 <= i < args.len() ==> (crate::v1::types::content(self.heap@, #[trigger] args@[i]@)
                    matches Some(DynamicView::Float(bits)) ==> found[i] == bits),
    {
        let mut found: Vec<u64> = Vec::new();
        let mut i: usize = 0;
        while i < args.len()
            invariant
                i <= args.len(),
                found.len() == i,
                forall|k: int| 0 <= k < i ==> is_number(self.heap@, #[trigger] args@[k]@),
                forall|k: int|
                    0 <= k < i ==> (crate::v1::types::content(self.heap@, #[trigger] args@[k]@)
                        matches Some(DynamicView::Float(bits)) ==> found[k] == bits),
            decreases args.len() - i,
        {
            let bits = match self.heap.resolve(&args[i]) {
                Some(Dynamic::Integer(n)) => host.float_from_int(*n),
                Some(Dynamic::Float(bits)) => *bits,
                _ => {
                    assert(!is_number(self.heap@, args@[i as int]@));
                    return expected("Number");
                },
            };
            found.push(bits);
            i += 1;
        }
        Ok(found)
    }

    /// The greatest of the numbers, as a floating-point number: see
    /// [`Interpreter::candidates`] and [`Interpreter::greatest`]. The host
    /// says what an integer is as a floating-point number and how two
    /// numbers compare, so the result is the number of one of the
    /// arguments: where that argument is a floating-point number, the
    /// number itself. Without arguments, and with an argument that is no
    /// number, the error is `ExpectedType`.
    pub fn max<H: Host>(&self, host: &mut H, args: &Vec<Value>) -> (r: Result<u64, PipelineError>)
        ensures
            r is Ok <==> args.len() > 0 && forall|i: int|
                0 <= i < args.len() ==> is_number(self.heap@, #[trigger] args@[i]@),
            r matches Err(e) ==> e is ExpectedType,
            r matches Ok(b) ==> exists|i: int|
                0 <= i < args.len() && (crate::v1::types::content(self.heap@, #[trigger] args@[i]@)
                    matches Some(DynamicView::Float(bits)) ==> b == bits),
            r matches Ok(b) ==> (forall|i: int|
                0 <= i < args.len() ==> crate::v1::types::content(self.heap@, #[trigger] args@[i]@)
                    is Some && crate::v1::types::content(self.heap@, args@[i]@)->0 is Float) ==> exists|
                i: int,
            |
                0 <= i < args.len() && crate::v1::types::content(self.heap@, #[trigger] args@[i]@) == Some(
                    DynamicView::Float(b),
                ),
    {
        let found = self.candidates(host, args)?;
        match Self::greatest(host, &found) {
            Some(b) => {
                proof {
                    let k = choose|k: int| 0 <= k < found.len() && b == found[k];
                    assert(is_number(self.heap@, args@[k]@));
                }
                Ok(b)
            },
            None => expected("Number"),
        }
    }

    /// The names and values that a template is rendered with: the entries of
    /// the map that `ctx` stands for. A value that stands for nothing gives
    /// `VariableUndefined`; a value that is no map, and a key or a value of
    /// the map that is no string, gives `ExpectedType`.
    pub fn template_values(&self, ctx: &Value) -> (r: Result<Vec<(String, String)>, PipelineError>)
        ensures
            match crate::v1::types::content(self.heap@, ctx@) {
                Some(DynamicView::Mapping(entries)) => match template_table(
                    self.heap@,
                    entries,
                    entries.len() as int,
                ) {
                    Some(table) => r matches Ok(values) && text_table(values@) == table,
                    None => r matches Err(e) && e is ExpectedType,
                },
                Some(_) => r matches Err(e) && e is ExpectedType,
                None => r matches Err(e) && e is VariableUndefined,
            },
    {
        let entries = match self.heap.resolve(ctx) {
            Some(Dynamic::Mapping(entries)) => entries,
            Some(_) => {
                return expected("Map");
            },
            None => {
                return dropped();
            },
        };
        let ghost views = crate::v1::types::entries_view(entries@);
        let mut values: Vec<(String, String)> = Vec::new();
        let mut i: usize = 0;
        proof {
            assert(text_table(values@) =~= Map::<Seq<char>, Seq<char>>::empty());
        }
        while i < entries.len()
            invariant
                i <= entries.len(),
                views == crate::v1::types::entries_view(entries@),
                crate::v1::types::content(self.heap@, ctx@) == Some(DynamicView::Mapping(views)),
                template_table(self.heap@, views, i as int) == Some(text_table(values@)),
            decreases entries.len() - i,
        {
            assert(views[i as int] == (entries@[i as int].0@, entries@[i as int].1@));
            let key = match &entries[i].0 {
                Dynamic::String(k) => k.clone(),
                _ => {
                    proof {
                        assert(template_table(self.heap@, views, i + 1) is None);
                        lemma_template_fails(self.heap@, views, i + 1, entries.len() as int);
                    }
                    return expected("String");
                },
            };
            let value = match entries[i].1.as_string(&self.heap) {
                Some(v) => v,
                None => {
                    proof {
                        assert(template_table(self.heap@, views, i + 1) is None);
                        lemma_template_fails(self.heap@, views, i + 1, entries.len() as int);
                    }
                    return expected("String");
                },
            };
            let ghost before = values@;
            put(&mut values, key, value);
            proof {
                assert(text_table(values@) =~= text_table(before).insert(key@, value@));
            }
            i += 1;
        }
        Ok(values)
    }

    /// Submits a task to run in parallel: where the filter `path_task` lets
    /// the name pass, the task is added at the end of the join-set of the
    /// innermost pipeline that is running, and the logger is switched to
    /// parallel mode. Where the filter does not let it pass, nothing
    /// happens. Outside a pipeline the error is `SchedulerError`.
    pub fn parallel(&mut self, scope: usize, name: String, body: FnPtr) -> (r: Result<
        Value,
        PipelineError,
    >)
        ensures
            extends(*old(self), *final(self)),
            binds_beside(*old(self), *final(self), scope),
            sem_parallel(old(self).essence(), scope, name@, body@) matches Outcome::Settled(o, c)
                && agrees(r, o) && final(self).essence() == c,
            !selected(old(self).filter("path_task"@), name@) ==> r == Ok::<Value, PipelineError>(
                Value::Immutable(Dynamic::Unit),
            ) && *final(self) == *old(self),
            selected(old(self).filter("path_task"@), name@) ==> {
                &&& r is Ok == (old(self).join_sets@.len() > 0)
                &&& r matches Err(e) ==> e is SchedulerError && *final(self) == *old(self)
                &&& r is Ok ==> final(self).logger.parallel() && final(self).join_sets@.last()@ == old(self).join_sets@.last()@.push(Worker { name, body, scope }) && final(self).join_sets@.drop_last() == old(self).join_sets@.drop_last()
            },
            final(self).journal@ == old(self).journal@,
    {
        if !self.passes("path_task", name.as_str()) {
            return Ok(unit());
        }
        if self.join_sets.len() == 0 {
            return Err(PipelineError::SchedulerError(String::from_str("parallel outside a pipeline")));
        }
        match self.join_sets.pop() {
            Some(mut set) => {
                self.logger.set_parallel(true);
                let ghost before = set@;
                set.push(Worker { name, body, scope });
                self.join_sets.push(set);
                proof {
                    assert(self.join_sets@.drop_last() =~= old(self).join_sets@.drop_last());
                    let last = old(self).join_sets@.len() - 1;
                    let worker = WorkerView { name: name@, body: body@, scope };
                    assert(workers_view(set@) =~= workers_view(before).push(worker));
                    assert(sets_view(self.join_sets@) =~= sets_view(old(self).join_sets@).update(
                        last,
                        sets_view(old(self).join_sets@)[last].push(worker),
                    ));
                }
                Ok(unit())
            },
            None => Ok(unit()),
        }
    }

    /// Whether `after` is `before` with one task run, whose body is `body`
    /// and whose result is `r`: the body was called once, the call is the
    /// one entry that the journal has more, and its result is the result of
    /// the task; and all output of commands that waited in the join-set of
    /// the task when the body had ended was handed to the logger, in the
    /// order in which it came.
    pub open spec fn ran_task(
        before: Interpreter,
        after: Interpreter,
        scope: usize,
        body: FnPtrView,
        r: Result<Value, PipelineError>,
    ) -> bool {
        &&& after.journal@.len() == before.journal@.len() + 1
        &&& after.journal@.drop_last() == before.journal@
        &&& after.journal@.last() matches Node::Call { ptr, scope: s, fault, log, written, waiting, .. }
            && ptr == body && s == scope && fault == fault_in(r) && (
            after.logger.log(),
            after.transcript@,
        ) == delivered_all(log, written, waiting, waiting.len() as int)
    }

    /// Runs a task: with an environment of its own, a join-set of its own
    /// and its name as the name of the running task, it calls the body,
    /// once. When the body has ended, whatever way, everything that waits
    /// in the join-set is handed to the logger in the order in which it
    /// came; then the environment, the join-set and the name are dropped.
    /// The result is the result of the body.
    #[verifier::spinoff_prover]
    #[verifier::loop_isolation(false)]
    pub fn run_task<H: Host>(&mut self, host: &mut H, scope: usize, name: &str, body: &FnPtr, depth: usize) -> (r:
        Result<Value, PipelineError>)
        ensures
            extends(*old(self), *final(self)),
            binds_beside(*old(self), *final(self), scope),
            final(self).op_join_sets@ == old(self).op_join_sets@,
            final(self).env@ == old(self).env@,
            final(self).tasks@ == old(self).tasks@,
            sem_run_task(old(self).essence(), scope, body@, depth as nat) matches Outcome::Settled(o, c)
                ==> agrees(r, o) && final(self).essence() == c,
            Self::ran_task(*old(self), *final(self), scope, body@, r),
            depth == 0 ==> r matches Err(PipelineError::BudgetExhausted),
        decreases depth,
    {
        proof {
            reveal(sem_run_task);
            reveal(sem_pointer);
        }
        if depth == 0 {
            let r = Err(PipelineError::BudgetExhausted);
            let ghost saved = self.journal@;
            self.journal = Ghost(
                saved.push(
                    Node::Call {
                        ptr: body@,
                        scope,
                        fault: fault_in(r),
                        inside: Seq::empty(),
                        log: self.logger.log(),
                        written: self.transcript@,
                        waiting: Seq::empty(),
                        tasks: self.waiting_tasks(),
                    },
                ),
            );
            proof {
                lemma_extends_itself(*old(self));
                assert(self.journal@.drop_last() =~= saved);
            }
            return r;
        }
        self.env.push(Vec::new());
        self.op_join_sets.push(Vec::new());
        self.tasks.push(String::from_str(name));
        let ghost inside = *self;
        proof {
            assert(inside.essence().waiting =~= old(self).essence().waiting.push(0));
            assert(inside.essence() == (Core {
                waiting: old(self).essence().waiting.push(0),
                ..old(self).essence()
            }));
        }
        let none: Vec<(String, Value)> = Vec::new();
        proof {
            assert(props_view(none@) =~= Seq::<(Seq<char>, crate::v1::types::ValueView)>::empty());
        }
        let r = self.call_pointer(host, scope, body, none, depth - 1);
        let ghost after = *self;
        let pumps = self.op_join_sets.pop();
        self.tasks.pop();
        self.env.pop();
        let ghost popped = *self;
        proof {
            assert forall|k: int| 0 <= k < old(self).env@.len() implies popped.env@[k] == old(self).env@[k] by {
                assert(inside.env@[k] == old(self).env@[k]);
            }
            assert(popped.env@ =~= old(self).env@);
            assert(popped.tasks@ =~= old(self).tasks@);
            assert forall|k: int| 0 <= k < old(self).op_join_sets@.len() implies popped.op_join_sets@[k]
                == old(self).op_join_sets@[k] by {
                assert(inside.op_join_sets@[k] == old(self).op_join_sets@[k]);
            }
            assert(popped.op_join_sets@ =~= old(self).op_join_sets@);
            assert(extends(*old(self), popped));
            assert(binds_beside(*old(self), inside, scope));
            assert(binds_beside(*old(self), after, scope));
            assert(binds_beside(*old(self), popped, scope));
            assert(popped.essence().waiting =~= after.essence().waiting.drop_last());
            assert(after.essence().waiting.len() == after.op_join_sets@.len());
            assert(after.essence().waiting.last() == after.op_join_sets@.last()@.len());
            assert(popped.essence() == (Core {
                waiting: after.essence().waiting.drop_last(),
                ..after.essence()
            }));
        }
        let ghost all = after.waiting_output();
        let ghost mut handed: int = 0;
        match pumps {
            Some(mut pumps) => {
                proof {
                    assert(pumps_view(pumps@) =~= all.skip(0));
                }
                if pumps.len() > 0 {
                    while pumps.len() > 0
                        invariant
                            steady(popped, *self),
                            self.scopes == popped.scopes,
                            self.env == popped.env,
                            self.tasks == popped.tasks,
                            self.join_sets == popped.join_sets,
                            self.op_join_sets == popped.op_join_sets,
                            self.journal@ == after.journal@,
                            0 <= handed <= all.len(),
                            pumps_view(pumps@) == all.skip(handed),
                            (self.logger.log(), self.transcript@) == delivered_all(
                                after.logger.log(),
                                after.transcript@,
                                all,
                                handed,
                            ),
                        decreases pumps.len(),
                    {
                        let ghost waiting = pumps@;
                        let pump = pumps.remove(0);
                        proof {
                            assert(pumps_view(waiting).len() == waiting.len());
                            assert(all.skip(handed).len() == all.len() - handed);
                            assert(pumps_view(waiting)[0] == waiting[0]@);
                            assert(all[handed] == pump@);
                            assert(pumps_view(pumps@) =~= pumps_view(waiting).skip(1));
                            assert(all.skip(handed).skip(1) =~= all.skip(handed + 1));
                        }
                        self.deliver(host, pump);
                        proof {
                            handed = handed + 1;
                        }
                    }
                    proof {
                        assert(pumps_view(pumps@).len() == 0);
                        assert(handed == all.len());
                    }
                }
            },
            None => {},
        }
        r
    }

    /// A step: where the filter `path_task` lets the name pass, the task
    /// runs at once and once (see [`Interpreter::run_task`]), and its error
    /// is the error of the step. Where the filter does not let it pass,
    /// nothing happens.
    pub fn step<H: Host>(&mut self, host: &mut H, scope: usize, name: &str, body: &FnPtr, depth: usize) -> (r:
        Result<Value, PipelineError>)
        ensures
            extends(*old(self), *final(self)),
            binds_beside(*old(self), *final(self), scope),
            final(self).op_join_sets@ == old(self).op_join_sets@,
            !selected(old(self).filter("path_task"@), name@) ==> r == Ok::<Value, PipelineError>(
                Value::Immutable(Dynamic::Unit),
            ) && *final(self) == *old(self),
            sem_step(old(self).essence(), scope, name@, body@, depth as nat) matches Outcome::Settled(
                o,
                c,
            ) ==> agrees(r, o) && final(self).essence() == c,
            selected(old(self).filter("path_task"@), name@) ==> (if depth == 0 {
                r matches Err(PipelineError::BudgetExhausted) && *final(self) == *old(self)
            } else {
                Self::ran_task(*old(self), *final(self), scope, body@, r) && (r is Ok ==> Self::is_unit(r))
            }),
        decreases depth,
    {
        proof {
            reveal(sem_step);
            reveal(sem_run_task);
            assert(filter_of(self.essence(), "path_task"@) == self.filter("path_task"@));
        }
        if !self.passes("path_task", name) {
            return Ok(unit());
        }
        if depth == 0 {
            return Err(PipelineError::BudgetExhausted);
        }
        self.run_task(host, scope, name, body, depth - 1)?;
        Ok(unit())
    }

    /// Whether `after` is `before` with one pipeline run, whose body is
    /// `body` and whose result is `r`. The journal has one entry more, the
    /// entry of the pipeline. Inside it stands first the one call of the
    /// body and then, for every task that was taken from the join-set of
    /// the pipeline, the one call of the body of that task, in the order in
    /// which the tasks were taken, and nothing else. No task waited in the
    /// join-set when it was dropped, and unless the rounds were used up
    /// every task that waited when the body had ended, which are the tasks
    /// that the body submitted, was taken, in the order of submission. The
    /// result is the first failure of the body and the tasks: an error
    /// wherever the body or a task gave one.
    pub open spec fn ran_pipeline(
        before: Interpreter,
        after: Interpreter,
        scope: usize,
        name: Seq<char>,
        body: FnPtrView,
        r: Result<Value, PipelineError>,
    ) -> bool {
        &&& after.journal@.len() == before.journal@.len() + 1
        &&& after.journal@.drop_last() == before.journal@
        &&& after.journal@.last() matches Node::Pipeline { name: n, fault, inside, taken, dropped, left }
            && ({
            &&& n == name
            &&& fault == fault_in(r)
            &&& r is Ok ==> Self::is_unit(r)
            &&& inside.len() == taken.len() + 1
            &&& is_call_of(inside[0], body, scope)
            &&& forall|i: int|
                0 <= i < taken.len() ==> is_call_of(#[trigger] inside[i + 1], taken[i].body, taken[i].scope)
            &&& left == 0
            &&& fault == pipeline_failure(inside, dropped)
            &&& dropped == 0 ==> (inside[0] matches Node::Call { tasks, .. } && tasks.len() <= taken.len()
                && forall|i: int| 0 <= i < tasks.len() ==> taken[i] == #[trigger] tasks[i])
        })
    }

    /// A pipeline: where the filter `path_pipeline` lets the name pass, the
    /// body runs with a new join-set, and then every task that was
    /// submitted to the join-set runs, in the order of submission, tasks
    /// submitted meanwhile included. Then the join-set is dropped. The
    /// first failure, of the body or of a task, is the result; a failure of
    /// a task is a `SchedulerError` that names the task. Where the filter
    /// does not let the name pass, nothing happens.
    #[verifier::spinoff_prover]
    #[verifier::loop_isolation(false)]
    pub fn pipeline<H: Host>(&mut self, host: &mut H, scope: usize, name: &str, body: &FnPtr, depth: usize) -> (r:
        Result<Value, PipelineError>)
        ensures
            extends(*old(self), *final(self)),
            binds_beside(*old(self), *final(self), scope),
            final(self).join_sets@ == old(self).join_sets@,
            !selected(old(self).filter("path_pipeline"@), name@) ==> r == Ok::<Value, PipelineError>(
                Value::Immutable(Dynamic::Unit),
            ) && *final(self) == *old(self),
            sem_pipeline(old(self).essence(), scope, name@, body@, depth as nat) matches Outcome::Settled(
                o,
                c,
            ) ==> agrees(r, o) && final(self).essence() == c,
            selected(old(self).filter("path_pipeline"@), name@) ==> (if depth == 0 {
                r matches Err(PipelineError::BudgetExhausted) && *final(self) == *old(self)
            } else {
                Self::ran_pipeline(*old(self), *final(self), scope, name@, body@, r)
            }),
        decreases depth,
    {
        proof {
            reveal(sem_pipeline);
            reveal(sem_drain);
            assert(filter_of(self.essence(), "path_pipeline"@) == self.filter("path_pipeline"@));
        }
        if !self.passes("path_pipeline", name) {
            return Ok(unit());
        }
        if depth == 0 {
            return Err(PipelineError::BudgetExhausted);
        }
        let ghost saved = self.journal@;
        self.journal = Ghost(Seq::empty());
        self.join_sets.push(Vec::new());
        let ghost inside = *self;
        proof {
            assert(workers_view(Seq::<Worker>::empty()) =~= Seq::<WorkerView>::empty());
            assert(inside.essence().join_sets =~= old(self).essence().join_sets.push(Seq::empty()));
        }
        let none: Vec<(String, Value)> = Vec::new();
        proof {
            assert(props_view(none@) =~= Seq::<(Seq<char>, crate::v1::types::ValueView)>::empty());
        }
        let begun = self.call_pointer(host, scope, body, none, depth - 1);
        let ghost begun_fault = fault_in(begun);
        let mut failure: Option<PipelineError> = match begun {
            Ok(_) => None,
            Err(e) => Some(e),
        };
        proof {
            assert(self.journal@.drop_last() =~= Seq::<Node>::empty());
            assert(self.journal@.len() == 1);
            assert(node_fault(self.journal@[0]) == begun_fault);
            assert(first_failure(self.journal@, 0) is None);
            assert(first_failure(self.journal@, 1) == begun_fault);
            assert(crate::v1::semantics::fault_view(failure) == begun_fault);
        }
        let ghost joined_at = *self;
        let ghost first: Option<Fault> = crate::v1::semantics::fault_view(failure);
        let ghost mut taken: Seq<WorkerView> = Seq::empty();
        let ghost mut dropped: nat = 0;
        let ghost submitted = workers_view(self.join_sets@.last()@);
        proof {
            assert(taken + submitted =~= submitted);
        }
        let mut left = self.rounds;
        proof {
            assert forall|k: int| 0 <= k < old(self).join_sets@.len() implies self.join_sets@[k]
                == old(self).join_sets@[k] by {
                assert(inside.join_sets@[k] == old(self).join_sets@[k]);
            }
        }
        let mut pending = self.join_sets[self.join_sets.len() - 1].len();
        while pending > 0
            invariant
                self.join_sets@.len() == old(self).join_sets@.len() + 1,
                pending == self.join_sets@.last()@.len(),
                self.journal@.len() == taken.len() + 1,
                is_call_of(self.journal@[0], body@, scope),
                forall|i: int|
                    0 <= i < taken.len() ==> is_call_of(#[trigger] self.journal@[i + 1], taken[i].body, taken[i].scope),
                crate::v1::semantics::fault_view(failure) == pipeline_failure(self.journal@, dropped),
                dropped > 0 ==> pending == 0,
                self.journal@[0] matches Node::Call { tasks, .. } && tasks == submitted,
                dropped == 0 ==> grown(submitted, taken + workers_view(self.join_sets@.last()@)),
                old(self).scopes@.len() <= self.scopes@.len(),
                forall|k: int|
                    0 <= k < old(self).scopes@.len() && k != scope ==> self.scopes@[k] == #[trigger] old(
                        self,
                    ).scopes@[k],
                forall|i: int|
                    0 <= i < self.join_sets@.last()@.len() ==> (#[trigger] self.join_sets@.last()@[i]).scope
                        == scope || self.join_sets@.last()@[i].scope >= old(self).scopes@.len(),
                steady(*old(self), *self),
                kept_below(old(self).env@, self.env@),
                self.tasks@ == old(self).tasks@,
                joined(old(self).op_join_sets@, self.op_join_sets@),
                forall|k: int|
                    0 <= k < old(self).join_sets@.len() ==> self.join_sets@[k] == #[trigger] old(self).join_sets@[k],
                sem_drain(joined_at.essence(), first, joined_at.rounds as nat, depth as nat)
                    is Settled ==> sem_drain(
                    joined_at.essence(),
                    first,
                    joined_at.rounds as nat,
                    depth as nat,
                ) == sem_drain(
                    self.essence(),
                    crate::v1::semantics::fault_view(failure),
                    left as nat,
                    depth as nat,
                ),
            decreases left, pending,
        {
            let ghost round = *self;
            let mut set = match self.join_sets.pop() {
                Some(set) => set,
                None => Vec::new(),
            };
            if left == 0 {
                if failure.is_none() {
                    failure = Some(PipelineError::BudgetExhausted);
                }
                self.join_sets.push(Vec::new());
                proof {
                    dropped = pending as nat;
                }
                pending = 0;
                proof {
                    assert(workers_view(Seq::<Worker>::empty()) =~= Seq::<WorkerView>::empty());
                    assert(self.essence().join_sets =~= round.essence().join_sets.update(
                        round.essence().join_sets.len() - 1,
                        Seq::empty(),
                    ));
                }
            } else {
                left -= 1;
                let ghost whole = set@;
                let worker = set.remove(0);
                self.join_sets.push(set);
                let ghost before = *self;
                proof {
                    assert(workers_view(set@) =~= workers_view(whole).drop_first());
                    assert(before.essence().join_sets =~= round.essence().join_sets.update(
                        round.essence().join_sets.len() - 1,
                        round.essence().join_sets.last().drop_first(),
                    ));
                    assert(round.essence().join_sets.last()[0] == worker@);
                }
                let outcome = self.run_task(
                    host,
                    worker.scope,
                    worker.name.as_str(),
                    &worker.body,
                    depth - 1,
                );
                proof {
                    assert forall|k: int|
                        0 <= k < old(self).join_sets@.len() implies self.join_sets@[k] == old(self).join_sets@[k] by {
                        assert(before.join_sets@[k] == round.join_sets@[k]);
                    }
                    assert(worker.scope == scope || worker.scope >= old(self).scopes@.len()) by {
                        assert(round.join_sets@.last()@[0] == worker);
                    }
                    assert forall|k: int| 0 <= k < old(self).scopes@.len() && k != scope implies self.scopes@[k]
                        == #[trigger] old(self).scopes@[k] by {
                        assert(before.scopes@[k] == old(self).scopes@[k]);
                    }
                    assert forall|i: int| 0 <= i < self.join_sets@.last()@.len() implies (
                    #[trigger] self.join_sets@.last()@[i]).scope == scope || self.join_sets@.last()@[i].scope
                        >= old(self).scopes@.len() by {
                        let last = before.join_sets@.len() - 1;
                        assert(self.join_sets@.last() == self.join_sets@[last]);
                        if i < before.join_sets@[last]@.len() {
                            assert(self.join_sets@[last]@[i] == before.join_sets@[last]@[i]);
                            assert(before.join_sets@[last]@[i] == round.join_sets@.last()@[i + 1]);
                        } else {
                            assert(self.join_sets@[last]@[i].scope == worker.scope || self.join_sets@[last]@[i].scope
                                >= before.scopes@.len());
                        }
                    }
                    let earlier = taken;
                    taken = taken.push(worker@);
                    if dropped == 0 {
                        let waited = workers_view(round.join_sets@.last()@);
                        let rest = workers_view(before.join_sets@.last()@);
                        let now = workers_view(self.join_sets@.last()@);
                        assert(waited[0] == worker@);
                        assert(rest =~= waited.drop_first());
                        assert(earlier + waited =~= taken + rest);
                        assert forall|k: int| 0 <= k < submitted.len() implies (taken + now)[k]
                            == #[trigger] submitted[k] by {
                            assert((earlier + waited)[k] == submitted[k]);
                            if k >= taken.len() {
                                assert(before.join_sets@.last()@[k - taken.len()] == self.join_sets@.last()@[k
                                    - taken.len()]);
                            }
                        }
                    }
                    assert forall|i: int| 0 <= i < taken.len() implies is_call_of(
                        #[trigger] self.journal@[i + 1],
                        taken[i].body,
                        taken[i].scope,
                    ) by {
                        if i < earlier.len() {
                            assert(self.journal@.drop_last()[i + 1] == self.journal@[i + 1]);
                            assert(taken[i] == earlier[i]);
                        }
                    }
                    assert(self.journal@.drop_last()[0] == self.journal@[0]);
                    lemma_first_failure_same(
                        before.journal@,
                        self.journal@,
                        before.journal@.len() as int,
                    );
                }
                match outcome {
                    Ok(_) => {},
                    Err(e) => {
                        if failure.is_none() {
                            let mut text = String::from_str("task ");
                            text.append(worker.name.as_str());
                            text.append(" failed: ");
                            text.append(e.kind());
                            text.append(":");
                            text.append(e.detail().as_str());
                            failure = Some(PipelineError::SchedulerError(text));
                        }
                    },
                }
                pending = self.join_sets[self.join_sets.len() - 1].len();
            }
        }
        let ghost drained = *self;
        proof {
            if dropped == 0 {
                assert(taken + workers_view(self.join_sets@.last()@) =~= taken);
            }
        }
        self.join_sets.pop();
        self.journal = Ghost(
            saved.push(
                Node::Pipeline {
                    name: name@,
                    fault: crate::v1::semantics::fault_view(failure),
                    inside: self.journal@,
                    taken,
                    dropped,
                    left: drained.join_sets@.last()@.len() as nat,
                },
            ),
        );
        proof {
            assert(self.journal@.drop_last() =~= saved);
            assert(self.join_sets@ =~= old(self).join_sets@);
            assert(self.essence().join_sets =~= drained.essence().join_sets.drop_last());
        }
        match failure {
            Some(e) => Err(e),
            None => Ok(unit()),
        }
    }

    /// Writes the texts that display the values to the standard output,
    /// one behind the other, and a line end behind them where `line` is
    /// set. A value that names a cell which is not live gives
    /// `VariableUndefined`, and nothing is written.
    pub fn print<H: Host>(&mut self, host: &mut H, args: &Vec<Value>, line: bool) -> (r: Result<
        (),
        PipelineError,
    >)
        ensures
            Self::wrote_only(*old(self), *final(self)),
            r matches Err(e) ==> e is VariableUndefined && final(self).transcript@ == old(self).transcript@,
            r is Ok == all_live(old(self).essence(), array_view(args@)),
            r is Ok ==> final(self).transcript@ == old(self).transcript@.push(
                final(self).transcript@.last(),
            ),
            r is Ok ==> (crate::v1::semantics::printed(old(self).essence(), array_view(args@), line)
                matches Some(t) ==> final(self).transcript@.last() == t),
    {
        let mut text = String::new();
        let mut i: usize = 0;
        let ghost c = self.essence();
        let ghost views = array_view(args@);
        proof {
            lemma_array_view(args@);
        }
        while i < args.len()
            invariant
                i <= args.len(),
                *self == *old(self),
                c == self.essence(),
                views == array_view(args@),
                forall|k: int| 0 <= k < i ==> crate::v1::types::content(self.heap@, #[trigger] views[k])
                    is Some,
                crate::v1::semantics::joined(c, views, i as int) matches Some(t) ==> text@ == t,
                crate::v1::semantics::joined(c, views, args.len() as int) is Some
                    ==> crate::v1::semantics::joined(c, views, i as int) is Some,
            decreases args.len() - i,
        {
            proof {
                lemma_array_view(args@);
                Self::lemma_joined_front(c, views, i as int + 1, args.len() as int);
            }
            match self.heap.resolve(&args[i]) {
                Some(d) => {
                    let shown = display(d, &self.heap, host, DISPLAY_DEPTH);
                    text.append(shown.as_str());
                },
                None => {
                    proof {
                        assert(crate::v1::types::content(self.heap@, views[i as int]) is None);
                    }
                    return dropped();
                },
            }
            i += 1;
        }
        if line {
            text.append("\n");
        }
        self.emit(host, text.as_str());
        Ok(())
    }

    /// Where all of some values display without the host, so do the first
    /// of them.
    proof fn lemma_joined_front(c: Core, args: Seq<crate::v1::types::ValueView>, upto: int, all: int)
        requires
            0 <= upto <= all,
        ensures
            crate::v1::semantics::joined(c, args, all) is Some ==> crate::v1::semantics::joined(
                c,
                args,
                upto,
            ) is Some,
        decreases all - upto,
    {
        if upto < all {
            Self::lemma_joined_front(c, args, upto + 1, all);
        }
    }

}

} // verus!
