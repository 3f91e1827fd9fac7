//! The operations that a task asks of the host, and the kinds of tasks.

use vstd::prelude::*;
use vstd::string::StringExecFns;
use crate::text::same_str;

verus! {

/// An operation on the world outside the engine.
#[derive(Debug)]
pub enum OperationType {
    /// Run a command line.
    Cmd(String),
    /// Make a directory the workspace.
    Workspace(String),
    /// Move a file or directory: from, to.
    Move(String, String),
    /// Copy a file or directory: from, to.
    Copy(String, String),
    /// In a file, replace what a pattern matches: path, pattern, new text.
    Replace(String, String, String),
    /// An operation that the engine does not know, with its parameters.
    UnKnown(String, Vec<String>),
}

/// The number of parameters that the operation called `name` takes; `None`
/// for a name that is no operation.
pub open spec fn arity(name: Seq<char>) -> Option<int> {
    if name == "cmd"@ || name == "workspace"@ {
        Some(1)
    } else if name == "move"@ || name == "copy"@ {
        Some(2)
    } else if name == "replace"@ {
        Some(3)
    } else {
        None
    }
}

/// The operation called `name` with the parameters `p`. A name that is no
/// operation, and an operation with fewer parameters than it takes, is an
/// unknown operation.
pub open spec fn operation_of(name: Seq<char>, p: Seq<String>) -> OperationTypeView {
    match arity(name) {
        Some(n) => if p.len() >= n {
            if name == "cmd"@ {
                OperationTypeView::Cmd(p[0]@)
            } else if name == "workspace"@ {
                OperationTypeView::Workspace(p[0]@)
            } else if name == "move"@ {
                OperationTypeView::Move(p[0]@, p[1]@)
            } else if name == "copy"@ {
                OperationTypeView::Copy(p[0]@, p[1]@)
            } else {
                OperationTypeView::Replace(p[0]@, p[1]@, p[2]@)
            }
        } else {
            OperationTypeView::UnKnown(name, p)
        },
        None => OperationTypeView::UnKnown(name, p),
    }
}

pub enum OperationTypeView {
    Cmd(Seq<char>),
    Workspace(Seq<char>),
    Move(Seq<char>, Seq<char>),
    Copy(Seq<char>, Seq<char>),
    Replace(Seq<char>, Seq<char>, Seq<char>),
    UnKnown(Seq<char>, Seq<String>),
}

impl View for OperationType {
    type V = OperationTypeView;

    open spec fn view(&self) -> OperationTypeView {
        match self {
            OperationType::Cmd(a) => OperationTypeView::Cmd(a@),
            OperationType::Workspace(a) => OperationTypeView::Workspace(a@),
            OperationType::Move(a, b) => OperationTypeView::Move(a@, b@),
            OperationType::Copy(a, b) => OperationTypeView::Copy(a@, b@),
            OperationType::Replace(a, b, c) => OperationTypeView::Replace(a@, b@, c@),
            OperationType::UnKnown(a, p) => OperationTypeView::UnKnown(a@, p@),
        }
    }
}

impl OperationType {
    /// The operation called `s` with the parameters `p`.
    pub fn from_str(s: &str, p: Vec<String>) -> (op: Self)
        ensures
            op@ == operation_of(s@, p@),
    {
        if (same_str(s, "cmd") || same_str(s, "workspace")) && p.len() >= 1 {
            if same_str(s, "cmd") {
                OperationType::Cmd(p[0].clone())
            } else {
                OperationType::Workspace(p[0].clone())
            }
        } else if (same_str(s, "move") || same_str(s, "copy")) && p.len() >= 2 {
            if same_str(s, "move") {
                OperationType::Move(p[0].clone(), p[1].clone())
            } else {
                OperationType::Copy(p[0].clone(), p[1].clone())
            }
        } else if same_str(s, "replace") && p.len() >= 3 {
            OperationType::Replace(p[0].clone(), p[1].clone(), p[2].clone())
        } else {
            OperationType::UnKnown(String::from_str(s), p)
        }
    }
}

/// An operation of a task.
#[derive(Debug)]
pub struct Operation {
    op_type: OperationType,
}

impl View for Operation {
    type V = OperationTypeView;

    closed spec fn view(&self) -> OperationTypeView {
        self.op_type@
    }
}

impl Operation {
    /// The unknown operation without a name and without parameters.
    pub fn new() -> (op: Self)
        ensures
            op@ == OperationTypeView::UnKnown(Seq::<char>::empty(), Seq::<String>::empty()),
    {
        Self { op_type: OperationType::UnKnown(String::new(), Vec::new()) }
    }

    /// The operation called `s` with the parameters `p`.
    pub fn from_str(s: &str, p: Vec<String>) -> (op: Self)
        ensures
            op@ == operation_of(s@, p@),
    {
        Self { op_type: OperationType::from_str(s, p) }
    }

    /// What the operation is.
    pub fn get_type(&self) -> (t: &OperationType)
        ensures
            t@ == self@,
    {
        &self.op_type
    }
}

/// How a task runs: as a step, in order, or in parallel with the tasks
/// behind it.
#[derive(Debug, Clone, Copy, PartialEq, Eq, Structural)]
pub enum TaskType {
    Step,
    Parallel,
    UnDefine,
}

impl TaskType {
    /// The kind of task that the script calls `s`.
    pub fn from_str(s: &str) -> (t: Self)
        ensures
            t == (if s@ == "step"@ {
                TaskType::Step
            } else if s@ == "parallel"@ {
                TaskType::Parallel
            } else {
                TaskType::UnDefine
            }),
    {
        if same_str(s, "step") {
            TaskType::Step
        } else if same_str(s, "parallel") {
            TaskType::Parallel
        } else {
            TaskType::UnDefine
        }
    }
}

} // verus!
