//! The errors of lexing, parsing and evaluation.

use vstd::prelude::*;
use vstd::string::StringExecFns;
use crate::v1::position::Position;
use crate::v1::token::Token;

verus! {

pub type PipelineResult<T> = Result<T, PipelineError>;

#[derive(Debug, Clone, PartialEq)]
pub enum PipelineError {
    /// A call names a function that no module in scope defines.
    FunctionUndefined(String),
    /// A name is read or assigned that no scope binds.
    VariableUndefined(String),
    /// A value of the named kind was required.
    ExpectedType(String),
    /// A value of the named kind cannot be used here.
    UnexpectedType(String),
    /// The parser met a token that no rule accepts at this place.
    UnexpectedToken(Token),
    /// A reserved word stands where it has no meaning.
    UnusedKeyword(String),
    /// No module of this name is registered.
    UnknownModule(String),
    /// An operator was applied to kinds of values it is not defined for.
    UndefinedOperation(String),
    /// The lexer met a character that starts no token.
    UnexpectedChar(char, Position),
    /// The host failed to carry out an operation.
    HostError(String),
    /// A worker that was joined had failed.
    SchedulerError(String),
    /// Evaluation used up the step budget it was given.
    BudgetExhausted,
}


/// The kinds of errors.
#[derive(Debug, Clone, Copy, PartialEq, Eq, Structural)]
pub enum Fault {
    FunctionUndefined,
    VariableUndefined,
    ExpectedType,
    UnexpectedType,
    UnexpectedToken,
    UnusedKeyword,
    UnknownModule,
    UndefinedOperation,
    UnexpectedChar,
    HostError,
    SchedulerError,
    BudgetExhausted,
}

/// The kind of an error.
pub open spec fn fault_of(e: PipelineError) -> Fault {
    match e {
        PipelineError::FunctionUndefined(_) => Fault::FunctionUndefined,
        PipelineError::VariableUndefined(_) => Fault::VariableUndefined,
        PipelineError::ExpectedType(_) => Fault::ExpectedType,
        PipelineError::UnexpectedType(_) => Fault::UnexpectedType,
        PipelineError::UnexpectedToken(_) => Fault::UnexpectedToken,
        PipelineError::UnusedKeyword(_) => Fault::UnusedKeyword,
        PipelineError::UnknownModule(_) => Fault::UnknownModule,
        PipelineError::UndefinedOperation(_) => Fault::UndefinedOperation,
        PipelineError::UnexpectedChar(_, _) => Fault::UnexpectedChar,
        PipelineError::HostError(_) => Fault::HostError,
        PipelineError::SchedulerError(_) => Fault::SchedulerError,
        PipelineError::BudgetExhausted => Fault::BudgetExhausted,
    }
}

/// The name of the kind of an error.
pub open spec fn kind_of(e: PipelineError) -> Seq<char> {
    match e {
        PipelineError::FunctionUndefined(_) => "FunctionUndefined"@,
        PipelineError::VariableUndefined(_) => "VariableUndefined"@,
        PipelineError::ExpectedType(_) => "ExpectedType"@,
        PipelineError::UnexpectedType(_) => "UnexpectedType"@,
        PipelineError::UnexpectedToken(_) => "UnexpectedToken"@,
        PipelineError::UnusedKeyword(_) => "UnusedKeyword"@,
        PipelineError::UnknownModule(_) => "UnknownModule"@,
        PipelineError::UndefinedOperation(_) => "UndefinedOperation"@,
        PipelineError::UnexpectedChar(_, _) => "UnexpectedChar"@,
        PipelineError::HostError(_) => "HostError"@,
        PipelineError::SchedulerError(_) => "SchedulerError"@,
        PipelineError::BudgetExhausted => "BudgetExhausted"@,
    }
}

/// What an error is about: the name, kind or message that it carries.
pub open spec fn detail_of(e: PipelineError) -> Seq<char> {
    match e {
        PipelineError::FunctionUndefined(s) => s@,
        PipelineError::VariableUndefined(s) => s@,
        PipelineError::ExpectedType(s) => s@,
        PipelineError::UnexpectedType(s) => s@,
        PipelineError::UnexpectedToken(t) => t@.text,
        PipelineError::UnusedKeyword(s) => s@,
        PipelineError::UnknownModule(s) => s@,
        PipelineError::UndefinedOperation(s) => s@,
        PipelineError::UnexpectedChar(c, _) => seq![c],
        PipelineError::HostError(s) => s@,
        PipelineError::SchedulerError(s) => s@,
        PipelineError::BudgetExhausted => Seq::empty(),
    }
}

/// The line that presents an error: `[Error]:<kind>:<detail>`, in red.
pub open spec fn presented(e: PipelineError) -> Seq<char> {
    "\x1b[31m[Error]:"@ + kind_of(e) + ":"@ + detail_of(e) + "\x1b[0m"@
}

impl PipelineError {
    /// The kind of the error.
    pub fn fault(&self) -> (f: Fault)
        ensures
            f == fault_of(*self),
    {
        match self {
            PipelineError::FunctionUndefined(_) => Fault::FunctionUndefined,
            PipelineError::VariableUndefined(_) => Fault::VariableUndefined,
            PipelineError::ExpectedType(_) => Fault::ExpectedType,
            PipelineError::UnexpectedType(_) => Fault::UnexpectedType,
            PipelineError::UnexpectedToken(_) => Fault::UnexpectedToken,
            PipelineError::UnusedKeyword(_) => Fault::UnusedKeyword,
            PipelineError::UnknownModule(_) => Fault::UnknownModule,
            PipelineError::UndefinedOperation(_) => Fault::UndefinedOperation,
            PipelineError::UnexpectedChar(_, _) => Fault::UnexpectedChar,
            PipelineError::HostError(_) => Fault::HostError,
            PipelineError::SchedulerError(_) => Fault::SchedulerError,
            PipelineError::BudgetExhausted => Fault::BudgetExhausted,
        }
    }

    /// The name of the kind of the error.
    pub fn kind(&self) -> (s: &'static str)
        ensures
            s@ == kind_of(*self),
    {
        match self {
            PipelineError::FunctionUndefined(_) => "FunctionUndefined",
            PipelineError::VariableUndefined(_) => "VariableUndefined",
            PipelineError::ExpectedType(_) => "ExpectedType",
            PipelineError::UnexpectedType(_) => "UnexpectedType",
            PipelineError::UnexpectedToken(_) => "UnexpectedToken",
            PipelineError::UnusedKeyword(_) => "UnusedKeyword",
            PipelineError::UnknownModule(_) => "UnknownModule",
            PipelineError::UndefinedOperation(_) => "UndefinedOperation",
            PipelineError::UnexpectedChar(_, _) => "UnexpectedChar",
            PipelineError::HostError(_) => "HostError",
            PipelineError::SchedulerError(_) => "SchedulerError",
            PipelineError::BudgetExhausted => "BudgetExhausted",
        }
    }

    /// What the error is about.
    pub fn detail(&self) -> (s: String)
        ensures
            s@ == detail_of(*self),
    {
        match self {
            PipelineError::FunctionUndefined(s) => s.clone(),
            PipelineError::VariableUndefined(s) => s.clone(),
            PipelineError::ExpectedType(s) => s.clone(),
            PipelineError::UnexpectedType(s) => s.clone(),
            PipelineError::UnexpectedToken(t) => match t {
                Token::String(s) => s.clone(),
                Token::Float(s) => s.clone(),
                Token::Identifier(s) => s.clone(),
                Token::Keyword(s) => s.clone(),
                _ => String::new(),
            },
            PipelineError::UnusedKeyword(s) => s.clone(),
            PipelineError::UnknownModule(s) => s.clone(),
            PipelineError::UndefinedOperation(s) => s.clone(),
            PipelineError::UnexpectedChar(c, _) => {
                let mut s = String::new();
                crate::text::push_char(&mut s, *c);
                assert(s@ =~= seq![*c]);
                s
            },
            PipelineError::HostError(s) => s.clone(),
            PipelineError::SchedulerError(s) => s.clone(),
            PipelineError::BudgetExhausted => String::new(),
        }
    }

    /// The position that the error carries.
    pub fn position(&self) -> (p: Option<Position>)
        ensures
            p == (match *self {
                PipelineError::UnexpectedChar(_, at) => Some(at),
                _ => None::<Position>,
            }),
    {
        match self {
            PipelineError::UnexpectedChar(_, at) => Some(*at),
            _ => None,
        }
    }

    /// The line that presents the error.
    pub fn present(&self) -> (s: String)
        ensures
            s@ == presented(*self),
    {
        let mut s = String::from_str("\x1b[31m[Error]:");
        s.append(self.kind());
        s.append(":");
        s.append(self.detail().as_str());
        s.append("\x1b[0m");
        assert(s@ =~= presented(*self));
        s
    }
}

} // verus!
