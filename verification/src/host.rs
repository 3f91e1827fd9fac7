//! What the engine needs from its host: floating-point arithmetic, the
//! console, child processes and files. The engine calls the host and relies
//! on nothing about what comes back.

use vstd::prelude::*;
use crate::operation::Operation;
use crate::v1::expr::Op;

verus! {

/// How two floating-point numbers stand to each other.
#[derive(Debug, Clone, Copy, PartialEq, Eq, Structural)]
pub enum FloatOrder {
    Less,
    Equal,
    Greater,
    /// Neither is less than, equal to or greater than the other.
    Unordered,
}

/// What a command has written, line by line and still encoded, and the code
/// it ended with.
#[derive(Debug)]
pub struct CommandOutput {
    pub stdout: Vec<Vec<u8>>,
    pub stderr: Vec<Vec<u8>>,
    pub code: i32,
}

/// The capabilities of the host. A floating-point number is handed over as
/// the 64 bits that encode it; a failure is told as a text.
pub trait Host {
    /// The number that a decimal literal writes.
    fn float_parse(&mut self, literal: &str) -> u64;

    /// The floating-point number nearest to an integer.
    fn float_from_int(&mut self, value: i64) -> u64;

    /// The result of an arithmetic operator on two floating-point numbers.
    fn float_binary(&mut self, op: Op, lhs: u64, rhs: u64) -> u64;

    /// The order of two floating-point numbers.
    fn float_order(&mut self, lhs: u64, rhs: u64) -> FloatOrder;

    /// The text that displays a floating-point number.
    fn float_display(&mut self, value: u64) -> String;

    /// Writes text to the standard output.
    fn write(&mut self, text: &str);

    /// Reads a line from the standard input, with its line end.
    fn read_line(&mut self) -> String;

    /// Reads the next integer from the standard input.
    fn read_int(&mut self) -> Option<i64>;

    /// Reads the next floating-point number from the standard input.
    fn read_float(&mut self) -> Option<u64>;

    /// Reads the next word from the standard input.
    fn read_word(&mut self) -> Option<String>;

    /// Carries out a command, a copy or a move in the workspace, with the
    /// given variables in the environment of a command.
    fn execute(&mut self, operation: &Operation, workspace: &str, env: &Vec<(String, String)>) -> Result<
        CommandOutput,
        String,
    >;

    /// Whether a path exists.
    fn path_exists(&mut self, path: &str) -> bool;

    /// The text of a file in the workspace.
    fn read_file(&mut self, workspace: &str, path: &str) -> Result<String, String>;

    /// Writes a file in the workspace; the directories above it are made
    /// where they are missing.
    fn write_file(&mut self, workspace: &str, path: &str, text: &str) -> Result<(), String>;

    /// The text of a template of a layout.
    fn read_template(&mut self, layout: &str, template: &str) -> Result<String, String>;

    /// Makes a directory and the directories above it.
    fn create_dir_all(&mut self, path: &str) -> Result<(), String>;

    /// The source of the module called `name`: from the directory of the
    /// project or, where it is not there, from the packages of the user.
    fn load_module(&mut self, name: &str) -> Option<String>;
}

} // verus!
