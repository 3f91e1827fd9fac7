//! The engine: from the source of a script to its evaluation.

use vstd::prelude::*;
use vstd::string::StringExecFns;
use std::sync::Arc;
use crate::error::{fault_of, Fault, PipelineError};
use crate::host::Host;
use crate::module::{merged, std_functions, Class, Function, Module};
use crate::table::{contains, lemma_map_front, table_map};
use crate::text::{chars_of, string_from_chars};
use crate::v1::expr::Expr;
use crate::v1::interpreter::{extends, Interpreter};
use crate::v1::semantics::{
    agrees, result_view, sem_block, sem_expr, sem_stmt, FlowView, Outcome,
};
use crate::v1::grammar::{
    adopted, class_view, classes_view, keyed_view, renamed, ClassView, function_view, functions_view, g_expr, g_program, g_stmt, is_expr,
    is_flaw, is_stmt, methods_view, names_view, source_input, Input,
};
use crate::v1::lexer::Lexer;
use crate::v1::syntax::{declarations_view, expr_view, stmt_view, stmts_view, ExprView, StmtView};
use crate::v1::parser::{FnDef, PipelineParser};
use crate::v1::stmt::Stmt;
use crate::v1::types::Value;

verus! {

/// How deep evaluation may nest where nothing else is said: calls inside
/// calls, blocks inside blocks, expressions inside expressions. The
/// evaluator calls itself once for each level, and the stack of the machine
/// is finite: a script that nests deeper, such as a function that calls
/// itself without end, fails with `BudgetExhausted` and does not bring the
/// process down.
pub const DEPTH: usize = 3000;

/// How often the host is asked for the source of a module while one script
/// is compiled. A module is asked for once, so only a script that imports
/// more modules than this, the modules that its modules import included,
/// meets the bound; it is what shows that loading ends.
pub const IMPORTS: usize = 256;

/// The offset of the first `.` in a path, or its length where it has none.
pub open spec fn dot(path: Seq<char>, from: int) -> int
    decreases path.len() - from,
{
    if from < 0 || from >= path.len() {
        path.len() as int
    } else if path[from] == '.' {
        from
    } else {
        dot(path, from + 1)
    }
}

/// `part`, or `all` where the part is empty.
pub open spec fn or_all(part: Seq<char>) -> Seq<char> {
    if part.len() == 0 {
        "all"@
    } else {
        part
    }
}

/// The filters that a path of the form `pipeline.task` sets: the name of
/// the pipeline is what stands in front of the first `.`, the name of the
/// task what stands between the first `.` and the second; a name that is
/// missing or empty is `all`.
pub open spec fn filters_of(path: Seq<char>) -> (Seq<char>, Seq<char>) {
    let first = dot(path, 0);
    if first >= path.len() {
        (or_all(path), "all"@)
    } else {
        let second = dot(path, first + 1);
        (or_all(path.subrange(0, first)), or_all(path.subrange(first + 1, second)))
    }
}

fn find_dot(chars: &Vec<char>, from: usize) -> (at: usize)
    requires
        from <= chars.len(),
    ensures
        at == dot(chars@, from as int),
        from <= at <= chars.len(),
{
    let mut i = from;
    while i < chars.len() && chars[i] != '.'
        invariant
            from <= i <= chars.len(),
            dot(chars@, from as int) == dot(chars@, i as int),
        decreases chars.len() - i,
    {
        i += 1;
    }
    i
}

fn part_or_all(chars: &Vec<char>, from: usize, to: usize) -> (s: String)
    requires
        from <= to <= chars.len(),
    ensures
        s@ == or_all(chars@.subrange(from as int, to as int)),
{
    if from == to {
        String::from_str("all")
    } else {
        string_from_chars(chars, from, to)
    }
}

/// Splits a path of the form `pipeline.task` into the two filters.
pub fn split_path(path: &str) -> (r: (String, String))
    ensures
        (r.0@, r.1@) == filters_of(path@),
{
    let chars = chars_of(path);
    let first = find_dot(&chars, 0);
    if first >= chars.len() {
        assert(chars@.subrange(0, chars.len() as int) =~= chars@);
        (part_or_all(&chars, 0, chars.len()), String::from_str("all"))
    } else {
        let second = find_dot(&chars, first + 1);
        (part_or_all(&chars, 0, first), part_or_all(&chars, first + 1, second))
    }
}

/// Whether `r` is the error for the character `found` at the offset `at`
/// of the source, which starts no token.
pub open spec fn is_stray<T>(r: Result<T, PipelineError>, found: char, at: int) -> bool {
    r matches Err(PipelineError::UnexpectedChar(c, p)) && c == found && p.pos == at && p.span == 1
}

/// Whether the state `after` is the state `before` with the definitions
/// adopted that a script has made when the parser has read it to the input
/// `i`: its classes are known in the main module, a class of the script in
/// place of one of the same name, and its functions are entered in the main
/// module in the order of their definitions.
pub open spec fn adopts(before: Interpreter, after: Interpreter, i: Input) -> bool {
    &&& extends(before, after)
    &&& classes_view(after.main_module.classes()) == classes_view(
        before.main_module.classes(),
    ).union_prefer_right(renamed(i.classes))
    &&& methods_view(after.main_module.functions()) == adopted(
        methods_view(before.main_module.functions()),
        i.functions,
        i.functions.len() as int,
    )
}

/// Whether `r`, with the state `after`, is what the expression `e` gives in
/// the state `before`, and `e` is the expression `v` of the grammar.
pub open spec fn gives_expr(
    before: Interpreter,
    v: ExprView,
    e: Expr,
    r: Result<Value, PipelineError>,
    after: Interpreter,
) -> bool {
    &&& expr_view(e) == v
    &&& sem_expr(before.essence(), 0, e, DEPTH as nat) matches Outcome::Settled(o, c) ==> agrees(r, o)
        && after.essence() == c
}

/// Whether the result is the value with which statements have ended, or the
/// error with which they have failed.
pub open spec fn ends(r: Result<Value, PipelineError>, o: Result<FlowView, Fault>) -> bool {
    match o {
        Ok(flow) => r matches Ok(v) && v@ == result_view(flow),
        Err(f) => r matches Err(e) && fault_of(e) == f,
    }
}

/// As [`gives_expr`], of a statement.
pub open spec fn gives_stmt(
    before: Interpreter,
    v: StmtView,
    s: Stmt,
    r: Result<Value, PipelineError>,
    after: Interpreter,
) -> bool {
    &&& stmt_view(s) == v
    &&& sem_stmt(before.essence(), 0, s, DEPTH as nat) matches Outcome::Settled(o, c) ==> ends(r, o)
        && after.essence() == c
}

/// Whether `r`, with the state `after`, is what the statements `body` give
/// in the state `mid`, where `body` are the statements `stmts` of the
/// grammar and `mid` is the state `before` with the definitions of the
/// script adopted.
pub open spec fn gives_program(
    before: Interpreter,
    i: Input,
    stmts: Seq<StmtView>,
    body: Seq<Stmt>,
    mid: Interpreter,
    r: Result<Value, PipelineError>,
    after: Interpreter,
) -> bool {
    &&& stmts_view(body) == stmts
    &&& adopts(before, mid, i)
    &&& sem_block(mid.essence(), 0, body, DEPTH as nat) matches Outcome::Settled(o, c) ==> ends(r, o)
        && after.essence() == c
}

/// Whether `after` is `before` with the module `name` made known, the
/// source of which the parser has read to the input `i`: the module has the
/// functions that the source defines and no classes, and every other module
/// is the module that it was.
pub open spec fn knows_module(before: Interpreter, after: Interpreter, name: Seq<char>, i: Input) -> bool {
    &&& extends(before, after)
    &&& after.main_module == before.main_module
    &&& after.module_map().dom() == before.module_map().dom().insert(name)
    &&& forall|k: Seq<char>|
        k != name && before.module_map().contains_key(k) ==> #[trigger] after.module_map()[k]
            == before.module_map()[k]
    &&& after.module_map()[name].name() == name
    &&& after.module_map()[name].class_names() == Set::<Seq<char>>::empty()
    &&& methods_view(after.module_map()[name].functions()) == adopted(
        Map::empty(),
        i.functions,
        i.functions.len() as int,
    )
}

/// The place of the first name among `names`, from the place `from` on,
/// that is the name of no known module; the number of the names where
/// every one of them is known.
pub open spec fn first_unknown(names: Seq<Seq<char>>, known: Set<Seq<char>>, from: int) -> int
    decreases names.len() - from,
{
    if from < 0 || from >= names.len() {
        names.len() as int
    } else if !known.contains(names[from]) {
        from
    } else {
        first_unknown(names, known, from + 1)
    }
}

/// Whether every module that is known in `before` is known in `after`, and
/// is the module that it was.
pub open spec fn keeps_modules(before: Interpreter, after: Interpreter) -> bool {
    forall|k: Seq<char>| #[trigger]
        before.module_map().contains_key(k) ==> after.module_map().contains_key(k)
            && after.module_map()[k] == before.module_map()[k]
}

/// Classes with the same fields and the same methods are the same class to
/// the grammar but for their names.
proof fn lemma_same_class(a: Class, b: Class)
    requires
        a.method_map() == b.method_map(),
        a.fields@.len() == b.fields@.len(),
        forall|i: int|
            0 <= i < a.fields@.len() ==> (#[trigger] b.fields@[i]).name == a.fields@[i].name
                && b.fields@[i].declaration_type == a.fields@[i].declaration_type,
    ensures
        class_view(b) == (ClassView { name: b.name@, ..class_view(a) }),
{
    assert(declarations_view(a.fields@) =~= declarations_view(b.fields@));
}

/// The engine: a parser and an interpreter.
pub struct PipelineEngine {
    pub source: String,
    pub parser: PipelineParser,
    pub interpreter: Interpreter,
    pub fn_lib: Vec<Arc<FnDef>>,
}

impl PipelineEngine {
    /// The source that was compiled last.
    pub open spec fn source(&self) -> Seq<char> {
        self.source@
    }

    /// An engine with the module `std`, whose functions are those of the
    /// main module too.
    pub fn new_raw() -> (e: Self)
        ensures
            e.interpreter.main_module.functions() == std_functions(),
            e.interpreter.module_map().dom() == set!["std"@],
            e.interpreter.join_sets@.len() == 0,
    {
        let mut i = Interpreter::new();
        i.register_module("std", Module::with_std_module());
        let merged_in = i.merge_into_main_module("std");
        proof {
            assert(i.module_map().dom() =~= set!["std"@]);
            assert(merged(Map::<Seq<char>, Function>::empty(), std_functions()) =~= std_functions());
        }
        Self { parser: PipelineParser::new(), interpreter: i, source: String::new(), fn_lib: Vec::new() }
    }

    /// An engine as `new_raw` makes it, with the module `pipe` known, to be
    /// imported.
    pub fn default_with_pipeline() -> (e: Self)
        ensures
            e.interpreter.main_module.functions() == std_functions(),
            e.interpreter.module_map().contains_key("pipe"@),
            e.interpreter.module_map().contains_key("std"@),
    {
        let mut e = Self::new_raw();
        e.interpreter.register_module("pipe", Module::with_pipe_module());
        e
    }

    /// Replaces the interpreter.
    pub fn set_interpreter(&mut self, interpreter: Interpreter)
        ensures
            final(self).interpreter == interpreter,
            final(self).source() == old(self).source(),
    {
        self.interpreter = interpreter;
    }

    /// The functions that the script compiled last defines.
    pub fn get_fn_lib(&self) -> (lib: &Vec<Arc<FnDef>>)
        ensures
            *lib == self.fn_lib,
    {
        &self.fn_lib
    }

    pub fn set_source(&mut self, source: &str)
        ensures
            final(self).source() == source@,
            final(self).interpreter == old(self).interpreter,
    {
        self.source = String::from_str(source);
    }

    /// Makes a module known under its name.
    pub fn register_module(&mut self, module: Module)
        ensures
            final(self).interpreter.module_map() == old(self).interpreter.module_map().insert(
                module.name(),
                module,
            ),
            final(self).interpreter.main_module == old(self).interpreter.main_module,
    {
        let name = module.get_name();
        self.interpreter.register_module(name.as_str(), module);
    }

    /// Sets the filters of a run from a path of the form `pipeline.task`.
    pub fn set_path(&mut self, path: &str)
        ensures
            final(self).interpreter.setting("path_pipeline"@) == Some(filters_of(path@).0),
            final(self).interpreter.setting("path_task"@) == Some(filters_of(path@).1),
    {
        let (pipeline, task) = split_path(path);
        proof {
            reveal_strlit("path_pipeline");
            reveal_strlit("path_task");
            assert("path_pipeline"@.len() != "path_task"@.len());
        }
        self.interpreter.globals.set_value("path_pipeline", pipeline);
        self.interpreter.globals.set_value("path_task", task);
    }

    /// Gives the parser the tokens of a script.
    fn load(&mut self, script: &str) -> (r: Result<(), PipelineError>)
        ensures
            final(self).interpreter == old(self).interpreter,
            final(self).fn_lib == old(self).fn_lib,
            match source_input(script@, Map::empty()) {
                Ok(i) => r is Ok && final(self).parser.input() == i,
                Err((found, at)) => is_stray(r, found, at),
            },
    {
        self.source = String::from_str(script);
        let mut parser = PipelineParser::new();
        proof {
            assert(parser.input().functions =~= Seq::empty());
            assert(parser.input().imports =~= Seq::empty());
            assert(parser.input().classes =~= Map::empty());
        }
        parser.set_lexer(Lexer::from_script(script))?;
        self.parser = parser;
        Ok(())
    }

    /// Parses a script that is one expression: the expression that the
    /// grammar reads from the front of the tokens of the script.
    pub fn compile_expr(&mut self, script: &str) -> (r: Result<Expr, PipelineError>)
        ensures
            final(self).interpreter == old(self).interpreter,
            match source_input(script@, Map::empty()) {
                Ok(i) => is_expr(g_expr(i), r, final(self).parser.input()),
                Err((found, at)) => is_stray(r, found, at),
            },
    {
        self.load(script)?;
        self.parser.parse_expr()
    }

    /// Parses the first statement of a script.
    pub fn compile_stmt(&mut self, script: &str) -> (r: Result<Stmt, PipelineError>)
        ensures
            final(self).interpreter == old(self).interpreter,
            match source_input(script@, Map::empty()) {
                Ok(i) => is_stmt(g_stmt(i), r, final(self).parser.input()),
                Err((found, at)) => is_stray(r, found, at),
            },
    {
        self.load(script)?;
        self.parser.parse_stmt()
    }

    /// Makes the classes of the main module known to the parser, so that a
    /// script can define methods for them.
    fn announce(&mut self)
        ensures
            final(self).interpreter == old(self).interpreter,
            final(self).fn_lib == old(self).fn_lib,
            final(self).parser.input() == (Input {
                classes: old(self).parser.input().classes.union_prefer_right(
                    keyed_view(old(self).interpreter.main_module.classes()),
                ),
                ..old(self).parser.input()
            }),
    {
        let classes = self.interpreter.main_module.class_list();
        let ghost own = self.parser.input().classes;
        let mut i: usize = classes.len();
        proof {
            assert(table_map(classes@.subrange(i as int, classes.len() as int)) =~= Map::empty());
            assert(own.union_prefer_right(
                keyed_view(table_map(classes@.subrange(i as int, classes.len() as int))),
            ) =~= own);
        }
        while i > 0
            invariant
                i <= classes.len(),
                self.interpreter == old(self).interpreter,
                self.fn_lib == old(self).fn_lib,
                table_map(classes@) == old(self).interpreter.main_module.classes(),
                own == old(self).parser.input().classes,
                self.parser.input() == (Input {
                    classes: own.union_prefer_right(
                        keyed_view(table_map(classes@.subrange(i as int, classes.len() as int))),
                    ),
                    ..old(self).parser.input()
                }),
            decreases i,
        {
            i -= 1;
            let mut class = classes[i].1.duplicate();
            class.name = classes[i].0.clone();
            proof {
                let part = classes@.subrange(i as int, classes.len() as int);
                let behind = classes@.subrange(i + 1, classes.len() as int);
                assert(part.drop_first() =~= behind);
                lemma_map_front(part);
                lemma_same_class(classes@[i as int].1, class);
                assert(own.union_prefer_right(keyed_view(table_map(part))) =~= own.union_prefer_right(
                    keyed_view(table_map(behind)),
                ).insert(class.name@, class_view(class)));
            }
            self.parser.register_predefined_class(class);
        }
        proof {
            assert(classes@.subrange(0, classes.len() as int) =~= classes@);
        }
    }

    /// Enters in the main module the functions and classes that the parser
    /// has collected. A definition replaces one of the same name.
    fn adopt(&mut self)
        ensures
            extends(old(self).interpreter, final(self).interpreter),
            final(self).interpreter.module_map() == old(self).interpreter.module_map(),
            final(self).parser == old(self).parser,
            classes_view(final(self).interpreter.main_module.classes()) == classes_view(
                old(self).interpreter.main_module.classes(),
            ).union_prefer_right(renamed(old(self).parser.input().classes)),
            methods_view(final(self).interpreter.main_module.functions()) == adopted(
                methods_view(old(self).interpreter.main_module.functions()),
                old(self).parser.input().functions,
                old(self).parser.input().functions.len() as int,
            ),
    {
        proof {
            crate::v1::interpreter::lemma_extends_itself(old(self).interpreter);
        }
        let classes = self.parser.get_classes();
        let ghost own = classes_view(self.interpreter.main_module.classes());
        let mut i: usize = classes.len();
        proof {
            assert(table_map(classes@.subrange(i as int, classes.len() as int)) =~= Map::empty());
            assert(own.union_prefer_right(
                keyed_view(table_map(classes@.subrange(i as int, classes.len() as int))),
            ) =~= own);
        }
        while i > 0
            invariant
                i <= classes.len(),
                extends(old(self).interpreter, self.interpreter),
                self.interpreter.module_map() == old(self).interpreter.module_map(),
                self.interpreter.main_module.functions() == old(self).interpreter.main_module.functions(),
                self.parser == old(self).parser,
                table_map(classes@) == self.parser.known(),
                own == classes_view(old(self).interpreter.main_module.classes()),
                classes_view(self.interpreter.main_module.classes()) == own.union_prefer_right(
                    keyed_view(table_map(classes@.subrange(i as int, classes.len() as int))),
                ),
            decreases i,
        {
            i -= 1;
            let mut class = classes[i].1.duplicate();
            class.name = classes[i].0.clone();
            proof {
                let part = classes@.subrange(i as int, classes.len() as int);
                let behind = classes@.subrange(i + 1, classes.len() as int);
                assert(part.drop_first() =~= behind);
                lemma_map_front(part);
                lemma_same_class(classes@[i as int].1, class);
                assert(own.union_prefer_right(keyed_view(table_map(part))) =~= own.union_prefer_right(
                    keyed_view(table_map(behind)),
                ).insert(class.name@, class_view(class)));
                assert(classes_view(self.interpreter.main_module.classes().insert(class.name@, class))
                    =~= classes_view(self.interpreter.main_module.classes()).insert(
                    class.name@,
                    class_view(class),
                ));
            }
            self.interpreter.main_module.register_class(class);
        }
        proof {
            assert(classes@.subrange(0, classes.len() as int) =~= classes@);
        }
        let lib = self.parser.get_fn_lib();
        let ghost before = methods_view(self.interpreter.main_module.functions());
        let mut fn_lib: Vec<Arc<FnDef>> = Vec::new();
        let mut j: usize = 0;
        while j < lib.len()
            invariant
                j <= lib.len(),
                extends(old(self).interpreter, self.interpreter),
                self.interpreter.module_map() == old(self).interpreter.module_map(),
                self.parser == old(self).parser,
                lib@ == self.parser.collected(),
                before == methods_view(old(self).interpreter.main_module.functions()),
                classes_view(self.interpreter.main_module.classes()) == classes_view(
                    old(self).interpreter.main_module.classes(),
                ).union_prefer_right(renamed(old(self).parser.input().classes)),
                methods_view(self.interpreter.main_module.functions()) == adopted(
                    before,
                    functions_view(lib@),
                    j as int,
                ),
            decreases lib.len() - j,
        {
            let ghost functions = self.interpreter.main_module.functions();
            let shared = lib[j].clone();
            self.interpreter.main_module.register_script_function(lib[j].name.as_str(), shared);
            proof {
                assert(methods_view(functions.insert(lib@[j as int].name@, Function::Script(shared)))
                    =~= methods_view(functions).insert(
                    lib@[j as int].name@,
                    function_view(Function::Script(shared)),
                ));
            }
            fn_lib.push(lib[j].clone());
            j += 1;
        }
        self.fn_lib = fn_lib;
    }

    /// Makes the module `name` known, for which the host has given the
    /// source `source`, and gives the names of the modules that this module
    /// imports. The module has the functions that its source defines, a
    /// later definition in place of an earlier one of the same name, and no
    /// classes. Without a source nothing happens; a source that does not
    /// parse gives its error, and nothing changes.
    pub fn take_module(&mut self, name: &str, source: Option<String>) -> (r: Result<Vec<String>, PipelineError>)
        ensures
            final(self).parser == old(self).parser,
            final(self).fn_lib == old(self).fn_lib,
            final(self).source == old(self).source,
            match source {
                Some(text) => match source_input(text@, Map::empty()) {
                    Ok(start) => match g_program(start) {
                        Ok((_, i)) => r matches Ok(more) && names_view(more@) == i.imports && knows_module(
                            old(self).interpreter,
                            final(self).interpreter,
                            name@,
                            i,
                        ),
                        Err(f) => r matches Err(e) && is_flaw(e, f) && final(self).interpreter == old(self).interpreter,
                    },
                    Err((found, at)) => is_stray(r, found, at) && final(self).interpreter == old(self).interpreter,
                },
                None => r matches Ok(more) && more@.len() == 0 && final(self).interpreter == old(self).interpreter,
            },
    {
        let text = match source {
            Some(text) => text,
            None => {
                return Ok(Vec::new());
            },
        };
        let mut parser = PipelineParser::new();
        proof {
            assert(parser.input().functions =~= Seq::empty());
            assert(parser.input().imports =~= Seq::empty());
            assert(parser.input().classes =~= Map::empty());
        }
        parser.set_lexer(Lexer::from_script(text.as_str()))?;
        parser.compile_from_token_stream()?;
        let mut module = Module::new(name);
        let lib = parser.get_fn_lib();
        let mut i: usize = 0;
        proof {
            assert(methods_view(module.functions()) =~= Map::empty());
        }
        while i < lib.len()
            invariant
                i <= lib.len(),
                module.name() == name@,
                module.class_names() == Set::<Seq<char>>::empty(),
                methods_view(module.functions()) == adopted(Map::empty(), functions_view(lib@), i as int),
            decreases lib.len() - i,
        {
            let ghost functions = module.functions();
            let shared = lib[i].clone();
            module.register_script_function(lib[i].name.as_str(), shared);
            proof {
                assert(methods_view(functions.insert(lib@[i as int].name@, Function::Script(shared)))
                    =~= methods_view(functions).insert(
                    lib@[i as int].name@,
                    function_view(Function::Script(shared)),
                ));
            }
            i += 1;
        }
        let ghost before = self.interpreter.module_map();
        self.interpreter.register_module(name, module);
        proof {
            assert(self.interpreter.module_map().dom() =~= before.dom().insert(name@));
        }
        let imports = parser.get_imports();
        let mut more: Vec<String> = Vec::new();
        let mut k: usize = 0;
        while k < imports.len()
            invariant
                k <= imports.len(),
                more.len() == k,
                forall|j: int| 0 <= j < k ==> (#[trigger] more@[j])@ == imports@[j]@,
            decreases imports.len() - k,
        {
            more.push(imports[k].clone());
            k += 1;
        }
        proof {
            assert(names_view(more@) =~= names_view(imports@));
        }
        Ok(more)
    }

    /// Takes from the front of `waiting` the names of modules that are
    /// known, and the first name behind them, which is the module to load
    /// next. Where every name is the name of a known module, none is left
    /// and there is nothing to load.
    pub fn next_unknown(&self, waiting: &mut Vec<String>) -> (r: Option<String>)
        ensures
            ({
                let names = names_view(old(waiting)@);
                let at = first_unknown(names, self.interpreter.module_map().dom(), 0);
                match r {
                    Some(name) => at < names.len() && name@ == names[at] && names_view(final(waiting)@)
                        == names.skip(at + 1) && !self.interpreter.module_map().contains_key(name@),
                    None => at == names.len() && final(waiting)@.len() == 0,
                }
            }),
    {
        let ghost names = names_view(waiting@);
        let ghost known = self.interpreter.module_map().dom();
        let ghost mut taken: int = 0;
        proof {
            assert(names.skip(0) =~= names);
        }
        while waiting.len() > 0
            invariant
                names == names_view(old(waiting)@),
                known == self.interpreter.module_map().dom(),
                0 <= taken <= names.len(),
                names_view(waiting@) == names.skip(taken),
                first_unknown(names, known, 0) == first_unknown(names, known, taken),
            decreases waiting.len(),
        {
            let ghost before = waiting@;
            let name = waiting.remove(0);
            proof {
                assert(names_view(before).len() == before.len());
                assert(names.skip(taken).len() == names.len() - taken);
                assert(names.skip(taken)[0] == names[taken]);
                assert(names_view(before)[0] == before[0]@);
                assert(waiting@ == before.remove(0));
                assert(names_view(waiting@) =~= names_view(before).skip(1));
                assert(names.skip(taken).skip(1) =~= names.skip(taken + 1));
            }
            if !contains(&self.interpreter.modules, name.as_str()) {
                return Some(name);
            }
            proof {
                taken = taken + 1;
            }
        }
        None
    }

    /// Loads the modules that a script imports, and the modules that those
    /// import. The host is asked for the source of the next module that is
    /// not known yet: see [`PipelineEngine::next_unknown`]. A module that
    /// the host does not find is skipped, so that importing it fails when
    /// the script runs; a module that is found is made known, and the
    /// modules that it imports wait behind the others: see
    /// [`PipelineEngine::take_module`]. A module that is known already
    /// stays as it is. The host is asked `IMPORTS` times at most.
    fn load_imports<H: Host>(&mut self, host: &mut H, names: Vec<String>) -> (r: Result<(), PipelineError>)
        ensures
            extends(old(self).interpreter, final(self).interpreter),
            final(self).interpreter.main_module == old(self).interpreter.main_module,
            final(self).parser == old(self).parser,
            r matches Err(e) ==> e is UnexpectedChar || crate::v1::parser::is_parse_error(e) || e
                is BudgetExhausted,
            first_unknown(names_view(names@), old(self).interpreter.module_map().dom(), 0) == names.len()
                ==> r is Ok && final(self).interpreter == old(self).interpreter,
            keeps_modules(old(self).interpreter, final(self).interpreter),
    {
        proof {
            crate::v1::interpreter::lemma_extends_itself(old(self).interpreter);
        }
        let mut waiting = names;
        let mut left: usize = IMPORTS;
        let ghost mut asked = false;
        loop
            invariant
                extends(old(self).interpreter, self.interpreter),
                self.interpreter.main_module == old(self).interpreter.main_module,
                self.parser == old(self).parser,
                keeps_modules(old(self).interpreter, self.interpreter),
                !asked ==> self.interpreter == old(self).interpreter && waiting@ == names@,
                asked ==> first_unknown(
                    names_view(names@),
                    old(self).interpreter.module_map().dom(),
                    0,
                ) < names.len(),
            decreases left,
        {
            let name = match self.next_unknown(&mut waiting) {
                Some(name) => name,
                None => {
                    return Ok(());
                },
            };
            proof {
                asked = true;
            }
            if left == 0 {
                return Err(PipelineError::BudgetExhausted);
            }
            left -= 1;
            let ghost before = self.interpreter;
            let source = host.load_module(name.as_str());
            let mut more = self.take_module(name.as_str(), source)?;
            proof {
                assert(extends(before, self.interpreter));
            }
            waiting.append(&mut more);
        }
    }

    /// Compiles a script: parses it with the classes of the main module
    /// known, enters the functions and classes that it defines in the main
    /// module, loads the modules that it imports, and gives its statements.
    /// A script that does not parse changes nothing. Loading the modules is
    /// the host's part, and it may fail; a script that imports nothing but
    /// modules that are known, such as `pipe`, compiles wherever it parses,
    /// and the host is not asked.
    #[verifier::spinoff_prover]
    #[verifier::rlimit(40)]
    pub fn compile_stmt_blocks<H: Host>(&mut self, host: &mut H, script: &str) -> (r: Result<
        Vec<Stmt>,
        PipelineError,
    >)
        ensures
            extends(old(self).interpreter, final(self).interpreter),
            r matches Err(e) ==> e is UnexpectedChar || crate::v1::parser::is_parse_error(e) || e
                is BudgetExhausted,
            match source_input(script@, keyed_view(old(self).interpreter.main_module.classes())) {
                Ok(start) => match g_program(start) {
                    Ok((stmts, i)) => {
                        &&& r matches Ok(body) ==> stmts_view(body@) == stmts
                        &&& first_unknown(i.imports, old(self).interpreter.module_map().dom(), 0)
                            == i.imports.len() ==> r is Ok
                        &&& final(self).parser.input() == i
                        &&& adopts(old(self).interpreter, final(self).interpreter, i)
                    },
                    Err(f) => r matches Err(e) && is_flaw(e, f) && final(self).interpreter == old(self).interpreter,
                },
                Err((found, at)) => is_stray(r, found, at) && final(self).interpreter == old(self).interpreter,
            },
    {
        proof {
            crate::v1::interpreter::lemma_extends_itself(old(self).interpreter);
        }
        self.load(script)?;
        self.announce();
        proof {
            assert(self.parser.input().classes =~= keyed_view(
                old(self).interpreter.main_module.classes(),
            ));
        }
        let ast = self.parser.compile_from_token_stream()?;
        self.adopt();
        let ghost mid = self.interpreter;
        let ghost read = self.parser;
        let mut names: Vec<String> = Vec::new();
        let imports = self.parser.get_imports();
        let mut k: usize = 0;
        while k < imports.len()
            invariant
                k <= imports.len(),
                self.interpreter == mid,
                self.parser == read,
                names.len() == k,
                forall|j: int| 0 <= j < k ==> (#[trigger] names@[j])@ == imports@[j]@,
            decreases imports.len() - k,
        {
            names.push(imports[k].clone());
            k += 1;
        }
        proof {
            assert(names_view(names@) =~= names_view(imports@));
        }
        self.load_imports(host, names)?;
        Ok(ast.body)
    }

    /// Evaluates statements in the scope of the program, to the depth
    /// `DEPTH`: see [`sem_block`] for what that gives. The result is the
    /// value that the last statement gave, or that `return` handed out.
    pub fn eval_stmt_blocks_from_ast<H: Host>(&mut self, host: &mut H, stmts: &Vec<Stmt>) -> (r: Result<
        Value,
        PipelineError,
    >)
        ensures
            extends(old(self).interpreter, final(self).interpreter),
            sem_block(old(self).interpreter.essence(), 0, stmts@, DEPTH as nat) matches Outcome::Settled(
                o,
                c,
            ) ==> final(self).interpreter.essence() == c && (match o {
                Ok(flow) => r matches Ok(v) && v@ == result_view(flow),
                Err(f) => r matches Err(e) && crate::error::fault_of(e) == f,
            }),
    {
        let flow = self.interpreter.eval_block(host, 0, stmts, DEPTH)?;
        Ok(Interpreter::result_of(flow))
    }

    /// Evaluates a statement in the scope of the program, to the depth
    /// `DEPTH`: see [`sem_stmt`] for what that gives.
    pub fn eval_stmt_from_ast<H: Host>(&mut self, host: &mut H, stmt: &Stmt) -> (r: Result<
        Value,
        PipelineError,
    >)
        ensures
            extends(old(self).interpreter, final(self).interpreter),
            sem_stmt(old(self).interpreter.essence(), 0, *stmt, DEPTH as nat) matches Outcome::Settled(
                o,
                c,
            ) ==> final(self).interpreter.essence() == c && (match o {
                Ok(flow) => r matches Ok(v) && v@ == result_view(flow),
                Err(f) => r matches Err(e) && crate::error::fault_of(e) == f,
            }),
    {
        let flow = self.interpreter.eval_stmt(host, stmt, DEPTH)?;
        Ok(Interpreter::result_of(flow))
    }

    /// Evaluates an expression in the scope of the program, to the depth
    /// `DEPTH`: see [`sem_expr`] for what that gives.
    pub fn eval_expr_from_ast<H: Host>(&mut self, host: &mut H, expr: &Expr) -> (r: Result<
        Value,
        PipelineError,
    >)
        ensures
            extends(old(self).interpreter, final(self).interpreter),
            sem_expr(old(self).interpreter.essence(), 0, *expr, DEPTH as nat) matches Outcome::Settled(
                o,
                c,
            ) ==> agrees(r, o) && final(self).interpreter.essence() == c,
    {
        self.interpreter.eval_expr(host, 0, expr, DEPTH)
    }

    /// Parses a script that is one expression, and evaluates it: the error
    /// of a script that is no expression, with nothing changed, or what the
    /// expression gives.
    pub fn eval_expr<H: Host>(&mut self, host: &mut H, script: &str) -> (r: Result<Value, PipelineError>)
        ensures
            extends(old(self).interpreter, final(self).interpreter),
            match source_input(script@, Map::empty()) {
                Ok(i) => match g_expr(i) {
                    Ok((v, _)) => exists|e: Expr|
                        gives_expr(old(self).interpreter, v, e, r, final(self).interpreter),
                    Err(f) => r matches Err(e) && is_flaw(e, f) && final(self).interpreter == old(self).interpreter,
                },
                Err((found, at)) => is_stray(r, found, at) && final(self).interpreter == old(self).interpreter,
            },
    {
        proof {
            crate::v1::interpreter::lemma_extends_itself(old(self).interpreter);
        }
        let expr = self.compile_expr(script)?;
        let r = self.eval_expr_from_ast(host, &expr);
        proof {
            let v = g_expr(source_input(script@, Map::empty())->Ok_0)->Ok_0.0;
            assert(gives_expr(old(self).interpreter, v, expr, r, self.interpreter));
        }
        r
    }

    /// Parses the first statement of a script, and evaluates it: the error
    /// of a script that starts with no statement, with nothing changed, or
    /// what the statement gives.
    pub fn eval_stmt<H: Host>(&mut self, host: &mut H, script: &str) -> (r: Result<Value, PipelineError>)
        ensures
            extends(old(self).interpreter, final(self).interpreter),
            match source_input(script@, Map::empty()) {
                Ok(i) => match g_stmt(i) {
                    Ok((v, _)) => exists|s: Stmt|
                        gives_stmt(old(self).interpreter, v, s, r, final(self).interpreter),
                    Err(f) => r matches Err(e) && is_flaw(e, f) && final(self).interpreter == old(self).interpreter,
                },
                Err((found, at)) => is_stray(r, found, at) && final(self).interpreter == old(self).interpreter,
            },
    {
        proof {
            crate::v1::interpreter::lemma_extends_itself(old(self).interpreter);
        }
        let stmt = self.compile_stmt(script)?;
        let r = self.eval_stmt_from_ast(host, &stmt);
        proof {
            let v = g_stmt(source_input(script@, Map::empty())->Ok_0)->Ok_0.0;
            assert(gives_stmt(old(self).interpreter, v, stmt, r, self.interpreter));
        }
        r
    }

    /// Compiles a script and evaluates its statements: the error of a
    /// script that does not parse, with nothing changed, or, for a script
    /// that imports nothing but modules that are known, what its statements
    /// give once its definitions are adopted. Where a module that is not
    /// known is imported the host has a say in whether the script compiles.
    pub fn eval_stmt_blocks<H: Host>(&mut self, host: &mut H, script: &str) -> (r: Result<
        Value,
        PipelineError,
    >)
        ensures
            extends(old(self).interpreter, final(self).interpreter),
            match source_input(script@, keyed_view(old(self).interpreter.main_module.classes())) {
                Ok(start) => match g_program(start) {
                    Ok((stmts, i)) => first_unknown(i.imports, old(self).interpreter.module_map().dom(), 0)
                        == i.imports.len() ==> exists|body: Seq<Stmt>, mid: Interpreter|
                        gives_program(
                            old(self).interpreter,
                            i,
                            stmts,
                            body,
                            mid,
                            r,
                            final(self).interpreter,
                        ),
                    Err(f) => r matches Err(e) && is_flaw(e, f) && final(self).interpreter == old(self).interpreter,
                },
                Err((found, at)) => is_stray(r, found, at) && final(self).interpreter == old(self).interpreter,
            },
    {
        let stmts = self.compile_stmt_blocks(host, script)?;
        let ghost mid = self.interpreter;
        let r = self.eval_stmt_blocks_from_ast(host, &stmts);
        proof {
            let start = source_input(script@, keyed_view(old(self).interpreter.main_module.classes()))->Ok_0;
            let read = g_program(start)->Ok_0;
            if first_unknown(read.1.imports, old(self).interpreter.module_map().dom(), 0)
                == read.1.imports.len() {
                assert(gives_program(old(self).interpreter, read.1, read.0, stmts@, mid, r, self.interpreter));
            }
        }
        r
    }
}

} // verus!
