use pipeline::engine::PipelineEngine;
use pipeline::error::PipelineError;
use pipeline::host::{CommandOutput, FloatOrder, Host};
use pipeline::module::Module;
use pipeline::operation::{Operation, OperationType};
use pipeline::v1::expr::Op;
use pipeline::v1::interpreter::{Interpreter, Pump};
use pipeline::v1::types::{Dynamic, Value};

/// A host that keeps what is written, answers from prepared input and
/// remembers the operations it was asked for.
struct Recorder {
    written: String,
    input: Vec<String>,
    operations: Vec<String>,
    modules: Vec<(String, String)>,
    files: Vec<(String, String)>,
    templates: Vec<(String, String)>,
}

impl Recorder {
    fn new() -> Self {
        Recorder {
            written: String::new(),
            input: Vec::new(),
            operations: Vec::new(),
            modules: Vec::new(),
            files: Vec::new(),
            templates: Vec::new(),
        }
    }
}

impl Host for Recorder {
    fn float_parse(&mut self, literal: &str) -> u64 {
        literal.parse::<f64>().unwrap_or(f64::NAN).to_bits()
    }

    fn float_from_int(&mut self, value: i64) -> u64 {
        (value as f64).to_bits()
    }

    fn float_binary(&mut self, op: Op, lhs: u64, rhs: u64) -> u64 {
        let (a, b) = (f64::from_bits(lhs), f64::from_bits(rhs));
        let r = match op {
            Op::Plus => a + b,
            Op::Minus => a - b,
            Op::Mul => a * b,
            Op::Div => a / b,
            Op::Mod => a % b,
            _ => f64::NAN,
        };
        r.to_bits()
    }

    fn float_order(&mut self, lhs: u64, rhs: u64) -> FloatOrder {
        let (a, b) = (f64::from_bits(lhs), f64::from_bits(rhs));
        if a < b {
            FloatOrder::Less
        } else if a > b {
            FloatOrder::Greater
        } else if a == b {
            FloatOrder::Equal
        } else {
            FloatOrder::Unordered
        }
    }

    fn float_display(&mut self, value: u64) -> String {
        format!("{}", f64::from_bits(value))
    }

    fn write(&mut self, text: &str) {
        self.written.push_str(text);
    }

    fn read_line(&mut self) -> String {
        if self.input.is_empty() {
            String::new()
        } else {
            self.input.remove(0)
        }
    }

    fn read_int(&mut self) -> Option<i64> {
        if self.input.is_empty() {
            None
        } else {
            self.input.remove(0).trim().parse().ok()
        }
    }

    fn read_float(&mut self) -> Option<u64> {
        if self.input.is_empty() {
            None
        } else {
            self.input.remove(0).trim().parse::<f64>().ok().map(|f| f.to_bits())
        }
    }

    fn read_word(&mut self) -> Option<String> {
        if self.input.is_empty() {
            None
        } else {
            Some(self.input.remove(0))
        }
    }

    fn execute(
        &mut self,
        operation: &Operation,
        workspace: &str,
        env: &Vec<(String, String)>,
    ) -> Result<CommandOutput, String> {
        let vars: Vec<String> = env.iter().map(|(k, v)| format!("{}={}", k, v)).collect();
        match operation.get_type() {
            OperationType::Cmd(c) => {
                self.operations.push(format!("cmd {} in {} with [{}]", c, workspace, vars.join(",")));
                if c == "fail" {
                    return Err("the command could not be started".to_string());
                }
                Ok(CommandOutput {
                    stdout: vec![format!("ran {}", c).into_bytes()],
                    stderr: Vec::new(),
                    code: 0,
                })
            }
            OperationType::Copy(a, b) => {
                self.operations.push(format!("copy {} {}", a, b));
                Ok(CommandOutput { stdout: Vec::new(), stderr: Vec::new(), code: 0 })
            }
            OperationType::Move(a, b) => {
                self.operations.push(format!("move {} {}", a, b));
                Ok(CommandOutput { stdout: Vec::new(), stderr: Vec::new(), code: 0 })
            }
            _ => Err("unknown operation".to_string()),
        }
    }

    fn path_exists(&mut self, path: &str) -> bool {
        path != "missing"
    }

    fn read_file(&mut self, _workspace: &str, path: &str) -> Result<String, String> {
        match self.files.iter().find(|(p, _)| p == path) {
            Some((_, text)) => Ok(text.clone()),
            None => Err(format!("no file {}", path)),
        }
    }

    fn write_file(&mut self, _workspace: &str, path: &str, text: &str) -> Result<(), String> {
        self.files.retain(|(p, _)| p != path);
        self.files.push((path.to_string(), text.to_string()));
        Ok(())
    }

    fn read_template(&mut self, layout: &str, template: &str) -> Result<String, String> {
        let key = format!("{}/{}", layout, template);
        match self.templates.iter().find(|(p, _)| *p == key) {
            Some((_, text)) => Ok(text.clone()),
            None => Err(format!("no template {}", key)),
        }
    }

    fn create_dir_all(&mut self, path: &str) -> Result<(), String> {
        self.operations.push(format!("mkdir {}", path));
        Ok(())
    }

    fn load_module(&mut self, name: &str) -> Option<String> {
        self.modules.iter().find(|(n, _)| n == name).map(|(_, s)| s.clone())
    }
}

fn run(script: &str) -> (Result<Value, PipelineError>, Recorder) {
    let mut host = Recorder::new();
    let mut engine = PipelineEngine::default_with_pipeline();
    engine.register_module(Module::with_math_module());
    engine.register_module(Module::with_layout_module());
    let r = engine.eval_stmt_blocks(&mut host, script);
    (r, host)
}

fn output(script: &str) -> String {
    let (r, host) = run(script);
    assert!(r.is_ok(), "the script failed: {:?}", r);
    host.written
}

#[test]
fn hello() {
    assert_eq!(output("println(\"hi\")"), "hi\n");
}

#[test]
fn arithmetic() {
    assert_eq!(output("let a = 3; let b = 2; println(a*b+1)"), "7\n");
}

#[test]
fn if_else() {
    assert_eq!(
        output("let x = 5; if x > 3 { println(\"big\") } else { println(\"small\") }"),
        "big\n"
    );
    assert_eq!(
        output("let x = 2; if x > 3 { println(\"big\") } else { println(\"small\") }"),
        "small\n"
    );
}

#[test]
fn while_and_break() {
    assert_eq!(
        output("let i = 0; while i < 10 { if i == 3 { break } ; i = i+1 }; println(i)"),
        "3\n"
    );
}

#[test]
fn map_literal_and_access() {
    assert_eq!(output("let m = (name: \"a\", v: 42); println(m[\"v\"])"), "42\n");
}

#[test]
fn struct_and_method() {
    assert_eq!(
        output(
            "class P(n: String); fun P.hello(): Unit { println(this.n) }; let p = P(n: \"kai\"); p.hello()"
        ),
        "kai\n"
    );
}

#[test]
fn pipeline_ordering() {
    assert_eq!(
        output(
            "import pipe; pipeline(\"x\") { step(\"a\") { println(\"A\") } ; step(\"b\") { println(\"B\") } }; println(\"done\")"
        ),
        "A\nB\ndone\n"
    );
}

#[test]
fn parallel_join() {
    let mut host = Recorder::new();
    let mut engine = PipelineEngine::default_with_pipeline();
    let r = engine.eval_stmt_blocks(
        &mut host,
        "import pipe; pipeline(\"x\") { parallel(\"a\") { println(\"A\") } ; parallel(\"b\") { println(\"B\") } }; println(\"after\")",
    );
    assert!(r.is_ok(), "{:?}", r);
    assert_eq!(host.written, "A\nB\nafter\n");
    assert!(engine.interpreter.join_sets.is_empty());
}

#[test]
fn pipeline_without_import_is_undefined() {
    let (r, _) = run("pipeline(\"x\") { println(\"A\") }");
    assert_eq!(r.unwrap_err(), PipelineError::FunctionUndefined("pipeline".to_string()));
}

#[test]
fn import_of_a_missing_module_fails_when_it_runs() {
    let (r, host) = run("println(\"before\"); import nothing");
    assert_eq!(r.unwrap_err(), PipelineError::UnknownModule("nothing".to_string()));
    assert_eq!(host.written, "before\n");
}

#[test]
fn import_twice_is_import_once() {
    assert_eq!(
        output("import pipe; import pipe; pipeline(\"x\") { step(\"a\") { println(\"A\") } }"),
        "A\n"
    );
}

#[test]
fn user_definitions_shadow_imported_ones() {
    let mut host = Recorder::new();
    host.modules.push(("lib".to_string(), "fn greet() { println(\"lib\") } fn other() { println(\"other\") }".to_string()));
    let mut engine = PipelineEngine::new_raw();
    let r = engine.eval_stmt_blocks(
        &mut host,
        "fn greet() { println(\"mine\") } import lib; greet(); other(); lib::greet()",
    );
    assert!(r.is_ok(), "{:?}", r);
    assert_eq!(host.written, "mine\nother\nlib\n");
}

#[test]
fn path_filter_selects_pipeline_and_task() {
    let script = "import pipe; pipeline(\"x\") { step(\"a\") { println(\"xa\") } ; step(\"b\") { println(\"xb\") } }; pipeline(\"y\") { step(\"a\") { println(\"ya\") } }";
    let mut host = Recorder::new();
    let mut engine = PipelineEngine::default_with_pipeline();
    engine.set_path("x.b");
    assert!(engine.eval_stmt_blocks(&mut host, script).is_ok());
    assert_eq!(host.written, "xb\n");

    let mut host = Recorder::new();
    let mut engine = PipelineEngine::default_with_pipeline();
    engine.set_path("y");
    assert!(engine.eval_stmt_blocks(&mut host, script).is_ok());
    assert_eq!(host.written, "ya\n");

    let mut host = Recorder::new();
    let mut engine = PipelineEngine::default_with_pipeline();
    engine.set_path("all.a");
    assert!(engine.eval_stmt_blocks(&mut host, script).is_ok());
    assert_eq!(host.written, "xa\nya\n");
}

#[test]
fn a_failed_parallel_task_fails_the_pipeline_after_the_others_ran() {
    let (r, host) = run(
        "import pipe; pipeline(\"x\") { parallel(\"a\") { println(nothing) } ; parallel(\"b\") { println(\"B\") } }; println(\"never\")",
    );
    match r {
        Err(PipelineError::SchedulerError(text)) => {
            assert_eq!(text, "task a failed: VariableUndefined:nothing")
        }
        other => panic!("expected a scheduler error, got {:?}", other),
    }
    assert_eq!(host.written, "B\n");
}

#[test]
fn parallel_outside_a_pipeline_is_an_error() {
    let (r, _) = run("import pipe; parallel(\"a\") { println(\"A\") }");
    assert!(matches!(r, Err(PipelineError::SchedulerError(_))));
}

#[test]
fn let_then_assign_is_seen_in_inner_scopes() {
    assert_eq!(
        output("let a = 1; fn show() { println(a) } a = 2; show(); fn change() { a = 3 } change(); println(a)"),
        "2\n3\n"
    );
}

#[test]
fn let_in_a_function_shadows_and_does_not_overwrite() {
    assert_eq!(
        output("let a = 1; fn f() { let a = 5; println(a) } f(); println(a)"),
        "5\n1\n"
    );
}

#[test]
fn aliasing_through_a_struct_field() {
    assert_eq!(
        output(
            "class Box(x: Array); let b = Box(x: [1, 2, 3]); b.x[1] = 20; println(b.x[1]); println(b.x)"
        ),
        "20\n[1,20,3]\n"
    );
    assert_eq!(
        output(
            "class In(k: Int); class Out(x: In); let o = Out(x: In(k: 1)); o.x.k = 7; println(o.x.k)"
        ),
        "7\n"
    );
}

#[test]
fn integer_arithmetic_stays_integer_and_float_widens() {
    assert_eq!(output("println(type(7 / 2)); println(7 / 2); println(7 % 3)"), "Integer\n3\n1\n");
    assert_eq!(output("println(type(1 + 2.5)); println(1 + 2.5)"), "Float\n3.5\n");
    assert_eq!(output("println(type(1.5 * 2.0)); println(1.5 * 2.0)"), "Float\n3\n");
    assert_eq!(output("let n = 0 - 7; println(0 - 7 / 2); println(n % 3); println(n / 2)"), "-3\n-1\n-3\n");
}

#[test]
fn undefined_operations_are_errors() {
    let (r, _) = run("println(1 / 0)");
    assert_eq!(r.unwrap_err(), PipelineError::UndefinedOperation("division by zero".to_string()));
    let (r, _) = run("let a = [1]; println(a - 1)");
    assert_eq!(r.unwrap_err(), PipelineError::UndefinedOperation("Array - Integer".to_string()));
    let (r, _) = run("println(1 < \"a\")");
    assert_eq!(r.unwrap_err(), PipelineError::UndefinedOperation("Integer < String".to_string()));
}

#[test]
fn string_concatenation_displays_the_right_operand() {
    assert_eq!(output("println(\"a\" + 1 + \"b\" + true)"), "a1btrue\n");
    assert_eq!(output("println(\"x\" < \"y\"); println(\"b\" == \"b\")"), "true\ntrue\n");
}

#[test]
fn conditions_must_be_truth_values() {
    let (r, _) = run("if 1 { println(\"x\") }");
    assert_eq!(r.unwrap_err(), PipelineError::ExpectedType("bool".to_string()));
    let (r, _) = run("while \"x\" { println(\"x\") }");
    assert_eq!(r.unwrap_err(), PipelineError::ExpectedType("bool".to_string()));
}

#[test]
fn undefined_names() {
    let (r, _) = run("println(x)");
    assert_eq!(r.unwrap_err(), PipelineError::VariableUndefined("x".to_string()));
    let (r, _) = run("f()");
    assert_eq!(r.unwrap_err(), PipelineError::FunctionUndefined("f".to_string()));
    let (r, _) = run("nothing::f()");
    assert_eq!(r.unwrap_err(), PipelineError::UnknownModule("nothing".to_string()));
}

#[test]
fn for_in_with_one_and_two_names() {
    assert_eq!(output("for k in [7, 8] { println(k) }"), "7\n8\n");
    assert_eq!(output("for i, v in [7, 8] { println(\"\" + i + \":\" + v) }"), "0:7\n1:8\n");
}

#[test]
fn continue_skips_the_rest_of_the_round() {
    assert_eq!(
        output("let i = 0; while i < 4 { i = i + 1; if i == 2 { continue } println(i) }"),
        "1\n3\n4\n"
    );
}

#[test]
fn functions_return_values() {
    assert_eq!(
        output("fun twice(x: Int): Int { return x * 2 } println(twice(4)); fn none() { } println(none())"),
        "8\nUnit\n"
    );
    assert_eq!(
        output("fn first(xs) { for x in xs { if x > 1 { return x } } return 0 } println(first([1, 5, 9]))"),
        "5\n"
    );
}

#[test]
fn string_index_gives_one_character() {
    assert_eq!(output("let s = \"héllo\"; println(s[1]); println(len(s))"), "é\n5\n");
}

#[test]
fn arrays_and_maps_builtins() {
    assert_eq!(
        output("let a = [1]; append(a, 2, 3); println(a); remove(a, 0); println(a); println(len(a))"),
        "[1,2,3]\n[2,3]\n2\n"
    );
    assert_eq!(
        output("let m = (a: 1); m[\"b\"] = 2; println(m); remove(m, \"a\"); println(m); println(type(m))"),
        "{a:1,b:2}\n{b:2}\nMap\n"
    );
    assert_eq!(
        output("let a = [1, 2]; let b = clone(a); b[0] = 9; println(a); println(b)"),
        "[1,2]\n[9,2]\n"
    );
}

#[test]
fn call_binds_it() {
    assert_eq!(output("fn apply(v, f) { call(f, v) } apply(4) { println(it) }"), "4\n");
}

#[test]
fn cmd_runs_in_the_workspace_with_the_environment_of_its_task() {
    let (r, host) = run(
        "import pipe; workspace(\"dir\"); pipeline(\"p\") { step(\"s\") { env(\"K\", \"V\"); cmd(\"build\") } ; step(\"t\") { cmd(\"test\") } }",
    );
    assert!(r.is_ok(), "{:?}", r);
    assert_eq!(
        host.operations,
        vec!["cmd build in dir with [K=V]".to_string(), "cmd test in dir with []".to_string()]
    );
    assert_eq!(
        host.written,
        "\u{1b}[32mRunning Task s\u{1b}[0m\n  ╰─▶[Out]:ran build\n\u{1b}[32mRunning Task t\u{1b}[0m\n  ╰─▶[Out]:ran test\n"
    );
}

#[test]
fn a_missing_workspace_is_a_host_error() {
    let (r, _) = run("workspace(\"missing\")");
    assert_eq!(
        r.unwrap_err(),
        PipelineError::HostError("the path does not exist: missing".to_string())
    );
}

#[test]
fn a_failing_command_is_a_host_error() {
    let (r, _) = run("import pipe; pipeline(\"p\") { step(\"s\") { cmd(\"fail\") } }");
    assert_eq!(
        r.unwrap_err(),
        PipelineError::HostError("the command could not be started".to_string())
    );
}

#[test]
fn replace_rewrites_a_file_with_a_regular_expression() {
    let mut host = Recorder::new();
    host.files.push(("a.txt".to_string(), "version = 1.2.3".to_string()));
    let mut engine = PipelineEngine::new_raw();
    let r = engine.eval_stmt_blocks(&mut host, "replace(\"a.txt\", \"[0-9]+\", \"N\")");
    assert!(r.is_ok(), "{:?}", r);
    assert_eq!(host.files, vec![("a.txt".to_string(), "version = N.N.N".to_string())]);
    let r = engine.eval_stmt_blocks(&mut host, "replace(\"a.txt\", \"(\", \"N\")");
    assert!(matches!(r, Err(PipelineError::HostError(_))));
}

#[test]
fn layout_renders_templates() {
    let mut host = Recorder::new();
    host.templates.push(("rust/main.tpl".to_string(), "fn ${name}() { ${body} }".to_string()));
    let mut engine = PipelineEngine::new_raw();
    engine.register_module(Module::with_layout_module());
    let r = engine.eval_stmt_blocks(
        &mut host,
        "import layout; layout(\"rust\") { folder(\"src\"); template(\"src/main.rs\", \"main.tpl\") { set(ctx, \"name\", \"main\"); set(ctx, \"body\", \"run()\") } }",
    );
    assert!(r.is_ok(), "{:?}", r);
    assert_eq!(host.files, vec![("src/main.rs".to_string(), "fn main() { run() }".to_string())]);
    assert_eq!(host.operations, vec!["mkdir src".to_string()]);
}

#[test]
fn a_template_with_an_unknown_key_fails() {
    let mut host = Recorder::new();
    host.templates.push(("rust/main.tpl".to_string(), "${missing}".to_string()));
    let mut engine = PipelineEngine::new_raw();
    engine.register_module(Module::with_layout_module());
    let r = engine.eval_stmt_blocks(
        &mut host,
        "import layout; layout(\"rust\") { template(\"out\", \"main.tpl\") { } }",
    );
    assert_eq!(r.unwrap_err(), PipelineError::VariableUndefined("missing".to_string()));
}

#[test]
fn math_module() {
    assert_eq!(output("println(math::max(1, 7.5, 3))"), "7.5\n");
    let (r, _) = run("let r = math::randomInt(3, 5); if r < 3 { println(\"low\") } if r > 5 { println(\"high\") }");
    assert!(r.is_ok());
    let (r, _) = run("math::randomInt(5, 3)");
    assert_eq!(r.unwrap_err(), PipelineError::UndefinedOperation("empty range".to_string()));
}

#[test]
fn reading_input() {
    let mut host = Recorder::new();
    host.input = vec!["42".to_string(), "word".to_string(), "line\n".to_string()];
    let mut engine = PipelineEngine::new_raw();
    let r = engine.eval_stmt_blocks(
        &mut host,
        "let n = readInt(\"n? \"); let w = readString(); let l = readLine(); println(n + 1); println(w + l)",
    );
    assert!(r.is_ok(), "{:?}", r);
    assert_eq!(host.written, "n? 43\nwordline\n\n");
}

#[test]
fn an_endless_loop_runs_out_of_budget() {
    let mut host = Recorder::new();
    let mut engine = PipelineEngine::new_raw();
    engine.interpreter.rounds = 100;
    let r = engine.eval_stmt_blocks(&mut host, "while true { }");
    assert_eq!(r.unwrap_err(), PipelineError::BudgetExhausted);
}

#[test]
fn endless_recursion_runs_out_of_budget() {
    let (r, _) = run("fn f() { f() } f()");
    assert_eq!(r.unwrap_err(), PipelineError::BudgetExhausted);
}

#[test]
fn values_returned_to_the_host() {
    let mut host = Recorder::new();
    let mut engine = PipelineEngine::new_raw();
    let v = engine.eval_expr(&mut host, "2 + 3 * 4").unwrap();
    match v {
        Value::Immutable(Dynamic::Integer(i)) => assert_eq!(i, 14),
        other => panic!("expected an integer, got {:?}", other),
    }
    let v = engine.eval_expr(&mut host, "10 - 2 - 3").unwrap();
    match v {
        Value::Immutable(Dynamic::Integer(i)) => assert_eq!(i, 5),
        other => panic!("expected an integer, got {:?}", other),
    }
}

fn lines_of(texts: &[&str]) -> Vec<Vec<u8>> {
    texts.iter().map(|t| t.as_bytes().to_vec()).collect()
}

#[test]
fn output_of_a_command_waits_in_the_join_set_of_its_task() {
    let mut host = Recorder::new();
    let mut state = Interpreter::new();
    state.tasks.push("build".to_string());
    state.op_join_sets.push(Vec::new());
    let output = CommandOutput { stdout: lines_of(&["a", "b"]), stderr: lines_of(&["e"]), code: 0 };
    state.take_output(&mut host, &output, false, false);
    assert_eq!(host.written, "");
    assert_eq!(state.op_join_sets.len(), 1);
    let set = &state.op_join_sets[0];
    assert_eq!(set.len(), 2);
    assert_eq!(set[0].task, "build");
    assert!(!set[0].is_err);
    assert_eq!(set[0].lines, vec!["a".to_string(), "b".to_string()]);
    assert_eq!(set[1].task, "build");
    assert!(set[1].is_err);
    assert_eq!(set[1].lines, vec!["e".to_string()]);
}

#[test]
fn output_of_a_command_outside_a_task_is_logged_at_once() {
    let mut host = Recorder::new();
    let mut state = Interpreter::new();
    let output = CommandOutput { stdout: lines_of(&["a"]), stderr: lines_of(&["e"]), code: 0 };
    state.take_output(&mut host, &output, false, false);
    assert_eq!(
        host.written,
        "\u{1b}[32mRunning Task \u{1b}[0m\n  ╰─▶[Out]:a\n  ╰─▶\u{1b}[31m[Err]:e\u{1b}[0m\n"
    );
    assert_eq!(state.op_join_sets.len(), 0);
}

#[test]
fn delivering_in_parallel_mode_draws_the_screen_for_every_line() {
    let mut host = Recorder::new();
    let mut state = Interpreter::new();
    state.logger.set_parallel(true);
    let pump = Pump { task: "t".to_string(), is_err: false, lines: vec!["x".to_string(), "y".to_string()] };
    state.deliver(&mut host, pump);
    let clear = "\u{1b}[2J\u{1b}[H\n";
    let title = "\u{1b}[32mRunning Task t\u{1b}[0m\n";
    assert_eq!(
        host.written,
        format!("{clear}{title}  ╰─▶[Out]:x\n{clear}{title}  ╰─▶[Out]:x\n  ╰─▶[Out]:y\n")
    );
}

#[test]
fn what_was_read_becomes_a_value() {
    assert!(matches!(
        Interpreter::answered(Some(Dynamic::Integer(5)), "integer"),
        Ok(Value::Immutable(Dynamic::Integer(5)))
    ));
    assert_eq!(
        Interpreter::answered(None, "integer").unwrap_err(),
        PipelineError::HostError("no integer was read".to_string())
    );
    assert_eq!(
        Interpreter::answered(None, "word").unwrap_err(),
        PipelineError::HostError("no word was read".to_string())
    );
}

#[test]
fn entering_a_workspace_that_exists_sets_it() {
    let mut state = Interpreter::new();
    assert_eq!(state.workspace(), "./");
    assert!(matches!(
        state.enter_workspace("dir".to_string(), true),
        Ok(Value::Immutable(Dynamic::Unit))
    ));
    assert_eq!(state.workspace(), "dir");
    assert_eq!(
        state.enter_workspace("nowhere".to_string(), false).unwrap_err(),
        PipelineError::HostError("the path does not exist: nowhere".to_string())
    );
    assert_eq!(state.workspace(), "dir");
}

#[test]
fn a_prompt_is_written_where_it_is_a_string() {
    let mut host = Recorder::new();
    let mut state = Interpreter::new();
    assert!(state.prompt(&mut host, &Vec::new()).is_ok());
    assert_eq!(host.written, "");
    let args = vec![Value::Immutable(Dynamic::String("name? ".to_string()))];
    assert!(state.prompt(&mut host, &args).is_ok());
    assert_eq!(host.written, "name? ");
    let args = vec![Value::Immutable(Dynamic::Integer(1))];
    assert!(matches!(state.prompt(&mut host, &args), Err(PipelineError::ExpectedType(_))));
    assert_eq!(host.written, "name? ");
}

#[test]
fn the_greatest_of_numbers() {
    let mut host = Recorder::new();
    let state = Interpreter::new();
    let args = vec![
        Value::Immutable(Dynamic::Integer(3)),
        Value::Immutable(Dynamic::Float(4.5f64.to_bits())),
        Value::Immutable(Dynamic::Integer(-7)),
    ];
    assert_eq!(state.max(&mut host, &args).unwrap(), 4.5f64.to_bits());
    let one = vec![Value::Immutable(Dynamic::Integer(3))];
    assert_eq!(state.max(&mut host, &one).unwrap(), 3.0f64.to_bits());
    assert!(matches!(state.max(&mut host, &Vec::new()), Err(PipelineError::ExpectedType(_))));
    let mixed = vec![
        Value::Immutable(Dynamic::Integer(3)),
        Value::Immutable(Dynamic::String("4".to_string())),
    ];
    assert!(matches!(state.max(&mut host, &mixed), Err(PipelineError::ExpectedType(_))));
}

#[test]
fn the_values_of_a_template_are_the_entries_of_its_map() {
    let mut state = Interpreter::new();
    let entries = vec![
        (Dynamic::String("a".to_string()), Value::Immutable(Dynamic::String("1".to_string()))),
        (Dynamic::String("b".to_string()), Value::Immutable(Dynamic::String("2".to_string()))),
        (Dynamic::String("a".to_string()), Value::Immutable(Dynamic::String("3".to_string()))),
    ];
    let h = state.heap.allocate(Dynamic::Mapping(entries));
    assert_eq!(
        state.template_values(&Value::Mutable(h)).unwrap(),
        vec![("a".to_string(), "3".to_string()), ("b".to_string(), "2".to_string())]
    );
    let numbers = vec![(Dynamic::String("a".to_string()), Value::Immutable(Dynamic::Integer(1)))];
    let n = state.heap.allocate(Dynamic::Mapping(numbers));
    assert!(matches!(
        state.template_values(&Value::Mutable(n)),
        Err(PipelineError::ExpectedType(_))
    ));
    assert!(matches!(
        state.template_values(&Value::Immutable(Dynamic::Integer(1))),
        Err(PipelineError::ExpectedType(_))
    ));
    assert!(matches!(
        state.template_values(&Value::Mutable(h + 100)),
        Err(PipelineError::VariableUndefined(_))
    ));
}

#[test]
fn a_script_defines_methods_for_a_class_of_the_main_module() {
    let mut host = Recorder::new();
    let mut engine = PipelineEngine::new_raw();
    let first = engine.eval_stmt_blocks(&mut host, "class P(n: String)");
    assert!(first.is_ok(), "{:?}", first);
    let second = engine.eval_stmt_blocks(
        &mut host,
        "fun P.hello(): Unit { println(this.n) } let p = P(n: \"x\") p.hello()",
    );
    assert!(second.is_ok(), "{:?}", second);
    assert_eq!(host.written, "x\n");
}

#[test]
fn an_engine_takes_another_interpreter_and_another_source() {
    let mut host = Recorder::new();
    let mut engine = PipelineEngine::new_raw();
    engine.set_source("println(1)");
    assert_eq!(engine.source, "println(1)");
    assert!(engine.get_fn_lib().is_empty());
    engine.set_interpreter(Interpreter::new());
    let r = engine.eval_stmt_blocks(&mut host, "println(1)");
    assert!(matches!(r, Err(PipelineError::FunctionUndefined(_))), "{:?}", r);
    let r = engine.compile_stmt_blocks(&mut host, "fn f() { return 1 }");
    assert!(r.is_ok());
    assert_eq!(engine.get_fn_lib().len(), 1);
    assert_eq!(engine.get_fn_lib()[0].name, "f");
}

#[test]
fn values_inside_values_are_displayed_through_the_heap() {
    assert_eq!(output("let a = [1, \"x\", [2, 3]] println(a)"), "[1,x,[2,3]]\n");
    assert_eq!(output("let m = (k: 1, j: \"v\") println(m)"), "{k:1,j:v}\n");
    assert_eq!(
        output("class P(n: String, m: Int) let p = P(n: \"x\", m: 2) println(p)"),
        "P{n:x,m:2}\n"
    );
    assert_eq!(output("println([])"), "[]\n");
}

#[test]
fn the_answer_of_the_host_is_a_result_of_the_engine() {
    assert_eq!(Interpreter::told::<i32>(Ok(3)), Ok(3));
    assert_eq!(
        Interpreter::told::<i32>(Err("no".to_string())),
        Err(PipelineError::HostError("no".to_string()))
    );
}

#[test]
fn a_module_is_made_known_from_its_source() {
    let mut engine = PipelineEngine::new_raw();
    let none = engine.take_module("absent", None).unwrap();
    assert!(none.is_empty());
    assert!(engine.interpreter.get_module("absent").is_none());
    let more = engine
        .take_module(
            "tools",
            Some("import other fn twice(x) { return x * 2 } fn twice(x) { return x + x } import more".to_string()),
        )
        .unwrap();
    assert_eq!(more, vec!["other".to_string(), "more".to_string()]);
    let module = engine.interpreter.get_module("tools").expect("the module is known");
    assert_eq!(module.get_name(), "tools");
    assert!(module.get_function("twice").is_some());
    assert!(module.get_function("other").is_none());
    assert!(module.class_list().is_empty());
    let bad = engine.take_module("bad", Some("fn f( {".to_string()));
    assert!(matches!(bad, Err(PipelineError::UnexpectedToken(_))), "{:?}", bad);
    assert!(engine.interpreter.get_module("bad").is_none());
    let stray = engine.take_module("stray", Some("let a = #".to_string()));
    assert!(matches!(stray, Err(PipelineError::UnexpectedChar('#', _))), "{:?}", stray);
    assert!(engine.interpreter.get_module("stray").is_none());
}

#[test]
fn modules_that_modules_import_are_loaded_too() {
    let mut host = Recorder::new();
    host.modules.push(("a".to_string(), "import b fn fa() { return 1 }".to_string()));
    host.modules.push(("b".to_string(), "fn fb() { return 2 }".to_string()));
    let mut engine = PipelineEngine::new_raw();
    let r = engine.eval_stmt_blocks(&mut host, "import a import b println(fa() + fb())");
    assert!(r.is_ok(), "{:?}", r);
    assert_eq!(host.written, "3\n");
    assert!(engine.interpreter.get_module("a").is_some());
    assert!(engine.interpreter.get_module("b").is_some());
    assert!(engine.interpreter.get_module("std").is_some());
}

#[test]
fn the_next_module_to_load_is_the_first_that_is_not_known() {
    let mut engine = PipelineEngine::default_with_pipeline();
    let mut waiting = vec!["std".to_string(), "pipe".to_string(), "a".to_string(), "std".to_string(), "b".to_string()];
    assert_eq!(engine.next_unknown(&mut waiting), Some("a".to_string()));
    assert_eq!(waiting, vec!["std".to_string(), "b".to_string()]);
    engine.take_module("b", Some("fn f() { return 1 }".to_string())).unwrap();
    assert_eq!(engine.next_unknown(&mut waiting), None);
    assert!(waiting.is_empty());
    assert_eq!(engine.next_unknown(&mut waiting), None);
}

#[test]
fn a_module_that_is_known_is_not_asked_of_the_host_again() {
    let mut host = Recorder::new();
    host.modules.push(("a".to_string(), "fn fa() { return 1 }".to_string()));
    let mut engine = PipelineEngine::new_raw();
    engine.take_module("a", Some("fn fa() { return 5 }".to_string())).unwrap();
    let r = engine.eval_stmt_blocks(&mut host, "import a println(fa())");
    assert!(r.is_ok(), "{:?}", r);
    assert_eq!(host.written, "5\n");
}

#[test]
fn the_greatest_is_kept_step_by_step() {
    assert_eq!(Interpreter::keep_greater(1, 2, FloatOrder::Greater), 2);
    assert_eq!(Interpreter::keep_greater(1, 2, FloatOrder::Less), 1);
    assert_eq!(Interpreter::keep_greater(1, 2, FloatOrder::Equal), 1);
    assert_eq!(Interpreter::keep_greater(1, 2, FloatOrder::Unordered), 1);
    let mut host = Recorder::new();
    let bits = |x: f64| x.to_bits();
    assert_eq!(Interpreter::greatest(&mut host, &Vec::new()), None);
    assert_eq!(Interpreter::greatest(&mut host, &vec![bits(2.0)]), Some(bits(2.0)));
    assert_eq!(
        Interpreter::greatest(&mut host, &vec![bits(2.0), bits(-1.0), bits(7.5), bits(7.0)]),
        Some(bits(7.5))
    );
    assert_eq!(
        Interpreter::greatest(&mut host, &vec![bits(f64::NAN), bits(3.0)]),
        Some(bits(f64::NAN))
    );
    let state = Interpreter::new();
    let args = vec![Value::Immutable(Dynamic::Integer(3)), Value::Immutable(Dynamic::Float(bits(0.5)))];
    assert_eq!(state.candidates(&mut host, &args).unwrap(), vec![bits(3.0), bits(0.5)]);
    let bad = vec![Value::Immutable(Dynamic::Boolean(true))];
    assert!(matches!(state.candidates(&mut host, &bad), Err(PipelineError::ExpectedType(_))));
}

#[test]
fn a_condition_that_is_no_truth_value_asks_for_bool() {
    for script in ["if 1 { println(1) }", "while \"x\" { println(1) }", "if false { } else if 2 { println(1) }"] {
        let (r, host) = run(script);
        assert_eq!(r.unwrap_err(), PipelineError::ExpectedType("bool".to_string()), "{}", script);
        assert_eq!(host.written, "");
    }
}

#[test]
fn a_call_that_resolves_to_nothing_names_what_is_missing() {
    let (r, _) = run("nothing(1)");
    assert_eq!(r.unwrap_err(), PipelineError::FunctionUndefined("nothing".to_string()));
    let (r, _) = run("M::g()");
    assert_eq!(r.unwrap_err(), PipelineError::UnknownModule("M".to_string()));
    let (r, _) = run("std::g()");
    assert_eq!(r.unwrap_err(), PipelineError::FunctionUndefined("std::g".to_string()));
}

#[test]
fn a_loop_runs_as_long_as_its_condition_says() {
    assert_eq!(Interpreter::new().rounds, u64::MAX);
    assert_eq!(
        output("let i = 0 while i < 200000 { i = i + 1 } println(i)"),
        "200000\n"
    );
}

#[test]
fn a_task_that_runs_a_command_and_then_fails_fails_the_pipeline() {
    let (r, host) = run(
        "import pipe; pipeline(\"p\") { step(\"s\") { cmd(\"build\") nothing() } step(\"t\") { cmd(\"test\") } }",
    );
    assert!(matches!(r, Err(PipelineError::FunctionUndefined(_))), "{:?}", r);
    assert_eq!(host.operations, vec!["cmd build in ./ with []".to_string()]);
    assert!(host.written.contains("[Out]:ran build"));
    assert!(!host.written.contains("ran test"));
}

#[test]
fn every_parallel_task_runs_once_and_the_first_failure_is_the_result() {
    let (r, host) = run(
        "import pipe; pipeline(\"p\") { parallel(\"a\") { cmd(\"one\") } parallel(\"b\") { cmd(\"two\") nothing() } parallel(\"c\") { cmd(\"three\") } }",
    );
    match r {
        Err(PipelineError::SchedulerError(text)) => assert!(text.starts_with("task b failed"), "{}", text),
        other => panic!("expected the failure of task b, got {:?}", other),
    }
    assert_eq!(
        host.operations,
        vec![
            "cmd one in ./ with []".to_string(),
            "cmd two in ./ with []".to_string(),
            "cmd three in ./ with []".to_string()
        ]
    );
}

#[test]
fn a_parallel_task_that_is_held_back_leaves_the_logger_serial() {
    let mut host = Recorder::new();
    let mut engine = PipelineEngine::default_with_pipeline();
    engine.set_path("p.other");
    let r = engine.eval_stmt_blocks(
        &mut host,
        "import pipe; pipeline(\"p\") { parallel(\"a\") { cmd(\"one\") } step(\"other\") { cmd(\"two\") } }",
    );
    assert!(r.is_ok(), "{:?}", r);
    assert_eq!(host.operations, vec!["cmd two in ./ with []".to_string()]);
    assert_eq!(
        host.written,
        "\u{1b}[32mRunning Task other\u{1b}[0m\n  ╰─▶[Out]:ran two\n"
    );
}

#[test]
fn a_script_that_imports_known_modules_asks_the_host_for_none() {
    let mut host = Recorder::new();
    let mut engine = PipelineEngine::default_with_pipeline();
    let r = engine.compile_stmt_blocks(&mut host, "import pipe import std let a = 1");
    assert!(r.is_ok(), "{:?}", r);
    assert_eq!(r.unwrap().len(), 3);
}

#[test]
fn an_operator_on_two_values_whatever_the_host_says() {
    let mut host = Recorder::new();
    let state = Interpreter::new();
    let float = |x: f64| Value::Immutable(Dynamic::Float(x.to_bits()));
    let int = |x: i64| Value::Immutable(Dynamic::Integer(x));
    match state.combine(&mut host, Op::Plus, &float(1.5), &int(2)) {
        Ok(Value::Immutable(Dynamic::Float(bits))) => assert_eq!(f64::from_bits(bits), 3.5),
        other => panic!("expected a floating-point number, got {:?}", other),
    }
    assert!(matches!(
        state.combine(&mut host, Op::Less, &int(1), &float(1.5)),
        Ok(Value::Immutable(Dynamic::Boolean(true)))
    ));
    assert!(matches!(
        state.combine(&mut host, Op::Div, &Value::Immutable(Dynamic::Unit), &float(1.5)),
        Err(PipelineError::UndefinedOperation(_))
    ));
    assert!(matches!(
        state.combine(&mut host, Op::Plus, &Value::Mutable(99), &int(1)),
        Err(PipelineError::VariableUndefined(_))
    ));
}

#[test]
fn a_condition_that_the_host_decides_must_still_be_a_truth_value() {
    for script in ["if 1.5 { println(1) }", "while 2.0 * 2 { println(1) }"] {
        let (r, host) = run(script);
        assert_eq!(r.unwrap_err(), PipelineError::ExpectedType("bool".to_string()), "{}", script);
        assert_eq!(host.written, "");
    }
}

#[test]
fn questions_about_files_go_to_the_host() {
    let mut host = Recorder::new();
    host.files.push(("a.txt".to_string(), "x".to_string()));
    let mut state = Interpreter::new();
    assert_eq!(state.ask_read(&mut host, "./", "a.txt"), Ok("x".to_string()));
    assert!(matches!(state.ask_read(&mut host, "./", "b.txt"), Err(PipelineError::HostError(_))));
    assert!(state.ask_write(&mut host, "./", "b.txt", "y").is_ok());
    assert_eq!(state.ask_read(&mut host, "./", "b.txt"), Ok("y".to_string()));
    assert!(state.ask_folder(&mut host, "dir").is_ok());
    assert!(state.ask_exists(&mut host, "dir"));
    assert!(!state.ask_exists(&mut host, "missing"));
    assert!(matches!(state.ask_template(&mut host, "l", "t"), Err(PipelineError::HostError(_))));
}
