use pipeline::builtin::{
    decode_line, lines_of, is_system_gbk_err_command, is_system_gbk_output_command, random_integer,
    regex_replace_all, render_template,
};
use pipeline::context::{AppContext, Context, EmptyContext, Scope, Scopes, ValueContext};
use pipeline::engine::{split_path, PipelineEngine};
use pipeline::error::{Fault, PipelineError};
use pipeline::logger::{show_line, strip, PipelineLogger};
use pipeline::module::{give_method, Builtin, Class, Function, Module};
use pipeline::operation::{Operation, OperationType, TaskType};
use pipeline::table;
use pipeline::text::{chars_of, same_text, spells, string_from_chars, string_of};
use pipeline::v1::access::{find_key, same_key};
use pipeline::v1::expr::Op;
use pipeline::v1::interpreter::{is_selected, kept, split_scoped, Interpreter};
use pipeline::v1::operators::{
    compare_by, integer_binary, integer_text, order_of_texts, quotient, remainder,
};
use pipeline::v1::position::Position;
use pipeline::v1::token::Token;
use pipeline::v1::types::{Dynamic, FnPtr, Heap, Struct, Value};

fn text(s: &str) -> Dynamic {
    Dynamic::String(s.to_string())
}

fn int_of(r: Result<Dynamic, PipelineError>) -> i64 {
    match r {
        Ok(Dynamic::Integer(i)) => i,
        other => panic!("expected an integer, got {:?}", other),
    }
}

fn bool_of(r: Result<Dynamic, PipelineError>) -> bool {
    match r {
        Ok(Dynamic::Boolean(b)) => b,
        other => panic!("expected a truth value, got {:?}", other),
    }
}

fn shown(d: &Dynamic) -> String {
    format!("{:?}", d)
}

#[test]
fn text_helpers() {
    let chars: Vec<char> = "héllo".chars().collect();
    assert_eq!(string_from_chars(&chars, 1, 3), "él");
    assert_eq!(string_of(&chars), "héllo");
    assert_eq!(chars_of("héllo"), chars);
    assert!(spells(&chars, 0, 5, "héllo"));
    assert!(spells(&chars, 2, 4, "ll"));
    assert!(!spells(&chars, 2, 4, "lo"));
    assert!(!spells(&chars, 2, 4, "l"));
    assert!(same_text(&"ab".to_string(), &"ab".to_string()));
    assert!(!same_text(&"ab".to_string(), &"ba".to_string()));
    assert!(same_text(&"x".to_string(), &"x".to_string()));
    assert!(!same_text(&"x".to_string(), &"y".to_string()));
}

#[test]
fn tables_keep_the_first_entry_of_a_name() {
    let mut t: Vec<(String, i32)> = Vec::new();
    assert!(table::put_new(&mut t, "a".to_string(), 1));
    assert!(table::put_new(&mut t, "b".to_string(), 2));
    assert!(!table::put_new(&mut t, "a".to_string(), 3));
    assert_eq!(table::get(&t, "a"), Some(&1));
    assert_eq!(table::locate(&t, "b"), Some(1));
    assert_eq!(table::locate(&t, "c"), None);
    table::put(&mut t, "a".to_string(), 4);
    table::put(&mut t, "c".to_string(), 5);
    assert_eq!(t, vec![("a".to_string(), 4), ("b".to_string(), 2), ("c".to_string(), 5)]);
    assert!(table::contains(&t, "c"));
    assert_eq!(t.len(), 3);
}

#[test]
fn integer_arithmetic_wraps_and_truncates() {
    assert_eq!(int_of(integer_binary(Op::Plus, 3, 4)), 7);
    assert_eq!(int_of(integer_binary(Op::Plus, i64::MAX, 1)), i64::MIN);
    assert_eq!(int_of(integer_binary(Op::Minus, i64::MIN, 1)), i64::MAX);
    assert_eq!(int_of(integer_binary(Op::Mul, i64::MAX, 2)), -2);
    assert_eq!(int_of(integer_binary(Op::Div, 7, 2)), 3);
    assert_eq!(int_of(integer_binary(Op::Div, -7, 2)), -3);
    assert_eq!(int_of(integer_binary(Op::Div, 7, -2)), -3);
    assert_eq!(int_of(integer_binary(Op::Div, -7, -2)), 3);
    assert_eq!(int_of(integer_binary(Op::Div, i64::MIN, -1)), i64::MIN);
    assert_eq!(int_of(integer_binary(Op::Mod, 7, 3)), 1);
    assert_eq!(int_of(integer_binary(Op::Mod, -7, 3)), -1);
    assert_eq!(int_of(integer_binary(Op::Mod, 7, -3)), 1);
    assert_eq!(int_of(integer_binary(Op::Mod, i64::MIN, -1)), 0);
    assert_eq!(quotient(i64::MIN, 1), i64::MIN);
    assert_eq!(quotient(i64::MAX, -1), -i64::MAX);
    assert_eq!(remainder(-9, 4), -1);
    assert!(matches!(integer_binary(Op::Div, 1, 0), Err(PipelineError::UndefinedOperation(_))));
    assert!(matches!(integer_binary(Op::Mod, 1, 0), Err(PipelineError::UndefinedOperation(_))));
    assert!(bool_of(integer_binary(Op::Less, 1, 2)));
    assert!(!bool_of(integer_binary(Op::Greater, 1, 2)));
    assert!(bool_of(integer_binary(Op::Equal, 2, 2)));
    assert!(bool_of(integer_binary(Op::NotEqual, 1, 2)));
}

#[test]
fn texts_are_ordered_as_in_a_dictionary() {
    assert_eq!(order_of_texts("abc", "abd"), -1);
    assert_eq!(order_of_texts("abc", "abc"), 0);
    assert_eq!(order_of_texts("b", "abc"), 1);
    assert_eq!(order_of_texts("ab", "abc"), -1);
    assert_eq!(order_of_texts("abc", "ab"), 1);
    assert_eq!(order_of_texts("", ""), 0);
    assert_eq!(order_of_texts("é", "z"), 1);
    assert!(compare_by(Op::Less, -1));
    assert!(!compare_by(Op::Less, 0));
    assert!(compare_by(Op::Greater, 1));
    assert!(compare_by(Op::Equal, 0));
    assert!(compare_by(Op::NotEqual, 1));
}

#[test]
fn integers_as_decimal_text() {
    assert_eq!(integer_text(0), "0");
    assert_eq!(integer_text(7), "7");
    assert_eq!(integer_text(120), "120");
    assert_eq!(integer_text(-45), "-45");
    assert_eq!(integer_text(i64::MAX), "9223372036854775807");
    assert_eq!(integer_text(i64::MIN), "-9223372036854775808");
}

#[test]
fn kinds_and_accessors_of_values() {
    assert_eq!(Dynamic::Unit.type_of(), "Unit");
    assert_eq!(Dynamic::Integer(1).type_of(), "Integer");
    assert_eq!(Dynamic::Float(0).type_of(), "Float");
    assert_eq!(text("a").type_of(), "String");
    assert_eq!(Dynamic::Boolean(true).type_of(), "Boolean");
    assert_eq!(Dynamic::Variable("v".to_string()).type_of(), "Variable");
    assert_eq!(Dynamic::FnPtr(Box::new(FnPtr::new("f"))).type_of(), "Function");
    assert_eq!(Dynamic::Array(Vec::new()).type_of(), "Array");
    assert_eq!(Dynamic::Mapping(Vec::new()).type_of(), "Map");
    assert_eq!(Dynamic::Native(3).type_of(), "Native");
    assert_eq!(
        Dynamic::Struct(Box::new(Struct::new("P".to_string(), Vec::new()))).type_of(),
        "Struct P"
    );
    assert!(text("a").is_string() && !text("a").is_integer());
    assert!(Dynamic::Integer(1).is_integer() && !Dynamic::Integer(1).is_float());
    assert!(Dynamic::Float(1).is_float());
    assert!(Dynamic::Variable("v".to_string()).is_variable());
    assert!(Dynamic::Array(Vec::new()).is_array() && Dynamic::Mapping(Vec::new()).is_map());
    assert_eq!(text("a").as_string(), Some("a".to_string()));
    assert_eq!(Dynamic::Integer(1).as_string(), None);
    assert_eq!(Dynamic::Integer(5).as_integer(), Some(5));
    assert_eq!(Dynamic::Float(9).as_float(), Some(9));
    assert_eq!(Dynamic::Boolean(true).as_bool(), Some(true));
    assert_eq!(Dynamic::Integer(1).as_bool(), None);
    assert_eq!(Dynamic::Variable("v".to_string()).as_variable(), Some("v".to_string()));
    let mut p = FnPtr::new("f");
    assert!(!p.is_defer());
    p.set_defer(true);
    p.set_scope(4);
    assert!(p.is_defer());
    assert_eq!(p.scope, Some(4));
    let d = Dynamic::FnPtr(Box::new(p));
    assert!(d.is_fn_ptr());
    assert_eq!(d.as_fn_ptr().map(|p| p.name.clone()), Some("f".to_string()));
    assert!(Dynamic::Unit.as_fn_ptr().is_none());
    assert!(Dynamic::Unit.as_struct().is_none() && Dynamic::Unit.as_array().is_none());
}

#[test]
fn structs_find_their_fields() {
    let s = Struct::new(
        "P".to_string(),
        vec![
            ("n".to_string(), Value::Immutable(Dynamic::Integer(1))),
            ("m".to_string(), Value::Refer(3)),
        ],
    );
    assert!(matches!(s.get_prop("n"), Some(Value::Immutable(Dynamic::Integer(1)))));
    assert!(matches!(s.get_prop("m"), Some(Value::Refer(3))));
    assert!(s.get_prop("x").is_none());
}

#[test]
fn the_heap_keeps_cells_until_they_are_released() {
    let mut heap = Heap::new();
    assert_eq!(heap.len(), 0);
    let a = heap.allocate(Dynamic::Integer(1));
    let b = heap.allocate(text("b"));
    assert_eq!((a, b, heap.len()), (0, 1, 2));
    assert!(matches!(heap.read(a), Some(Dynamic::Integer(1))));
    assert!(heap.read(2).is_none());
    assert!(heap.write(a, Dynamic::Integer(2)));
    assert!(!heap.write(5, Dynamic::Integer(2)));
    assert!(matches!(heap.read(a), Some(Dynamic::Integer(2))));
    assert!(matches!(heap.release(a), Some(Dynamic::Integer(2))));
    assert!(heap.read(a).is_none());
    assert!(heap.release(a).is_none());
    assert!(!heap.write(a, Dynamic::Unit));
    assert_eq!(heap.len(), 2);
    let c = heap.allocate(Dynamic::Unit);
    assert_eq!(c, 2);
}

#[test]
fn values_stand_for_their_cells() {
    let mut heap = Heap::new();
    let v = Value::with_mutable(Dynamic::Integer(7), &mut heap);
    assert!(matches!(v, Value::Mutable(0)));
    assert!(v.is_mutable() && v.can_mutable() && !v.is_immutable());
    assert_eq!(v.as_integer(&heap), Some(7));
    assert_eq!(v.as_string(&heap), None);
    let weak = v.as_weak().unwrap();
    assert!(matches!(weak, Value::Refer(0)));
    assert!(weak.can_mutable() && !weak.is_mutable());
    assert!(matches!(weak.as_arc(), Some(Value::Mutable(0))));
    assert!(matches!(weak.get_mut_arc(), Some(Value::Mutable(0))));
    assert!(matches!(weak.as_dynamic(&heap), Some(Dynamic::Integer(7))));
    heap.release(0);
    assert!(weak.as_dynamic(&heap).is_none());
    assert!(v.as_dynamic(&heap).is_none());
    let fixed = Value::with_immutable(Dynamic::Boolean(true));
    assert!(fixed.is_immutable() && !fixed.can_mutable());
    assert!(fixed.as_arc().is_none() && fixed.as_weak().is_none() && fixed.get_mut_arc().is_none());
    assert_eq!(fixed.as_bool(&heap), Some(true));
    assert_eq!(Value::Immutable(Dynamic::Float(3)).as_float(&heap), Some(3));
    assert!(matches!(kept(Value::Mutable(2)), Value::Refer(2)));
    assert!(matches!(kept(Value::Refer(2)), Value::Refer(2)));
    assert!(matches!(kept(Value::Immutable(Dynamic::Unit)), Value::Immutable(Dynamic::Unit)));
}

#[test]
fn reading_and_writing_inside_values() {
    let mut a = Dynamic::Array(vec![
        Value::Immutable(Dynamic::Integer(1)),
        Value::Immutable(Dynamic::Integer(2)),
    ]);
    assert!(matches!(a.index(&Dynamic::Integer(1)), Ok(Value::Immutable(Dynamic::Integer(2)))));
    assert!(matches!(a.index(&Dynamic::Integer(2)), Err(PipelineError::UndefinedOperation(_))));
    assert!(matches!(a.index(&Dynamic::Integer(-1)), Err(PipelineError::UndefinedOperation(_))));
    assert!(matches!(a.index(&text("x")), Err(PipelineError::ExpectedType(_))));
    assert!(a.index_assign(Dynamic::Integer(0), Value::Immutable(Dynamic::Integer(9))).is_ok());
    assert!(matches!(
        a.index_assign(Dynamic::Integer(2), Value::Immutable(Dynamic::Unit)),
        Err(PipelineError::UndefinedOperation(_))
    ));
    assert!(matches!(
        a.index_assign(text("k"), Value::Immutable(Dynamic::Unit)),
        Err(PipelineError::ExpectedType(_))
    ));
    assert!(a.append(vec![Value::Immutable(Dynamic::Integer(3))]).is_ok());
    assert_eq!(a.len(), Ok(3));
    assert!(a.remove(&Dynamic::Integer(1)).is_ok());
    assert_eq!(shown(&a), "Array([Immutable(Integer(9)), Immutable(Integer(3))])");
    assert!(matches!(a.remove(&Dynamic::Integer(5)), Err(PipelineError::UndefinedOperation(_))));

    let mut m = Dynamic::Mapping(Vec::new());
    assert!(m.index_assign(text("a"), Value::Immutable(Dynamic::Integer(1))).is_ok());
    assert!(m.index_assign(Dynamic::Integer(2), Value::Immutable(Dynamic::Integer(2))).is_ok());
    assert!(m.index_assign(text("a"), Value::Immutable(Dynamic::Integer(3))).is_ok());
    assert_eq!(m.len(), Ok(2));
    assert!(matches!(m.index(&text("a")), Ok(Value::Immutable(Dynamic::Integer(3)))));
    assert!(matches!(m.index(&Dynamic::Integer(2)), Ok(Value::Immutable(Dynamic::Integer(2)))));
    assert!(matches!(m.index(&text("z")), Err(PipelineError::UndefinedOperation(_))));
    assert!(matches!(
        m.index_assign(Dynamic::Array(Vec::new()), Value::Immutable(Dynamic::Unit)),
        Err(PipelineError::UnexpectedType(_))
    ));
    assert!(m.remove(&text("a")).is_ok());
    assert!(m.remove(&text("a")).is_ok());
    assert_eq!(m.len(), Ok(1));
    assert!(matches!(m.append(Vec::new()), Err(PipelineError::ExpectedType(_))));

    let s = text("héllo");
    match s.index(&Dynamic::Integer(1)) {
        Ok(Value::Immutable(Dynamic::String(c))) => assert_eq!(c, "é"),
        other => panic!("{:?}", other),
    }
    assert!(matches!(s.index(&Dynamic::Integer(5)), Err(PipelineError::UndefinedOperation(_))));
    assert_eq!(s.len(), Ok(5));
    assert!(matches!(Dynamic::Integer(1).len(), Err(PipelineError::UnexpectedType(_))));
    match Dynamic::Integer(1).index(&Dynamic::Integer(0)) {
        Err(PipelineError::UndefinedOperation(t)) => assert_eq!(t, "index [] to Integer"),
        other => panic!("{:?}", other),
    }
    let entries = vec![(text("a"), Value::Refer(0)), (Dynamic::Integer(1), Value::Refer(1))];
    assert_eq!(find_key(&entries, &Dynamic::Integer(1)), Some(1));
    assert_eq!(find_key(&entries, &text("b")), None);
    assert!(same_key(&text("a"), &text("a")));
    assert!(!same_key(&text("a"), &Dynamic::Integer(1)));
    assert!(!same_key(&Dynamic::Array(Vec::new()), &Dynamic::Array(Vec::new())));
}

#[test]
fn what_is_stored_through_a_handle_is_read_through_every_handle() {
    let mut heap = Heap::new();
    let strong = Value::with_mutable(
        Dynamic::Array(vec![Value::Immutable(Dynamic::Integer(1))]),
        &mut heap,
    );
    let weak = strong.as_weak().unwrap();
    assert!(heap.assign_element(&weak, Dynamic::Integer(0), Value::Immutable(text("v"))).is_ok());
    match heap.element(&strong, &Dynamic::Integer(0)) {
        Ok(Value::Immutable(Dynamic::String(s))) => assert_eq!(s, "v"),
        other => panic!("{:?}", other),
    }
    assert!(heap.assign(&weak, Dynamic::Integer(5)).is_ok());
    assert_eq!(strong.as_integer(&heap), Some(5));
    assert!(matches!(
        heap.assign(&Value::Immutable(Dynamic::Unit), Dynamic::Unit),
        Err(PipelineError::UnexpectedType(_))
    ));
    assert!(matches!(
        heap.assign(&Value::Refer(9), Dynamic::Unit),
        Err(PipelineError::VariableUndefined(_))
    ));
    assert!(matches!(
        heap.element(&Value::Refer(9), &Dynamic::Integer(0)),
        Err(PipelineError::VariableUndefined(_))
    ));
    assert!(heap.assign(&strong, Dynamic::Array(Vec::new())).is_ok());
    assert!(heap.append(&weak, vec![Value::Immutable(Dynamic::Integer(1)), Value::Refer(0)]).is_ok());
    assert!(heap.remove_element(&strong, &Dynamic::Integer(0)).is_ok());
    assert!(matches!(heap.element(&strong, &Dynamic::Integer(0)), Ok(Value::Refer(0))));
    assert!(heap.remove_element(&strong, &Dynamic::Integer(3)).is_err());
    assert!(heap.append(&Value::Immutable(Dynamic::Unit), Vec::new()).is_err());
}

#[test]
fn duplicates_are_equal_in_what_they_show() {
    let d = Dynamic::Mapping(vec![(
        text("k"),
        Value::Immutable(Dynamic::Array(vec![Value::Mutable(1), Value::Immutable(text("x"))])),
    )]);
    assert_eq!(shown(&d.duplicate()), shown(&d));
    let s = Dynamic::Struct(Box::new(Struct::new(
        "P".to_string(),
        vec![("n".to_string(), Value::Refer(2))],
    )));
    assert_eq!(shown(&s.duplicate()), shown(&s));
    assert_eq!(format!("{:?}", Value::Refer(3).duplicate()), "Refer(3)");
}

#[test]
fn chains_of_frames_read_through() {
    let empty = EmptyContext::new();
    assert_eq!(Context::<i32>::value(&empty, "k"), None);
    let a = ValueContext::with_value(None, "k", 1);
    let b = ValueContext::with_value(Some(Box::new(a)), "j", 2);
    let c = ValueContext::with_value(Some(Box::new(b)), "k", 3);
    assert_eq!(c.value("k"), Some(&3));
    assert_eq!(c.value("j"), Some(&2));
    assert_eq!(c.value("x"), None);
    let b = c.into_parent().unwrap();
    assert_eq!(b.value("k"), Some(&1));
    assert_eq!(b.value("j"), Some(&2));
}

#[test]
fn settings() {
    let mut c: AppContext<String> = AppContext::new();
    assert_eq!(c.value("workspace"), None);
    c.set_value("workspace", "./".to_string());
    c.set_value("path_task", "all".to_string());
    c.set_value("workspace", "dir".to_string());
    assert_eq!(c.value("workspace"), Some(&"dir".to_string()));
    assert_eq!(c.value("path_task"), Some(&"all".to_string()));
}

#[test]
fn scopes_shadow_and_do_not_overwrite() {
    let mut scope = Scope::new();
    assert!(scope.get("a").is_none());
    scope.set("a", Value::Mutable(1));
    scope.set_parent(0);
    assert!(matches!(scope.get("a"), Some(Value::Mutable(1))));

    let mut scopes = Scopes::new();
    assert_eq!(scopes.len(), 1);
    assert!(scopes.declare(0, "a", Value::Mutable(1)));
    assert!(scopes.declare(0, "b", Value::Mutable(2)));
    let inner = scopes.enter(0);
    let innermost = scopes.enter(inner);
    let beside = scopes.enter(0);
    assert!(matches!(scopes.lookup(innermost, "a"), Some(Value::Mutable(1))));
    assert!(scopes.declare(inner, "a", Value::Mutable(7)));
    assert!(matches!(scopes.lookup(inner, "a"), Some(Value::Mutable(7))));
    assert!(matches!(scopes.lookup(innermost, "a"), Some(Value::Mutable(7))));
    assert!(matches!(scopes.lookup(0, "a"), Some(Value::Mutable(1))));
    assert!(matches!(scopes.lookup(beside, "a"), Some(Value::Mutable(1))));
    assert!(matches!(scopes.lookup(innermost, "b"), Some(Value::Mutable(2))));
    assert!(scopes.lookup(innermost, "c").is_none());
    assert!(scopes.lookup(9, "a").is_none());
    assert!(!scopes.declare(9, "a", Value::Mutable(1)));
}

#[test]
fn merging_modules_keeps_what_is_there() {
    let mut own = Module::new("main");
    own.register_native_function("print", Builtin::Println);
    let std = Module::with_std_module();
    own.merge(&std);
    assert!(matches!(own.get_function("print"), Some(Function::Native(Builtin::Println))));
    assert!(matches!(own.get_function("len"), Some(Function::Native(Builtin::Len))));
    assert!(own.get_function("pipeline").is_none());
    own.merge(&std);
    assert!(matches!(own.get_function("print"), Some(Function::Native(Builtin::Println))));
    assert_eq!(own.get_name(), "main");
    assert!(matches!(
        Module::with_pipe_module().get_function("step"),
        Some(Function::Native(Builtin::Step))
    ));
    assert!(matches!(
        Module::with_math_module().get_function("randomInt"),
        Some(Function::Native(Builtin::RandomInt))
    ));
    assert!(matches!(
        Module::with_layout_module().get_function("set"),
        Some(Function::Native(Builtin::SetVariable))
    ));
}

#[test]
fn classes_and_their_methods() {
    let mut m = Module::new("main");
    assert!(!m.register_method("P", "hello".to_string(), Function::Native(Builtin::Print)));
    m.register_class(Class::new("P".to_string(), Vec::new()));
    assert!(m.get_class("P").is_some() && m.get_class("Q").is_none());
    assert!(m.register_method("P", "hello".to_string(), Function::Native(Builtin::Print)));
    assert!(matches!(m.get_class_function("P", "hello"), Some(Function::Native(Builtin::Print))));
    assert!(m.get_class_function("P", "other").is_none());
    assert!(m.get_class_function("Q", "hello").is_none());
    let mut other = Module::new("other");
    other.merge(&m);
    assert!(matches!(other.get_class_function("P", "hello"), Some(Function::Native(Builtin::Print))));
    assert_eq!(other.class_list().len(), 1);
    let c = m.get_class("P").unwrap().duplicate();
    assert_eq!(c.get_name(), "P");
    assert!(c.get_method("hello").is_some());
}

#[test]
fn the_logger_in_serial_mode_shows_lines_as_they_come() {
    let mut logger = PipelineLogger::new();
    assert_eq!(
        logger.task_out("build", "one\r"),
        vec!["\u{1b}[32mRunning Task build\u{1b}[0m".to_string(), "  ╰─▶[Out]:one".to_string()]
    );
    assert_eq!(logger.task_out("build", "two"), vec!["  ╰─▶[Out]:two".to_string()]);
    assert_eq!(
        logger.task_err("build", "bad"),
        vec!["  ╰─▶\u{1b}[31m[Err]:bad\u{1b}[0m".to_string()]
    );
    assert_eq!(
        logger.task_err("test", "worse"),
        vec![
            "\u{1b}[31mRunning Task test\u{1b}[0m".to_string(),
            "  ╰─▶\u{1b}[31m[Err]:worse\u{1b}[0m".to_string()
        ]
    );
}

#[test]
fn the_logger_in_parallel_mode_draws_the_whole_screen() {
    let mut logger = PipelineLogger::new();
    logger.set_parallel(true);
    logger.task_out("a", "1");
    logger.task_out("b", "2");
    assert_eq!(
        logger.task_err("a", "3"),
        vec![
            "\u{1b}[2J\u{1b}[H".to_string(),
            "\u{1b}[32mRunning Task a\u{1b}[0m".to_string(),
            "  ╰─▶[Out]:1".to_string(),
            "  ╰─▶\u{1b}[31m[Err]:3\u{1b}[0m".to_string(),
            "\u{1b}[32mRunning Task b\u{1b}[0m".to_string(),
            "  ╰─▶[Out]:2".to_string(),
        ]
    );
}

#[test]
fn shown_lines_lose_carriage_returns_and_the_padding() {
    let padding = " ".repeat(23);
    assert_eq!(show_line(&format!("a\r{}b\r\n", padding)), "  ╰─▶ab\n");
    assert_eq!(show_line(&" ".repeat(22)), format!("  ╰─▶{}", " ".repeat(22)));
    assert_eq!(show_line(&" ".repeat(47)), "  ╰─▶ ");
    let t: Vec<char> = "aXXbXXXc".chars().collect();
    let p: Vec<char> = "XX".chars().collect();
    assert_eq!(strip(&t, &p), "abXc".chars().collect::<Vec<char>>());
    assert_eq!(strip(&t, &Vec::new()), t);
}

#[test]
fn operations_from_their_names() {
    let p = |v: &[&str]| v.iter().map(|s| s.to_string()).collect::<Vec<String>>();
    assert!(matches!(OperationType::from_str("cmd", p(&["ls"])), OperationType::Cmd(c) if c == "ls"));
    assert!(matches!(
        OperationType::from_str("workspace", p(&["d"])),
        OperationType::Workspace(c) if c == "d"
    ));
    assert!(matches!(
        OperationType::from_str("move", p(&["a", "b"])),
        OperationType::Move(a, b) if a == "a" && b == "b"
    ));
    assert!(matches!(
        OperationType::from_str("copy", p(&["a", "b"])),
        OperationType::Copy(a, b) if a == "a" && b == "b"
    ));
    assert!(matches!(
        OperationType::from_str("replace", p(&["a", "b", "c"])),
        OperationType::Replace(a, b, c) if a == "a" && b == "b" && c == "c"
    ));
    assert!(matches!(
        OperationType::from_str("other", p(&["a"])),
        OperationType::UnKnown(n, v) if n == "other" && v.len() == 1
    ));
    assert!(matches!(
        OperationType::from_str("copy", p(&["a"])),
        OperationType::UnKnown(n, v) if n == "copy" && v.len() == 1
    ));
    assert!(matches!(Operation::new().get_type(), OperationType::UnKnown(n, v) if n.is_empty() && v.is_empty()));
    assert!(matches!(Operation::from_str("cmd", p(&["x"])).get_type(), OperationType::Cmd(_)));
    assert_eq!(TaskType::from_str("step"), TaskType::Step);
    assert_eq!(TaskType::from_str("parallel"), TaskType::Parallel);
    assert_eq!(TaskType::from_str("other"), TaskType::UnDefine);
}

#[test]
fn which_commands_may_write_gbk() {
    assert!(is_system_gbk_output_command("ls -l"));
    assert!(is_system_gbk_output_command("mkdir x"));
    assert!(!is_system_gbk_output_command("move a b"));
    assert!(!is_system_gbk_output_command("l"));
    assert!(!is_system_gbk_output_command(" ls"));
    assert!(is_system_gbk_err_command("move a b"));
    assert!(is_system_gbk_err_command("ls"));
    assert!(!is_system_gbk_err_command("cargo build"));
}

#[test]
fn lines_are_decoded_as_utf8_first() {
    assert_eq!(decode_line(&"héllo 中文".as_bytes().to_vec(), false), "héllo 中文");
    assert_eq!(decode_line(&"héllo 中文".as_bytes().to_vec(), true), "héllo 中文");
    let gbk = vec![0xD6, 0xD0, 0xCE, 0xC4];
    assert_eq!(decode_line(&gbk, true), "中文");
    assert_eq!(decode_line(&gbk, false), "\u{fffd}\u{fffd}\u{fffd}\u{fffd}");
    assert_eq!(decode_line(&Vec::new(), true), "");
}

#[test]
fn patterns_replace_all_matches() {
    assert_eq!(regex_replace_all("[0-9]+", "a1b22c", "N"), Ok("aNbNc".to_string()));
    assert_eq!(regex_replace_all("(a)(b)", "abab", "$2$1"), Ok("baba".to_string()));
    assert_eq!(regex_replace_all("x", "abc", "y"), Ok("abc".to_string()));
    match regex_replace_all("(", "abc", "y") {
        Err(PipelineError::HostError(message)) => assert!(!message.is_empty()),
        other => panic!("{:?}", other),
    }
}

#[test]
fn random_integers_stay_in_their_range() {
    for _ in 0..200 {
        let r = random_integer(Some(3), Some(5)).unwrap();
        assert!((3..=5).contains(&r));
        let r = random_integer(Some(2), None).unwrap();
        assert!((0..=2).contains(&r));
    }
    assert_eq!(random_integer(Some(4), Some(4)), Ok(4));
    assert!(random_integer(None, None).is_ok());
    assert!(matches!(random_integer(Some(5), Some(3)), Err(PipelineError::UndefinedOperation(_))));
    assert!(matches!(random_integer(Some(-1), None), Err(PipelineError::UndefinedOperation(_))));
}

#[test]
fn templates_are_rendered_from_the_left() {
    let values = vec![("name".to_string(), "x".to_string()), ("_b2".to_string(), "${name}".to_string())];
    assert_eq!(render_template("a ${name} b ${_b2}!", &values), Ok("a x b ${name}!".to_string()));
    assert_eq!(render_template("${name}${name}", &values), Ok("xx".to_string()));
    assert_eq!(render_template("$ {name} ${} ${1a} ${name", &values), Ok("$ {name} ${} ${1a} ${name".to_string()));
    assert_eq!(render_template("${a${name}", &values), Ok("${ax".to_string()));
    assert_eq!(render_template("", &values), Ok(String::new()));
    assert_eq!(
        render_template("${name} ${other} ${third}", &values),
        Err(PipelineError::VariableUndefined("other".to_string()))
    );
}

#[test]
fn paths_set_the_filters() {
    assert_eq!(split_path(""), ("all".to_string(), "all".to_string()));
    assert_eq!(split_path("build"), ("build".to_string(), "all".to_string()));
    assert_eq!(split_path("build.test"), ("build".to_string(), "test".to_string()));
    assert_eq!(split_path("build."), ("build".to_string(), "all".to_string()));
    assert_eq!(split_path(".test"), ("all".to_string(), "test".to_string()));
    assert_eq!(split_path("a.b.c"), ("a".to_string(), "b".to_string()));
    assert!(is_selected("all", "x") && is_selected("x", "x") && !is_selected("y", "x"));
    let mut engine = PipelineEngine::new_raw();
    engine.set_path("a.b");
    assert_eq!(engine.interpreter.globals.value("path_pipeline"), Some(&"a".to_string()));
    assert_eq!(engine.interpreter.globals.value("path_task"), Some(&"b".to_string()));
    assert_eq!(engine.interpreter.workspace(), "./");
}

#[test]
fn calls_resolve_in_the_order_of_module_method_function() {
    assert_eq!(split_scoped("m::f"), Some(("m".to_string(), "f".to_string())));
    assert_eq!(split_scoped("a::b::c"), Some(("a".to_string(), "b::c".to_string())));
    assert_eq!(split_scoped("f"), None);
    assert_eq!(split_scoped("a:b"), None);
    let mut i = Interpreter::new();
    let mut main = Module::new("main");
    main.register_native_function("len", Builtin::Len);
    main.register_native_function("hello", Builtin::Print);
    main.register_class(Class::new("P".to_string(), Vec::new()));
    main.register_method("P", "hello".to_string(), Function::Native(Builtin::Println));
    i.main_module = main;
    i.register_module("std", Module::with_std_module());
    let p = Value::with_mutable(
        Dynamic::Struct(Box::new(Struct::new("P".to_string(), Vec::new()))),
        &mut i.heap,
    );
    let n = Value::Immutable(Dynamic::Integer(1));
    assert!(matches!(i.resolve("std::print", None), Ok((Function::Native(Builtin::Print), false))));
    assert_eq!(i.resolve("nothing::print", None).unwrap_err(), PipelineError::UnknownModule("nothing".to_string()));
    assert_eq!(
        i.resolve("std::nothing", None).unwrap_err(),
        PipelineError::FunctionUndefined("std::nothing".to_string())
    );
    assert!(matches!(i.resolve("hello", Some(&p)), Ok((Function::Native(Builtin::Println), true))));
    assert!(matches!(i.resolve("hello", Some(&n)), Ok((Function::Native(Builtin::Print), false))));
    assert!(matches!(i.resolve("hello", None), Ok((Function::Native(Builtin::Print), false))));
    assert!(matches!(i.resolve("len", Some(&p)), Ok((Function::Native(Builtin::Len), false))));
    assert_eq!(i.resolve("other", Some(&p)).unwrap_err(), PipelineError::FunctionUndefined("other".to_string()));
    assert!(i.get_module("std").is_some() && i.get_module("pipe").is_none());
    assert!(i.merge_into_main_module("std").is_ok());
    assert!(matches!(i.resolve("hello", None), Ok((Function::Native(Builtin::Print), false))));
    assert!(matches!(i.resolve("cmd", None), Ok((Function::Native(Builtin::Cmd), false))));
    assert_eq!(i.merge_into_main_module("x").unwrap_err(), PipelineError::UnknownModule("x".to_string()));
}

#[test]
fn errors_are_presented_with_kind_and_detail() {
    let e = PipelineError::VariableUndefined("x".to_string());
    assert_eq!(e.kind(), "VariableUndefined");
    assert_eq!(e.detail(), "x");
    assert_eq!(e.position(), None);
    assert_eq!(e.present(), "\u{1b}[31m[Error]:VariableUndefined:x\u{1b}[0m");
    let e = PipelineError::UnexpectedChar('#', Position::new(3, 1));
    assert_eq!(e.present(), "\u{1b}[31m[Error]:UnexpectedChar:#\u{1b}[0m");
    assert_eq!(e.position(), Some(Position::new(3, 1)));
    let e = PipelineError::UnexpectedToken(Token::Identifier("of".to_string()));
    assert_eq!((e.kind(), e.detail()), ("UnexpectedToken", "of".to_string()));
    assert_eq!(PipelineError::UnexpectedToken(Token::Comma).detail(), "");
    assert_eq!(PipelineError::BudgetExhausted.present(), "\u{1b}[31m[Error]:BudgetExhausted:\u{1b}[0m");
    for (e, kind) in [
        (PipelineError::FunctionUndefined("f".to_string()), "FunctionUndefined"),
        (PipelineError::ExpectedType("t".to_string()), "ExpectedType"),
        (PipelineError::UnexpectedType("t".to_string()), "UnexpectedType"),
        (PipelineError::UnusedKeyword("k".to_string()), "UnusedKeyword"),
        (PipelineError::UnknownModule("m".to_string()), "UnknownModule"),
        (PipelineError::UndefinedOperation("o".to_string()), "UndefinedOperation"),
        (PipelineError::HostError("h".to_string()), "HostError"),
        (PipelineError::SchedulerError("s".to_string()), "SchedulerError"),
    ] {
        assert_eq!(e.kind(), kind);
        assert_eq!(e.detail().len(), 1);
    }
}

#[test]
fn a_method_is_given_to_the_class_of_its_name() {
    let mut classes: Vec<(String, Class)> = Vec::new();
    table::put(&mut classes, "A".to_string(), Class::new("A".to_string(), Vec::new()));
    table::put(&mut classes, "B".to_string(), Class::new("B".to_string(), Vec::new()));
    assert!(give_method(&mut classes, "B", "m".to_string(), Function::Native(Builtin::Len)));
    assert!(!give_method(&mut classes, "C", "m".to_string(), Function::Native(Builtin::Len)));
    assert_eq!(classes.len(), 2);
    assert_eq!(classes[0].0, "A");
    assert!(classes[0].1.get_method("m").is_none());
    assert_eq!(classes[1].0, "B");
    assert!(matches!(classes[1].1.get_method("m"), Some(Function::Native(Builtin::Len))));
    assert!(give_method(&mut classes, "B", "m".to_string(), Function::Native(Builtin::Print)));
    assert!(matches!(classes[1].1.get_method("m"), Some(Function::Native(Builtin::Print))));
    assert_eq!(classes[1].1.methods.len(), 1);
}

#[test]
fn every_error_has_its_kind() {
    assert_eq!(PipelineError::VariableUndefined("x".to_string()).fault(), Fault::VariableUndefined);
    assert_eq!(PipelineError::UnexpectedToken(Token::Comma).fault(), Fault::UnexpectedToken);
    assert_eq!(PipelineError::BudgetExhausted.fault(), Fault::BudgetExhausted);
    assert_eq!(PipelineError::HostError("h".to_string()).fault(), Fault::HostError);
}

#[test]
fn what_a_command_has_written_is_split_at_the_line_ends() {
    let lines = |t: &str| -> Vec<String> {
        lines_of(&t.as_bytes().to_vec()).into_iter().map(|l| String::from_utf8(l).unwrap()).collect()
    };
    assert_eq!(lines("a\nb\n"), vec!["a", "b"]);
    assert_eq!(lines("a\nb"), vec!["a", "b"]);
    assert_eq!(lines(""), Vec::<String>::new());
    assert_eq!(lines("\n"), vec![""]);
    assert_eq!(lines("a\n\n"), vec!["a", ""]);
    assert_eq!(lines("\n\na"), vec!["", "", "a"]);
    assert_eq!(lines("a\r\nb"), vec!["a\r", "b"]);
}
