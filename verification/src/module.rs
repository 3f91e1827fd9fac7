//! Modules: named collections of functions and classes.

use vstd::prelude::*;
use vstd::string::StringExecFns;
use std::sync::Arc;
use crate::table::{contains, filled, get, lemma_filled, put, put_new, table_map};
use crate::v1::parser::{FnDef, VariableDeclaration};

verus! {

/// The functions that the engine itself provides.
#[derive(Debug, Clone, Copy, PartialEq, Eq, Structural)]
pub enum Builtin {
    Print,
    Println,
    CallClosure,
    Remove,
    Append,
    Len,
    TypeOf,
    CloneValue,
    ReadLine,
    ReadInt,
    ReadFloat,
    ReadString,
    Cmd,
    Env,
    Workspace,
    CopyPath,
    MovePath,
    Replace,
    Max,
    RandomInt,
    Pipeline,
    Parallel,
    Step,
    Layout,
    Template,
    Folder,
    SetVariable,
}

/// Something that can be called: a function of the engine, or one that the
/// script defines, as a function or as a method of a class.
#[derive(Debug, Clone)]
pub enum Function {
    Native(Builtin),
    Script(Arc<FnDef>),
    Method(Arc<FnDef>),
}

impl Function {
    /// A copy of the function; a definition of the script is shared.
    pub fn duplicate(&self) -> (f: Self)
        ensures
            f == *self,
    {
        match self {
            Function::Native(b) => Function::Native(*b),
            Function::Script(d) => Function::Script(d.clone()),
            Function::Method(d) => Function::Method(d.clone()),
        }
    }
}

/// A class: its name, its declared fields and its methods.
#[derive(Debug)]
pub struct Class {
    pub name: String,
    pub fields: Vec<VariableDeclaration>,
    pub methods: Vec<(String, Function)>,
}

impl Class {
    /// The methods of the class by name.
    pub open spec fn method_map(&self) -> Map<Seq<char>, Function> {
        table_map(self.methods@)
    }

    /// The class `name` with the given fields and no methods.
    pub fn new(name: String, fields: Vec<VariableDeclaration>) -> (c: Self)
        ensures
            c.name == name,
            c.fields == fields,
            c.methods@.len() == 0,
    {
        Self { name, fields, methods: Vec::new() }
    }

    pub fn get_name(&self) -> (n: String)
        ensures
            n == self.name,
    {
        self.name.clone()
    }

    /// Gives the class the method `name`; a method of that name is
    /// replaced.
    pub fn register_method(&mut self, name: String, f: Function)
        ensures
            final(self).method_map() == old(self).method_map().insert(name@, f),
            final(self).name == old(self).name,
            final(self).fields == old(self).fields,
    {
        put(&mut self.methods, name, f);
    }

    /// The method called `name`.
    pub fn get_method(&self, name: &str) -> (r: Option<&Function>)
        ensures
            match r {
                Some(f) => self.method_map().contains_key(name@) && self.method_map()[name@] == *f,
                None => !self.method_map().contains_key(name@),
            },
    {
        get(&self.methods, name)
    }

    /// A copy of the class.
    pub fn duplicate(&self) -> (c: Self)
        ensures
            c.name == self.name,
            c.method_map() == self.method_map(),
            c.fields@.len() == self.fields@.len(),
            forall|i: int|
                0 <= i < self.fields@.len() ==> (#[trigger] c.fields@[i]).name == self.fields@[i].name
                    && c.fields@[i].declaration_type == self.fields@[i].declaration_type,
    {
        let mut fields: Vec<VariableDeclaration> = Vec::new();
        let mut i: usize = 0;
        while i < self.fields.len()
            invariant
                i <= self.fields.len(),
                fields.len() == i,
                forall|k: int|
                    0 <= k < i ==> (#[trigger] fields@[k]).name == self.fields@[k].name
                        && fields@[k].declaration_type == self.fields@[k].declaration_type,
            decreases self.fields.len() - i,
        {
            fields.push(
                VariableDeclaration::new(
                    self.fields[i].name.clone(),
                    self.fields[i].declaration_type.clone(),
                ),
            );
            i += 1;
        }
        let mut methods: Vec<(String, Function)> = Vec::new();
        let mut j: usize = 0;
        while j < self.methods.len()
            invariant
                j <= self.methods.len(),
                table_map(methods@) == filled(Map::empty(), self.methods@, j as int),
            decreases self.methods.len() - j,
        {
            put_new(&mut methods, self.methods[j].0.clone(), self.methods[j].1.duplicate());
            j += 1;
        }
        proof {
            lemma_filled(Map::<Seq<char>, Function>::empty(), self.methods@, self.methods@.len() as int);
            assert(self.methods@.take(self.methods@.len() as int) =~= self.methods@);
            assert(table_map(self.methods@).union_prefer_right(Map::<Seq<char>, Function>::empty())
                =~= table_map(self.methods@));
        }
        Self { name: self.name.clone(), fields, methods }
    }
}

/// Whether the classes `after` are the classes `before` with the method
/// `f` entered under `name` in the class called `class`.
pub open spec fn given(
    before: Map<Seq<char>, Class>,
    after: Map<Seq<char>, Class>,
    class: Seq<char>,
    name: Seq<char>,
    f: Function,
) -> bool {
    &&& after.dom() == before.dom()
    &&& forall|k: Seq<char>| k != class && before.contains_key(k) ==> #[trigger] after[k] == before[k]
    &&& after[class].name == before[class].name
    &&& after[class].fields == before[class].fields
    &&& after[class].method_map() == before[class].method_map().insert(name, f)
}

/// Gives the class called `class` the method `name`; a method of that name
/// is replaced. Says whether the class exists; where it does not, nothing
/// changes.
pub fn give_method(classes: &mut Vec<(String, Class)>, class: &str, name: String, f: Function) -> (done: bool)
    ensures
        done == table_map(old(classes)@).contains_key(class@),
        done ==> given(table_map(old(classes)@), table_map(final(classes)@), class@, name@, f),
        !done ==> *final(classes) == *old(classes),
{
    match crate::table::locate(classes, class) {
        Some(i) => {
            let ghost before = classes@;
            classes.push((String::new(), Class::new(String::new(), Vec::new())));
            let (key, mut c) = classes.swap_remove(i);
            c.register_method(name, f);
            classes.set(i, (key, c));
            proof {
                let ns = crate::table::names(before);
                let vs = crate::table::values_of(before);
                assert(crate::table::names(classes@) =~= ns);
                assert(crate::table::values_of(classes@) =~= vs.update(i as int, c));
                crate::table::lemma_position_of(ns, class@);
                crate::table::lemma_map_update(ns, vs, class@, c);
                assert(table_map(classes@).dom() =~= table_map(before).dom());
            }
            true
        },
        None => false,
    }
}

/// A named collection of functions and classes.
#[derive(Debug)]
pub struct Module {
    name: String,
    functions: Vec<(String, Function)>,
    classes: Vec<(String, Class)>,
}

/// A class that a module does not have has no methods.
pub proof fn lemma_methods_of_unknown_class(m: Module, class: Seq<char>)
    requires
        !m.class_names().contains(class),
    ensures
        m.methods(class) == Map::<Seq<char>, Function>::empty(),
{
}

/// The entries of `other` added to `own`, where `own` keeps what it has.
pub open spec fn merged<T>(own: Map<Seq<char>, T>, other: Map<Seq<char>, T>) -> Map<Seq<char>, T> {
    other.union_prefer_right(own)
}

/// Merging a module into another a second time changes nothing.
pub proof fn lemma_merge_twice<T>(own: Map<Seq<char>, T>, other: Map<Seq<char>, T>)
    ensures
        merged(merged(own, other), other) == merged(own, other),
{
    assert(merged(merged(own, other), other) =~= merged(own, other));
}

/// Merging keeps every entry that was there, and gains exactly the entries
/// of the other module whose names were missing.
pub proof fn lemma_merge_keeps<T>(own: Map<Seq<char>, T>, other: Map<Seq<char>, T>, name: Seq<char>)
    ensures
        own.contains_key(name) ==> merged(own, other).contains_key(name) && merged(own, other)[name]
            == own[name],
        !own.contains_key(name) && other.contains_key(name) ==> merged(own, other).contains_key(name)
            && merged(own, other)[name] == other[name],
        merged(own, other).contains_key(name) == (own.contains_key(name) || other.contains_key(name)),
{
}

impl Module {
    /// The name of the module.
    pub closed spec fn name(&self) -> Seq<char> {
        self.name@
    }

    /// The functions of the module by name.
    pub closed spec fn functions(&self) -> Map<Seq<char>, Function> {
        table_map(self.functions@)
    }

    /// The classes of the module by name.
    pub closed spec fn classes(&self) -> Map<Seq<char>, Class> {
        table_map(self.classes@)
    }

    /// The names of the classes of the module.
    pub closed spec fn class_names(&self) -> Set<Seq<char>> {
        table_map(self.classes@).dom()
    }

    /// The methods of the class called `class`, by name.
    pub closed spec fn methods(&self, class: Seq<char>) -> Map<Seq<char>, Function> {
        if table_map(self.classes@).contains_key(class) {
            table_map(self.classes@)[class].method_map()
        } else {
            Map::empty()
        }
    }

    /// The module `name` without functions and classes.
    pub fn new(name: &str) -> (m: Self)
        ensures
            m.name() == name@,
            m.functions() == Map::<Seq<char>, Function>::empty(),
            m.class_names() == Set::<Seq<char>>::empty(),
    {
        let m = Self { name: String::from_str(name), functions: Vec::new(), classes: Vec::new() };
        assert(m.functions() =~= Map::<Seq<char>, Function>::empty());
        assert(m.class_names() =~= Set::<Seq<char>>::empty());
        m
    }

    pub fn get_name(&self) -> (n: String)
        ensures
            n@ == self.name(),
    {
        self.name.clone()
    }

    /// Enters the function of the engine `f` under `name`; a function of
    /// that name is replaced.
    pub fn register_native_function(&mut self, name: &str, f: Builtin)
        ensures
            final(self).functions() == old(self).functions().insert(name@, Function::Native(f)),
            final(self).classes() == old(self).classes(),
            final(self).name() == old(self).name(),
            final(self).class_names() == old(self).class_names(),
            forall|c: Seq<char>| final(self).methods(c) == old(self).methods(c),
    {
        put(&mut self.functions, String::from_str(name), Function::Native(f));
    }

    /// Enters the function `f` of a script under `name`; a function of that
    /// name is replaced.
    pub fn register_script_function(&mut self, name: &str, f: Arc<FnDef>)
        ensures
            final(self).functions() == old(self).functions().insert(name@, Function::Script(f)),
            final(self).classes() == old(self).classes(),
            final(self).name() == old(self).name(),
            final(self).class_names() == old(self).class_names(),
            forall|c: Seq<char>| final(self).methods(c) == old(self).methods(c),
    {
        put(&mut self.functions, String::from_str(name), Function::Script(f));
    }

    /// Enters the class under its name; a class of that name is replaced.
    pub fn register_class(&mut self, class: Class)
        ensures
            final(self).classes() == old(self).classes().insert(class.name@, class),
            final(self).class_names() == old(self).class_names().insert(class.name@),
            final(self).methods(class.name@) == class.method_map(),
            forall|c: Seq<char>| c != class.name@ ==> final(self).methods(c) == old(self).methods(c),
            final(self).functions() == old(self).functions(),
            final(self).name() == old(self).name(),
    {
        let name = class.name.clone();
        put(&mut self.classes, name, class);
        assert(self.class_names() =~= old(self).class_names().insert(class.name@));
    }

    /// The classes of the module with their names. Of two classes of one
    /// name the first is the one that counts.
    pub fn class_list(&self) -> (list: &Vec<(String, Class)>)
        ensures
            table_map(list@) == self.classes(),
    {
        &self.classes
    }

    /// The function called `name`.
    pub fn get_function(&self, name: &str) -> (r: Option<Function>)
        ensures
            match r {
                Some(f) => self.functions().contains_key(name@) && self.functions()[name@] == f,
                None => !self.functions().contains_key(name@),
            },
    {
        match get(&self.functions, name) {
            Some(f) => Some(f.duplicate()),
            None => None,
        }
    }

    /// The class called `name`.
    pub fn get_class(&self, name: &str) -> (r: Option<&Class>)
        ensures
            match r {
                Some(c) => self.class_names().contains(name@) && self.methods(name@)
                    == c.method_map(),
                None => !self.class_names().contains(name@),
            },
    {
        get(&self.classes, name)
    }

    /// The method `method` of the class `class`.
    pub fn get_class_function(&self, class: &str, method: &str) -> (r: Option<Function>)
        ensures
            match r {
                Some(f) => self.methods(class@).contains_key(method@) && self.methods(
                    class@,
                )[method@] == f,
                None => !self.methods(class@).contains_key(method@),
            },
    {
        match get(&self.classes, class) {
            Some(c) => match c.get_method(method) {
                Some(f) => Some(f.duplicate()),
                None => None,
            },
            None => None,
        }
    }

    /// Gives the class `class` the method `name`. Says whether the class
    /// exists; where it does not, nothing changes.
    pub fn register_method(&mut self, class: &str, name: String, f: Function) -> (done: bool)
        ensures
            done == old(self).class_names().contains(class@),
            final(self).functions() == old(self).functions(),
            final(self).name() == old(self).name(),
            final(self).class_names() == old(self).class_names(),
            done ==> final(self).methods(class@) == old(self).methods(class@).insert(name@, f),
            forall|c: Seq<char>|
                c != class@ || !done ==> final(self).methods(c) == old(self).methods(c),
    {
        give_method(&mut self.classes, class, name, f)
    }

    /// Copies into this module every function and class of `module` whose
    /// name this module does not have yet. What this module has stays.
    pub fn merge(&mut self, module: &Module)
        ensures
            final(self).functions() == merged(old(self).functions(), module.functions()),
            final(self).class_names() == old(self).class_names().union(module.class_names()),
            forall|c: Seq<char>|
                final(self).methods(c) == (if old(self).class_names().contains(c) {
                    old(self).methods(c)
                } else {
                    module.methods(c)
                }),
            final(self).name() == old(self).name(),
    {
        let ghost own = self.functions();
        let ghost own_classes = table_map(self.classes@);
        let mut i: usize = 0;
        while i < module.functions.len()
            invariant
                i <= module.functions.len(),
                table_map(self.functions@) == filled(own, module.functions@, i as int),
                self.classes == old(self).classes,
                self.name == old(self).name,
            decreases module.functions.len() - i,
        {
            put_new(
                &mut self.functions,
                module.functions[i].0.clone(),
                module.functions[i].1.duplicate(),
            );
            i += 1;
        }
        proof {
            lemma_filled(own, module.functions@, module.functions@.len() as int);
            assert(module.functions@.take(module.functions@.len() as int) =~= module.functions@);
        }
        let ghost shadow: Map<Seq<char>, Map<Seq<char>, Function>> = Map::new(
            |c: Seq<char>| own_classes.contains_key(c),
            |c: Seq<char>| own_classes[c].method_map(),
        );
        let mut j: usize = 0;
        while j < module.classes.len()
            invariant
                j <= module.classes.len(),
                table_map(self.functions@) == merged(own, module.functions()),
                self.name == old(self).name,
                own_classes == table_map(old(self).classes@),
                forall|c: Seq<char>|
                    #[trigger] table_map(self.classes@).contains_key(c) == (own_classes.contains_key(
                        c,
                    ) || filled(Map::<Seq<char>, Class>::empty(), module.classes@, j as int).contains_key(c)),
                forall|c: Seq<char>|
                    table_map(self.classes@).contains_key(c) ==> (#[trigger] table_map(
                        self.classes@,
                    )[c]).method_map() == (if own_classes.contains_key(c) {
                        own_classes[c].method_map()
                    } else {
                        filled(Map::<Seq<char>, Class>::empty(), module.classes@, j as int)[c].method_map()
                    }),
            decreases module.classes.len() - j,
        {
            let class = module.classes[j].1.duplicate();
            put_new(&mut self.classes, module.classes[j].0.clone(), class);
            j += 1;
        }
        proof {
            lemma_filled(Map::<Seq<char>, Class>::empty(), module.classes@, module.classes@.len() as int);
            assert(module.classes@.take(module.classes@.len() as int) =~= module.classes@);
            assert(table_map(module.classes@).union_prefer_right(Map::<Seq<char>, Class>::empty())
                =~= table_map(module.classes@));
            assert(self.class_names() =~= old(self).class_names().union(module.class_names()));
        }
    }

    /// The module `std`: the console, values, commands and files.
    pub fn with_std_module() -> (m: Self)
        ensures
            m.name() == "std"@,
            m.functions() == std_functions(),
    {
        let mut m = Module::new("std");
        m.register_native_function("print", Builtin::Print);
        m.register_native_function("println", Builtin::Println);
        m.register_native_function("call", Builtin::CallClosure);
        m.register_native_function("remove", Builtin::Remove);
        m.register_native_function("append", Builtin::Append);
        m.register_native_function("len", Builtin::Len);
        m.register_native_function("type", Builtin::TypeOf);
        m.register_native_function("clone", Builtin::CloneValue);
        m.register_native_function("readLine", Builtin::ReadLine);
        m.register_native_function("readInt", Builtin::ReadInt);
        m.register_native_function("readFloat", Builtin::ReadFloat);
        m.register_native_function("readString", Builtin::ReadString);
        m.register_native_function("cmd", Builtin::Cmd);
        m.register_native_function("env", Builtin::Env);
        m.register_native_function("workspace", Builtin::Workspace);
        m.register_native_function("copy", Builtin::CopyPath);
        m.register_native_function("move", Builtin::MovePath);
        m.register_native_function("replace", Builtin::Replace);
        m
    }

    /// The module `math`.
    pub fn with_math_module() -> (m: Self)
        ensures
            m.name() == "math"@,
            m.functions() == math_functions(),
    {
        let mut m = Module::new("math");
        m.register_native_function("max", Builtin::Max);
        m.register_native_function("randomInt", Builtin::RandomInt);
        m
    }

    /// The module `pipe`: pipelines and their tasks.
    pub fn with_pipe_module() -> (m: Self)
        ensures
            m.name() == "pipe"@,
            m.functions() == pipe_functions(),
    {
        let mut m = Module::new("pipe");
        m.register_native_function("pipeline", Builtin::Pipeline);
        m.register_native_function("parallel", Builtin::Parallel);
        m.register_native_function("step", Builtin::Step);
        m
    }

    /// The module `layout`: templates of projects.
    pub fn with_layout_module() -> (m: Self)
        ensures
            m.name() == "layout"@,
            m.functions() == layout_functions(),
    {
        let mut m = Module::new("layout");
        m.register_native_function("layout", Builtin::Layout);
        m.register_native_function("template", Builtin::Template);
        m.register_native_function("folder", Builtin::Folder);
        m.register_native_function("set", Builtin::SetVariable);
        m
    }
}

/// `functions` with the function of the engine `f` under `name`.
pub open spec fn with_native(functions: Map<Seq<char>, Function>, name: Seq<char>, f: Builtin) -> Map<
    Seq<char>,
    Function,
> {
    functions.insert(name, Function::Native(f))
}

/// The functions of the module `std`.
pub open spec fn std_functions() -> Map<Seq<char>, Function> {
    let m = Map::<Seq<char>, Function>::empty();
    let m = with_native(m, "print"@, Builtin::Print);
    let m = with_native(m, "println"@, Builtin::Println);
    let m = with_native(m, "call"@, Builtin::CallClosure);
    let m = with_native(m, "remove"@, Builtin::Remove);
    let m = with_native(m, "append"@, Builtin::Append);
    let m = with_native(m, "len"@, Builtin::Len);
    let m = with_native(m, "type"@, Builtin::TypeOf);
    let m = with_native(m, "clone"@, Builtin::CloneValue);
    let m = with_native(m, "readLine"@, Builtin::ReadLine);
    let m = with_native(m, "readInt"@, Builtin::ReadInt);
    let m = with_native(m, "readFloat"@, Builtin::ReadFloat);
    let m = with_native(m, "readString"@, Builtin::ReadString);
    let m = with_native(m, "cmd"@, Builtin::Cmd);
    let m = with_native(m, "env"@, Builtin::Env);
    let m = with_native(m, "workspace"@, Builtin::Workspace);
    let m = with_native(m, "copy"@, Builtin::CopyPath);
    let m = with_native(m, "move"@, Builtin::MovePath);
    with_native(m, "replace"@, Builtin::Replace)
}

/// The functions of the module `math`.
pub open spec fn math_functions() -> Map<Seq<char>, Function> {
    let m = Map::<Seq<char>, Function>::empty();
    let m = with_native(m, "max"@, Builtin::Max);
    with_native(m, "randomInt"@, Builtin::RandomInt)
}

/// The functions of the module `pipe`.
pub open spec fn pipe_functions() -> Map<Seq<char>, Function> {
    let m = Map::<Seq<char>, Function>::empty();
    let m = with_native(m, "pipeline"@, Builtin::Pipeline);
    let m = with_native(m, "parallel"@, Builtin::Parallel);
    with_native(m, "step"@, Builtin::Step)
}

/// The functions of the module `layout`.
pub open spec fn layout_functions() -> Map<Seq<char>, Function> {
    let m = Map::<Seq<char>, Function>::empty();
    let m = with_native(m, "layout"@, Builtin::Layout);
    let m = with_native(m, "template"@, Builtin::Template);
    let m = with_native(m, "folder"@, Builtin::Folder);
    with_native(m, "set"@, Builtin::SetVariable)
}

} // verus!
