//! The values of the scripting language.
//!
//! A [`Dynamic`] is a value with its kind. A [`Value`] says how a `Dynamic`
//! is held: owned and fixed (`Immutable`), in a shared cell of the [`Heap`]
//! that every holder can read and change (`Mutable`), or by a reference to
//! such a cell that does not keep it alive (`Refer`).

use vstd::prelude::*;
use std::sync::Arc;
use vstd::string::StringExecFns;
use crate::table::{contains_name, locate, names, position_of};
use crate::v1::parser::FnDef;

verus! {

/// A function as a value: a named function, or a block with the scope it
/// was written in.
#[derive(Debug)]
pub struct FnPtr {
    pub name: String,
    pub is_defer: bool,
    pub fn_def: Option<Arc<FnDef>>,
    /// The scope that the block was written in.
    pub scope: Option<usize>,
}

pub struct FnPtrView {
    pub name: Seq<char>,
    pub defer: bool,
    pub fn_def: Option<Arc<FnDef>>,
    pub scope: Option<usize>,
}

#[derive(Debug)]
pub enum Dynamic {
    Unit,
    Integer(i64),
    /// A floating-point number, as the 64 bits that encode it.
    Float(u64),
    String(String),
    Boolean(bool),
    /// A name that has not been looked up.
    Variable(String),
    FnPtr(Box<FnPtr>),
    Array(Vec<Value>),
    /// Keys with their values, in the order in which the keys were first set.
    Mapping(Vec<(Dynamic, Value)>),
    Struct(Box<Struct>),
    /// A handle to a value that only the host can read.
    Native(u64),
}

/// An instance of a class: the class name and the fields in the order given.
#[derive(Debug)]
pub struct Struct {
    pub name: String,
    pub props: Vec<(String, Value)>,
}

#[derive(Debug)]
pub enum Value {
    Immutable(Dynamic),
    /// The number of a cell of the heap, held strongly.
    Mutable(usize),
    /// The number of a cell of the heap, held weakly.
    Refer(usize),
}

pub enum DynamicView {
    Unit,
    Integer(i64),
    Float(u64),
    Text(Seq<char>),
    Boolean(bool),
    Variable(Seq<char>),
    FnPtr(FnPtrView),
    Array(Seq<ValueView>),
    Mapping(Seq<(DynamicView, ValueView)>),
    Struct(Seq<char>, Seq<(Seq<char>, ValueView)>),
    Native(u64),
}

pub enum ValueView {
    Immutable(DynamicView),
    Mutable(usize),
    Refer(usize),
}

impl View for FnPtr {
    type V = FnPtrView;

    open spec fn view(&self) -> FnPtrView {
        FnPtrView { name: self.name@, defer: self.is_defer, fn_def: self.fn_def, scope: self.scope }
    }
}

/// The views of the items of an array.
pub open spec fn array_view(items: Seq<Value>) -> Seq<ValueView>
    decreases items,
{
    Seq::new(
        items.len(),
        |i: int|
            if 0 <= i < items.len() {
                items[i].view()
            } else {
                ValueView::Mutable(0)
            },
    )
}

/// The views of the entries of a mapping.
pub open spec fn entries_view(entries: Seq<(Dynamic, Value)>) -> Seq<(DynamicView, ValueView)>
    decreases entries,
{
    Seq::new(
        entries.len(),
        |i: int|
            if 0 <= i < entries.len() {
                (entries[i].0.view(), entries[i].1.view())
            } else {
                (DynamicView::Unit, ValueView::Mutable(0))
            },
    )
}

/// The views of the fields of a struct.
pub open spec fn props_view(props: Seq<(String, Value)>) -> Seq<(Seq<char>, ValueView)>
    decreases props,
{
    Seq::new(
        props.len(),
        |i: int|
            if 0 <= i < props.len() {
                (props[i].0@, props[i].1.view())
            } else {
                (Seq::empty(), ValueView::Mutable(0))
            },
    )
}

impl Dynamic {
    pub open spec fn view(&self) -> DynamicView
        decreases self,
    {
        match self {
            Dynamic::Unit => DynamicView::Unit,
            Dynamic::Integer(i) => DynamicView::Integer(*i),
            Dynamic::Float(bits) => DynamicView::Float(*bits),
            Dynamic::String(s) => DynamicView::Text(s@),
            Dynamic::Boolean(b) => DynamicView::Boolean(*b),
            Dynamic::Variable(s) => DynamicView::Variable(s@),
            Dynamic::FnPtr(p) => DynamicView::FnPtr(p@),
            Dynamic::Array(items) => DynamicView::Array(array_view(items@)),
            Dynamic::Mapping(entries) => DynamicView::Mapping(entries_view(entries@)),
            Dynamic::Struct(s) => DynamicView::Struct(s.name@, props_view(s.props@)),
            Dynamic::Native(h) => DynamicView::Native(*h),
        }
    }
}

impl Value {
    pub open spec fn view(&self) -> ValueView
        decreases self,
    {
        match self {
            Value::Immutable(d) => ValueView::Immutable(d.view()),
            Value::Mutable(h) => ValueView::Mutable(*h),
            Value::Refer(h) => ValueView::Refer(*h),
        }
    }
}


pub proof fn lemma_array_view(items: Seq<Value>)
    ensures
        array_view(items).len() == items.len(),
        forall|i: int| 0 <= i < items.len() ==> #[trigger] array_view(items)[i] == items[i]@,
{
}

pub proof fn lemma_entries_view(entries: Seq<(Dynamic, Value)>)
    ensures
        entries_view(entries).len() == entries.len(),
        forall|i: int|
            0 <= i < entries.len() ==> #[trigger] entries_view(entries)[i] == (
                entries[i].0@,
                entries[i].1@,
            ),
{
}

pub proof fn lemma_props_view(props: Seq<(String, Value)>)
    ensures
        props_view(props).len() == props.len(),
        forall|i: int|
            0 <= i < props.len() ==> #[trigger] props_view(props)[i] == (props[i].0@, props[i].1@),
{
}

impl FnPtr {
    /// A pointer to the function called `name`: not deferred, without a body
    /// of its own.
    pub fn new(name: &str) -> (p: Self)
        ensures
            p@ == (FnPtrView { name: name@, defer: false, fn_def: None, scope: None }),
    {
        Self { name: String::from_str(name), is_defer: false, fn_def: None, scope: None }
    }

    /// Whether the function is handed to a callee as it is, for the callee
    /// to call.
    pub fn is_defer(&self) -> (b: bool)
        ensures
            b == self@.defer,
    {
        self.is_defer
    }

    pub fn set_defer(&mut self, defer: bool)
        ensures
            final(self)@ == (FnPtrView { defer, ..old(self)@ }),
    {
        self.is_defer = defer
    }

    pub fn set_fn_def(&mut self, fn_def: &Arc<FnDef>)
        ensures
            final(self)@ == (FnPtrView { fn_def: Some(*fn_def), ..old(self)@ }),
    {
        self.fn_def = Some(fn_def.clone())
    }

    pub fn set_scope(&mut self, scope: usize)
        ensures
            final(self)@ == (FnPtrView { scope: Some(scope), ..old(self)@ }),
    {
        self.scope = Some(scope)
    }

    pub fn duplicate(&self) -> (p: Self)
        ensures
            p@ == self@,
    {
        let fn_def = match &self.fn_def {
            Some(d) => Some(d.clone()),
            None => None,
        };
        Self { name: self.name.clone(), is_defer: self.is_defer, fn_def, scope: self.scope }
    }
}

impl Struct {
    pub fn new(name: String, props: Vec<(String, Value)>) -> (s: Self)
        ensures
            s.name == name,
            s.props == props,
    {
        Self { name, props }
    }

    /// The names of the fields, in order.
    pub open spec fn field_names(&self) -> Seq<Seq<char>> {
        names(self.props@)
    }

    /// The value of the field called `name`.
    pub fn get_prop(&self, name: &str) -> (r: Option<&Value>)
        ensures
            match r {
                Some(v) => position_of(self.field_names(), name@) matches Some(i) && *v
                    == self.props@[i].1,
                None => !contains_name(self.field_names(), name@),
            },
    {
        match locate(&self.props, name) {
            Some(i) => Some(&self.props[i].1),
            None => None,
        }
    }
}

impl Dynamic {
    /// A copy of the value. Cells of the heap that it refers to are shared
    /// with the copy, not copied.
    pub fn duplicate(&self) -> (r: Dynamic)
        ensures
            r@ == self@,
        decreases self,
    {
        match self {
            Dynamic::Unit => Dynamic::Unit,
            Dynamic::Integer(i) => Dynamic::Integer(*i),
            Dynamic::Float(bits) => Dynamic::Float(*bits),
            Dynamic::String(s) => Dynamic::String(s.clone()),
            Dynamic::Boolean(b) => Dynamic::Boolean(*b),
            Dynamic::Variable(s) => Dynamic::Variable(s.clone()),
            Dynamic::FnPtr(p) => Dynamic::FnPtr(Box::new(p.duplicate())),
            Dynamic::Array(items) => {
                let mut out: Vec<Value> = Vec::new();
                let mut i: usize = 0;
                while i < items.len()
                    invariant
                        i <= items.len(),
                        self is Array,
                        self->Array_0 == *items,
                        out.len() == i,
                        forall|k: int| 0 <= k < i ==> out@[k]@ == items@[k]@,
                    decreases items.len() - i,
                {
                    assert(decreases_to!(*self => self->Array_0));
                    assert(decreases_to!(*items => items[i as int]));
                    out.push(items[i].duplicate());
                    i += 1;
                }
                proof {
                    lemma_array_view(items@);
                    lemma_array_view(out@);
                    assert(array_view(out@) =~= array_view(items@));
                }
                Dynamic::Array(out)
            },
            Dynamic::Mapping(entries) => {
                let mut out: Vec<(Dynamic, Value)> = Vec::new();
                let mut i: usize = 0;
                while i < entries.len()
                    invariant
                        i <= entries.len(),
                        self is Mapping,
                        self->Mapping_0 == *entries,
                        out.len() == i,
                        forall|k: int|
                            0 <= k < i ==> out@[k].0@ == entries@[k].0@ && out@[k].1@
                                == entries@[k].1@,
                    decreases entries.len() - i,
                {
                    assert(decreases_to!(*self => self->Mapping_0));
                    assert(decreases_to!(*entries => entries[i as int]));
                    assert(decreases_to!(entries[i as int] => entries[i as int].0));
                    assert(decreases_to!(entries[i as int] => entries[i as int].1));
                    out.push((entries[i].0.duplicate(), entries[i].1.duplicate()));
                    i += 1;
                }
                proof {
                    lemma_entries_view(entries@);
                    lemma_entries_view(out@);
                    assert(entries_view(out@) =~= entries_view(entries@));
                }
                Dynamic::Mapping(out)
            },
            Dynamic::Struct(s) => {
                let mut out: Vec<(String, Value)> = Vec::new();
                let mut i: usize = 0;
                while i < s.props.len()
                    invariant
                        i <= s.props.len(),
                        self is Struct,
                        self->Struct_0 == *s,
                        out.len() == i,
                        forall|k: int|
                            0 <= k < i ==> out@[k].0@ == s.props@[k].0@ && out@[k].1@
                                == s.props@[k].1@,
                    decreases s.props.len() - i,
                {
                    assert(decreases_to!(*self => self->Struct_0));
                    assert(decreases_to!(*s => s.props));
                    assert(decreases_to!(s.props => s.props[i as int]));
                    assert(decreases_to!(s.props[i as int] => s.props[i as int].1));
                    out.push((s.props[i].0.clone(), s.props[i].1.duplicate()));
                    i += 1;
                }
                proof {
                    lemma_props_view(s.props@);
                    lemma_props_view(out@);
                    assert(props_view(out@) =~= props_view(s.props@));
                }
                Dynamic::Struct(Box::new(Struct { name: s.name.clone(), props: out }))
            },
            Dynamic::Native(h) => Dynamic::Native(*h),
        }
    }
}

impl Value {
    /// A copy of the value; a cell of the heap is shared with the copy.
    pub fn duplicate(&self) -> (r: Value)
        ensures
            r@ == self@,
        decreases self,
    {
        match self {
            Value::Immutable(d) => Value::Immutable(d.duplicate()),
            Value::Mutable(h) => Value::Mutable(*h),
            Value::Refer(h) => Value::Refer(*h),
        }
    }
}


/// The cells that hold the shared values. A cell is named by its number; a
/// cell that was released holds nothing, and its number is not used again.
pub struct Heap {
    cells: Vec<Option<Dynamic>>,
}

/// What the cells hold.
pub open spec fn cells_view(cells: Seq<Option<Dynamic>>) -> Seq<Option<DynamicView>> {
    Seq::new(
        cells.len(),
        |i: int|
            match cells[i] {
                Some(d) => Some(d@),
                None => None,
            },
    )
}

impl View for Heap {
    type V = Seq<Option<DynamicView>>;

    closed spec fn view(&self) -> Seq<Option<DynamicView>> {
        cells_view(self.cells@)
    }
}

/// Whether cell `h` exists and has not been released.
pub open spec fn live(heap: Seq<Option<DynamicView>>, h: int) -> bool {
    0 <= h < heap.len() && heap[h] is Some
}

/// What a value stands for in a heap: its own content, or the content of the
/// cell it names. A value that names a cell which is not live stands for
/// nothing.
pub open spec fn content(heap: Seq<Option<DynamicView>>, v: ValueView) -> Option<DynamicView> {
    match v {
        ValueView::Immutable(d) => Some(d),
        ValueView::Mutable(h) => if live(heap, h as int) {
            heap[h as int]
        } else {
            None
        },
        ValueView::Refer(h) => if live(heap, h as int) {
            heap[h as int]
        } else {
            None
        },
    }
}

impl Heap {
    /// The heap without cells.
    pub fn new() -> (heap: Self)
        ensures
            heap@ == Seq::<Option<DynamicView>>::empty(),
    {
        let heap = Self { cells: Vec::new() };
        assert(heap@ =~= Seq::<Option<DynamicView>>::empty());
        heap
    }

    /// The number of cells, released ones included.
    pub fn len(&self) -> (n: usize)
        ensures
            n == self@.len(),
    {
        self.cells.len()
    }

    /// Puts `d` into a new cell and gives the number of the cell.
    pub fn allocate(&mut self, d: Dynamic) -> (h: usize)
        ensures
            h == old(self)@.len(),
            final(self)@ == old(self)@.push(Some(d@)),
    {
        let h = self.cells.len();
        self.cells.push(Some(d));
        assert(self@ =~= old(self)@.push(Some(d@)));
        h
    }

    /// What cell `h` holds, where it is live.
    pub fn read(&self, h: usize) -> (r: Option<&Dynamic>)
        ensures
            match r {
                Some(d) => live(self@, h as int) && self@[h as int] == Some(d@),
                None => !live(self@, h as int),
            },
    {
        if h < self.cells.len() {
            match &self.cells[h] {
                Some(d) => Some(d),
                None => None,
            }
        } else {
            None
        }
    }

    /// Replaces what the live cell `h` holds by `d`. Says whether the cell
    /// is live; where it is not, nothing changes.
    pub fn write(&mut self, h: usize, d: Dynamic) -> (done: bool)
        ensures
            done == live(old(self)@, h as int),
            final(self)@ == (if done {
                old(self)@.update(h as int, Some(d@))
            } else {
                old(self)@
            }),
    {
        if h < self.cells.len() && self.cells[h].is_some() {
            self.cells.set(h, Some(d));
            assert(self@ =~= old(self)@.update(h as int, Some(d@)));
            true
        } else {
            false
        }
    }

    /// Takes out what the live cell `h` holds and leaves the cell released.
    pub fn release(&mut self, h: usize) -> (r: Option<Dynamic>)
        ensures
            match r {
                Some(d) => live(old(self)@, h as int) && old(self)@[h as int] == Some(d@)
                    && final(self)@ == old(self)@.update(h as int, None),
                None => !live(old(self)@, h as int) && final(self)@ == old(self)@,
            },
    {
        if h < self.cells.len() && self.cells[h].is_some() {
            self.cells.push(None);
            let taken = self.cells.swap_remove(h);
            assert(self@ =~= old(self)@.update(h as int, None));
            taken
        } else {
            None
        }
    }

    /// Puts `d` into cell `h`, whatever the cell held.
    pub(crate) fn put(&mut self, h: usize, d: Dynamic)
        requires
            h < old(self)@.len(),
        ensures
            final(self)@ == old(self)@.update(h as int, Some(d@)),
    {
        self.cells.set(h, Some(d));
        assert(self@ =~= old(self)@.update(h as int, Some(d@)));
    }

    /// What `v` stands for: its own content, or the content of its cell.
    pub fn resolve<'a>(&'a self, v: &'a Value) -> (r: Option<&'a Dynamic>)
        ensures
            match r {
                Some(d) => content(self@, v@) == Some(d@),
                None => content(self@, v@) is None,
            },
    {
        match v {
            Value::Immutable(d) => Some(d),
            Value::Mutable(h) => self.read(*h),
            Value::Refer(h) => self.read(*h),
        }
    }
}


/// The name of the kind of a value.
pub open spec fn kind_name(d: DynamicView) -> Seq<char> {
    match d {
        DynamicView::Unit => "Unit"@,
        DynamicView::Integer(_) => "Integer"@,
        DynamicView::Float(_) => "Float"@,
        DynamicView::Text(_) => "String"@,
        DynamicView::Boolean(_) => "Boolean"@,
        DynamicView::Variable(_) => "Variable"@,
        DynamicView::FnPtr(_) => "Function"@,
        DynamicView::Array(_) => "Array"@,
        DynamicView::Mapping(_) => "Map"@,
        DynamicView::Native(_) => "Native"@,
        DynamicView::Struct(name, _) => "Struct "@ + name,
    }
}

impl Dynamic {
    /// The name of the kind of the value; for an instance of a class,
    /// `Struct` and the name of the class.
    pub fn type_of(&self) -> (s: String)
        ensures
            s@ == kind_name(self@),
    {
        match self {
            Dynamic::Unit => String::from_str("Unit"),
            Dynamic::Integer(_) => String::from_str("Integer"),
            Dynamic::Float(_) => String::from_str("Float"),
            Dynamic::String(_) => String::from_str("String"),
            Dynamic::Boolean(_) => String::from_str("Boolean"),
            Dynamic::Variable(_) => String::from_str("Variable"),
            Dynamic::FnPtr(_) => String::from_str("Function"),
            Dynamic::Array(_) => String::from_str("Array"),
            Dynamic::Mapping(_) => String::from_str("Map"),
            Dynamic::Native(_) => String::from_str("Native"),
            Dynamic::Struct(s) => String::from_str("Struct ").concat(s.name.as_str()),
        }
    }

    pub fn is_variable(&self) -> (b: bool)
        ensures
            b == (self@ is Variable),
    {
        match self {
            Dynamic::Variable(_) => true,
            _ => false,
        }
    }

    pub fn is_string(&self) -> (b: bool)
        ensures
            b == (self@ is Text),
    {
        match self {
            Dynamic::String(_) => true,
            _ => false,
        }
    }

    pub fn is_fn_ptr(&self) -> (b: bool)
        ensures
            b == (self@ is FnPtr),
    {
        match self {
            Dynamic::FnPtr(_) => true,
            _ => false,
        }
    }

    pub fn is_integer(&self) -> (b: bool)
        ensures
            b == (self@ is Integer),
    {
        match self {
            Dynamic::Integer(_) => true,
            _ => false,
        }
    }

    pub fn is_float(&self) -> (b: bool)
        ensures
            b == (self@ is Float),
    {
        match self {
            Dynamic::Float(_) => true,
            _ => false,
        }
    }

    pub fn is_array(&self) -> (b: bool)
        ensures
            b == (self@ is Array),
    {
        match self {
            Dynamic::Array(_) => true,
            _ => false,
        }
    }

    pub fn is_map(&self) -> (b: bool)
        ensures
            b == (self@ is Mapping),
    {
        match self {
            Dynamic::Mapping(_) => true,
            _ => false,
        }
    }

    pub fn as_variable(&self) -> (r: Option<String>)
        ensures
            match r {
                Some(s) => self@ == DynamicView::Variable(s@),
                None => !(self@ is Variable),
            },
    {
        match self {
            Dynamic::Variable(s) => Some(s.clone()),
            _ => None,
        }
    }

    pub fn as_string(&self) -> (r: Option<String>)
        ensures
            match r {
                Some(s) => self@ == DynamicView::Text(s@),
                None => !(self@ is Text),
            },
    {
        match self {
            Dynamic::String(s) => Some(s.clone()),
            _ => None,
        }
    }

    pub fn as_fn_ptr(&self) -> (r: Option<Box<FnPtr>>)
        ensures
            match r {
                Some(p) => self@ == DynamicView::FnPtr(p@),
                None => !(self@ is FnPtr),
            },
    {
        match self {
            Dynamic::FnPtr(p) => Some(Box::new(p.duplicate())),
            _ => None,
        }
    }

    pub fn as_bool(&self) -> (r: Option<bool>)
        ensures
            match r {
                Some(b) => self@ == DynamicView::Boolean(b),
                None => !(self@ is Boolean),
            },
    {
        match self {
            Dynamic::Boolean(b) => Some(*b),
            _ => None,
        }
    }

    pub fn as_integer(&self) -> (r: Option<i64>)
        ensures
            match r {
                Some(i) => self@ == DynamicView::Integer(i),
                None => !(self@ is Integer),
            },
    {
        match self {
            Dynamic::Integer(i) => Some(*i),
            _ => None,
        }
    }

    /// The bits of the floating-point number, where the value is one.
    pub fn as_float(&self) -> (r: Option<u64>)
        ensures
            match r {
                Some(bits) => self@ == DynamicView::Float(bits),
                None => !(self@ is Float),
            },
    {
        match self {
            Dynamic::Float(bits) => Some(*bits),
            _ => None,
        }
    }

    pub fn as_array(&self) -> (r: Option<&Vec<Value>>)
        ensures
            match r {
                Some(items) => *self == Dynamic::Array(*items),
                None => !(self@ is Array),
            },
    {
        match self {
            Dynamic::Array(items) => Some(items),
            _ => None,
        }
    }

    pub fn as_struct(&self) -> (r: Option<&Struct>)
        ensures
            match r {
                Some(s) => self matches Dynamic::Struct(b) && **b == *s,
                None => !(self@ is Struct),
            },
    {
        match self {
            Dynamic::Struct(s) => Some(&**s),
            _ => None,
        }
    }
}

impl Value {
    /// The value in a new cell of the heap, held strongly.
    pub fn with_mutable(v: Dynamic, heap: &mut Heap) -> (r: Self)
        ensures
            r == Value::Mutable(old(heap)@.len() as usize),
            final(heap)@ == old(heap)@.push(Some(v@)),
    {
        Value::Mutable(heap.allocate(v))
    }

    pub fn with_immutable(v: Dynamic) -> (r: Self)
        ensures
            r == Value::Immutable(v),
    {
        Value::Immutable(v)
    }

    pub fn is_immutable(&self) -> (b: bool)
        ensures
            b == (self is Immutable),
    {
        match self {
            Value::Immutable(_) => true,
            _ => false,
        }
    }

    pub fn is_mutable(&self) -> (b: bool)
        ensures
            b == (self is Mutable),
    {
        match self {
            Value::Mutable(_) => true,
            _ => false,
        }
    }

    /// Whether the value names a cell, strongly or weakly.
    pub fn can_mutable(&self) -> (b: bool)
        ensures
            b == (self is Mutable || self is Refer),
    {
        match self {
            Value::Mutable(_) => true,
            Value::Refer(_) => true,
            _ => false,
        }
    }

    /// The number of the cell that the value names.
    pub open spec fn cell(&self) -> Option<usize> {
        match self {
            Value::Immutable(_) => None,
            Value::Mutable(h) => Some(*h),
            Value::Refer(h) => Some(*h),
        }
    }

    /// A copy of what the value stands for; `None` where it names a cell
    /// that is not live.
    pub fn as_dynamic(&self, heap: &Heap) -> (r: Option<Dynamic>)
        ensures
            match r {
                Some(d) => content(heap@, self@) == Some(d@),
                None => content(heap@, self@) is None,
            },
    {
        match heap.resolve(self) {
            Some(d) => Some(d.duplicate()),
            None => None,
        }
    }

    /// A strong handle to the cell that the value names; `None` for a value
    /// that names no cell.
    pub fn as_arc(&self) -> (r: Option<Value>)
        ensures
            match r {
                Some(v) => self.cell() matches Some(h) && v == Value::Mutable(h),
                None => self is Immutable,
            },
    {
        match self {
            Value::Immutable(_) => None,
            Value::Mutable(h) => Some(Value::Mutable(*h)),
            Value::Refer(h) => Some(Value::Mutable(*h)),
        }
    }

    /// A strong handle to the cell that the value names, for writing.
    pub fn get_mut_arc(&self) -> (r: Option<Value>)
        ensures
            match r {
                Some(v) => self.cell() matches Some(h) && v == Value::Mutable(h),
                None => self is Immutable,
            },
    {
        self.as_arc()
    }

    /// A weak handle to the cell that the value names; `None` for a value
    /// that names no cell.
    pub fn as_weak(&self) -> (r: Option<Value>)
        ensures
            match r {
                Some(v) => self.cell() matches Some(h) && v == Value::Refer(h),
                None => self is Immutable,
            },
    {
        match self {
            Value::Immutable(_) => None,
            Value::Mutable(h) => Some(Value::Refer(*h)),
            Value::Refer(h) => Some(Value::Refer(*h)),
        }
    }

    pub fn as_string(&self, heap: &Heap) -> (r: Option<String>)
        ensures
            match r {
                Some(s) => content(heap@, self@) == Some(DynamicView::Text(s@)),
                None => !(content(heap@, self@) matches Some(DynamicView::Text(_))),
            },
    {
        match heap.resolve(self) {
            Some(d) => d.as_string(),
            None => None,
        }
    }

    pub fn as_float(&self, heap: &Heap) -> (r: Option<u64>)
        ensures
            match r {
                Some(bits) => content(heap@, self@) == Some(DynamicView::Float(bits)),
                None => !(content(heap@, self@) matches Some(DynamicView::Float(_))),
            },
    {
        match heap.resolve(self) {
            Some(d) => d.as_float(),
            None => None,
        }
    }

    pub fn as_bool(&self, heap: &Heap) -> (r: Option<bool>)
        ensures
            match r {
                Some(b) => content(heap@, self@) == Some(DynamicView::Boolean(b)),
                None => !(content(heap@, self@) matches Some(DynamicView::Boolean(_))),
            },
    {
        match heap.resolve(self) {
            Some(d) => d.as_bool(),
            None => None,
        }
    }

    pub fn as_integer(&self, heap: &Heap) -> (r: Option<i64>)
        ensures
            match r {
                Some(i) => content(heap@, self@) == Some(DynamicView::Integer(i)),
                None => !(content(heap@, self@) matches Some(DynamicView::Integer(_))),
            },
    {
        match heap.resolve(self) {
            Some(d) => d.as_integer(),
            None => None,
        }
    }
}

} // verus!
