//! Reading and writing inside values: items of arrays, entries of maps,
//! characters of strings and fields of instances, directly and through the
//! cells of the heap.

use vstd::prelude::*;
use vstd::string::{StrSliceExecFns, StringExecFns};
use crate::error::{fault_of, Fault, PipelineError};
use crate::table::{names, position_of};
use crate::text::push_char;
use crate::v1::types::{
    content, lemma_array_view, lemma_entries_view, live, array_view, entries_view, Dynamic,
    DynamicView, Heap, Value, ValueView,
};

verus! {

/// Whether a value can be the key of a map: the unit, a number, a string or
/// a truth value.
pub open spec fn is_key(d: DynamicView) -> bool {
    d is Unit || d is Integer || d is Float || d is Text || d is Boolean
}

/// The index of the first entry with the key.
pub open spec fn key_position(entries: Seq<(DynamicView, ValueView)>, key: DynamicView) -> Option<int>
    decreases entries.len(),
{
    if entries.len() == 0 {
        None
    } else if entries[0].0 == key {
        Some(0)
    } else {
        match key_position(entries.drop_first(), key) {
            Some(i) => Some(i + 1),
            None => None,
        }
    }
}

pub proof fn lemma_key_position(entries: Seq<(DynamicView, ValueView)>, key: DynamicView)
    ensures
        match key_position(entries, key) {
            Some(i) => 0 <= i < entries.len() && entries[i].0 == key && forall|k: int|
                0 <= k < i ==> (#[trigger] entries[k]).0 != key,
            None => forall|k: int| 0 <= k < entries.len() ==> (#[trigger] entries[k]).0 != key,
        },
    decreases entries.len(),
{
    if entries.len() > 0 && entries[0].0 != key {
        let rest = entries.drop_first();
        lemma_key_position(rest, key);
        match key_position(rest, key) {
            Some(i) => {
                assert forall|k: int| 0 <= k < i + 1 implies (#[trigger] entries[k]).0 != key by {
                    if k > 0 {
                        assert(rest[k - 1] == entries[k]);
                    }
                }
            },
            None => {
                assert forall|k: int| 0 <= k < entries.len() implies (#[trigger] entries[k]).0
                    != key by {
                    if k > 0 {
                        assert(rest[k - 1] == entries[k]);
                    }
                }
            },
        }
    }
}

/// What stands in a value at an index: the item of an array at an integer
/// within its bounds, the value of the first entry of a map with the key
/// (a unit, number, string or truth value),
/// or the character of a string at an integer within its bounds, as a string
/// of its own.
pub open spec fn element(d: DynamicView, index: DynamicView) -> Option<ValueView> {
    match d {
        DynamicView::Array(items) => match index {
            DynamicView::Integer(i) => if 0 <= i < items.len() {
                Some(items[i as int])
            } else {
                None
            },
            _ => None,
        },
        DynamicView::Mapping(entries) => if is_key(index) {
            match key_position(entries, index) {
                Some(k) => Some(entries[k].1),
                None => None,
            }
        } else {
            None
        },
        DynamicView::Text(s) => match index {
            DynamicView::Integer(i) => if 0 <= i < s.len() {
                Some(ValueView::Immutable(DynamicView::Text(seq![s[i as int]])))
            } else {
                None
            },
            _ => None,
        },
        _ => None,
    }
}

/// The value with `v` stored at an index: in an array at an integer within
/// its bounds; in a map under a key, in place of the value of the first
/// entry with the key or, where no entry has it, as a new last entry.
pub open spec fn with_element(d: DynamicView, index: DynamicView, v: ValueView) -> Option<
    DynamicView,
> {
    match d {
        DynamicView::Array(items) => match index {
            DynamicView::Integer(i) => if 0 <= i < items.len() {
                Some(DynamicView::Array(items.update(i as int, v)))
            } else {
                None
            },
            _ => None,
        },
        DynamicView::Mapping(entries) => if is_key(index) {
            match key_position(entries, index) {
                Some(k) => Some(DynamicView::Mapping(entries.update(k, (index, v)))),
                None => Some(DynamicView::Mapping(entries.push((index, v)))),
            }
        } else {
            None
        },
        _ => None,
    }
}

/// The kind of the error of reading at an index where nothing stands: an
/// array or a string with an index that is no integer gives `ExpectedType`,
/// everything else `UndefinedOperation`.
pub open spec fn index_fault(d: DynamicView, index: DynamicView) -> Fault {
    if (d is Array || d is Text) && !(index is Integer) {
        Fault::ExpectedType
    } else {
        Fault::UndefinedOperation
    }
}

/// The kind of the error of storing at an index where nothing can be
/// stored: an array with an index that is no integer gives `ExpectedType`,
/// a map with an index that is no key `UnexpectedType`, everything else
/// `UndefinedOperation`.
pub open spec fn store_fault(d: DynamicView, index: DynamicView) -> Fault {
    if d is Array && !(index is Integer) {
        Fault::ExpectedType
    } else if d is Mapping {
        Fault::UnexpectedType
    } else {
        Fault::UndefinedOperation
    }
}

/// The kind of the error of changing a value through a handle that names
/// no live cell: a value that names no cell gives `UnexpectedType`, one that
/// names a cell which is not live `VariableUndefined`.
pub open spec fn handle_fault(target: ValueView) -> Fault {
    match target {
        ValueView::Immutable(_) => Fault::UnexpectedType,
        _ => Fault::VariableUndefined,
    }
}

/// Storing an item in an array leaves the length of the array and every
/// other item as they were.
pub proof fn lemma_other_items_kept(items: Seq<ValueView>, index: int, v: ValueView, other: int)
    requires
        0 <= index < items.len(),
        index <= i64::MAX,
        other <= i64::MAX,
        other >= i64::MIN,
        other != index,
    ensures
        with_element(DynamicView::Array(items), DynamicView::Integer(index as i64), v) matches Some(
            DynamicView::Array(after),
        ) && after.len() == items.len() && element(
            DynamicView::Array(after),
            DynamicView::Integer(other as i64),
        ) == element(DynamicView::Array(items), DynamicView::Integer(other as i64)),
{
}

/// What is stored at an index is what is read there afterwards.
pub proof fn lemma_element_stored(d: DynamicView, index: DynamicView, v: ValueView)
    requires
        with_element(d, index, v) is Some,
    ensures
        element(with_element(d, index, v)->0, index) == Some(v),
{
    match d {
        DynamicView::Mapping(entries) => {
            lemma_key_position(entries, index);
            match key_position(entries, index) {
                Some(k) => {
                    let after = entries.update(k, (index, v));
                    lemma_key_position(after, index);
                    assert(after[k].0 == index);
                    if key_position(after, index) is Some {
                        let j = key_position(after, index)->0;
                        if j < k {
                            assert(after[j] == entries[j]);
                        }
                    }
                },
                None => {
                    let after = entries.push((index, v));
                    lemma_key_position(after, index);
                    assert(after[entries.len() as int].0 == index);
                    if key_position(after, index) is Some {
                        let j = key_position(after, index)->0;
                        if j < entries.len() {
                            assert(after[j] == entries[j]);
                        }
                    }
                },
            }
        },
        _ => {},
    }
}

/// Whether `a` is a key and `b` is the same key.
pub fn same_key(a: &Dynamic, b: &Dynamic) -> (r: bool)
    ensures
        r == (is_key(a@) && a@ == b@),
{
    match (a, b) {
        (Dynamic::Unit, Dynamic::Unit) => true,
        (Dynamic::Integer(x), Dynamic::Integer(y)) => *x == *y,
        (Dynamic::Float(x), Dynamic::Float(y)) => *x == *y,
        (Dynamic::String(x), Dynamic::String(y)) => *x == *y,
        (Dynamic::Boolean(x), Dynamic::Boolean(y)) => *x == *y,
        _ => false,
    }
}

/// The index of the first entry of `entries` with the key `key`.
pub fn find_key(entries: &Vec<(Dynamic, Value)>, key: &Dynamic) -> (r: Option<usize>)
    requires
        is_key(key@),
    ensures
        match r {
            Some(i) => key_position(entries_view(entries@), key@) == Some(i as int) && i
                < entries.len(),
            None => key_position(entries_view(entries@), key@) is None,
        },
{
    let ghost ev = entries_view(entries@);
    proof {
        lemma_entries_view(entries@);
        lemma_key_position(ev, key@);
    }
    let mut i: usize = 0;
    while i < entries.len()
        invariant
            i <= entries.len(),
            is_key(key@),
            ev == entries_view(entries@),
            ev.len() == entries.len(),
            forall|k: int| 0 <= k < entries.len() ==> (#[trigger] ev[k]).0 == entries@[k].0@,
            forall|k: int| 0 <= k < i ==> (#[trigger] ev[k]).0 != key@,
        decreases entries.len() - i,
    {
        if same_key(key, &entries[i].0) {
            proof {
                lemma_key_position(ev, key@);
                assert(ev[i as int].0 == key@);
            }
            return Some(i);
        }
        i += 1;
    }
    proof {
        lemma_key_position(ev, key@);
    }
    None
}

fn index_error(text: &str) -> (e: PipelineError)
    ensures
        e is UndefinedOperation,
{
    PipelineError::UndefinedOperation(String::from_str(text))
}

impl Dynamic {
    /// What stands in the value at `index`: an item of an array, the value
    /// under a key of a map, or a character of a string.
    ///
    /// An array or a string with an index that is no integer gives
    /// `ExpectedType`; an integer outside the bounds, a key that the map
    /// lacks and a value of any other kind give `UndefinedOperation`.
    pub fn index(&self, index: &Dynamic) -> (r: Result<Value, PipelineError>)
        ensures
            match element(self@, index@) {
                Some(v) => r matches Ok(x) && x@ == v,
                None => r is Err,
            },
            r matches Err(e) ==> fault_of(e) == index_fault(self@, index@),
    {
        match self {
            Dynamic::Array(items) => match index {
                Dynamic::Integer(i) => {
                    proof {
                        lemma_array_view(items@);
                    }
                    if 0 <= *i && (*i as u64) < items.len() as u64 {
                        Ok(items[*i as usize].duplicate())
                    } else {
                        Err(index_error("index out of bounds"))
                    }
                },
                _ => Err(PipelineError::ExpectedType(String::from_str("Integer"))),
            },
            Dynamic::Mapping(entries) => {
                proof {
                    lemma_entries_view(entries@);
                    lemma_key_position(entries_view(entries@), index@);
                }
                let at = match index {
                    Dynamic::Unit
                    | Dynamic::Integer(_)
                    | Dynamic::Float(_)
                    | Dynamic::String(_)
                    | Dynamic::Boolean(_) => find_key(entries, index),
                    _ => None,
                };
                match at {
                    Some(k) => Ok(entries[k].1.duplicate()),
                    None => Err(index_error("no such key")),
                }
            },
            Dynamic::String(s) => match index {
                Dynamic::Integer(i) => {
                    let n = s.as_str().unicode_len();
                    if 0 <= *i && (*i as u64) < n as u64 {
                        let mut one = String::new();
                        push_char(&mut one, s.as_str().get_char(*i as usize));
                        assert(one@ =~= seq![s@[*i as int]]);
                        Ok(Value::Immutable(Dynamic::String(one)))
                    } else {
                        Err(index_error("index out of bounds"))
                    }
                },
                _ => Err(PipelineError::ExpectedType(String::from_str("Integer"))),
            },
            _ => {
                let mut text = String::from_str("index [] to ");
                text.append(self.type_of().as_str());
                Err(PipelineError::UndefinedOperation(text))
            },
        }
    }
}


impl Dynamic {
    /// Stores `v` in the value at `index`: in an array at an integer within
    /// its bounds, in a map under a key.
    ///
    /// An array with an index that is no integer gives `ExpectedType`; a
    /// map with an index that cannot be a key gives `UnexpectedType`; an
    /// integer outside the bounds of the array and a value of any other kind
    /// give `UndefinedOperation`. On an error nothing changes.
    pub fn index_assign(&mut self, index: Dynamic, v: Value) -> (r: Result<(), PipelineError>)
        ensures
            match with_element(old(self)@, index@, v@) {
                Some(d) => r is Ok && final(self)@ == d,
                None => r is Err && final(self)@ == old(self)@,
            },
            r matches Err(e) ==> fault_of(e) == store_fault(old(self)@, index@),
    {
        match self {
            Dynamic::Array(items) => match index {
                Dynamic::Integer(i) => {
                    proof {
                        lemma_array_view(items@);
                    }
                    if 0 <= i && (i as u64) < items.len() as u64 {
                        let ghost before = items@;
                        items.set(i as usize, v);
                        proof {
                            lemma_array_view(items@);
                            assert(array_view(items@) =~= array_view(before).update(i as int, v@));
                        }
                        Ok(())
                    } else {
                        Err(index_error("index out of bounds"))
                    }
                },
                _ => Err(PipelineError::ExpectedType(String::from_str("Integer"))),
            },
            Dynamic::Mapping(entries) => {
                match index {
                    Dynamic::Unit
                    | Dynamic::Integer(_)
                    | Dynamic::Float(_)
                    | Dynamic::String(_)
                    | Dynamic::Boolean(_) => {
                        let ghost before = entries@;
                        proof {
                            lemma_entries_view(before);
                        }
                        match find_key(entries, &index) {
                            Some(k) => {
                                entries.set(k, (index, v));
                                proof {
                                    lemma_entries_view(entries@);
                                    assert(entries_view(entries@) =~= entries_view(before).update(
                                        k as int,
                                        (index@, v@),
                                    ));
                                }
                            },
                            None => {
                                entries.push((index, v));
                                proof {
                                    lemma_entries_view(entries@);
                                    assert(entries_view(entries@) =~= entries_view(before).push(
                                        (index@, v@),
                                    ));
                                }
                            },
                        }
                        Ok(())
                    },
                    _ => Err(PipelineError::UnexpectedType(index.type_of())),
                }
            },
            _ => {
                let mut text = String::from_str("index [] to ");
                text.append(self.type_of().as_str());
                Err(PipelineError::UndefinedOperation(text))
            },
        }
    }
}


/// The number of the cell that a value names.
pub open spec fn cell_of(v: ValueView) -> Option<usize> {
    match v {
        ValueView::Immutable(_) => None,
        ValueView::Mutable(h) => Some(h),
        ValueView::Refer(h) => Some(h),
    }
}

/// The heap after `d` has been assigned through `target`: the live cell that
/// `target` names holds `d`. Nothing can be assigned through a value that
/// names no cell, or a cell that is not live.
pub open spec fn assigned(heap: Seq<Option<DynamicView>>, target: ValueView, d: DynamicView) -> Option<
    Seq<Option<DynamicView>>,
> {
    match cell_of(target) {
        Some(h) => if live(heap, h as int) {
            Some(heap.update(h as int, Some(d)))
        } else {
            None
        },
        None => None,
    }
}

/// The heap after `v` has been stored at `index` through `target`: the live
/// cell that `target` names holds its value with `v` stored at `index`.
pub open spec fn stored(
    heap: Seq<Option<DynamicView>>,
    target: ValueView,
    index: DynamicView,
    v: ValueView,
) -> Option<Seq<Option<DynamicView>>> {
    match cell_of(target) {
        Some(h) => if live(heap, h as int) {
            match with_element(heap[h as int]->0, index, v) {
                Some(d) => Some(heap.update(h as int, Some(d))),
                None => None,
            }
        } else {
            None
        },
        None => None,
    }
}

/// What is read at `index` through `target`.
pub open spec fn fetched(heap: Seq<Option<DynamicView>>, target: ValueView, index: DynamicView) -> Option<
    ValueView,
> {
    match content(heap, target) {
        Some(d) => element(d, index),
        None => None,
    }
}

/// The value of the field `name` of the instance that `target` stands for.
pub open spec fn field(heap: Seq<Option<DynamicView>>, target: ValueView, name: Seq<char>) -> Option<
    ValueView,
> {
    match content(heap, target) {
        Some(DynamicView::Struct(_, props)) => {
            let at = position_of(Seq::new(props.len(), |i: int| props[i].0), name);
            match at {
                Some(i) => Some(props[i].1),
                None => None,
            }
        },
        _ => None,
    }
}

impl Heap {
    /// What is read at `index` in the value that `target` stands for.
    ///
    /// A target that names a cell which is not live gives
    /// `VariableUndefined`; the other errors are those of
    /// [`Dynamic::index`].
    pub fn element(&self, target: &Value, index: &Dynamic) -> (r: Result<Value, PipelineError>)
        ensures
            match fetched(self@, target@, index@) {
                Some(v) => r matches Ok(x) && x@ == v,
                None => r is Err,
            },
            r matches Err(e) ==> fault_of(e) == (match content(self@, target@) {
                Some(d) => index_fault(d, index@),
                None => Fault::VariableUndefined,
            }),
    {
        match self.resolve(target) {
            Some(d) => d.index(index),
            None => Err(PipelineError::VariableUndefined(String::from_str("dropped value"))),
        }
    }

    /// Replaces by `d` what the cell holds that `target` names.
    ///
    /// A target that names no cell gives `UnexpectedType`; one that names a
    /// cell which is not live gives `VariableUndefined`. On an error nothing
    /// changes.
    pub fn assign(&mut self, target: &Value, d: Dynamic) -> (r: Result<(), PipelineError>)
        ensures
            match assigned(old(self)@, target@, d@) {
                Some(after) => r is Ok && final(self)@ == after,
                None => r is Err && final(self)@ == old(self)@,
            },
            r matches Err(e) ==> fault_of(e) == handle_fault(target@),
    {
        match target {
            Value::Immutable(_) => Err(PipelineError::UnexpectedType(String::from_str("Immutable"))),
            Value::Mutable(h) | Value::Refer(h) => {
                if self.write(*h, d) {
                    Ok(())
                } else {
                    Err(PipelineError::VariableUndefined(String::from_str("dropped value")))
                }
            },
        }
    }

    /// Stores `v` at `index` in the value of the cell that `target` names.
    ///
    /// A target that names no cell gives `UnexpectedType`; one that names a
    /// cell which is not live gives `VariableUndefined`; the other errors
    /// are those of [`Dynamic::index_assign`]. On an error nothing changes.
    pub fn assign_element(&mut self, target: &Value, index: Dynamic, v: Value) -> (r: Result<
        (),
        PipelineError,
    >)
        ensures
            match stored(old(self)@, target@, index@, v@) {
                Some(after) => r is Ok && final(self)@ == after,
                None => r is Err && final(self)@ == old(self)@,
            },
            r matches Err(e) ==> fault_of(e) == (match content(old(self)@, target@) {
                Some(d) => if target is Immutable {
                    Fault::UnexpectedType
                } else {
                    store_fault(d, index@)
                },
                None => handle_fault(target@),
            }),
    {
        match target {
            Value::Immutable(_) => Err(PipelineError::UnexpectedType(String::from_str("Immutable"))),
            Value::Mutable(h) | Value::Refer(h) => {
                match self.release(*h) {
                    Some(mut d) => {
                        let r = d.index_assign(index, v);
                        self.put(*h, d);
                        assert(self@ =~= if r is Ok {
                            old(self)@.update(*h as int, Some(d@))
                        } else {
                            old(self)@
                        });
                        r
                    },
                    None => Err(PipelineError::VariableUndefined(String::from_str("dropped value"))),
                }
            },
        }
    }
}

/// What is stored at an index through a handle is what is read there
/// afterwards, through the same handle or any other handle to the same cell.
pub proof fn lemma_fetch_stored(
    heap: Seq<Option<DynamicView>>,
    target: ValueView,
    other: ValueView,
    index: DynamicView,
    v: ValueView,
)
    requires
        stored(heap, target, index, v) is Some,
        cell_of(other) == cell_of(target),
    ensures
        fetched(stored(heap, target, index, v)->0, other, index) == Some(v),
{
    let h = cell_of(target)->0;
    lemma_element_stored(heap[h as int]->0, index, v);
}

/// What is assigned through a handle is what every handle to the same cell
/// stands for afterwards.
pub proof fn lemma_content_assigned(
    heap: Seq<Option<DynamicView>>,
    target: ValueView,
    other: ValueView,
    d: DynamicView,
)
    requires
        assigned(heap, target, d) is Some,
        cell_of(other) == cell_of(target),
    ensures
        content(assigned(heap, target, d)->0, other) == Some(d),
{
}

/// Storing or assigning through a handle leaves every other cell as it was.
pub proof fn lemma_other_cells_kept(
    heap: Seq<Option<DynamicView>>,
    target: ValueView,
    other: ValueView,
    index: DynamicView,
    v: ValueView,
    d: DynamicView,
)
    requires
        cell_of(other) != cell_of(target),
    ensures
        stored(heap, target, index, v) matches Some(after) ==> content(after, other) == content(
            heap,
            other,
        ),
        assigned(heap, target, d) matches Some(after) ==> content(after, other) == content(
            heap,
            other,
        ),
{
}


/// The value with `items` added at the end of the array that it is.
pub open spec fn with_appended(d: DynamicView, items: Seq<ValueView>) -> Option<DynamicView> {
    match d {
        DynamicView::Array(held) => Some(DynamicView::Array(held + items)),
        _ => None,
    }
}

/// The value without what stands at an index: an array without the item at
/// an integer within its bounds; a map without the first entry with the key,
/// and as it is where no entry has the key.
pub open spec fn without_element(d: DynamicView, index: DynamicView) -> Option<DynamicView> {
    match d {
        DynamicView::Array(items) => match index {
            DynamicView::Integer(i) => if 0 <= i < items.len() {
                Some(DynamicView::Array(items.remove(i as int)))
            } else {
                None
            },
            _ => None,
        },
        DynamicView::Mapping(entries) => if is_key(index) {
            match key_position(entries, index) {
                Some(k) => Some(DynamicView::Mapping(entries.remove(k))),
                None => Some(d),
            }
        } else {
            None
        },
        _ => None,
    }
}

/// The number of items of an array, entries of a map or characters of a
/// string.
pub open spec fn size(d: DynamicView) -> Option<int> {
    match d {
        DynamicView::Array(items) => Some(items.len() as int),
        DynamicView::Mapping(entries) => Some(entries.len() as int),
        DynamicView::Text(s) => Some(s.len() as int),
        _ => None,
    }
}

impl Dynamic {
    /// Adds `items` at the end of the array. A value that is no array gives
    /// `ExpectedType`, and nothing changes.
    pub fn append(&mut self, items: Vec<Value>) -> (r: Result<(), PipelineError>)
        ensures
            match with_appended(old(self)@, array_view(items@)) {
                Some(d) => r is Ok && final(self)@ == d,
                None => r matches Err(PipelineError::ExpectedType(_)) && final(self)@ == old(self)@,
            },
    {
        match self {
            Dynamic::Array(held) => {
                let ghost before = held@;
                let ghost added = items@;
                let mut items = items;
                proof {
                    lemma_array_view(before);
                    lemma_array_view(added);
                }
                held.append(&mut items);
                proof {
                    lemma_array_view(held@);
                    assert(array_view(held@) =~= array_view(before) + array_view(added));
                }
                Ok(())
            },
            _ => Err(PipelineError::ExpectedType(String::from_str("Array"))),
        }
    }

    /// Takes out what stands at `index`: the item of an array at an integer
    /// within its bounds, or the first entry of a map with the key. Any
    /// other value or index gives `UndefinedOperation`, and nothing changes.
    pub fn remove(&mut self, index: &Dynamic) -> (r: Result<(), PipelineError>)
        ensures
            match without_element(old(self)@, index@) {
                Some(d) => r is Ok && final(self)@ == d,
                None => r matches Err(PipelineError::UndefinedOperation(_)) && final(self)@ == old(self)@,
            },
    {
        match self {
            Dynamic::Array(items) => match index {
                Dynamic::Integer(i) => {
                    proof {
                        lemma_array_view(items@);
                    }
                    if 0 <= *i && (*i as u64) < items.len() as u64 {
                        let ghost before = items@;
                        items.remove(*i as usize);
                        proof {
                            lemma_array_view(items@);
                            assert(array_view(items@) =~= array_view(before).remove(*i as int));
                        }
                        Ok(())
                    } else {
                        Err(index_error("index out of bounds"))
                    }
                },
                _ => Err(index_error("index is no integer")),
            },
            Dynamic::Mapping(entries) => match index {
                Dynamic::Unit
                | Dynamic::Integer(_)
                | Dynamic::Float(_)
                | Dynamic::String(_)
                | Dynamic::Boolean(_) => {
                    let ghost before = entries@;
                    proof {
                        lemma_entries_view(before);
                    }
                    match find_key(entries, index) {
                        Some(k) => {
                            entries.remove(k);
                            proof {
                                lemma_entries_view(entries@);
                                assert(entries_view(entries@) =~= entries_view(before).remove(k as int));
                            }
                        },
                        None => {},
                    }
                    Ok(())
                },
                _ => Err(index_error("index is no key")),
            },
            _ => Err(index_error("nothing can be removed from this value")),
        }
    }

    /// The number of items of an array, entries of a map or characters of a
    /// string; `UnexpectedType` with the kind for any other value.
    pub fn len(&self) -> (r: Result<usize, PipelineError>)
        ensures
            match size(self@) {
                Some(n) => r matches Ok(x) && x as int == n,
                None => r matches Err(PipelineError::UnexpectedType(_)),
            },
    {
        match self {
            Dynamic::Array(items) => {
                proof {
                    lemma_array_view(items@);
                }
                Ok(items.len())
            },
            Dynamic::Mapping(entries) => {
                proof {
                    lemma_entries_view(entries@);
                }
                Ok(entries.len())
            },
            Dynamic::String(s) => Ok(s.as_str().unicode_len()),
            _ => Err(PipelineError::UnexpectedType(self.type_of())),
        }
    }
}

/// The heap after the value of the live cell that `target` names has been
/// changed to what `change` makes of it.
pub open spec fn changed(
    heap: Seq<Option<DynamicView>>,
    target: ValueView,
    change: spec_fn(DynamicView) -> Option<DynamicView>,
) -> Option<Seq<Option<DynamicView>>> {
    match cell_of(target) {
        Some(h) => if live(heap, h as int) {
            match change(heap[h as int]->0) {
                Some(d) => Some(heap.update(h as int, Some(d))),
                None => None,
            }
        } else {
            None
        },
        None => None,
    }
}

impl Heap {
    /// Adds `items` at the end of the array in the cell that `target`
    /// names. On an error nothing changes.
    pub fn append(&mut self, target: &Value, items: Vec<Value>) -> (r: Result<(), PipelineError>)
        ensures
            match changed(
                old(self)@,
                target@,
                |d: DynamicView| with_appended(d, array_view(items@)),
            ) {
                Some(after) => r is Ok && final(self)@ == after,
                None => r is Err && final(self)@ == old(self)@,
            },
            r matches Err(e) ==> fault_of(e) == (match content(old(self)@, target@) {
                Some(d) => if target is Immutable {
                    Fault::UnexpectedType
                } else {
                    Fault::ExpectedType
                },
                None => handle_fault(target@),
            }),
    {
        match target {
            Value::Immutable(_) => Err(PipelineError::UnexpectedType(String::from_str("Immutable"))),
            Value::Mutable(h) | Value::Refer(h) => {
                match self.release(*h) {
                    Some(mut d) => {
                        let r = d.append(items);
                        self.put(*h, d);
                        assert(self@ =~= if r is Ok {
                            old(self)@.update(*h as int, Some(d@))
                        } else {
                            old(self)@
                        });
                        r
                    },
                    None => Err(PipelineError::VariableUndefined(String::from_str("dropped value"))),
                }
            },
        }
    }

    /// Takes out what stands at `index` in the value of the cell that
    /// `target` names. On an error nothing changes.
    pub fn remove_element(&mut self, target: &Value, index: &Dynamic) -> (r: Result<(), PipelineError>)
        ensures
            match changed(old(self)@, target@, |d: DynamicView| without_element(d, index@)) {
                Some(after) => r is Ok && final(self)@ == after,
                None => r is Err && final(self)@ == old(self)@,
            },
            r matches Err(e) ==> fault_of(e) == (match content(old(self)@, target@) {
                Some(d) => if target is Immutable {
                    Fault::UnexpectedType
                } else {
                    Fault::UndefinedOperation
                },
                None => handle_fault(target@),
            }),
    {
        match target {
            Value::Immutable(_) => Err(PipelineError::UnexpectedType(String::from_str("Immutable"))),
            Value::Mutable(h) | Value::Refer(h) => {
                match self.release(*h) {
                    Some(mut d) => {
                        let r = d.remove(index);
                        self.put(*h, d);
                        assert(self@ =~= if r is Ok {
                            old(self)@.update(*h as int, Some(d@))
                        } else {
                            old(self)@
                        });
                        r
                    },
                    None => Err(PipelineError::VariableUndefined(String::from_str("dropped value"))),
                }
            },
        }
    }
}

} // verus!
