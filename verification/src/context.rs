//! Ambient state: chains of named frames, tables of global settings, and
//! the scopes that bind the variables of a script.

use vstd::prelude::*;
use vstd::string::StringExecFns;
use crate::table::{get, put, table_map};
use crate::text::same_str;
use crate::v1::types::{Value, ValueView};

verus! {

/// The value of the nearest frame with the key; `frames` is ordered from the
/// nearest frame to the farthest.
pub open spec fn nearest<T>(frames: Seq<(Seq<char>, T)>, key: Seq<char>) -> Option<T>
    decreases frames.len(),
{
    if frames.len() == 0 {
        None
    } else if frames[0].0 == key {
        Some(frames[0].1)
    } else {
        nearest(frames.drop_first(), key)
    }
}

/// A chain of frames that is read through: a key has the value of the
/// nearest frame that holds it.
pub trait Context<T> {
    /// The frames of the chain, from the nearest to the farthest.
    spec fn frames(&self) -> Seq<(Seq<char>, T)>;

    /// The value of the nearest frame with the key.
    fn value(&self, key: &str) -> (r: Option<&T>)
        ensures
            match r {
                Some(v) => nearest(self.frames(), key@) == Some(*v),
                None => nearest(self.frames(), key@) is None,
            },
    ;
}

/// A frame with one key and its value, in front of the chain it was pushed
/// on.
pub struct ValueContext<T> {
    parent: Option<Box<ValueContext<T>>>,
    key: String,
    value: T,
}

impl<T> ValueContext<T> {
    /// The frames from this one to the farthest.
    pub closed spec fn chain(&self) -> Seq<(Seq<char>, T)>
        decreases self,
    {
        match self.parent {
            Some(p) => seq![(self.key@, self.value)] + p.chain(),
            None => seq![(self.key@, self.value)],
        }
    }

    /// The frames of a chain that may be empty.
    pub open spec fn chain_of(ctx: Option<Box<ValueContext<T>>>) -> Seq<(Seq<char>, T)> {
        match ctx {
            Some(c) => c.chain(),
            None => Seq::empty(),
        }
    }

    /// Pushes a frame with `key` and `value` on the chain `ctx`.
    pub fn with_value(ctx: Option<Box<ValueContext<T>>>, key: &str, value: T) -> (r: Self)
        ensures
            r.chain() == seq![(key@, value)] + Self::chain_of(ctx),
    {
        let r = Self { parent: ctx, key: String::from_str(key), value };
        assert(r.chain() =~= seq![(key@, value)] + Self::chain_of(ctx));
        r
    }

    /// Drops the nearest frame and gives back the chain it was pushed on.
    pub fn into_parent(self) -> (r: Option<Box<ValueContext<T>>>)
        ensures
            Self::chain_of(r) == self.chain().drop_first(),
    {
        assert(Self::chain_of(self.parent) =~= self.chain().drop_first());
        self.parent
    }
}

impl<T> Context<T> for ValueContext<T> {
    open spec fn frames(&self) -> Seq<(Seq<char>, T)> {
        self.chain()
    }

    fn value(&self, key: &str) -> (r: Option<&T>)
        decreases self,
    {
        let ghost all = self.chain();
        assert(all.len() > 0 && all[0] == (self.key@, self.value));
        if same_str(self.key.as_str(), key) {
            assert(nearest(all, key@) == Some(self.value));
            Some(&self.value)
        } else {
            match &self.parent {
                Some(p) => {
                    assert(all.drop_first() =~= p.chain());
                    assert(nearest(all, key@) == nearest(p.chain(), key@));
                    let r = p.value(key);
                    assert(p.frames() == p.chain());
                    r
                },
                None => {
                    assert(all.drop_first() =~= Seq::<(Seq<char>, T)>::empty());
                    assert(nearest(Seq::<(Seq<char>, T)>::empty(), key@) is None);
                    None
                },
            }
        }
    }
}

/// The chain without frames.
#[derive(Debug)]
pub struct EmptyContext;

impl EmptyContext {
    pub fn new() -> (e: Self)
        ensures
            e == EmptyContext,
    {
        Self
    }
}

impl<T> Context<T> for EmptyContext {
    open spec fn frames(&self) -> Seq<(Seq<char>, T)> {
        Seq::empty()
    }

    fn value(&self, key: &str) -> (r: Option<&T>) {
        None
    }
}

/// A table of named settings.
pub struct AppContext<T> {
    map: Vec<(String, T)>,
}

impl<T> View for AppContext<T> {
    type V = Map<Seq<char>, T>;

    closed spec fn view(&self) -> Map<Seq<char>, T> {
        table_map(self.map@)
    }
}

impl<T> AppContext<T> {
    /// The table without settings.
    pub fn new() -> (c: AppContext<T>)
        ensures
            c@ == Map::<Seq<char>, T>::empty(),
    {
        let c = Self { map: Vec::new() };
        assert(c@ =~= Map::<Seq<char>, T>::empty());
        c
    }

    /// The value of the setting `key`.
    pub fn value(&self, key: &str) -> (r: Option<&T>)
        ensures
            match r {
                Some(v) => self@.contains_key(key@) && self@[key@] == *v,
                None => !self@.contains_key(key@),
            },
    {
        get(&self.map, key)
    }

    /// Gives the setting `key` the value `value`.
    pub fn set_value(&mut self, key: &str, value: T)
        ensures
            final(self)@ == old(self)@.insert(key@, value),
    {
        put(&mut self.map, String::from_str(key), value);
    }
}


/// A scope: the names it binds, and the scope around it.
pub struct Scope {
    parent: Option<usize>,
    data: Vec<(String, Value)>,
}

/// What a scope is: the number of the scope around it, and the values that
/// it binds itself.
pub struct ScopeView {
    pub parent: Option<usize>,
    pub bindings: Map<Seq<char>, ValueView>,
}

/// The views of the values of a table.
pub open spec fn shown_values(values: Map<Seq<char>, Value>) -> Map<Seq<char>, ValueView> {
    Map::new(|k: Seq<char>| values.contains_key(k), |k: Seq<char>| values[k]@)
}

impl View for Scope {
    type V = ScopeView;

    closed spec fn view(&self) -> ScopeView {
        ScopeView { parent: self.parent, bindings: shown_values(table_map(self.data@)) }
    }
}

impl Scope {
    /// A scope that binds nothing, with no scope around it.
    pub fn new() -> (s: Self)
        ensures
            s@.parent is None,
            s@.bindings == Map::<Seq<char>, ValueView>::empty(),
    {
        let s = Self { parent: None, data: Vec::new() };
        assert(s@.bindings =~= Map::<Seq<char>, ValueView>::empty());
        s
    }

    /// Puts the scope inside scope `p`.
    pub fn set_parent(&mut self, p: usize)
        ensures
            final(self)@ == (ScopeView { parent: Some(p), ..old(self)@ }),
    {
        self.parent = Some(p)
    }

    /// The value that this scope itself binds to `key`.
    pub fn get(&self, key: &str) -> (r: Option<&Value>)
        ensures
            match r {
                Some(v) => self@.bindings.contains_key(key@) && self@.bindings[key@] == v@,
                None => !self@.bindings.contains_key(key@),
            },
    {
        get(&self.data, key)
    }

    /// Binds `key` to `value` in this scope.
    pub fn set(&mut self, key: &str, value: Value)
        ensures
            final(self)@ == (ScopeView {
                bindings: old(self)@.bindings.insert(key@, value@),
                ..old(self)@
            }),
    {
        put(&mut self.data, String::from_str(key), value);
        assert(self@.bindings =~= old(self)@.bindings.insert(key@, value@));
    }
}

/// The value that `name` has in scope `id`: what the scope itself binds to
/// it or, where it binds nothing to it, what the name has in the scope
/// around it.
pub open spec fn visible(scopes: Seq<ScopeView>, id: int, name: Seq<char>) -> Option<ValueView>
    decreases id,
{
    if id < 0 || id >= scopes.len() {
        None
    } else if scopes[id].bindings.contains_key(name) {
        Some(scopes[id].bindings[name])
    } else {
        match scopes[id].parent {
            Some(p) => if p < id {
                visible(scopes, p as int, name)
            } else {
                None
            },
            None => None,
        }
    }
}

/// The scopes after scope `id` has bound `name` to `v`.
pub open spec fn declared(scopes: Seq<ScopeView>, id: int, name: Seq<char>, v: ValueView) -> Seq<
    ScopeView,
> {
    if 0 <= id < scopes.len() {
        scopes.update(
            id,
            ScopeView { bindings: scopes[id].bindings.insert(name, v), ..scopes[id] },
        )
    } else {
        scopes
    }
}

/// Whether scope `inner` lies in scope `outer` (or is it) and no scope from
/// `inner` up to, but without, `outer` binds `name` itself.
pub open spec fn sees(scopes: Seq<ScopeView>, inner: int, outer: int, name: Seq<char>) -> bool
    decreases inner,
{
    if inner < 0 || inner >= scopes.len() {
        false
    } else if inner == outer {
        true
    } else if scopes[inner].bindings.contains_key(name) {
        false
    } else {
        match scopes[inner].parent {
            Some(p) => p < inner && sees(scopes, p as int, outer, name),
            None => false,
        }
    }
}

/// A scope that sees a scope around it for a name has for the name what
/// that scope has: the name is read, and written, through the nearest
/// binding.
pub proof fn lemma_sees_is_visible(scopes: Seq<ScopeView>, inner: int, outer: int, name: Seq<char>)
    requires
        sees(scopes, inner, outer, name),
    ensures
        visible(scopes, inner, name) == visible(scopes, outer, name),
        inner != outer ==> !scopes[inner].bindings.contains_key(name),
    decreases inner,
{
    if inner != outer {
        let p = scopes[inner].parent->0;
        lemma_sees_is_visible(scopes, p as int, outer, name);
    }
}

/// A name that a scope has bound has the bound value in that scope and in
/// every scope inside it that does not bind the name itself.
pub proof fn lemma_declared_is_visible(
    scopes: Seq<ScopeView>,
    id: int,
    name: Seq<char>,
    v: ValueView,
    inner: int,
)
    requires
        0 <= id < scopes.len(),
        sees(scopes, inner, id, name),
    ensures
        visible(declared(scopes, id, name, v), inner, name) == Some(v),
    decreases inner,
{
    if inner != id {
        let p = scopes[inner].parent->0;
        lemma_declared_is_visible(scopes, id, name, v, p as int);
    }
}

/// A binding made in a scope changes nothing for a scope from which that
/// scope is not reached: the scopes around it and the scopes beside it still
/// see what they saw. A binding shadows, it does not overwrite.
pub proof fn lemma_declared_is_local(
    scopes: Seq<ScopeView>,
    id: int,
    name: Seq<char>,
    v: ValueView,
    other: int,
    asked: Seq<char>,
)
    requires
        asked != name || !sees(scopes, other, id, name),
    ensures
        visible(declared(scopes, id, name, v), other, asked) == visible(scopes, other, asked),
    decreases other,
{
    if 0 <= other < scopes.len() && 0 <= id < scopes.len() {
        let after = declared(scopes, id, name, v);
        if other == id {
            assert(asked != name);
            match scopes[other].parent {
                Some(p) => if p < other {
                    lemma_declared_is_local(scopes, id, name, v, p as int, asked);
                },
                None => {},
            }
        } else {
            assert(after[other] == scopes[other]);
            if !scopes[other].bindings.contains_key(asked) {
                match scopes[other].parent {
                    Some(p) => if p < other {
                        lemma_declared_is_local(scopes, id, name, v, p as int, asked);
                    },
                    None => {},
                }
            }
        }
    }
}

/// Scopes around a scope have smaller numbers, so none of them sees a
/// binding that the scope makes.
pub proof fn lemma_outer_scope_unchanged(
    scopes: Seq<ScopeView>,
    id: int,
    name: Seq<char>,
    v: ValueView,
    outer: int,
    asked: Seq<char>,
)
    requires
        outer < id,
    ensures
        visible(declared(scopes, id, name, v), outer, asked) == visible(scopes, outer, asked),
    decreases outer,
{
    if 0 <= outer < scopes.len() && 0 <= id < scopes.len() {
        let after = declared(scopes, id, name, v);
        assert(after[outer] == scopes[outer]);
        match scopes[outer].parent {
            Some(p) => if p < outer {
                lemma_outer_scope_unchanged(scopes, id, name, v, p as int, asked);
            },
            None => {},
        }
    }
}

/// All scopes of a run. A scope is named by its number; the scope around a
/// scope has a smaller number.
pub struct Scopes {
    scopes: Vec<Scope>,
}

impl View for Scopes {
    type V = Seq<ScopeView>;

    closed spec fn view(&self) -> Seq<ScopeView> {
        Seq::new(self.scopes@.len(), |i: int| self.scopes@[i]@)
    }
}

impl Scopes {
    /// One scope, number 0, that binds nothing: the scope of the program.
    pub fn new() -> (s: Self)
        ensures
            s@ == seq![ScopeView { parent: None, bindings: Map::<Seq<char>, ValueView>::empty() }],
    {
        let mut scopes: Vec<Scope> = Vec::new();
        scopes.push(Scope::new());
        let s = Self { scopes };
        assert(s@ =~= seq![
            ScopeView { parent: None, bindings: Map::<Seq<char>, ValueView>::empty() },
        ]);
        s
    }

    /// The number of scopes.
    pub fn len(&self) -> (n: usize)
        ensures
            n == self@.len(),
    {
        self.scopes.len()
    }

    /// Opens a scope inside scope `parent` that binds nothing, and gives its
    /// number.
    pub fn enter(&mut self, parent: usize) -> (id: usize)
        ensures
            id == old(self)@.len(),
            final(self)@ == old(self)@.push(
                ScopeView { parent: Some(parent), bindings: Map::<Seq<char>, ValueView>::empty() },
            ),
    {
        let id = self.scopes.len();
        let mut scope = Scope::new();
        scope.set_parent(parent);
        self.scopes.push(scope);
        assert(self@ =~= old(self)@.push(
            ScopeView { parent: Some(parent), bindings: Map::<Seq<char>, ValueView>::empty() },
        ));
        id
    }

    /// The value that `name` has in scope `id`.
    pub fn lookup(&self, id: usize, name: &str) -> (r: Option<&Value>)
        ensures
            match r {
                Some(v) => visible(self@, id as int, name@) == Some(v@),
                None => visible(self@, id as int, name@) is None,
            },
        decreases id,
    {
        if id >= self.scopes.len() {
            return None;
        }
        match self.scopes[id].get(name) {
            Some(v) => Some(v),
            None => match self.scopes[id].parent {
                Some(p) => if p < id {
                    self.lookup(p, name)
                } else {
                    None
                },
                None => None,
            },
        }
    }

    /// Binds `name` to `value` in scope `id`. Says whether the scope exists;
    /// where it does not, nothing changes.
    pub fn declare(&mut self, id: usize, name: &str, value: Value) -> (done: bool)
        ensures
            done == (id < old(self)@.len()),
            final(self)@ == declared(old(self)@, id as int, name@, value@),
    {
        if id < self.scopes.len() {
            let mut scope = Scope::new();
            self.scopes.push(scope);
            let mut scope = self.scopes.swap_remove(id);
            scope.set(name, value);
            self.scopes.set(id, scope);
            assert(self@ =~= declared(old(self)@, id as int, name@, value@));
            true
        } else {
            false
        }
    }
}

} // verus!
