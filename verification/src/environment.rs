//! Variable scopes. Scopes are shared: an environment is a stack of scope
//! identifiers, innermost last, and the bindings of every scope live in one
//! [`Store`]. Two environments that hold the same scope see each other's
//! writes to it.

use vstd::prelude::*;
use crate::token::{Object, ObjectView};

verus! {

/// A variable of a scope and its value.
pub struct Binding {
    pub scope: usize,
    pub name: String,
    pub value: Object,
}

pub struct BindingView {
    pub scope: usize,
    pub name: Seq<char>,
    pub value: ObjectView,
}

impl View for Binding {
    type V = BindingView;

    open spec fn view(&self) -> BindingView {
        BindingView { scope: self.scope, name: self.name@, value: self.value@ }
    }
}

/// The bindings of all scopes, and how many scopes there are.
pub struct Store {
    pub bindings: Vec<Binding>,
    pub scope_count: usize,
}

pub struct StoreView {
    pub bindings: Seq<BindingView>,
    pub scope_count: nat,
}

impl View for Store {
    type V = StoreView;

    open spec fn view(&self) -> StoreView {
        StoreView {
            bindings: self.bindings@.map_values(|b: Binding| b@),
            scope_count: self.scope_count as nat,
        }
    }
}

impl StoreView {
    /// A well-formed store binds each name at most once in each scope, and
    /// only in scopes that were allocated (those below `scope_count`).
    pub open spec fn wf(self) -> bool {
        &&& forall|i: int, j: int| 0 <= i < self.bindings.len() && 0 <= j < self.bindings.len() && i != j
            ==> (#[trigger] self.bindings[i]).scope != (#[trigger] self.bindings[j]).scope
                || self.bindings[i].name != self.bindings[j].name
        &&& forall|i: int| 0 <= i < self.bindings.len() ==> (#[trigger] self.bindings[i]).scope < self.scope_count
    }
}

/// The first binding at or after `k` of `name` in scope `scope`.
pub open spec fn find_binding(bs: Seq<BindingView>, scope: usize, name: Seq<char>, k: int) -> Option<int>
    decreases bs.len() - k,
{
    if k < 0 || k >= bs.len() {
        None
    } else if bs[k].scope == scope && bs[k].name == name {
        Some(k)
    } else {
        find_binding(bs, scope, name, k + 1)
    }
}

pub proof fn lemma_find_binding(bs: Seq<BindingView>, scope: usize, name: Seq<char>, k: int)
    ensures
        find_binding(bs, scope, name, k) matches Some(j) ==> k <= j < bs.len()
            && bs[j].scope == scope && bs[j].name == name,
    decreases bs.len() - k,
{
    if 0 <= k < bs.len() && !(bs[k].scope == scope && bs[k].name == name) {
        lemma_find_binding(bs, scope, name, k + 1);
    }
}

/// No binding at or after `k` is of `name` in `scope` when none is found.
pub proof fn lemma_find_none(bs: Seq<BindingView>, scope: usize, name: Seq<char>, k: int)
    requires
        0 <= k,
        find_binding(bs, scope, name, k) is None,
    ensures
        forall|i: int| k <= i < bs.len() ==> !((#[trigger] bs[i]).scope == scope && bs[i].name == name),
    decreases bs.len() - k,
{
    if k < bs.len() {
        lemma_find_none(bs, scope, name, k + 1);
    }
}

/// Defining a name in an allocated scope keeps a store well-formed.
pub proof fn lemma_define_wf(store: StoreView, scope: usize, name: Seq<char>, value: ObjectView)
    requires
        store.wf(),
        scope < store.scope_count,
    ensures
        store_define(store, scope, name, value).wf(),
{
    let bs = store.bindings;
    lemma_find_binding(bs, scope, name, 0);
    match find_binding(bs, scope, name, 0) {
        Some(k) => {
            let nb = bs.update(k, BindingView { scope, name, value });
            assert forall|i: int| 0 <= i < nb.len() implies #[trigger] nb[i].scope == bs[i].scope
                && nb[i].name == bs[i].name by {}
        },
        None => {
            lemma_find_none(bs, scope, name, 0);
            let nb = bs.push(BindingView { scope, name, value });
            assert forall|i: int| 0 <= i < bs.len() implies #[trigger] nb[i] == bs[i] by {}
        },
    }
}

/// The scope that binds a name in an environment is one of its scopes.
pub proof fn lemma_defining_scope_below(store: StoreView, stack: Seq<usize>, name: Seq<char>, bound: nat)
    requires
        forall|i: int| 0 <= i < stack.len() ==> #[trigger] stack[i] < bound,
    ensures
        defining_scope(store, stack, name) matches Some(s) ==> s < bound,
    decreases stack.len(),
{
    if stack.len() > 0 {
        assert(stack.last() == stack[stack.len() - 1]);
        let rest = stack.drop_last();
        assert forall|i: int| 0 <= i < rest.len() implies #[trigger] rest[i] < bound by {
            assert(rest[i] == stack[i]);
        }
        lemma_defining_scope_below(store, rest, name, bound);
    }
}

/// The value of `name` in scope `scope`, if it is bound there.
pub open spec fn scope_get(store: StoreView, scope: usize, name: Seq<char>) -> Option<ObjectView> {
    match find_binding(store.bindings, scope, name, 0) {
        Some(k) => Some(store.bindings[k].value),
        None => None,
    }
}

/// The store after binding `name` to `value` in scope `scope` (replacing
/// the value it had there, if any).
pub open spec fn store_define(store: StoreView, scope: usize, name: Seq<char>, value: ObjectView) -> StoreView {
    match find_binding(store.bindings, scope, name, 0) {
        Some(k) => StoreView {
            bindings: store.bindings.update(k, BindingView { scope, name, value }),
            ..store
        },
        None => StoreView {
            bindings: store.bindings.push(BindingView { scope, name, value }),
            ..store
        },
    }
}

/// The value of `name` in the innermost scope of `stack` that binds it.
pub open spec fn lookup(store: StoreView, stack: Seq<usize>, name: Seq<char>) -> Option<ObjectView>
    decreases stack.len(),
{
    if stack.len() == 0 {
        None
    } else {
        match scope_get(store, stack.last(), name) {
            Some(v) => Some(v),
            None => lookup(store, stack.drop_last(), name),
        }
    }
}

/// The innermost scope of `stack` that binds `name`.
pub open spec fn defining_scope(store: StoreView, stack: Seq<usize>, name: Seq<char>) -> Option<usize>
    decreases stack.len(),
{
    if stack.len() == 0 {
        None
    } else if scope_get(store, stack.last(), name) is Some {
        Some(stack.last())
    } else {
        defining_scope(store, stack.drop_last(), name)
    }
}

/// The store after setting `name`, in the innermost scope of `stack` that
/// binds it, to `value`; `None` if no scope of `stack` binds it.
pub open spec fn store_assign(store: StoreView, stack: Seq<usize>, name: Seq<char>, value: ObjectView) -> Option<StoreView> {
    match defining_scope(store, stack, name) {
        Some(scope) => Some(store_define(store, scope, name, value)),
        None => None,
    }
}

/// An environment: the scopes it sees, outermost (the globals) first.
pub struct Environment {
    values: usize,
    pub(crate) enclosure_stack: Vec<usize>,
}

impl View for Environment {
    type V = Seq<usize>;

    closed spec fn view(&self) -> Seq<usize> {
        self.enclosure_stack@
    }
}

impl Environment {
    /// An environment sees at least one scope, and definitions go to the
    /// innermost one.
    #[verifier::type_invariant]
    spec fn inv(self) -> bool {
        &&& self.enclosure_stack@.len() > 0
        &&& self.values == self.enclosure_stack@.last()
    }

    /// Every scope the environment sees is allocated in `store`.
    pub open spec fn within(&self, store: StoreView) -> bool {
        forall|i: int| 0 <= i < self@.len() ==> #[trigger] self@[i] < store.scope_count
    }

    /// The scope that definitions go to.
    pub fn innermost(&self) -> (s: usize)
        ensures
            s == self@.last(),
    {
        proof { use_type_invariant(self); }
        self.values
    }

    /// A copy of the environment (the scopes themselves stay shared).
    pub fn duplicate(&self) -> (r: Environment)
        ensures
            r@ == self@,
    {
        proof { use_type_invariant(self); }
        let mut stack: Vec<usize> = Vec::new();
        let mut i: usize = 0;
        while i < self.enclosure_stack.len()
            invariant
                i <= self.enclosure_stack@.len(),
                stack@ == self.enclosure_stack@.take(i as int),
            decreases self.enclosure_stack.len() - i,
        {
            stack.push(self.enclosure_stack[i]);
            assert(self.enclosure_stack@.take(i + 1) =~= self.enclosure_stack@.take(i as int).push(self.enclosure_stack@[i as int]));
            i = i + 1;
        }
        assert(self.enclosure_stack@.take(i as int) =~= self.enclosure_stack@);
        Environment { values: self.values, enclosure_stack: stack }
    }

    /// The global environment: one new scope.
    pub fn new_root(store: &mut Store) -> (env: Environment)
        requires
            old(store).scope_count < usize::MAX,
        ensures
            env@ == seq![old(store).scope_count],
            final(store)@ == (StoreView { scope_count: old(store)@.scope_count + 1, ..old(store)@ }),
            env.within(final(store)@),
            old(store)@.wf() ==> {
                &&& final(store)@.wf()
                &&& forall|k: int| 0 <= k < final(store)@.bindings.len()
                    ==> (#[trigger] final(store)@.bindings[k]).scope != env@.last()
            },
    {
        let values = allocate_scope(store);
        let mut enclosure_stack = Vec::new();
        enclosure_stack.push(values);
        Environment { enclosure_stack, values }
    }

    /// An environment that sees the scopes of `parent` and, innermost, one
    /// new scope.
    pub fn new_child(parent: &Environment, store: &mut Store) -> (env: Environment)
        requires
            old(store).scope_count < usize::MAX,
        ensures
            env@ == parent@.push(old(store).scope_count),
            final(store)@ == (StoreView { scope_count: old(store)@.scope_count + 1, ..old(store)@ }),
            parent.within(old(store)@) ==> env.within(final(store)@),
            old(store)@.wf() ==> {
                &&& final(store)@.wf()
                &&& forall|k: int| 0 <= k < final(store)@.bindings.len()
                    ==> (#[trigger] final(store)@.bindings[k]).scope != env@.last()
            },
    {
        let values = allocate_scope(store);
        let mut enclosure_stack = parent.duplicate().enclosure_stack;
        enclosure_stack.push(values);
        Environment { enclosure_stack, values }
    }

    /// An environment that sees the global scope of `parent` and, innermost,
    /// one new scope.
    pub fn new_from_globals(parent: &Environment, store: &mut Store) -> (env: Environment)
        requires
            old(store).scope_count < usize::MAX,
        ensures
            env@ == seq![parent@[0], old(store).scope_count],
            final(store)@ == (StoreView { scope_count: old(store)@.scope_count + 1, ..old(store)@ }),
            parent.within(old(store)@) ==> env.within(final(store)@),
            old(store)@.wf() ==> {
                &&& final(store)@.wf()
                &&& forall|k: int| 0 <= k < final(store)@.bindings.len()
                    ==> (#[trigger] final(store)@.bindings[k]).scope != env@.last()
            },
    {
        proof { use_type_invariant(parent); }
        let values = allocate_scope(store);
        let mut enclosure_stack = Vec::new();
        enclosure_stack.push(parent.enclosure_stack[0]);
        enclosure_stack.push(values);
        Environment { enclosure_stack, values }
    }

    /// Binds `name` to `value` in the innermost scope.
    pub fn define(&self, store: &mut Store, name: String, value: Object)
        ensures
            final(store)@ == store_define(old(store)@, self@.last(), name@, value@),
            old(store)@.wf() && self.within(old(store)@) ==> final(store)@.wf(),
    {
        proof {
            use_type_invariant(self);
            if old(store)@.wf() && self.within(old(store)@) {
                assert(self@.last() == self@[self@.len() - 1]);
                lemma_define_wf(store@, self@.last(), name@, value@);
            }
        }
        store.define_in(self.values, name, value);
    }

    /// The value of `name` in the innermost scope that binds it, if any.
    pub fn lookup(&self, store: &Store, name: &String) -> (r: Option<Object>)
        ensures
            match r {
                Some(o) => lookup(store@, self@, name@) == Some(o@),
                None => lookup(store@, self@, name@) is None,
            },
    {
        let mut i = self.enclosure_stack.len();
        assert(self@.take(i as int) =~= self@);
        while i > 0
            invariant
                i <= self.enclosure_stack@.len(),
                lookup(store@, self@, name@) == lookup(store@, self@.take(i as int), name@),
            decreases i,
        {
            let ghost pre = self@.take(i as int);
            assert(pre.drop_last() =~= self@.take(i - 1));
            match store.get_in(self.enclosure_stack[i - 1], name) {
                Some(o) => return Some(o),
                None => {},
            }
            i = i - 1;
        }
        None
    }

    /// The value of `name` in the innermost scope that binds it. It must be
    /// bound, and not to the value an assignment evaluates to.
    pub fn get(&self, store: &Store, name: String) -> (r: Object)
        requires
            lookup(store@, self@, name@) is Some,
            lookup(store@, self@, name@)->0 != ObjectView::NoValue,
        ensures
            Some(r@) == lookup(store@, self@, name@),
    {
        match self.lookup(store, &name) {
            Some(o) => o,
            None => Object::Nil,
        }
    }

    /// The innermost scope that binds `name`, if any.
    pub fn scope_of(&self, store: &Store, name: &String) -> (r: Option<usize>)
        ensures
            r == defining_scope(store@, self@, name@),
    {
        let mut i = self.enclosure_stack.len();
        assert(self@.take(i as int) =~= self@);
        while i > 0
            invariant
                i <= self.enclosure_stack@.len(),
                defining_scope(store@, self@, name@) == defining_scope(store@, self@.take(i as int), name@),
            decreases i,
        {
            let ghost pre = self@.take(i as int);
            assert(pre.drop_last() =~= self@.take(i - 1));
            let scope = self.enclosure_stack[i - 1];
            if store.get_in(scope, name).is_some() {
                return Some(scope);
            }
            i = i - 1;
        }
        None
    }

    /// Sets `name`, in the innermost scope that binds it, to `object`; false
    /// (and nothing changed) if no scope binds it.
    pub fn try_assign(&self, store: &mut Store, name: String, object: Object) -> (r: bool)
        ensures
            match store_assign(old(store)@, self@, name@, object@) {
                Some(s) => r && final(store)@ == s,
                None => !r && final(store)@ == old(store)@,
            },
            old(store)@.wf() && self.within(old(store)@) ==> final(store)@.wf(),
    {
        proof {
            if store@.wf() && self.within(store@) {
                lemma_defining_scope_below(store@, self@, name@, store@.scope_count);
                match defining_scope(store@, self@, name@) {
                    Some(sc) => lemma_define_wf(store@, sc, name@, object@),
                    None => {},
                }
            }
        }
        match self.scope_of(store, &name) {
            Some(scope) => {
                store.define_in(scope, name, object);
                true
            },
            None => false,
        }
    }

    /// Sets `name`, in the innermost scope that binds it, to `object`. Some
    /// scope must bind it.
    pub fn assign(&self, store: &mut Store, name: String, object: Object)
        requires
            store_assign(old(store)@, self@, name@, object@) is Some,
        ensures
            Some(final(store)@) == store_assign(old(store)@, self@, name@, object@),
            old(store)@.wf() && self.within(old(store)@) ==> final(store)@.wf(),
    {
        self.try_assign(store, name, object);
    }
}

/// A new scope's identifier.
fn allocate_scope(store: &mut Store) -> (s: usize)
    requires
        old(store).scope_count < usize::MAX,
    ensures
        s == old(store).scope_count,
        final(store)@ == (StoreView { scope_count: old(store)@.scope_count + 1, ..old(store)@ }),
{
    let s = store.scope_count;
    store.scope_count = s + 1;
    assert(store@.bindings =~= old(store)@.bindings);
    s
}

impl Store {
    /// No scopes and no bindings.
    pub fn new() -> (s: Store)
        ensures
            s@.bindings.len() == 0,
            s@.scope_count == 0,
            s@.wf(),
    {
        Store { bindings: Vec::new(), scope_count: 0 }
    }

    /// The first binding of `name` in scope `scope`.
    fn find(&self, scope: usize, name: &String) -> (r: Option<usize>)
        ensures
            match r {
                Some(k) => find_binding(self@.bindings, scope, name@, 0) == Some(k as int),
                None => find_binding(self@.bindings, scope, name@, 0) is None,
            },
    {
        let mut k: usize = 0;
        while k < self.bindings.len()
            invariant
                k <= self.bindings@.len(),
                find_binding(self@.bindings, scope, name@, 0) == find_binding(self@.bindings, scope, name@, k as int),
            decreases self.bindings.len() - k,
        {
            let b = &self.bindings[k];
            if b.scope == scope && b.name == *name {
                return Some(k);
            }
            k = k + 1;
        }
        None
    }

    /// The value of `name` in scope `scope`, if it is bound there.
    pub fn get_in(&self, scope: usize, name: &String) -> (r: Option<Object>)
        ensures
            match r {
                Some(o) => scope_get(self@, scope, name@) == Some(o@),
                None => scope_get(self@, scope, name@) is None,
            },
    {
        proof { lemma_find_binding(self@.bindings, scope, name@, 0); }
        match self.find(scope, name) {
            Some(k) => Some(self.bindings[k].value.duplicate()),
            None => None,
        }
    }

    /// Binds `name` to `value` in scope `scope`.
    pub fn define_in(&mut self, scope: usize, name: String, value: Object)
        ensures
            final(self)@ == store_define(old(self)@, scope, name@, value@),
            old(self)@.wf() && scope < old(self)@.scope_count ==> final(self)@.wf(),
    {
        proof {
            if self@.wf() && scope < self@.scope_count {
                lemma_define_wf(self@, scope, name@, value@);
            }
        }
        let ghost old_bs = self@.bindings;
        let b = Binding { scope, name, value };
        proof { lemma_find_binding(old_bs, scope, b.name@, 0); }
        match self.find(scope, &b.name) {
            Some(k) => {
                self.bindings.set(k, b);
                assert(self@.bindings =~= old_bs.update(k as int, b@));
            },
            None => {
                self.bindings.push(b);
                assert(self@.bindings =~= old_bs.push(b@));
            },
        }
    }
}

} // verus!
