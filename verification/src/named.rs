//! Hooks registered under the name of the transaction they are for.

use vstd::prelude::*;
use crate::fold::{all_accept_any, applied, lemma_applied_empty, run_hooks};

verus! {

/// The hooks registered under one transaction name, in registration order.
pub struct HookList<S> {
    name: String,
    hooks: Vec<S>,
}

/// Lists of hooks keyed by transaction name; each name has one list.
pub struct NamedHooks<S> {
    lists: Vec<HookList<S>>,
}

/// The hooks registered under `name` in `m`, none if the name is unknown.
pub open spec fn hooks_named<S>(m: Map<Seq<char>, Seq<S>>, name: Seq<char>) -> Seq<S> {
    if m.contains_key(name) {
        m[name]
    } else {
        Seq::empty()
    }
}

/// `m` after registering `hook` under `name`: it joins the end of that name's list.
pub open spec fn with_named_hook<S>(m: Map<Seq<char>, Seq<S>>, name: Seq<char>, hook: S) -> Map<Seq<char>, Seq<S>> {
    m.insert(name, hooks_named(m, name).push(hook))
}

/// Registering a hook under a name puts it last in that name's list and leaves
/// the hooks of every other name as they were.
pub proof fn lemma_named_hook_isolated<S>(m: Map<Seq<char>, Seq<S>>, name: Seq<char>, hook: S, other: Seq<char>)
    ensures
        hooks_named(with_named_hook(m, name, hook), name) == hooks_named(m, name).push(hook),
        other != name ==> hooks_named(with_named_hook(m, name, hook), other) == hooks_named(m, other),
{
}

/// Every name in `m` has at least one hook.
pub open spec fn lists_nonempty<S>(m: Map<Seq<char>, Seq<S>>) -> bool {
    forall|k: Seq<char>| #[trigger] m.contains_key(k) ==> m[k].len() > 0
}

impl<S> NamedHooks<S> {
    /// The names, in the order they were first registered.
    pub closed spec fn names(&self) -> Seq<Seq<char>> {
        self.lists@.map_values(|l: HookList<S>| l.name@)
    }

    /// Each name has a single list, and it holds at least one hook.
    pub closed spec fn wf(&self) -> bool {
        &&& self.names().no_duplicates()
        &&& forall|i: int| 0 <= i < self.lists@.len() ==> #[trigger] self.lists@[i].hooks@.len() > 0
    }

    /// Every name with a list has at least one hook in it.
    pub proof fn lemma_lists_nonempty(&self)
        requires
            self.wf(),
        ensures
            lists_nonempty(self.view()),
    {
        assert forall|k: Seq<char>| #[trigger] self.view().contains_key(k) implies self.view()[k].len() > 0 by {
            let i = choose|i: int| 0 <= i < self.lists@.len() && self.lists@[i].name@ == k;
            self.lemma_at(i);
        }
    }

    /// The position of the list for `name`.
    closed spec fn slot(&self, name: Seq<char>) -> int {
        choose|i: int| 0 <= i < self.lists@.len() && self.lists@[i].name@ == name
    }

    /// The hooks by name.
    pub closed spec fn view(&self) -> Map<Seq<char>, Seq<S>> {
        Map::new(
            |name: Seq<char>| exists|i: int| 0 <= i < self.lists@.len() && self.lists@[i].name@ == name,
            |name: Seq<char>| self.lists@[self.slot(name)].hooks@,
        )
    }

    proof fn lemma_at(&self, i: int)
        requires
            self.wf(),
            0 <= i < self.lists@.len(),
        ensures
            self.view().contains_key(self.lists@[i].name@),
            self.view()[self.lists@[i].name@] == self.lists@[i].hooks@,
    {
        let name = self.lists@[i].name@;
        assert(self.names()[i] == name);
        let j = self.slot(name);
        assert(0 <= j < self.lists@.len() && self.lists@[j].name@ == name);
        assert(self.names()[j] == name);
    }

    /// Nothing registered yet.
    pub fn new() -> (r: Self)
        ensures
            r.wf(),
            r.view() == Map::<Seq<char>, Seq<S>>::empty(),
    {
        let r = NamedHooks { lists: Vec::new() };
        assert(r.names() =~= Seq::<Seq<char>>::empty());
        assert(r.view() =~= Map::<Seq<char>, Seq<S>>::empty());
        r
    }

    /// The position of the list for `name`, if there is one.
    fn find(&self, name: &String) -> (r: Option<usize>)
        requires
            self.wf(),
        ensures
            r matches Some(i) ==> i < self.lists@.len() && self.lists@[i as int].name@ == name@,
            r is None ==> !self.view().contains_key(name@),
    {
        let mut i: usize = 0;
        while i < self.lists.len()
            invariant
                i <= self.lists@.len(),
                forall|k: int| 0 <= k < i ==> self.lists@[k].name@ != name@,
            decreases self.lists@.len() - i,
        {
            if self.lists[i].name == *name {
                return Some(i);
            }
            i += 1;
        }
        None
    }

    /// The number of names with hooks.
    pub fn count(&self) -> (n: usize)
        requires
            self.wf(),
        ensures
            n == self.view().dom().len(),
    {
        proof {
            self.names().unique_seq_to_set();
            assert(self.view().dom() =~= self.names().to_set()) by {
                assert forall|name: Seq<char>| self.view().dom().contains(name) implies self.names().to_set().contains(name) by {
                    let i = choose|i: int| 0 <= i < self.lists@.len() && self.lists@[i].name@ == name;
                    assert(self.names()[i] == name);
                }
                assert forall|name: Seq<char>| self.names().to_set().contains(name) implies self.view().dom().contains(name) by {
                    let i = choose|i: int| 0 <= i < self.names().len() && self.names()[i] == name;
                    assert(self.lists@[i].name@ == name);
                }
            }
        }
        self.lists.len()
    }

    /// Registers `hook` under `name`, after the hooks already there.
    pub fn add(&mut self, name: String, hook: S)
        requires
            old(self).wf(),
        ensures
            final(self).wf(),
            final(self).view() == with_named_hook(old(self).view(), name@, hook),
    {
        let ghost pre = *self;
        match self.find(&name) {
            Some(i) => {
                proof { pre.lemma_at(i as int); }
                self.lists[i].hooks.push(hook);
                proof {
                    assert(self.names() =~= pre.names());
                    let target = with_named_hook(pre.view(), name@, hook);
                    assert forall|k: Seq<char>| self.view().contains_key(k) <==> #[trigger] target.contains_key(k) by {
                        if self.view().contains_key(k) {
                            let j = choose|j: int| 0 <= j < self.lists@.len() && self.lists@[j].name@ == k;
                            pre.lemma_at(j);
                        }
                        if pre.view().contains_key(k) {
                            let j = choose|j: int| 0 <= j < pre.lists@.len() && pre.lists@[j].name@ == k;
                            assert(self.lists@[j].name@ == k);
                        }
                    }
                    assert(self.lists@[i as int].hooks@ == pre.lists@[i as int].hooks@.push(hook));
                    assert forall|k: Seq<char>| #[trigger] self.view().contains_key(k) implies self.view()[k] == target[k] by {
                        let j = choose|j: int| 0 <= j < self.lists@.len() && self.lists@[j].name@ == k;
                        self.lemma_at(j);
                        pre.lemma_at(j);
                        if j != i {
                            assert(self.lists@[j] == pre.lists@[j]);
                            assert(self.names()[j] != self.names()[i as int]);
                        }
                    }
                    assert(self.view() =~= target);
                }
            },
            None => {
                proof {
                    assert forall|j: int| 0 <= j < pre.lists@.len() implies pre.lists@[j].name@ != name@ by {
                        pre.lemma_at(j);
                    }
                }
                let ghost key = name@;
                self.lists.push(HookList { name, hooks: vec![hook] });
                proof {
                    assert(self.names() =~= pre.names().push(key));
                    assert forall|a: int, b: int| 0 <= a < b < self.names().len() implies self.names()[a] != self.names()[b] by {
                        if b < pre.names().len() {
                            assert(self.names()[a] == pre.names()[a]);
                            assert(self.names()[b] == pre.names()[b]);
                        } else {
                            assert(self.names()[a] == pre.names()[a]);
                            assert(pre.names()[a] == pre.lists@[a].name@);
                        }
                    }
                    assert(self.wf());
                    let target = with_named_hook(pre.view(), key, hook);
                    let last = pre.lists@.len() as int;
                    self.lemma_at(last);
                    assert(self.lists@[last].hooks@ =~= seq![hook]);
                    assert forall|k: Seq<char>| self.view().contains_key(k) <==> #[trigger] target.contains_key(k) by {
                        if self.view().contains_key(k) && k != key {
                            let j = choose|j: int| 0 <= j < self.lists@.len() && self.lists@[j].name@ == k;
                            assert(j != last);
                            assert(pre.lists@[j].name@ == k);
                        }
                        if pre.view().contains_key(k) {
                            let j = choose|j: int| 0 <= j < pre.lists@.len() && pre.lists@[j].name@ == k;
                            assert(self.lists@[j].name@ == k);
                        }
                    }
                    assert forall|k: Seq<char>| #[trigger] self.view().contains_key(k) implies self.view()[k] == target[k] by {
                        if k != key {
                            let j = choose|j: int| 0 <= j < self.lists@.len() && self.lists@[j].name@ == k;
                            assert(j != last);
                            assert(pre.lists@[j] == self.lists@[j]);
                            self.lemma_at(j);
                            pre.lemma_at(j);
                        }
                    }
                    assert(self.view() =~= target);
                }
            },
        }
    }

    /// Runs on `data` the hooks registered under `name`, in registration order;
    /// when no hook is registered under `name`, `data` comes back as it is.
    pub fn run<A>(&mut self, name: &String, data: A) -> (r: A)
        where
            S: FnMut(A) -> A,
        requires
            old(self).wf(),
            forall|k: Seq<char>| #[trigger] old(self).view().contains_key(k) ==> all_accept_any(old(self).view()[k]),
        ensures
            final(self).wf(),
            final(self).view() == old(self).view(),
            applied(hooks_named(old(self).view(), name@), data, r),
    {
        let ghost pre = *self;
        match self.find(name) {
            Some(i) => {
                proof {
                    pre.lemma_at(i as int);
                }
                let r = run_hooks(&mut self.lists[i].hooks, data);
                proof {
                    assert(self.names() =~= pre.names());
                    assert forall|k: Seq<char>| self.view().contains_key(k) <==> #[trigger] pre.view().contains_key(k) by {
                        if self.view().contains_key(k) {
                            let j = choose|j: int| 0 <= j < self.lists@.len() && self.lists@[j].name@ == k;
                            assert(pre.lists@[j].name@ == k);
                        }
                        if pre.view().contains_key(k) {
                            let j = choose|j: int| 0 <= j < pre.lists@.len() && pre.lists@[j].name@ == k;
                            assert(self.lists@[j].name@ == k);
                        }
                    }
                    assert forall|k: Seq<char>| #[trigger] self.view().contains_key(k) implies self.view()[k] == pre.view()[k] by {
                        let j = choose|j: int| 0 <= j < self.lists@.len() && self.lists@[j].name@ == k;
                        self.lemma_at(j);
                        pre.lemma_at(j);
                    }
                    assert(self.view() =~= pre.view());
                }
                r
            },
            None => {
                proof {
                    lemma_applied_empty::<A, S>(data);
                }
                data
            },
        }
    }
}

} // verus!
