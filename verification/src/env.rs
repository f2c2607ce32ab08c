use crate::ast::PathSegment;
use crate::text::{owned, str_eq};
use vstd::prelude::*;

verus! {

/// What a name of a namespace stands for: a function or a struct, by index.
#[derive(Clone, Copy, PartialEq, Eq, Structural, Debug)]
pub enum Object {
    Fn(u32),
    Struct(u32),
}

/// A namespace: its name, its index and that of its parent, its child
/// namespaces by name and its objects by name.
pub struct Scope {
    pub name: String,
    pub idx: usize,
    pub parent: usize,
    pub children: Vec<(String, usize)>,
    pub objs: Vec<(String, Object)>,
}

/// The value a name is bound to in a list of bindings where names are
/// distinct.
pub open spec fn bound<V>(entries: Seq<(String, V)>, name: Seq<char>) -> Option<V>
    decreases entries.len(),
{
    if entries.len() == 0 {
        None
    } else if entries.last().0@ == name {
        Some(entries.last().1)
    } else {
        bound(entries.drop_last(), name)
    }
}

/// The names of a list of bindings are distinct.
pub open spec fn distinct_names<V>(entries: Seq<(String, V)>) -> bool {
    forall|i: int, j: int| 0 <= i < j < entries.len() ==> entries[i].0@ != entries[j].0@
}

/// The namespaces of a program, from the root (namespace 0), with the one
/// names are added to and the path of names that leads to it.
pub struct Env {
    pub scopes: Vec<Scope>,
    pub curr: usize,
    pub namespace: Vec<String>,
}

/// The namespace a path leads to from namespace `cur`, from segment `i` on:
/// `super` goes to the parent (not above the root), `crate` to the root,
/// and any other name to the child of that name.
pub open spec fn walk_scope(scopes: Seq<Scope>, cur: int, path: Seq<PathSegment>, i: int) -> Option<int>
    decreases path.len() - i,
{
    if i < 0 || i >= path.len() || cur < 0 || cur >= scopes.len() {
        None
    } else {
        let seg = path[i].ident@;
        let last = i + 1 == path.len();
        let next = if seg == "super"@ {
            if scopes[cur].idx == 0 {
                None
            } else {
                Some(scopes[cur].parent as int)
            }
        } else if seg == "crate"@ {
            Some(0int)
        } else {
            match bound(scopes[cur].children@, seg) {
                Some(c) => Some(c as int),
                None => None,
            }
        };
        match next {
            None => None,
            Some(n) => if last && !(seg == "super"@ || seg == "crate"@) {
                Some(n)
            } else {
                walk_scope(scopes, n, path, i + 1)
            },
        }
    }
}

/// The object a path names from namespace `cur`, from segment `i` on, with
/// the index of the namespace that holds it: as `walk_scope`, except that
/// the last segment, unless it is `super` or `crate`, names an object of
/// the namespace reached.
pub open spec fn walk_object(scopes: Seq<Scope>, cur: int, path: Seq<PathSegment>, i: int) -> Option<(usize, Object)>
    decreases path.len() - i,
{
    if i < 0 || i >= path.len() || cur < 0 || cur >= scopes.len() {
        None
    } else {
        let seg = path[i].ident@;
        let last = i + 1 == path.len();
        if seg == "super"@ {
            if scopes[cur].idx == 0 {
                None
            } else {
                walk_object(scopes, scopes[cur].parent as int, path, i + 1)
            }
        } else if seg == "crate"@ {
            walk_object(scopes, 0, path, i + 1)
        } else if last {
            match bound(scopes[cur].objs@, seg) {
                Some(o) => Some((scopes[cur].idx, o)),
                None => None,
            }
        } else {
            match bound(scopes[cur].children@, seg) {
                Some(c) => walk_object(scopes, c as int, path, i + 1),
                None => None,
            }
        }
    }
}

/// The namespace a path leads to from the current one of `env`: the
/// current one itself for an empty path.
pub open spec fn target(env: &Env, path: Seq<PathSegment>) -> Option<int> {
    if path.len() == 0 {
        Some(env.curr as int)
    } else {
        match walk_scope(env.scopes@, env.curr as int, path, 0) {
            Some(n) => if 0 <= n < env.scopes@.len() { Some(n) } else { None },
            None => None,
        }
    }
}

/// What binding `name` to `obj` in the current namespace of `before` gives:
/// that name of that namespace now stands for `obj`, every other binding,
/// namespace and the current position stay as they were.
pub open spec fn added(before: Env, after: Env, name: Seq<char>, obj: Object) -> bool {
    let c = before.curr as int;
    &&& after.wf()
    &&& after.curr == before.curr
    &&& after.namespace == before.namespace
    &&& after.scopes@.len() == before.scopes@.len()
    &&& bound(after.scopes@[c].objs@, name) == Some(obj)
    &&& forall|n: Seq<char>| n != name ==> bound(after.scopes@[c].objs@, n) == bound(before.scopes@[c].objs@, n)
    &&& after.scopes@[c].children == before.scopes@[c].children
    &&& after.scopes@[c].idx == before.scopes@[c].idx
    &&& after.scopes@[c].parent == before.scopes@[c].parent
    &&& after.scopes@[c].name == before.scopes@[c].name
    &&& forall|i: int| 0 <= i < before.scopes@.len() && i != c ==> after.scopes@[i] == before.scopes@[i]
}

/// What opening a child namespace `name` of the current namespace of
/// `before` gives: a new, empty namespace at the end, bound under `name` in
/// the old current one, becomes current, and `name` ends the path of names.
pub open spec fn entered(before: Env, after: Env, name: Seq<char>) -> bool {
    let c = before.curr as int;
    let n = before.scopes@.len();
    &&& after.wf()
    &&& after.scopes@.len() == n + 1
    &&& after.curr == n
    &&& after.scopes@[n as int].parent == before.curr
    &&& after.scopes@[n as int].name@ == name
    &&& after.scopes@[n as int].children@.len() == 0
    &&& after.scopes@[n as int].objs@.len() == 0
    &&& after.namespace@.len() == before.namespace@.len() + 1
    &&& after.namespace@.last()@ == name
    &&& after.namespace@.drop_last() == before.namespace@
    &&& bound(after.scopes@[c].children@, name) == Some(n as usize)
    &&& forall|m: Seq<char>| m != name ==> bound(after.scopes@[c].children@, m) == bound(before.scopes@[c].children@, m)
    &&& after.scopes@[c].objs == before.scopes@[c].objs
    &&& after.scopes@[c].idx == before.scopes@[c].idx
    &&& after.scopes@[c].parent == before.scopes@[c].parent
    &&& forall|i: int| 0 <= i < n && i != c ==> after.scopes@[i] == before.scopes@[i]
}

/// What going back from the current namespace of `before` gives: its parent
/// becomes current and the last name of the path is dropped.
pub open spec fn exited(before: Env, after: Env) -> bool {
    &&& after.wf()
    &&& after.curr == before.scopes@[before.curr as int].parent
    &&& after.scopes == before.scopes
    &&& before.namespace@.len() > 0 ==> after.namespace@ == before.namespace@.drop_last()
    &&& before.namespace@.len() == 0 ==> after.namespace@ == before.namespace@
}

/// The names of a namespace path joined by `::`.
pub open spec fn joined(names: Seq<Seq<char>>) -> Seq<char>
    decreases names.len(),
{
    if names.len() == 0 {
        Seq::empty()
    } else if names.len() == 1 {
        names[0]
    } else {
        joined(names.drop_last()) + seq![':', ':'] + names.last()
    }
}

/// Finds the binding of a name, the last one first.
fn find_binding<V: Copy>(entries: &Vec<(String, V)>, name: &str) -> (r: Option<usize>)
    ensures
        match r {
            Some(i) => i < entries@.len() && entries@[i as int].0@ == name@ && bound(entries@, name@)
                == Some(entries@[i as int].1) && forall|j: int|
                i < j < entries@.len() ==> entries@[j].0@ != name@,
            None => bound(entries@, name@) is None,
        },
{
    let mut j: usize = entries.len();
    assert(entries@.take(j as int) =~= entries@);
    while j > 0
        invariant
            j <= entries@.len(),
            bound(entries@, name@) == bound(entries@.take(j as int), name@),
            forall|k: int| j <= k < entries@.len() ==> entries@[k].0@ != name@,
        decreases j,
    {
        proof {
            assert(entries@.take(j as int).drop_last() =~= entries@.take(j - 1));
        }
        if str_eq(entries[j - 1].0.as_str(), name) {
            return Some(j - 1);
        }
        j = j - 1;
    }
    None
}

/// Binds a name to a value: the binding of that name is replaced, or a new
/// one added at the end.
fn bind<V: Copy>(entries: &mut Vec<(String, V)>, name: &str, value: V)
    ensures
        bound(final(entries)@, name@) == Some(value),
        forall|n: Seq<char>| n != name@ ==> bound(final(entries)@, n) == bound(old(entries)@, n),
        forall|k: int|
            0 <= k < final(entries)@.len() ==> (#[trigger] final(entries)@[k]).1 == value || (k
                < old(entries)@.len() && final(entries)@[k] == old(entries)@[k]),
{
    match find_binding(entries, name) {
        Some(i) => {
            let ghost before = entries@;
            let key = owned(name);
            entries.set(i, (key, value));
            proof {
                lemma_bound_update(before, i as int, key, value);
            }
        },
        None => {
            let key = owned(name);
            entries.push((key, value));
            proof {
                assert(entries@.drop_last() =~= old(entries)@);
            }
        },
    }
}

/// Replacing the value of the last binding of a name changes that name's
/// value only.
proof fn lemma_bound_update<V>(entries: Seq<(String, V)>, i: int, key: String, value: V)
    requires
        0 <= i < entries.len(),
        key@ == entries[i].0@,
        bound(entries, key@) == Some(entries[i].1),
        forall|j: int| i < j < entries.len() ==> entries[j].0@ != key@,
    ensures
        bound(entries.update(i, (key, value)), key@) == Some(value),
        forall|n: Seq<char>| n != key@ ==> bound(entries.update(i, (key, value)), n) == bound(entries, n),
    decreases entries.len(),
{
    let u = entries.update(i, (key, value));
    let last = entries.len() - 1;
    assert(u.len() == entries.len());
    if i < last {
        assert(u.drop_last() =~= entries.drop_last().update(i, (key, value)));
        assert(u.last() == entries.last());
        assert(entries.last().0@ != key@);
        lemma_bound_tail(entries, i, key);
        lemma_bound_update(entries.drop_last(), i, key, value);
        assert(bound(u, key@) == bound(u.drop_last(), key@));
        assert forall|n: Seq<char>| n != key@ implies bound(u, n) == bound(entries, n) by {
            if entries.last().0@ != n {
                assert(bound(u, n) == bound(u.drop_last(), n));
                assert(bound(entries, n) == bound(entries.drop_last(), n));
            } else {
                assert(bound(u, n) == Some(u.last().1));
                assert(bound(entries, n) == Some(entries.last().1));
            }
        }
    } else {
        assert(u.drop_last() =~= entries.drop_last());
        assert(u.last() == (key, value));
        assert(entries.last().0@ == key@);
        assert forall|n: Seq<char>| n != key@ implies bound(u, n) == bound(entries, n) by {
            assert(bound(u, n) == bound(u.drop_last(), n));
            assert(bound(entries, n) == bound(entries.drop_last(), n));
        }
    }
}

/// Past a binding of a name that no later binding has, the name is bound
/// as in the bindings without the last one.
proof fn lemma_bound_tail<V>(entries: Seq<(String, V)>, i: int, key: String)
    requires
        0 <= i < entries.len() - 1,
        key@ == entries[i].0@,
        forall|j: int| i < j < entries.len() ==> entries[j].0@ != key@,
    ensures
        bound(entries, key@) == bound(entries.drop_last(), key@),
{
}

impl Env {
    /// The namespaces form a tree rooted at namespace 0: each knows its own
    /// index, and parents and children are namespaces that exist.
    pub open spec fn wf(&self) -> bool {
        &&& self.scopes@.len() >= 1
        &&& self.curr < self.scopes@.len()
        &&& forall|i: int|
            0 <= i < self.scopes@.len() ==> {
                &&& (#[trigger] self.scopes@[i]).idx == i
                &&& self.scopes@[i].parent < self.scopes@.len()
                &&& forall|k: int|
                    0 <= k < self.scopes@[i].children@.len() ==> (#[trigger] self.scopes@[i].children@[k]).1
                        < self.scopes@.len()
            }
    }

    /// Only the root namespace, with nothing in it.
    pub fn new() -> (e: Env)
        ensures
            e.wf(),
            e.scopes@.len() == 1,
            e.curr == 0,
            e.namespace@.len() == 0,
            e.scopes@[0].children@.len() == 0,
            e.scopes@[0].objs@.len() == 0,
    {
        let mut scopes: Vec<Scope> = Vec::new();
        scopes.push(Scope { name: String::new(), idx: 0, parent: 0, children: Vec::new(), objs: Vec::new() });
        Env { scopes, curr: 0, namespace: Vec::new() }
    }

    /// Binds a name of the current namespace to an object.
    fn add(&mut self, name: &str, obj: Object)
        requires
            old(self).wf(),
        ensures
            added(*old(self), *final(self), name@, obj),
    {
        let c = self.curr;
        let ghost before = self.scopes@;
        let mut scope = self.scopes.remove(c);
        bind(&mut scope.objs, name, obj);
        self.scopes.insert(c, scope);
        proof {
            assert(self.scopes@ =~= before.update(c as int, scope));
        }
    }

    /// Binds a name of the current namespace to a function.
    pub fn add_fn(&mut self, name: &str, id: u32)
        requires
            old(self).wf(),
        ensures
            added(*old(self), *final(self), name@, Object::Fn(id)),
    {
        self.add(name, Object::Fn(id));
    }

    /// Binds a name of the current namespace to a struct.
    pub fn add_struct(&mut self, name: &str, id: u32)
        requires
            old(self).wf(),
        ensures
            added(*old(self), *final(self), name@, Object::Struct(id)),
    {
        self.add(name, Object::Struct(id));
    }

    /// The object a path names from the current namespace, with the index
    /// of the namespace that holds it.
    pub fn lookup(&self, path: &[PathSegment]) -> (r: Option<(usize, &Object)>)
        requires
            self.wf(),
        ensures
            match walk_object(self.scopes@, self.curr as int, path@, 0) {
                Some((s, o)) => r matches Some(p) && p.0 == s && *p.1 == o,
                None => r is None,
            },
    {
        let mut cur = self.curr;
        let mut i: usize = 0;
        while i < path.len()
            invariant
                self.wf(),
                cur < self.scopes@.len(),
                i <= path@.len(),
                walk_object(self.scopes@, self.curr as int, path@, 0) == walk_object(
                    self.scopes@,
                    cur as int,
                    path@,
                    i as int,
                ),
            decreases path@.len() - i,
        {
            let last = i + 1 == path.len();
            let ident = path[i].ident.as_str();
            if str_eq(ident, "super") {
                if self.scopes[cur].idx == 0 {
                    return None;
                }
                cur = self.scopes[cur].parent;
            } else if str_eq(ident, "crate") {
                cur = 0;
            } else if last {
                return match find_binding(&self.scopes[cur].objs, ident) {
                    Some(k) => Some((self.scopes[cur].idx, &self.scopes[cur].objs[k].1)),
                    None => None,
                };
            } else {
                match find_binding(&self.scopes[cur].children, ident) {
                    Some(k) => {
                        cur = self.scopes[cur].children[k].1;
                    },
                    None => {
                        return None;
                    },
                }
            }
            i = i + 1;
        }
        None
    }

    /// The index of the namespace a path leads to from the current one (the
    /// current one for an empty path).
    fn lookup_index(&self, path: &[PathSegment]) -> (r: Option<usize>)
        requires
            self.wf(),
        ensures
            path@.len() == 0 ==> r == Some(self.curr),
            path@.len() > 0 ==> match walk_scope(self.scopes@, self.curr as int, path@, 0) {
                Some(n) => 0 <= n < self.scopes@.len() && r == Some(n as usize),
                None => r is None,
            },
            r matches Some(n) ==> n < self.scopes@.len(),
    {
        if path.len() == 0 {
            return Some(self.curr);
        }
        let mut cur = self.curr;
        let mut i: usize = 0;
        while i < path.len()
            invariant
                self.wf(),
                cur < self.scopes@.len(),
                i <= path@.len(),
                path@.len() > 0,
                walk_scope(self.scopes@, self.curr as int, path@, 0) == walk_scope(
                    self.scopes@,
                    cur as int,
                    path@,
                    i as int,
                ),
            decreases path@.len() - i,
        {
            let last = i + 1 == path.len();
            let ident = path[i].ident.as_str();
            if str_eq(ident, "super") {
                if self.scopes[cur].idx == 0 {
                    return None;
                }
                cur = self.scopes[cur].parent;
            } else if str_eq(ident, "crate") {
                cur = 0;
            } else {
                match find_binding(&self.scopes[cur].children, ident) {
                    Some(k) => {
                        cur = self.scopes[cur].children[k].1;
                        if last {
                            return Some(cur);
                        }
                    },
                    None => {
                        return None;
                    },
                }
            }
            i = i + 1;
        }
        None
    }

    /// The namespace a path leads to from the current one (the current one
    /// for an empty path).
    pub fn lookup_scope(&self, path: &[PathSegment]) -> (r: Option<&Scope>)
        requires
            self.wf(),
        ensures
            path@.len() == 0 ==> r == Some(&self.scopes@[self.curr as int]),
            path@.len() > 0 ==> match walk_scope(self.scopes@, self.curr as int, path@, 0) {
                Some(n) => 0 <= n < self.scopes@.len() && r == Some(&self.scopes@[n]),
                None => r is None,
            },
    {
        match self.lookup_index(path) {
            Some(n) => Some(&self.scopes[n]),
            None => None,
        }
    }

    /// The namespace a path leads to from the current one, to be changed in
    /// place: the other namespaces, the current one and the path of names
    /// stay as they were.
    pub fn lookup_scope_mut(&mut self, path: &[PathSegment]) -> (r: Option<&mut Scope>)
        requires
            old(self).wf(),
        ensures
            match target(old(self), path@) {
                Some(n) => r matches Some(s) && *s == old(self).scopes@[n] && final(self).scopes@
                    == old(self).scopes@.update(n, *final(s)),
                None => r is None && final(self).scopes@ == old(self).scopes@,
            },
            final(self).curr == old(self).curr,
            final(self).namespace == old(self).namespace,
    {
        match self.lookup_index(path) {
            Some(n) => Some(&mut self.scopes[n]),
            None => None,
        }
    }

    /// Opens a child namespace of the current one, which becomes current.
    pub fn enter(&mut self, name: &str)
        requires
            old(self).wf(),
        ensures
            entered(*old(self), *final(self), name@),
    {
        let idx = self.scopes.len();
        let c = self.curr;
        let ghost before = self.scopes@;
        let mut curr = self.scopes.remove(c);
        bind(&mut curr.children, name, idx);
        self.scopes.insert(c, curr);
        proof {
            assert(self.scopes@ =~= before.update(c as int, curr));
        }
        self.scopes.push(Scope { name: owned(name), idx, parent: c, children: Vec::new(), objs: Vec::new() });
        self.curr = idx;
        self.namespace.push(owned(name));
        proof {
            assert(self.namespace@.drop_last() =~= old(self).namespace@);
            assert forall|i: int| 0 <= i < self.scopes@.len() implies {
                &&& (#[trigger] self.scopes@[i]).idx == i
                &&& self.scopes@[i].parent < self.scopes@.len()
                &&& forall|k: int|
                    0 <= k < self.scopes@[i].children@.len() ==> (#[trigger] self.scopes@[i].children@[k]).1
                        < self.scopes@.len()
            } by {
                if i == c {
                    assert forall|k: int| 0 <= k < self.scopes@[i].children@.len() implies (
                    #[trigger] self.scopes@[i].children@[k]).1 < self.scopes@.len() by {
                        assert(curr.children@[k].1 == idx || curr.children@[k] == before[c as int].children@[k]);
                    }
                }
            }
        }
    }

    /// Goes back to the parent of the current namespace.
    pub fn exit(&mut self)
        requires
            old(self).wf(),
        ensures
            exited(*old(self), *final(self)),
    {
        self.curr = self.scopes[self.curr].parent;
        self.namespace.pop();
    }

    /// Makes the root namespace current.
    pub fn goto_root(&mut self)
        requires
            old(self).wf(),
        ensures
            final(self).wf(),
            final(self).curr == 0,
            final(self).scopes == old(self).scopes,
            final(self).namespace == old(self).namespace,
    {
        self.curr = 0;
    }

    /// A name qualified by the path of the current namespace: the names
    /// joined by `::`.
    pub fn full_name(&self, name: &str) -> (s: String)
        ensures
            s@ == (if self.namespace@.len() == 0 {
                name@
            } else {
                joined(self.namespace@.map_values(|n: String| n@)) + seq![':', ':'] + name@
            }),
    {
        if self.namespace.len() == 0 {
            return owned(name);
        }
        let ghost names = self.namespace@.map_values(|n: String| n@);
        let mut full = owned(self.namespace[0].as_str());
        proof {
            assert(names.take(1) =~= seq![names[0]]);
        }
        let mut i: usize = 1;
        while i < self.namespace.len()
            invariant
                1 <= i <= self.namespace@.len(),
                names == self.namespace@.map_values(|n: String| n@),
                full@ == joined(names.take(i as int)),
            decreases self.namespace@.len() - i,
        {
            full.append("::");
            full.append(self.namespace[i].as_str());
            proof {
                reveal_strlit("::");
                assert(names.take(i + 1).drop_last() =~= names.take(i as int));
            }
            i = i + 1;
        }
        full.append("::");
        full.append(name);
        proof {
            reveal_strlit("::");
            assert(names.take(i as int) =~= names);
        }
        full
    }
}

/// A name just bound in the current namespace is found there: a path of
/// that one name (neither `super` nor `crate`) leads to the object it was
/// bound to, held by the current namespace.
pub proof fn law_lookup_added(before: Env, after: Env, name: Seq<char>, obj: Object, path: Seq<PathSegment>)
    requires
        before.wf(),
        added(before, after, name, obj),
        path.len() == 1,
        path[0].ident@ == name,
        name != "super"@,
        name != "crate"@,
    ensures
        walk_object(after.scopes@, after.curr as int, path, 0) == Some((after.curr, obj)),
{
}

/// Going back after opening a namespace restores the current namespace and
/// the path of names, and from there the name given leads to the namespace
/// that was opened.
pub proof fn law_enter_exit(a: Env, b: Env, c: Env, name: Seq<char>, path: Seq<PathSegment>)
    requires
        a.wf(),
        entered(a, b, name),
        exited(b, c),
        path.len() == 1,
        path[0].ident@ == name,
        name != "super"@,
        name != "crate"@,
    ensures
        c.curr == a.curr,
        c.namespace@ == a.namespace@,
        walk_scope(c.scopes@, c.curr as int, path, 0) == Some(b.curr as int),
{
}

} // verus!
