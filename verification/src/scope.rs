//! The name-resolution scope a frame borrows: local, global, and cell
//! bindings, each an insertion-ordered association list.

use vstd::prelude::*;
use crate::value::{Value, assoc_get, assoc_set, assoc_remove};

verus! {

/// The scope handle of one frame.
#[derive(Debug)]
pub struct Scope {
    pub locals: Vec<(String, Value)>,
    pub globals: Vec<(String, Value)>,
    pub cells: Vec<(String, Value)>,
}

/// Copy an association list; the copy's view equals the original's.
pub fn clone_entries(src: &Vec<(String, Value)>) -> (r: Vec<(String, Value)>)
    ensures
        r@ == src@,
{
    let mut out: Vec<(String, Value)> = Vec::new();
    let mut i: usize = 0;
    while i < src.len()
        invariant
            i <= src.len(),
            out@ =~= src@.subrange(0, i as int),
        decreases src.len() - i,
    {
        let (k, v) = &src[i];
        out.push((k.clone(), v.clone()));
        i = i + 1;
    }
    assert(out@ =~= src@);
    out
}

/// Look a name up, first binding wins; returns a copy of the bound value.
pub fn entries_get(entries: &Vec<(String, Value)>, name: &String) -> (r: Option<Value>)
    ensures
        r == assoc_get(entries@, name@),
{
    let mut i: usize = 0;
    proof {
        assert(entries@.skip(0) =~= entries@);
    }
    while i < entries.len()
        invariant
            i <= entries.len(),
            assoc_get(entries@, name@) == assoc_get(entries@.skip(i as int), name@),
        decreases entries.len() - i,
    {
        assert(entries@.skip(i as int)[0] == entries@[i as int]);
        let (k, v) = &entries[i];
        if *k == *name {
            return Option::Some(v.clone());
        }
        assert(entries@.skip(i as int).skip(1) =~= entries@.skip(i + 1));
        i = i + 1;
    }
    assert(entries@.skip(i as int).len() == 0);
    Option::None
}

proof fn lemma_assoc_set_hit(s: Seq<(String, Value)>, key: String, v: Value, k: int)
    requires
        0 <= k < s.len(),
        s[k].0@ == key@,
        forall|j: int| 0 <= j < k ==> (#[trigger] s[j]).0@ != key@,
    ensures
        assoc_set(s, key, v) =~= s.update(k, (s[k].0, v)),
    decreases k,
{
    if k == 0 {
        assert(assoc_set(s, key, v) =~= s.update(0, (s[0].0, v)));
    } else {
        lemma_assoc_set_hit(s.skip(1), key, v, k - 1);
        assert(s.skip(1).update(k - 1, (s[k].0, v)) =~= s.update(k, (s[k].0, v)).skip(1));
        assert(assoc_set(s, key, v) =~= seq![s[0]] + assoc_set(s.skip(1), key, v));
        assert(assoc_set(s, key, v) =~= s.update(k, (s[k].0, v)));
    }
}

proof fn lemma_assoc_set_miss(s: Seq<(String, Value)>, key: String, v: Value)
    requires
        forall|j: int| 0 <= j < s.len() ==> (#[trigger] s[j]).0@ != key@,
    ensures
        assoc_set(s, key, v) =~= s.push((key, v)),
    decreases s.len(),
{
    if s.len() > 0 {
        lemma_assoc_set_miss(s.skip(1), key, v);
        assert(assoc_set(s, key, v) =~= seq![s[0]] + s.skip(1).push((key, v)));
        assert(seq![s[0]] + s.skip(1).push((key, v)) =~= s.push((key, v)));
    }
}

proof fn lemma_assoc_remove_hit(s: Seq<(String, Value)>, name: Seq<char>, k: int)
    requires
        0 <= k < s.len(),
        s[k].0@ == name,
        forall|j: int| 0 <= j < k ==> (#[trigger] s[j]).0@ != name,
    ensures
        assoc_remove(s, name) =~= s.remove(k),
    decreases k,
{
    if k == 0 {
        assert(assoc_remove(s, name) =~= s.remove(0));
    } else {
        lemma_assoc_remove_hit(s.skip(1), name, k - 1);
        assert(seq![s[0]] + s.skip(1).remove(k - 1) =~= s.remove(k));
    }
}

proof fn lemma_assoc_remove_miss(s: Seq<(String, Value)>, name: Seq<char>)
    requires
        forall|j: int| 0 <= j < s.len() ==> (#[trigger] s[j]).0@ != name,
    ensures
        assoc_remove(s, name) =~= s,
    decreases s.len(),
{
    if s.len() > 0 {
        lemma_assoc_remove_miss(s.skip(1), name);
        assert(seq![s[0]] + s.skip(1) =~= s);
    }
}

/// Bind a name: overwrite the first binding in place, else append.
pub fn entries_set(entries: &mut Vec<(String, Value)>, name: &String, v: Value)
    ensures
        final(entries)@ == assoc_set(old(entries)@, *name, v),
{
    let mut i: usize = 0;
    while i < entries.len()
        invariant
            i <= entries.len(),
            entries@ == old(entries)@,
            forall|j: int| 0 <= j < i ==> (#[trigger] entries@[j]).0@ != name@,
        decreases entries.len() - i,
    {
        if entries[i].0 == *name {
            let k = entries[i].0.clone();
            let ghost pre = entries@;
            entries[i] = (k, v);
            proof {
                lemma_assoc_set_hit(pre, *name, v, i as int);
            }
            return ;
        }
        i = i + 1;
    }
    proof {
        lemma_assoc_set_miss(entries@, *name, v);
    }
    entries.push((name.clone(), v));
}

/// Unbind a name; reports whether a binding was removed.
pub fn entries_remove(entries: &mut Vec<(String, Value)>, name: &String) -> (r: bool)
    ensures
        final(entries)@ == assoc_remove(old(entries)@, name@),
        r == (assoc_get(old(entries)@, name@) matches Option::Some(_)),
{
    let mut i: usize = 0;
    proof {
        assert(entries@.skip(0) =~= entries@);
    }
    while i < entries.len()
        invariant
            i <= entries.len(),
            entries@ == old(entries)@,
            forall|j: int| 0 <= j < i ==> (#[trigger] entries@[j]).0@ != name@,
            assoc_get(entries@, name@) == assoc_get(entries@.skip(i as int), name@),
        decreases entries.len() - i,
    {
        assert(entries@.skip(i as int)[0] == entries@[i as int]);
        if entries[i].0 == *name {
            let ghost pre = entries@;
            entries.remove(i);
            proof {
                lemma_assoc_remove_hit(pre, name@, i as int);
            }
            return true;
        }
        assert(entries@.skip(i as int).skip(1) =~= entries@.skip(i + 1));
        i = i + 1;
    }
    proof {
        lemma_assoc_remove_miss(entries@, name@);
        assert(entries@.skip(i as int).len() == 0);
    }
    false
}

impl Scope {
    /// A scope with no bindings.
    pub fn new() -> (r: Scope)
        ensures
            r.locals@.len() == 0,
            r.globals@.len() == 0,
            r.cells@.len() == 0,
    {
        Scope { locals: Vec::new(), globals: Vec::new(), cells: Vec::new() }
    }

    /// Load a name from the local bindings, falling back to the globals.
    pub fn load_name(&self, name: &String) -> (r: Option<Value>)
        ensures
            r == (match assoc_get(self.locals@, name@) {
                Option::Some(v) => Option::Some(v),
                Option::None => assoc_get(self.globals@, name@),
            }),
    {
        match entries_get(&self.locals, name) {
            Option::Some(v) => Option::Some(v),
            Option::None => entries_get(&self.globals, name),
        }
    }

    /// Load a name from the global bindings.
    pub fn load_global(&self, name: &String) -> (r: Option<Value>)
        ensures
            r == assoc_get(self.globals@, name@),
    {
        entries_get(&self.globals, name)
    }

    /// Load a name from the cell (nonlocal) bindings.
    pub fn load_cell(&self, name: &String) -> (r: Option<Value>)
        ensures
            r == assoc_get(self.cells@, name@),
    {
        entries_get(&self.cells, name)
    }

    /// Bind a name locally.
    pub fn store_name(&mut self, name: &String, v: Value)
        ensures
            final(self).locals@ == assoc_set(old(self).locals@, *name, v),
            final(self).globals@ == old(self).globals@,
            final(self).cells@ == old(self).cells@,
    {
        entries_set(&mut self.locals, name, v);
    }

    /// Bind a name globally.
    pub fn store_global(&mut self, name: &String, v: Value)
        ensures
            final(self).globals@ == assoc_set(old(self).globals@, *name, v),
            final(self).locals@ == old(self).locals@,
            final(self).cells@ == old(self).cells@,
    {
        entries_set(&mut self.globals, name, v);
    }

    /// Bind a name in a cell.
    pub fn store_cell(&mut self, name: &String, v: Value)
        ensures
            final(self).cells@ == assoc_set(old(self).cells@, *name, v),
            final(self).locals@ == old(self).locals@,
            final(self).globals@ == old(self).globals@,
    {
        entries_set(&mut self.cells, name, v);
    }

    /// Unbind a local name; reports whether it was bound.
    pub fn delete_name(&mut self, name: &String) -> (r: bool)
        ensures
            final(self).locals@ == assoc_remove(old(self).locals@, name@),
            final(self).globals@ == old(self).globals@,
            final(self).cells@ == old(self).cells@,
            r == (assoc_get(old(self).locals@, name@) matches Option::Some(_)),
    {
        entries_remove(&mut self.locals, name)
    }

    /// The local bindings, for introspection.
    pub fn get_locals(&self) -> (r: &Vec<(String, Value)>)
        ensures
            r@ == self.locals@,
    {
        &self.locals
    }
}

impl Clone for Scope {
    /// The copy's bindings equal the original's.
    fn clone(&self) -> (res: Self)
        ensures
            res.locals@ == self.locals@,
            res.globals@ == self.globals@,
            res.cells@ == self.cells@,
    {
        Scope {
            locals: clone_entries(&self.locals),
            globals: clone_entries(&self.globals),
            cells: clone_entries(&self.cells),
        }
    }
}

} // verus!
