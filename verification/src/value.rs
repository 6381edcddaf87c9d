//! The runtime value model.
//!
//! A [`Value`] is either an immutable scalar (none, bool, machine integer,
//! string) or a reference into the virtual machine's object heap. Compound
//! objects — containers, exceptions, modules, functions, context managers —
//! live on the heap ([`Obj`]), so that object identity, sharing, and in-place
//! mutation behave as in the modeled language: two stack slots holding the
//! same reference observe each other's mutations.

use vstd::prelude::*;
use crate::bytecode::CodeObject;
use crate::scope::Scope;

verus! {

/// A runtime value: a scalar or a reference into the heap.
#[derive(PartialEq, Eq, Debug)]
pub enum Value {
    PyNone,
    Bool(bool),
    Int(i64),
    Str(String),
    Ref(usize),
}

impl Clone for Value {
    fn clone(&self) -> (res: Self)
        ensures
            res == *self,
    {
        match self {
            Value::PyNone => Value::PyNone,
            Value::Bool(b) => Value::Bool(*b),
            Value::Int(i) => Value::Int(*i),
            Value::Str(s) => Value::Str(s.clone()),
            Value::Ref(r) => Value::Ref(*r),
        }
    }
}

/// The kind of an exception, standing in for its class.
#[derive(Clone, Copy, PartialEq, Eq, Structural, Debug)]
pub enum ExcKind {
    TypeError,
    NameError,
    ValueError,
    ImportError,
    RuntimeError,
    AttributeError,
    KeyError,
    IndexError,
    ZeroDivisionError,
    OverflowError,
}

/// The state of an exception instance.
#[derive(Debug)]
pub struct ExcData {
    pub kind: ExcKind,
    pub msg: String,
    pub cause: Value,
    pub context: Value,
    /// Reference to a heap list holding `(path, row, name)` traceback records.
    pub traceback: Value,
}

/// The state of a function object built by `MakeFunction`.
#[derive(Debug)]
pub struct FnData {
    /// Reference to the heap code object this function runs.
    pub code: Value,
    pub captured: Scope,
    pub defaults: Option<Value>,
    pub kw_only_defaults: Option<Value>,
    pub attrs: Vec<(String, Value)>,
}

/// The behavior of a context manager object: what `__enter__` returns, and
/// what `__exit__` returns or raises.
#[derive(Debug)]
pub struct CmData {
    pub enter_value: Value,
    pub exit_value: Value,
    pub exit_raises: Option<ExcKind>,
}

/// A host-provided callable.
#[derive(Clone, Copy, PartialEq, Eq, Structural, Debug)]
pub enum BuiltinKind {
    Print,
    BuildClass,
}

/// A heap object.
#[derive(Debug)]
pub enum Obj {
    List(Vec<Value>),
    Tuple(Vec<Value>),
    SetObj(Vec<Value>),
    Dict(Vec<(Value, Value)>),
    Slice { start: Value, stop: Value, step: Option<Value> },
    Iter { items: Vec<Value>, pos: usize },
    Exc(ExcData),
    ExcClass(ExcKind),
    Module { attrs: Vec<(String, Value)> },
    Function(FnData),
    CtxManager(CmData),
    Builtin(BuiltinKind),
    Code(Box<CodeObject>),
}

/// Value equality of the modeled language: structural on scalars (strings by
/// contents), identity on heap references.
pub open spec fn val_eq(a: Value, b: Value) -> bool {
    match (a, b) {
        (Value::PyNone, Value::PyNone) => true,
        (Value::Bool(x), Value::Bool(y)) => x == y,
        (Value::Int(x), Value::Int(y)) => x == y,
        (Value::Str(x), Value::Str(y)) => x@ == y@,
        (Value::Ref(x), Value::Ref(y)) => x == y,
        _ => false,
    }
}

/// Decide `val_eq` executably.
pub fn value_eq(a: &Value, b: &Value) -> (r: bool)
    ensures
        r == val_eq(*a, *b),
{
    match (a, b) {
        (Value::PyNone, Value::PyNone) => true,
        (Value::Bool(x), Value::Bool(y)) => *x == *y,
        (Value::Int(x), Value::Int(y)) => *x == *y,
        (Value::Str(x), Value::Str(y)) => *x == *y,
        (Value::Ref(x), Value::Ref(y)) => *x == *y,
        _ => false,
    }
}

/// A value is well formed against a heap of `hlen` objects when any reference
/// it holds points inside the heap.
pub open spec fn val_wf(v: Value, hlen: nat) -> bool {
    match v {
        Value::Ref(i) => i < hlen,
        _ => true,
    }
}

pub open spec fn vals_wf(s: Seq<Value>, hlen: nat) -> bool {
    forall|i: int| 0 <= i < s.len() ==> val_wf(#[trigger] s[i], hlen)
}

pub open spec fn named_wf(s: Seq<(String, Value)>, hlen: nat) -> bool {
    forall|i: int| 0 <= i < s.len() ==> val_wf((#[trigger] s[i]).1, hlen)
}

pub open spec fn pairs_wf(s: Seq<(Value, Value)>, hlen: nat) -> bool {
    forall|i: int|
        0 <= i < s.len() ==> val_wf((#[trigger] s[i]).0, hlen) && val_wf(s[i].1, hlen)
}

/// Dictionary keys are pairwise distinct under `val_eq`.
pub open spec fn dict_keys_unique(s: Seq<(Value, Value)>) -> bool {
    forall|i: int, j: int| 0 <= i < j < s.len() ==> !val_eq(s[i].0, s[j].0)
}

/// Set elements are pairwise distinct under `val_eq`.
pub open spec fn set_elems_unique(s: Seq<Value>) -> bool {
    forall|i: int, j: int| 0 <= i < j < s.len() ==> !val_eq(s[i], s[j])
}

pub open spec fn exc_wf(e: ExcData, hlen: nat) -> bool {
    val_wf(e.cause, hlen) && val_wf(e.context, hlen) && val_wf(e.traceback, hlen)
}

pub open spec fn scope_entries_wf(s: Scope, hlen: nat) -> bool {
    named_wf(s.locals@, hlen) && named_wf(s.globals@, hlen) && named_wf(s.cells@, hlen)
}

pub open spec fn obj_wf(o: Obj, hlen: nat) -> bool {
    match o {
        Obj::List(v) => vals_wf(v@, hlen),
        Obj::Tuple(v) => vals_wf(v@, hlen),
        Obj::SetObj(v) => vals_wf(v@, hlen) && set_elems_unique(v@),
        Obj::Dict(p) => pairs_wf(p@, hlen) && dict_keys_unique(p@),
        Obj::Slice { start, stop, step } => val_wf(start, hlen) && val_wf(stop, hlen) && (
        match step {
            Option::Some(s) => val_wf(s, hlen),
            Option::None => true,
        }),
        Obj::Iter { items, pos } => vals_wf(items@, hlen) && pos <= items@.len(),
        Obj::Exc(e) => exc_wf(e, hlen),
        Obj::ExcClass(_) => true,
        Obj::Module { attrs } => named_wf(attrs@, hlen),
        Obj::Function(f) => named_wf(f.attrs@, hlen) && val_wf(f.code, hlen)
            && scope_entries_wf(f.captured, hlen) && (
        match f.defaults {
            Option::Some(d) => val_wf(d, hlen),
            Option::None => true,
        }) && (match f.kw_only_defaults {
            Option::Some(d) => val_wf(d, hlen),
            Option::None => true,
        }),
        Obj::CtxManager(c) => val_wf(c.enter_value, hlen) && val_wf(c.exit_value, hlen),
        Obj::Builtin(_) => true,
        Obj::Code(_) => true,
    }
}

/// Every object in the heap is well formed against the heap itself.
pub open spec fn heap_wf(h: Seq<Obj>) -> bool {
    forall|i: int| 0 <= i < h.len() ==> obj_wf(#[trigger] h[i], h.len())
}

pub proof fn lemma_val_wf_mono(v: Value, n: nat, m: nat)
    requires
        val_wf(v, n),
        n <= m,
    ensures
        val_wf(v, m),
{
}

pub proof fn lemma_vals_wf_mono(s: Seq<Value>, n: nat, m: nat)
    requires
        vals_wf(s, n),
        n <= m,
    ensures
        vals_wf(s, m),
{
    assert forall|i: int| 0 <= i < s.len() implies val_wf(#[trigger] s[i], m) by {
        lemma_val_wf_mono(s[i], n, m);
    }
}

pub proof fn lemma_named_wf_mono(s: Seq<(String, Value)>, n: nat, m: nat)
    requires
        named_wf(s, n),
        n <= m,
    ensures
        named_wf(s, m),
{
    assert forall|i: int| 0 <= i < s.len() implies val_wf((#[trigger] s[i]).1, m) by {
        lemma_val_wf_mono(s[i].1, n, m);
    }
}

pub proof fn lemma_scope_wf_mono(s: Scope, n: nat, m: nat)
    requires
        scope_entries_wf(s, n),
        n <= m,
    ensures
        scope_entries_wf(s, m),
{
    lemma_named_wf_mono(s.locals@, n, m);
    lemma_named_wf_mono(s.globals@, n, m);
    lemma_named_wf_mono(s.cells@, n, m);
}

pub proof fn lemma_obj_wf_mono(o: Obj, n: nat, m: nat)
    requires
        obj_wf(o, n),
        n <= m,
    ensures
        obj_wf(o, m),
{
}

/// Extending a well-formed heap with an object that is well formed against
/// the extended length keeps the heap well formed.
pub proof fn lemma_heap_wf_push(h: Seq<Obj>, o: Obj)
    requires
        heap_wf(h),
        obj_wf(o, h.len() + 1),
    ensures
        heap_wf(h.push(o)),
{
    assert forall|i: int| 0 <= i < h.push(o).len() implies obj_wf(
        #[trigger] h.push(o)[i],
        h.push(o).len(),
    ) by {
        if i < h.len() {
            lemma_obj_wf_mono(h[i], h.len(), h.len() + 1);
        }
    }
}

/// Replacing one object with a well-formed one keeps the heap well formed.
pub proof fn lemma_heap_wf_update(h: Seq<Obj>, i: int, o: Obj)
    requires
        heap_wf(h),
        0 <= i < h.len(),
        obj_wf(o, h.len()),
    ensures
        heap_wf(h.update(i, o)),
{
}

/// Look a name up in an association list, first match wins.
pub open spec fn assoc_get(s: Seq<(String, Value)>, name: Seq<char>) -> Option<Value>
    decreases s.len(),
{
    if s.len() == 0 {
        Option::None
    } else if s[0].0@ == name {
        Option::Some(s[0].1)
    } else {
        assoc_get(s.skip(1), name)
    }
}

/// Bind a name in an association list: replace the first binding in place, or
/// append a new one.
pub open spec fn assoc_set(s: Seq<(String, Value)>, key: String, v: Value) -> Seq<(String, Value)>
    decreases s.len(),
{
    if s.len() == 0 {
        seq![(key, v)]
    } else if s[0].0@ == key@ {
        seq![(s[0].0, v)] + s.skip(1)
    } else {
        seq![s[0]] + assoc_set(s.skip(1), key, v)
    }
}

/// Remove the first binding of a name, or leave the list unchanged.
pub open spec fn assoc_remove(s: Seq<(String, Value)>, name: Seq<char>) -> Seq<(String, Value)>
    decreases s.len(),
{
    if s.len() == 0 {
        s
    } else if s[0].0@ == name {
        s.skip(1)
    } else {
        seq![s[0]] + assoc_remove(s.skip(1), name)
    }
}

/// A value found under a key in well-formed entries is well formed.
pub proof fn lemma_dict_get_wf(s: Seq<(Value, Value)>, key: Value, hlen: nat)
    requires
        pairs_wf(s, hlen),
    ensures
        match dict_get(s, key) {
            Option::Some(v) => val_wf(v, hlen),
            Option::None => true,
        },
    decreases s.len(),
{
    if s.len() > 0 && !val_eq(s[0].0, key) {
        lemma_dict_get_wf(s.skip(1), key, hlen);
    }
}

/// A value bound under a name in well-formed entries is well formed.
pub proof fn lemma_assoc_get_wf(s: Seq<(String, Value)>, name: Seq<char>, hlen: nat)
    requires
        named_wf(s, hlen),
    ensures
        match assoc_get(s, name) {
            Option::Some(v) => val_wf(v, hlen),
            Option::None => true,
        },
    decreases s.len(),
{
    if s.len() > 0 && s[0].0@ != name {
        lemma_assoc_get_wf(s.skip(1), name, hlen);
    }
}

/// What a lookup sees after a binding: the bound value under the bound key,
/// the previous view under any other.
pub proof fn lemma_assoc_set_get(s: Seq<(String, Value)>, key: String, v: Value, name: Seq<char>)
    ensures
        key@ == name ==> assoc_get(assoc_set(s, key, v), name) == Option::Some(v),
        key@ != name ==> assoc_get(assoc_set(s, key, v), name) == assoc_get(s, name),
    decreases s.len(),
{
    if s.len() == 0 {
        assert(assoc_set(s, key, v) =~= seq![(key, v)]);
        assert(assoc_get(seq![(key, v)], name) == (if key@ == name {
            Option::Some(v)
        } else {
            assoc_get(seq![(key, v)].skip(1), name)
        }));
        assert(seq![(key, v)].skip(1).len() == 0);
    } else if s[0].0@ == key@ {
        let r = seq![(s[0].0, v)] + s.skip(1);
        assert(assoc_set(s, key, v) == r);
        assert(r[0] == (s[0].0, v));
        assert(r.skip(1) =~= s.skip(1));
    } else {
        lemma_assoc_set_get(s.skip(1), key, v, name);
        let r = seq![s[0]] + assoc_set(s.skip(1), key, v);
        assert(assoc_set(s, key, v) == r);
        assert(r[0] == s[0]);
        assert(r.skip(1) =~= assoc_set(s.skip(1), key, v));
    }
}

/// Binding a name keeps an association list well formed.
pub proof fn lemma_assoc_set_wf(s: Seq<(String, Value)>, key: String, v: Value, hlen: nat)
    requires
        named_wf(s, hlen),
        val_wf(v, hlen),
    ensures
        named_wf(assoc_set(s, key, v), hlen),
    decreases s.len(),
{
    if s.len() == 0 {
    } else if s[0].0@ == key@ {
        let r = assoc_set(s, key, v);
        assert forall|i: int| 0 <= i < r.len() implies val_wf((#[trigger] r[i]).1, hlen) by {
            if i > 0 {
                assert(r[i] == s[i]);
            }
        }
    } else {
        lemma_assoc_set_wf(s.skip(1), key, v, hlen);
        let r = assoc_set(s, key, v);
        let rr = assoc_set(s.skip(1), key, v);
        assert forall|i: int| 0 <= i < r.len() implies val_wf((#[trigger] r[i]).1, hlen) by {
            if i > 0 {
                assert(r[i] == rr[i - 1]);
            } else {
                assert(r[0] == s[0]);
            }
        }
    }
}

/// Removing a name keeps an association list well formed.
pub proof fn lemma_assoc_remove_wf(s: Seq<(String, Value)>, name: Seq<char>, hlen: nat)
    requires
        named_wf(s, hlen),
    ensures
        named_wf(assoc_remove(s, name), hlen),
    decreases s.len(),
{
    if s.len() == 0 {
    } else if s[0].0@ == name {
        let r = assoc_remove(s, name);
        assert forall|i: int| 0 <= i < r.len() implies val_wf((#[trigger] r[i]).1, hlen) by {
            assert(r[i] == s[i + 1]);
        }
    } else {
        lemma_assoc_remove_wf(s.skip(1), name, hlen);
        let r = assoc_remove(s, name);
        let rr = assoc_remove(s.skip(1), name);
        assert forall|i: int| 0 <= i < r.len() implies val_wf((#[trigger] r[i]).1, hlen) by {
            if i > 0 {
                assert(r[i] == rr[i - 1]);
            } else {
                assert(r[0] == s[0]);
            }
        }
    }
}

/// Look a key up in dictionary entries under `val_eq`, first match wins.
pub open spec fn dict_get(s: Seq<(Value, Value)>, key: Value) -> Option<Value>
    decreases s.len(),
{
    if s.len() == 0 {
        Option::None
    } else if val_eq(s[0].0, key) {
        Option::Some(s[0].1)
    } else {
        dict_get(s.skip(1), key)
    }
}

/// Bind a key in dictionary entries: replace the first `val_eq` match in
/// place (preserving insertion order), or append.
pub open spec fn dict_set(s: Seq<(Value, Value)>, key: Value, v: Value) -> Seq<(Value, Value)>
    decreases s.len(),
{
    if s.len() == 0 {
        seq![(key, v)]
    } else if val_eq(s[0].0, key) {
        seq![(s[0].0, v)] + s.skip(1)
    } else {
        seq![s[0]] + dict_set(s.skip(1), key, v)
    }
}

/// Remove the first `val_eq` match of a key, or leave the entries unchanged.
pub open spec fn dict_remove(s: Seq<(Value, Value)>, key: Value) -> Seq<(Value, Value)>
    decreases s.len(),
{
    if s.len() == 0 {
        s
    } else if val_eq(s[0].0, key) {
        s.skip(1)
    } else {
        seq![s[0]] + dict_remove(s.skip(1), key)
    }
}

/// Whether a sequence holds a `val_eq` match of a value.
pub open spec fn seq_contains(s: Seq<Value>, v: Value) -> bool {
    exists|i: int| 0 <= i < s.len() && val_eq(s[i], v)
}

/// Copy a vector of values; the copy's view equals the original's.
pub fn clone_values(src: &Vec<Value>) -> (r: Vec<Value>)
    ensures
        r@ == src@,
{
    let mut out: Vec<Value> = Vec::new();
    let mut i: usize = 0;
    while i < src.len()
        invariant
            i <= src.len(),
            out@ =~= src@.subrange(0, i as int),
        decreases src.len() - i,
    {
        out.push(src[i].clone());
        i = i + 1;
    }
    assert(out@ =~= src@);
    out
}

/// Decide `seq_contains` executably over a vector.
pub fn values_contain(src: &Vec<Value>, v: &Value) -> (r: bool)
    ensures
        r == seq_contains(src@, *v),
{
    let mut i: usize = 0;
    while i < src.len()
        invariant
            i <= src.len(),
            forall|j: int| 0 <= j < i ==> !val_eq(src@[j], *v),
        decreases src.len() - i,
    {
        if value_eq(&src[i], v) {
            return true;
        }
        i = i + 1;
    }
    false
}

proof fn lemma_dict_set_hit(s: Seq<(Value, Value)>, key: Value, v: Value, k: int)
    requires
        0 <= k < s.len(),
        val_eq(s[k].0, key),
        forall|j: int| 0 <= j < k ==> !val_eq((#[trigger] s[j]).0, key),
    ensures
        dict_set(s, key, v) =~= s.update(k, (s[k].0, v)),
    decreases k,
{
    if k == 0 {
        assert(dict_set(s, key, v) =~= s.update(0, (s[0].0, v)));
    } else {
        lemma_dict_set_hit(s.skip(1), key, v, k - 1);
        assert(seq![s[0]] + s.skip(1).update(k - 1, (s[k].0, v)) =~= s.update(k, (s[k].0, v)));
    }
}

proof fn lemma_dict_set_miss(s: Seq<(Value, Value)>, key: Value, v: Value)
    requires
        forall|j: int| 0 <= j < s.len() ==> !val_eq((#[trigger] s[j]).0, key),
    ensures
        dict_set(s, key, v) =~= s.push((key, v)),
    decreases s.len(),
{
    if s.len() > 0 {
        lemma_dict_set_miss(s.skip(1), key, v);
        assert(seq![s[0]] + s.skip(1).push((key, v)) =~= s.push((key, v)));
    }
}

proof fn lemma_dict_remove_hit(s: Seq<(Value, Value)>, key: Value, k: int)
    requires
        0 <= k < s.len(),
        val_eq(s[k].0, key),
        forall|j: int| 0 <= j < k ==> !val_eq((#[trigger] s[j]).0, key),
    ensures
        dict_remove(s, key) =~= s.remove(k),
    decreases k,
{
    if k == 0 {
        assert(dict_remove(s, key) =~= s.remove(0));
    } else {
        lemma_dict_remove_hit(s.skip(1), key, k - 1);
        assert(seq![s[0]] + s.skip(1).remove(k - 1) =~= s.remove(k));
    }
}

proof fn lemma_dict_remove_miss(s: Seq<(Value, Value)>, key: Value)
    requires
        forall|j: int| 0 <= j < s.len() ==> !val_eq((#[trigger] s[j]).0, key),
    ensures
        dict_remove(s, key) =~= s,
    decreases s.len(),
{
    if s.len() > 0 {
        lemma_dict_remove_miss(s.skip(1), key);
        assert(seq![s[0]] + s.skip(1) =~= s);
    }
}

/// Look a key up in dictionary entries.
pub fn dict_entries_get(entries: &Vec<(Value, Value)>, key: &Value) -> (r: Option<Value>)
    ensures
        r == dict_get(entries@, *key),
{
    let mut i: usize = 0;
    proof {
        assert(entries@.skip(0) =~= entries@);
    }
    while i < entries.len()
        invariant
            i <= entries.len(),
            dict_get(entries@, *key) == dict_get(entries@.skip(i as int), *key),
        decreases entries.len() - i,
    {
        assert(entries@.skip(i as int)[0] == entries@[i as int]);
        if value_eq(&entries[i].0, key) {
            return Option::Some(entries[i].1.clone());
        }
        assert(entries@.skip(i as int).skip(1) =~= entries@.skip(i + 1));
        i = i + 1;
    }
    assert(entries@.skip(i as int).len() == 0);
    Option::None
}

/// Bind a key: overwrite the first `val_eq` match in place, else append.
pub fn dict_entries_set(entries: &mut Vec<(Value, Value)>, key: &Value, v: Value)
    ensures
        final(entries)@ == dict_set(old(entries)@, *key, v),
{
    let mut i: usize = 0;
    while i < entries.len()
        invariant
            i <= entries.len(),
            entries@ == old(entries)@,
            forall|j: int| 0 <= j < i ==> !val_eq((#[trigger] entries@[j]).0, *key),
        decreases entries.len() - i,
    {
        if value_eq(&entries[i].0, key) {
            let k = entries[i].0.clone();
            let ghost pre = entries@;
            entries[i] = (k, v);
            proof {
                lemma_dict_set_hit(pre, *key, v, i as int);
            }
            return ;
        }
        i = i + 1;
    }
    proof {
        lemma_dict_set_miss(entries@, *key, v);
    }
    entries.push((key.clone(), v));
}

/// Remove the first `val_eq` match of a key; reports whether one was there.
pub fn dict_entries_remove(entries: &mut Vec<(Value, Value)>, key: &Value) -> (r: bool)
    ensures
        final(entries)@ == dict_remove(old(entries)@, *key),
        r == (dict_get(old(entries)@, *key) matches Option::Some(_)),
{
    let mut i: usize = 0;
    proof {
        assert(entries@.skip(0) =~= entries@);
    }
    while i < entries.len()
        invariant
            i <= entries.len(),
            entries@ == old(entries)@,
            forall|j: int| 0 <= j < i ==> !val_eq((#[trigger] entries@[j]).0, *key),
            dict_get(entries@, *key) == dict_get(entries@.skip(i as int), *key),
        decreases entries.len() - i,
    {
        assert(entries@.skip(i as int)[0] == entries@[i as int]);
        if value_eq(&entries[i].0, key) {
            let ghost pre = entries@;
            entries.remove(i);
            proof {
                lemma_dict_remove_hit(pre, *key, i as int);
            }
            return true;
        }
        assert(entries@.skip(i as int).skip(1) =~= entries@.skip(i + 1));
        i = i + 1;
    }
    proof {
        lemma_dict_remove_miss(entries@, *key);
        assert(entries@.skip(i as int).len() == 0);
    }
    false
}

/// Binding a key keeps dictionary keys pairwise distinct and its entries
/// well formed; every resulting key is the bound key or one already present.
pub proof fn lemma_dict_set_wf(s: Seq<(Value, Value)>, key: Value, v: Value, hlen: nat)
    requires
        dict_keys_unique(s),
        pairs_wf(s, hlen),
        val_wf(key, hlen),
        val_wf(v, hlen),
    ensures
        dict_keys_unique(dict_set(s, key, v)),
        pairs_wf(dict_set(s, key, v), hlen),
        forall|m: int|
            0 <= m < dict_set(s, key, v).len() ==> ((#[trigger] dict_set(s, key, v)[m]).0 == key
                || exists|j: int| 0 <= j < s.len() && dict_set(s, key, v)[m].0 == (#[trigger] s[j]).0),
    decreases s.len(),
{
    if s.len() == 0 {
    } else if val_eq(s[0].0, key) {
        let r = dict_set(s, key, v);
        assert(r =~= seq![(s[0].0, v)] + s.skip(1));
        assert forall|m: int| 0 <= m < r.len() implies ((#[trigger] r[m]).0 == key || exists|j: int|
            0 <= j < s.len() && r[m].0 == (#[trigger] s[j]).0) by {
            assert(r[m].0 == s[m].0);
        }
    } else {
        lemma_dict_set_wf(s.skip(1), key, v, hlen);
        let r = dict_set(s, key, v);
        let rr = dict_set(s.skip(1), key, v);
        assert(r =~= seq![s[0]] + rr);
        assert forall|m: int| 0 <= m < r.len() implies ((#[trigger] r[m]).0 == key || exists|j: int|
            0 <= j < s.len() && r[m].0 == (#[trigger] s[j]).0) by {
            if m > 0 {
                assert(r[m] == rr[m - 1]);
                if rr[m - 1].0 == key {
                } else {
                    let j = choose|j: int| 0 <= j < s.skip(1).len() && rr[m - 1].0 == (#[trigger] s.skip(
                        1,
                    )[j]).0;
                    assert(s.skip(1)[j] == s[j + 1]);
                }
            } else {
                assert(r[0].0 == s[0].0);
            }
        }
        assert forall|m: int, n: int| 0 <= m < n < r.len() implies !val_eq(
            (#[trigger] r[m]).0,
            (#[trigger] r[n]).0,
        ) by {
            if m == 0 {
                if rr[n - 1].0 == key {
                } else {
                    let j = choose|j: int| 0 <= j < s.skip(1).len() && rr[n - 1].0 == (#[trigger] s.skip(
                        1,
                    )[j]).0;
                    assert(s.skip(1)[j] == s[j + 1]);
                    assert(!val_eq(s[0].0, s[j + 1].0));
                }
            }
        }
    }
}

/// Removing a key keeps dictionary keys pairwise distinct and its entries
/// well formed; every resulting key was already present.
pub proof fn lemma_dict_remove_wf(s: Seq<(Value, Value)>, key: Value, hlen: nat)
    requires
        dict_keys_unique(s),
        pairs_wf(s, hlen),
    ensures
        dict_keys_unique(dict_remove(s, key)),
        pairs_wf(dict_remove(s, key), hlen),
        forall|m: int|
            0 <= m < dict_remove(s, key).len() ==> exists|j: int|
                0 <= j < s.len() && (#[trigger] dict_remove(s, key)[m]).0 == (#[trigger] s[j]).0,
    decreases s.len(),
{
    if s.len() == 0 {
    } else if val_eq(s[0].0, key) {
        let r = dict_remove(s, key);
        assert(r =~= s.skip(1));
        assert forall|m: int| 0 <= m < r.len() implies exists|j: int| 0 <= j < s.len() && (
        #[trigger] r[m]).0 == (#[trigger] s[j]).0 by {
            assert(r[m].0 == s[m + 1].0);
        }
    } else {
        lemma_dict_remove_wf(s.skip(1), key, hlen);
        let r = dict_remove(s, key);
        let rr = dict_remove(s.skip(1), key);
        assert(r =~= seq![s[0]] + rr);
        assert forall|m: int| 0 <= m < r.len() implies exists|j: int| 0 <= j < s.len() && (
        #[trigger] r[m]).0 == (#[trigger] s[j]).0 by {
            if m > 0 {
                assert(r[m] == rr[m - 1]);
                let j = choose|j: int| 0 <= j < s.skip(1).len() && rr[m - 1].0 == (#[trigger] s.skip(
                    1,
                )[j]).0;
                assert(s.skip(1)[j] == s[j + 1]);
            } else {
                assert(r[0].0 == s[0].0);
            }
        }
        assert forall|m: int, n: int| 0 <= m < n < r.len() implies !val_eq(
            (#[trigger] r[m]).0,
            (#[trigger] r[n]).0,
        ) by {
            if m == 0 {
                let j = choose|j: int| 0 <= j < s.skip(1).len() && rr[n - 1].0 == (#[trigger] s.skip(
                    1,
                )[j]).0;
                assert(s.skip(1)[j] == s[j + 1]);
                assert(!val_eq(s[0].0, s[j + 1].0));
            }
        }
    }
}

/// The decimal digit character for `d`.
pub open spec fn dec_digit(d: nat) -> char {
    if d == 0 { '0' } else if d == 1 { '1' } else if d == 2 { '2' } else if d == 3 { '3' }
    else if d == 4 { '4' } else if d == 5 { '5' } else if d == 6 { '6' } else if d == 7 { '7' }
    else if d == 8 { '8' } else { '9' }
}

/// The decimal rendering of a natural number, most significant digit first.
pub open spec fn dec_seq(n: nat) -> Seq<char>
    decreases n,
{
    if n < 10 {
        seq![dec_digit(n)]
    } else {
        dec_seq(n / 10).push(dec_digit(n % 10))
    }
}

/// The decimal rendering of an integer, with a leading minus sign when negative.
pub open spec fn int_seq(i: int) -> Seq<char> {
    if i < 0 {
        seq!['-'] + dec_seq((-i) as nat)
    } else {
        dec_seq(i as nat)
    }
}

fn digit_str(d: u64) -> (r: String)
    requires
        d < 10,
    ensures
        r@ == seq![dec_digit(d as nat)],
{
    proof {
        reveal_strlit("0");
        reveal_strlit("1");
        reveal_strlit("2");
        reveal_strlit("3");
        reveal_strlit("4");
        reveal_strlit("5");
        reveal_strlit("6");
        reveal_strlit("7");
        reveal_strlit("8");
        reveal_strlit("9");
    }
    let s: &str = if d == 0 { "0" } else if d == 1 { "1" } else if d == 2 { "2" } else if d == 3 {
        "3"
    } else if d == 4 { "4" } else if d == 5 { "5" } else if d == 6 { "6" } else if d == 7 {
        "7"
    } else if d == 8 { "8" } else { "9" };
    let r = String::from_str(s);
    proof {
        assert(r@ =~= seq![dec_digit(d as nat)]);
    }
    r
}

fn u64_dec(n: u64) -> (r: String)
    ensures
        r@ == dec_seq(n as nat),
    decreases n,
{
    if n < 10 {
        digit_str(n)
    } else {
        let mut s = u64_dec(n / 10);
        let tail = digit_str(n % 10);
        s.append(tail.as_str());
        proof {
            assert(s@ =~= dec_seq((n / 10) as nat).push(dec_digit((n % 10) as nat)));
        }
        s
    }
}

/// Render an index in decimal.
pub fn usize_to_string(n: usize) -> (r: String)
    ensures
        r@ == dec_seq(n as nat),
{
    u64_dec(n as u64)
}

/// Render an integer in decimal.
pub fn int_to_string(i: i64) -> (r: String)
    ensures
        r@ == int_seq(i as int),
{
    if i >= 0 {
        u64_dec(i as u64)
    } else {
        let m: u64 = ((-(i + 1)) as u64) + 1;
        proof {
            reveal_strlit("-");
            assert(m as int == -(i as int));
        }
        let mut s = String::from_str("-");
        let tail = u64_dec(m);
        s.append(tail.as_str());
        proof {
            assert(s@ =~= seq!['-'] + dec_seq(m as nat));
        }
        s
    }
}

} // verus!
