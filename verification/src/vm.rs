//! The host virtual machine capability the frame dispatches against.
//!
//! The frame only consumes the operations listed here: object allocation,
//! attribute and item protocols, a small operator table, boolean coercion,
//! iteration, the current-exception register stack, and module import. The
//! object model itself is deliberately small: the operator table covers
//! machine integers, booleans, strings, and container concatenation, and
//! every other combination raises a type error. Value equality is structural
//! on scalars and is identity on heap objects. Context-manager objects are
//! driven by recorded behavior (`CmData`), and every `__enter__` / `__exit__`
//! invocation is appended to a log so that pairing can be stated and checked.

use vstd::prelude::*;
use crate::bytecode::{Constant, BinaryOperator, UnaryOperator, ComparisonOperator};
use crate::value::{
    FnData,
    Value, Obj, ExcKind, ExcData, CmData, BuiltinKind, val_eq, val_wf, vals_wf, named_wf, pairs_wf,
    obj_wf, heap_wf, exc_wf, dict_get, dict_set, dict_remove, dict_keys_unique, set_elems_unique, seq_contains, assoc_get, assoc_set, assoc_remove,
    lemma_val_wf_mono, lemma_vals_wf_mono, lemma_obj_wf_mono, lemma_heap_wf_push,
    lemma_heap_wf_update, lemma_dict_set_wf, lemma_dict_remove_wf, lemma_dict_get_wf, lemma_assoc_get_wf,
    lemma_assoc_set_wf, lemma_assoc_remove_wf, clone_values, values_contain,
    value_eq, dict_entries_get, dict_entries_set, dict_entries_remove, int_seq, int_to_string,
    scope_entries_wf,
};
use crate::scope::{entries_get, entries_set, entries_remove};

verus! {

broadcast use vstd::std_specs::vec::group_vec_axioms;

/// One record of a context-manager `__exit__` invocation, with the three
/// arguments it was handed.
pub struct ExitCall {
    pub cm: usize,
    pub exc_type: Value,
    pub exc_val: Value,
    pub exc_tb: Value,
}

/// The host virtual machine: the object heap, the current-exception register
/// stack, the module table, the context-manager call logs, and the output of
/// the `print` builtin.
pub struct Vm {
    pub heap: Vec<Obj>,
    pub exc_registers: Vec<Value>,
    pub modules: Vec<(String, Value)>,
    pub enter_log: Vec<usize>,
    pub exit_log: Vec<ExitCall>,
    pub printed: Vec<String>,
}

/// Objects already on the heap are unchanged; the heap may only have grown.
pub open spec fn heap_extended(h0: Seq<Obj>, h1: Seq<Obj>) -> bool {
    h0.len() <= h1.len() && forall|i: int| 0 <= i < h0.len() ==> h1[i] == h0[i]
}

/// The heap is unchanged except possibly at slot `i`, and kept its length.
pub open spec fn heap_same_except(h0: Seq<Obj>, h1: Seq<Obj>, i: int) -> bool {
    h1.len() == h0.len() && forall|j: int| 0 <= j < h0.len() && j != i ==> h1[j] == h0[j]
}

/// Nothing observable about the machine changed.
pub open spec fn vm_unchanged(pre: Vm, post: Vm) -> bool {
    post.heap@ == pre.heap@ && regs_logs_unchanged(pre, post)
}

/// The exception registers, module table, logs, and print output are untouched.
pub open spec fn regs_logs_unchanged(pre: Vm, post: Vm) -> bool {
    post.exc_registers@ == pre.exc_registers@ && post.modules@ == pre.modules@
        && post.enter_log@ == pre.enter_log@ && post.exit_log@ == pre.exit_log@ && post.printed@
        == pre.printed@
}

/// `v` references an exception object of kind `k` in heap `h`.
pub open spec fn is_exc_kind(h: Seq<Obj>, v: Value, k: ExcKind) -> bool {
    match v {
        Value::Ref(i) => i < h.len() && (match h[i as int] {
            Obj::Exc(e) => e.kind == k,
            _ => false,
        }),
        _ => false,
    }
}

/// `v` references some exception object in heap `h`.
pub open spec fn is_exc(h: Seq<Obj>, v: Value) -> bool {
    match v {
        Value::Ref(i) => i < h.len() && (h[i as int] matches Obj::Exc(_)),
        _ => false,
    }
}

/// `v` references a context manager in heap `h`.
pub open spec fn is_ctx(h: Seq<Obj>, v: Value) -> bool {
    match v {
        Value::Ref(i) => i < h.len() && (h[i as int] matches Obj::CtxManager(_)),
        _ => false,
    }
}

/// The step from `pre` to `post` allocated a fresh exception of kind `k` with
/// message `msg` (and a fresh, empty traceback list), touching nothing else.
pub open spec fn fresh_exc_msg(pre: Vm, post: Vm, r: Value, k: ExcKind, msg: Seq<char>) -> bool {
    &&& heap_extended(pre.heap@, post.heap@)
    &&& regs_logs_unchanged(pre, post)
    &&& pre.heap@.len() + 2 <= usize::MAX
    &&& post.heap@.len() == pre.heap@.len() + 2
    &&& r == Value::Ref((pre.heap@.len() + 1) as usize)
    &&& match post.heap@[pre.heap@.len() as int + 1] {
        Obj::Exc(e) => e.kind == k && e.msg@ == msg && e.cause == Value::PyNone && e.context
            == Value::PyNone && e.traceback == Value::Ref(pre.heap@.len() as usize) && (
        match post.heap@[pre.heap@.len() as int] {
            Obj::List(l) => l@.len() == 0,
            _ => false,
        }),
        _ => false,
    }
}

/// As `fresh_exc_msg`, leaving the message unconstrained.
pub open spec fn fresh_exc(pre: Vm, post: Vm, r: Value, k: ExcKind) -> bool {
    exists|msg: Seq<char>| fresh_exc_msg(pre, post, r, k, msg)
}

/// Truth value of a runtime value: none and empty things are false.
pub open spec fn spec_boolval(h: Seq<Obj>, v: Value) -> bool {
    match v {
        Value::PyNone => false,
        Value::Bool(b) => b,
        Value::Int(i) => i != 0,
        Value::Str(s) => s@.len() > 0,
        Value::Ref(i) => if i < h.len() {
            match h[i as int] {
                Obj::List(l) => l@.len() > 0,
                Obj::Tuple(t) => t@.len() > 0,
                Obj::SetObj(s) => s@.len() > 0,
                Obj::Dict(d) => d@.len() > 0,
                _ => true,
            }
        } else {
            true
        },
    }
}

/// The element sequence of a container value, if it is one.
pub open spec fn spec_elements(h: Seq<Obj>, v: Value) -> Option<Seq<Value>> {
    match v {
        Value::Ref(i) => if i < h.len() {
            match h[i as int] {
                Obj::List(l) => Option::Some(l@),
                Obj::Tuple(t) => Option::Some(t@),
                Obj::SetObj(s) => Option::Some(s@),
                _ => Option::None,
            }
        } else {
            Option::None
        },
        _ => Option::None,
    }
}

/// The items and position of an iterator value, if it is one.
pub open spec fn spec_iter(h: Seq<Obj>, v: Value) -> Option<(Seq<Value>, nat)> {
    match v {
        Value::Ref(i) => if i < h.len() {
            match h[i as int] {
                Obj::Iter { items, pos } => Option::Some((items@, pos as nat)),
                _ => Option::None,
            }
        } else {
            Option::None
        },
        _ => Option::None,
    }
}


/// Outcome of a model operator: an inline value to push, a string or
/// container to materialize, or a failure kind.
pub enum OpOut {
    Push(Value),
    NewStr(Seq<char>),
    NewList(Seq<Value>),
    NewTuple(Seq<Value>),
    Fail(ExcKind),
}

/// Normalize a (possibly negative) subscript against a container length.
pub open spec fn norm_index(len: nat, x: int) -> Option<int> {
    if 0 <= x < len {
        Option::Some(x)
    } else if -(len as int) <= x < 0 {
        Option::Some(len + x)
    } else {
        Option::None
    }
}

pub open spec fn item_from_seq(s: Seq<Value>, b: Value) -> OpOut {
    match b {
        Value::Int(x) => match norm_index(s.len(), x as int) {
            Option::Some(k) => OpOut::Push(s[k]),
            Option::None => OpOut::Fail(ExcKind::IndexError),
        },
        _ => OpOut::Fail(ExcKind::TypeError),
    }
}

/// The subscript-read protocol: sequences by (possibly negative) integer
/// index, dictionaries by key.
pub open spec fn spec_get_item(h: Seq<Obj>, a: Value, b: Value) -> OpOut {
    match a {
        Value::Ref(i) => if i < h.len() {
            match h[i as int] {
                Obj::List(l) => item_from_seq(l@, b),
                Obj::Tuple(t) => item_from_seq(t@, b),
                Obj::Dict(d) => match dict_get(d@, b) {
                    Option::Some(v) => OpOut::Push(v),
                    Option::None => OpOut::Fail(ExcKind::KeyError),
                },
                _ => OpOut::Fail(ExcKind::TypeError),
            }
        } else {
            OpOut::Fail(ExcKind::TypeError)
        },
        _ => OpOut::Fail(ExcKind::TypeError),
    }
}

/// The model operator table. Integers carry machine arithmetic with overflow
/// reported as an overflow error; floor division and modulo are defined on
/// nonnegative operands; `+` concatenates strings, lists, and tuples; the
/// logical connectives act on booleans. Every other combination is a type
/// error.
pub open spec fn spec_binop(h: Seq<Obj>, op: BinaryOperator, a: Value, b: Value) -> OpOut {
    match op {
        BinaryOperator::Add => match (a, b) {
            (Value::Int(x), Value::Int(y)) => if i64::MIN <= x + y <= i64::MAX {
                OpOut::Push(Value::Int((x + y) as i64))
            } else {
                OpOut::Fail(ExcKind::OverflowError)
            },
            (Value::Str(x), Value::Str(y)) => OpOut::NewStr(x@ + y@),
            (Value::Ref(i), Value::Ref(j)) => if i < h.len() && j < h.len() {
                match (h[i as int], h[j as int]) {
                    (Obj::List(l1), Obj::List(l2)) => OpOut::NewList(l1@ + l2@),
                    (Obj::Tuple(t1), Obj::Tuple(t2)) => OpOut::NewTuple(t1@ + t2@),
                    _ => OpOut::Fail(ExcKind::TypeError),
                }
            } else {
                OpOut::Fail(ExcKind::TypeError)
            },
            _ => OpOut::Fail(ExcKind::TypeError),
        },
        BinaryOperator::Subtract => match (a, b) {
            (Value::Int(x), Value::Int(y)) => if i64::MIN <= x - y <= i64::MAX {
                OpOut::Push(Value::Int((x - y) as i64))
            } else {
                OpOut::Fail(ExcKind::OverflowError)
            },
            _ => OpOut::Fail(ExcKind::TypeError),
        },
        BinaryOperator::Multiply => match (a, b) {
            (Value::Int(x), Value::Int(y)) => if i64::MIN <= x * y <= i64::MAX {
                OpOut::Push(Value::Int((x * y) as i64))
            } else {
                OpOut::Fail(ExcKind::OverflowError)
            },
            _ => OpOut::Fail(ExcKind::TypeError),
        },
        BinaryOperator::FloorDivide => match (a, b) {
            (Value::Int(x), Value::Int(y)) => if y == 0 {
                OpOut::Fail(ExcKind::ZeroDivisionError)
            } else if x >= 0 && y > 0 {
                OpOut::Push(Value::Int((x as int / y as int) as i64))
            } else {
                OpOut::Fail(ExcKind::TypeError)
            },
            _ => OpOut::Fail(ExcKind::TypeError),
        },
        BinaryOperator::Modulo => match (a, b) {
            (Value::Int(x), Value::Int(y)) => if y == 0 {
                OpOut::Fail(ExcKind::ZeroDivisionError)
            } else if x >= 0 && y > 0 {
                OpOut::Push(Value::Int((x as int % y as int) as i64))
            } else {
                OpOut::Fail(ExcKind::TypeError)
            },
            _ => OpOut::Fail(ExcKind::TypeError),
        },
        BinaryOperator::And => match (a, b) {
            (Value::Bool(x), Value::Bool(y)) => OpOut::Push(Value::Bool(x && y)),
            _ => OpOut::Fail(ExcKind::TypeError),
        },
        BinaryOperator::Or => match (a, b) {
            (Value::Bool(x), Value::Bool(y)) => OpOut::Push(Value::Bool(x || y)),
            _ => OpOut::Fail(ExcKind::TypeError),
        },
        BinaryOperator::Xor => match (a, b) {
            (Value::Bool(x), Value::Bool(y)) => OpOut::Push(Value::Bool(x != y)),
            _ => OpOut::Fail(ExcKind::TypeError),
        },
        BinaryOperator::Subscript => spec_get_item(h, a, b),
        _ => OpOut::Fail(ExcKind::TypeError),
    }
}

/// The membership protocol: containers by element, dictionaries by key.
pub open spec fn spec_membership(h: Seq<Obj>, needle: Value, haystack: Value) -> OpOut {
    match spec_elements(h, haystack) {
        Option::Some(s) => OpOut::Push(Value::Bool(seq_contains(s, needle))),
        Option::None => match haystack {
            Value::Ref(i) => if i < h.len() && (h[i as int] matches Obj::Dict(_)) {
                match h[i as int] {
                    Obj::Dict(d) => OpOut::Push(
                        Value::Bool(dict_get(d@, needle) matches Option::Some(_)),
                    ),
                    _ => OpOut::Fail(ExcKind::TypeError),
                }
            } else {
                OpOut::Fail(ExcKind::TypeError)
            },
            _ => OpOut::Fail(ExcKind::TypeError),
        },
    }
}

/// The model comparison table: equality is `val_eq`, ordering is defined on
/// integers, membership follows `spec_membership`, identity is `val_eq`.
pub open spec fn spec_compare(h: Seq<Obj>, op: ComparisonOperator, a: Value, b: Value) -> OpOut {
    match op {
        ComparisonOperator::Equal => OpOut::Push(Value::Bool(val_eq(a, b))),
        ComparisonOperator::NotEqual => OpOut::Push(Value::Bool(!val_eq(a, b))),
        ComparisonOperator::Less => match (a, b) {
            (Value::Int(x), Value::Int(y)) => OpOut::Push(Value::Bool(x < y)),
            _ => OpOut::Fail(ExcKind::TypeError),
        },
        ComparisonOperator::LessOrEqual => match (a, b) {
            (Value::Int(x), Value::Int(y)) => OpOut::Push(Value::Bool(x <= y)),
            _ => OpOut::Fail(ExcKind::TypeError),
        },
        ComparisonOperator::Greater => match (a, b) {
            (Value::Int(x), Value::Int(y)) => OpOut::Push(Value::Bool(x > y)),
            _ => OpOut::Fail(ExcKind::TypeError),
        },
        ComparisonOperator::GreaterOrEqual => match (a, b) {
            (Value::Int(x), Value::Int(y)) => OpOut::Push(Value::Bool(x >= y)),
            _ => OpOut::Fail(ExcKind::TypeError),
        },
        ComparisonOperator::In => spec_membership(h, a, b),
        ComparisonOperator::NotIn => match spec_membership(h, a, b) {
            OpOut::Push(Value::Bool(r)) => OpOut::Push(Value::Bool(!r)),
            out => out,
        },
        ComparisonOperator::Is => OpOut::Push(Value::Bool(val_eq(a, b))),
        ComparisonOperator::IsNot => OpOut::Push(Value::Bool(!val_eq(a, b))),
    }
}

/// The model unary table: negation and inversion on integers; `not` is
/// computed by the frame through boolean coercion.
pub open spec fn spec_unop(op: UnaryOperator, a: Value) -> OpOut {
    match op {
        UnaryOperator::Minus => match a {
            Value::Int(x) => if x == i64::MIN {
                OpOut::Fail(ExcKind::OverflowError)
            } else {
                OpOut::Push(Value::Int((-x) as i64))
            },
            _ => OpOut::Fail(ExcKind::TypeError),
        },
        UnaryOperator::Plus => match a {
            Value::Int(x) => OpOut::Push(Value::Int(x)),
            _ => OpOut::Fail(ExcKind::TypeError),
        },
        UnaryOperator::Invert => match a {
            Value::Int(x) => OpOut::Push(Value::Int((-(x as int) - 1) as i64)),
            _ => OpOut::Fail(ExcKind::TypeError),
        },
        UnaryOperator::Not => OpOut::Fail(ExcKind::TypeError),
    }
}

/// What a successful operator hands back and how the machine changed.
pub open spec fn op_post(pre: Vm, post: Vm, out: OpOut, r: Result<Value, Value>) -> bool {
    match out {
        OpOut::Push(v) => vm_unchanged(pre, post) && r == Result::<Value, Value>::Ok(v),
        OpOut::NewStr(sq) => vm_unchanged(pre, post) && (r matches Result::Ok(Value::Str(st))
            && st@ == sq),
        OpOut::NewList(sq) => {
            &&& regs_logs_unchanged(pre, post)
            &&& heap_extended(pre.heap@, post.heap@)
            &&& pre.heap@.len() + 1 <= usize::MAX
            &&& post.heap@.len() == pre.heap@.len() + 1
            &&& match post.heap@[pre.heap@.len() as int] {
                Obj::List(l) => l@ == sq,
                _ => false,
            }
            &&& r == Result::<Value, Value>::Ok(Value::Ref(pre.heap@.len() as usize))
        },
        OpOut::NewTuple(sq) => {
            &&& regs_logs_unchanged(pre, post)
            &&& heap_extended(pre.heap@, post.heap@)
            &&& pre.heap@.len() + 1 <= usize::MAX
            &&& post.heap@.len() == pre.heap@.len() + 1
            &&& match post.heap@[pre.heap@.len() as int] {
                Obj::Tuple(t) => t@ == sq,
                _ => false,
            }
            &&& r == Result::<Value, Value>::Ok(Value::Ref(pre.heap@.len() as usize))
        },
        OpOut::Fail(k) => r matches Result::Err(e) && fresh_exc(pre, post, e, k),
    }
}

impl Vm {
    pub open spec fn hlen(&self) -> nat {
        self.heap@.len()
    }

    /// Every object on the heap, every register, and every module value is
    /// well formed against the heap.
    pub open spec fn wf(&self) -> bool {
        heap_wf(self.heap@) && vals_wf(self.exc_registers@, self.hlen()) && named_wf(
            self.modules@,
            self.hlen(),
        )
    }

    /// A virtual machine with an empty heap and no modules.
    pub fn new() -> (r: Vm)
        ensures
            r.wf(),
            r.heap@.len() == 0,
            r.exc_registers@.len() == 0,
            r.modules@.len() == 0,
            r.enter_log@.len() == 0,
            r.exit_log@.len() == 0,
            r.printed@.len() == 0,
    {
        Vm {
            heap: Vec::new(),
            exc_registers: Vec::new(),
            modules: Vec::new(),
            enter_log: Vec::new(),
            exit_log: Vec::new(),
            printed: Vec::new(),
        }
    }

    /// Allocate a heap object and hand back a reference to it.
    pub fn alloc_obj(&mut self, o: Obj) -> (r: Value)
        requires
            old(self).wf(),
            obj_wf(o, old(self).hlen() + 1),
        ensures
            final(self).wf(),
            regs_logs_unchanged(*old(self), *final(self)),
            final(self).heap@ == old(self).heap@.push(o),
            r == Value::Ref(old(self).hlen() as usize),
            old(self).hlen() + 1 <= usize::MAX,
    {
        let id = self.heap.len();
        proof {
            lemma_heap_wf_push(self.heap@, o);
        }
        self.heap.push(o);
        let n2 = self.heap.len();
        proof {
            assert(n2 == self.hlen());
        }
        proof {
            lemma_vals_wf_mono(self.exc_registers@, old(self).hlen(), self.hlen());
            assert forall|i: int| 0 <= i < self.modules@.len() implies val_wf(
                (#[trigger] self.modules@[i]).1,
                self.hlen(),
            ) by {
                lemma_val_wf_mono(self.modules@[i].1, old(self).hlen(), self.hlen());
            }
        }
        Value::Ref(id)
    }

    /// Construct a fresh exception of kind `kind` with message `msg`.
    pub fn new_exc(&mut self, kind: ExcKind, msg: &str) -> (r: Value)
        requires
            old(self).wf(),
        ensures
            final(self).wf(),
            fresh_exc_msg(*old(self), *final(self), r, kind, msg@),
            val_wf(r, final(self).hlen()),
            old(self).hlen() + 2 <= usize::MAX,
    {
        let tb = self.alloc_obj(Obj::List(Vec::new()));
        let data = ExcData {
            kind,
            msg: String::from_str(msg),
            cause: Value::PyNone,
            context: Value::PyNone,
            traceback: tb,
        };
        let r = self.alloc_obj(Obj::Exc(data));
        r
    }

    /// The exception in the current-exception register, if any.
    pub fn current_exception(&self) -> (r: Option<Value>)
        ensures
            r == (if self.exc_registers@.len() > 0 {
                Option::Some(self.exc_registers@.last())
            } else {
                Option::<Value>::None
            }),
    {
        if self.exc_registers.len() > 0 {
            Option::Some(self.exc_registers[self.exc_registers.len() - 1].clone())
        } else {
            Option::None
        }
    }

    /// Push an exception onto the current-exception register stack.
    pub fn push_exception(&mut self, e: Value)
        requires
            old(self).wf(),
            val_wf(e, old(self).hlen()),
        ensures
            final(self).wf(),
            final(self).heap@ == old(self).heap@,
            final(self).exc_registers@ == old(self).exc_registers@.push(e),
            final(self).modules@ == old(self).modules@,
            final(self).enter_log@ == old(self).enter_log@,
            final(self).exit_log@ == old(self).exit_log@,
            final(self).printed@ == old(self).printed@,
    {
        self.exc_registers.push(e);
    }

    /// Pop the current-exception register stack.
    pub fn pop_exception(&mut self) -> (r: Option<Value>)
        requires
            old(self).wf(),
        ensures
            final(self).wf(),
            final(self).heap@ == old(self).heap@,
            final(self).modules@ == old(self).modules@,
            final(self).enter_log@ == old(self).enter_log@,
            final(self).exit_log@ == old(self).exit_log@,
            final(self).printed@ == old(self).printed@,
            old(self).exc_registers@.len() == 0 ==> r is None && final(self).exc_registers@ == old(
                self,
            ).exc_registers@,
            old(self).exc_registers@.len() > 0 ==> r == Option::Some(old(self).exc_registers@.last())
                && final(self).exc_registers@ == old(self).exc_registers@.drop_last(),
    {
        self.exc_registers.pop()
    }

    /// Truth value of `v`.
    pub fn boolval(&self, v: &Value) -> (r: bool)
        ensures
            r == spec_boolval(self.heap@, *v),
    {
        match v {
            Value::PyNone => false,
            Value::Bool(b) => *b,
            Value::Int(i) => *i != 0,
            Value::Str(s) => s.unicode_len() > 0,
            Value::Ref(i) => {
                if *i < self.heap.len() {
                    match &self.heap[*i] {
                        Obj::List(l) => l.len() > 0,
                        Obj::Tuple(t) => t.len() > 0,
                        Obj::SetObj(s) => s.len() > 0,
                        Obj::Dict(d) => d.len() > 0,
                        _ => true,
                    }
                } else {
                    true
                }
            },
        }
    }

    /// The elements of a container, or a type error.
    pub fn extract_elements(&mut self, v: &Value) -> (r: Result<Vec<Value>, Value>)
        requires
            old(self).wf(),
        ensures
            final(self).wf(),
            match spec_elements(old(self).heap@, *v) {
                Option::Some(s) => *final(self) == *old(self) && (r matches Result::Ok(out)
                    && out@ == s),
                Option::None => (r matches Result::Err(e) && fresh_exc_msg(
                    *old(self),
                    *final(self),
                    e,
                    ExcKind::TypeError,
                    "cannot extract elements"@,
                )),
            },
    {
        match v {
            Value::Ref(i) => {
                if *i < self.heap.len() {
                    match &self.heap[*i] {
                        Obj::List(l) => {
                            return Result::Ok(clone_values(l));
                        },
                        Obj::Tuple(t) => {
                            return Result::Ok(clone_values(t));
                        },
                        Obj::SetObj(s) => {
                            return Result::Ok(clone_values(s));
                        },
                        _ => {},
                    }
                }
            },
            _ => {},
        }
        Result::Err(self.new_exc(ExcKind::TypeError, "cannot extract elements"))
    }

    /// An iterator over a container, the iterable itself if it already is an
    /// iterator, or a type error.
    pub fn get_iter(&mut self, v: &Value) -> (r: Result<Value, Value>)
        requires
            old(self).wf(),
            val_wf(*v, old(self).hlen()),
        ensures
            final(self).wf(),
            match spec_elements(old(self).heap@, *v) {
                Option::Some(s) => {
                    &&& regs_logs_unchanged(*old(self), *final(self))
                    &&& r == Result::<Value, Value>::Ok(Value::Ref(old(self).hlen() as usize))
                    &&& final(self).heap@.len() == old(self).hlen() + 1
                    &&& heap_extended(old(self).heap@, final(self).heap@)
                    &&& spec_iter(final(self).heap@, Value::Ref(old(self).hlen() as usize))
                        == Option::Some((s, 0nat))
                },
                Option::None => if spec_iter(old(self).heap@, *v) is Some {
                    *final(self) == *old(self) && r == Result::<Value, Value>::Ok(*v)
                } else {
                    r matches Result::Err(e) && fresh_exc(
                        *old(self),
                        *final(self),
                        e,
                        ExcKind::TypeError,
                    )
                },
            },
    {
        let mut is_iter = false;
        match v {
            Value::Ref(i) => {
                if *i < self.heap.len() {
                    match &self.heap[*i] {
                        Obj::List(l) => {
                            let items = clone_values(l);
                            return Result::Ok(self.alloc_obj(Obj::Iter { items, pos: 0 }));
                        },
                        Obj::Tuple(t) => {
                            let items = clone_values(t);
                            return Result::Ok(self.alloc_obj(Obj::Iter { items, pos: 0 }));
                        },
                        Obj::SetObj(s) => {
                            let items = clone_values(s);
                            return Result::Ok(self.alloc_obj(Obj::Iter { items, pos: 0 }));
                        },
                        Obj::Iter { .. } => {
                            is_iter = true;
                        },
                        _ => {},
                    }
                }
            },
            _ => {},
        }
        if is_iter {
            return Result::Ok(v.clone());
        }
        Result::Err(self.new_exc(ExcKind::TypeError, "object is not iterable"))
    }

    /// Advance an iterator: its next element, `None` on exhaustion, or a type
    /// error if `v` is not an iterator.
    pub fn get_next_object(&mut self, v: &Value) -> (r: Result<Option<Value>, Value>)
        requires
            old(self).wf(),
        ensures
            final(self).wf(),
            match spec_iter(old(self).heap@, *v) {
                Option::Some((items, pos)) => {
                    &&& regs_logs_unchanged(*old(self), *final(self))
                    &&& if pos < items.len() {
                        &&& r == Result::<Option<Value>, Value>::Ok(
                            Option::Some(items[pos as int]),
                        )
                        &&& heap_same_except(old(self).heap@, final(self).heap@, v->Ref_0 as int)
                        &&& spec_iter(final(self).heap@, *v) == Option::Some(
                            (items, (pos + 1) as nat),
                        )
                    } else {
                        r == Result::<Option<Value>, Value>::Ok(Option::<Value>::None)
                            && vm_unchanged(*old(self), *final(self))
                    }
                },
                Option::None => r matches Result::Err(e) && fresh_exc(
                    *old(self),
                    *final(self),
                    e,
                    ExcKind::TypeError,
                ),
            },
    {
        match v {
            Value::Ref(i) => {
                if *i < self.heap.len() {
                    let found: bool = matches!(&self.heap[*i], Obj::Iter { .. });
                    if found {
                        let ghost pre_heap = self.heap@;
                        let slot = &mut self.heap[*i];
                        match slot {
                            Obj::Iter { items, pos } => {
                                if *pos < items.len() {
                                    let out = items[*pos].clone();
                                    *pos = *pos + 1;
                                    proof {
                                        assert(obj_wf(self.heap@[*i as int], self.hlen()));
                                        lemma_heap_wf_update(
                                            pre_heap,
                                            *i as int,
                                            self.heap@[*i as int],
                                        );
                                    }
                                    return Result::Ok(Option::Some(out));
                                } else {
                                    proof {
                                        assert(self.heap@ =~= pre_heap);
                                    }
                                    return Result::Ok(Option::None);
                                }
                            },
                            _ => {
                                proof {
                                    assert(false);
                                }
                                return Result::Ok(Option::None);
                            },
                        }
                    }
                }
            },
            _ => {},
        }
        Result::Err(self.new_exc(ExcKind::TypeError, "object is not an iterator"))
    }
}


/// Executable index normalization.
fn norm_idx_exec(len: usize, x: i64) -> (r: Option<usize>)
    ensures
        r == (match norm_index(len as nat, x as int) {
            Option::Some(k) => Option::Some(k as usize),
            Option::None => Option::<usize>::None,
        }),
{
    if x >= 0 {
        if (x as u64) < (len as u64) {
            Option::Some(x as usize)
        } else {
            Option::None
        }
    } else {
        let m: u64 = ((-(x + 1)) as u64) + 1;
        if m <= (len as u64) {
            Option::Some(((len as u64) - m) as usize)
        } else {
            Option::None
        }
    }
}

impl Vm {
    /// Read a subscript: `a[b]`.
    pub fn get_item(&mut self, a: &Value, b: &Value) -> (r: Result<Value, Value>)
        requires
            old(self).wf(),
        ensures
            final(self).wf(),
            op_post(*old(self), *final(self), spec_get_item(old(self).heap@, *a, *b), r),
            r matches Result::Ok(v) ==> val_wf(v, final(self).hlen()),
    {
        match a {
            Value::Ref(i) => {
                if *i < self.heap.len() {
                    proof {
                        assert(obj_wf(self.heap@[*i as int], self.hlen()));
                    }
                    let mut fail = ExcKind::TypeError;
                    match &self.heap[*i] {
                        Obj::List(l) => match b {
                            Value::Int(x) => match norm_idx_exec(l.len(), *x) {
                                Option::Some(k) => {
                                    return Result::Ok(l[k].clone());
                                },
                                Option::None => {
                                    fail = ExcKind::IndexError;
                                },
                            },
                            _ => {},
                        },
                        Obj::Tuple(t) => match b {
                            Value::Int(x) => match norm_idx_exec(t.len(), *x) {
                                Option::Some(k) => {
                                    return Result::Ok(t[k].clone());
                                },
                                Option::None => {
                                    fail = ExcKind::IndexError;
                                },
                            },
                            _ => {},
                        },
                        Obj::Dict(d) => {
                            proof {
                                lemma_dict_get_wf(d@, *b, self.hlen());
                            }
                            match dict_entries_get(d, b) {
                                Option::Some(v) => {
                                    return Result::Ok(v);
                                },
                                Option::None => {
                                    fail = ExcKind::KeyError;
                                },
                            }
                        },
                        _ => {},
                    }
                    return Result::Err(self.new_exc(fail, "subscript failed"));
                }
            },
            _ => {},
        }
        Result::Err(self.new_exc(ExcKind::TypeError, "object is not subscriptable"))
    }

    /// Apply a binary operator of the model table.
    pub fn binop(&mut self, op: BinaryOperator, a: &Value, b: &Value) -> (r: Result<Value, Value>)
        requires
            old(self).wf(),
        ensures
            final(self).wf(),
            op_post(*old(self), *final(self), spec_binop(old(self).heap@, op, *a, *b), r),
            r matches Result::Ok(v) ==> val_wf(v, final(self).hlen()),
    {
        match op {
            BinaryOperator::Add => {
                match (a, b) {
                    (Value::Int(x), Value::Int(y)) => {
                        return match x.checked_add(*y) {
                            Option::Some(sum) => Result::Ok(Value::Int(sum)),
                            Option::None => Result::Err(
                                self.new_exc(ExcKind::OverflowError, "integer overflow"),
                            ),
                        };
                    },
                    (Value::Str(x), Value::Str(y)) => {
                        return Result::Ok(Value::Str(x.clone().concat(y.as_str())));
                    },
                    (Value::Ref(i), Value::Ref(j)) => {
                        if *i < self.heap.len() && *j < self.heap.len() {
                            let mut pending: Option<(bool, Vec<Value>)> = Option::None;
                            match (&self.heap[*i], &self.heap[*j]) {
                                (Obj::List(l1), Obj::List(l2)) => {
                                    let mut out = clone_values(l1);
                                    let mut tail = clone_values(l2);
                                    out.append(&mut tail);
                                    pending = Option::Some((true, out));
                                },
                                (Obj::Tuple(t1), Obj::Tuple(t2)) => {
                                    let mut out = clone_values(t1);
                                    let mut tail = clone_values(t2);
                                    out.append(&mut tail);
                                    pending = Option::Some((false, out));
                                },
                                _ => {},
                            }
                            match pending {
                                Option::Some((is_list, out)) => {
                                    proof {
                                        assert(obj_wf(self.heap@[*i as int], self.hlen()));
                                        assert(obj_wf(self.heap@[*j as int], self.hlen()));
                                        assert(vals_wf(out@, self.hlen() + 1));
                                    }
                                    let v = if is_list {
                                        self.alloc_obj(Obj::List(out))
                                    } else {
                                        self.alloc_obj(Obj::Tuple(out))
                                    };
                                    return Result::Ok(v);
                                },
                                Option::None => {},
                            }
                        }
                    },
                    _ => {},
                }
            },
            BinaryOperator::Subtract => match (a, b) {
                (Value::Int(x), Value::Int(y)) => {
                    return match x.checked_sub(*y) {
                        Option::Some(d) => Result::Ok(Value::Int(d)),
                        Option::None => Result::Err(
                            self.new_exc(ExcKind::OverflowError, "integer overflow"),
                        ),
                    };
                },
                _ => {},
            },
            BinaryOperator::Multiply => match (a, b) {
                (Value::Int(x), Value::Int(y)) => {
                    return match x.checked_mul(*y) {
                        Option::Some(p) => Result::Ok(Value::Int(p)),
                        Option::None => Result::Err(
                            self.new_exc(ExcKind::OverflowError, "integer overflow"),
                        ),
                    };
                },
                _ => {},
            },
            BinaryOperator::FloorDivide => match (a, b) {
                (Value::Int(x), Value::Int(y)) => {
                    if *y == 0 {
                        return Result::Err(
                            self.new_exc(ExcKind::ZeroDivisionError, "division by zero"),
                        );
                    }
                    if *x >= 0 && *y > 0 {
                        let q: u64 = (*x as u64) / (*y as u64);
                        return Result::Ok(Value::Int(q as i64));
                    }
                },
                _ => {},
            },
            BinaryOperator::Modulo => match (a, b) {
                (Value::Int(x), Value::Int(y)) => {
                    if *y == 0 {
                        return Result::Err(
                            self.new_exc(ExcKind::ZeroDivisionError, "division by zero"),
                        );
                    }
                    if *x >= 0 && *y > 0 {
                        let m: u64 = (*x as u64) % (*y as u64);
                        return Result::Ok(Value::Int(m as i64));
                    }
                },
                _ => {},
            },
            BinaryOperator::And => match (a, b) {
                (Value::Bool(x), Value::Bool(y)) => {
                    return Result::Ok(Value::Bool(*x && *y));
                },
                _ => {},
            },
            BinaryOperator::Or => match (a, b) {
                (Value::Bool(x), Value::Bool(y)) => {
                    return Result::Ok(Value::Bool(*x || *y));
                },
                _ => {},
            },
            BinaryOperator::Xor => match (a, b) {
                (Value::Bool(x), Value::Bool(y)) => {
                    return Result::Ok(Value::Bool(*x != *y));
                },
                _ => {},
            },
            BinaryOperator::Subscript => {
                return self.get_item(a, b);
            },
            _ => {},
        }
        Result::Err(self.new_exc(ExcKind::TypeError, "unsupported operand types"))
    }

    /// Decide membership of `needle` in `haystack`.
    pub fn membership(&mut self, needle: &Value, haystack: &Value) -> (r: Result<bool, Value>)
        requires
            old(self).wf(),
        ensures
            final(self).wf(),
            match spec_membership(old(self).heap@, *needle, *haystack) {
                OpOut::Push(v) => vm_unchanged(*old(self), *final(self)) && (r matches Result::Ok(x)
                    && v == Value::Bool(x)),
                OpOut::Fail(k) => r matches Result::Err(e) && fresh_exc(
                    *old(self),
                    *final(self),
                    e,
                    k,
                ),
                _ => false,
            },
    {
        match haystack {
            Value::Ref(i) => {
                if *i < self.heap.len() {
                    match &self.heap[*i] {
                        Obj::List(l) => {
                            return Result::Ok(values_contain(l, needle));
                        },
                        Obj::Tuple(t) => {
                            return Result::Ok(values_contain(t, needle));
                        },
                        Obj::SetObj(st) => {
                            return Result::Ok(values_contain(st, needle));
                        },
                        Obj::Dict(d) => {
                            return Result::Ok(
                                match dict_entries_get(d, needle) {
                                    Option::Some(_) => true,
                                    Option::None => false,
                                },
                            );
                        },
                        _ => {},
                    }
                }
            },
            _ => {},
        }
        Result::Err(self.new_exc(ExcKind::TypeError, "argument is not a container"))
    }

    /// Apply a comparison operator.
    pub fn compare(&mut self, op: ComparisonOperator, a: &Value, b: &Value) -> (r: Result<
        Value,
        Value,
    >)
        requires
            old(self).wf(),
        ensures
            final(self).wf(),
            op_post(*old(self), *final(self), spec_compare(old(self).heap@, op, *a, *b), r),
            r matches Result::Ok(v) ==> val_wf(v, final(self).hlen()),
    {
        match op {
            ComparisonOperator::Equal => Result::Ok(Value::Bool(value_eq(a, b))),
            ComparisonOperator::NotEqual => Result::Ok(Value::Bool(!value_eq(a, b))),
            ComparisonOperator::Is => Result::Ok(Value::Bool(value_eq(a, b))),
            ComparisonOperator::IsNot => Result::Ok(Value::Bool(!value_eq(a, b))),
            ComparisonOperator::Less => match (a, b) {
                (Value::Int(x), Value::Int(y)) => Result::Ok(Value::Bool(*x < *y)),
                _ => Result::Err(self.new_exc(ExcKind::TypeError, "values are not comparable")),
            },
            ComparisonOperator::LessOrEqual => match (a, b) {
                (Value::Int(x), Value::Int(y)) => Result::Ok(Value::Bool(*x <= *y)),
                _ => Result::Err(self.new_exc(ExcKind::TypeError, "values are not comparable")),
            },
            ComparisonOperator::Greater => match (a, b) {
                (Value::Int(x), Value::Int(y)) => Result::Ok(Value::Bool(*x > *y)),
                _ => Result::Err(self.new_exc(ExcKind::TypeError, "values are not comparable")),
            },
            ComparisonOperator::GreaterOrEqual => match (a, b) {
                (Value::Int(x), Value::Int(y)) => Result::Ok(Value::Bool(*x >= *y)),
                _ => Result::Err(self.new_exc(ExcKind::TypeError, "values are not comparable")),
            },
            ComparisonOperator::In => match self.membership(a, b) {
                Result::Ok(x) => Result::Ok(Value::Bool(x)),
                Result::Err(e) => Result::Err(e),
            },
            ComparisonOperator::NotIn => match self.membership(a, b) {
                Result::Ok(x) => Result::Ok(Value::Bool(!x)),
                Result::Err(e) => Result::Err(e),
            },
        }
    }

    /// Apply a unary operator (`not` is computed by the frame through
    /// boolean coercion).
    pub fn unop(&mut self, op: UnaryOperator, a: &Value) -> (r: Result<Value, Value>)
        requires
            old(self).wf(),
        ensures
            final(self).wf(),
            op_post(*old(self), *final(self), spec_unop(op, *a), r),
            r matches Result::Ok(v) ==> val_wf(v, final(self).hlen()),
    {
        match op {
            UnaryOperator::Minus => match a {
                Value::Int(x) => {
                    if *x == i64::MIN {
                        Result::Err(self.new_exc(ExcKind::OverflowError, "integer overflow"))
                    } else {
                        Result::Ok(Value::Int(-(*x)))
                    }
                },
                _ => Result::Err(self.new_exc(ExcKind::TypeError, "bad operand type")),
            },
            UnaryOperator::Plus => match a {
                Value::Int(x) => Result::Ok(Value::Int(*x)),
                _ => Result::Err(self.new_exc(ExcKind::TypeError, "bad operand type")),
            },
            UnaryOperator::Invert => match a {
                Value::Int(x) => {
                    if *x == i64::MAX {
                        Result::Ok(Value::Int(i64::MIN))
                    } else {
                        Result::Ok(Value::Int(-(*x + 1)))
                    }
                },
                _ => Result::Err(self.new_exc(ExcKind::TypeError, "bad operand type")),
            },
            UnaryOperator::Not => Result::Err(self.new_exc(ExcKind::TypeError, "bad operand type")),
        }
    }
}


/// The named attributes the exception objects expose.
pub open spec fn tb_attr() -> Seq<char> {
    "__traceback__"@
}

pub open spec fn cause_attr() -> Seq<char> {
    "__cause__"@
}

pub open spec fn context_attr() -> Seq<char> {
    "__context__"@
}

/// The attribute-read protocol: module and function attribute tables, and the
/// special attributes of exceptions.
pub open spec fn spec_getattr(h: Seq<Obj>, v: Value, name: Seq<char>) -> Option<Value> {
    match v {
        Value::Ref(i) => if i < h.len() {
            match h[i as int] {
                Obj::Module { attrs } => assoc_get(attrs@, name),
                Obj::Function(f) => assoc_get(f.attrs@, name),
                Obj::Exc(e) => if name == tb_attr() {
                    Option::Some(e.traceback)
                } else if name == cause_attr() {
                    Option::Some(e.cause)
                } else if name == context_attr() {
                    Option::Some(e.context)
                } else {
                    Option::None
                },
                _ => Option::None,
            }
        } else {
            Option::None
        },
        _ => Option::None,
    }
}

/// What a subscript write did: the one written slot, or the error.
pub open spec fn set_item_post(
    pre: Vm,
    post: Vm,
    a: Value,
    key: Value,
    v: Value,
    r: Result<(), Value>,
) -> bool {
    match a {
        Value::Ref(i) => if i < pre.heap@.len() {
            match pre.heap@[i as int] {
                Obj::List(l) => match key {
                    Value::Int(x) => match norm_index(l@.len(), x as int) {
                        Option::Some(k) => {
                            &&& r is Ok
                            &&& regs_logs_unchanged(pre, post)
                            &&& heap_same_except(pre.heap@, post.heap@, i as int)
                            &&& match post.heap@[i as int] {
                                Obj::List(l2) => l2@ == l@.update(k, v),
                                _ => false,
                            }
                        },
                        Option::None => r matches Result::Err(e) && fresh_exc(
                            pre,
                            post,
                            e,
                            ExcKind::IndexError,
                        ),
                    },
                    _ => r matches Result::Err(e) && fresh_exc(pre, post, e, ExcKind::TypeError),
                },
                Obj::Dict(d) => {
                    &&& r is Ok
                    &&& regs_logs_unchanged(pre, post)
                    &&& heap_same_except(pre.heap@, post.heap@, i as int)
                    &&& match post.heap@[i as int] {
                        Obj::Dict(d2) => d2@ == dict_set(d@, key, v),
                        _ => false,
                    }
                },
                _ => r matches Result::Err(e) && fresh_exc(pre, post, e, ExcKind::TypeError),
            }
        } else {
            r matches Result::Err(e) && fresh_exc(pre, post, e, ExcKind::TypeError)
        },
        _ => r matches Result::Err(e) && fresh_exc(pre, post, e, ExcKind::TypeError),
    }
}

/// What a subscript delete did.
pub open spec fn del_item_post(pre: Vm, post: Vm, a: Value, key: Value, r: Result<(), Value>) -> bool {
    match a {
        Value::Ref(i) => if i < pre.heap@.len() {
            match pre.heap@[i as int] {
                Obj::Dict(d) => if dict_get(d@, key) is Some {
                    &&& r is Ok
                    &&& regs_logs_unchanged(pre, post)
                    &&& heap_same_except(pre.heap@, post.heap@, i as int)
                    &&& match post.heap@[i as int] {
                        Obj::Dict(d2) => d2@ == dict_remove(d@, key),
                        _ => false,
                    }
                } else {
                    r matches Result::Err(e) && fresh_exc(pre, post, e, ExcKind::KeyError)
                },
                _ => r matches Result::Err(e) && fresh_exc(pre, post, e, ExcKind::TypeError),
            }
        } else {
            r matches Result::Err(e) && fresh_exc(pre, post, e, ExcKind::TypeError)
        },
        _ => r matches Result::Err(e) && fresh_exc(pre, post, e, ExcKind::TypeError),
    }
}

impl Vm {
    /// Write a subscript: `a[key] = v`.
    pub fn set_item(&mut self, a: &Value, key: &Value, v: Value) -> (r: Result<(), Value>)
        requires
            old(self).wf(),
            val_wf(*key, old(self).hlen()),
            val_wf(v, old(self).hlen()),
        ensures
            final(self).wf(),
            set_item_post(*old(self), *final(self), *a, *key, v, r),
    {
        match a {
            Value::Ref(i) => {
                if *i < self.heap.len() {
                    let kind: u8 = match &self.heap[*i] {
                        Obj::List(_) => 1,
                        Obj::Dict(_) => 2,
                        _ => 0,
                    };
                    if kind == 1 {
                        let llen: usize = match &self.heap[*i] {
                            Obj::List(l) => l.len(),
                            _ => 0,
                        };
                        match key {
                            Value::Int(x) => {
                                match norm_idx_exec(llen, *x) {
                                    Option::Some(k) => {
                                        let ghost pre_heap = self.heap@;
                                        let slot = &mut self.heap[*i];
                                        match slot {
                                            Obj::List(l) => {
                                                l[k] = v;
                                            },
                                            _ => {
                                                proof {
                                                    assert(false);
                                                }
                                            },
                                        }
                                        proof {
                                            assert(obj_wf(self.heap@[*i as int], self.hlen()));
                                            lemma_heap_wf_update(
                                                pre_heap,
                                                *i as int,
                                                self.heap@[*i as int],
                                            );
                                        }
                                        return Result::Ok(());
                                    },
                                    Option::None => {
                                        return Result::Err(
                                            self.new_exc(ExcKind::IndexError, "index out of range"),
                                        );
                                    },
                                }
                            },
                            _ => {
                                return Result::Err(
                                    self.new_exc(ExcKind::TypeError, "bad subscript type"),
                                );
                            },
                        }
                    } else if kind == 2 {
                        let ghost pre_heap = self.heap@;
                        let slot = &mut self.heap[*i];
                        match slot {
                            Obj::Dict(d) => {
                                proof {
                                    assert(obj_wf(pre_heap[*i as int], pre_heap.len()));
                                }
                                dict_entries_set(d, key, v);
                            },
                            _ => {
                                proof {
                                    assert(false);
                                }
                            },
                        }
                        proof {
                            match pre_heap[*i as int] {
                                Obj::Dict(d0) => {
                                    lemma_dict_set_wf(d0@, *key, v, self.hlen());
                                },
                                _ => {},
                            }
                            assert(obj_wf(self.heap@[*i as int], self.hlen()));
                            lemma_heap_wf_update(pre_heap, *i as int, self.heap@[*i as int]);
                        }
                        return Result::Ok(());
                    }
                }
            },
            _ => {},
        }
        Result::Err(self.new_exc(ExcKind::TypeError, "object does not support item assignment"))
    }

    /// Delete a subscript: `del a[key]`.
    pub fn del_item(&mut self, a: &Value, key: &Value) -> (r: Result<(), Value>)
        requires
            old(self).wf(),
        ensures
            final(self).wf(),
            del_item_post(*old(self), *final(self), *a, *key, r),
    {
        match a {
            Value::Ref(i) => {
                if *i < self.heap.len() {
                    let is_dict: bool = matches!(&self.heap[*i], Obj::Dict(_));
                    if is_dict {
                        let present: bool = match &self.heap[*i] {
                            Obj::Dict(d) => match dict_entries_get(d, key) {
                                Option::Some(_) => true,
                                Option::None => false,
                            },
                            _ => false,
                        };
                        if !present {
                            return Result::Err(self.new_exc(ExcKind::KeyError, "key not found"));
                        }
                        let ghost pre_heap = self.heap@;
                        let slot = &mut self.heap[*i];
                        match slot {
                            Obj::Dict(d) => {
                                proof {
                                    assert(obj_wf(pre_heap[*i as int], pre_heap.len()));
                                }
                                dict_entries_remove(d, key);
                            },
                            _ => {
                                proof {
                                    assert(false);
                                }
                            },
                        }
                        proof {
                            match pre_heap[*i as int] {
                                Obj::Dict(d0) => {
                                    lemma_dict_remove_wf(d0@, *key, self.hlen());
                                },
                                _ => {},
                            }
                            assert(obj_wf(self.heap@[*i as int], self.hlen()));
                            lemma_heap_wf_update(pre_heap, *i as int, self.heap@[*i as int]);
                        }
                        return Result::Ok(());
                    }
                }
            },
            _ => {},
        }
        Result::Err(self.new_exc(ExcKind::TypeError, "object does not support item deletion"))
    }

    /// Append to a list object in place.
    pub fn list_append(&mut self, lst: &Value, item: Value) -> (r: Result<(), Value>)
        requires
            old(self).wf(),
            val_wf(item, old(self).hlen()),
        ensures
            final(self).wf(),
            match *lst {
                Value::Ref(i) => if i < old(self).hlen() && (old(self).heap@[i as int]
                    matches Obj::List(_)) {
                    &&& r is Ok
                    &&& regs_logs_unchanged(*old(self), *final(self))
                    &&& heap_same_except(old(self).heap@, final(self).heap@, i as int)
                    &&& match (old(self).heap@[i as int], final(self).heap@[i as int]) {
                        (Obj::List(l), Obj::List(l2)) => l2@ == l@.push(item),
                        _ => false,
                    }
                } else {
                    r matches Result::Err(e) && fresh_exc(
                        *old(self),
                        *final(self),
                        e,
                        ExcKind::TypeError,
                    )
                },
                _ => r matches Result::Err(e) && fresh_exc(
                    *old(self),
                    *final(self),
                    e,
                    ExcKind::TypeError,
                ),
            },
    {
        match lst {
            Value::Ref(i) => {
                if *i < self.heap.len() {
                    let is_list: bool = matches!(&self.heap[*i], Obj::List(_));
                    if is_list {
                        let ghost pre_heap = self.heap@;
                        let slot = &mut self.heap[*i];
                        match slot {
                            Obj::List(l) => {
                                proof {
                                    assert(obj_wf(pre_heap[*i as int], pre_heap.len()));
                                }
                                l.push(item);
                            },
                            _ => {
                                proof {
                                    assert(false);
                                }
                            },
                        }
                        proof {
                            assert(obj_wf(self.heap@[*i as int], self.hlen()));
                            lemma_heap_wf_update(pre_heap, *i as int, self.heap@[*i as int]);
                        }
                        return Result::Ok(());
                    }
                }
            },
            _ => {},
        }
        Result::Err(self.new_exc(ExcKind::TypeError, "object is not a list"))
    }

    /// Add to a set object in place; keeps elements distinct.
    pub fn set_add(&mut self, st: &Value, item: Value) -> (r: Result<(), Value>)
        requires
            old(self).wf(),
            val_wf(item, old(self).hlen()),
        ensures
            final(self).wf(),
            match *st {
                Value::Ref(i) => if i < old(self).hlen() && (old(self).heap@[i as int]
                    matches Obj::SetObj(_)) {
                    &&& r is Ok
                    &&& regs_logs_unchanged(*old(self), *final(self))
                    &&& heap_same_except(old(self).heap@, final(self).heap@, i as int)
                    &&& match (old(self).heap@[i as int], final(self).heap@[i as int]) {
                        (Obj::SetObj(s), Obj::SetObj(s2)) => s2@ == (if seq_contains(s@, item) {
                            s@
                        } else {
                            s@.push(item)
                        }),
                        _ => false,
                    }
                } else {
                    r matches Result::Err(e) && fresh_exc(
                        *old(self),
                        *final(self),
                        e,
                        ExcKind::TypeError,
                    )
                },
                _ => r matches Result::Err(e) && fresh_exc(
                    *old(self),
                    *final(self),
                    e,
                    ExcKind::TypeError,
                ),
            },
    {
        match st {
            Value::Ref(i) => {
                if *i < self.heap.len() {
                    let is_set: bool = matches!(&self.heap[*i], Obj::SetObj(_));
                    if is_set {
                        let ghost pre_heap = self.heap@;
                        let slot = &mut self.heap[*i];
                        match slot {
                            Obj::SetObj(s) => {
                                proof {
                                    assert(obj_wf(pre_heap[*i as int], pre_heap.len()));
                                }
                                if !values_contain(s, &item) {
                                    let ghost s0 = s@;
                                    s.push(item);
                                    proof {
                                        assert forall|m: int, n: int|
                                            0 <= m < n < s@.len() implies !val_eq(
                                            s@[m],
                                            s@[n],
                                        ) by {
                                            if n == s@.len() - 1 {
                                                assert(!seq_contains(s0, s@[n]));
                                            }
                                        }
                                    }
                                }
                            },
                            _ => {
                                proof {
                                    assert(false);
                                }
                            },
                        }
                        proof {
                            assert(obj_wf(self.heap@[*i as int], self.hlen()));
                            lemma_heap_wf_update(pre_heap, *i as int, self.heap@[*i as int]);
                        }
                        return Result::Ok(());
                    }
                }
            },
            _ => {},
        }
        Result::Err(self.new_exc(ExcKind::TypeError, "object is not a set"))
    }
}


/// What an attribute write did.
pub open spec fn set_attr_post(
    pre: Vm,
    post: Vm,
    obj: Value,
    name: String,
    v: Value,
    r: Result<(), Value>,
) -> bool {
    match obj {
        Value::Ref(i) => if i < pre.heap@.len() {
            match pre.heap@[i as int] {
                Obj::Module { attrs } => {
                    &&& r is Ok
                    &&& regs_logs_unchanged(pre, post)
                    &&& heap_same_except(pre.heap@, post.heap@, i as int)
                    &&& match post.heap@[i as int] {
                        Obj::Module { attrs: a2 } => a2@ == assoc_set(attrs@, name, v),
                        _ => false,
                    }
                },
                Obj::Function(f) => {
                    &&& r is Ok
                    &&& regs_logs_unchanged(pre, post)
                    &&& heap_same_except(pre.heap@, post.heap@, i as int)
                    &&& match post.heap@[i as int] {
                        Obj::Function(f2) => f2.attrs@ == assoc_set(f.attrs@, name, v) && f2.code
                            == f.code && f2.defaults == f.defaults && f2.kw_only_defaults
                            == f.kw_only_defaults && f2.captured.locals@ == f.captured.locals@
                            && f2.captured.globals@ == f.captured.globals@ && f2.captured.cells@
                            == f.captured.cells@,
                        _ => false,
                    }
                },
                Obj::Exc(e) => if name@ == cause_attr() || name@ == context_attr() {
                    &&& r is Ok
                    &&& regs_logs_unchanged(pre, post)
                    &&& heap_same_except(pre.heap@, post.heap@, i as int)
                    &&& match post.heap@[i as int] {
                        Obj::Exc(e2) => e2.kind == e.kind && e2.msg == e.msg && e2.traceback
                            == e.traceback && (if name@ == cause_attr() {
                            e2.cause == v && e2.context == e.context
                        } else {
                            e2.context == v && e2.cause == e.cause
                        }),
                        _ => false,
                    }
                } else {
                    r matches Result::Err(err) && fresh_exc(pre, post, err, ExcKind::TypeError)
                },
                _ => r matches Result::Err(err) && fresh_exc(pre, post, err, ExcKind::TypeError),
            }
        } else {
            r matches Result::Err(err) && fresh_exc(pre, post, err, ExcKind::TypeError)
        },
        _ => r matches Result::Err(err) && fresh_exc(pre, post, err, ExcKind::TypeError),
    }
}

/// What a `__exit__` call did: the logged record and the recorded behavior.
pub open spec fn ctx_exit_post(
    pre: Vm,
    post: Vm,
    cm: Value,
    exc_type: Value,
    exc_val: Value,
    exc_tb: Value,
    r: Result<Value, Value>,
) -> bool {
    match cm {
        Value::Ref(i) => if i < pre.hlen() {
            match pre.heap@[i as int] {
                Obj::CtxManager(c) => {
                    &&& post.exit_log@ == pre.exit_log@.push(
                        ExitCall { cm: i as usize, exc_type, exc_val, exc_tb },
                    )
                    &&& post.enter_log@ == pre.enter_log@
                    &&& post.exc_registers@ == pre.exc_registers@
                    &&& post.modules@ == pre.modules@
                    &&& post.printed@ == pre.printed@
                    &&& heap_extended(pre.heap@, post.heap@)
                    &&& match c.exit_raises {
                        Option::Some(k) => r matches Result::Err(e) && is_exc_kind(
                            post.heap@,
                            e,
                            k,
                        ) && val_wf(e, post.hlen()),
                        Option::None => post.heap@ == pre.heap@ && r == Result::<
                            Value,
                            Value,
                        >::Ok(c.exit_value),
                    }
                },
                _ => r matches Result::Err(e) && fresh_exc(pre, post, e, ExcKind::TypeError),
            }
        } else {
            r matches Result::Err(e) && fresh_exc(pre, post, e, ExcKind::TypeError)
        },
        _ => r matches Result::Err(e) && fresh_exc(pre, post, e, ExcKind::TypeError),
    }
}

/// Arguments handed to a callable: positional values and keyword bindings in
/// insertion order.
pub struct FuncArgs {
    pub args: Vec<Value>,
    pub kwargs: Vec<(String, Value)>,
}

/// The rendering of a scalar value; compound objects have none in the model.
pub open spec fn spec_str_val(v: Value) -> Option<Seq<char>> {
    match v {
        Value::PyNone => Option::Some("None"@),
        Value::Bool(b) => Option::Some(if b {
            "True"@
        } else {
            "False"@
        }),
        Value::Int(i) => Option::Some(int_seq(i as int)),
        Value::Str(s) => Option::Some(s@),
        Value::Ref(_) => Option::None,
    }
}

/// The `repr` rendering: strings are quoted, everything else as `spec_str_val`.
pub open spec fn spec_repr_val(v: Value) -> Option<Seq<char>> {
    match v {
        Value::Str(s) => Option::Some("'"@ + s@ + "'"@),
        _ => spec_str_val(v),
    }
}

/// The scalar constants and what they materialize to.
pub open spec fn const_scalar(c: Constant) -> Option<Value> {
    match c {
        Constant::Integer { value } => Option::Some(Value::Int(value)),
        Constant::Boolean { value } => Option::Some(Value::Bool(value)),
        Constant::Str { value } => Option::Some(Value::Str(value)),
        Constant::NoneConst => Option::Some(Value::PyNone),
        _ => Option::None,
    }
}

impl Vm {
    /// Read an attribute.
    pub fn get_attribute(&mut self, obj: &Value, name: &String) -> (r: Result<Value, Value>)
        requires
            old(self).wf(),
        ensures
            final(self).wf(),
            match spec_getattr(old(self).heap@, *obj, name@) {
                Option::Some(v) => vm_unchanged(*old(self), *final(self)) && r == Result::<
                    Value,
                    Value,
                >::Ok(v),
                Option::None => r matches Result::Err(e) && fresh_exc(
                    *old(self),
                    *final(self),
                    e,
                    ExcKind::AttributeError,
                ),
            },
            r matches Result::Ok(v) ==> val_wf(v, final(self).hlen()),
    {
        match obj {
            Value::Ref(i) => {
                if *i < self.heap.len() {
                    proof {
                        assert(obj_wf(self.heap@[*i as int], self.hlen()));
                    }
                    match &self.heap[*i] {
                        Obj::Module { attrs } => {
                            proof {
                                lemma_assoc_get_wf(attrs@, name@, self.hlen());
                            }
                            match entries_get(attrs, name) {
                                Option::Some(v) => {
                                    return Result::Ok(v);
                                },
                                Option::None => {},
                            }
                        },
                        Obj::Function(f) => {
                            proof {
                                lemma_assoc_get_wf(f.attrs@, name@, self.hlen());
                            }
                            match entries_get(&f.attrs, name) {
                                Option::Some(v) => {
                                    return Result::Ok(v);
                                },
                                Option::None => {},
                            }
                        },
                        Obj::Exc(e) => {
                            if *name == String::from_str("__traceback__") {
                                return Result::Ok(e.traceback.clone());
                            }
                            if *name == String::from_str("__cause__") {
                                return Result::Ok(e.cause.clone());
                            }
                            if *name == String::from_str("__context__") {
                                return Result::Ok(e.context.clone());
                            }
                        },
                        _ => {},
                    }
                }
            },
            _ => {},
        }
        Result::Err(self.new_exc(ExcKind::AttributeError, "object has no such attribute"))
    }

    /// Write an attribute.
    pub fn set_attr(&mut self, obj: &Value, name: &String, v: Value) -> (r: Result<(), Value>)
        requires
            old(self).wf(),
            val_wf(v, old(self).hlen()),
        ensures
            final(self).wf(),
            set_attr_post(*old(self), *final(self), *obj, *name, v, r),
    {
        match obj {
            Value::Ref(i) => {
                if *i < self.heap.len() {
                    let kind: u8 = match &self.heap[*i] {
                        Obj::Module { .. } => 1,
                        Obj::Function(_) => 2,
                        Obj::Exc(_) => 3,
                        _ => 0,
                    };
                    if kind == 1 || kind == 2 {
                        let ghost pre_heap = self.heap@;
                        let slot = &mut self.heap[*i];
                        match slot {
                            Obj::Module { attrs } => {
                                proof {
                                    assert(obj_wf(pre_heap[*i as int], pre_heap.len()));
                                }
                                entries_set(attrs, name, v);
                            },
                            Obj::Function(f) => {
                                proof {
                                    assert(obj_wf(pre_heap[*i as int], pre_heap.len()));
                                }
                                entries_set(&mut f.attrs, name, v);
                            },
                            _ => {
                                proof {
                                    assert(false);
                                }
                            },
                        }
                        proof {
                            match pre_heap[*i as int] {
                                Obj::Module { attrs: a0 } => {
                                    lemma_assoc_set_wf(a0@, *name, v, self.hlen());
                                },
                                Obj::Function(f0) => {
                                    lemma_assoc_set_wf(f0.attrs@, *name, v, self.hlen());
                                },
                                _ => {},
                            }
                            assert(obj_wf(self.heap@[*i as int], self.hlen()));
                            lemma_heap_wf_update(pre_heap, *i as int, self.heap@[*i as int]);
                        }
                        return Result::Ok(());
                    }
                    if kind == 3 {
                        let is_cause: bool = *name == String::from_str("__cause__");
                        let is_context: bool = *name == String::from_str("__context__");
                        if is_cause || is_context {
                            let ghost pre_heap = self.heap@;
                            let slot = &mut self.heap[*i];
                            match slot {
                                Obj::Exc(e) => {
                                    if is_cause {
                                        e.cause = v;
                                    } else {
                                        e.context = v;
                                    }
                                },
                                _ => {
                                    proof {
                                        assert(false);
                                    }
                                },
                            }
                            proof {
                                assert(obj_wf(self.heap@[*i as int], self.hlen()));
                                lemma_heap_wf_update(pre_heap, *i as int, self.heap@[*i as int]);
                            }
                            return Result::Ok(());
                        }
                    }
                }
            },
            _ => {},
        }
        Result::Err(self.new_exc(ExcKind::TypeError, "cannot set attribute"))
    }

    /// Delete an attribute of a module or function.
    pub fn del_attr(&mut self, obj: &Value, name: &String) -> (r: Result<(), Value>)
        requires
            old(self).wf(),
        ensures
            final(self).wf(),
            match *obj {
                Value::Ref(i) => if i < old(self).hlen() {
                    match old(self).heap@[i as int] {
                        Obj::Module { attrs } => if assoc_get(attrs@, name@) is Some {
                            &&& r is Ok
                            &&& regs_logs_unchanged(*old(self), *final(self))
                            &&& heap_same_except(old(self).heap@, final(self).heap@, i as int)
                            &&& match final(self).heap@[i as int] {
                                Obj::Module { attrs: a2 } => a2@ == assoc_remove(attrs@, name@),
                                _ => false,
                            }
                        } else {
                            r matches Result::Err(e) && fresh_exc(
                                *old(self),
                                *final(self),
                                e,
                                ExcKind::AttributeError,
                            )
                        },
                        _ => r matches Result::Err(e) && fresh_exc(
                            *old(self),
                            *final(self),
                            e,
                            ExcKind::TypeError,
                        ),
                    }
                } else {
                    r matches Result::Err(e) && fresh_exc(
                        *old(self),
                        *final(self),
                        e,
                        ExcKind::TypeError,
                    )
                },
                _ => r matches Result::Err(e) && fresh_exc(
                    *old(self),
                    *final(self),
                    e,
                    ExcKind::TypeError,
                ),
            },
    {
        match obj {
            Value::Ref(i) => {
                if *i < self.heap.len() {
                    let is_module: bool = matches!(&self.heap[*i], Obj::Module { .. });
                    if is_module {
                        let present: bool = match &self.heap[*i] {
                            Obj::Module { attrs } => match entries_get(attrs, name) {
                                Option::Some(_) => true,
                                Option::None => false,
                            },
                            _ => false,
                        };
                        if !present {
                            return Result::Err(
                                self.new_exc(ExcKind::AttributeError, "object has no such attribute"),
                            );
                        }
                        let ghost pre_heap = self.heap@;
                        let slot = &mut self.heap[*i];
                        match slot {
                            Obj::Module { attrs } => {
                                proof {
                                    assert(obj_wf(pre_heap[*i as int], pre_heap.len()));
                                }
                                entries_remove(attrs, name);
                            },
                            _ => {
                                proof {
                                    assert(false);
                                }
                            },
                        }
                        proof {
                            match pre_heap[*i as int] {
                                Obj::Module { attrs: a0 } => {
                                    lemma_assoc_remove_wf(a0@, name@, self.hlen());
                                },
                                _ => {},
                            }
                            assert(obj_wf(self.heap@[*i as int], self.hlen()));
                            lemma_heap_wf_update(pre_heap, *i as int, self.heap@[*i as int]);
                        }
                        return Result::Ok(());
                    }
                }
            },
            _ => {},
        }
        Result::Err(self.new_exc(ExcKind::TypeError, "cannot delete attribute"))
    }

    /// Resolve a module by name from the module table; the from-list and the
    /// level are accepted for interface fidelity and do not narrow the lookup.
    pub fn import(&mut self, name: &String, _from_list: &Value, _level: usize) -> (r: Result<
        Value,
        Value,
    >)
        requires
            old(self).wf(),
        ensures
            final(self).wf(),
            match assoc_get(old(self).modules@, name@) {
                Option::Some(m) => vm_unchanged(*old(self), *final(self)) && r == Result::<
                    Value,
                    Value,
                >::Ok(m),
                Option::None => r matches Result::Err(e) && fresh_exc(
                    *old(self),
                    *final(self),
                    e,
                    ExcKind::ImportError,
                ),
            },
            r matches Result::Ok(v) ==> val_wf(v, final(self).hlen()),
    {
        proof {
            lemma_assoc_get_wf(self.modules@, name@, self.hlen());
        }
        let found = entries_get(&self.modules, name);
        match found {
            Option::Some(m) => Result::Ok(m),
            Option::None => Result::Err(self.new_exc(ExcKind::ImportError, "no such module")),
        }
    }

    /// Call a context manager's `__enter__`: logs the call and hands back the
    /// recorded enter value.
    pub fn ctx_enter(&mut self, cm: &Value) -> (r: Result<Value, Value>)
        requires
            old(self).wf(),
        ensures
            final(self).wf(),
            match *cm {
                Value::Ref(i) => if i < old(self).hlen() {
                    match old(self).heap@[i as int] {
                        Obj::CtxManager(c) => {
                            &&& r == Result::<Value, Value>::Ok(c.enter_value)
                            &&& final(self).heap@ == old(self).heap@
                            &&& final(self).enter_log@ == old(self).enter_log@.push(i as usize)
                            &&& final(self).exit_log@ == old(self).exit_log@
                            &&& final(self).exc_registers@ == old(self).exc_registers@
                            &&& final(self).modules@ == old(self).modules@
                            &&& final(self).printed@ == old(self).printed@
                        },
                        _ => r matches Result::Err(e) && fresh_exc(
                            *old(self),
                            *final(self),
                            e,
                            ExcKind::TypeError,
                        ),
                    }
                } else {
                    r matches Result::Err(e) && fresh_exc(
                        *old(self),
                        *final(self),
                        e,
                        ExcKind::TypeError,
                    )
                },
                _ => r matches Result::Err(e) && fresh_exc(
                    *old(self),
                    *final(self),
                    e,
                    ExcKind::TypeError,
                ),
            },
            r matches Result::Ok(v) ==> val_wf(v, final(self).hlen()),
    {
        match cm {
            Value::Ref(i) => {
                if *i < self.heap.len() {
                    proof {
                        assert(obj_wf(self.heap@[*i as int], self.hlen()));
                    }
                    let mut enter_value: Option<Value> = Option::None;
                    match &self.heap[*i] {
                        Obj::CtxManager(c) => {
                            enter_value = Option::Some(c.enter_value.clone());
                        },
                        _ => {},
                    }
                    match enter_value {
                        Option::Some(v) => {
                            self.enter_log.push(*i);
                            return Result::Ok(v);
                        },
                        Option::None => {},
                    }
                }
            },
            _ => {},
        }
        Result::Err(self.new_exc(ExcKind::TypeError, "object is not a context manager"))
    }

    /// Call a context manager's `__exit__` with the three arguments: logs the
    /// call, then returns the recorded exit value or raises the recorded
    /// exception.
    pub fn ctx_exit(&mut self, cm: &Value, exc_type: Value, exc_val: Value, exc_tb: Value) -> (r:
        Result<Value, Value>)
        requires
            old(self).wf(),
        ensures
            final(self).wf(),
            ctx_exit_post(*old(self), *final(self), *cm, exc_type, exc_val, exc_tb, r),
            r matches Result::Ok(v) ==> val_wf(v, final(self).hlen()),
    {
        match cm {
            Value::Ref(i) => {
                if *i < self.heap.len() {
                    proof {
                        assert(obj_wf(self.heap@[*i as int], self.hlen()));
                    }
                    let mut behavior: Option<(Value, Option<ExcKind>)> = Option::None;
                    match &self.heap[*i] {
                        Obj::CtxManager(c) => {
                            behavior = Option::Some((c.exit_value.clone(), c.exit_raises));
                        },
                        _ => {},
                    }
                    match behavior {
                        Option::Some((exit_value, exit_raises)) => {
                            self.exit_log.push(
                                ExitCall { cm: *i, exc_type, exc_val, exc_tb },
                            );
                            match exit_raises {
                                Option::Some(k) => {
                                    let err = self.new_exc(
                                        k,
                                        "error raised while exiting the manager",
                                    );
                                    return Result::Err(err);
                                },
                                Option::None => {
                                    return Result::Ok(exit_value);
                                },
                            }
                        },
                        Option::None => {},
                    }
                }
            },
            _ => {},
        }
        Result::Err(self.new_exc(ExcKind::TypeError, "object is not a context manager"))
    }

    /// Invoke a callable. The model executes host builtins; user function
    /// objects are driven by the external executor, so calling one here is a
    /// type error.
    pub fn invoke(&mut self, func: &Value, args: FuncArgs) -> (r: Result<Value, Value>)
        requires
            old(self).wf(),
        ensures
            final(self).wf(),
            match *func {
                Value::Ref(i) => if i < old(self).hlen() && old(self).heap@[i as int]
                    == Obj::Builtin(BuiltinKind::Print) && args.args@.len() == 1 && (args.args@[0]
                    matches Value::Str(_)) {
                    &&& match args.args@[0] {
                        Value::Str(s) => final(self).printed@ == old(self).printed@.push(s),
                        _ => false,
                    }
                    &&& final(self).heap@ == old(self).heap@
                    &&& final(self).exc_registers@ == old(self).exc_registers@
                    &&& final(self).modules@ == old(self).modules@
                    &&& final(self).enter_log@ == old(self).enter_log@
                    &&& final(self).exit_log@ == old(self).exit_log@
                    &&& r == Result::<Value, Value>::Ok(Value::PyNone)
                } else {
                    r matches Result::Err(e) && fresh_exc(
                        *old(self),
                        *final(self),
                        e,
                        ExcKind::TypeError,
                    )
                },
                _ => r matches Result::Err(e) && fresh_exc(
                    *old(self),
                    *final(self),
                    e,
                    ExcKind::TypeError,
                ),
            },
    {
        match func {
            Value::Ref(i) => {
                if *i < self.heap.len() {
                    let is_print: bool = matches!(
                        &self.heap[*i],
                        Obj::Builtin(BuiltinKind::Print)
                    );
                    if is_print && args.args.len() == 1 {
                        match &args.args[0] {
                            Value::Str(s) => {
                                self.printed.push(s.clone());
                                return Result::Ok(Value::PyNone);
                            },
                            _ => {},
                        }
                    }
                }
            },
            _ => {},
        }
        Result::Err(self.new_exc(ExcKind::TypeError, "object is not callable in this host"))
    }

    /// Render a value as a string.
    pub fn to_str(&mut self, v: &Value) -> (r: Result<String, Value>)
        requires
            old(self).wf(),
        ensures
            final(self).wf(),
            match spec_str_val(*v) {
                Option::Some(sq) => vm_unchanged(*old(self), *final(self)) && (r matches Result::Ok(
                    st,
                ) && st@ == sq),
                Option::None => r matches Result::Err(e) && fresh_exc(
                    *old(self),
                    *final(self),
                    e,
                    ExcKind::TypeError,
                ),
            },
    {
        match v {
            Value::PyNone => Result::Ok(String::from_str("None")),
            Value::Bool(b) => Result::Ok(
                if *b {
                    String::from_str("True")
                } else {
                    String::from_str("False")
                },
            ),
            Value::Int(i) => Result::Ok(int_to_string(*i)),
            Value::Str(s) => Result::Ok(s.clone()),
            Value::Ref(_) => Result::Err(
                self.new_exc(ExcKind::TypeError, "object has no rendering in this host"),
            ),
        }
    }

    /// Render a value as `repr` text: strings quoted, scalars as `to_str`.
    pub fn to_repr(&mut self, v: &Value) -> (r: Result<String, Value>)
        requires
            old(self).wf(),
        ensures
            final(self).wf(),
            match spec_repr_val(*v) {
                Option::Some(sq) => vm_unchanged(*old(self), *final(self)) && (r matches Result::Ok(
                    st,
                ) && st@ == sq),
                Option::None => r matches Result::Err(e) && fresh_exc(
                    *old(self),
                    *final(self),
                    e,
                    ExcKind::TypeError,
                ),
            },
    {
        match v {
            Value::Str(s) => {
                let quoted = String::from_str("'").concat(s.as_str()).concat("'");
                Result::Ok(quoted)
            },
            _ => self.to_str(v),
        }
    }

    /// Apply `__format__`: the model renders the value and accepts (without
    /// consulting) the format specification.
    pub fn format_value(&mut self, v: &Value, _spec: &String) -> (r: Result<Value, Value>)
        requires
            old(self).wf(),
        ensures
            final(self).wf(),
            match spec_str_val(*v) {
                Option::Some(sq) => vm_unchanged(*old(self), *final(self)) && (r matches Result::Ok(
                    Value::Str(st),
                ) && st@ == sq),
                Option::None => r matches Result::Err(e) && fresh_exc(
                    *old(self),
                    *final(self),
                    e,
                    ExcKind::TypeError,
                ),
            },
            r matches Result::Ok(v2) ==> val_wf(v2, final(self).hlen()),
    {
        match self.to_str(v) {
            Result::Ok(st) => Result::Ok(Value::Str(st)),
            Result::Err(e) => Result::Err(e),
        }
    }

    /// Materialize an encoded constant: scalars inline, tuples on the heap.
    #[verifier::loop_isolation(false)]
    pub fn unwrap_constant(&mut self, c: &Constant) -> (r: Value)
        requires
            old(self).wf(),
        ensures
            final(self).wf(),
            regs_logs_unchanged(*old(self), *final(self)),
            heap_extended(old(self).heap@, final(self).heap@),
            val_wf(r, final(self).hlen()),
            match const_scalar(*c) {
                Option::Some(v) => vm_unchanged(*old(self), *final(self)) && r == v,
                Option::None => true,
            },
            (*c matches Constant::Tuple { .. }) ==> (match r {
                Value::Ref(k) => k < final(self).hlen() && (final(self).heap@[k as int]
                    matches Obj::Tuple(_)),
                _ => false,
            }),
        decreases *c,
    {
        match c {
            Constant::Integer { value } => Value::Int(*value),
            Constant::Boolean { value } => Value::Bool(*value),
            Constant::Str { value } => Value::Str(value.clone()),
            Constant::NoneConst => Value::PyNone,
            Constant::Tuple { elements } => {
                let mut items: Vec<Value> = Vec::new();
                let mut i: usize = 0;
                while i < elements.len()
                    invariant
                        i <= elements.len(),
                        self.wf(),
                        regs_logs_unchanged(*old(self), *self),
                        heap_extended(old(self).heap@, self.heap@),
                        vals_wf(items@, self.hlen()),
                    decreases elements.len() - i,
                {
                    let ghost h0 = self.hlen();
                    proof {
                        assert(decreases_to!(*c => *elements));
                        assert(decreases_to!(*elements => elements@[i as int]));
                    }
                    let v = self.unwrap_constant(&elements[i]);
                    proof {
                        lemma_vals_wf_mono(items@, h0, self.hlen());
                    }
                    items.push(v);
                    i = i + 1;
                }
                proof {
                    lemma_vals_wf_mono(items@, self.hlen(), self.hlen() + 1);
                }
                self.alloc_obj(Obj::Tuple(items))
            },
        }
    }

    /// Build a function object capturing a scope.
    pub fn new_function(&mut self, data: FnData) -> (r: Value)
        requires
            old(self).wf(),
            obj_wf(Obj::Function(data), old(self).hlen() + 1),
        ensures
            final(self).wf(),
            regs_logs_unchanged(*old(self), *final(self)),
            final(self).heap@ == old(self).heap@.push(Obj::Function(data)),
            r == Value::Ref(old(self).hlen() as usize),
    {
        self.alloc_obj(Obj::Function(data))
    }

    /// Hand a rendered line to the host's display hook.
    pub fn display(&mut self, s: String)
        requires
            old(self).wf(),
        ensures
            final(self).wf(),
            final(self).printed@ == old(self).printed@.push(s),
            final(self).heap@ == old(self).heap@,
            final(self).exc_registers@ == old(self).exc_registers@,
            final(self).modules@ == old(self).modules@,
            final(self).enter_log@ == old(self).enter_log@,
            final(self).exit_log@ == old(self).exit_log@,
    {
        self.printed.push(s);
    }

    /// The exception kind of `v`, when it references an exception instance.
    pub fn exc_ref_kind(&self, v: &Value) -> (r: Option<ExcKind>)
        ensures
            r == (match *v {
                Value::Ref(i) => if i < self.hlen() {
                    match self.heap@[i as int] {
                        Obj::Exc(e) => Option::Some(e.kind),
                        _ => Option::<ExcKind>::None,
                    }
                } else {
                    Option::<ExcKind>::None
                },
                _ => Option::<ExcKind>::None,
            }),
    {
        match v {
            Value::Ref(i) => {
                if *i < self.heap.len() {
                    match &self.heap[*i] {
                        Obj::Exc(e) => Option::Some(e.kind),
                        _ => Option::None,
                    }
                } else {
                    Option::None
                }
            },
            _ => Option::None,
        }
    }

    /// The kind of `v`, when it references an exception class.
    pub fn exc_class_ref_kind(&self, v: &Value) -> (r: Option<ExcKind>)
        ensures
            r == (match *v {
                Value::Ref(i) => if i < self.hlen() {
                    match self.heap@[i as int] {
                        Obj::ExcClass(k) => Option::Some(k),
                        _ => Option::<ExcKind>::None,
                    }
                } else {
                    Option::<ExcKind>::None
                },
                _ => Option::<ExcKind>::None,
            }),
    {
        match v {
            Value::Ref(i) => {
                if *i < self.heap.len() {
                    match &self.heap[*i] {
                        Obj::ExcClass(k) => Option::Some(*k),
                        _ => Option::None,
                    }
                } else {
                    Option::None
                }
            },
            _ => Option::None,
        }
    }

    /// An exception instance of kind `k` with no message.
    pub fn new_empty_exception(&mut self, k: ExcKind) -> (r: Value)
        requires
            old(self).wf(),
        ensures
            final(self).wf(),
            fresh_exc_msg(*old(self), *final(self), r, k, Seq::<char>::empty()),
            val_wf(r, final(self).hlen()),
    {
        let r = self.new_exc(k, "");
        proof {
            reveal_strlit("");
            assert(""@ =~= Seq::<char>::empty());
        }
        r
    }

    /// A fresh exception-class object standing for kind `k`.
    pub fn new_exc_class(&mut self, k: ExcKind) -> (r: Value)
        requires
            old(self).wf(),
        ensures
            final(self).wf(),
            regs_logs_unchanged(*old(self), *final(self)),
            final(self).heap@ == old(self).heap@.push(Obj::ExcClass(k)),
            r == Value::Ref(old(self).hlen() as usize),
            old(self).hlen() + 1 <= usize::MAX,
    {
        self.alloc_obj(Obj::ExcClass(k))
    }
}

} // verus!
