use pyframe::bytecode::{
    BinaryOperator, CodeObject, ComparisonOperator, Constant, Instruction, Label, Location,
    NameScope,
};
use pyframe::frame::{ExecutionResult, FatalReason, Frame, FrameError};
use pyframe::scope::Scope;
use pyframe::value::{CmData, ExcKind, Obj, Value};
use pyframe::vm::Vm;

fn code(instructions: Vec<Instruction>, label_map: Vec<(Label, usize)>) -> CodeObject {
    let n = instructions.len();
    let mut locations = Vec::new();
    let mut row = 0;
    while row < n {
        locations.push(Location { row, column: 0 });
        row += 1;
    }
    CodeObject {
        instructions,
        label_map,
        locations,
        obj_name: String::from("test_obj"),
        source_path: String::from("test.py"),
    }
}

fn load_int(i: i64) -> Instruction {
    Instruction::LoadConst { value: Constant::Integer { value: i } }
}

fn load_str(s: &str) -> Instruction {
    Instruction::LoadConst { value: Constant::Str { value: String::from(s) } }
}

fn load_global(name: &str) -> Instruction {
    Instruction::LoadName { name: String::from(name), scope: NameScope::Global }
}

fn exc_kind(vm: &Vm, v: &Value) -> Option<ExcKind> {
    match v {
        Value::Ref(i) => match &vm.heap[*i] {
            Obj::Exc(e) => Some(e.kind),
            _ => None,
        },
        _ => None,
    }
}

#[test]
fn pure_arithmetic_returns_five() {
    let c = code(
        vec![
            load_int(2),
            load_int(3),
            Instruction::BinaryOperation { op: BinaryOperator::Add, inplace: false },
            Instruction::ReturnValue,
        ],
        vec![],
    );
    let mut vm = Vm::new();
    let mut f = Frame::new(c, Scope::new());
    assert_eq!(f.run(&mut vm), Ok(ExecutionResult::Return(Value::Int(5))));
    assert!(f.stack.is_empty());
}

#[test]
fn try_suppresses_attribute_error() {
    // SetupExcept(H); "x".nope raises; H: Pop; LoadConst 0; ReturnValue
    let c = code(
        vec![
            Instruction::SetupExcept { handler: Label(0) },
            load_str("x"),
            Instruction::LoadAttr { name: String::from("nope") },
            Instruction::ReturnValue,
            Instruction::Pop,
            load_int(0),
            Instruction::ReturnValue,
        ],
        vec![(Label(0), 4)],
    );
    let mut vm = Vm::new();
    let mut f = Frame::new(c, Scope::new());
    assert_eq!(f.run(&mut vm), Ok(ExecutionResult::Return(Value::Int(0))));
    // The exception register is empty again on return.
    assert!(vm.exc_registers.is_empty());
    assert!(f.blocks.is_empty());
}

#[test]
fn with_suppresses_exception_and_returns() {
    let mut vm = Vm::new();
    let cm = vm.alloc_obj(Obj::CtxManager(CmData {
        enter_value: Value::PyNone,
        exit_value: Value::Bool(true),
        exit_raises: None,
    }));
    let mut scope = Scope::new();
    scope.globals.push((String::from("cm"), cm.clone()));
    let c = code(
        vec![
            load_global("cm"),
            Instruction::SetupWith { end: Label(1) },
            Instruction::Pop,
            load_str("x"),
            Instruction::LoadAttr { name: String::from("nope") },
            load_int(42),
            Instruction::ReturnValue,
        ],
        vec![(Label(1), 5)],
    );
    let mut f = Frame::new(c, scope);
    assert_eq!(f.run(&mut vm), Ok(ExecutionResult::Return(Value::Int(42))));
    // __enter__ and __exit__ were each called exactly once.
    assert_eq!(vm.enter_log.len(), 1);
    assert_eq!(vm.exit_log.len(), 1);
    let call = &vm.exit_log[0];
    // __exit__ got (type(exc), exc, None).
    match &call.exc_type {
        Value::Ref(i) => match &vm.heap[*i] {
            Obj::ExcClass(k) => assert_eq!(*k, ExcKind::AttributeError),
            other => panic!("expected an exception class, got {:?}", other),
        },
        other => panic!("expected a heap reference, got {:?}", other),
    }
    assert_eq!(exc_kind(&vm, &call.exc_val), Some(ExcKind::AttributeError));
    assert_eq!(call.exc_tb, Value::PyNone);
}

#[test]
fn break_through_with_calls_exit_with_nones() {
    let mut vm = Vm::new();
    let cm = vm.alloc_obj(Obj::CtxManager(CmData {
        enter_value: Value::PyNone,
        exit_value: Value::Bool(false),
        exit_raises: None,
    }));
    let mut scope = Scope::new();
    scope.globals.push((String::from("cm"), cm));
    let c = code(
        vec![
            Instruction::SetupLoop { start: Label(0), end: Label(1) },
            load_global("cm"),
            Instruction::SetupWith { end: Label(2) },
            Instruction::Break,
            load_int(7),
            Instruction::ReturnValue,
        ],
        vec![(Label(0), 1), (Label(1), 4), (Label(2), 4)],
    );
    let mut f = Frame::new(c, scope);
    assert_eq!(f.run(&mut vm), Ok(ExecutionResult::Return(Value::Int(7))));
    assert_eq!(vm.enter_log.len(), 1);
    assert_eq!(vm.exit_log.len(), 1);
    let call = &vm.exit_log[0];
    assert_eq!(call.exc_type, Value::PyNone);
    assert_eq!(call.exc_val, Value::PyNone);
    assert_eq!(call.exc_tb, Value::PyNone);
}

#[test]
fn for_loop_accumulates_and_pops_iterator() {
    let mut vm = Vm::new();
    let lst = vm.alloc_obj(Obj::List(vec![Value::Int(10), Value::Int(20)]));
    let mut scope = Scope::new();
    scope.globals.push((String::from("lst"), lst));
    let c = code(
        vec![
            load_int(0),
            Instruction::StoreName { name: String::from("acc"), scope: NameScope::Global },
            load_global("lst"),
            Instruction::GetIter,
            Instruction::ForIter { target: Label(1) },
            load_global("acc"),
            Instruction::BinaryOperation { op: BinaryOperator::Add, inplace: false },
            Instruction::StoreName { name: String::from("acc"), scope: NameScope::Global },
            Instruction::Jump { target: Label(0) },
            load_global("acc"),
            Instruction::ReturnValue,
        ],
        vec![(Label(0), 4), (Label(1), 9)],
    );
    let mut f = Frame::new(c, scope);
    assert_eq!(f.run(&mut vm), Ok(ExecutionResult::Return(Value::Int(30))));
    // The iterator was popped exactly at exhaustion.
    assert!(f.stack.is_empty());
}

#[test]
fn generator_yields_then_returns() {
    let c = code(
        vec![
            load_int(1),
            Instruction::YieldValue,
            load_int(2),
            Instruction::YieldValue,
            Instruction::LoadConst { value: Constant::NoneConst },
            Instruction::ReturnValue,
        ],
        vec![],
    );
    let mut vm = Vm::new();
    let mut f = Frame::new(c, Scope::new());
    assert_eq!(f.run(&mut vm), Ok(ExecutionResult::Yield(Value::Int(1))));
    assert_eq!(f.run(&mut vm), Ok(ExecutionResult::Yield(Value::Int(2))));
    assert_eq!(f.run(&mut vm), Ok(ExecutionResult::Return(Value::PyNone)));
}

#[test]
fn bare_reraise_without_exception_is_runtime_error() {
    let c = code(vec![Instruction::Raise { argc: 0 }], vec![]);
    let mut vm = Vm::new();
    let mut f = Frame::new(c, Scope::new());
    match f.run(&mut vm) {
        Err(FrameError::Uncaught(e)) => {
            match &e {
                Value::Ref(i) => match &vm.heap[*i] {
                    Obj::Exc(d) => {
                        assert_eq!(d.kind, ExcKind::RuntimeError);
                        assert_eq!(d.msg.as_str(), "No active exception to reraise");
                    },
                    other => panic!("expected an exception object, got {:?}", other),
                },
                other => panic!("expected a heap reference, got {:?}", other),
            }
        },
        other => panic!("expected an uncaught error, got {:?}", other),
    }
}

#[test]
fn raising_a_class_instantiates_it() {
    let mut vm = Vm::new();
    let cls = vm.alloc_obj(Obj::ExcClass(ExcKind::ValueError));
    let mut scope = Scope::new();
    scope.globals.push((String::from("E"), cls));
    let c = code(vec![load_global("E"), Instruction::Raise { argc: 1 }], vec![]);
    let mut f = Frame::new(c, scope);
    match f.run(&mut vm) {
        Err(FrameError::Uncaught(e)) => {
            assert_eq!(exc_kind(&vm, &e), Some(ExcKind::ValueError));
        },
        other => panic!("expected an uncaught error, got {:?}", other),
    }
}

#[test]
fn unpack_sequence_exact_arity_pushes_reversed() {
    let mut vm = Vm::new();
    let lst = vm.alloc_obj(Obj::List(vec![Value::Int(10), Value::Int(20)]));
    let mut scope = Scope::new();
    scope.globals.push((String::from("lst"), lst));
    let c = code(
        vec![
            load_global("lst"),
            Instruction::UnpackSequence { size: 2 },
            Instruction::ReturnValue,
        ],
        vec![],
    );
    let mut f = Frame::new(c, scope);
    // The first element ends on top.
    assert_eq!(f.run(&mut vm), Ok(ExecutionResult::Return(Value::Int(10))));
}

#[test]
fn unpack_sequence_wrong_arity_is_value_error() {
    let mut vm = Vm::new();
    let lst = vm.alloc_obj(Obj::List(vec![Value::Int(10), Value::Int(20)]));
    let mut scope = Scope::new();
    scope.globals.push((String::from("lst"), lst));
    let c = code(
        vec![load_global("lst"), Instruction::UnpackSequence { size: 3 }],
        vec![],
    );
    let mut f = Frame::new(c, scope);
    match f.run(&mut vm) {
        Err(FrameError::Uncaught(e)) => assert_eq!(exc_kind(&vm, &e), Some(ExcKind::ValueError)),
        other => panic!("expected an uncaught error, got {:?}", other),
    }
}

#[test]
fn unpack_ex_packs_middle_into_list() {
    let mut vm = Vm::new();
    let lst = vm.alloc_obj(Obj::List(vec![
        Value::Int(1),
        Value::Int(2),
        Value::Int(3),
        Value::Int(4),
    ]));
    let mut scope = Scope::new();
    scope.globals.push((String::from("lst"), lst));
    // after = 1, before = 1: stack becomes [4, <list [2, 3]>, 1] (top is 1).
    let c = code(
        vec![
            load_global("lst"),
            Instruction::UnpackEx { before: 1, after: 1 },
            Instruction::Pop,
            Instruction::ReturnValue,
        ],
        vec![],
    );
    let mut f = Frame::new(c, scope);
    match f.run(&mut vm) {
        Ok(ExecutionResult::Return(Value::Ref(i))) => match &vm.heap[i] {
            Obj::List(l) => assert_eq!(l.as_slice(), &[Value::Int(2), Value::Int(3)]),
            other => panic!("expected the middle list, got {:?}", other),
        },
        other => panic!("expected a returned list reference, got {:?}", other),
    }
}

#[test]
fn cleanup_with_on_wrong_block_is_fatal() {
    let c = code(
        vec![
            Instruction::SetupLoop { start: Label(0), end: Label(1) },
            Instruction::CleanupWith { end: Label(1) },
        ],
        vec![(Label(0), 0), (Label(1), 1)],
    );
    let mut vm = Vm::new();
    let mut f = Frame::new(c, Scope::new());
    assert_eq!(f.run(&mut vm), Err(FrameError::Fatal(FatalReason::ExpectedWithBlock)));
}

#[test]
fn jump_reassigns_the_pointer() {
    let c = code(
        vec![
            Instruction::Jump { target: Label(0) },
            load_int(99),
            Instruction::ReturnValue,
            load_int(2),
            Instruction::ReturnValue,
        ],
        vec![(Label(0), 3)],
    );
    let mut vm = Vm::new();
    let mut f = Frame::new(c, Scope::new());
    assert_eq!(f.run(&mut vm), Ok(ExecutionResult::Return(Value::Int(2))));
}

#[test]
fn undefined_name_is_name_error() {
    let c = code(vec![load_global("missing")], vec![]);
    let mut vm = Vm::new();
    let mut f = Frame::new(c, Scope::new());
    match f.run(&mut vm) {
        Err(FrameError::Uncaught(e)) => assert_eq!(exc_kind(&vm, &e), Some(ExcKind::NameError)),
        other => panic!("expected an uncaught error, got {:?}", other),
    }
}

#[test]
fn adding_int_and_string_is_type_error() {
    let c = code(
        vec![
            load_int(1),
            load_str("x"),
            Instruction::BinaryOperation { op: BinaryOperator::Add, inplace: false },
        ],
        vec![],
    );
    let mut vm = Vm::new();
    let mut f = Frame::new(c, Scope::new());
    match f.run(&mut vm) {
        Err(FrameError::Uncaught(e)) => assert_eq!(exc_kind(&vm, &e), Some(ExcKind::TypeError)),
        other => panic!("expected an uncaught error, got {:?}", other),
    }
}

#[test]
fn floor_division_by_zero_is_zero_division_error() {
    let c = code(
        vec![
            load_int(1),
            load_int(0),
            Instruction::BinaryOperation { op: BinaryOperator::FloorDivide, inplace: false },
        ],
        vec![],
    );
    let mut vm = Vm::new();
    let mut f = Frame::new(c, Scope::new());
    match f.run(&mut vm) {
        Err(FrameError::Uncaught(e)) => {
            assert_eq!(exc_kind(&vm, &e), Some(ExcKind::ZeroDivisionError))
        },
        other => panic!("expected an uncaught error, got {:?}", other),
    }
}

#[test]
fn integer_overflow_is_overflow_error() {
    let c = code(
        vec![
            load_int(i64::MAX),
            load_int(1),
            Instruction::BinaryOperation { op: BinaryOperator::Add, inplace: false },
        ],
        vec![],
    );
    let mut vm = Vm::new();
    let mut f = Frame::new(c, Scope::new());
    match f.run(&mut vm) {
        Err(FrameError::Uncaught(e)) => {
            assert_eq!(exc_kind(&vm, &e), Some(ExcKind::OverflowError))
        },
        other => panic!("expected an uncaught error, got {:?}", other),
    }
}

#[test]
fn subscript_out_of_range_is_index_error() {
    let mut vm = Vm::new();
    let lst = vm.alloc_obj(Obj::List(vec![Value::Int(1)]));
    let mut scope = Scope::new();
    scope.globals.push((String::from("lst"), lst));
    let c = code(
        vec![
            load_global("lst"),
            load_int(5),
            Instruction::BinaryOperation { op: BinaryOperator::Subscript, inplace: false },
        ],
        vec![],
    );
    let mut f = Frame::new(c, scope);
    match f.run(&mut vm) {
        Err(FrameError::Uncaught(e)) => assert_eq!(exc_kind(&vm, &e), Some(ExcKind::IndexError)),
        other => panic!("expected an uncaught error, got {:?}", other),
    }
}

#[test]
fn import_of_unknown_module_is_import_error() {
    let c = code(
        vec![Instruction::Import {
            name: Some(String::from("nowhere")),
            symbols: vec![],
            level: 0,
        }],
        vec![],
    );
    let mut vm = Vm::new();
    let mut f = Frame::new(c, Scope::new());
    match f.run(&mut vm) {
        Err(FrameError::Uncaught(e)) => assert_eq!(exc_kind(&vm, &e), Some(ExcKind::ImportError)),
        other => panic!("expected an uncaught error, got {:?}", other),
    }
}

#[test]
fn comparisons_and_conditional_jump() {
    // 2 < 3 drives JumpIfTrue to return 1.
    let c = code(
        vec![
            load_int(2),
            load_int(3),
            Instruction::CompareOperation { op: ComparisonOperator::Less },
            Instruction::JumpIfTrue { target: Label(0) },
            load_int(0),
            Instruction::ReturnValue,
            load_int(1),
            Instruction::ReturnValue,
        ],
        vec![(Label(0), 6)],
    );
    let mut vm = Vm::new();
    let mut f = Frame::new(c, Scope::new());
    assert_eq!(f.run(&mut vm), Ok(ExecutionResult::Return(Value::Int(1))));
}

#[test]
fn throw_into_handler_resumes_at_handler() {
    // A frame suspended inside try: throw delivers to the handler.
    let c = code(
        vec![
            Instruction::SetupExcept { handler: Label(0) },
            load_int(1),
            Instruction::YieldValue,
            load_int(0),
            Instruction::ReturnValue,
            Instruction::Pop,
            load_int(9),
            Instruction::ReturnValue,
        ],
        vec![(Label(0), 5)],
    );
    let mut vm = Vm::new();
    let mut f = Frame::new(c, Scope::new());
    assert_eq!(f.run(&mut vm), Ok(ExecutionResult::Yield(Value::Int(1))));
    let exc = vm.new_exc(ExcKind::ValueError, "boom");
    assert_eq!(f.throw(&mut vm, exc), Ok(ExecutionResult::Return(Value::Int(9))));
    assert!(vm.exc_registers.is_empty());
}

#[test]
fn decimal_rendering_is_exact() {
    assert_eq!(pyframe::value::int_to_string(0).as_str(), "0");
    assert_eq!(pyframe::value::int_to_string(30).as_str(), "30");
    assert_eq!(pyframe::value::int_to_string(-42).as_str(), "-42");
    assert_eq!(pyframe::value::int_to_string(i64::MIN).as_str(), "-9223372036854775808");
}

#[test]
fn print_expr_records_repr() {
    let c = code(
        vec![
            load_str("hi"),
            Instruction::PrintExpr,
            Instruction::LoadConst { value: Constant::NoneConst },
            Instruction::ReturnValue,
        ],
        vec![],
    );
    let mut vm = Vm::new();
    let mut f = Frame::new(c, Scope::new());
    assert_eq!(f.run(&mut vm), Ok(ExecutionResult::Return(Value::PyNone)));
    assert_eq!(vm.printed.len(), 1);
    assert_eq!(vm.printed[0].as_str(), "'hi'");
}

#[test]
fn build_map_keeps_last_binding_per_key() {
    let c = code(
        vec![
            load_str("k"),
            load_int(1),
            load_str("k"),
            load_int(2),
            Instruction::BuildMap { size: 2, unpack: false },
            Instruction::ReturnValue,
        ],
        vec![],
    );
    let mut vm = Vm::new();
    let mut f = Frame::new(c, Scope::new());
    match f.run(&mut vm) {
        Ok(ExecutionResult::Return(Value::Ref(i))) => match &vm.heap[i] {
            Obj::Dict(d) => {
                assert_eq!(d.len(), 1);
                assert_eq!(d[0].1, Value::Int(2));
            },
            other => panic!("expected a dictionary, got {:?}", other),
        },
        other => panic!("expected a returned dictionary, got {:?}", other),
    }
}

#[test]
fn traceback_records_failing_instruction_row() {
    // The raise sits at instruction index 1, whose recorded row is 1.
    let c = code(
        vec![Instruction::Pass, Instruction::Raise { argc: 0 }],
        vec![],
    );
    let mut vm = Vm::new();
    let mut f = Frame::new(c, Scope::new());
    match f.run(&mut vm) {
        Err(FrameError::Uncaught(Value::Ref(ei))) => match &vm.heap[ei] {
            Obj::Exc(d) => match &d.traceback {
                Value::Ref(ti) => match &vm.heap[*ti] {
                    Obj::List(l) => {
                        assert_eq!(l.len(), 1);
                        match &l[0] {
                            Value::Ref(tp) => match &vm.heap[*tp] {
                                Obj::Tuple(t) => {
                                    assert_eq!(t.len(), 3);
                                    assert_eq!(t[0], Value::Str(String::from("test.py")));
                                    assert_eq!(t[1], Value::Int(1));
                                    assert_eq!(t[2], Value::Str(String::from("test_obj")));
                                },
                                other => panic!("expected a record tuple, got {:?}", other),
                            },
                            other => panic!("expected a tuple reference, got {:?}", other),
                        }
                    },
                    other => panic!("expected a traceback list, got {:?}", other),
                },
                other => panic!("expected a list reference, got {:?}", other),
            },
            other => panic!("expected an exception, got {:?}", other),
        },
        other => panic!("expected an uncaught error, got {:?}", other),
    }
}

#[test]
fn debug_rendering_lists_stack_blocks_and_locals() {
    let mut scope = Scope::new();
    scope.locals.push((String::from("x"), Value::Str(String::from("hi"))));
    let f = Frame {
        code: code(vec![], vec![]),
        stack: vec![Value::Int(7), Value::Ref(3)],
        blocks: vec![pyframe::frame::Block {
            typ: pyframe::frame::BlockType::Loop { start: Label(0), end: Label(1) },
            level: 2,
        }],
        scope,
        lasti: 0,
    };
    assert_eq!(
        f.debug_string().as_str(),
        "stack:\n  > 7\n  > <object 3>\nblocks:\n  > Loop at level 2\nlocals:\n  x = 'hi'\n"
    );
}
