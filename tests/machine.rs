use monkey_vm::builtins::lookup;
use monkey_vm::code::{make, Opcode};
use monkey_vm::env::Environment;
use monkey_vm::heap::CompiledFunction;
use monkey_vm::object::{HashKey, Object, RuntimeError};
use monkey_vm::vm::{Constant, Vm, INT_CACHE_SIZE};

fn program(parts: Vec<Vec<u8>>) -> Vec<u8> {
    let mut out = Vec::new();
    for p in parts {
        out.extend(p);
    }
    out
}

fn op(o: Opcode, operands: Vec<usize>) -> Vec<u8> {
    make(o, &operands)
}

fn run(instructions: Vec<u8>, constants: Vec<Constant>) -> (Vm, Result<(), RuntimeError>) {
    let mut vm = Vm::new(instructions, &constants);
    let r = vm.run();
    (vm, r)
}

fn binary(a: i64, b: i64, o: Opcode) -> (Vm, Result<(), RuntimeError>) {
    let ins = program(vec![
        op(Opcode::Constant, vec![0]),
        op(Opcode::Constant, vec![1]),
        op(o, vec![]),
        op(Opcode::Pop, vec![]),
    ]);
    run(ins, vec![Constant::Integer(a), Constant::Integer(b)])
}

#[test]
fn frames_empty_after_run() {
    let (vm, r) = binary(4, 5, Opcode::Add);
    assert_eq!(r, Ok(()));
    assert!(vm.frames.is_empty());
    assert!(vm.sp < vm.stack.len());
    assert_eq!(vm.last_popped_stack_element(), Object::Integer(9));
}

#[test]
fn empty_program_leaves_null() {
    let (vm, r) = run(vec![], vec![]);
    assert_eq!(r, Ok(()));
    assert!(vm.frames.is_empty());
    assert!(vm.sp < vm.stack.len());
    assert_eq!(vm.last_popped_stack_element(), Object::Null);
}

#[test]
fn statement_result_is_null_value() {
    let ins = program(vec![op(Opcode::Null, vec![]), op(Opcode::Pop, vec![])]);
    let (vm, r) = run(ins, vec![]);
    assert_eq!(r, Ok(()));
    assert_eq!(vm.last_popped_stack_element(), Object::Null);
}

#[test]
fn runs_are_deterministic() {
    let make_ins = || {
        program(vec![
            op(Opcode::Constant, vec![0]),
            op(Opcode::Constant, vec![1]),
            op(Opcode::Mul, vec![]),
            op(Opcode::Constant, vec![2]),
            op(Opcode::Add, vec![]),
            op(Opcode::Pop, vec![]),
        ])
    };
    let consts = || vec![Constant::Integer(6), Constant::Integer(7), Constant::String(b"x".to_vec())];
    let (a, ra) = run(make_ins(), consts());
    let (b, rb) = run(make_ins(), consts());
    assert_eq!(ra, rb);
    let ta = a.last_popped_stack_element();
    let tb = b.last_popped_stack_element();
    assert_eq!(ta, tb);
    match (ta, tb) {
        (Object::String(x), Object::String(y)) => assert_eq!(a.strings[x], b.strings[y]),
        _ => panic!("expected strings"),
    }
}

fn hash_literal_index(order: [usize; 6], key: usize) -> Object {
    // constants: "a", 1, "b", 2, "c", 3, then the key looked up
    let mut parts: Vec<Vec<u8>> = order.iter().map(|i| op(Opcode::Constant, vec![*i])).collect();
    parts.push(op(Opcode::Hash, vec![3]));
    parts.push(op(Opcode::Constant, vec![key]));
    parts.push(op(Opcode::Index, vec![]));
    parts.push(op(Opcode::Pop, vec![]));
    let consts = vec![
        Constant::String(b"a".to_vec()),
        Constant::Integer(1),
        Constant::String(b"b".to_vec()),
        Constant::Integer(2),
        Constant::Integer(30),
        Constant::Integer(3),
        Constant::String(b"b".to_vec()),
        Constant::Integer(30),
    ];
    let (vm, r) = run(program(parts), consts);
    assert_eq!(r, Ok(()));
    vm.last_popped_stack_element()
}

#[test]
fn hash_insertion_order_irrelevant() {
    let first = [0, 1, 2, 3, 4, 5];
    let second = [4, 5, 0, 1, 2, 3];
    for key in [6, 7] {
        assert_eq!(hash_literal_index(first, key), hash_literal_index(second, key));
    }
    assert_eq!(hash_literal_index(first, 6), Object::Integer(2));
    assert_eq!(hash_literal_index(second, 7), Object::Integer(3));
}

#[test]
fn hash_duplicate_key_last_wins() {
    let ins = program(vec![
        op(Opcode::Constant, vec![0]),
        op(Opcode::Constant, vec![1]),
        op(Opcode::Constant, vec![0]),
        op(Opcode::Constant, vec![2]),
        op(Opcode::Hash, vec![2]),
        op(Opcode::Constant, vec![0]),
        op(Opcode::Index, vec![]),
        op(Opcode::Pop, vec![]),
    ]);
    let consts = vec![Constant::Integer(5), Constant::Integer(10), Constant::Integer(20)];
    let (vm, r) = run(ins, consts);
    assert_eq!(r, Ok(()));
    assert_eq!(vm.last_popped_stack_element(), Object::Integer(20));
    assert_eq!(vm.sp, 0);
}

#[test]
fn hash_key_must_be_primitive() {
    let ins = program(vec![
        op(Opcode::Array, vec![0]),
        op(Opcode::Constant, vec![0]),
        op(Opcode::Hash, vec![1]),
        op(Opcode::Pop, vec![]),
    ]);
    let (_, r) = run(ins, vec![Constant::Integer(1)]);
    assert_eq!(r, Err(RuntimeError::UnsupportedHashKey(Object::Array(0))));
}

#[test]
fn small_integer_cache() {
    let (vm, r) = binary(100, 155, Opcode::Add);
    assert_eq!(r, Ok(()));
    assert_eq!(vm.last_popped_stack_element(), vm.int_cache[255]);
    assert_eq!(vm.int_cache.len(), INT_CACHE_SIZE);
    for n in 0..INT_CACHE_SIZE {
        assert_eq!(vm.int_cache[n], Object::Integer(n as i64));
        assert_eq!(vm.integer_object(n as i64), vm.int_cache[n]);
    }
}

#[test]
fn wrapping_arithmetic() {
    let (vm, r) = binary(i64::MAX, 1, Opcode::Add);
    assert_eq!(r, Ok(()));
    assert_eq!(vm.last_popped_stack_element(), Object::Integer(i64::MIN));
    let (vm, r) = binary(i64::MIN, -1, Opcode::Div);
    assert_eq!(r, Ok(()));
    assert_eq!(vm.last_popped_stack_element(), Object::Integer(i64::MIN));
    let (vm, _) = binary(-7, 2, Opcode::Div);
    assert_eq!(vm.last_popped_stack_element(), Object::Integer(-3));
    let (vm, _) = binary(7, 12, Opcode::Sub);
    assert_eq!(vm.last_popped_stack_element(), Object::Integer(-5));
}

#[test]
fn comparisons() {
    let (vm, _) = binary(1, 2, Opcode::LessThan);
    assert_eq!(vm.last_popped_stack_element(), Object::Boolean(true));
    let (vm, _) = binary(2, 2, Opcode::GreaterEq);
    assert_eq!(vm.last_popped_stack_element(), Object::Boolean(true));
    let (vm, _) = binary(2, 3, Opcode::GreaterThan);
    assert_eq!(vm.last_popped_stack_element(), Object::Boolean(false));
    let (vm, _) = binary(3, 3, Opcode::NotEqual);
    assert_eq!(vm.last_popped_stack_element(), Object::Boolean(false));
}

#[test]
fn string_equality_by_content() {
    let ins = program(vec![
        op(Opcode::Constant, vec![0]),
        op(Opcode::Constant, vec![1]),
        op(Opcode::Add, vec![]),
        op(Opcode::Constant, vec![2]),
        op(Opcode::Equal, vec![]),
        op(Opcode::Pop, vec![]),
    ]);
    let consts = vec![
        Constant::String(b"ab".to_vec()),
        Constant::String(b"c".to_vec()),
        Constant::String(b"abc".to_vec()),
    ];
    let (vm, r) = run(ins, consts);
    assert_eq!(r, Ok(()));
    assert_eq!(vm.last_popped_stack_element(), Object::Boolean(true));
}

#[test]
fn ordering_booleans_unsupported() {
    let ins = program(vec![
        op(Opcode::True, vec![]),
        op(Opcode::False, vec![]),
        op(Opcode::GreaterThan, vec![]),
    ]);
    let (_, r) = run(ins, vec![]);
    assert_eq!(
        r,
        Err(RuntimeError::UnsupportedBinOperation(Opcode::GreaterThan, Object::Boolean(true), Object::Boolean(false)))
    );
}

#[test]
fn not_and_minus() {
    let ins = program(vec![op(Opcode::Null, vec![]), op(Opcode::Not, vec![]), op(Opcode::Pop, vec![])]);
    let (vm, _) = run(ins, vec![]);
    assert_eq!(vm.last_popped_stack_element(), Object::Boolean(true));
    let ins = program(vec![op(Opcode::True, vec![]), op(Opcode::Not, vec![]), op(Opcode::Pop, vec![])]);
    let (vm, _) = run(ins, vec![]);
    assert_eq!(vm.last_popped_stack_element(), Object::Boolean(false));
    let ins = program(vec![op(Opcode::Constant, vec![0]), op(Opcode::Minus, vec![]), op(Opcode::Pop, vec![])]);
    let (vm, _) = run(ins, vec![Constant::Integer(5)]);
    assert_eq!(vm.last_popped_stack_element(), Object::Integer(-5));
    let ins = program(vec![op(Opcode::True, vec![]), op(Opcode::Minus, vec![])]);
    let (_, r) = run(ins, vec![]);
    assert_eq!(r, Err(RuntimeError::UnsupportedUnOperation(Opcode::Minus, Object::Boolean(true))));
}

#[test]
fn conditional_jump() {
    // if (false) { 10 } else { 20 }
    let ins = program(vec![
        op(Opcode::False, vec![]),        // 0
        op(Opcode::JumpIfNotTruthy, vec![10]), // 1
        op(Opcode::Constant, vec![0]),    // 4
        op(Opcode::Jump, vec![13]),       // 7
        op(Opcode::Constant, vec![1]),    // 10
        op(Opcode::Pop, vec![]),          // 13
    ]);
    let (vm, r) = run(ins, vec![Constant::Integer(10), Constant::Integer(20)]);
    assert_eq!(r, Ok(()));
    assert_eq!(vm.last_popped_stack_element(), Object::Integer(20));
}

#[test]
fn zero_is_truthy_in_jumps() {
    let ins = program(vec![
        op(Opcode::Constant, vec![0]),
        op(Opcode::JumpIfNotTruthy, vec![12]),
        op(Opcode::Constant, vec![1]),
        op(Opcode::Jump, vec![15]),
        op(Opcode::Constant, vec![2]),
        op(Opcode::Pop, vec![]),
    ]);
    let (vm, _) = run(ins, vec![Constant::Integer(0), Constant::Integer(10), Constant::Integer(20)]);
    assert_eq!(vm.last_popped_stack_element(), Object::Integer(10));
}

#[test]
fn index_out_of_range_is_null() {
    let ins = program(vec![
        op(Opcode::Constant, vec![0]),
        op(Opcode::Array, vec![1]),
        op(Opcode::Constant, vec![1]),
        op(Opcode::Index, vec![]),
        op(Opcode::Pop, vec![]),
    ]);
    let (vm, r) = run(ins, vec![Constant::Integer(7), Constant::Integer(5)]);
    assert_eq!(r, Ok(()));
    assert_eq!(vm.last_popped_stack_element(), Object::Null);
}

#[test]
fn index_unsupported() {
    let ins = program(vec![op(Opcode::Constant, vec![0]), op(Opcode::Constant, vec![0]), op(Opcode::Index, vec![])]);
    let (_, r) = run(ins, vec![Constant::Integer(1)]);
    assert_eq!(r, Err(RuntimeError::UnsupportedIndexOperation(Object::Integer(1), Object::Integer(1))));
}

#[test]
fn array_assignment_out_of_range() {
    let ins = program(vec![
        op(Opcode::Array, vec![0]),
        op(Opcode::SetGlobal, vec![0]),
        op(Opcode::Constant, vec![0]),
        op(Opcode::Constant, vec![0]),
        op(Opcode::Assign, vec![0, 0]),
    ]);
    let (_, r) = run(ins, vec![Constant::Integer(3)]);
    assert_eq!(r, Err(RuntimeError::UnsupportedIndexOperation(Object::Array(0), Object::Integer(3))));
}

#[test]
fn hash_assignment_and_alias() {
    // let h = {}; let g = h; g[1] = 2; h[1]
    let ins = program(vec![
        op(Opcode::Hash, vec![0]),
        op(Opcode::SetGlobal, vec![0]),
        op(Opcode::GetGlobal, vec![0]),
        op(Opcode::SetGlobal, vec![1]),
        op(Opcode::Constant, vec![0]),
        op(Opcode::Constant, vec![1]),
        op(Opcode::Assign, vec![1, 0]),
        op(Opcode::GetGlobal, vec![0]),
        op(Opcode::Constant, vec![0]),
        op(Opcode::Index, vec![]),
        op(Opcode::Pop, vec![]),
    ]);
    let (vm, r) = run(ins, vec![Constant::Integer(1), Constant::Integer(2)]);
    assert_eq!(r, Ok(()));
    assert_eq!(vm.last_popped_stack_element(), Object::Integer(2));
}

#[test]
fn rebinding_a_global() {
    let ins = program(vec![
        op(Opcode::Constant, vec![0]),
        op(Opcode::Assign, vec![2, 0]),
        op(Opcode::Constant, vec![1]),
        op(Opcode::Assign, vec![2, 0]),
        op(Opcode::GetGlobal, vec![2]),
        op(Opcode::Pop, vec![]),
    ]);
    let (vm, r) = run(ins, vec![Constant::Integer(1), Constant::Integer(2)]);
    assert_eq!(r, Ok(()));
    assert_eq!(vm.last_popped_stack_element(), Object::Integer(2));
    assert_eq!(vm.globals, vec![Object::Null, Object::Null, Object::Integer(2)]);
}

#[test]
fn calling_non_function() {
    let ins = program(vec![op(Opcode::Constant, vec![0]), op(Opcode::Call, vec![0])]);
    let (_, r) = run(ins, vec![Constant::Integer(1)]);
    assert_eq!(r, Err(RuntimeError::CallingNonFunction));
}

#[test]
fn return_without_value_gives_null() {
    let f = Constant::Function(CompiledFunction {
        instructions: op(Opcode::Return, vec![]),
        num_locals: 0,
        num_parameters: 0,
    });
    let ins = program(vec![op(Opcode::Closure, vec![0, 0]), op(Opcode::Call, vec![0]), op(Opcode::Pop, vec![])]);
    let (vm, r) = run(ins, vec![f]);
    assert_eq!(r, Ok(()));
    assert_eq!(vm.last_popped_stack_element(), Object::Null);
    assert_eq!(vm.sp, 0);
}

#[test]
fn local_bindings() {
    // fn() { let x = 5; x * 2 }()
    let f = Constant::Function(CompiledFunction {
        instructions: program(vec![
            op(Opcode::Constant, vec![0]),
            op(Opcode::SetLocal, vec![0]),
            op(Opcode::GetLocal, vec![0]),
            op(Opcode::Constant, vec![1]),
            op(Opcode::Mul, vec![]),
            op(Opcode::ReturnValue, vec![]),
        ]),
        num_locals: 1,
        num_parameters: 0,
    });
    let ins = program(vec![op(Opcode::Closure, vec![2, 0]), op(Opcode::Call, vec![0]), op(Opcode::Pop, vec![])]);
    let (vm, r) = run(ins, vec![Constant::Integer(5), Constant::Integer(2), f]);
    assert_eq!(r, Ok(()));
    assert_eq!(vm.last_popped_stack_element(), Object::Integer(10));
}

#[test]
fn unbounded_recursion_overflows() {
    // let f = fn() { f() }; f()
    let f = Constant::Function(CompiledFunction {
        instructions: program(vec![
            op(Opcode::GetGlobal, vec![0]),
            op(Opcode::Call, vec![0]),
            op(Opcode::ReturnValue, vec![]),
        ]),
        num_locals: 0,
        num_parameters: 0,
    });
    let ins = program(vec![
        op(Opcode::Closure, vec![0, 0]),
        op(Opcode::SetGlobal, vec![0]),
        op(Opcode::GetGlobal, vec![0]),
        op(Opcode::Call, vec![0]),
    ]);
    let (_, r) = run(ins, vec![f]);
    assert_eq!(r, Err(RuntimeError::FrameOverflow));
}

#[test]
fn stack_overflow() {
    let mut parts = Vec::new();
    for _ in 0..2049 {
        parts.push(op(Opcode::True, vec![]));
    }
    let (_, r) = run(program(parts), vec![]);
    assert_eq!(r, Err(RuntimeError::StackOverflow));
}

#[test]
fn pop_on_empty_stack_underflows() {
    let (_, r) = run(op(Opcode::Pop, vec![]), vec![]);
    assert_eq!(r, Err(RuntimeError::StackUnderflow));
}

#[test]
fn invalid_opcode() {
    let (_, r) = run(vec![99], vec![]);
    assert_eq!(r, Err(RuntimeError::InvalidInstruction(0)));
}

#[test]
fn builtins_len_push_first_last_rest() {
    // len("hello"), then push([1], 2) and its first, last, rest
    let ins = program(vec![
        op(Opcode::GetBuiltin, vec![0]),
        op(Opcode::Constant, vec![0]),
        op(Opcode::Call, vec![1]),
        op(Opcode::Pop, vec![]),
    ]);
    let (vm, r) = run(ins, vec![Constant::String(b"hello".to_vec())]);
    assert_eq!(r, Ok(()));
    assert_eq!(vm.last_popped_stack_element(), Object::Integer(5));

    let ins = program(vec![
        op(Opcode::GetBuiltin, vec![4]),
        op(Opcode::Constant, vec![0]),
        op(Opcode::Array, vec![1]),
        op(Opcode::Constant, vec![1]),
        op(Opcode::Call, vec![2]),
        op(Opcode::SetGlobal, vec![0]),
        op(Opcode::GetBuiltin, vec![2]),
        op(Opcode::GetGlobal, vec![0]),
        op(Opcode::Call, vec![1]),
        op(Opcode::Pop, vec![]),
    ]);
    let (vm, r) = run(ins, vec![Constant::Integer(1), Constant::Integer(2)]);
    assert_eq!(r, Ok(()));
    assert_eq!(vm.last_popped_stack_element(), Object::Integer(2));
    assert_eq!(vm.arrays[0], vec![Object::Integer(1)]);
    assert_eq!(vm.arrays[1], vec![Object::Integer(1), Object::Integer(2)]);

    let ins = program(vec![
        op(Opcode::GetBuiltin, vec![3]),
        op(Opcode::Constant, vec![0]),
        op(Opcode::Constant, vec![1]),
        op(Opcode::Array, vec![2]),
        op(Opcode::Call, vec![1]),
        op(Opcode::Pop, vec![]),
        op(Opcode::GetBuiltin, vec![1]),
        op(Opcode::Array, vec![0]),
        op(Opcode::Call, vec![1]),
        op(Opcode::Pop, vec![]),
    ]);
    let (vm, r) = run(ins, vec![Constant::Integer(1), Constant::Integer(2)]);
    assert_eq!(r, Ok(()));
    assert_eq!(vm.arrays[1], vec![Object::Integer(2)]);
    assert_eq!(vm.last_popped_stack_element(), Object::Null);
}

#[test]
fn builtin_wrong_arguments() {
    let ins = program(vec![op(Opcode::GetBuiltin, vec![0]), op(Opcode::Call, vec![0])]);
    let (_, r) = run(ins, vec![]);
    assert_eq!(r, Err(RuntimeError::WrongArgumentCount(1, 0)));
    let ins = program(vec![op(Opcode::GetBuiltin, vec![0]), op(Opcode::True, vec![]), op(Opcode::Call, vec![1])]);
    let (_, r) = run(ins, vec![]);
    assert!(matches!(r, Err(RuntimeError::CustomErrMsg(_))));
    let ins = op(Opcode::GetBuiltin, vec![9]);
    let (_, r) = run(ins, vec![]);
    assert_eq!(r, Err(RuntimeError::UnknownBuiltin(9)));
}

#[test]
fn builtin_registry_lookup() {
    assert_eq!(lookup("len"), Some(0));
    assert_eq!(lookup("push"), Some(4));
    assert_eq!(lookup("foo"), None);
}

#[test]
fn hash_keys_and_truthiness() {
    assert_eq!(HashKey::from_object(&Object::Integer(3)), Ok(HashKey::Integer(3)));
    assert_eq!(HashKey::from_object(&Object::Boolean(false)), Ok(HashKey::Boolean(false)));
    assert_eq!(HashKey::from_object(&Object::Null), Err(RuntimeError::UnsupportedHashKey(Object::Null)));
    assert!(Object::Integer(0).truthy());
    assert!(!Object::Null.truthy());
    assert!(!Object::Boolean(false).truthy());
}

#[test]
fn globals_persist_across_programs() {
    let ins = program(vec![op(Opcode::Constant, vec![0]), op(Opcode::SetGlobal, vec![0])]);
    let (vm, r) = run(ins, vec![Constant::String(b"kept".to_vec())]);
    assert_eq!(r, Ok(()));
    let ins = program(vec![op(Opcode::GetGlobal, vec![0]), op(Opcode::Pop, vec![])]);
    let mut next = Vm::with_globals(vm, ins, &vec![]);
    assert_eq!(next.run(), Ok(()));
    match next.last_popped_stack_element() {
        Object::String(h) => assert_eq!(next.strings[h], b"kept".to_vec()),
        other => panic!("unexpected {:?}", other),
    }
}

#[test]
fn environment_scopes() {
    let mut outer = Environment::new();
    assert_eq!(outer.set("x", Object::Integer(1)), Ok(()));
    assert_eq!(outer.set("x", Object::Integer(2)), Ok(()));
    assert_eq!(outer.keys(), vec!["x".to_string()]);
    let mut inner = Environment::extend(outer);
    assert_eq!(inner.get("x"), Some(Object::Integer(2)));
    assert!(inner.contains("x"));
    assert!(!inner.contains("y"));
    assert_eq!(inner.set("y", Object::Boolean(true)), Ok(()));
    assert_eq!(inner.get("y"), Some(Object::Boolean(true)));
    assert_eq!(inner.keys(), vec!["y".to_string()]);
    assert_eq!(inner.get("z"), None);
    assert_eq!(
        inner.set("len", Object::Null),
        Err(RuntimeError::VariableHasBeenDeclared("len".to_string()))
    );
}

#[test]
fn equal_arrays_compare_by_contents() {
    let ins = program(vec![
        op(Opcode::Constant, vec![0]),
        op(Opcode::Array, vec![1]),
        op(Opcode::Constant, vec![0]),
        op(Opcode::Array, vec![1]),
        op(Opcode::Equal, vec![]),
        op(Opcode::Pop, vec![]),
    ]);
    let (vm, r) = run(ins, vec![Constant::Integer(1)]);
    assert_eq!(r, Ok(()));
    assert_eq!(vm.last_popped_stack_element(), Object::Boolean(true));
    let ins = program(vec![
        op(Opcode::Constant, vec![0]),
        op(Opcode::Array, vec![1]),
        op(Opcode::Constant, vec![1]),
        op(Opcode::Array, vec![1]),
        op(Opcode::NotEqual, vec![]),
        op(Opcode::Pop, vec![]),
    ]);
    let (vm, r) = run(ins, vec![Constant::Integer(1), Constant::Integer(2)]);
    assert_eq!(r, Ok(()));
    assert_eq!(vm.last_popped_stack_element(), Object::Boolean(true));
}

#[test]
fn equal_hashes_compare_by_contents() {
    let ins = program(vec![
        op(Opcode::Constant, vec![0]),
        op(Opcode::Constant, vec![1]),
        op(Opcode::Hash, vec![1]),
        op(Opcode::Constant, vec![2]),
        op(Opcode::Constant, vec![1]),
        op(Opcode::Hash, vec![1]),
        op(Opcode::Equal, vec![]),
        op(Opcode::Pop, vec![]),
    ]);
    let consts = vec![Constant::String(b"k".to_vec()), Constant::Integer(1), Constant::String(b"k".to_vec())];
    let (vm, r) = run(ins, consts);
    assert_eq!(r, Ok(()));
    assert_eq!(vm.last_popped_stack_element(), Object::Boolean(true));
}

#[test]
fn failed_operation_leaves_stack() {
    let mut vm = Vm::new(vec![], &vec![Constant::Integer(1), Constant::Integer(0)]);
    vm.push_stack(Object::Integer(1)).unwrap();
    vm.push_stack(Object::Integer(0)).unwrap();
    let r = vm.execute_binary_operation(&Opcode::Div);
    assert_eq!(r, Err(RuntimeError::DivisionByZero(Object::Integer(1), Object::Integer(0))));
    assert_eq!(vm.sp, 0);
    let r = vm.execute_not_expression(&Object::Integer(0));
    assert_eq!(r, Err(RuntimeError::UnsupportedUnOperation(Opcode::Not, Object::Integer(0))));
    assert_eq!(vm.sp, 0);
}
