use monkey_vm::code::{make, Opcode};
use monkey_vm::heap::CompiledFunction;
use monkey_vm::object::{Object, RuntimeError};
use monkey_vm::vm::{Constant, Vm};

fn program(parts: Vec<Vec<u8>>) -> Vec<u8> {
    let mut out = Vec::new();
    for p in parts {
        out.extend(p);
    }
    out
}

fn op(o: Opcode, operands: Vec<usize>) -> Vec<u8> {
    make(o, &operands)
}

fn run(instructions: Vec<u8>, constants: Vec<Constant>) -> (Vm, Result<(), RuntimeError>) {
    let mut vm = Vm::new(instructions, &constants);
    let r = vm.run();
    (vm, r)
}

fn string_of(vm: &Vm, o: Object) -> Vec<u8> {
    match o {
        Object::String(h) => vm.strings[h].clone(),
        other => panic!("not a string: {:?}", other),
    }
}

#[test]
fn arithmetic_precedence() {
    let ins = program(vec![
        op(Opcode::Constant, vec![0]),
        op(Opcode::Constant, vec![1]),
        op(Opcode::Constant, vec![2]),
        op(Opcode::Mul, vec![]),
        op(Opcode::Add, vec![]),
        op(Opcode::Pop, vec![]),
    ]);
    let consts = vec![Constant::Integer(1), Constant::Integer(2), Constant::Integer(3)];
    let (vm, r) = run(ins, consts);
    assert_eq!(r, Ok(()));
    assert_eq!(vm.last_popped_stack_element(), Object::Integer(7));
}

#[test]
fn array_element_assignment() {
    let ins = program(vec![
        op(Opcode::Constant, vec![0]),
        op(Opcode::Constant, vec![1]),
        op(Opcode::Constant, vec![2]),
        op(Opcode::Array, vec![3]),
        op(Opcode::SetGlobal, vec![0]),
        op(Opcode::Constant, vec![3]),
        op(Opcode::Constant, vec![4]),
        op(Opcode::Assign, vec![0, 0]),
        op(Opcode::GetGlobal, vec![0]),
        op(Opcode::Constant, vec![5]),
        op(Opcode::Index, vec![]),
        op(Opcode::Pop, vec![]),
    ]);
    let consts = vec![
        Constant::Integer(1),
        Constant::Integer(2),
        Constant::Integer(3),
        Constant::Integer(1),
        Constant::Integer(99),
        Constant::Integer(1),
    ];
    let (vm, r) = run(ins, consts);
    assert_eq!(r, Ok(()));
    assert_eq!(vm.last_popped_stack_element(), Object::Integer(99));
}

fn hash_program(key: usize) -> (Vec<u8>, Vec<Constant>) {
    let ins = program(vec![
        op(Opcode::Constant, vec![0]),
        op(Opcode::Constant, vec![1]),
        op(Opcode::Hash, vec![1]),
        op(Opcode::SetGlobal, vec![0]),
        op(Opcode::GetGlobal, vec![0]),
        op(Opcode::Constant, vec![key]),
        op(Opcode::Index, vec![]),
        op(Opcode::Pop, vec![]),
    ]);
    let consts = vec![
        Constant::String(b"k".to_vec()),
        Constant::Integer(1),
        Constant::String(b"k".to_vec()),
        Constant::String(b"missing".to_vec()),
    ];
    (ins, consts)
}

#[test]
fn hash_present_key() {
    let (ins, consts) = hash_program(2);
    let (vm, r) = run(ins, consts);
    assert_eq!(r, Ok(()));
    assert_eq!(vm.last_popped_stack_element(), Object::Integer(1));
}

#[test]
fn hash_missing_key_is_null() {
    let (ins, consts) = hash_program(3);
    let (vm, r) = run(ins, consts);
    assert_eq!(r, Ok(()));
    assert_eq!(vm.last_popped_stack_element(), Object::Null);
}

fn add_function() -> Constant {
    Constant::Function(CompiledFunction {
        instructions: program(vec![
            op(Opcode::GetLocal, vec![0]),
            op(Opcode::GetLocal, vec![1]),
            op(Opcode::Add, vec![]),
            op(Opcode::ReturnValue, vec![]),
        ]),
        num_locals: 2,
        num_parameters: 2,
    })
}

#[test]
fn function_call_two_arguments() {
    let ins = program(vec![
        op(Opcode::Closure, vec![0, 0]),
        op(Opcode::SetGlobal, vec![0]),
        op(Opcode::GetGlobal, vec![0]),
        op(Opcode::Constant, vec![1]),
        op(Opcode::Constant, vec![2]),
        op(Opcode::Call, vec![2]),
        op(Opcode::Pop, vec![]),
    ]);
    let consts = vec![add_function(), Constant::Integer(2), Constant::Integer(3)];
    let (vm, r) = run(ins, consts);
    assert_eq!(r, Ok(()));
    assert_eq!(vm.last_popped_stack_element(), Object::Integer(5));
}

#[test]
fn function_call_wrong_argument_count() {
    let ins = program(vec![
        op(Opcode::Closure, vec![0, 0]),
        op(Opcode::SetGlobal, vec![0]),
        op(Opcode::GetGlobal, vec![0]),
        op(Opcode::Constant, vec![1]),
        op(Opcode::Call, vec![1]),
        op(Opcode::Pop, vec![]),
    ]);
    let consts = vec![add_function(), Constant::Integer(1)];
    let (_, r) = run(ins, consts);
    assert_eq!(r, Err(RuntimeError::WrongArgumentCount(2, 1)));
}

#[test]
fn closure_captures_by_value() {
    let inner = Constant::Function(CompiledFunction {
        instructions: program(vec![
            op(Opcode::GetFree, vec![0]),
            op(Opcode::GetLocal, vec![0]),
            op(Opcode::Add, vec![]),
            op(Opcode::ReturnValue, vec![]),
        ]),
        num_locals: 1,
        num_parameters: 1,
    });
    let outer = Constant::Function(CompiledFunction {
        instructions: program(vec![
            op(Opcode::GetLocal, vec![0]),
            op(Opcode::Closure, vec![0, 1]),
            op(Opcode::ReturnValue, vec![]),
        ]),
        num_locals: 1,
        num_parameters: 1,
    });
    let ins = program(vec![
        op(Opcode::Closure, vec![1, 0]),
        op(Opcode::SetGlobal, vec![0]),
        op(Opcode::GetGlobal, vec![0]),
        op(Opcode::Constant, vec![2]),
        op(Opcode::Call, vec![1]),
        op(Opcode::Constant, vec![3]),
        op(Opcode::Call, vec![1]),
        op(Opcode::Pop, vec![]),
    ]);
    let consts = vec![inner, outer, Constant::Integer(2), Constant::Integer(40)];
    let (vm, r) = run(ins, consts);
    assert_eq!(r, Ok(()));
    assert_eq!(vm.last_popped_stack_element(), Object::Integer(42));
}

#[test]
fn string_concatenation_with_integer() {
    let ins = program(vec![
        op(Opcode::Constant, vec![0]),
        op(Opcode::Constant, vec![1]),
        op(Opcode::Add, vec![]),
        op(Opcode::Constant, vec![2]),
        op(Opcode::Add, vec![]),
        op(Opcode::SetGlobal, vec![0]),
        op(Opcode::GetGlobal, vec![0]),
        op(Opcode::Pop, vec![]),
    ]);
    let consts = vec![
        Constant::String(b"foo".to_vec()),
        Constant::Integer(1),
        Constant::String(b"bar".to_vec()),
    ];
    let (vm, r) = run(ins, consts);
    assert_eq!(r, Ok(()));
    let top = vm.last_popped_stack_element();
    assert_eq!(string_of(&vm, top), b"foo1bar".to_vec());
}

#[test]
fn string_subtraction_unsupported() {
    let ins = program(vec![
        op(Opcode::Constant, vec![0]),
        op(Opcode::Constant, vec![1]),
        op(Opcode::Sub, vec![]),
        op(Opcode::Pop, vec![]),
    ]);
    let consts = vec![Constant::String(b"a".to_vec()), Constant::String(b"b".to_vec())];
    let (vm, r) = run(ins, consts);
    let a = vm.constants[0];
    let b = vm.constants[1];
    assert_eq!(r, Err(RuntimeError::UnsupportedBinOperation(Opcode::Sub, a, b)));
    assert_eq!(string_of(&vm, a), b"a".to_vec());
    assert_eq!(string_of(&vm, b), b"b".to_vec());
}

#[test]
fn division_by_zero() {
    let ins = program(vec![
        op(Opcode::Constant, vec![0]),
        op(Opcode::Constant, vec![1]),
        op(Opcode::Div, vec![]),
        op(Opcode::Pop, vec![]),
    ]);
    let consts = vec![Constant::Integer(1), Constant::Integer(0)];
    let (_, r) = run(ins, consts);
    assert_eq!(r, Err(RuntimeError::DivisionByZero(Object::Integer(1), Object::Integer(0))));
}

#[test]
fn not_zero_unsupported() {
    let ins = program(vec![
        op(Opcode::Constant, vec![0]),
        op(Opcode::Not, vec![]),
        op(Opcode::Pop, vec![]),
    ]);
    let (_, r) = run(ins, vec![Constant::Integer(0)]);
    assert_eq!(r, Err(RuntimeError::UnsupportedUnOperation(Opcode::Not, Object::Integer(0))));
}
