use monkey_vm::code::{make, read_operands, Opcode};

#[test]
fn encode_constant_big_endian() {
    assert_eq!(make(Opcode::Constant, &vec![65534]), vec![0, 255, 254]);
}

#[test]
fn encode_closure_two_operands() {
    assert_eq!(make(Opcode::Closure, &vec![65535, 255]), vec![30, 255, 255, 255]);
}

#[test]
fn encode_no_operands() {
    assert_eq!(make(Opcode::Add, &vec![]), vec![2]);
}

#[test]
fn round_trip_every_opcode() {
    for b in 0u8..=255 {
        let op = match Opcode::from_byte(b) {
            Some(op) => op,
            None => {
                assert!(b > 32);
                continue;
            }
        };
        assert_eq!(op.to_byte(), b);
        let def = op.definition();
        let operands: Vec<usize> = def.iter().map(|w| if *w == 1 { 0xAB } else { 0xBEEF }).collect();
        let bytes = make(op, &operands);
        assert_eq!(Opcode::from_byte(bytes[0]), Some(op));
        let (read, n) = read_operands(&def, &bytes, 1);
        assert_eq!(read, operands);
        assert_eq!(n + 1, bytes.len());
    }
}

#[test]
fn unknown_opcode_byte() {
    assert_eq!(Opcode::from_byte(33), None);
    assert_eq!(Opcode::from_byte(255), None);
}
