use assembler::{
    compile, generate_label_table, parse_program, BinaryInstruction, DataHolder, ErrorKind,
    Instruction, JRCond, JumpTarget, LabelTable, Operation,
};

fn assemble(src: &str) -> Result<Vec<u8>, ErrorKind> {
    let lines = parse_program(src).map_err(|e| e.kind)?;
    compile(&lines).map_err(|e| e.kind)
}

fn bytes_of(b: BinaryInstruction) -> Vec<u8> {
    match b {
        BinaryInstruction::SingleByte(a) => a.to_vec(),
        BinaryInstruction::DoubleByte(a) => a.to_vec(),
    }
}

#[test]
fn label_then_absolute_jump() {
    assert_eq!(assemble("start: A -> B\nJA start\n"), Ok(vec![0x49, 0x78, 0x00]));
}

#[test]
fn compare_with_immediate() {
    assert_eq!(assemble("A - 5 ?\n"), Ok(vec![0b00110100, 0x05]));
}

#[test]
fn undefined_label_is_named() {
    let lines = parse_program("JA missing\n").unwrap();
    let err = compile(&lines).unwrap_err();
    assert_eq!(err.kind, ErrorKind::UndefinedLabel);
    assert!(err.message.contains("missing"));
}

#[test]
fn relative_jump_boundaries() {
    assert_eq!(assemble("JR 15\n"), Ok(vec![0x8F]));
    assert_eq!(assemble("JR 16\n"), Err(ErrorKind::Range));
    assert_eq!(assemble("JR -16\n"), Ok(vec![0x90]));
    assert_eq!(assemble("JR -17\n"), Err(ErrorKind::Range));
}

#[test]
fn duplicate_label_fails() {
    assert_eq!(assemble("x: A -> B\nx: reti\n"), Err(ErrorKind::DuplicateLabel));
    assert_eq!(assemble("isr: reti\nisr: reti\n"), Err(ErrorKind::DuplicateLabel));
}

#[test]
fn isr_is_pinned_and_padded() {
    let bytes = assemble("A -> B\nisr: reti\n").unwrap();
    assert_eq!(bytes.len(), 161);
    assert_eq!(bytes[0], 0x49);
    assert!(bytes[1..160].iter().all(|b| *b == 0));
    assert_eq!(bytes[160], 0x58);
    let lines = parse_program("A -> B\nisr: reti\n").unwrap();
    let table = generate_label_table(&lines).unwrap();
    assert_eq!(table.get(&"isr".to_string()), Some(160));
}

#[test]
fn isr_at_start_is_still_pinned() {
    let bytes = assemble("isr: reti\n").unwrap();
    assert_eq!(bytes.len(), 161);
    assert_eq!(bytes[160], 0x58);
}

#[test]
fn relative_jump_after_isr_uses_true_address() {
    let bytes = assemble("isr: A -> B\nJR isr\n").unwrap();
    assert_eq!(bytes.len(), 162);
    // At address 161 the offset back to 160 is -1.
    assert_eq!(bytes[161], 0x80 | 0x1F);
}

#[test]
fn isr_overlapping_code_overflows() {
    let mut src = String::new();
    for _ in 0..81 {
        src.push_str("JA 0\n");
    }
    src.push_str("isr: reti\n");
    assert_eq!(assemble(&src), Err(ErrorKind::AddressOverflow));
}

#[test]
fn program_too_large_overflows() {
    let mut src = String::new();
    for _ in 0..127 {
        src.push_str("JA 0\n");
    }
    assert_eq!(assemble(&src).map(|b| b.len()), Ok(254));
    src.push_str("JA 0\n");
    assert_eq!(assemble(&src), Err(ErrorKind::AddressOverflow));
}

#[test]
fn sizes_add_up() {
    let src = "A + 3 -> B\nB -> A\nJA 7\nB - A ?\n*5 -> A\nA -> *9\nreti\n";
    let lines = parse_program(src).unwrap();
    let total: usize = lines.iter().map(|(_, i)| i.get_byte_size() as usize).sum();
    assert_eq!(total, 2 + 1 + 2 + 1 + 2 + 2 + 1);
    assert_eq!(compile(&lines).unwrap().len(), total);
}

#[test]
fn compile_is_deterministic() {
    let src = "loop: A + 1 -> A\nA - 10 ?\nJR loop IFN\nJA loop\n";
    assert_eq!(assemble(src), assemble(src));
}

#[test]
fn arithmetic_encodings() {
    assert_eq!(assemble("B + A -> A\n"), Ok(vec![0b0000_0010]));
    assert_eq!(assemble("A - A -> B\n"), Ok(vec![0b0000_1001]));
    assert_eq!(assemble("B and 7 -> B\n"), Ok(vec![0b0001_0111, 7]));
    assert_eq!(assemble("A or A -> A\n"), Ok(vec![0b0001_1000]));
    assert_eq!(assemble("A xor 3 -> B\n"), Ok(vec![0x25, 3]));
    assert_eq!(assemble("LSR B -> A\n"), Ok(vec![42]));
    assert_eq!(assemble("not A -> B\n"), Ok(vec![69]));
}

#[test]
fn identity_encodings() {
    assert_eq!(assemble("B -> A\n"), Ok(vec![66]));
    assert_eq!(assemble("*A -> B\n"), Ok(vec![105]));
    assert_eq!(assemble("*7 -> A\n"), Ok(vec![108, 7]));
    assert_eq!(assemble("A -> *A\n"), Ok(vec![112]));
    assert_eq!(assemble("B -> *9\n"), Ok(vec![118, 9]));
    assert_eq!(assemble("5 -> A\n"), Ok(vec![76, 5]));
    assert_eq!(assemble("-1 -> A\n"), Ok(vec![76, 0xFF]));
    assert_eq!(assemble("200 -> A\n"), Ok(vec![76, 200]));
}

#[test]
fn jump_encodings() {
    assert_eq!(assemble("JR 3 IFZ\n"), Ok(vec![163]));
    assert_eq!(assemble("JR 0 IFC\n"), Ok(vec![0b1100_0000]));
    assert_eq!(assemble("JR -1 IFN\n"), Ok(vec![255]));
    assert_eq!(assemble("reti\n"), Ok(vec![0x58]));
    assert_eq!(assemble("loop: A - 1 ?\nJR loop IFZ\n"), Ok(vec![52, 1, 190]));
    assert_eq!(assemble("JA end\nend: reti\n"), Ok(vec![0x78, 2, 0x58]));
}

#[test]
fn label_too_far_is_range_error() {
    let mut src = String::from("far: reti\n");
    for _ in 0..20 {
        src.push_str("reti\n");
    }
    src.push_str("JR far\n");
    assert_eq!(assemble(&src), Err(ErrorKind::Range));
}

#[test]
fn operand_errors() {
    assert_eq!(assemble("*A -> *5\n"), Err(ErrorKind::Operand));
    assert_eq!(assemble("A + 5 -> *A\n"), Err(ErrorKind::Operand));
    assert_eq!(assemble("LSR A -> *3\n"), Err(ErrorKind::Operand));
    assert_eq!(assemble("5 -> *A\n"), Err(ErrorKind::Operand));
}

#[test]
fn parse_errors() {
    assert_eq!(assemble("foo\n"), Err(ErrorKind::Parse));
    assert_eq!(assemble("A -> C\n"), Err(ErrorKind::Parse));
    assert_eq!(assemble("A + B -> A\n"), Err(ErrorKind::Parse));
    assert_eq!(assemble("300 -> A\n"), Err(ErrorKind::Parse));
    assert_eq!(assemble("A -> B reti\n"), Err(ErrorKind::Parse));
    let err = parse_program("A -> B\nbad line\n").unwrap_err();
    assert!(err.message.contains("bad line"));
}

#[test]
fn layout_is_flexible() {
    let src = "\n  start:\n\tA -> B   # copy\n\n  JA start  \r\nreti";
    let lines = parse_program(src).unwrap();
    assert_eq!(lines.len(), 3);
    assert_eq!(lines[0].0.as_deref(), Some("start"));
    assert_eq!(compile(&lines).map_err(|e| e.kind), Ok(vec![0x49, 0x78, 0x00, 0x58]));
}

#[test]
fn empty_program_is_empty_image() {
    assert_eq!(assemble(""), Ok(vec![]));
    assert_eq!(assemble("\n\n  \n"), Ok(vec![]));
}

#[test]
fn parsed_structure() {
    let lines = parse_program("l1: A + -3 -> B\nJR l1 IFC\n").unwrap();
    match &lines[0].1 {
        Instruction::Assignment { op: Operation::Add(DataHolder::A, DataHolder::Const(-3)), dest: DataHolder::B } => {},
        other => panic!("unexpected {:?}", other),
    }
    match &lines[1].1 {
        Instruction::JR(JRCond::IfC, JumpTarget::Label(l)) => assert_eq!(l, "l1"),
        other => panic!("unexpected {:?}", other),
    }
}

#[test]
fn operand_bits() {
    assert_eq!(DataHolder::A.encode_arg1().unwrap(), 0);
    assert_eq!(DataHolder::B.encode_arg1().unwrap(), 1);
    assert_eq!(DataHolder::Const(4).encode_arg1().unwrap_err().kind, ErrorKind::Operand);
    assert_eq!(DataHolder::Const(4).encode_arg2().unwrap(), 1);
    assert_eq!(DataHolder::B.encode_arg2().unwrap_err().kind, ErrorKind::Operand);
    assert_eq!(DataHolder::B.encode_dest().unwrap(), 1);
    assert_eq!(DataHolder::AAddr.encode_dest().unwrap_err().kind, ErrorKind::Operand);
}

#[test]
fn direct_encoding_with_table() {
    let mut table = LabelTable::new();
    table.insert("here".to_string(), 10);
    let jr = Instruction::JR(JRCond::True, JumpTarget::Label("here".to_string()));
    assert_eq!(bytes_of(jr.to_binary(12, &table).unwrap()), vec![0x80 | 30]);
    let ja = Instruction::JA(JumpTarget::Label("here".to_string()));
    assert_eq!(bytes_of(ja.to_binary(0, &table).unwrap()), vec![0x78, 10]);
    assert_eq!(ja.get_byte_size(), 2);
}
