use stackvm::bytecode::ByteCode;
use stackvm::decode::{decode_line, load_memory};
use stackvm::encode::encode_line;
use stackvm::error::VmError;

#[test]
fn decodes_every_keyword() {
    assert_eq!(decode_line(b"LOAD_VAL 42"), Ok(ByteCode::LoadVal(42)));
    assert_eq!(decode_line(b"WRITE_VAR 'x'"), Ok(ByteCode::WriteVar('x')));
    assert_eq!(decode_line(b"READ_VAR 'y'"), Ok(ByteCode::ReadVar('y')));
    assert_eq!(decode_line(b"ADD"), Ok(ByteCode::Add));
    assert_eq!(decode_line(b"SUBTRACT"), Ok(ByteCode::Subtract));
    assert_eq!(decode_line(b"MULTIPLY"), Ok(ByteCode::Multiply));
    assert_eq!(decode_line(b"DIVIDE"), Ok(ByteCode::Divide));
    assert_eq!(
        decode_line(b"DO_WHILE_LT 'i' 'm' 4"),
        Ok(ByteCode::DoWhileLt('i', 'm', 4))
    );
    assert_eq!(decode_line(b"RETURN_VALUE"), Ok(ByteCode::ReturnValue));
}

#[test]
fn decode_ignores_extra_whitespace() {
    assert_eq!(decode_line(b"  LOAD_VAL \t 7  "), Ok(ByteCode::LoadVal(7)));
}

#[test]
fn encode_produces_canonical_lines() {
    assert_eq!(encode_line(&ByteCode::LoadVal(0)), b"LOAD_VAL 0".to_vec());
    assert_eq!(encode_line(&ByteCode::LoadVal(105)), b"LOAD_VAL 105".to_vec());
    assert_eq!(
        encode_line(&ByteCode::WriteVar('x')),
        b"WRITE_VAR 'x'".to_vec()
    );
    assert_eq!(encode_line(&ByteCode::ReadVar('i')), b"READ_VAR 'i'".to_vec());
    assert_eq!(encode_line(&ByteCode::Add), b"ADD".to_vec());
    assert_eq!(
        encode_line(&ByteCode::DoWhileLt('i', 'm', 4)),
        b"DO_WHILE_LT 'i' 'm' 4".to_vec()
    );
    assert_eq!(
        encode_line(&ByteCode::ReturnValue),
        b"RETURN_VALUE".to_vec()
    );
}

#[test]
fn every_tag_round_trips_through_its_canonical_line() {
    let all = vec![
        ByteCode::LoadVal(0),
        ByteCode::LoadVal(usize::MAX),
        ByteCode::WriteVar('x'),
        ByteCode::ReadVar('y'),
        ByteCode::Add,
        ByteCode::Subtract,
        ByteCode::Multiply,
        ByteCode::Divide,
        ByteCode::DoWhileLt('i', 'm', 4),
        ByteCode::ReturnValue,
    ];
    for instr in all {
        let line = encode_line(&instr);
        assert_eq!(decode_line(&line), Ok(instr));
    }
}

#[test]
fn unknown_keyword_is_rejected() {
    assert_eq!(decode_line(b"JUMP 3"), Err(VmError::UnknownInstruction));
    assert_eq!(decode_line(b"load_val 3"), Err(VmError::UnknownInstruction));
    assert_eq!(decode_line(b""), Err(VmError::UnknownInstruction));
    assert_eq!(decode_line(b"   "), Err(VmError::UnknownInstruction));
}

#[test]
fn malformed_operands_are_rejected() {
    assert_eq!(decode_line(b"LOAD_VAL"), Err(VmError::MalformedOperand));
    assert_eq!(decode_line(b"LOAD_VAL xy"), Err(VmError::MalformedOperand));
    assert_eq!(decode_line(b"LOAD_VAL 1x"), Err(VmError::MalformedOperand));
    assert_eq!(
        decode_line(b"LOAD_VAL 99999999999999999999999999"),
        Err(VmError::MalformedOperand)
    );
    assert_eq!(decode_line(b"WRITE_VAR x"), Err(VmError::MalformedOperand));
    assert_eq!(decode_line(b"READ_VAR x"), Err(VmError::MalformedOperand));
    assert_eq!(
        decode_line(b"DO_WHILE_LT 'i' 'm'"),
        Err(VmError::MalformedOperand)
    );
    assert_eq!(
        decode_line(b"DO_WHILE_LT 'i' 'm' x"),
        Err(VmError::MalformedOperand)
    );
}

#[test]
fn tokens_beyond_those_a_tag_consumes_are_ignored() {
    assert_eq!(decode_line(b"ADD 5"), Ok(ByteCode::Add));
    assert_eq!(decode_line(b"LOAD_VAL 3 4"), Ok(ByteCode::LoadVal(3)));
}

#[test]
fn loop_targets_may_have_several_digits() {
    assert_eq!(
        decode_line(b"DO_WHILE_LT 'i' 'm' 12"),
        Ok(ByteCode::DoWhileLt('i', 'm', 12))
    );
}

#[test]
fn load_memory_appends_in_input_order() {
    let mut mem = vec![ByteCode::Add];
    let text = String::from("LOAD_VAL 3\nLOAD_VAL 4\nADD\nRETURN_VALUE\n");
    assert_eq!(load_memory(&mut mem, text), Ok(()));
    assert_eq!(
        mem,
        vec![
            ByteCode::Add,
            ByteCode::LoadVal(3),
            ByteCode::LoadVal(4),
            ByteCode::Add,
            ByteCode::ReturnValue,
        ]
    );
}

#[test]
fn load_memory_accepts_crlf_lines() {
    let mut mem = Vec::new();
    let text = String::from("ADD\r\nSUBTRACT\r\n");
    assert_eq!(load_memory(&mut mem, text), Ok(()));
    assert_eq!(mem, vec![ByteCode::Add, ByteCode::Subtract]);
}

#[test]
fn load_memory_reports_the_failing_line() {
    let mut mem = Vec::new();
    let text = String::from("ADD\nSUBTRACT\nNONSENSE\nADD\n");
    assert_eq!(
        load_memory(&mut mem, text),
        Err((VmError::UnknownInstruction, 2))
    );
    assert!(mem.is_empty());

    let text = String::from("LOAD_VAL nine\n");
    assert_eq!(
        load_memory(&mut mem, text),
        Err((VmError::MalformedOperand, 0))
    );
    assert!(mem.is_empty());
}

#[test]
fn load_memory_of_empty_text_loads_nothing() {
    let mut mem = Vec::new();
    assert_eq!(load_memory(&mut mem, String::new()), Ok(()));
    assert!(mem.is_empty());
}

#[test]
fn blank_line_is_an_unknown_instruction() {
    let mut mem = Vec::new();
    let text = String::from("ADD\n\nADD\n");
    assert_eq!(
        load_memory(&mut mem, text),
        Err((VmError::UnknownInstruction, 1))
    );
}
