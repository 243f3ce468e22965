use lovem::assembler::{assemble, AsmError};
use lovem::op;

#[test]
fn assemble_small_program() {
    let pgm = assemble("t", "push_u8 5\npush_u8 3\nadd\nfin").unwrap();
    assert_eq!(pgm.text, vec![op::PUSH_U8, 5, op::PUSH_U8, 3, op::ADD, op::FIN]);
    assert_eq!(pgm.vars, 0);
    assert!(pgm.exports.is_empty());
    assert_eq!(pgm.name, "t");
}

#[test]
fn assemble_comments_and_whitespace() {
    let src = "  push_u8   0x2A # the answer\n\n# a whole comment line\n\tfin  ";
    let pgm = assemble("t", src).unwrap();
    assert_eq!(pgm.text, vec![op::PUSH_U8, 42, op::FIN]);
}

#[test]
fn assemble_backward_branch() {
    let src = "push_u8 10\nloop:\npush_u8 1\nsub\ndup\nifgt loop\nfin";
    let pgm = assemble("t", src).unwrap();
    assert_eq!(
        pgm.text,
        vec![
            op::PUSH_U8,
            10,
            op::PUSH_U8,
            1,
            op::SUB,
            op::DUP,
            op::IFGT,
            0xff,
            0xf9,
            op::FIN
        ]
    );
}

#[test]
fn assemble_forward_branch() {
    let src = "push_u8 0\nifeq done\nnop\ndone:\nfin";
    let pgm = assemble("t", src).unwrap();
    assert_eq!(
        pgm.text,
        vec![op::PUSH_U8, 0, op::IFEQ, 0, 1, op::NOP, op::FIN]
    );
}

#[test]
fn assemble_functions_and_call() {
    let src = "main():\npush_u8 1\ncall f\nfin\nf():\nret";
    let pgm = assemble("t", src).unwrap();
    assert_eq!(
        pgm.text,
        vec![op::PUSH_U8, 1, op::CALL, 0, 1, op::FIN, op::RET]
    );
    assert_eq!(
        pgm.exports,
        vec![(b"main".to_vec(), 0), (b"f".to_vec(), 6)]
    );
}

#[test]
fn assemble_globals() {
    let src = "var a, b\npush_u8 7\nstore b\nload b\nout\nfin";
    let pgm = assemble("t", src).unwrap();
    assert_eq!(pgm.vars, 2);
    assert_eq!(
        pgm.text,
        vec![op::PUSH_U8, 7, op::STORE, 1, op::LOAD, 1, op::OUT, op::FIN]
    );
}

#[test]
fn assemble_global_created_on_first_use() {
    let pgm = assemble("t", "load y\nfin").unwrap();
    assert_eq!(pgm.vars, 1);
    assert_eq!(pgm.text, vec![op::LOAD, 0, op::FIN]);
}

#[test]
fn error_invalid_line() {
    let rep = assemble("t", "nop\n!!!\nfin").unwrap_err();
    assert!(matches!(rep.error, AsmError::InvalidLine));
    assert_eq!(rep.line, 2);
    assert_eq!(rep.name, "t");
}

#[test]
fn error_unknown_instruction() {
    let rep = assemble("t", "frobnicate").unwrap_err();
    match rep.error {
        AsmError::UnknownInstruction(s) => assert_eq!(s, b"frobnicate".to_vec()),
        e => panic!("unexpected error {:?}", e),
    }
    assert_eq!(rep.line, 1);
}

#[test]
fn error_unexpected_argument() {
    let rep = assemble("t", "nop 5").unwrap_err();
    assert!(matches!(rep.error, AsmError::UnexpectedArgument));
}

#[test]
fn error_missing_argument() {
    let rep = assemble("t", "push_u8").unwrap_err();
    assert!(matches!(rep.error, AsmError::MissingArgument));
}

#[test]
fn error_invalid_argument() {
    for src in ["push_u8 256", "push_u8 0x100", "push_u8 abc", "push_u8 0x"] {
        let rep = assemble("t", src).unwrap_err();
        assert!(matches!(rep.error, AsmError::InvalidArgument), "{}", src);
    }
}

#[test]
fn error_invalid_label() {
    let rep = assemble("t", "goto 9bad").unwrap_err();
    match rep.error {
        AsmError::InvalidLabel(s) => assert_eq!(s, b"9bad".to_vec()),
        e => panic!("unexpected error {:?}", e),
    }
}

#[test]
fn error_duplicate_label() {
    let rep = assemble("t", "a:\nnop\na:\nfin").unwrap_err();
    match rep.error {
        AsmError::DuplicateLabel(s) => assert_eq!(s, b"a".to_vec()),
        e => panic!("unexpected error {:?}", e),
    }
    assert_eq!(rep.line, 3);
}

#[test]
fn error_unknown_label() {
    let rep = assemble("t", "goto nowhere\nfin").unwrap_err();
    match rep.error {
        AsmError::UnknownLabel(s) => assert_eq!(s, b"nowhere".to_vec()),
        e => panic!("unexpected error {:?}", e),
    }
    assert_eq!(rep.line, 1);
}

#[test]
fn error_label_of_other_function_unknown() {
    let src = "f():\na:\nret\ng():\ngoto a\nret";
    let rep = assemble("t", src).unwrap_err();
    assert!(matches!(rep.error, AsmError::UnknownLabel(_)));
    assert_eq!(rep.line, 5);
}

#[test]
fn error_call_of_plain_label_unknown() {
    let rep = assemble("t", "x:\ncall x\nfin").unwrap_err();
    assert!(matches!(rep.error, AsmError::UnknownLabel(_)));
}

#[test]
fn error_jump_too_long() {
    // The only branch target lies 40,000 bytes away: the displacement
    // does not fit a signed 16-bit value and assembly must fail.
    let mut src = String::from("goto far\n");
    for _ in 0..40000 {
        src.push_str("nop\n");
    }
    src.push_str("far:\nfin");
    let rep = assemble("t", &src).unwrap_err();
    assert!(matches!(rep.error, AsmError::JumpTooLong));
    assert_eq!(rep.line, 1);
}

#[test]
fn error_invalid_variable_name() {
    let rep = assemble("t", "var 9x").unwrap_err();
    assert!(matches!(rep.error, AsmError::InvalidVariableName(_)));
}

#[test]
fn error_duplicate_variable() {
    let rep = assemble("t", "var x, x").unwrap_err();
    match rep.error {
        AsmError::DuplicateVariable(s) => assert_eq!(s, b"x".to_vec()),
        e => panic!("unexpected error {:?}", e),
    }
}

#[test]
fn error_duplicate_parameter() {
    let rep = assemble("t", "f(a, a):\nret").unwrap_err();
    assert!(matches!(rep.error, AsmError::DuplicateVariable(_)));
}

#[test]
fn function_parameters_are_scoped() {
    // parameters live in the function's own scope
    let pgm = assemble("t", "f(a, b):\nret").unwrap();
    assert_eq!(pgm.exports, vec![(b"f".to_vec(), 0)]);
    assert_eq!(pgm.vars, 0);
    // a local declaration clashing with a parameter is rejected
    let rep = assemble("t", "f(x):\nvar x\nret").unwrap_err();
    assert!(matches!(rep.error, AsmError::DuplicateVariable(_)));
    // a global and a parameter of the same name are distinct
    assert!(assemble("t", "var x\nf(x):\nret").is_ok());
}

#[test]
fn error_invalid_variable() {
    let rep = assemble("t", "load 9x").unwrap_err();
    assert!(matches!(rep.error, AsmError::InvalidVariable));
}

#[test]
fn error_too_many_variables() {
    let mut src = String::new();
    for n in 0..256 {
        src.push_str(&format!("var x{}\n", n));
    }
    src.push_str("fin");
    let rep = assemble("t", &src).unwrap_err();
    assert!(matches!(rep.error, AsmError::TooManyVariables));
    assert_eq!(rep.line, 256);
}

#[test]
fn error_duplicate_function() {
    let rep = assemble("t", "f():\nret\nf():\nret").unwrap_err();
    match rep.error {
        AsmError::DuplicateFunction(s) => assert_eq!(s, b"f".to_vec()),
        e => panic!("unexpected error {:?}", e),
    }
    assert_eq!(rep.line, 3);
}

#[test]
fn assemble_top_level_code_before_functions() {
    // instructions before the first function header form an unnamed
    // top-level region that is not exported
    let src = "nop\nf():\nret";
    let pgm = assemble("t", src).unwrap();
    assert_eq!(pgm.text, vec![op::NOP, op::RET]);
    assert_eq!(pgm.exports, vec![(b"f".to_vec(), 1)]);
}

#[test]
fn instruction_size_counts_opcode_and_operands() {
    let i = lovem::assembler::AsmInstruction {
        line_number: 1,
        opcode: op::GOTO,
        oparg: vec![0, 0],
        pos: 0,
        argument_token: Some(b"x".to_vec()),
    };
    assert_eq!(i.size(), 3);
}

#[test]
fn assemble_empty_source() {
    let pgm = assemble("t", "").unwrap();
    assert!(pgm.text.is_empty());
    assert_eq!(pgm.vars, 0);
}

#[test]
fn assemble_first_error_wins() {
    // both lines are bad; the report names the first
    let rep = assemble("t", "nop 1\n!!!\n").unwrap_err();
    assert!(matches!(rep.error, AsmError::UnexpectedArgument));
    assert_eq!(rep.line, 1);
}
