use miden_assembly::{
    parse_module, parse_program, DecodeErrorKind, Felt, Instruction, ModuleAst, Node, ParseErrorKind,
    ProcedureAst, ProcedureId, ProgramAst, MODULUS,
};

fn program_error(source: &str) -> ParseErrorKind {
    parse_program(source).expect_err("the source should be refused").kind
}

fn module_error(source: &str) -> ParseErrorKind {
    parse_module(source).expect_err("the source should be refused").kind
}

#[test]
fn simple_program_has_exact_body() {
    let program = parse_program("begin push.0 assertz end").unwrap();
    assert_eq!(
        program.body,
        vec![
            Node::Instruction(Instruction::PushConstants(vec![Felt::new(0)])),
            Node::Instruction(Instruction::Assertz),
        ]
    );
    assert!(program.local_procs.is_empty());
}

#[test]
fn declarations_only_is_module_not_program() {
    let source = "proc.foo push.1 end export.bar push.2 end";
    assert!(parse_module(source).is_ok());
    assert_eq!(program_error(source), ParseErrorKind::ExportInProgram);
    assert_eq!(program_error("proc.foo push.1 end"), ParseErrorKind::MissingBody);
}

#[test]
fn exported_procedure_in_program_is_refused() {
    let source = "export.foo push.1 end begin exec.foo end";
    assert_eq!(program_error(source), ParseErrorKind::ExportInProgram);
}

#[test]
fn body_in_module_is_refused() {
    assert_eq!(module_error("proc.foo push.1 end begin push.1 end"), ParseErrorKind::BodyInModule);
}

#[test]
fn sequential_conditionals_are_siblings() {
    let program = parse_program("begin if.true push.1 end if.true push.2 end end").unwrap();
    assert_eq!(program.body.len(), 2);
    assert!(matches!(program.body[0], Node::IfElse(_, _)));
    assert!(matches!(program.body[1], Node::IfElse(_, _)));
}

#[test]
fn nested_conditional_is_inside_branch() {
    let program = parse_program("begin if.true if.true push.1 else push.2 end end end").unwrap();
    assert_eq!(program.body.len(), 1);
    match &program.body[0] {
        Node::IfElse(yes, no) => {
            assert!(no.is_empty());
            assert_eq!(yes.len(), 1);
            assert!(matches!(yes[0], Node::IfElse(_, _)));
        }
        _ => panic!("expected a conditional"),
    }
}

#[test]
fn imported_call_uses_qualified_name() {
    let program = parse_program("use.std::abc::foo begin exec.foo::bar end").unwrap();
    assert_eq!(
        program.body,
        vec![Node::Instruction(Instruction::ExecImported(ProcedureId::new("std::abc::foo::bar")))]
    );
    let full = parse_program("use.std::abc::foo begin exec.std::abc::foo::bar end").unwrap();
    assert_eq!(full.body, program.body);
}

#[test]
fn dotted_import_path_is_joined() {
    let program = parse_program("use.std.abc.foo begin exec.foo::bar end").unwrap();
    assert_eq!(
        program.body,
        vec![Node::Instruction(Instruction::ExecImported(ProcedureId::new("std::abc::foo::bar")))]
    );
}

#[test]
fn procedure_id_depends_on_name() {
    assert_eq!(ProcedureId::new("std::a::b"), ProcedureId::new("std::a::b"));
    assert_ne!(ProcedureId::new("std::a::b"), ProcedureId::new("std::a::c"));
}

#[test]
fn documentation_with_blank_line_is_refused() {
    let source = "#! first\n\n#! second\nexport.foo.1\n    loc_load.0\nend";
    assert_eq!(module_error(source), ParseErrorKind::DocumentationBlankLine);
}

#[test]
fn documentation_is_joined_and_trimmed() {
    let module = parse_module("#!  one  \n#! two\nexport.foo push.1 end").unwrap();
    assert_eq!(module.local_procs[0].docs, Some(String::from("one\ntwo")));
}

#[test]
fn declaration_order_gives_indices() {
    let source = "proc.zeta push.1 end proc.alpha push.2 end begin exec.alpha exec.zeta end";
    let program = parse_program(source).unwrap();
    assert_eq!(program.local_procs[0].name, "zeta");
    assert_eq!(program.local_procs[1].name, "alpha");
    assert_eq!(
        program.body,
        vec![
            Node::Instruction(Instruction::ExecLocal(1)),
            Node::Instruction(Instruction::ExecLocal(0)),
        ]
    );
}

#[test]
fn each_parse_error_kind() {
    assert_eq!(program_error("begin foo end"), ParseErrorKind::UnknownInstruction);
    assert_eq!(program_error("begin loc_load end"), ParseErrorKind::MissingParameter);
    assert_eq!(program_error("begin add.1.2 end"), ParseErrorKind::ExtraParameters);
    assert_eq!(program_error("begin push.1a end"), ParseErrorKind::MalformedNumber);
    assert_eq!(program_error("begin push.0xFFFFFFFFFFFFFFFF end"), ParseErrorKind::ValueOutOfRange);
    assert_eq!(program_error("begin u32checked_add.4294967296 end"), ParseErrorKind::ValueOutOfRange);
    assert_eq!(program_error("begin else end"), ParseErrorKind::UnexpectedToken);
    assert_eq!(program_error("begin if.true push.1 end"), ParseErrorKind::UnclosedBlock);
    assert_eq!(
        program_error("proc.foo push.1 end proc.foo push.2 end begin push.1 end"),
        ParseErrorKind::DuplicateProcedure
    );
    assert_eq!(program_error("begin exec.foo end"), ParseErrorKind::UndefinedProcedure);
    assert_eq!(program_error("begin exec.foo::bar end"), ParseErrorKind::UndefinedProcedure);
    assert_eq!(
        program_error("use.a::foo use.b::foo begin push.1 end"),
        ParseErrorKind::ConflictingImport
    );
    assert_eq!(
        program_error("proc.f push.1 end use.std::x begin push.1 end"),
        ParseErrorKind::MisplacedImport
    );
    assert_eq!(program_error("proc begin push.1 end"), ParseErrorKind::MalformedDeclaration);
    assert_eq!(program_error("begin push.1 end push.2"), ParseErrorKind::UnexpectedToken);
}

#[test]
fn error_names_line_and_token() {
    let e = parse_program("begin\n  push.1\n  frobnicate\nend").unwrap_err();
    assert_eq!(e.kind, ParseErrorKind::UnknownInstruction);
    assert_eq!(e.line, 3);
    assert_eq!(e.token, "frobnicate");
}

#[test]
fn push_takes_one_to_four_values() {
    let program = parse_program("begin push.1.2.3.4 end").unwrap();
    assert_eq!(
        program.body,
        vec![Node::Instruction(Instruction::PushConstants(vec![
            Felt::new(1),
            Felt::new(2),
            Felt::new(3),
            Felt::new(4)
        ]))]
    );
    assert_eq!(program_error("begin push.1.2.3.4.5 end"), ParseErrorKind::ExtraParameters);
    assert_eq!(program_error("begin push end"), ParseErrorKind::MissingParameter);
}

#[test]
fn literals_in_decimal_and_hex() {
    let program = parse_program("begin push.0x10 push.0xFFFFFFFF00000000 u32wrapping_mul.0x20 end").unwrap();
    assert_eq!(
        program.body,
        vec![
            Node::Instruction(Instruction::PushConstants(vec![Felt::new(16)])),
            Node::Instruction(Instruction::PushConstants(vec![Felt::new(MODULUS - 1)])),
            Node::Instruction(Instruction::U32WrappingMulImm(32)),
        ]
    );
    assert_eq!(program_error("begin push.0xFFFFFFFF00000001 end"), ParseErrorKind::ValueOutOfRange);
}

#[test]
fn stack_operand_ranges_and_defaults() {
    let program = parse_program("begin dup swap dup.15 movup.2 movdn.15 adv_push.16 end").unwrap();
    assert_eq!(
        program.body,
        vec![
            Node::Instruction(Instruction::Dup(0)),
            Node::Instruction(Instruction::Swap(1)),
            Node::Instruction(Instruction::Dup(15)),
            Node::Instruction(Instruction::MovUp(2)),
            Node::Instruction(Instruction::MovDn(15)),
            Node::Instruction(Instruction::AdvPush(16)),
        ]
    );
    assert_eq!(program_error("begin movup.1 end"), ParseErrorKind::ValueOutOfRange);
    assert_eq!(program_error("begin dup.16 end"), ParseErrorKind::ValueOutOfRange);
    assert_eq!(program_error("begin movdn end"), ParseErrorKind::MissingParameter);
}

#[test]
fn control_blocks_nest() {
    let program = parse_program("begin repeat.2 while.true push.1 end end end").unwrap();
    assert_eq!(
        program.body,
        vec![Node::Repeat(
            2,
            vec![Node::While(vec![Node::Instruction(Instruction::PushConstants(vec![Felt::new(1)]))])]
        )]
    );
}

#[test]
fn comments_are_skipped() {
    let program = parse_program("begin # start\n push.1 # one\n# whole line\n add end").unwrap();
    assert_eq!(program.body.len(), 2);
}

#[test]
fn felt_reduces_modulo() {
    assert_eq!(Felt::new(MODULUS), Felt::new(0));
    assert_eq!(Felt::new(MODULUS + 5).as_int(), 5);
    assert_eq!(Felt::new(7).as_int(), 7);
}

#[test]
fn encoding_is_exact() {
    let program = parse_program("begin push.1 end").unwrap();
    assert_eq!(
        program.to_bytes(),
        vec![1, 0, 0, 0, 0, 1, 0, 0, 0, 0, 62, 1, 1, 0, 0, 0, 0, 0, 0, 0]
    );
}

#[test]
fn encoding_keeps_names_and_docs() {
    let module = parse_module("#! the doc\nexport.foo.3 push.1 end proc.bar exec.foo end").unwrap();
    let bytes = module.to_bytes();
    let back = ModuleAst::from_bytes(&bytes).unwrap();
    assert_eq!(back, module);
    assert_eq!(back.local_procs[0].name, "foo");
    assert_eq!(back.local_procs[0].docs, Some(String::from("the doc")));
    assert_eq!(back.local_procs[1].body, vec![Node::Instruction(Instruction::ExecLocal(0))]);
}

#[test]
fn each_decode_error_kind() {
    assert_eq!(ProgramAst::from_bytes(&[]).unwrap_err().kind, DecodeErrorKind::Truncated);
    assert_eq!(ProgramAst::from_bytes(&[7]).unwrap_err().kind, DecodeErrorKind::UnknownTag);
    assert_eq!(ProgramAst::from_bytes(&[0]).unwrap_err().kind, DecodeErrorKind::UnknownTag);
    let mut bytes = parse_program("begin push.1 end").unwrap().to_bytes();
    bytes.push(0);
    assert_eq!(ProgramAst::from_bytes(&bytes).unwrap_err().kind, DecodeErrorKind::TrailingBytes);
    bytes.pop();
    bytes.pop();
    assert_eq!(ProgramAst::from_bytes(&bytes).unwrap_err().kind, DecodeErrorKind::Truncated);
    let empty_push = vec![1, 0, 0, 0, 0, 1, 0, 0, 0, 0, 62, 0];
    assert_eq!(ProgramAst::from_bytes(&empty_push).unwrap_err().kind, DecodeErrorKind::InvalidValue);
    let big = vec![1, 0, 0, 0, 0, 1, 0, 0, 0, 0, 62, 1, 1, 0, 0, 0, 255, 255, 255, 255];
    assert_eq!(ProgramAst::from_bytes(&big).unwrap_err().kind, DecodeErrorKind::InvalidValue);
    let bad_op = vec![1, 0, 0, 0, 0, 1, 0, 0, 0, 0, 200];
    assert_eq!(ProgramAst::from_bytes(&bad_op).unwrap_err().kind, DecodeErrorKind::UnknownTag);
    let empty_body = vec![1, 0, 0, 0, 0, 0, 0, 0, 0];
    assert_eq!(ProgramAst::from_bytes(&empty_body).unwrap_err().kind, DecodeErrorKind::RuleViolation);
}

#[test]
fn decoding_checks_unit_rules() {
    let twice = ModuleAst {
        local_procs: vec![
            ProcedureAst { name: String::from("f"), docs: None, is_export: true, num_locals: 0, body: vec![] },
            ProcedureAst { name: String::from("f"), docs: None, is_export: false, num_locals: 0, body: vec![] },
        ],
    };
    let bytes = twice.to_bytes();
    assert_eq!(ModuleAst::from_bytes(&bytes).unwrap_err().kind, DecodeErrorKind::RuleViolation);
    let exported = ProgramAst {
        body: vec![Node::Instruction(Instruction::Add)],
        local_procs: vec![ProcedureAst {
            name: String::from("g"),
            docs: None,
            is_export: true,
            num_locals: 0,
            body: vec![],
        }],
    };
    let bytes = exported.to_bytes();
    assert_eq!(ProgramAst::from_bytes(&bytes).unwrap_err().kind, DecodeErrorKind::RuleViolation);
}

#[test]
fn non_scalar_character_is_refused() {
    let mut bytes = vec![0, 1, 0, 0, 0, 1, 0, 0, 0];
    bytes.extend_from_slice(&[0x00, 0xD8, 0, 0]);
    assert_eq!(ModuleAst::from_bytes(&bytes).unwrap_err().kind, DecodeErrorKind::InvalidValue);
}

#[test]
fn clone_copies_tree() {
    let node = Node::IfElse(vec![Node::Instruction(Instruction::Add)], vec![Node::Repeat(3, vec![])]);
    assert_eq!(node.clone(), node);
}
