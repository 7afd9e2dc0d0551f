use miden_assembly::{parse_module, parse_program, ModuleAst, ProgramAst};

#[test]
fn test_ast_program_serde_simple() {
    let source = "begin push.0xabc234 push.0 assertz end";
    let program = parse_program(source).unwrap();
    let program_serialized = program.to_bytes();
    let program_deserialized = ProgramAst::from_bytes(program_serialized.as_slice()).unwrap();

    assert_eq!(program, program_deserialized);
}

#[test]
fn test_ast_program_serde_local_procs() {
    let source = "\
    proc.foo.1 
        loc_load.0
    end
    proc.bar.2 
        padw
    end  
    begin
        exec.foo
        exec.bar
    end";
    let program = parse_program(source).unwrap();
    let program_serialized = program.to_bytes();
    let program_deserialized = ProgramAst::from_bytes(program_serialized.as_slice()).unwrap();

    assert_eq!(program, program_deserialized);
}

#[test]
fn test_ast_program_serde_exported_procs() {
    let source = "\
    export.foo.1 
        loc_load.0
    end
    export.bar.2 
        padw
    end";
    let module = parse_module(source).unwrap();
    let module_serialized = module.to_bytes();
    let module_deserialized = ModuleAst::from_bytes(module_serialized.as_slice()).unwrap();

    assert_eq!(module, module_deserialized);
}

#[test]
fn test_ast_program_serde_control_flow() {
    let source = "\
    begin
        repeat.3
            push.1
            push.0.1
        end 

        if.true
            and
            loc_store.0
        else
            padw
        end
        
        while.true
            push.5.7
            u32checked_add
            loc_store.1
            push.0
        end

        repeat.3
            push.2
            u32overflowing_mul
        end

    end";

    let program = parse_program(source).unwrap();
    let program_serialized = program.to_bytes();
    let program_deserialized = ProgramAst::from_bytes(program_serialized.as_slice()).unwrap();

    assert_eq!(program, program_deserialized);
}
