use vm_translator::arithmetic::{generate_1op, generate_2op, generate_cmp};
use vm_translator::branching::generate_branching;
use vm_translator::instruction::{Diagnostic, DiagnosticKind, Instruction};
use vm_translator::linkage::generate_functions;
use vm_translator::memory::{
    generate_memop, pointer_fmt, segment_fmt, segment_named, static_fmt, temp_fmt, MemOpType,
    Segment,
};
use vm_translator::translate::generate_code;

const PUSH_D: &str = "@SP\nM=M+1\nA=M-1\nM=D\n";
const POP_D: &str = "@SP\nAM=M-1\nD=M\n";

fn parse(line: &str) -> Instruction {
    Instruction::new(line, 3, "Main").unwrap()
}

fn parse_in(line: &str, frame: Option<&str>) -> Instruction {
    let mut i = parse(line);
    i.frame = frame.map(|f| f.to_string());
    i
}

fn report(kind: DiagnosticKind, line: &str, message: &str) -> Diagnostic {
    Diagnostic {
        kind,
        module: "Main".to_string(),
        index: 3,
        raw: line.to_string(),
        message: message.to_string(),
    }
}

#[test]
fn push_constant_loads_the_number_and_pushes() {
    assert_eq!(generate_memop(&parse("push constant 7")), Ok(format!("@7\nD=A\n{}", PUSH_D)));
    assert_eq!(generate_memop(&parse("push constant 255")), Ok(format!("@255\nD=A\n{}", PUSH_D)));
    assert_eq!(generate_memop(&parse("push constant +012")), Ok(format!("@12\nD=A\n{}", PUSH_D)));
}

#[test]
fn push_from_the_based_segments() {
    for (name, register) in [("argument", "ARG"), ("local", "LCL"), ("this", "THIS"), ("that", "THAT")] {
        let line = format!("push {} 2", name);
        let expected = format!("@{}\nD=M\n@2\nA=D+A\nD=M\n{}", register, PUSH_D);
        assert_eq!(generate_memop(&parse(&line)), Ok(expected.clone()));
        let read = format!("@{}\nD=M\n@2\nA=D+A\nD=M\n", register);
        assert_eq!(segment_fmt(MemOpType::Push, &parse(&line)), Ok(read));
    }
}

#[test]
fn pop_to_the_based_segments() {
    for (name, register) in [("argument", "ARG"), ("local", "LCL"), ("this", "THIS"), ("that", "THAT")] {
        let line = format!("pop {} 200", name);
        let expected = format!(
            "@{}\nD=M\n@200\nD=D+A\n@R13\nM=D\n{}@R13\nA=M\nM=D\n",
            register, POP_D
        );
        assert_eq!(generate_memop(&parse(&line)), Ok(expected.clone()));
        assert_eq!(segment_fmt(MemOpType::Pop, &parse(&line)), Ok(expected));
    }
}

#[test]
fn static_cells_are_variables_of_the_module() {
    assert_eq!(
        generate_memop(&parse("push static 3")),
        Ok(format!("@Main.3\nD=M\n{}", PUSH_D))
    );
    assert_eq!(generate_memop(&parse("pop static 3")), Ok(format!("{}@Main.3\nM=D\n", POP_D)));
    assert_eq!(static_fmt(MemOpType::Push, &parse("push static 03")), Ok("@Main.3\nD=M\n".to_string()));
    let other = Instruction::new("pop static 3", 0, "Other").unwrap();
    assert_eq!(static_fmt(MemOpType::Pop, &other), Ok(format!("{}@Other.3\nM=D\n", POP_D)));
}

#[test]
fn temp_cells_are_the_registers_five_to_twelve() {
    for offset in 0..8 {
        let push = format!("push temp {}", offset);
        let pop = format!("pop temp {}", offset);
        assert_eq!(
            generate_memop(&parse(&push)),
            Ok(format!("@R{}\nD=M\n{}", offset + 5, PUSH_D))
        );
        assert_eq!(
            temp_fmt(MemOpType::Pop, &parse(&pop)),
            Ok(format!("{}@R{}\nM=D\n", POP_D, offset + 5))
        );
    }
}

#[test]
fn temp_offsets_above_seven_are_invalid() {
    assert_eq!(
        generate_memop(&parse("push temp 8")),
        Err(report(
            DiagnosticKind::InvalidArgument,
            "push temp 8",
            "Invalid 2nd argument '8' to temp segment"
        ))
    );
    assert_eq!(
        temp_fmt(MemOpType::Pop, &parse("pop temp 255")).unwrap_err().kind,
        DiagnosticKind::InvalidArgument
    );
    assert_eq!(
        temp_fmt(MemOpType::Pop, &parse("pop temp x")),
        Err(report(
            DiagnosticKind::InvalidArgument,
            "pop temp x",
            "Invalid 2nd argument 'x' to temp segment"
        ))
    );
    assert_eq!(
        temp_fmt(MemOpType::Pop, &parse("pop temp")),
        Err(report(
            DiagnosticKind::MissingArgument,
            "pop temp",
            "Missing 2nd argument to temp segment"
        ))
    );
}

#[test]
fn pointer_cells_are_this_and_that() {
    assert_eq!(generate_memop(&parse("push pointer 0")), Ok(format!("@THIS\nD=M\n{}", PUSH_D)));
    assert_eq!(generate_memop(&parse("push pointer 1")), Ok(format!("@THAT\nD=M\n{}", PUSH_D)));
    assert_eq!(pointer_fmt(MemOpType::Pop, &parse("pop pointer 0")), Ok(format!("{}@THIS\nM=D\n", POP_D)));
    assert_eq!(pointer_fmt(MemOpType::Pop, &parse("pop pointer 1")), Ok(format!("{}@THAT\nM=D\n", POP_D)));
}

#[test]
fn pointer_offsets_other_than_zero_and_one_are_invalid() {
    assert_eq!(
        generate_memop(&parse("pop pointer 2")),
        Err(report(
            DiagnosticKind::InvalidArgument,
            "pop pointer 2",
            "Invalid 2nd argument '2' to pointer segment"
        ))
    );
    assert_eq!(
        pointer_fmt(MemOpType::Push, &parse("push pointer one")),
        Err(report(
            DiagnosticKind::InvalidArgument,
            "push pointer one",
            "Invalid 2nd argument 'one' to pointer segment"
        ))
    );
    assert_eq!(
        pointer_fmt(MemOpType::Push, &parse("push pointer")),
        Err(report(
            DiagnosticKind::MissingArgument,
            "push pointer",
            "Missing 2nd argument to pointer segment"
        ))
    );
}

#[test]
fn pop_constant_is_an_invalid_segment() {
    assert_eq!(
        generate_memop(&parse("pop constant 3")),
        Err(report(
            DiagnosticKind::InvalidSegment,
            "pop constant 3",
            "Invalid segment argument 'constant'"
        ))
    );
}

#[test]
fn unknown_segment_is_an_invalid_segment() {
    assert_eq!(
        generate_memop(&parse("push heap 3")),
        Err(report(DiagnosticKind::InvalidSegment, "push heap 3", "Invalid segment argument 'heap'"))
    );
    assert_eq!(
        segment_fmt(MemOpType::Push, &parse("push static 3")),
        Err(report(
            DiagnosticKind::InvalidSegment,
            "push static 3",
            "Invalid segment argument 'static'"
        ))
    );
}

#[test]
fn memory_access_needs_both_arguments() {
    for line in ["push", "push constant", "pop local", "pop"] {
        assert_eq!(
            generate_memop(&parse(line)),
            Err(report(
                DiagnosticKind::MissingArgument,
                line,
                "Memory operation instruction requires two parameters"
            ))
        );
    }
    assert_eq!(
        segment_fmt(MemOpType::Pop, &parse("pop")),
        Err(report(DiagnosticKind::MissingArgument, "pop", "Missing segment argument"))
    );
    assert_eq!(
        segment_fmt(MemOpType::Pop, &parse("pop local")),
        Err(report(DiagnosticKind::MissingArgument, "pop local", "Missing 2nd argument"))
    );
    assert_eq!(
        static_fmt(MemOpType::Pop, &parse("pop static")),
        Err(report(DiagnosticKind::MissingArgument, "pop static", "Missing 2nd argument"))
    );
}

#[test]
fn offsets_are_unsigned_eight_bit_numbers() {
    assert_eq!(
        generate_memop(&parse("push local 256")),
        Err(report(
            DiagnosticKind::InvalidArgument,
            "push local 256",
            "Invalid 2nd argument '256' to local segment"
        ))
    );
    assert_eq!(
        generate_memop(&parse("pop static -1")),
        Err(report(
            DiagnosticKind::InvalidArgument,
            "pop static -1",
            "Invalid 2nd argument '-1' to static segment"
        ))
    );
    assert_eq!(
        generate_memop(&parse("push constant seven")),
        Err(report(
            DiagnosticKind::InvalidArgument,
            "push constant seven",
            "Invalid 2nd argument 'seven' to constant segment"
        ))
    );
    assert_eq!(
        generate_memop(&parse("push that ")).unwrap_err().kind,
        DiagnosticKind::InvalidArgument
    );
}

#[test]
fn memory_access_refuses_other_mnemonics() {
    assert_eq!(
        generate_memop(&parse("peek local 1")),
        Err(report(
            DiagnosticKind::UnknownOperation,
            "peek local 1",
            "Invalid memmory operation instruction 'peek'"
        ))
    );
}

#[test]
fn segment_names() {
    assert_eq!(segment_named("constant"), Some(Segment::Constant));
    assert_eq!(segment_named("argument"), Some(Segment::Argument));
    assert_eq!(segment_named("local"), Some(Segment::Local));
    assert_eq!(segment_named("this"), Some(Segment::This));
    assert_eq!(segment_named("that"), Some(Segment::That));
    assert_eq!(segment_named("static"), Some(Segment::Static));
    assert_eq!(segment_named("temp"), Some(Segment::Temp));
    assert_eq!(segment_named("pointer"), Some(Segment::Pointer));
    assert_eq!(segment_named("Local"), None);
    assert_eq!(segment_named(""), None);
}

#[test]
fn binary_operators_keep_the_operand_order() {
    let head = format!("{}A=A-1\n", POP_D);
    assert_eq!(generate_2op(&parse("add")), Ok(format!("{}M=M+D\n", head)));
    assert_eq!(generate_2op(&parse("sub")), Ok(format!("{}M=M-D\n", head)));
    assert_eq!(generate_2op(&parse("and")), Ok(format!("{}M=M&D\n", head)));
    assert_eq!(generate_2op(&parse("or")), Ok(format!("{}M=M|D\n", head)));
}

#[test]
fn unary_operators_change_the_top_cell() {
    assert_eq!(generate_1op(&parse("neg")), Ok("@SP\nA=M-1\nM=-M\n".to_string()));
    assert_eq!(generate_1op(&parse("not")), Ok("@SP\nA=M-1\nM=!M\n".to_string()));
}

#[test]
fn comparisons_jump_on_the_difference() {
    for (name, jump) in [("eq", "JEQ"), ("gt", "JGT"), ("lt", "JLT")] {
        let expected = format!(
            "{}A=A-1\nD=M-D\n@Main$true.3\nD;{}\n@SP\nA=M-1\nM=0\n@Main$done.3\n0;JMP\n\
             (Main$true.3)\n@SP\nA=M-1\nM=-1\n(Main$done.3)\n",
            POP_D, jump
        );
        assert_eq!(generate_cmp(&parse(name)), Ok(expected));
    }
}

#[test]
fn comparison_labels_name_module_and_position() {
    let a = generate_cmp(&Instruction::new("eq", 12, "Alpha").unwrap()).unwrap();
    let b = generate_cmp(&Instruction::new("eq", 12, "Beta").unwrap()).unwrap();
    let c = generate_cmp(&Instruction::new("eq", 13, "Alpha").unwrap()).unwrap();
    assert!(a.contains("(Alpha$true.12)\n") && a.contains("(Alpha$done.12)\n"));
    assert!(b.contains("(Beta$true.12)\n") && b.contains("(Beta$done.12)\n"));
    assert!(c.contains("(Alpha$true.13)\n") && c.contains("(Alpha$done.13)\n"));
    assert!(!b.contains("Alpha") && !a.contains("Beta") && !c.contains(".12"));
}

#[test]
fn arithmetic_generators_refuse_other_mnemonics() {
    assert_eq!(
        generate_2op(&parse("mul")),
        Err(report(
            DiagnosticKind::UnknownOperation,
            "mul",
            "Invalid 2-operand arithemtic/logical instruction mul"
        ))
    );
    assert_eq!(
        generate_1op(&parse("add")),
        Err(report(
            DiagnosticKind::UnknownOperation,
            "add",
            "Invalid 1-operand logical instruction 'add'"
        ))
    );
    assert_eq!(
        generate_cmp(&parse("le")),
        Err(report(
            DiagnosticKind::UnknownOperation,
            "le",
            "Invalid logical comparison instruction 'le'"
        ))
    );
}

#[test]
fn labels_are_qualified_by_module_and_frame() {
    assert_eq!(
        generate_branching(&parse_in("label LOOP", Some("Main.run"))),
        Ok("(Main.Main.run$LOOP)\n".to_string())
    );
    assert_eq!(
        generate_branching(&parse_in("goto LOOP", Some("Main.run"))),
        Ok("@Main.Main.run$LOOP\n0;JMP\n".to_string())
    );
    assert_eq!(
        generate_branching(&parse_in("if-goto LOOP", Some("Main.run"))),
        Ok(format!("{}@Main.Main.run$LOOP\nD;JNE\n", POP_D))
    );
}

#[test]
fn labels_outside_functions_are_in_the_global_frame() {
    assert_eq!(
        generate_branching(&parse_in("label END", None)),
        Ok("(Main.global$END)\n".to_string())
    );
    assert_eq!(
        generate_branching(&parse_in("goto END", None)),
        Ok("@Main.global$END\n0;JMP\n".to_string())
    );
}

#[test]
fn branching_needs_a_label_name() {
    for line in ["label", "goto", "if-goto", "jump"] {
        assert_eq!(
            generate_branching(&parse(line)),
            Err(report(DiagnosticKind::MissingArgument, line, "Missing label name argument"))
        );
    }
    assert_eq!(
        generate_branching(&parse("jump A")),
        Err(report(DiagnosticKind::UnknownOperation, "jump A", "Invalid branching instruction 'jump'"))
    );
}

#[test]
fn function_is_a_label_and_zeroed_locals() {
    assert_eq!(generate_functions(&parse("function Foo.bar 0")), Ok("(Foo.bar)\n".to_string()));
    let zero = "@SP\nM=M+1\nA=M-1\nM=0\n";
    assert_eq!(
        generate_functions(&parse("function Foo.bar 3")),
        Ok(format!("(Foo.bar)\n{}{}{}", zero, zero, zero))
    );
}

#[test]
fn call_saves_the_frame_and_jumps() {
    let save = |r: &str| format!("@{}\nD=M\n{}", r, PUSH_D);
    let expected = format!(
        "@Main$Main.run$ret.3\nD=A\n{}{}{}{}{}@SP\nD=M\n@2\nD=D-A\n@5\nD=D-A\n@ARG\nM=D\n\
         @SP\nD=M\n@LCL\nM=D\n@Foo.bar\n0;JMP\n(Main$Main.run$ret.3)\n",
        PUSH_D,
        save("LCL"),
        save("ARG"),
        save("THIS"),
        save("THAT")
    );
    assert_eq!(generate_functions(&parse_in("call Foo.bar 2", Some("Main.run"))), Ok(expected));
}

#[test]
fn call_outside_functions_returns_into_the_global_frame() {
    let text = generate_functions(&parse_in("call Foo.bar 0", None)).unwrap();
    assert!(text.starts_with("@Main$global$ret.3\nD=A\n"));
    assert!(text.ends_with("@Foo.bar\n0;JMP\n(Main$global$ret.3)\n"));
}

#[test]
fn return_restores_the_caller() {
    let restore = |r: &str| format!("@R13\nAM=M-1\nD=M\n@{}\nM=D\n", r);
    let expected = format!(
        "@LCL\nD=M\n@R13\nM=D\n@5\nA=D-A\nD=M\n@R14\nM=D\n{}@ARG\nA=M\nM=D\n@ARG\nD=M+1\n@SP\nM=D\n\
         {}{}{}{}@R14\nA=M\n0;JMP\n",
        POP_D,
        restore("THAT"),
        restore("THIS"),
        restore("ARG"),
        restore("LCL")
    );
    assert_eq!(generate_functions(&parse("return")), Ok(expected.clone()));
    assert_eq!(generate_functions(&parse("return now please")), Ok(expected));
}

#[test]
fn function_and_call_need_a_name_and_a_number() {
    assert_eq!(
        generate_functions(&parse("function")),
        Err(report(DiagnosticKind::MissingArgument, "function", "Missing function name argument"))
    );
    assert_eq!(
        generate_functions(&parse("function Foo")),
        Err(report(
            DiagnosticKind::MissingArgument,
            "function Foo",
            "Missing n_vars argument for function"
        ))
    );
    assert_eq!(
        generate_functions(&parse("function Foo two")),
        Err(report(
            DiagnosticKind::InvalidArgument,
            "function Foo two",
            "Invalid n_vars argument for function, 'two'"
        ))
    );
    assert_eq!(
        generate_functions(&parse("call")),
        Err(report(
            DiagnosticKind::MissingArgument,
            "call",
            "Missing function name argument to call"
        ))
    );
    assert_eq!(
        generate_functions(&parse("call Foo")),
        Err(report(
            DiagnosticKind::MissingArgument,
            "call Foo",
            "Missing n_args argument for function call"
        ))
    );
    assert_eq!(
        generate_functions(&parse("call Foo -1")),
        Err(report(
            DiagnosticKind::InvalidArgument,
            "call Foo -1",
            "Invalid n_args argument for function call, '-1"
        ))
    );
    assert_eq!(
        generate_functions(&parse("invoke Foo 1")),
        Err(report(
            DiagnosticKind::UnknownOperation,
            "invoke Foo 1",
            "Invalid functions instruction 'invoke'"
        ))
    );
}

#[test]
fn code_echoes_the_source_line() {
    assert_eq!(
        generate_code(&parse("push constant 7")),
        Ok("// push constant 7\n@7\nD=A\n@SP\nM=M+1\nA=M-1\nM=D".to_string())
    );
    assert_eq!(generate_code(&parse("neg")), Ok("// neg\n@SP\nA=M-1\nM=-M".to_string()));
    assert_eq!(
        generate_code(&Instruction::new("neg", 4, "M").unwrap()),
        Ok("// neg\n@SP\nA=M-1\nM=-M".to_string())
    );
    assert_eq!(
        generate_code(&parse_in("label A", Some("f"))),
        Ok("// label A\n(Main.f$A)".to_string())
    );
}

#[test]
fn code_is_that_of_the_family_generator() {
    let lines = [
        "push local 1", "pop that 2", "add", "sub", "and", "or", "neg", "not", "eq", "gt", "lt",
        "label X", "goto X", "if-goto X", "function F 1", "call F 1", "return",
    ];
    for line in lines {
        let i = parse(line);
        let family = match i.operation.as_str() {
            "push" | "pop" => generate_memop(&i),
            "add" | "sub" | "and" | "or" => generate_2op(&i),
            "neg" | "not" => generate_1op(&i),
            "eq" | "gt" | "lt" => generate_cmp(&i),
            "label" | "goto" | "if-goto" => generate_branching(&i),
            _ => generate_functions(&i),
        };
        assert_eq!(
            generate_code(&i),
            Ok(format!("// {}\n{}", line, family.unwrap().trim_end()))
        );
    }
}

#[test]
fn code_for_an_unknown_mnemonic_is_a_diagnostic() {
    assert_eq!(
        generate_code(&parse("jump 1 2")),
        Err(report(DiagnosticKind::UnknownOperation, "jump 1 2", "Invalid VM instruction 'jump'"))
    );
    assert_eq!(
        generate_code(&parse("PUSH constant 1")).unwrap_err().kind,
        DiagnosticKind::UnknownOperation
    );
}

#[test]
fn code_passes_on_the_diagnostic_of_the_family() {
    assert_eq!(
        generate_code(&parse("pop constant 3")),
        Err(report(
            DiagnosticKind::InvalidSegment,
            "pop constant 3",
            "Invalid segment argument 'constant'"
        ))
    );
    assert_eq!(
        generate_code(&parse("goto")).unwrap_err().kind,
        DiagnosticKind::MissingArgument
    );
    assert_eq!(
        generate_code(&parse("call F x")).unwrap_err().kind,
        DiagnosticKind::InvalidArgument
    );
}

#[test]
fn two_operand_generator_names_the_mnemonic_it_refuses() {
    let i = Instruction::new("xor", 0, "M").unwrap();
    assert_eq!(
        generate_2op(&i).unwrap_err().message,
        "Invalid 2-operand arithemtic/logical instruction xor"
    );
    assert_eq!(generate_2op(&i).unwrap_err().kind, DiagnosticKind::UnknownOperation);
}

#[test]
fn code_has_no_white_space_at_its_end() {
    let lines = [
        "push constant 1", "pop temp 2", "add", "not", "lt", "label X", "goto X", "if-goto X",
        "function F 0", "function F 2", "call F 1", "return",
    ];
    for line in lines {
        let text = generate_code(&parse(line)).unwrap();
        assert_eq!(text, text.trim_end());
        assert!(text.starts_with(&format!("// {}\n", line)));
    }
}
