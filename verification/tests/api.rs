use vm_translator::{
    generate_1op, generate_2op, generate_branching, generate_cmp, generate_code,
    generate_functions, generate_memop, parse_contents, pointer_fmt, segment_fmt, static_fmt,
    temp_fmt, translate, Diagnostic, DiagnosticKind, Instruction, MemOpType, Segment,
};

#[test]
fn the_crate_root_offers_the_whole_pipeline() {
    let lines = parse_contents("push constant 1 // one\npush local 0\npop static 2\nadd");
    assert_eq!(lines.len(), 4);
    let mut module = Vec::new();
    for (k, line) in lines.iter().enumerate() {
        module.push(Instruction::new(line, k, "Main").unwrap());
    }
    let mut whole = String::new();
    for k in 0..module.len() {
        let mut i = module[k].clone();
        i.set_frame(&module);
        whole += &generate_code(&i).unwrap();
        whole += "\n\n";
    }
    let translated = translate(vec![(
        "Main".to_string(),
        "push constant 1 // one\npush local 0\npop static 2\nadd".to_string(),
    )])
    .unwrap();
    assert!(translated.ends_with(&whole));
    assert!(translated.starts_with("// bootstrap\n@256\n"));
}

#[test]
fn the_crate_root_offers_the_generators() {
    let parse = |line: &str| Instruction::new(line, 0, "M").unwrap();
    assert!(generate_memop(&parse("push temp 1")).is_ok());
    assert!(segment_fmt(MemOpType::Push, &parse("push this 1")).is_ok());
    assert!(static_fmt(MemOpType::Pop, &parse("pop static 1")).is_ok());
    assert!(temp_fmt(MemOpType::Pop, &parse("pop temp 1")).is_ok());
    assert!(pointer_fmt(MemOpType::Push, &parse("push pointer 1")).is_ok());
    assert!(generate_2op(&parse("or")).is_ok());
    assert!(generate_1op(&parse("not")).is_ok());
    assert!(generate_cmp(&parse("gt")).is_ok());
    assert!(generate_branching(&parse("label A")).is_ok());
    assert!(generate_functions(&parse("return")).is_ok());
    assert_eq!(vm_translator::memory::segment_named("temp"), Some(Segment::Temp));
}

#[test]
fn diagnostics_tell_module_position_line_and_reason() {
    let d: Diagnostic = generate_code(&Instruction::new("push nowhere 1", 7, "Lib").unwrap())
        .unwrap_err();
    assert_eq!(d.kind, DiagnosticKind::InvalidSegment);
    assert_eq!(d.module, "Lib");
    assert_eq!(d.index, 7);
    assert_eq!(d.raw, "push nowhere 1");
    assert_eq!(d.message, "Invalid segment argument 'nowhere'");
    assert_eq!(d.render(), "Lib#7 'push nowhere 1': Invalid segment argument 'nowhere'");
}
