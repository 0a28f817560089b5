use vm_translator::instruction::{Diagnostic, DiagnosticKind};
use vm_translator::instruction::Instruction;
use vm_translator::translate::{generate_code, translate};

const PUSH_D: &str = "@SP\nM=M+1\nA=M-1\nM=D\n";

fn bootstrap() -> String {
    let save = |r: &str| format!("@{}\nD=M\n{}", r, PUSH_D);
    format!(
        "// bootstrap\n@256\nD=A\n@SP\nM=D\n@bootstrap$ret\nD=A\n{}{}{}{}{}@SP\nD=M\n@0\nD=D-A\n@5\nD=D-A\n\
         @ARG\nM=D\n@SP\nD=M\n@LCL\nM=D\n@Sys.init\n0;JMP\n(bootstrap$ret)\n\n",
        PUSH_D,
        save("LCL"),
        save("ARG"),
        save("THIS"),
        save("THAT")
    )
}

fn unit(name: &str, source: &str) -> (String, String) {
    (name.to_string(), source.to_string())
}

fn labels_defined(text: &str) -> Vec<String> {
    text.lines()
        .filter(|l| l.starts_with('(') && l.ends_with(')'))
        .map(|l| l[1..l.len() - 1].to_string())
        .collect()
}

#[test]
fn empty_program_is_the_bootstrap() {
    assert_eq!(translate(vec![]), Ok(bootstrap()));
    assert_eq!(translate(vec![unit("Main", "// nothing\n\n")]), Ok(bootstrap()));
}

#[test]
fn output_is_bootstrap_then_one_fragment_per_instruction() {
    let out = translate(vec![unit("Main", "push constant 7 // seven\nneg\n")]).unwrap();
    let expected = format!(
        "{}// push constant 7\n@7\nD=A\n{}\n// neg\n@SP\nA=M-1\nM=-M\n\n",
        bootstrap(),
        PUSH_D
    );
    assert_eq!(out, expected);
}

#[test]
fn modules_are_translated_in_the_order_given() {
    let out = translate(vec![unit("B", "push static 0"), unit("A", "pop static 0")]).unwrap();
    let first = out.find("// push static 0\n@B.0\n").unwrap();
    let second = out.find("// pop static 0\n").unwrap();
    assert!(first < second);
    assert!(out.ends_with("@A.0\nM=D\n\n"));
    assert!(out.starts_with(&bootstrap()));
}

#[test]
fn positions_count_within_each_module() {
    let out = translate(vec![unit("A", "add\neq"), unit("B", "// c\nadd\neq")]).unwrap();
    assert!(out.contains("(A$true.1)\n"));
    assert!(out.contains("(B$true.1)\n"));
}

#[test]
fn comparisons_at_the_same_position_of_two_modules_have_their_own_labels() {
    let out = translate(vec![
        unit("First", "push constant 1\npush constant 2\neq"),
        unit("Second", "push constant 1\npush constant 2\nlt"),
        unit("Third", "push constant 1\npush constant 2\ngt\ngt"),
    ])
    .unwrap();
    let labels = labels_defined(&out);
    assert_eq!(
        labels,
        vec![
            "bootstrap$ret",
            "First$true.2",
            "First$done.2",
            "Second$true.2",
            "Second$done.2",
            "Third$true.2",
            "Third$done.2",
            "Third$true.3",
            "Third$done.3",
        ]
    );
    let mut unique = labels.clone();
    unique.sort();
    unique.dedup();
    assert_eq!(unique.len(), labels.len());
}

#[test]
fn same_label_text_in_two_functions_is_two_labels() {
    let source = "function Main.f 0\nlabel LOOP\ngoto LOOP\nif-goto LOOP\n\
                  function Main.g 0\nlabel LOOP\ngoto LOOP\nif-goto LOOP\n";
    let out = translate(vec![unit("Main", source)]).unwrap();
    let labels = labels_defined(&out);
    assert!(labels.contains(&"Main.Main.f$LOOP".to_string()));
    assert!(labels.contains(&"Main.Main.g$LOOP".to_string()));
    let f = out.find("(Main.Main.f$LOOP)\n").unwrap();
    let g = out.find("(Main.Main.g$LOOP)\n").unwrap();
    assert!(f < g);
    let in_f = &out[f..g];
    let in_g = &out[g..];
    assert_eq!(in_f.matches("@Main.Main.f$LOOP\n").count(), 2);
    assert_eq!(in_f.matches("@Main.Main.g$LOOP\n").count(), 0);
    assert_eq!(in_g.matches("@Main.Main.g$LOOP\n").count(), 2);
    assert_eq!(in_g.matches("@Main.Main.f$LOOP\n").count(), 0);
}

#[test]
fn label_before_the_first_function_of_a_later_module_is_global() {
    let out = translate(vec![
        unit("A", "function A.f 0\nlabel X\nreturn"),
        unit("B", "label X\ngoto X\nfunction B.g 0\nlabel X"),
    ])
    .unwrap();
    assert_eq!(
        labels_defined(&out),
        vec!["bootstrap$ret", "A.f", "A.A.f$X", "B.global$X", "B.g", "B.B.g$X"]
    );
    assert!(out.contains("// goto X\n@B.global$X\n0;JMP\n"));
}

#[test]
fn every_call_site_has_its_own_return_label() {
    let out = translate(vec![
        unit("A", "function A.f 0\ncall A.f 0\ncall A.f 0\nreturn"),
        unit("B", "call A.f 0\nfunction A.f2 0\ncall A.f 0"),
    ])
    .unwrap();
    let labels = labels_defined(&out);
    assert_eq!(
        labels,
        vec![
            "bootstrap$ret",
            "A.f",
            "A$A.f$ret.1",
            "A$A.f$ret.2",
            "B$global$ret.0",
            "A.f2",
            "B$A.f2$ret.2",
        ]
    );
}

#[test]
fn pop_constant_yields_one_invalid_segment_diagnostic_and_no_output() {
    let r = translate(vec![unit("Main", "pop constant 3")]);
    assert_eq!(
        r,
        Err(vec![Diagnostic {
            kind: DiagnosticKind::InvalidSegment,
            module: "Main".to_string(),
            index: 0,
            raw: "pop constant 3".to_string(),
            message: "Invalid segment argument 'constant'".to_string(),
        }])
    );
}

#[test]
fn one_bad_line_among_good_ones_leaves_no_output() {
    let r = translate(vec![unit("Main", "push constant 1\npop constant 3 // bad\nadd")]);
    let errors = r.unwrap_err();
    assert_eq!(errors.len(), 1);
    assert_eq!(errors[0].kind, DiagnosticKind::InvalidSegment);
    assert_eq!(errors[0].raw, "pop constant 3");
    assert_eq!(errors[0].index, 1);
    assert_eq!(errors[0].render(), "Main#1 'pop constant 3': Invalid segment argument 'constant'");
}

#[test]
fn all_diagnostics_are_reported_in_program_order() {
    let r = translate(vec![
        unit("A", "push constant 1\nfoo\npush\npop temp 9"),
        unit("B", "add\npush pointer x\ngoto\npush nowhere 1\ncall F"),
    ]);
    let errors = r.unwrap_err();
    let seen: Vec<(String, usize, DiagnosticKind)> =
        errors.iter().map(|d| (d.module.clone(), d.index, d.kind)).collect();
    assert_eq!(
        seen,
        vec![
            ("A".to_string(), 1, DiagnosticKind::UnknownOperation),
            ("A".to_string(), 2, DiagnosticKind::MissingArgument),
            ("A".to_string(), 3, DiagnosticKind::InvalidArgument),
            ("B".to_string(), 1, DiagnosticKind::InvalidArgument),
            ("B".to_string(), 2, DiagnosticKind::MissingArgument),
            ("B".to_string(), 3, DiagnosticKind::InvalidSegment),
            ("B".to_string(), 4, DiagnosticKind::MissingArgument),
        ]
    );
    assert_eq!(errors[0].raw, "foo");
    assert_eq!(errors[0].message, "Invalid VM instruction 'foo'");
}

#[test]
fn translation_is_deterministic() {
    let program = vec![unit("A", "function A.f 1\neq\ncall A.f 0\nreturn"), unit("B", "lt\nlabel L")];
    assert_eq!(translate(program.clone()), translate(program));
}

#[test]
fn output_is_the_bootstrap_and_each_code_with_two_line_breaks() {
    let program = vec![
        unit("A", "function A.f 1 // f\npush local 0\nlabel L\nif-goto L\neq\nreturn"),
        unit("B", "label L\ncall A.f 0\nfunction B.g 0\ncall A.f 0\ngt\nneg"),
    ];
    let mut expected = translate(vec![]).unwrap();
    for (name, source) in &program {
        let mut module = Vec::new();
        for (k, line) in vm_translator::source::parse_contents(source).iter().enumerate() {
            module.push(Instruction::new(line, k, name).unwrap());
        }
        for k in 0..module.len() {
            let mut i = module[k].clone();
            i.set_frame(&module);
            expected += &generate_code(&i).unwrap();
            expected += "\n\n";
        }
    }
    assert_eq!(translate(program), Ok(expected));
}
