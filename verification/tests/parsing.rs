use vm_translator::instruction::{Diagnostic, DiagnosticKind, Instruction};
use vm_translator::source::parse_contents;
use vm_translator::text::{equals, parse_number, text_of, to_chars};

fn module(name: &str, lines: &[&str]) -> Vec<Instruction> {
    let mut out = Vec::new();
    for (k, line) in lines.iter().enumerate() {
        out.push(Instruction::new(line, k, name).unwrap());
    }
    out
}

fn frame_at(instructions: &Vec<Instruction>, k: usize) -> Option<String> {
    let mut i = instructions[k].clone();
    i.set_frame(instructions);
    i.frame
}

#[test]
fn contents_lose_comments_blank_lines_and_outer_space() {
    let source = "// header\n\n  push constant 7   // seven\r\n\tadd\n   \n//\npop local 0";
    assert_eq!(
        parse_contents(source),
        vec!["push constant 7".to_string(), "add".to_string(), "pop local 0".to_string()]
    );
}

#[test]
fn contents_of_empty_text_are_empty() {
    assert_eq!(parse_contents(""), Vec::<String>::new());
    assert_eq!(parse_contents("\n\n\n"), Vec::<String>::new());
    assert_eq!(parse_contents("// only a comment"), Vec::<String>::new());
}

#[test]
fn contents_keep_inner_space_and_single_slashes() {
    assert_eq!(
        parse_contents("push  constant 1\na / b\nlast"),
        vec!["push  constant 1".to_string(), "a / b".to_string(), "last".to_string()]
    );
}

#[test]
fn contents_cut_at_the_first_comment_mark() {
    assert_eq!(parse_contents("goto A///B // C"), vec!["goto A".to_string()]);
    assert_eq!(parse_contents("goto A/"), vec!["goto A/".to_string()]);
}

#[test]
fn contents_trim_unicode_white_space() {
    assert_eq!(parse_contents("\u{a0}\u{3000}neg\u{2003}\u{85}"), vec!["neg".to_string()]);
}

#[test]
fn contents_agree_with_the_standard_line_cleaning() {
    let source = "a b c//x\n \r\n  // y\nlabel  L \n\nreturn\r\n/ /\n";
    let expected: Vec<String> = source
        .lines()
        .map(|x| x.split("//").next().unwrap().trim())
        .filter(|x| !x.is_empty())
        .map(|x| x.to_string())
        .collect();
    assert_eq!(parse_contents(source), expected);
}

#[test]
fn line_of_three_words() {
    let i = Instruction::new("push constant 7", 4, "Main").unwrap();
    assert_eq!(i.operation, "push");
    assert_eq!(i.arg1, Some("constant".to_string()));
    assert_eq!(i.arg2, Some("7".to_string()));
    assert_eq!(i.raw, "push constant 7");
    assert_eq!(i.module, "Main");
    assert_eq!(i.index, 4);
    assert_eq!(i.frame, None);
}

#[test]
fn line_of_one_and_of_two_words() {
    let one = Instruction::new("add", 0, "M").unwrap();
    assert_eq!(one.operation, "add");
    assert_eq!(one.arg1, None);
    assert_eq!(one.arg2, None);
    let two = Instruction::new("goto LOOP", 1, "M").unwrap();
    assert_eq!(two.operation, "goto");
    assert_eq!(two.arg1, Some("LOOP".to_string()));
    assert_eq!(two.arg2, None);
}

#[test]
fn line_with_more_words_keeps_the_first_three() {
    let i = Instruction::new("call Foo 2 extra words", 0, "M").unwrap();
    assert_eq!(i.operation, "call");
    assert_eq!(i.arg1, Some("Foo".to_string()));
    assert_eq!(i.arg2, Some("2".to_string()));
    assert_eq!(i.raw, "call Foo 2 extra words");
}

#[test]
fn line_with_two_spaces_in_a_row_has_an_empty_word() {
    let i = Instruction::new("push  constant", 0, "M").unwrap();
    assert_eq!(i.operation, "push");
    assert_eq!(i.arg1, Some("".to_string()));
    assert_eq!(i.arg2, Some("constant".to_string()));
    let j = Instruction::new("pop ", 0, "M").unwrap();
    assert_eq!(j.arg1, Some("".to_string()));
    assert_eq!(j.arg2, None);
}

#[test]
fn empty_line_is_malformed() {
    let d = Instruction::new("", 9, "Main").unwrap_err();
    assert_eq!(
        d,
        Diagnostic {
            kind: DiagnosticKind::MalformedInstruction,
            module: "Main".to_string(),
            index: 9,
            raw: "".to_string(),
            message: "Unable to parse empty line".to_string(),
        }
    );
}

#[test]
fn every_cleaned_line_parses_with_an_operation() {
    let source = " push constant 1 \n\n // c\nadd//x\n  label A";
    for (k, line) in parse_contents(source).iter().enumerate() {
        let i = Instruction::new(line, k, "M").unwrap();
        assert!(!i.operation.is_empty());
        assert_eq!(i.index, k);
    }
}

#[test]
fn frame_before_the_first_function_is_global() {
    let m = module("M", &["push constant 1", "label A", "function M.f 0", "add"]);
    assert_eq!(frame_at(&m, 0), None);
    assert_eq!(frame_at(&m, 1), None);
}

#[test]
fn frame_of_a_function_instruction_is_the_function() {
    let m = module("M", &["function M.f 0", "add", "function M.g 1", "return"]);
    assert_eq!(frame_at(&m, 0), Some("M.f".to_string()));
    assert_eq!(frame_at(&m, 2), Some("M.g".to_string()));
}

#[test]
fn frame_is_the_function_opened_last() {
    let m = module(
        "M",
        &["function M.f 0", "label A", "goto A", "function M.g 1", "label A", "return"],
    );
    assert_eq!(frame_at(&m, 1), Some("M.f".to_string()));
    assert_eq!(frame_at(&m, 2), Some("M.f".to_string()));
    assert_eq!(frame_at(&m, 4), Some("M.g".to_string()));
    assert_eq!(frame_at(&m, 5), Some("M.g".to_string()));
}

#[test]
fn frame_looks_at_the_own_module_only() {
    let first = module("A", &["function A.f 0", "return"]);
    let second = module("B", &["label START", "function B.g 0"]);
    assert_eq!(frame_at(&second, 0), None);
    assert_eq!(frame_at(&first, 1), Some("A.f".to_string()));
}

#[test]
fn frame_of_a_nameless_function_is_global() {
    let m = module("M", &["function M.f 0", "function", "add"]);
    assert_eq!(frame_at(&m, 2), None);
}

#[test]
fn frame_past_the_end_is_that_of_the_last_instruction() {
    let m = module("M", &["function M.f 0", "add"]);
    let mut late = Instruction::new("sub", 7, "M").unwrap();
    late.set_frame(&m);
    assert_eq!(late.frame, Some("M.f".to_string()));
    let mut alone = Instruction::new("sub", 0, "M").unwrap();
    alone.set_frame(&Vec::new());
    assert_eq!(alone.frame, None);
}

#[test]
fn set_frame_changes_the_frame_only() {
    let m = module("M", &["function M.f 0", "push constant 3"]);
    let mut i = m[1].clone();
    i.set_frame(&m);
    assert_eq!(i.operation, "push");
    assert_eq!(i.arg1, Some("constant".to_string()));
    assert_eq!(i.arg2, Some("3".to_string()));
    assert_eq!(i.raw, "push constant 3");
    assert_eq!(i.module, "M");
    assert_eq!(i.index, 1);
}

#[test]
fn numbers_parse_as_the_standard_library_parses_them() {
    let samples = [
        "0", "7", "007", "255", "256", "+5", "+", "-5", "", " 5", "5 ", "1a", "٣", "++1", "99999",
        "18446744073709551615", "18446744073709551616", "000000000000000000000000255",
    ];
    for s in samples {
        assert_eq!(parse_number(s, 255), s.parse::<u8>().ok().map(|v| v as usize), "{:?}", s);
        assert_eq!(parse_number(s, usize::MAX), s.parse::<usize>().ok(), "{:?}", s);
    }
}

#[test]
fn numbers_respect_the_bound() {
    assert_eq!(parse_number("8", 7), None);
    assert_eq!(parse_number("7", 7), Some(7));
    assert_eq!(parse_number("0", 0), Some(0));
    assert_eq!(parse_number("1", 0), None);
}

#[test]
fn texts_are_equal_when_their_characters_are() {
    assert!(equals("push", "push"));
    assert!(!equals("push", "pop"));
    assert!(!equals("push", "pushx"));
    assert!(equals("", ""));
    assert!(!equals("é", "e"));
}

#[test]
fn text_of_a_range_of_characters() {
    let v = to_chars("héllo wörld");
    assert_eq!(v.len(), 11);
    assert_eq!(text_of(&v, 0, 5), "héllo");
    assert_eq!(text_of(&v, 6, 11), "wörld");
    assert_eq!(text_of(&v, 3, 3), "");
}

#[test]
fn diagnostic_renders_as_one_line() {
    let d = Diagnostic {
        kind: DiagnosticKind::InvalidSegment,
        module: "Main".to_string(),
        index: 12,
        raw: "pop constant 3".to_string(),
        message: "Invalid segment argument 'constant'".to_string(),
    };
    assert_eq!(d.render(), "Main#12 'pop constant 3': Invalid segment argument 'constant'");
}

#[test]
fn frame_is_never_taken_from_another_module() {
    let v = vec![
        Instruction::new("function f 0", 0, "A").unwrap(),
        Instruction::new("add", 0, "B").unwrap(),
        Instruction::new("label X", 1, "B").unwrap(),
    ];
    let mut x = v[2].clone();
    x.set_frame(&v);
    assert_eq!(x.frame, None);
    let mut y = v[1].clone();
    y.set_frame(&v);
    assert_eq!(y.frame, None);
    let mut z = v[0].clone();
    z.set_frame(&v);
    assert_eq!(z.frame, Some("f".to_string()));
}

#[test]
fn frame_is_never_taken_from_a_later_function() {
    let v = vec![
        Instruction::new("function g 0", 5, "B").unwrap(),
        Instruction::new("function f 0", 1, "B").unwrap(),
        Instruction::new("function h 0", 2, "A").unwrap(),
    ];
    let mut x = Instruction::new("label X", 3, "B").unwrap();
    x.set_frame(&v);
    assert_eq!(x.frame, Some("f".to_string()));
    let mut early = Instruction::new("label X", 0, "B").unwrap();
    early.set_frame(&v);
    assert_eq!(early.frame, None);
    let mut late = Instruction::new("label X", 9, "B").unwrap();
    late.set_frame(&v);
    assert_eq!(late.frame, Some("f".to_string()));
}

#[test]
fn frame_in_a_flattened_program_is_that_of_the_own_module() {
    let mut all = module("A", &["function A.f 0", "label X", "return"]);
    all.extend(module("B", &["label X", "function B.g 0", "label X"]));
    let frames: Vec<Option<String>> = (0..all.len()).map(|k| frame_at(&all, k)).collect();
    assert_eq!(
        frames,
        vec![
            Some("A.f".to_string()),
            Some("A.f".to_string()),
            Some("A.f".to_string()),
            None,
            Some("B.g".to_string()),
            Some("B.g".to_string()),
        ]
    );
}
