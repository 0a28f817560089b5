use std::collections::HashMap;
use vm_translator::instruction::Instruction;
use vm_translator::translate::{generate_code, translate};

/// A program for the target machine, assembled: one entry for each instruction.
enum Op {
    Load(u16),
    Compute { dest: String, comp: String, jump: String },
}

fn predefined() -> HashMap<String, u16> {
    let mut symbols = HashMap::new();
    for (name, address) in [("SP", 0), ("LCL", 1), ("ARG", 2), ("THIS", 3), ("THAT", 4)] {
        symbols.insert(name.to_string(), address);
    }
    for k in 0..16u16 {
        symbols.insert(format!("R{}", k), k);
    }
    symbols.insert("SCREEN".to_string(), 16384);
    symbols.insert("KBD".to_string(), 24576);
    symbols
}

fn assemble(text: &str) -> (Vec<Op>, HashMap<String, u16>) {
    let lines: Vec<&str> = text
        .lines()
        .map(|l| l.split("//").next().unwrap().trim())
        .filter(|l| !l.is_empty())
        .collect();
    let mut symbols = predefined();
    let mut address = 0u16;
    for line in &lines {
        if line.starts_with('(') {
            let name = &line[1..line.len() - 1];
            assert!(symbols.insert(name.to_string(), address).is_none(), "label {} twice", name);
        } else {
            address += 1;
        }
    }
    let mut next_variable = 16u16;
    let mut program = Vec::new();
    for line in &lines {
        if line.starts_with('(') {
            continue;
        }
        if let Some(operand) = line.strip_prefix('@') {
            let value = match operand.parse::<u16>() {
                Ok(n) => {
                    assert!(n < 32768);
                    n
                }
                Err(_) => *symbols.entry(operand.to_string()).or_insert_with(|| {
                    next_variable += 1;
                    next_variable - 1
                }),
            };
            program.push(Op::Load(value));
        } else {
            let (dest, rest) = match line.split_once('=') {
                Some((d, r)) => (d, r),
                None => ("", *line),
            };
            let (comp, jump) = match rest.split_once(';') {
                Some((c, j)) => (c, j),
                None => (rest, ""),
            };
            program.push(Op::Compute {
                dest: dest.to_string(),
                comp: comp.to_string(),
                jump: jump.to_string(),
            });
        }
    }
    (program, symbols)
}

struct Cpu {
    a: u16,
    d: u16,
    pc: usize,
    ram: Vec<u16>,
}

fn compute(comp: &str, a: u16, d: u16, m: u16) -> u16 {
    match comp {
        "0" => 0,
        "1" => 1,
        "-1" => 0xffff,
        "D" => d,
        "A" => a,
        "M" => m,
        "!D" => !d,
        "!A" => !a,
        "!M" => !m,
        "-D" => d.wrapping_neg(),
        "-A" => a.wrapping_neg(),
        "-M" => m.wrapping_neg(),
        "D+1" => d.wrapping_add(1),
        "A+1" => a.wrapping_add(1),
        "M+1" => m.wrapping_add(1),
        "D-1" => d.wrapping_sub(1),
        "A-1" => a.wrapping_sub(1),
        "M-1" => m.wrapping_sub(1),
        "D+A" => d.wrapping_add(a),
        "D+M" => d.wrapping_add(m),
        "D-A" => d.wrapping_sub(a),
        "D-M" => d.wrapping_sub(m),
        "A-D" => a.wrapping_sub(d),
        "M-D" => m.wrapping_sub(d),
        "D&A" => d & a,
        "D&M" => d & m,
        "D|A" => d | a,
        "D|M" => d | m,
        "M+D" => m.wrapping_add(d),
        "M&D" => m & d,
        "M|D" => m | d,
        other => panic!("no such computation: {}", other),
    }
}

fn step(cpu: &mut Cpu, program: &[Op]) {
    match &program[cpu.pc] {
        Op::Load(value) => {
            cpu.a = *value;
            cpu.pc += 1;
        }
        Op::Compute { dest, comp, jump } => {
            let address = cpu.a as usize;
            let value = compute(comp, cpu.a, cpu.d, cpu.ram[address]);
            let signed = value as i16;
            let taken = match jump.as_str() {
                "" => false,
                "JGT" => signed > 0,
                "JEQ" => signed == 0,
                "JGE" => signed >= 0,
                "JLT" => signed < 0,
                "JNE" => signed != 0,
                "JLE" => signed <= 0,
                "JMP" => true,
                other => panic!("no such jump: {}", other),
            };
            let target = cpu.a as usize;
            for c in dest.chars() {
                match c {
                    'A' => cpu.a = value,
                    'D' => cpu.d = value,
                    'M' => cpu.ram[address] = value,
                    other => panic!("no such destination: {}", other),
                }
            }
            cpu.pc = if taken { target } else { cpu.pc + 1 };
        }
    }
}

fn machine() -> Cpu {
    Cpu { a: 0, d: 0, pc: 0, ram: vec![0; 65536] }
}

/// Runs the program until it has gone past its last instruction.
fn run_through(cpu: &mut Cpu, text: &str) -> HashMap<String, u16> {
    let (program, symbols) = assemble(text);
    let mut steps = 0;
    while cpu.pc < program.len() {
        step(cpu, &program);
        steps += 1;
        assert!(steps < 1_000_000, "the program does not end");
    }
    symbols
}

/// Runs the program until it stands at the place called `halt`.
fn run_until(cpu: &mut Cpu, text: &str, halt: &str) -> HashMap<String, u16> {
    let (program, symbols) = assemble(text);
    let stop = symbols[halt] as usize;
    let mut steps = 0;
    while cpu.pc != stop {
        step(cpu, &program);
        steps += 1;
        assert!(steps < 1_000_000, "the program does not reach {}", halt);
    }
    symbols
}

/// The fragments of the lines of one module, without the bootstrap.
fn fragments(module: &str, lines: &[&str]) -> String {
    let mut parsed = Vec::new();
    for (k, line) in lines.iter().enumerate() {
        parsed.push(Instruction::new(line, k, module).unwrap());
    }
    let mut text = String::new();
    for k in 0..parsed.len() {
        let mut i = parsed[k].clone();
        i.set_frame(&parsed);
        text += &generate_code(&i).unwrap();
        text += "\n\n";
    }
    text
}

fn program(source: &str) -> String {
    translate(vec![("Main".to_string(), source.to_string())]).unwrap()
}

#[test]
fn seven_plus_eight_leaves_fifteen_on_the_stack() {
    let mut cpu = machine();
    cpu.ram[0] = 256;
    run_through(&mut cpu, &fragments("Main", &["push constant 7", "push constant 8", "add"]));
    assert_eq!(cpu.ram[0], 257);
    assert_eq!(cpu.ram[256], 15);
}

#[test]
fn seven_plus_eight_in_the_entry_function() {
    let source = "function Sys.init 0\npush constant 7\npush constant 8\nadd\nlabel END\ngoto END";
    let mut cpu = machine();
    run_until(&mut cpu, &program(source), "Main.Sys.init$END");
    assert_eq!(cpu.ram[0], 262);
    assert_eq!(cpu.ram[261], 15);
}

#[test]
fn bootstrap_sets_the_stack_and_enters_the_entry_function() {
    let mut cpu = machine();
    let symbols = run_until(&mut cpu, &program("function Sys.init 0"), "Sys.init");
    assert_eq!(cpu.ram[0], 261);
    assert_eq!(cpu.ram[256], symbols["bootstrap$ret"]);
    assert_eq!(cpu.ram[1], 261);
    assert_eq!(cpu.ram[2], 256);
}

#[test]
fn entry_function_need_not_come_first() {
    let r = translate(vec![
        ("Lib".to_string(), "function Lib.three 0\npush constant 3\nreturn".to_string()),
        (
            "Sys".to_string(),
            "function Sys.init 0\ncall Lib.three 0\nlabel END\ngoto END".to_string(),
        ),
    ])
    .unwrap();
    let mut cpu = machine();
    run_until(&mut cpu, &r, "Sys.Sys.init$END");
    assert_eq!(cpu.ram[0], 262);
    assert_eq!(cpu.ram[261], 3);
}

#[test]
fn call_and_return_leave_the_result_on_the_callers_stack() {
    let source = "function Sys.init 0\ncall Foo 0\nlabel END\ngoto END\n\
                  function Foo 0\npush constant 5\nreturn";
    let mut cpu = machine();
    let text = program(source);
    run_until(&mut cpu, &text, "Sys.init");
    let before = cpu.ram[0];
    let (lcl, arg, this, that) = (cpu.ram[1], cpu.ram[2], cpu.ram[3], cpu.ram[4]);
    let mut cpu = machine();
    run_until(&mut cpu, &text, "Main.Sys.init$END");
    assert_eq!(cpu.ram[0], before + 1);
    assert_eq!(cpu.ram[before as usize], 5);
    assert_eq!((cpu.ram[1], cpu.ram[2], cpu.ram[3], cpu.ram[4]), (lcl, arg, this, that));
}

#[test]
fn call_passes_arguments_and_return_replaces_them() {
    let source = "function Sys.init 0\npush constant 9\npush constant 30\npush constant 12\n\
                  call Main.diff 2\nlabel END\ngoto END\n\
                  function Main.diff 2\npush argument 0\npush argument 1\nsub\npop local 1\n\
                  push local 0\npop temp 0\npush local 1\nreturn";
    let mut cpu = machine();
    run_until(&mut cpu, &program(source), "Main.Sys.init$END");
    assert_eq!(cpu.ram[0], 263);
    assert_eq!(cpu.ram[261], 9);
    assert_eq!(cpu.ram[262], 18);
    assert_eq!(cpu.ram[5], 0);
}

#[test]
fn recursion_returns_to_each_call_site() {
    let source = "function Sys.init 0\npush constant 5\ncall Main.sum 1\nlabel END\ngoto END\n\
                  function Main.sum 0\npush argument 0\npush constant 0\neq\nif-goto BASE\n\
                  push argument 0\npush argument 0\npush constant 1\nsub\ncall Main.sum 1\nadd\nreturn\n\
                  label BASE\npush constant 0\nreturn";
    let mut cpu = machine();
    run_until(&mut cpu, &program(source), "Main.Sys.init$END");
    assert_eq!(cpu.ram[0], 262);
    assert_eq!(cpu.ram[261], 15);
}

#[test]
fn pushed_constant_ends_in_the_cell_popped_to() {
    let targets: [(&str, u16, usize); 12] = [
        ("local", 0, 300),
        ("local", 7, 307),
        ("argument", 2, 402),
        ("this", 255, 3255),
        ("that", 1, 4001),
        ("temp", 0, 5),
        ("temp", 7, 12),
        ("pointer", 0, 3),
        ("pointer", 1, 4),
        ("static", 0, 16),
        ("static", 9, 16),
        ("local", 13, 313),
    ];
    for (segment, offset, cell) in targets {
        for n in [0u16, 1, 42, 255] {
            let mut cpu = machine();
            cpu.ram[0] = 256;
            cpu.ram[1] = 300;
            cpu.ram[2] = 400;
            cpu.ram[3] = 3000;
            cpu.ram[4] = 4000;
            cpu.ram[cell] = 0x5555;
            let push = format!("push constant {}", n);
            let pop = format!("pop {} {}", segment, offset);
            run_through(&mut cpu, &fragments("Main", &[&push, &pop]));
            assert_eq!(cpu.ram[cell], n, "{} then {}", push, pop);
            assert_eq!(cpu.ram[0], 256, "{} then {}", push, pop);
        }
    }
}

#[test]
fn pop_to_a_cell_that_is_the_stack_pointer_moves_the_stack() {
    let mut cpu = machine();
    cpu.ram[0] = 256;
    cpu.ram[1] = 0;
    run_through(&mut cpu, &fragments("Main", &["push constant 42", "pop local 0"]));
    assert_eq!(cpu.ram[0], 42);
}

#[test]
fn what_is_popped_can_be_pushed_again() {
    for (segment, offset) in
        [("local", 3), ("argument", 0), ("this", 1), ("that", 2), ("temp", 4), ("pointer", 1), ("static", 5)]
    {
        let mut cpu = machine();
        cpu.ram[0] = 256;
        cpu.ram[1] = 300;
        cpu.ram[2] = 400;
        cpu.ram[3] = 3000;
        cpu.ram[4] = 4000;
        let pop = format!("pop {} {}", segment, offset);
        let push = format!("push {} {}", segment, offset);
        run_through(&mut cpu, &fragments("Main", &["push constant 77", &pop, &push, &push]));
        assert_eq!(cpu.ram[0], 258);
        assert_eq!(cpu.ram[256], 77);
        assert_eq!(cpu.ram[257], 77);
    }
}

#[test]
fn static_cells_of_two_modules_are_apart() {
    let text = fragments("A", &["push constant 1", "pop static 0"])
        + &fragments("B", &["push constant 2", "pop static 0", "push static 0"])
        + &fragments("A", &["push static 0"]);
    let mut cpu = machine();
    cpu.ram[0] = 256;
    let symbols = run_through(&mut cpu, &text);
    assert_ne!(symbols["A.0"], symbols["B.0"]);
    assert_eq!(cpu.ram[256], 2);
    assert_eq!(cpu.ram[257], 1);
}

#[test]
fn binary_operators_apply_lower_then_upper() {
    let cases: [(&str, u16, u16, u16); 8] = [
        ("add", 7, 8, 15),
        ("sub", 8, 7, 1),
        ("sub", 7, 8, 0xffff),
        ("and", 0b1100, 0b1010, 0b1000),
        ("or", 0b1100, 0b1010, 0b1110),
        ("add", 255, 255, 510),
        ("sub", 0, 255, 0xff01),
        ("and", 255, 0, 0),
    ];
    for (operation, lower, upper, expected) in cases {
        let mut cpu = machine();
        cpu.ram[0] = 256;
        let first = format!("push constant {}", lower);
        let second = format!("push constant {}", upper);
        run_through(&mut cpu, &fragments("Main", &[&first, &second, operation]));
        assert_eq!(cpu.ram[0], 257, "{} {} {}", lower, operation, upper);
        assert_eq!(cpu.ram[256], expected, "{} {} {}", lower, operation, upper);
    }
}

#[test]
fn binary_operators_wrap_around() {
    let mut cpu = machine();
    cpu.ram[0] = 258;
    cpu.ram[256] = 0xffff;
    cpu.ram[257] = 2;
    run_through(&mut cpu, &fragments("Main", &["add"]));
    assert_eq!(cpu.ram[0], 257);
    assert_eq!(cpu.ram[256], 1);
}

#[test]
fn unary_operators_work_in_place() {
    let mut cpu = machine();
    cpu.ram[0] = 256;
    run_through(&mut cpu, &fragments("Main", &["push constant 5", "neg"]));
    assert_eq!((cpu.ram[0], cpu.ram[256]), (257, 0xfffb));
    let mut cpu = machine();
    cpu.ram[0] = 256;
    run_through(&mut cpu, &fragments("Main", &["push constant 5", "not"]));
    assert_eq!((cpu.ram[0], cpu.ram[256]), (257, 0xfffa));
}

#[test]
fn comparisons_give_all_ones_or_zero() {
    let cases: [(&str, u16, u16, u16); 9] = [
        ("eq", 3, 3, 0xffff),
        ("eq", 3, 4, 0),
        ("gt", 4, 3, 0xffff),
        ("gt", 3, 4, 0),
        ("gt", 3, 3, 0),
        ("lt", 3, 4, 0xffff),
        ("lt", 4, 3, 0),
        ("lt", 3, 3, 0),
        ("eq", 0, 0, 0xffff),
    ];
    for (operation, lower, upper, expected) in cases {
        let mut cpu = machine();
        cpu.ram[0] = 256;
        let first = format!("push constant {}", lower);
        let second = format!("push constant {}", upper);
        run_through(&mut cpu, &fragments("Main", &[&first, &second, operation]));
        assert_eq!(cpu.ram[0], 257, "{} {} {}", lower, operation, upper);
        assert_eq!(cpu.ram[256], expected, "{} {} {}", lower, operation, upper);
    }
}

#[test]
fn if_goto_jumps_on_any_value_but_zero() {
    for (value, expected) in [(0u16, 1u16), (1, 2), (255, 2)] {
        let push = format!("push constant {}", value);
        let lines = [
            push.as_str(),
            "if-goto YES",
            "push constant 1",
            "goto END",
            "label YES",
            "push constant 2",
            "label END",
        ];
        let mut cpu = machine();
        cpu.ram[0] = 256;
        run_through(&mut cpu, &fragments("Main", &lines));
        assert_eq!(cpu.ram[0], 257);
        assert_eq!(cpu.ram[256], expected);
    }
}

#[test]
fn function_entry_zeroes_its_locals() {
    let mut cpu = machine();
    cpu.ram[0] = 256;
    cpu.ram[256] = 11;
    cpu.ram[257] = 12;
    cpu.ram[258] = 13;
    run_through(&mut cpu, &fragments("Main", &["function Main.f 2"]));
    assert_eq!(cpu.ram[0], 258);
    assert_eq!((cpu.ram[256], cpu.ram[257], cpu.ram[258]), (0, 0, 13));
}

#[test]
fn labels_of_two_functions_keep_their_jumps_apart() {
    let source = "function Sys.init 0\ncall Main.one 0\ncall Main.two 0\nlabel END\ngoto END\n\
                  function Main.one 0\ngoto OUT\npush constant 100\nreturn\nlabel OUT\npush constant 1\nreturn\n\
                  function Main.two 0\ngoto OUT\npush constant 100\nreturn\nlabel OUT\npush constant 2\nreturn";
    let mut cpu = machine();
    run_until(&mut cpu, &program(source), "Main.Sys.init$END");
    assert_eq!(cpu.ram[0], 263);
    assert_eq!((cpu.ram[261], cpu.ram[262]), (1, 2));
}
