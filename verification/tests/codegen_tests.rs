use basic_compiler::ast::{AssignTarget, BinaryOperator, Expression, Program, RealVar, Statement};
use basic_compiler::codegen::x86_64::CodeGeneratorX86_64;

fn lines(ls: &[&str]) -> String {
    let mut s = String::new();
    for l in ls {
        s.push_str(l);
        s.push('\n');
    }
    s
}

fn header() -> String {
    let mut s = lines(&[".section .data", ".align 8"]);
    for c in 'A'..'Z' {
        s.push_str(&format!("VAR_{}:\t.double 0.0\n", c));
    }
    s.push_str(&lines(&[
        "\n.section .bss",
        "\t.comm .LC_NUM_SCAN_BUF, 8, 8",
        "\n.section .text",
        "\t.global main",
        "main:",
        "\tpush %rbp",
        "\tmov %rsp, %rbp",
    ]));
    s
}

fn footer(extra_strings: &[(&str, &str)], numbers: &[(&str, &str)]) -> String {
    let mut s = lines(&["\tmov %rbp, %rsp", "\tpop %rbp", "\tmov $0, %rax", "\tret", "\n.section .rodata"]);
    let mut strings = vec![(".LC_NUM_PRINT_FMT", "%f\\n"), (".LC_STR_PRINT_FMT", "%s\\n"), (".LC_NUM_SCAN_FMT", "%lf")];
    strings.extend_from_slice(extra_strings);
    for (l, v) in strings {
        s.push_str(&format!("{}:\n\t.string \"{}\"\n", l, v));
    }
    s.push_str(".align 8\n");
    let mut all = vec![(".LC0", "1")];
    all.extend_from_slice(numbers);
    for (l, v) in all {
        s.push_str(&format!("{}:\n\t.double {}\n", l, v));
    }
    s
}

fn program(statements: Vec<Statement>) -> Program {
    let mut p = Program::new();
    for s in statements {
        p.add_statement(s);
    }
    p
}

fn num(s: &str) -> Expression {
    Expression::NumberLiteral(s.to_string())
}

#[test]
fn empty_program() {
    let text = CodeGeneratorX86_64::gen_asm(Program::new());
    assert_eq!(text, header() + &footer(&[], &[]));
}

#[test]
fn display_a_number() {
    let text = CodeGeneratorX86_64::gen_asm(program(vec![Statement::Display(Some(num("2.5")))]));
    let body = lines(&[
        "\tmovsd .LC1(%rip), %xmm0",
        "\tsubq $16, %rsp",
        "\tmovsd %xmm0, (%rsp)",
        "# Evaluated: 2.5",
        "\tmovsd (%rsp), %xmm0",
        "\taddq $16, %rsp",
        "\tlea .LC_NUM_PRINT_FMT(%rip), %rdi",
        "\tmov $1, %al",
        "\tcall printf",
        "# Printed a number",
    ]);
    assert_eq!(text, header() + &body + &footer(&[], &[(".LC1", "2.5")]));
}

#[test]
fn display_a_string_and_an_error() {
    let text = CodeGeneratorX86_64::gen_asm(program(vec![
        Statement::Display(Some(Expression::StringLiteral("hi".to_string()))),
        Statement::Display(Some(Expression::Unary {
            op: basic_compiler::ast::UnaryOperator::Negative,
            operand: Box::new(num("1")),
        })),
        Statement::Display(None),
    ]));
    let body = lines(&[
        "\tlea .LC1(%rip), %rax",
        "\tpush %rax",
        "# Evaluated: \"hi\"",
        "\tpop %rsi",
        "\tlea .LC_STR_PRINT_FMT(%rip), %rdi",
        "\tmov $0, %al",
        "\tcall printf",
        "# Printed a string",
        "# Error: Expression is none.",
    ]);
    assert_eq!(text, header() + &body + &footer(&[(".LC1", "hi")], &[]));
}

#[test]
fn assign_a_sum() {
    let text = CodeGeneratorX86_64::gen_asm(program(vec![Statement::Assign {
        target: AssignTarget::RealVariable(RealVar::C),
        source: Expression::Binary {
            op: BinaryOperator::Add,
            left: Box::new(Expression::RealVariable(RealVar::A)),
            right: Box::new(num("3")),
        },
    }]));
    let body = lines(&[
        "\tmovsd VAR_A(%rip), %xmm0",
        "\tsubq $16, %rsp",
        "\tmovsd %xmm0, (%rsp)",
        "# Read variable: A",
        "\tmovsd .LC1(%rip), %xmm0",
        "\tsubq $16, %rsp",
        "\tmovsd %xmm0, (%rsp)",
        "# Evaluated: 3",
        "\tmovsd (%rsp), %xmm0",
        "\taddq $16, %rsp",
        "\tmovsd (%rsp), %xmm1",
        "\taddq $16, %rsp",
        "\taddsd %xmm0, %xmm1",
        "\tsubq $16, %rsp",
        "\tmovsd %xmm1, (%rsp)",
        "# Evaluated: Add",
        "\tmovsd (%rsp), %xmm0",
        "\taddq $16, %rsp",
        "\tmovsd %xmm0, VAR_C(%rip)",
        "# Wrote to variable C",
    ]);
    assert_eq!(text, header() + &body + &footer(&[], &[(".LC1", "3")]));
}

#[test]
fn operators_without_code_give_no_value() {
    let text = CodeGeneratorX86_64::gen_asm(program(vec![Statement::Display(Some(Expression::Binary {
        op: BinaryOperator::Less,
        left: Box::new(num("1")),
        right: Box::new(num("2")),
    }))]));
    let body = lines(&[
        "\tmovsd .LC1(%rip), %xmm0",
        "\tsubq $16, %rsp",
        "\tmovsd %xmm0, (%rsp)",
        "# Evaluated: 1",
        "\tmovsd .LC2(%rip), %xmm0",
        "\tsubq $16, %rsp",
        "\tmovsd %xmm0, (%rsp)",
        "# Evaluated: 2",
        "\tmovsd (%rsp), %xmm0",
        "\taddq $16, %rsp",
        "\tmovsd (%rsp), %xmm1",
        "\taddq $16, %rsp",
        "# Error: Expression is none.",
    ]);
    assert_eq!(text, header() + &body + &footer(&[], &[(".LC1", "1"), (".LC2", "2")]));
}

#[test]
fn equality_uses_the_constant_one() {
    let text = CodeGeneratorX86_64::gen_asm(program(vec![Statement::Assign {
        target: AssignTarget::RealVariable(RealVar::A),
        source: Expression::Binary {
            op: BinaryOperator::Equal,
            left: Box::new(Expression::RealVariable(RealVar::B)),
            right: Box::new(Expression::RealVariable(RealVar::B)),
        },
    }]));
    assert!(text.contains("\tcmpsd $0, %xmm0, %xmm1\n\tmovsd .LC0(%rip), %xmm2\n\tandpd %xmm2, %xmm1\n"));
    assert!(text.contains("# Evaluated: Equal\n"));
}

#[test]
fn if_statement_with_labels() {
    let text = CodeGeneratorX86_64::gen_asm(program(vec![Statement::If {
        condition: Expression::RealVariable(RealVar::A),
        consequence: vec![Statement::Prompt(AssignTarget::RealVariable(RealVar::B))],
        alternative: vec![],
    }]));
    let body = lines(&[
        "\tmovsd VAR_A(%rip), %xmm0",
        "\tsubq $16, %rsp",
        "\tmovsd %xmm0, (%rsp)",
        "# Read variable: A",
        "\tmovsd (%rsp), %xmm0",
        "\taddq $16, %rsp",
        "# If statement:",
        "\txorpd %xmm1, %xmm1",
        "\tcomisd %xmm0, %xmm1",
        "\tje .L0",
        "# Then block:",
        "\tleaq .LC_NUM_SCAN_FMT(%rip), %rdi",
        "\tleaq .LC_NUM_SCAN_BUF(%rip), %rsi",
        "\tmovb $0, %al",
        "\tcall scanf",
        "\tmovsd .LC_NUM_SCAN_BUF(%rip), %xmm0",
        "\tmovsd %xmm0, VAR_B(%rip)",
        "\tjmp .L1",
        "# Else block:",
        ".L0:",
        "# Done:",
        ".L1:",
    ]);
    assert_eq!(text, header() + &body + &footer(&[], &[]));
}

#[test]
fn for_loop_with_default_step() {
    let text = CodeGeneratorX86_64::gen_asm(program(vec![Statement::For {
        variable: RealVar::I,
        min: num("1"),
        max: num("3"),
        step: None,
        body: vec![],
    }]));
    let body = lines(&[
        "\tmovsd .LC1(%rip), %xmm0",
        "\tsubq $16, %rsp",
        "\tmovsd %xmm0, (%rsp)",
        "# Evaluated: 1",
        "\tmovsd (%rsp), %xmm0",
        "\taddq $16, %rsp",
        "\tmovsd %xmm0, VAR_I(%rip)",
        "\tmovsd .LC2(%rip), %xmm0",
        "\tsubq $16, %rsp",
        "\tmovsd %xmm0, (%rsp)",
        "# Evaluated: 3",
        "\tmovsd (%rsp), %xmm3",
        "\taddq $16, %rsp",
        "\tsubq $48, %rsp",
        "\tmovsd %xmm3, 32(%rsp)",
        "\tmovsd .LC0(%rip), %xmm4",
        "\tmovsd %xmm4, 16(%rsp)",
        "\tmovl $0, 0(%rsp)",
        "\tjmp .L1",
        "# Starting for loop by jumping to check",
        ".L0:",
        "# Incrementation",
        "\tmovsd 16(%rsp), %xmm4",
        "\tmovsd VAR_I(%rip), %xmm0",
        "\taddsd %xmm4, %xmm0",
        "\tmovsd %xmm0, VAR_I(%rip)",
        "# Loop checking",
        ".L1:",
        "\tmovl 0(%rsp), %eax",
        "\ttest %eax, %eax",
        "\tjnz .L2",
        "\tmovsd 32(%rsp), %xmm3",
        "\tmovsd VAR_I(%rip), %xmm0",
        "\tcomisd %xmm0, %xmm3",
        "\tjae .L0",
        "\tjmp .L3",
        ".L2:",
        "\tmovsd 32(%rsp), %xmm3",
        "\tmovsd VAR_I(%rip), %xmm0",
        "\tcomisd %xmm3, %xmm0",
        "\tjae .L0",
        ".L3:",
        "\taddq $48, %rsp",
        "# Loop done",
    ]);
    assert_eq!(text, header() + &body + &footer(&[], &[(".LC1", "1"), (".LC2", "3")]));
}

#[test]
fn for_loop_with_a_step_and_a_string_bound() {
    let text = CodeGeneratorX86_64::gen_asm(program(vec![Statement::For {
        variable: RealVar::J,
        min: Expression::StringLiteral("s".to_string()),
        max: num("3"),
        step: Some(Expression::Unary { op: basic_compiler::ast::UnaryOperator::Negative, operand: Box::new(num("1")) }),
        body: vec![],
    }]));
    // A string start value is stored like a number; a step that gives no type ends the loop's code.
    let body = lines(&[
        "\tlea .LC1(%rip), %rax",
        "\tpush %rax",
        "# Evaluated: \"s\"",
        "\tmovsd (%rsp), %xmm0",
        "\taddq $16, %rsp",
        "\tmovsd %xmm0, VAR_J(%rip)",
        "\tmovsd .LC2(%rip), %xmm0",
        "\tsubq $16, %rsp",
        "\tmovsd %xmm0, (%rsp)",
        "# Evaluated: 3",
        "\tmovsd (%rsp), %xmm3",
        "\taddq $16, %rsp",
        "\tsubq $48, %rsp",
        "\tmovsd %xmm3, 32(%rsp)",
    ]);
    assert_eq!(text, header() + &body + &footer(&[(".LC1", "s")], &[(".LC2", "3")]));
}

#[test]
fn labels_past_nine_have_two_digits() {
    let mut statements = vec![];
    for _ in 0..11 {
        statements.push(Statement::Display(Some(num("7"))));
    }
    let text = CodeGeneratorX86_64::gen_asm(program(statements));
    assert!(text.contains("\tmovsd .LC11(%rip), %xmm0\n"));
    assert!(text.contains(".LC10:\n\t.double 7\n"));
}

#[test]
fn new_generator_is_empty() {
    let _ = CodeGeneratorX86_64::new();
}

#[test]
fn code_of_joined_lists_is_joined_code() {
    let prompt = |v| Statement::Prompt(AssignTarget::RealVariable(v));
    let both = CodeGeneratorX86_64::gen_asm(program(vec![prompt(RealVar::A), prompt(RealVar::B)]));
    let first = CodeGeneratorX86_64::gen_asm(program(vec![prompt(RealVar::A)]));
    let second = CodeGeneratorX86_64::gen_asm(program(vec![prompt(RealVar::B)]));
    let h = header();
    let f = footer(&[], &[]);
    let body = |t: &str| t[h.len()..t.len() - f.len()].to_string();
    assert_eq!(body(&both), body(&first) + &body(&second));
    assert!(both.starts_with(&h));
}

#[test]
fn equal_literals_get_labels_of_their_own() {
    let text = CodeGeneratorX86_64::gen_asm(program(vec![
        Statement::Display(Some(Expression::StringLiteral("x".to_string()))),
        Statement::Display(Some(num("2"))),
        Statement::Display(Some(Expression::StringLiteral("x".to_string()))),
    ]));
    let rodata = text.split(".section .rodata").nth(1).unwrap();
    assert!(rodata.contains(".LC1:\n\t.string \"x\"\n"));
    assert!(rodata.contains(".LC3:\n\t.string \"x\"\n"));
    assert!(rodata.contains(".LC2:\n\t.double 2\n"));
    let labels: Vec<&str> = rodata.lines().filter(|l| l.ends_with(':')).collect();
    for i in 0..labels.len() {
        for j in (i + 1)..labels.len() {
            assert_ne!(labels[i], labels[j]);
        }
    }
    assert_eq!(labels.len(), 7);
}

#[test]
fn generator_can_be_shown() {
    let shown = format!("{:?}", CodeGeneratorX86_64::new());
    assert!(shown.starts_with("CodeGeneratorX86_64"));
}
