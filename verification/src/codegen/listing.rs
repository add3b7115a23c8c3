use vstd::prelude::*;
use crate::ast::{AssignTarget, BinaryOperator, Expression, RealVar, Statement, UnaryOperator, letter_of};
use crate::text::{decimal, lemma_decimal_first, lemma_decimal_injective, lemma_decimal_len};
use crate::types::Type;

verus! {

// The assembly text that the code generator writes, stated line by line.
//
// The generator's state is its text so far, its two label counters, and the
// literals that it has given labels: strings, and numbers with the text that
// denotes their value.

/// The code generator's state as the contracts speak of it.
pub struct GenView {
    pub text: Seq<char>,
    pub text_labels: nat,
    pub data_labels: nat,
    pub strings: Seq<(Seq<char>, Seq<char>)>,
    pub numbers: Seq<(Seq<char>, Seq<char>)>,
}

/// The state after writing one line.
pub open spec fn emit(m: GenView, line: Seq<char>) -> GenView {
    GenView { text: m.text + line + seq!['\n'], ..m }
}

/// The name of the `n`th label in the text section.
pub open spec fn text_label(n: nat) -> Seq<char> {
    ".L"@ + decimal(n)
}

/// The name of the `n`th label in the data sections.
pub open spec fn data_label(n: nat) -> Seq<char> {
    ".LC"@ + decimal(n)
}

/// A fresh text label, and the state after taking it.
pub open spec fn new_text_label(m: GenView) -> (GenView, Seq<char>) {
    (GenView { text_labels: m.text_labels + 1, ..m }, text_label(m.text_labels))
}

/// A fresh data label for the string `val`, and the state after taking it.
pub open spec fn new_str_label(m: GenView, val: Seq<char>) -> (GenView, Seq<char>) {
    let l = data_label(m.data_labels);
    (GenView { data_labels: m.data_labels + 1, strings: m.strings.push((l, val)), ..m }, l)
}

/// A fresh data label for the number denoted by `val`, and the state after taking it.
pub open spec fn new_number_label(m: GenView, val: Seq<char>) -> (GenView, Seq<char>) {
    let l = data_label(m.data_labels);
    (GenView { data_labels: m.data_labels + 1, numbers: m.numbers.push((l, val)), ..m }, l)
}

/// The letter of a variable, as text.
pub open spec fn var_text(v: RealVar) -> Seq<char> {
    seq![letter_of(v)]
}

/// The variable that an assignment target names.
pub open spec fn target_var(t: AssignTarget) -> RealVar {
    match t {
        AssignTarget::RealVariable(v) => v,
    }
}

/// Loads a number literal's constant and pushes it.
pub open spec fn g_num_lit(m: GenView, val: Seq<char>) -> (GenView, Option<Type>) {
    let (m, label) = new_number_label(m, val);
    let m = emit(m, "\tmovsd "@ + label + "(%rip), %xmm0"@);
    let m = emit(m, "\tsubq $16, %rsp"@);
    let m = emit(m, "\tmovsd %xmm0, (%rsp)"@);
    let m = emit(m, "# Evaluated: "@ + val);
    (m, Some(Type::Number))
}

/// Pushes the address of a string literal.
pub open spec fn g_str_lit(m: GenView, val: Seq<char>) -> (GenView, Option<Type>) {
    let (m, label) = new_str_label(m, val);
    let m = emit(m, "\tlea "@ + label + "(%rip), %rax"@);
    let m = emit(m, "\tpush %rax"@);
    let m = emit(m, "# Evaluated: \""@ + val + "\""@);
    (m, Some(Type::Str))
}

/// Loads a variable and pushes it.
pub open spec fn g_real_var(m: GenView, v: RealVar) -> (GenView, Option<Type>) {
    let m = emit(m, "\tmovsd VAR_"@ + var_text(v) + "(%rip), %xmm0"@);
    let m = emit(m, "\tsubq $16, %rsp"@);
    let m = emit(m, "\tmovsd %xmm0, (%rsp)"@);
    let m = emit(m, "# Read variable: "@ + var_text(v));
    (m, Some(Type::Number))
}

/// The instruction for a binary operator, for the operators that have one.
pub open spec fn op_instruction(op: BinaryOperator) -> Option<Seq<char>> {
    match op {
        BinaryOperator::Add => Some("\taddsd %xmm0, %xmm1"@),
        BinaryOperator::Sub => Some("\tsubsd %xmm0, %xmm1"@),
        BinaryOperator::Mul => Some("\tmulsd %xmm0, %xmm1"@),
        BinaryOperator::Div => Some("\tdivsd %xmm0, %xmm1"@),
        BinaryOperator::Equal => Some(
            "\tcmpsd $0, %xmm0, %xmm1\n\tmovsd .LC0(%rip), %xmm2\n\tandpd %xmm2, %xmm1"@,
        ),
        _ => None,
    }
}

/// The comment that closes the code of a binary operator.
pub open spec fn op_comment(op: BinaryOperator) -> Seq<char> {
    match op {
        BinaryOperator::Add => "# Evaluated: Add"@,
        BinaryOperator::Sub => "# Evaluated: Sub"@,
        BinaryOperator::Mul => "# Evaluated: Mul"@,
        BinaryOperator::Div => "# Evaluated: Div"@,
        _ => "# Evaluated: Equal"@,
    }
}

/// Pops both operands, applies the operator and pushes the result. An
/// operator without an instruction leaves the operands popped and gives no type.
pub open spec fn g_bin_tail(m: GenView, op: BinaryOperator) -> (GenView, Option<Type>) {
    let m = emit(m, "\tmovsd (%rsp), %xmm0"@);
    let m = emit(m, "\taddq $16, %rsp"@);
    let m = emit(m, "\tmovsd (%rsp), %xmm1"@);
    let m = emit(m, "\taddq $16, %rsp"@);
    match op_instruction(op) {
        None => (m, None),
        Some(ins) => {
            let m = emit(m, ins);
            let m = emit(m, "\tsubq $16, %rsp"@);
            let m = emit(m, "\tmovsd %xmm1, (%rsp)"@);
            let m = emit(m, op_comment(op));
            (m, Some(Type::Number))
        },
    }
}

/// The code of an expression, which leaves its value on the stack, and the
/// value's type; no type where the expression cannot be compiled (a unary
/// operator, a string operand, an operator without an instruction).
pub open spec fn g_expr(m: GenView, e: Expression) -> (GenView, Option<Type>)
    decreases e,
{
    match e {
        Expression::Binary { op, left, right } => {
            let (m1, lt) = g_expr(m, *left);
            if lt != Some(Type::Number) {
                (m1, None)
            } else {
                let (m2, rt) = g_expr(m1, *right);
                if rt != Some(Type::Number) {
                    (m2, None)
                } else {
                    g_bin_tail(m2, op)
                }
            }
        },
        Expression::Unary { .. } => (m, None),
        Expression::NumberLiteral(x) => g_num_lit(m, x@),
        Expression::StringLiteral(x) => g_str_lit(m, x@),
        Expression::RealVariable(v) => g_real_var(m, v),
        Expression::Grouping(b) => g_expr(m, *b),
    }
}

/// Pops a number and prints it.
pub open spec fn g_num_disp(m: GenView) -> GenView {
    let m = emit(m, "\tmovsd (%rsp), %xmm0"@);
    let m = emit(m, "\taddq $16, %rsp"@);
    let m = emit(m, "\tlea .LC_NUM_PRINT_FMT(%rip), %rdi"@);
    let m = emit(m, "\tmov $1, %al"@);
    let m = emit(m, "\tcall printf"@);
    emit(m, "# Printed a number"@)
}

/// Pops a string's address and prints the string.
pub open spec fn g_str_disp(m: GenView) -> GenView {
    let m = emit(m, "\tpop %rsi"@);
    let m = emit(m, "\tlea .LC_STR_PRINT_FMT(%rip), %rdi"@);
    let m = emit(m, "\tmov $0, %al"@);
    let m = emit(m, "\tcall printf"@);
    emit(m, "# Printed a string"@)
}

/// Prints the value of an expression, if there is one.
pub open spec fn g_disp(m: GenView, val: Option<Expression>) -> GenView {
    match val {
        Some(e) => {
            let (m, t) = g_expr(m, e);
            match t {
                Some(Type::Number) => g_num_disp(m),
                Some(Type::Str) => g_str_disp(m),
                None => emit(m, "# Error: Expression is none."@),
            }
        },
        None => m,
    }
}

/// Reads a number into a variable.
pub open spec fn g_prompt(m: GenView, target: AssignTarget) -> GenView {
    let m = emit(m, "\tleaq .LC_NUM_SCAN_FMT(%rip), %rdi"@);
    let m = emit(m, "\tleaq .LC_NUM_SCAN_BUF(%rip), %rsi"@);
    let m = emit(m, "\tmovb $0, %al"@);
    let m = emit(m, "\tcall scanf"@);
    let m = emit(m, "\tmovsd .LC_NUM_SCAN_BUF(%rip), %xmm0"@);
    emit(m, "\tmovsd %xmm0, VAR_"@ + var_text(target_var(target)) + "(%rip)"@)
}

/// Stores the number in `%xmm0` into a variable.
pub open spec fn g_assign_target(m: GenView, target: AssignTarget) -> GenView {
    let c = var_text(target_var(target));
    let m = emit(m, "\tmovsd %xmm0, VAR_"@ + c + "(%rip)"@);
    emit(m, "# Wrote to variable "@ + c)
}

/// Evaluates a number and stores it into a variable; nothing more for other values.
pub open spec fn g_assign(m: GenView, target: AssignTarget, source: Expression) -> GenView {
    let (m, t) = g_expr(m, source);
    if t != Some(Type::Number) {
        m
    } else {
        let m = emit(m, "\tmovsd (%rsp), %xmm0"@);
        let m = emit(m, "\taddq $16, %rsp"@);
        g_assign_target(m, target)
    }
}

/// The test of an `If`, up to its `Then` block: the state, the else label
/// and the done label; `None` where the condition is not a number.
pub open spec fn g_if_head(m: GenView, condition: Expression) -> Option<(GenView, Seq<char>, Seq<char>)> {
    let (m, t) = g_expr(m, condition);
    if t != Some(Type::Number) {
        None
    } else {
        let m = emit(m, "\tmovsd (%rsp), %xmm0"@);
        let m = emit(m, "\taddq $16, %rsp"@);
        let m = emit(m, "# If statement:"@);
        let m = emit(m, "\txorpd %xmm1, %xmm1"@);
        let m = emit(m, "\tcomisd %xmm0, %xmm1"@);
        let (m, false_label) = new_text_label(m);
        let (m, done_label) = new_text_label(m);
        let m = emit(m, "\tje "@ + false_label);
        let m = emit(m, "# Then block:"@);
        Some((m, false_label, done_label))
    }
}

/// The code between the `Then` block and the `Else` block.
pub open spec fn g_if_middle(m: GenView, false_label: Seq<char>, done_label: Seq<char>) -> GenView {
    let m = emit(m, "\tjmp "@ + done_label);
    let m = emit(m, "# Else block:"@);
    emit(m, false_label + ":"@)
}

/// The code after the `Else` block.
pub open spec fn g_if_tail(m: GenView, done_label: Seq<char>) -> GenView {
    let m = emit(m, "# Done:"@);
    emit(m, done_label + ":"@)
}

/// The labels of a `For` loop: body, check, backward case, done.
pub struct LoopLabels {
    pub body: Seq<char>,
    pub check: Seq<char>,
    pub neg: Seq<char>,
    pub done: Seq<char>,
}

/// Sets the loop variable to the start value, saves the end value, and sets
/// up the step.
pub open spec fn g_for_bounds(
    m: GenView,
    v: RealVar,
    min: Expression,
    max: Expression,
    step: Option<Expression>,
) -> Option<GenView> {
    let c = var_text(v);
    let (m, t) = g_expr(m, min);
    if t is None {
        None
    } else {
        let m = emit(m, "\tmovsd (%rsp), %xmm0"@);
        let m = emit(m, "\taddq $16, %rsp"@);
        let m = emit(m, "\tmovsd %xmm0, VAR_"@ + c + "(%rip)"@);
        let (m, t) = g_expr(m, max);
        if t is None {
            None
        } else {
            let m = emit(m, "\tmovsd (%rsp), %xmm3"@);
            let m = emit(m, "\taddq $16, %rsp"@);
            let m = emit(m, "\tsubq $48, %rsp"@);
            let m = emit(m, "\tmovsd %xmm3, 32(%rsp)"@);
            match step {
                Some(e) => {
                    let (m, t) = g_expr(m, e);
                    if t is None {
                        None
                    } else {
                        let m = emit(m, "\tmovsd (%rsp), %xmm4"@);
                        let m = emit(m, "\taddq $16, %rsp"@);
                        let m = emit(m, "\tmovsd %xmm4, 16(%rsp)"@);
                        let m = emit(m, "\tmovmskpd %xmm4, %eax"@);
                        let m = emit(m, "\tand $1, %eax"@);
                        Some(emit(m, "\tmovl %eax, 0(%rsp)"@))
                    }
                },
                None => {
                    let m = emit(m, "\tmovsd .LC0(%rip), %xmm4"@);
                    let m = emit(m, "\tmovsd %xmm4, 16(%rsp)"@);
                    Some(emit(m, "\tmovl $0, 0(%rsp)"@))
                },
            }
        }
    }
}

/// The labels of a loop, and the code up to its body.
pub open spec fn g_for_entry(m: GenView) -> (GenView, LoopLabels) {
    let (m, body) = new_text_label(m);
    let (m, check) = new_text_label(m);
    let (m, neg) = new_text_label(m);
    let (m, done) = new_text_label(m);
    let m = emit(m, "\tjmp "@ + check);
    let m = emit(m, "# Starting for loop by jumping to check"@);
    let m = emit(m, body + ":"@);
    (m, LoopLabels { body, check, neg, done })
}

/// The step and the check that follow a loop's body.
pub open spec fn g_for_exit(m: GenView, v: RealVar, l: LoopLabels) -> GenView {
    let c = var_text(v);
    let m = emit(m, "# Incrementation"@);
    let m = emit(m, "\tmovsd 16(%rsp), %xmm4"@);
    let m = emit(m, "\tmovsd VAR_"@ + c + "(%rip), %xmm0"@);
    let m = emit(m, "\taddsd %xmm4, %xmm0"@);
    let m = emit(m, "\tmovsd %xmm0, VAR_"@ + c + "(%rip)"@);
    let m = emit(m, "# Loop checking"@);
    let m = emit(m, l.check + ":"@);
    let m = emit(m, "\tmovl 0(%rsp), %eax"@);
    let m = emit(m, "\ttest %eax, %eax"@);
    let m = emit(m, "\tjnz "@ + l.neg);
    let m = emit(m, "\tmovsd 32(%rsp), %xmm3"@);
    let m = emit(m, "\tmovsd VAR_"@ + c + "(%rip), %xmm0"@);
    let m = emit(m, "\tcomisd %xmm0, %xmm3"@);
    let m = emit(m, "\tjae "@ + l.body);
    let m = emit(m, "\tjmp "@ + l.done);
    let m = emit(m, l.neg + ":"@);
    let m = emit(m, "\tmovsd 32(%rsp), %xmm3"@);
    let m = emit(m, "\tmovsd VAR_"@ + c + "(%rip), %xmm0"@);
    let m = emit(m, "\tcomisd %xmm3, %xmm0"@);
    let m = emit(m, "\tjae "@ + l.body);
    let m = emit(m, l.done + ":"@);
    let m = emit(m, "\taddq $48, %rsp"@);
    emit(m, "# Loop done"@)
}

/// The code of a statement.
pub open spec fn g_stmt(m: GenView, s: Statement) -> GenView
    decreases s,
{
    match s {
        Statement::Display(val) => g_disp(m, val),
        Statement::Prompt(target) => g_prompt(m, target),
        Statement::Assign { target, source } => g_assign(m, target, source),
        Statement::If { condition, consequence, alternative } => match g_if_head(m, condition) {
            None => g_expr(m, condition).0,
            Some((m, false_label, done_label)) => {
                let m = g_stmts(m, consequence@);
                let m = g_if_middle(m, false_label, done_label);
                let m = g_stmts(m, alternative@);
                g_if_tail(m, done_label)
            },
        },
        Statement::For { variable, min, max, step, body } => match g_for_bounds(
            m,
            variable,
            min,
            max,
            step,
        ) {
            None => g_for_stopped(m, variable, min, max, step),
            Some(m) => {
                let (m, labels) = g_for_entry(m);
                let m = g_stmts(m, body@);
                g_for_exit(m, variable, labels)
            },
        },
    }
}

/// The code of a statement list, in order.
pub open spec fn g_stmts(m: GenView, ss: Seq<Statement>) -> GenView
    decreases ss,
{
    if ss.len() == 0 {
        m
    } else {
        g_stmts(g_stmt(m, ss[0]), ss.drop_first())
    }
}

/// What a `For` loop writes before it stops, when one of its bounds or its
/// step gives no type: the code up to that expression.
pub open spec fn g_for_stopped(
    m: GenView,
    v: RealVar,
    min: Expression,
    max: Expression,
    step: Option<Expression>,
) -> GenView {
    let c = var_text(v);
    let (m, t) = g_expr(m, min);
    if t is None {
        m
    } else {
        let m = emit(m, "\tmovsd (%rsp), %xmm0"@);
        let m = emit(m, "\taddq $16, %rsp"@);
        let m = emit(m, "\tmovsd %xmm0, VAR_"@ + c + "(%rip)"@);
        let (m, t) = g_expr(m, max);
        if t is None {
            m
        } else {
            let m = emit(m, "\tmovsd (%rsp), %xmm3"@);
            let m = emit(m, "\taddq $16, %rsp"@);
            let m = emit(m, "\tsubq $48, %rsp"@);
            let m = emit(m, "\tmovsd %xmm3, 32(%rsp)"@);
            match step {
                Some(e) => g_expr(m, e).0,
                None => m,
            }
        }
    }
}

/// The text section's program: a `main` that runs the statements and returns 0.
pub open spec fn g_program(m: GenView, ss: Seq<Statement>) -> GenView {
    let m = emit(m, "main:"@);
    let m = emit(m, "\tpush %rbp"@);
    let m = emit(m, "\tmov %rsp, %rbp"@);
    let m = g_stmts(m, ss);
    let m = emit(m, "\tmov %rbp, %rsp"@);
    let m = emit(m, "\tpop %rbp"@);
    let m = emit(m, "\tmov $0, %rax"@);
    emit(m, "\tret"@)
}

/// One zeroed slot for each variable whose letter comes from `b` up to, but not including, `Z`.
pub open spec fn g_var_slots(m: GenView, b: int) -> GenView
    decreases 90 - b,
{
    if b >= 90 {
        m
    } else {
        g_var_slots(emit(m, "VAR_"@ + seq![b as char] + ":\t.double 0.0"@), b + 1)
    }
}

/// The data section: a slot for each variable from `A` to `Y`.
pub open spec fn g_data_section(m: GenView) -> GenView {
    let m = emit(m, ".section .data"@);
    let m = emit(m, ".align 8"@);
    g_var_slots(m, 65)
}

/// The bss section: a buffer for reading numbers.
pub open spec fn g_bss_section(m: GenView) -> GenView {
    let m = emit(m, "\n.section .bss"@);
    emit(m, "\t.comm .LC_NUM_SCAN_BUF, 8, 8"@)
}

/// The text section.
pub open spec fn g_text_section(m: GenView, ss: Seq<Statement>) -> GenView {
    let m = emit(m, "\n.section .text"@);
    let m = emit(m, "\t.global main"@);
    g_program(m, ss)
}

/// A label and a `.string` line for each string.
pub open spec fn g_string_entries(m: GenView, es: Seq<(Seq<char>, Seq<char>)>) -> GenView
    decreases es.len(),
{
    if es.len() == 0 {
        m
    } else {
        let m = emit(m, es[0].0 + ":"@);
        let m = emit(m, "\t.string \""@ + es[0].1 + "\""@);
        g_string_entries(m, es.drop_first())
    }
}

/// A label and a `.double` line for each number.
pub open spec fn g_number_entries(m: GenView, es: Seq<(Seq<char>, Seq<char>)>) -> GenView
    decreases es.len(),
{
    if es.len() == 0 {
        m
    } else {
        let m = emit(m, es[0].0 + ":"@);
        let m = emit(m, "\t.double "@ + es[0].1);
        g_number_entries(m, es.drop_first())
    }
}

/// The read-only data section: the strings, then the numbers.
pub open spec fn g_rodata_section(m: GenView) -> GenView {
    let m = emit(m, "\n.section .rodata"@);
    let m = g_string_entries(m, m.strings);
    let m = emit(m, ".align 8"@);
    g_number_entries(m, m.numbers)
}

/// The generator's state before it starts.
pub open spec fn fresh() -> GenView {
    GenView {
        text: Seq::empty(),
        text_labels: 0,
        data_labels: 0,
        strings: Seq::empty(),
        numbers: Seq::empty(),
    }
}

/// The literals that every program has: the formats for printing and
/// reading, and the constant 1 (which takes the label `.LC0`).
pub open spec fn g_setup(m: GenView) -> GenView {
    let m = GenView {
        strings: m.strings.push((".LC_NUM_PRINT_FMT"@, "%f\\n"@)).push(
            (".LC_STR_PRINT_FMT"@, "%s\\n"@),
        ).push((".LC_NUM_SCAN_FMT"@, "%lf"@)),
        ..m
    };
    new_number_label(m, "1"@).0
}

/// The whole assembly text for a program with the statements `ss`.
pub open spec fn listing_text(ss: Seq<Statement>) -> Seq<char> {
    let m = g_setup(fresh());
    let m = g_data_section(m);
    let m = g_bss_section(m);
    let m = g_text_section(m, ss);
    g_rodata_section(m).text
}

// The bound on the labels that a program takes.

/// The number of nodes of an expression.
pub open spec fn expr_size(e: Expression) -> nat
    decreases e,
{
    match e {
        Expression::Binary { left, right, .. } => 1 + expr_size(*left) + expr_size(*right),
        Expression::Unary { operand, .. } => 1 + expr_size(*operand),
        Expression::Grouping(b) => 1 + expr_size(*b),
        _ => 1,
    }
}

pub open spec fn opt_size(e: Option<Expression>) -> nat {
    match e {
        Some(x) => expr_size(x),
        None => 0,
    }
}

/// The number of nodes of a statement.
pub open spec fn stmt_size(s: Statement) -> nat
    decreases s,
{
    match s {
        Statement::Display(val) => 1 + opt_size(val),
        Statement::Prompt(_) => 1,
        Statement::Assign { source, .. } => 1 + expr_size(source),
        Statement::If { condition, consequence, alternative } => 1 + expr_size(condition)
            + stmts_size(consequence@) + stmts_size(alternative@),
        Statement::For { min, max, step, body, .. } => 1 + expr_size(min) + expr_size(max) + opt_size(
            step,
        ) + stmts_size(body@),
    }
}

/// The number of nodes of a statement list.
pub open spec fn stmts_size(ss: Seq<Statement>) -> nat
    decreases ss,
{
    if ss.len() == 0 {
        0
    } else {
        stmt_size(ss[0]) + stmts_size(ss.drop_first())
    }
}

/// Whether `m` has room for the labels of code with `size` nodes: each node
/// takes at most four text labels and one data label.
pub open spec fn room_for(m: GenView, size: nat) -> bool {
    &&& m.text_labels + 4 * size <= usize::MAX
    &&& m.data_labels + size <= usize::MAX
}

// ---------------------------------------------------------------------------
// Laws of the code generator.
// ---------------------------------------------------------------------------

/// Labels with different numbers have different names, in the text section
/// and in the data sections alike, and no text label is a data label.
pub proof fn lemma_labels_distinct(a: nat, b: nat)
    ensures
        text_label(a) == text_label(b) ==> a == b,
        data_label(a) == data_label(b) ==> a == b,
        text_label(a) != data_label(b),
{
    reveal_strlit(".L");
    reveal_strlit(".LC");
    lemma_decimal_len(a);
    lemma_decimal_len(b);
    if text_label(a) == text_label(b) {
        assert(decimal(a) =~= text_label(a).skip(2));
        assert(decimal(b) =~= text_label(b).skip(2));
        lemma_decimal_injective(a, b);
    }
    if data_label(a) == data_label(b) {
        assert(decimal(a) =~= data_label(a).skip(3));
        assert(decimal(b) =~= data_label(b).skip(3));
        lemma_decimal_injective(a, b);
    }
    assert(text_label(a)[2] != data_label(b)[2]) by {
        assert(decimal(a)[0] == text_label(a)[2]);
        lemma_decimal_first(a);
    }
}

/// Labels taken one after another are distinct. Taking a label advances its
/// counter by one and writes nothing; so a text label taken from any state at
/// or past the one that an earlier text label left differs from the earlier
/// one, and a data label taken from any state at or past the one that an
/// earlier data label left differs from it, whether each went with a string
/// or with a number.
pub proof fn lemma_successive_labels_distinct(m: GenView, r: GenView, a: Seq<char>, b: Seq<char>)
    ensures
        new_text_label(m).0.text_labels == m.text_labels + 1,
        new_text_label(m).0.text == m.text,
        new_str_label(m, a).0.data_labels == m.data_labels + 1,
        new_str_label(m, a).0.text == m.text,
        new_number_label(m, a).0.data_labels == m.data_labels + 1,
        new_number_label(m, a).0.text == m.text,
        extends(new_text_label(m).0, r) ==> new_text_label(r).1 != new_text_label(m).1,
        extends(new_str_label(m, a).0, r) || extends(new_number_label(m, a).0, r) ==> {
            &&& new_str_label(r, b).1 != new_str_label(m, a).1
            &&& new_number_label(r, b).1 != new_str_label(m, a).1
            &&& new_str_label(r, b).1 != new_number_label(m, a).1
            &&& new_number_label(r, b).1 != new_number_label(m, a).1
        },
{
    lemma_labels_distinct(m.text_labels, r.text_labels);
    lemma_labels_distinct(m.data_labels, r.data_labels);
}

/// The code of an arithmetic expression whose operands are numbers computes
/// the operation on them: after the code of the left operand and then of the
/// right one, it pops the right value into `%xmm0` and the left one into
/// `%xmm1`, applies to them the instruction of the operator (`addsd` for
/// `Add`, `subsd` for `Sub`, `mulsd` for `Mul`, `divsd` for `Div`), which
/// leaves `left op right` in `%xmm1`, and pushes that. The result is a number,
/// and nothing else of the state changes.
pub proof fn lemma_arithmetic_code(m: GenView, op: BinaryOperator, left: Expression, right: Expression)
    requires
        op is Add || op is Sub || op is Mul || op is Div,
        g_expr(m, left).1 == Some(Type::Number),
        g_expr(g_expr(m, left).0, right).1 == Some(Type::Number),
    ensures
        ({
            let m2 = g_expr(g_expr(m, left).0, right).0;
            let nl = seq!['\n'];
            let (instruction, comment) = match op {
                BinaryOperator::Add => ("\taddsd %xmm0, %xmm1"@, "# Evaluated: Add"@),
                BinaryOperator::Sub => ("\tsubsd %xmm0, %xmm1"@, "# Evaluated: Sub"@),
                BinaryOperator::Mul => ("\tmulsd %xmm0, %xmm1"@, "# Evaluated: Mul"@),
                _ => ("\tdivsd %xmm0, %xmm1"@, "# Evaluated: Div"@),
            };
            g_expr(m, Expression::Binary { op, left: Box::new(left), right: Box::new(right) }) == (
                GenView {
                    text: m2.text + "\tmovsd (%rsp), %xmm0"@ + nl + "\taddq $16, %rsp"@ + nl
                        + "\tmovsd (%rsp), %xmm1"@ + nl + "\taddq $16, %rsp"@ + nl + instruction + nl
                        + "\tsubq $16, %rsp"@ + nl + "\tmovsd %xmm1, (%rsp)"@ + nl + comment + nl,
                    ..m2
                },
                Some(Type::Number),
            )
        }),
{
}

/// The four arithmetic instructions are four different instructions.
pub proof fn lemma_arithmetic_instructions_distinct()
    ensures
        "\taddsd %xmm0, %xmm1"@ != "\tsubsd %xmm0, %xmm1"@,
        "\taddsd %xmm0, %xmm1"@ != "\tmulsd %xmm0, %xmm1"@,
        "\taddsd %xmm0, %xmm1"@ != "\tdivsd %xmm0, %xmm1"@,
        "\tsubsd %xmm0, %xmm1"@ != "\tmulsd %xmm0, %xmm1"@,
        "\tsubsd %xmm0, %xmm1"@ != "\tdivsd %xmm0, %xmm1"@,
        "\tmulsd %xmm0, %xmm1"@ != "\tdivsd %xmm0, %xmm1"@,
{
    reveal_strlit("\taddsd %xmm0, %xmm1");
    reveal_strlit("\tsubsd %xmm0, %xmm1");
    reveal_strlit("\tmulsd %xmm0, %xmm1");
    reveal_strlit("\tdivsd %xmm0, %xmm1");
    assert("\taddsd %xmm0, %xmm1"@[1] != "\tsubsd %xmm0, %xmm1"@[1]);
    assert("\taddsd %xmm0, %xmm1"@[1] != "\tmulsd %xmm0, %xmm1"@[1]);
    assert("\taddsd %xmm0, %xmm1"@[1] != "\tdivsd %xmm0, %xmm1"@[1]);
    assert("\tsubsd %xmm0, %xmm1"@[1] != "\tmulsd %xmm0, %xmm1"@[1]);
    assert("\tsubsd %xmm0, %xmm1"@[1] != "\tdivsd %xmm0, %xmm1"@[1]);
    assert("\tmulsd %xmm0, %xmm1"@[1] != "\tdivsd %xmm0, %xmm1"@[1]);
}

/// How a `For` loop records its step and its direction before its body: the
/// step's value, popped into `%xmm4`, is saved at `16(%rsp)`, and the
/// direction slot at `0(%rsp)` gets the step's sign bit (`movmskpd` then
/// `and $1` leave in `%eax` 1 for a negative step and 0 otherwise), so that a
/// negative step runs the backward check. Without a step, the step is the
/// constant 1 (`.LC0`) and the direction slot gets 0, the forward check.
pub proof fn lemma_for_direction(
    m: GenView,
    v: RealVar,
    min: Expression,
    max: Expression,
    step: Option<Expression>,
)
    ensures
        g_for_bounds(m, v, min, max, step) matches Some(r) ==> {
            let nl = seq!['\n'];
            match step {
                Some(_) => ("\tmovsd (%rsp), %xmm4"@ + nl + "\taddq $16, %rsp"@ + nl
                    + "\tmovsd %xmm4, 16(%rsp)"@ + nl + "\tmovmskpd %xmm4, %eax"@ + nl
                    + "\tand $1, %eax"@ + nl + "\tmovl %eax, 0(%rsp)"@ + nl).is_suffix_of(r.text),
                None => ("\tmovsd .LC0(%rip), %xmm4"@ + nl + "\tmovsd %xmm4, 16(%rsp)"@ + nl
                    + "\tmovl $0, 0(%rsp)"@ + nl).is_suffix_of(r.text),
            }
        },
{
    if let Some(r) = g_for_bounds(m, v, min, max, step) {
        let nl = seq!['\n'];
        let (m1, t1) = g_expr(m, min);
        let m2 = emit(
            emit(emit(m1, "\tmovsd (%rsp), %xmm0"@), "\taddq $16, %rsp"@),
            "\tmovsd %xmm0, VAR_"@ + var_text(v) + "(%rip)"@,
        );
        let (m3, t2) = g_expr(m2, max);
        let m4 = emit(
            emit(emit(emit(m3, "\tmovsd (%rsp), %xmm3"@), "\taddq $16, %rsp"@), "\tsubq $48, %rsp"@),
            "\tmovsd %xmm3, 32(%rsp)"@,
        );
        match step {
            Some(e) => {
                let pre = g_expr(m4, e).0.text;
                let suf = "\tmovsd (%rsp), %xmm4"@ + nl + "\taddq $16, %rsp"@ + nl
                    + "\tmovsd %xmm4, 16(%rsp)"@ + nl + "\tmovmskpd %xmm4, %eax"@ + nl
                    + "\tand $1, %eax"@ + nl + "\tmovl %eax, 0(%rsp)"@ + nl;
                assert(r.text =~= pre + suf);
                assert((pre + suf).subrange(pre.len() as int, (pre + suf).len() as int) =~= suf);
            },
            None => {
                let pre = m4.text;
                let suf = "\tmovsd .LC0(%rip), %xmm4"@ + nl + "\tmovsd %xmm4, 16(%rsp)"@ + nl
                    + "\tmovl $0, 0(%rsp)"@ + nl;
                assert(r.text =~= pre + suf);
                assert((pre + suf).subrange(pre.len() as int, (pre + suf).len() as int) =~= suf);
            },
        }
    }
}

/// The code of `=` on two numbers compares them for equality: `cmpsd $0`
/// leaves all ones in `%xmm1` where they are equal and zero where not, and
/// masking with the constant 1 (`.LC0`) makes that 1 or 0, which is pushed
/// as a number. The other comparison and logical operators (`!=`, `<`, `<=`,
/// `>`, `>=`, `And`, `Or`, `Xor`) have no code: after popping both operands
/// the expression gives no value.
pub proof fn lemma_comparison_code(m: GenView, op: BinaryOperator, left: Expression, right: Expression)
    requires
        !(op is Add || op is Sub || op is Mul || op is Div),
        g_expr(m, left).1 == Some(Type::Number),
        g_expr(g_expr(m, left).0, right).1 == Some(Type::Number),
    ensures
        ({
            let m2 = g_expr(g_expr(m, left).0, right).0;
            let nl = seq!['\n'];
            let popped = m2.text + "\tmovsd (%rsp), %xmm0"@ + nl + "\taddq $16, %rsp"@ + nl
                + "\tmovsd (%rsp), %xmm1"@ + nl + "\taddq $16, %rsp"@ + nl;
            let r = g_expr(m, Expression::Binary { op, left: Box::new(left), right: Box::new(right) });
            &&& op is Equal ==> r == (
                GenView {
                    text: popped + "\tcmpsd $0, %xmm0, %xmm1\n\tmovsd .LC0(%rip), %xmm2\n\tandpd %xmm2, %xmm1"@
                        + nl + "\tsubq $16, %rsp"@ + nl + "\tmovsd %xmm1, (%rsp)"@ + nl
                        + "# Evaluated: Equal"@ + nl,
                    ..m2
                },
                Some(Type::Number),
            )
            &&& !(op is Equal) ==> r == (GenView { text: popped, ..m2 }, None::<Type>)
        }),
{
}

/// The test of an `If` jumps to the `Else` block exactly when the condition
/// is zero: the condition's value is popped into `%xmm0`, compared with zero
/// in `%xmm1`, and `je` goes to the first of two fresh labels, the else
/// label; the second, different one is where the statement ends. A condition
/// that is not a number gives no `If` code at all.
pub proof fn lemma_if_test_code(m: GenView, condition: Expression)
    ensures
        ({
            let (m1, t) = g_expr(m, condition);
            let nl = seq!['\n'];
            let f = text_label(m1.text_labels);
            let d = text_label(m1.text_labels + 1);
            &&& t == Some(Type::Number) ==> g_if_head(m, condition) == Some((
                GenView {
                    text: m1.text + "\tmovsd (%rsp), %xmm0"@ + nl + "\taddq $16, %rsp"@ + nl
                        + "# If statement:"@ + nl + "\txorpd %xmm1, %xmm1"@ + nl
                        + "\tcomisd %xmm0, %xmm1"@ + nl + ("\tje "@ + f) + nl + "# Then block:"@ + nl,
                    text_labels: m1.text_labels + 2,
                    ..m1
                },
                f,
                d,
            ))
            &&& t == Some(Type::Number) ==> f != d
            &&& t != Some(Type::Number) ==> g_if_head(m, condition) is None
        }),
{
    let m1 = g_expr(m, condition).0;
    lemma_labels_distinct(m1.text_labels, m1.text_labels + 1);
}

/// After a `For` loop's body: the step at `16(%rsp)` is added to the loop
/// variable; then, with the direction slot `0(%rsp)` zero (forward), the body
/// runs again while the end value at `32(%rsp)` is at least the variable
/// (`comisd %xmm0, %xmm3; jae`), and with it non-zero (backward), while the
/// variable is at least the end value (`comisd %xmm3, %xmm0; jae`); past the
/// loop the three saved slots are dropped.
pub proof fn lemma_for_check_code(m: GenView, v: RealVar, l: LoopLabels)
    ensures
        ({
            let c = seq![letter_of(v)];
            let nl = seq!['\n'];
            g_for_exit(m, v, l) == GenView {
                text: m.text + "# Incrementation"@ + nl + "\tmovsd 16(%rsp), %xmm4"@ + nl
                    + ("\tmovsd VAR_"@ + c + "(%rip), %xmm0"@) + nl + "\taddsd %xmm4, %xmm0"@ + nl
                    + ("\tmovsd %xmm0, VAR_"@ + c + "(%rip)"@) + nl + "# Loop checking"@ + nl
                    + (l.check + ":"@) + nl + "\tmovl 0(%rsp), %eax"@ + nl + "\ttest %eax, %eax"@ + nl
                    + ("\tjnz "@ + l.neg) + nl + "\tmovsd 32(%rsp), %xmm3"@ + nl
                    + ("\tmovsd VAR_"@ + c + "(%rip), %xmm0"@) + nl + "\tcomisd %xmm0, %xmm3"@ + nl
                    + ("\tjae "@ + l.body) + nl + ("\tjmp "@ + l.done) + nl + (l.neg + ":"@) + nl
                    + "\tmovsd 32(%rsp), %xmm3"@ + nl + ("\tmovsd VAR_"@ + c + "(%rip), %xmm0"@) + nl
                    + "\tcomisd %xmm3, %xmm0"@ + nl + ("\tjae "@ + l.body) + nl + (l.done + ":"@) + nl
                    + "\taddq $48, %rsp"@ + nl + "# Loop done"@ + nl,
                ..m
            }
        }),
{
}

/// A display prints its value with the format for its type: a number is
/// popped into `%xmm0` and printed with `.LC_NUM_PRINT_FMT` (`%f`, one vector
/// argument); a string's address is popped into `%rsi` and printed with
/// `.LC_STR_PRINT_FMT` (`%s`, no vector argument); a value that cannot be
/// compiled leaves an error comment. A display without a value writes nothing.
pub proof fn lemma_display_code(m: GenView, val: Option<Expression>)
    ensures
        ({
            let nl = seq!['\n'];
            let r = g_stmt(m, Statement::Display(val));
            match val {
                None => r == m,
                Some(e) => {
                    let (m1, t) = g_expr(m, e);
                    match t {
                        Some(Type::Number) => r == GenView {
                            text: m1.text + "\tmovsd (%rsp), %xmm0"@ + nl + "\taddq $16, %rsp"@ + nl
                                + "\tlea .LC_NUM_PRINT_FMT(%rip), %rdi"@ + nl + "\tmov $1, %al"@ + nl
                                + "\tcall printf"@ + nl + "# Printed a number"@ + nl,
                            ..m1
                        },
                        Some(Type::Str) => r == GenView {
                            text: m1.text + "\tpop %rsi"@ + nl + "\tlea .LC_STR_PRINT_FMT(%rip), %rdi"@ + nl
                                + "\tmov $0, %al"@ + nl + "\tcall printf"@ + nl + "# Printed a string"@
                                + nl,
                            ..m1
                        },
                        None => r == GenView { text: m1.text + "# Error: Expression is none."@ + nl, ..m1 },
                    }
                },
            }
        }),
{
}

/// Variables live in slots named after their letters: reading `v` loads its
/// slot, an assignment of a number to `w` stores into `w`'s slot (and an
/// assignment of anything else stores nothing), a prompt for `w` reads a
/// number with `scanf` and stores it into `w`'s slot; different variables
/// have different slots.
pub proof fn lemma_variable_code(m: GenView, v: RealVar, w: RealVar, source: Expression)
    ensures
        ({
            let nl = seq!['\n'];
            let cv = seq![letter_of(v)];
            let cw = seq![letter_of(w)];
            let (m1, t) = g_expr(m, source);
            &&& g_expr(m, Expression::RealVariable(v)) == (
                GenView {
                    text: m.text + ("\tmovsd VAR_"@ + cv + "(%rip), %xmm0"@) + nl + "\tsubq $16, %rsp"@ + nl
                        + "\tmovsd %xmm0, (%rsp)"@ + nl + ("# Read variable: "@ + cv) + nl,
                    ..m
                },
                Some(Type::Number),
            )
            &&& t == Some(Type::Number) ==> g_stmt(
                m,
                Statement::Assign { target: AssignTarget::RealVariable(w), source },
            ) == GenView {
                text: m1.text + "\tmovsd (%rsp), %xmm0"@ + nl + "\taddq $16, %rsp"@ + nl
                    + ("\tmovsd %xmm0, VAR_"@ + cw + "(%rip)"@) + nl + ("# Wrote to variable "@ + cw) + nl,
                ..m1
            }
            &&& t != Some(Type::Number) ==> g_stmt(
                m,
                Statement::Assign { target: AssignTarget::RealVariable(w), source },
            ) == m1
            &&& g_stmt(m, Statement::Prompt(AssignTarget::RealVariable(w))) == GenView {
                text: m.text + "\tleaq .LC_NUM_SCAN_FMT(%rip), %rdi"@ + nl
                    + "\tleaq .LC_NUM_SCAN_BUF(%rip), %rsi"@ + nl + "\tmovb $0, %al"@ + nl
                    + "\tcall scanf"@ + nl + "\tmovsd .LC_NUM_SCAN_BUF(%rip), %xmm0"@ + nl
                    + ("\tmovsd %xmm0, VAR_"@ + cw + "(%rip)"@) + nl,
                ..m
            }
            &&& v != w ==> cv != cw
        }),
{
    crate::ast::lemma_letter_of_injective(v, w);
    if v != w {
        assert(seq![letter_of(v)][0] != seq![letter_of(w)][0]);
    }
}

/// The code of a leaf expression: a number literal takes the next data label
/// for its text and loads the constant stored there, pushing it as a number;
/// a string literal takes the next data label for its text and pushes the
/// address of the string; parentheses add no code; and a unary operator has
/// no code and gives no value.
pub proof fn lemma_literal_code(m: GenView, val: String, inner: Expression, op: UnaryOperator)
    ensures
        ({
            let nl = seq!['\n'];
            let l = data_label(m.data_labels);
            &&& g_expr(m, Expression::NumberLiteral(val)) == (
                GenView {
                    text: m.text + ("\tmovsd "@ + l + "(%rip), %xmm0"@) + nl + "\tsubq $16, %rsp"@ + nl
                        + "\tmovsd %xmm0, (%rsp)"@ + nl + ("# Evaluated: "@ + val@) + nl,
                    data_labels: m.data_labels + 1,
                    numbers: m.numbers.push((l, val@)),
                    ..m
                },
                Some(Type::Number),
            )
            &&& g_expr(m, Expression::StringLiteral(val)) == (
                GenView {
                    text: m.text + ("\tlea "@ + l + "(%rip), %rax"@) + nl + "\tpush %rax"@ + nl
                        + ("# Evaluated: \""@ + val@ + "\""@) + nl,
                    data_labels: m.data_labels + 1,
                    strings: m.strings.push((l, val@)),
                    ..m
                },
                Some(Type::Str),
            )
            &&& g_expr(m, Expression::Grouping(Box::new(inner))) == g_expr(m, inner)
            &&& g_expr(m, Expression::Unary { op, operand: Box::new(inner) }) == (m, None::<Type>)
        }),
{
}

/// The code of an `If` whose condition is a number: the test, which jumps to
/// the else label when the condition is zero; the `Then` statements; a jump
/// to the done label; the else label and the `Else` statements; and the done
/// label. A condition that is not a number leaves only its own code.
pub proof fn lemma_if_code(m: GenView, condition: Expression, consequence: Vec<Statement>, alternative: Vec<Statement>)
    ensures
        ({
            let nl = seq!['\n'];
            let r = g_stmt(m, Statement::If { condition, consequence, alternative });
            match g_if_head(m, condition) {
                Some((h, f, d)) => {
                    let t = g_stmts(h, consequence@);
                    let u = g_stmts(
                        GenView { text: t.text + ("\tjmp "@ + d) + nl + "# Else block:"@ + nl + (f + ":"@) + nl, ..t },
                        alternative@,
                    );
                    r == GenView { text: u.text + "# Done:"@ + nl + (d + ":"@) + nl, ..u }
                },
                None => r == g_expr(m, condition).0,
            }
        }),
{
}

/// The code of a `For` loop whose bounds (and step) are numbers: the bounds,
/// four fresh labels (body, check, backward check, done) in order, a jump to
/// the check, the body label, the body's statements, and the step and check
/// that follow. A bound or step that is not a number stops the loop's code there.
pub proof fn lemma_for_code(
    m: GenView,
    v: RealVar,
    min: Expression,
    max: Expression,
    step: Option<Expression>,
    body: Vec<Statement>,
)
    ensures
        ({
            let nl = seq!['\n'];
            let r = g_stmt(m, Statement::For { variable: v, min, max, step, body });
            match g_for_bounds(m, v, min, max, step) {
                Some(b) => {
                    let n = b.text_labels;
                    let labels = LoopLabels {
                        body: text_label(n),
                        check: text_label(n + 1),
                        neg: text_label(n + 2),
                        done: text_label(n + 3),
                    };
                    let entry = GenView {
                        text: b.text + ("\tjmp "@ + labels.check) + nl
                            + "# Starting for loop by jumping to check"@ + nl + (labels.body + ":"@) + nl,
                        text_labels: n + 4,
                        ..b
                    };
                    r == g_for_exit(g_stmts(entry, body@), v, labels)
                },
                None => r == g_for_stopped(m, v, min, max, step),
            }
        }),
{
}

/// The code of two statement lists, one after the other, is the code of
/// the two lists joined.
pub proof fn lemma_stmts_concat(m: GenView, a: Seq<Statement>, b: Seq<Statement>)
    ensures
        g_stmts(m, a + b) == g_stmts(g_stmts(m, a), b),
    decreases a.len(),
{
    if a.len() == 0 {
        assert(a + b =~= b);
    } else {
        assert((a + b).drop_first() =~= a.drop_first() + b);
        assert((a + b)[0] == a[0]);
        lemma_stmts_concat(g_stmt(m, a[0]), a.drop_first(), b);
    }
}

/// Whether `later` extends `earlier`: its text continues the earlier text,
/// its counters are no smaller, and its literal tables continue the earlier ones.
pub open spec fn extends(earlier: GenView, later: GenView) -> bool {
    &&& earlier.text.is_prefix_of(later.text)
    &&& earlier.text_labels <= later.text_labels
    &&& earlier.data_labels <= later.data_labels
    &&& earlier.strings.is_prefix_of(later.strings)
    &&& earlier.numbers.is_prefix_of(later.numbers)
}

proof fn lemma_extends_trans(a: GenView, b: GenView, c: GenView)
    requires
        extends(a, b),
        extends(b, c),
    ensures
        extends(a, c),
{
    assert(a.text =~= c.text.subrange(0, a.text.len() as int)) by {
        assert(a.text =~= b.text.subrange(0, a.text.len() as int));
        assert(b.text =~= c.text.subrange(0, b.text.len() as int));
    }
    assert(a.strings =~= c.strings.subrange(0, a.strings.len() as int)) by {
        assert(a.strings =~= b.strings.subrange(0, a.strings.len() as int));
        assert(b.strings =~= c.strings.subrange(0, b.strings.len() as int));
    }
    assert(a.numbers =~= c.numbers.subrange(0, a.numbers.len() as int)) by {
        assert(a.numbers =~= b.numbers.subrange(0, a.numbers.len() as int));
        assert(b.numbers =~= c.numbers.subrange(0, b.numbers.len() as int));
    }
}

proof fn lemma_extends_refl(m: GenView)
    ensures
        extends(m, m),
{
    assert(m.text =~= m.text.subrange(0, m.text.len() as int));
    assert(m.strings =~= m.strings.subrange(0, m.strings.len() as int));
    assert(m.numbers =~= m.numbers.subrange(0, m.numbers.len() as int));
}

proof fn lemma_new_labels_extend(m: GenView, val: Seq<char>)
    ensures
        extends(m, new_text_label(m).0),
        extends(m, new_str_label(m, val).0),
        extends(m, new_number_label(m, val).0),
{
    let a = new_str_label(m, val).0;
    let b = new_number_label(m, val).0;
    assert(m.text =~= a.text.subrange(0, m.text.len() as int));
    assert(m.strings =~= a.strings.subrange(0, m.strings.len() as int));
    assert(m.numbers =~= a.numbers.subrange(0, m.numbers.len() as int));
    assert(m.text =~= b.text.subrange(0, m.text.len() as int));
    assert(m.strings =~= b.strings.subrange(0, m.strings.len() as int));
    assert(m.numbers =~= b.numbers.subrange(0, m.numbers.len() as int));
    lemma_extends_refl(m);
    let c = new_text_label(m).0;
    assert(m.text =~= c.text.subrange(0, m.text.len() as int));
    assert(m.strings =~= c.strings.subrange(0, m.strings.len() as int));
    assert(m.numbers =~= c.numbers.subrange(0, m.numbers.len() as int));
}

/// Writing a chain of lines extends the state.
proof fn lemma_chain_extends(m: GenView, r: GenView)
    requires
        m.text.len() <= r.text.len(),
        r.text.subrange(0, m.text.len() as int) =~= m.text,
        m.text_labels <= r.text_labels,
        m.data_labels <= r.data_labels,
        r.strings.len() >= m.strings.len(),
        r.strings.subrange(0, m.strings.len() as int) =~= m.strings,
        r.numbers.len() >= m.numbers.len(),
        r.numbers.subrange(0, m.numbers.len() as int) =~= m.numbers,
    ensures
        extends(m, r),
{
}

proof fn lemma_leaf_extends(m: GenView, e: Expression)
    requires
        !(e is Binary || e is Grouping),
    ensures
        extends(m, g_expr(m, e).0),
{
    match e {
        Expression::NumberLiteral(x) => {
            let m1 = new_number_label(m, x@).0;
            lemma_new_labels_extend(m, x@);
            let r = g_expr(m, e).0;
            assert(r.text.subrange(0, m1.text.len() as int) =~= m1.text);
            lemma_chain_extends(m1, r);
            lemma_extends_trans(m, m1, r);
        },
        Expression::StringLiteral(x) => {
            let m1 = new_str_label(m, x@).0;
            lemma_new_labels_extend(m, x@);
            let r = g_expr(m, e).0;
            assert(r.text.subrange(0, m1.text.len() as int) =~= m1.text);
            lemma_chain_extends(m1, r);
            lemma_extends_trans(m, m1, r);
        },
        Expression::RealVariable(v) => {
            let r = g_expr(m, e).0;
            assert(r.text.subrange(0, m.text.len() as int) =~= m.text);
            lemma_chain_extends(m, r);
        },
        _ => {
            lemma_extends_refl(m);
        },
    }
}

/// The code of an expression extends the state.
pub proof fn lemma_expr_extends(m: GenView, e: Expression)
    ensures
        extends(m, g_expr(m, e).0),
    decreases e,
{
    match e {
        Expression::Binary { op, left, right } => {
            let (m1, lt) = g_expr(m, *left);
            lemma_expr_extends(m, *left);
            if lt == Some(Type::Number) {
                let (m2, rt) = g_expr(m1, *right);
                lemma_expr_extends(m1, *right);
                lemma_extends_trans(m, m1, m2);
                if rt == Some(Type::Number) {
                    let r = g_bin_tail(m2, op).0;
                    assert(r.text.subrange(0, m2.text.len() as int) =~= m2.text);
                    lemma_chain_extends(m2, r);
                    lemma_extends_trans(m, m2, r);
                }
            }
        },
        Expression::Grouping(b) => {
            lemma_expr_extends(m, *b);
        },
        _ => {
            lemma_leaf_extends(m, e);
        },
    }
}

proof fn lemma_simple_stmt_extends(m: GenView, s: Statement)
    requires
        !(s is If || s is For),
    ensures
        extends(m, g_stmt(m, s)),
{
    match s {
        Statement::Display(val) => match val {
            Some(e) => {
                let (m1, t) = g_expr(m, e);
                lemma_expr_extends(m, e);
                let r = g_stmt(m, s);
                assert(r.text.subrange(0, m1.text.len() as int) =~= m1.text);
                lemma_chain_extends(m1, r);
                lemma_extends_trans(m, m1, r);
            },
            None => lemma_extends_refl(m),
        },
        Statement::Prompt(_) => {
            let r = g_stmt(m, s);
            assert(r.text.subrange(0, m.text.len() as int) =~= m.text);
            lemma_chain_extends(m, r);
        },
        Statement::Assign { target, source } => {
            let (m1, t) = g_expr(m, source);
            lemma_expr_extends(m, source);
            let r = g_stmt(m, s);
            assert(r.text.subrange(0, m1.text.len() as int) =~= m1.text);
            lemma_chain_extends(m1, r);
            lemma_extends_trans(m, m1, r);
        },
        _ => {},
    }
}

proof fn lemma_if_head_extends(m: GenView, condition: Expression)
    ensures
        g_if_head(m, condition) matches Some((r, _, _)) ==> extends(m, r),
        extends(m, g_expr(m, condition).0),
{
    lemma_expr_extends(m, condition);
    let m1 = g_expr(m, condition).0;
    if let Some((r, _, _)) = g_if_head(m, condition) {
        assert(r.text.subrange(0, m1.text.len() as int) =~= m1.text);
        lemma_chain_extends(m1, r);
        lemma_extends_trans(m, m1, r);
    }
}

proof fn lemma_if_rest_extends(m: GenView, f: Seq<char>, d: Seq<char>)
    ensures
        extends(m, g_if_middle(m, f, d)),
        extends(m, g_if_tail(m, d)),
{
    let a = g_if_middle(m, f, d);
    assert(a.text.subrange(0, m.text.len() as int) =~= m.text);
    lemma_chain_extends(m, a);
    let b = g_if_tail(m, d);
    assert(b.text.subrange(0, m.text.len() as int) =~= m.text);
    lemma_chain_extends(m, b);
}

proof fn lemma_for_bounds_extends(
    m: GenView,
    v: RealVar,
    min: Expression,
    max: Expression,
    step: Option<Expression>,
)
    ensures
        g_for_bounds(m, v, min, max, step) matches Some(r) ==> extends(m, r),
        extends(m, g_for_stopped(m, v, min, max, step)),
{
    let (m1, t1) = g_expr(m, min);
    lemma_expr_extends(m, min);
    if t1 is Some {
        let m2 = emit(
            emit(emit(m1, "\tmovsd (%rsp), %xmm0"@), "\taddq $16, %rsp"@),
            "\tmovsd %xmm0, VAR_"@ + var_text(v) + "(%rip)"@,
        );
        assert(m2.text.subrange(0, m1.text.len() as int) =~= m1.text);
        lemma_chain_extends(m1, m2);
        lemma_extends_trans(m, m1, m2);
        let (m3, t2) = g_expr(m2, max);
        lemma_expr_extends(m2, max);
        lemma_extends_trans(m, m2, m3);
        if t2 is Some {
            let m4 = emit(
                emit(emit(emit(m3, "\tmovsd (%rsp), %xmm3"@), "\taddq $16, %rsp"@), "\tsubq $48, %rsp"@),
                "\tmovsd %xmm3, 32(%rsp)"@,
            );
            assert(m4.text.subrange(0, m3.text.len() as int) =~= m3.text);
            lemma_chain_extends(m3, m4);
            lemma_extends_trans(m, m3, m4);
            match step {
                Some(e) => {
                    let (m5, t3) = g_expr(m4, e);
                    lemma_expr_extends(m4, e);
                    lemma_extends_trans(m, m4, m5);
                    if let Some(r) = g_for_bounds(m, v, min, max, step) {
                        assert(r.text.subrange(0, m5.text.len() as int) =~= m5.text);
                        lemma_chain_extends(m5, r);
                        lemma_extends_trans(m, m5, r);
                    }
                },
                None => {
                    let r = g_for_bounds(m, v, min, max, step).unwrap();
                    assert(r.text.subrange(0, m4.text.len() as int) =~= m4.text);
                    lemma_chain_extends(m4, r);
                    lemma_extends_trans(m, m4, r);
                },
            }
        }
    }
}

proof fn lemma_for_rest_extends(m: GenView, v: RealVar, l: LoopLabels)
    ensures
        extends(m, g_for_entry(m).0),
        extends(m, g_for_exit(m, v, l)),
{
    let a = g_for_entry(m).0;
    assert(a.text.subrange(0, m.text.len() as int) =~= m.text);
    lemma_chain_extends(m, a);
    let b = g_for_exit(m, v, l);
    assert(b.text.subrange(0, m.text.len() as int) =~= m.text);
    lemma_chain_extends(m, b);
}

/// The code of a statement extends the state: the text only grows, the label
/// counters never go back, and the literal tables only grow.
#[verifier::spinoff_prover]
#[verifier::rlimit(40)]
pub proof fn lemma_stmt_extends(m: GenView, s: Statement)
    ensures
        extends(m, g_stmt(m, s)),
    decreases s,
{
    match s {
        Statement::If { condition, consequence, alternative } => {
            lemma_if_head_extends(m, condition);
            if let Some((m1, f, d)) = g_if_head(m, condition) {
                let m2 = g_stmts(m1, consequence@);
                lemma_stmts_extends(m1, consequence@);
                let m3 = g_if_middle(m2, f, d);
                lemma_if_rest_extends(m2, f, d);
                let m4 = g_stmts(m3, alternative@);
                lemma_stmts_extends(m3, alternative@);
                lemma_if_rest_extends(m4, f, d);
                lemma_extends_trans(m, m1, m2);
                lemma_extends_trans(m, m2, m3);
                lemma_extends_trans(m, m3, m4);
                lemma_extends_trans(m, m4, g_if_tail(m4, d));
            }
        },
        Statement::For { variable, min, max, step, body } => {
            lemma_for_bounds_extends(m, variable, min, max, step);
            if let Some(m1) = g_for_bounds(m, variable, min, max, step) {
                let (m2, labels) = g_for_entry(m1);
                lemma_for_rest_extends(m1, variable, labels);
                let m3 = g_stmts(m2, body@);
                lemma_stmts_extends(m2, body@);
                lemma_for_rest_extends(m3, variable, labels);
                lemma_extends_trans(m, m1, m2);
                lemma_extends_trans(m, m2, m3);
                lemma_extends_trans(m, m3, g_for_exit(m3, variable, labels));
            }
        },
        _ => lemma_simple_stmt_extends(m, s),
    }
}

/// The code of a statement list extends the state.
pub proof fn lemma_stmts_extends(m: GenView, ss: Seq<Statement>)
    ensures
        extends(m, g_stmts(m, ss)),
    decreases ss,
{
    if ss.len() == 0 {
        lemma_extends_refl(m);
    } else {
        let m1 = g_stmt(m, ss[0]);
        lemma_stmt_extends(m, ss[0]);
        lemma_stmts_extends(m1, ss.drop_first());
        lemma_extends_trans(m, m1, g_stmts(m1, ss.drop_first()));
    }
}

/// Whether `l` names one of the first `n` data labels.
pub open spec fn is_data_label_below(l: Seq<char>, n: nat) -> bool {
    exists|k: nat| k < n && l == data_label(k)
}

/// The literals that the generator has labelled, past the three fixed
/// formats, have data labels taken so far, each one different.
pub open spec fn literals_labelled(m: GenView) -> bool {
    &&& m.strings.len() >= 3
    &&& forall|i: int| 3 <= i < m.strings.len() ==> is_data_label_below(#[trigger] m.strings[i].0, m.data_labels)
    &&& forall|i: int| 0 <= i < m.numbers.len() ==> is_data_label_below(#[trigger] m.numbers[i].0, m.data_labels)
    &&& forall|i: int, j: int|
        3 <= i < j < m.strings.len() ==> (#[trigger] m.strings[i]).0 != (#[trigger] m.strings[j]).0
    &&& forall|i: int, j: int|
        0 <= i < j < m.numbers.len() ==> (#[trigger] m.numbers[i]).0 != (#[trigger] m.numbers[j]).0
    &&& forall|i: int, j: int|
        3 <= i < m.strings.len() && 0 <= j < m.numbers.len() ==> (#[trigger] m.strings[i]).0
            != (#[trigger] m.numbers[j]).0
}

/// A data label taken before the counter reached `d` is not `data_label(d)`.
proof fn lemma_below_differs(l: Seq<char>, n: nat)
    requires
        is_data_label_below(l, n),
    ensures
        l != data_label(n),
{
    let k = choose|k: nat| k < n && l == data_label(k);
    lemma_labels_distinct(k, n);
}

proof fn lemma_new_labels_keep(m: GenView, val: Seq<char>)
    requires
        literals_labelled(m),
    ensures
        literals_labelled(new_str_label(m, val).0),
        literals_labelled(new_number_label(m, val).0),
        literals_labelled(new_text_label(m).0),
{
    let d = m.data_labels;
    let a = new_str_label(m, val).0;
    assert forall|i: int| 3 <= i < a.strings.len() implies is_data_label_below(#[trigger] a.strings[i].0, a.data_labels) by {
        if i < m.strings.len() {
            let k = choose|k: nat| k < d && m.strings[i].0 == data_label(k);
            assert(k < a.data_labels && a.strings[i].0 == data_label(k));
        } else {
            assert(d < a.data_labels && a.strings[i].0 == data_label(d));
        }
    }
    assert forall|i: int| 0 <= i < a.numbers.len() implies is_data_label_below(#[trigger] a.numbers[i].0, a.data_labels) by {
        let k = choose|k: nat| k < d && m.numbers[i].0 == data_label(k);
        assert(k < a.data_labels && a.numbers[i].0 == data_label(k));
    }
    assert forall|i: int, j: int| 3 <= i < j < a.strings.len() implies (#[trigger] a.strings[i]).0 != (#[trigger] a.strings[j]).0 by {
        if j == m.strings.len() {
            lemma_below_differs(m.strings[i].0, d);
        } else {
            assert(m.strings[i].0 != m.strings[j].0);
        }
    }
    assert forall|i: int, j: int| 3 <= i < a.strings.len() && 0 <= j < a.numbers.len() implies (#[trigger] a.strings[i]).0 != (#[trigger] a.numbers[j]).0 by {
        if i == m.strings.len() {
            lemma_below_differs(m.numbers[j].0, d);
        } else {
            assert(m.strings[i].0 != m.numbers[j].0);
        }
    }
    let b = new_number_label(m, val).0;
    assert forall|i: int| 3 <= i < b.strings.len() implies is_data_label_below(#[trigger] b.strings[i].0, b.data_labels) by {
        let k = choose|k: nat| k < d && m.strings[i].0 == data_label(k);
        assert(k < b.data_labels && b.strings[i].0 == data_label(k));
    }
    assert forall|i: int| 0 <= i < b.numbers.len() implies is_data_label_below(#[trigger] b.numbers[i].0, b.data_labels) by {
        if i < m.numbers.len() {
            let k = choose|k: nat| k < d && m.numbers[i].0 == data_label(k);
            assert(k < b.data_labels && b.numbers[i].0 == data_label(k));
        } else {
            assert(d < b.data_labels && b.numbers[i].0 == data_label(d));
        }
    }
    assert forall|i: int, j: int| 0 <= i < j < b.numbers.len() implies (#[trigger] b.numbers[i]).0 != (#[trigger] b.numbers[j]).0 by {
        if j == m.numbers.len() {
            lemma_below_differs(m.numbers[i].0, d);
        } else {
            assert(m.numbers[i].0 != m.numbers[j].0);
        }
    }
    assert forall|i: int, j: int| 3 <= i < b.strings.len() && 0 <= j < b.numbers.len() implies (#[trigger] b.strings[i]).0 != (#[trigger] b.numbers[j]).0 by {
        if j == m.numbers.len() {
            lemma_below_differs(m.strings[i].0, d);
        } else {
            assert(m.strings[i].0 != m.numbers[j].0);
        }
    }
}

/// Keeping the literal tables and the data label counter keeps the literals labelled.
proof fn lemma_same_tables(m: GenView, r: GenView)
    requires
        literals_labelled(m),
        r.strings == m.strings,
        r.numbers == m.numbers,
        r.data_labels == m.data_labels,
    ensures
        literals_labelled(r),
{
}

/// The code of an expression keeps the literals labelled.
pub proof fn lemma_expr_labels(m: GenView, e: Expression)
    requires
        literals_labelled(m),
    ensures
        literals_labelled(g_expr(m, e).0),
    decreases e,
{
    match e {
        Expression::Binary { op, left, right } => {
            let (m1, lt) = g_expr(m, *left);
            lemma_expr_labels(m, *left);
            if lt == Some(Type::Number) {
                let (m2, rt) = g_expr(m1, *right);
                lemma_expr_labels(m1, *right);
                if rt == Some(Type::Number) {
                    lemma_same_tables(m2, g_bin_tail(m2, op).0);
                }
            }
        },
        Expression::Grouping(b) => lemma_expr_labels(m, *b),
        Expression::NumberLiteral(x) => {
            lemma_new_labels_keep(m, x@);
            lemma_same_tables(new_number_label(m, x@).0, g_expr(m, e).0);
        },
        Expression::StringLiteral(x) => {
            lemma_new_labels_keep(m, x@);
            lemma_same_tables(new_str_label(m, x@).0, g_expr(m, e).0);
        },
        Expression::RealVariable(_) => lemma_same_tables(m, g_expr(m, e).0),
        Expression::Unary { .. } => {},
    }
}

proof fn lemma_for_bounds_labels(
    m: GenView,
    v: RealVar,
    min: Expression,
    max: Expression,
    step: Option<Expression>,
)
    requires
        literals_labelled(m),
    ensures
        g_for_bounds(m, v, min, max, step) matches Some(r) ==> literals_labelled(r),
        literals_labelled(g_for_stopped(m, v, min, max, step)),
{
    let (m1, t1) = g_expr(m, min);
    lemma_expr_labels(m, min);
    if t1 is Some {
        let m2 = emit(
            emit(emit(m1, "\tmovsd (%rsp), %xmm0"@), "\taddq $16, %rsp"@),
            "\tmovsd %xmm0, VAR_"@ + var_text(v) + "(%rip)"@,
        );
        lemma_same_tables(m1, m2);
        let (m3, t2) = g_expr(m2, max);
        lemma_expr_labels(m2, max);
        if t2 is Some {
            let m4 = emit(
                emit(emit(emit(m3, "\tmovsd (%rsp), %xmm3"@), "\taddq $16, %rsp"@), "\tsubq $48, %rsp"@),
                "\tmovsd %xmm3, 32(%rsp)"@,
            );
            lemma_same_tables(m3, m4);
            match step {
                Some(e) => {
                    let (m5, t3) = g_expr(m4, e);
                    lemma_expr_labels(m4, e);
                    if let Some(r) = g_for_bounds(m, v, min, max, step) {
                        lemma_same_tables(m5, r);
                    }
                },
                None => {
                    lemma_same_tables(m4, g_for_bounds(m, v, min, max, step).unwrap());
                },
            }
        }
    }
}

/// The code of a statement keeps the literals labelled.
pub proof fn lemma_stmt_labels(m: GenView, s: Statement)
    requires
        literals_labelled(m),
    ensures
        literals_labelled(g_stmt(m, s)),
    decreases s,
{
    match s {
        Statement::Display(val) => match val {
            Some(e) => {
                lemma_expr_labels(m, e);
                lemma_same_tables(g_expr(m, e).0, g_stmt(m, s));
            },
            None => {},
        },
        Statement::Prompt(_) => lemma_same_tables(m, g_stmt(m, s)),
        Statement::Assign { target, source } => {
            lemma_expr_labels(m, source);
            lemma_same_tables(g_expr(m, source).0, g_stmt(m, s));
        },
        Statement::If { condition, consequence, alternative } => {
            lemma_expr_labels(m, condition);
            let m0 = g_expr(m, condition).0;
            if let Some((m1, f, d)) = g_if_head(m, condition) {
                let a = emit(emit(emit(emit(emit(m0, "\tmovsd (%rsp), %xmm0"@), "\taddq $16, %rsp"@), "# If statement:"@), "\txorpd %xmm1, %xmm1"@), "\tcomisd %xmm0, %xmm1"@);
                lemma_same_tables(m0, a);
                lemma_new_labels_keep(a, Seq::empty());
                let b = new_text_label(a).0;
                lemma_new_labels_keep(b, Seq::empty());
                lemma_same_tables(new_text_label(b).0, m1);
                let m2 = g_stmts(m1, consequence@);
                lemma_stmts_labels(m1, consequence@);
                let m3 = g_if_middle(m2, f, d);
                lemma_same_tables(m2, m3);
                let m4 = g_stmts(m3, alternative@);
                lemma_stmts_labels(m3, alternative@);
                lemma_same_tables(m4, g_if_tail(m4, d));
            }
        },
        Statement::For { variable, min, max, step, body } => {
            lemma_for_bounds_labels(m, variable, min, max, step);
            if let Some(m1) = g_for_bounds(m, variable, min, max, step) {
                let (m2, labels) = g_for_entry(m1);
                let a = new_text_label(m1).0;
                let b = new_text_label(a).0;
                let c = new_text_label(b).0;
                lemma_new_labels_keep(m1, Seq::empty());
                lemma_new_labels_keep(a, Seq::empty());
                lemma_new_labels_keep(b, Seq::empty());
                lemma_new_labels_keep(c, Seq::empty());
                lemma_same_tables(new_text_label(c).0, m2);
                let m3 = g_stmts(m2, body@);
                lemma_stmts_labels(m2, body@);
                lemma_same_tables(m3, g_for_exit(m3, variable, labels));
            }
        },
    }
}

/// The code of a statement list keeps the literals labelled.
pub proof fn lemma_stmts_labels(m: GenView, ss: Seq<Statement>)
    requires
        literals_labelled(m),
    ensures
        literals_labelled(g_stmts(m, ss)),
    decreases ss,
{
    if ss.len() > 0 {
        lemma_stmt_labels(m, ss[0]);
        lemma_stmts_labels(g_stmt(m, ss[0]), ss.drop_first());
    }
}

/// Every literal in a program's read-only data section has a label of its
/// own: no two strings, no two numbers, and no string and number share a
/// label, and none of them takes the name of a fixed format.
pub proof fn lemma_literal_labels_distinct(ss: Seq<Statement>)
    ensures
        ({
            let m = g_text_section(g_bss_section(g_data_section(g_setup(fresh()))), ss);
            &&& forall|i: int, j: int|
                0 <= i < j < m.strings.len() ==> (#[trigger] m.strings[i]).0 != (#[trigger] m.strings[j]).0
            &&& forall|i: int, j: int|
                0 <= i < j < m.numbers.len() ==> (#[trigger] m.numbers[i]).0 != (#[trigger] m.numbers[j]).0
            &&& forall|i: int, j: int|
                0 <= i < m.strings.len() && 0 <= j < m.numbers.len() ==> (#[trigger] m.strings[i]).0
                    != (#[trigger] m.numbers[j]).0
        }),
{
    reveal_strlit(".LC_NUM_PRINT_FMT");
    reveal_strlit(".LC_STR_PRINT_FMT");
    reveal_strlit(".LC_NUM_SCAN_FMT");
    let m0 = fresh();
    let m1 = GenView {
        strings: m0.strings.push((".LC_NUM_PRINT_FMT"@, "%f\\n"@)).push(
            (".LC_STR_PRINT_FMT"@, "%s\\n"@),
        ).push((".LC_NUM_SCAN_FMT"@, "%lf"@)),
        ..m0
    };
    assert(literals_labelled(m1));
    lemma_new_labels_keep(m1, "1"@);
    let m2 = g_setup(m0);
    let m3 = g_data_section(m2);
    lemma_var_slots_keep(emit(emit(m2, ".section .data"@), ".align 8"@), 65);
    lemma_same_tables(m2, emit(emit(m2, ".section .data"@), ".align 8"@));
    let m4 = g_bss_section(m3);
    lemma_same_tables(m3, m4);
    let m5 = emit(emit(emit(emit(emit(m4, "\n.section .text"@), "\t.global main"@), "main:"@), "\tpush %rbp"@), "\tmov %rsp, %rbp"@);
    lemma_same_tables(m4, m5);
    lemma_stmts_labels(m5, ss);
    lemma_stmts_extends(m5, ss);
    let m6 = g_stmts(m5, ss);
    let m = g_text_section(m4, ss);
    lemma_same_tables(m6, m);
    assert(m.strings.subrange(0, 3) =~= m5.strings);
    assert forall|i: int, j: int| 0 <= i < j < m.strings.len() implies (#[trigger] m.strings[i]).0 != (#[trigger] m.strings[j]).0 by {
        if j < 3 {
            assert(m.strings[i] == m5.strings[i]);
            assert(m.strings[j] == m5.strings[j]);
            assert(m.strings[i].0[4] != m.strings[j].0[4] || m.strings[i].0[8] != m.strings[j].0[8]);
        } else if i < 3 {
            assert(m.strings[i] == m5.strings[i]);
            let k = choose|k: nat| k < m.data_labels && m.strings[j].0 == data_label(k);
            lemma_label_not_format(k, m.strings[i].0);
        }
    }
    assert forall|i: int, j: int| 0 <= i < m.strings.len() && 0 <= j < m.numbers.len() implies (#[trigger] m.strings[i]).0 != (#[trigger] m.numbers[j]).0 by {
        if i < 3 {
            assert(m.strings[i] == m5.strings[i]);
            let k = choose|k: nat| k < m.data_labels && m.numbers[j].0 == data_label(k);
            lemma_label_not_format(k, m.strings[i].0);
        }
    }
}

/// No data label takes the name of a format: after `.LC` a data label has a digit.
proof fn lemma_label_not_format(k: nat, f: Seq<char>)
    requires
        f.len() > 3,
        f[3] == '_',
    ensures
        data_label(k) != f,
{
    reveal_strlit(".LC");
    lemma_decimal_first(k);
    lemma_decimal_len(k);
    assert(data_label(k)[3] == decimal(k)[0]);
}

proof fn lemma_var_slots_keep(m: GenView, b: int)
    ensures
        g_var_slots(m, b).strings == m.strings,
        g_var_slots(m, b).numbers == m.numbers,
        g_var_slots(m, b).data_labels == m.data_labels,
    decreases 90 - b,
{
    if b < 90 {
        lemma_var_slots_keep(emit(m, "VAR_"@ + seq![b as char] + ":\t.double 0.0"@), b + 1);
    }
}

} // verus!
