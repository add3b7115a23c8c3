use vstd::prelude::*;
use crate::ast::{AssignTarget, Expression, Program, RealVar, Statement};
use crate::codegen::listing::{
    GenView, emit, expr_size, fresh, g_assign, g_assign_target, g_bss_section, g_data_section,
    g_disp, g_expr, g_num_disp, g_num_lit, g_number_entries, g_program, g_prompt, g_real_var,
    g_rodata_section, g_setup, g_stmt, g_stmts, g_str_disp, g_str_lit, g_string_entries,
    g_text_section, g_var_slots, listing_text, new_number_label, new_str_label, new_text_label,
    room_for, stmt_size, stmts_size,
};
use crate::text::{push_char, push_decimal};
use crate::types::Type;

verus! {

/// The views of a list of label and value pairs.
pub open spec fn pairs_view(v: Seq<(String, String)>) -> Seq<(Seq<char>, Seq<char>)> {
    v.map_values(|p: (String, String)| (p.0@, p.1@))
}

/// Writes a program as x86-64 assembly text (AT&T syntax) that calls `printf`
/// and `scanf`. Numbers are doubles; each variable has a slot in the data section.
#[derive(Debug)]
pub struct CodeGeneratorX86_64 {
    output: String,
    text_label_count: usize,
    data_label_count: usize,
    string_literals: Vec<(String, String)>,
    float_literals: Vec<(String, String)>,
}

impl View for CodeGeneratorX86_64 {
    type V = GenView;

    closed spec fn view(&self) -> GenView {
        GenView {
            text: self.output@,
            text_labels: self.text_label_count as nat,
            data_labels: self.data_label_count as nat,
            strings: pairs_view(self.string_literals@),
            numbers: pairs_view(self.float_literals@),
        }
    }
}

/// `min(a, b)`.
pub open spec fn capped(a: nat, cap: nat) -> nat {
    if a < cap {
        a
    } else {
        cap
    }
}

/// The number of nodes of an expression, or `cap` if that is larger.
fn expr_nodes(e: &Expression, cap: usize) -> (n: usize)
    requires
        1 <= cap <= usize::MAX / 4 + 1,
    ensures
        n == capped(expr_size(*e), cap as nat),
    decreases e,
{
    match e {
        Expression::Binary { left, right, .. } => {
            let a = expr_nodes(left, cap);
            let b = expr_nodes(right, cap);
            if a >= cap || b >= cap || 1 + a + b >= cap {
                cap
            } else {
                1 + a + b
            }
        },
        Expression::Unary { operand, .. } => {
            let a = expr_nodes(operand, cap);
            if a >= cap || 1 + a >= cap {
                cap
            } else {
                1 + a
            }
        },
        Expression::Grouping(b) => {
            let a = expr_nodes(b, cap);
            if a >= cap || 1 + a >= cap {
                cap
            } else {
                1 + a
            }
        },
        _ => if 1 >= cap {
            cap
        } else {
            1
        },
    }
}

fn option_nodes(e: &Option<Expression>, cap: usize) -> (n: usize)
    requires
        1 <= cap <= usize::MAX / 4 + 1,
    ensures
        n == capped(crate::codegen::listing::opt_size(*e), cap as nat),
{
    match e {
        Some(x) => expr_nodes(x, cap),
        None => 0,
    }
}

/// The sum of capped counts, capped.
fn add_capped(a: usize, b: usize, cap: usize) -> (n: usize)
    requires
        1 <= cap <= usize::MAX / 4 + 1,
        a <= cap,
        b <= cap,
    ensures
        n == if a + b < cap { (a + b) as usize } else { cap },
{
    if a + b >= cap {
        cap
    } else {
        a + b
    }
}

/// The number of nodes of a statement, or `cap` if that is larger.
fn stmt_nodes(s: &Statement, cap: usize) -> (n: usize)
    requires
        1 <= cap <= usize::MAX / 4 + 1,
    ensures
        n == capped(stmt_size(*s), cap as nat),
    decreases s, 1nat,
{
    match s {
        Statement::Display(val) => add_capped(1, option_nodes(val, cap), cap),
        Statement::Prompt(_) => add_capped(1, 0, cap),
        Statement::Assign { source, .. } => add_capped(1, expr_nodes(source, cap), cap),
        Statement::If { condition, consequence, alternative } => {
            let a = add_capped(1, expr_nodes(condition, cap), cap);
            let b = add_capped(a, stmts_nodes(consequence, cap), cap);
            add_capped(b, stmts_nodes(alternative, cap), cap)
        },
        Statement::For { min, max, step, body, .. } => {
            let a = add_capped(1, expr_nodes(min, cap), cap);
            let b = add_capped(a, expr_nodes(max, cap), cap);
            let c = add_capped(b, option_nodes(step, cap), cap);
            add_capped(c, stmts_nodes(body, cap), cap)
        },
    }
}

/// The number of nodes of a statement list, or `cap` if that is larger.
fn stmts_nodes(v: &Vec<Statement>, cap: usize) -> (n: usize)
    requires
        1 <= cap <= usize::MAX / 4 + 1,
    ensures
        n == capped(stmts_size(v@), cap as nat),
    decreases v@, 0nat,
{
    let ghost ss = v@;
    let mut acc: usize = 0;
    let mut i: usize = 0;
    proof {
        assert(ss.skip(0) =~= ss);
    }
    while i < v.len()
        invariant
            ss == v@,
            1 <= cap <= usize::MAX / 4 + 1,
            i <= ss.len(),
            acc <= cap,
            acc < cap ==> acc + stmts_size(ss.skip(i as int)) == stmts_size(ss),
            acc == cap ==> stmts_size(ss) >= cap,
        decreases ss.len() - i,
    {
        proof {
            assert(ss.skip(i as int).drop_first() =~= ss.skip(i + 1));
            assert(ss.skip(i as int)[0] == ss[i as int]);
        }
        acc = add_capped(acc, stmt_nodes(&v[i], cap), cap);
        i = i + 1;
    }
    proof {
        assert(ss.skip(i as int) =~= Seq::<Statement>::empty());
    }
    acc
}

impl CodeGeneratorX86_64 {
    /// Whether `gen_asm` can number the labels of `program` in a `usize`:
    /// whether four labels for each of its nodes, and one more, fit.
    pub fn has_room_for(program: &Program) -> (b: bool)
        ensures
            b == (4 * stmts_size(program@) + 1 <= usize::MAX),
    {
        let cap: usize = (usize::MAX - 1) / 4 + 1;
        let n = stmts_nodes(program.statements(), cap);
        n < cap
    }

    pub fn new() -> (g: Self)
        ensures
            g@ == fresh(),
    {
        let g = Self {
            output: String::new(),
            text_label_count: 0,
            data_label_count: 0,
            string_literals: Vec::new(),
            float_literals: Vec::new(),
        };
        assert(pairs_view(g.string_literals@) =~= Seq::empty());
        assert(pairs_view(g.float_literals@) =~= Seq::empty());
        g
    }

    /// The assembly text for `program`.
    pub fn gen_asm(program: Program) -> (text: String)
        requires
            4 * stmts_size(program@) + 1 <= usize::MAX,
        ensures
            text@ == listing_text(program@),
    {
        let mut code_gen = CodeGeneratorX86_64::new();
        code_gen.generate(&program);
        code_gen.output
    }

    fn emit(&mut self, line: &str)
        ensures
            final(self)@ == emit(old(self)@, line@),
    {
        self.output.append(line);
        push_char(&mut self.output, '\n');
        assert(self.output@ =~= old(self).output@ + line@ + seq!['\n']);
    }

    fn emit2(&mut self, a: &str, b: &str)
        ensures
            final(self)@ == emit(old(self)@, a@ + b@),
    {
        self.output.append(a);
        self.output.append(b);
        push_char(&mut self.output, '\n');
        assert(self.output@ =~= old(self).output@ + (a@ + b@) + seq!['\n']);
    }

    fn emit3(&mut self, a: &str, b: &str, c: &str)
        ensures
            final(self)@ == emit(old(self)@, a@ + b@ + c@),
    {
        self.output.append(a);
        self.output.append(b);
        self.output.append(c);
        push_char(&mut self.output, '\n');
        assert(self.output@ =~= old(self).output@ + (a@ + b@ + c@) + seq!['\n']);
    }

    /// Writes a line that names the variable with letter `letter`.
    fn emit_var(&mut self, a: &str, letter: char, b: &str)
        ensures
            final(self)@ == emit(old(self)@, a@ + seq![letter] + b@),
    {
        self.output.append(a);
        push_char(&mut self.output, letter);
        self.output.append(b);
        push_char(&mut self.output, '\n');
        assert(self.output@ =~= old(self).output@ + (a@ + seq![letter] + b@) + seq!['\n']);
    }

    fn emit_ends_with_var(&mut self, a: &str, letter: char)
        ensures
            final(self)@ == emit(old(self)@, a@ + seq![letter]),
    {
        self.output.append(a);
        push_char(&mut self.output, letter);
        push_char(&mut self.output, '\n');
        assert(self.output@ =~= old(self).output@ + (a@ + seq![letter]) + seq!['\n']);
    }

    fn new_text_label(&mut self) -> (label: String)
        requires
            old(self)@.text_labels < usize::MAX,
        ensures
            (final(self)@, label@) == new_text_label(old(self)@),
    {
        let mut label = String::new();
        label.append(".L");
        push_decimal(&mut label, self.text_label_count);
        self.text_label_count = self.text_label_count + 1;
        label
    }

    fn data_label(&self) -> (label: String)
        ensures
            label@ == crate::codegen::listing::data_label(self@.data_labels),
    {
        let mut label = String::new();
        label.append(".LC");
        push_decimal(&mut label, self.data_label_count);
        label
    }

    fn new_str_label(&mut self, val: String) -> (label: String)
        requires
            old(self)@.data_labels < usize::MAX,
        ensures
            (final(self)@, label@) == new_str_label(old(self)@, val@),
    {
        let label = self.data_label();
        let ghost before = self.string_literals@;
        self.string_literals.push((label.clone(), val));
        self.data_label_count = self.data_label_count + 1;
        assert(pairs_view(self.string_literals@) =~= pairs_view(before).push((label@, val@)));
        label
    }

    fn new_float_label(&mut self, val: String) -> (label: String)
        requires
            old(self)@.data_labels < usize::MAX,
        ensures
            (final(self)@, label@) == new_number_label(old(self)@, val@),
    {
        let label = self.data_label();
        let ghost before = self.float_literals@;
        self.float_literals.push((label.clone(), val));
        self.data_label_count = self.data_label_count + 1;
        assert(pairs_view(self.float_literals@) =~= pairs_view(before).push((label@, val@)));
        label
    }

    fn generate(&mut self, program: &Program)
        requires
            old(self)@ == fresh(),
            4 * stmts_size(program@) + 1 <= usize::MAX,
        ensures
            final(self)@.text == listing_text(program@),
    {
        let ghost m0 = self@;
        let ghost before = self.string_literals@;
        self.string_literals.push((String::from_str(".LC_NUM_PRINT_FMT"), String::from_str("%f\\n")));
        self.string_literals.push((String::from_str(".LC_STR_PRINT_FMT"), String::from_str("%s\\n")));
        self.string_literals.push((String::from_str(".LC_NUM_SCAN_FMT"), String::from_str("%lf")));
        proof {
            assert(pairs_view(self.string_literals@) =~= m0.strings.push(
                (".LC_NUM_PRINT_FMT"@, "%f\\n"@),
            ).push((".LC_STR_PRINT_FMT"@, "%s\\n"@)).push((".LC_NUM_SCAN_FMT"@, "%lf"@)));
        }
        self.new_float_label(String::from_str("1"));
        assert(self@ == g_setup(m0));
        self.gen_data_section();
        self.gen_bss_section();
        self.gen_text_section(program);
        self.gen_rodata_section();
    }

    fn gen_data_section(&mut self)
        ensures
            final(self)@ == g_data_section(old(self)@),
            final(self)@.text_labels == old(self)@.text_labels,
            final(self)@.data_labels == old(self)@.data_labels,
    {
        self.emit(".section .data");
        self.emit(".align 8");
        let mut byte: u8 = 65;
        while byte < 90
            invariant
                65 <= byte <= 90,
                g_data_section(old(self)@) == g_var_slots(self@, byte as int),
                self@.text_labels == old(self)@.text_labels,
                self@.data_labels == old(self)@.data_labels,
            decreases 90 - byte,
        {
            let letter = byte as char;
            self.emit_var("VAR_", letter, ":\t.double 0.0");
            byte = byte + 1;
        }
    }

    fn gen_bss_section(&mut self)
        ensures
            final(self)@ == g_bss_section(old(self)@),
    {
        self.emit("\n.section .bss");
        self.emit("\t.comm .LC_NUM_SCAN_BUF, 8, 8");
    }

    fn gen_text_section(&mut self, program: &Program)
        requires
            room_for(old(self)@, stmts_size(program@)),
        ensures
            final(self)@ == g_text_section(old(self)@, program@),
    {
        self.emit("\n.section .text");
        self.emit("\t.global main");
        self.gen_program(program);
    }

    fn gen_program(&mut self, program: &Program)
        requires
            room_for(old(self)@, stmts_size(program@)),
        ensures
            final(self)@ == g_program(old(self)@, program@),
    {
        self.emit("main:");
        self.emit("\tpush %rbp");
        self.emit("\tmov %rsp, %rbp");
        self.gen_statements(program.statements());
        self.emit("\tmov %rbp, %rsp");
        self.emit("\tpop %rbp");
        self.emit("\tmov $0, %rax");
        self.emit("\tret");
    }

    /// The code of each statement, in order.
    fn gen_statements(&mut self, statements: &Vec<Statement>)
        requires
            room_for(old(self)@, stmts_size(statements@)),
        ensures
            final(self)@ == g_stmts(old(self)@, statements@),
            final(self)@.text_labels <= old(self)@.text_labels + 4 * stmts_size(statements@),
            final(self)@.data_labels <= old(self)@.data_labels + stmts_size(statements@),
        decreases statements@, 2nat,
    {
        let ghost ss = statements@;
        let mut i: usize = 0;
        proof {
            assert(ss.skip(0) =~= ss);
        }
        while i < statements.len()
            invariant
                ss == statements@,
                i <= ss.len(),
                g_stmts(old(self)@, ss) == g_stmts(self@, ss.skip(i as int)),
                self@.text_labels + 4 * stmts_size(ss.skip(i as int)) <= old(self)@.text_labels + 4
                    * stmts_size(ss),
                self@.data_labels + stmts_size(ss.skip(i as int)) <= old(self)@.data_labels
                    + stmts_size(ss),
                room_for(old(self)@, stmts_size(ss)),
            decreases ss.len() - i,
        {
            proof {
                assert(ss.skip(i as int).drop_first() =~= ss.skip(i + 1));
                assert(ss.skip(i as int)[0] == ss[i as int]);
            }
            self.gen_statement(&statements[i]);
            i = i + 1;
        }
        proof {
            assert(ss.skip(ss.len() as int) =~= Seq::<Statement>::empty());
        }
    }

    fn gen_statement(&mut self, statement: &Statement)
        requires
            room_for(old(self)@, stmt_size(*statement)),
        ensures
            final(self)@ == g_stmt(old(self)@, *statement),
            final(self)@.text_labels <= old(self)@.text_labels + 4 * stmt_size(*statement),
            final(self)@.data_labels <= old(self)@.data_labels + stmt_size(*statement),
        decreases statement, 1nat,
    {
        match statement {
            Statement::Display(val) => self.gen_disp(val),
            Statement::Prompt(var) => self.gen_prompt(var),
            Statement::Assign { target, source } => self.gen_assign(target, source),
            Statement::If { .. } => self.gen_if(statement),
            Statement::For { .. } => self.gen_for(statement),
        }
    }

    fn gen_disp(&mut self, val: &Option<Expression>)
        requires
            room_for(old(self)@, 1 + crate::codegen::listing::opt_size(*val)),
        ensures
            final(self)@ == g_disp(old(self)@, *val),
            final(self)@.text_labels == old(self)@.text_labels,
            final(self)@.data_labels <= old(self)@.data_labels + crate::codegen::listing::opt_size(*val),
    {
        match val {
            Some(e) => {
                let expr_type = self.gen_expr(e);
                match expr_type {
                    Some(t) => match t {
                        Type::Number => self.gen_num_disp(),
                        Type::Str => self.gen_str_disp(),
                    },
                    None => self.emit("# Error: Expression is none."),
                }
            },
            None => {},
        }
    }

    fn gen_expr(&mut self, e: &Expression) -> (t: Option<Type>)
        requires
            room_for(old(self)@, expr_size(*e)),
        ensures
            (final(self)@, t) == g_expr(old(self)@, *e),
            final(self)@.text_labels == old(self)@.text_labels,
            final(self)@.data_labels <= old(self)@.data_labels + expr_size(*e),
        decreases e, 1nat,
    {
        match e {
            Expression::Binary { .. } => self.gen_bin_expr(e),
            Expression::Unary { op, operand } => self.gen_un_expr(*op, operand),
            Expression::NumberLiteral(x) => self.gen_num_lit(x),
            Expression::StringLiteral(x) => self.gen_str_lit(x),
            Expression::RealVariable(var) => self.gen_real_var(*var),
            Expression::Grouping(b) => self.gen_expr(b),
        }
    }

    /// The code of a binary expression `e`: both operands, then the operator.
    fn gen_bin_expr(&mut self, e: &Expression) -> (t: Option<Type>)
        requires
            e is Binary,
            room_for(old(self)@, expr_size(*e)),
        ensures
            (final(self)@, t) == g_expr(old(self)@, *e),
            final(self)@.text_labels == old(self)@.text_labels,
            final(self)@.data_labels <= old(self)@.data_labels + expr_size(*e),
        decreases e, 0nat,
    {
        match e {
            Expression::Binary { op, left, right } => {
                // Evaluate left side
                let left_type = self.gen_expr(left);
                match left_type {
                    Some(t) => match t {
                        Type::Number => {},
                        Type::Str => return None,
                    },
                    None => return None,
                }
                // Evaluate right side
                let right_type = self.gen_expr(right);
                match right_type {
                    Some(t) => match t {
                        Type::Number => {},
                        Type::Str => return None,
                    },
                    None => return None,
                }
                // Pop the right operand into %xmm0 and the left one into %xmm1
                self.emit("\tmovsd (%rsp), %xmm0");
                self.emit("\taddq $16, %rsp");
                self.emit("\tmovsd (%rsp), %xmm1");
                self.emit("\taddq $16, %rsp");
                match op {
                    crate::ast::BinaryOperator::Add => self.emit("\taddsd %xmm0, %xmm1"),
                    crate::ast::BinaryOperator::Sub => self.emit("\tsubsd %xmm0, %xmm1"),
                    crate::ast::BinaryOperator::Mul => self.emit("\tmulsd %xmm0, %xmm1"),
                    crate::ast::BinaryOperator::Div => self.emit("\tdivsd %xmm0, %xmm1"),
                    crate::ast::BinaryOperator::Equal => self.emit(
                        "\tcmpsd $0, %xmm0, %xmm1\n\tmovsd .LC0(%rip), %xmm2\n\tandpd %xmm2, %xmm1",
                    ),
                    _ => return None,
                }
                // Push the result
                self.emit("\tsubq $16, %rsp");
                self.emit("\tmovsd %xmm1, (%rsp)");
                match op {
                    crate::ast::BinaryOperator::Add => self.emit("# Evaluated: Add"),
                    crate::ast::BinaryOperator::Sub => self.emit("# Evaluated: Sub"),
                    crate::ast::BinaryOperator::Mul => self.emit("# Evaluated: Mul"),
                    crate::ast::BinaryOperator::Div => self.emit("# Evaluated: Div"),
                    _ => self.emit("# Evaluated: Equal"),
                }
                Some(Type::Number)
            },
            _ => None,
        }
    }

    /// Unary operators have no code: the expression gives no type.
    fn gen_un_expr(&mut self, op: crate::ast::UnaryOperator, operand: &Expression) -> (t: Option<Type>)
        ensures
            final(self)@ == old(self)@,
            t is None,
    {
        None
    }

    fn gen_num_lit(&mut self, val: &String) -> (t: Option<Type>)
        requires
            old(self)@.data_labels < usize::MAX,
        ensures
            (final(self)@, t) == g_num_lit(old(self)@, val@),
    {
        let num_label = self.new_float_label(val.clone());
        self.emit3("\tmovsd ", num_label.as_str(), "(%rip), %xmm0");
        // Push the value
        self.emit("\tsubq $16, %rsp");
        self.emit("\tmovsd %xmm0, (%rsp)");
        self.emit2("# Evaluated: ", val.as_str());
        Some(Type::Number)
    }

    fn gen_str_lit(&mut self, val: &String) -> (t: Option<Type>)
        requires
            old(self)@.data_labels < usize::MAX,
        ensures
            (final(self)@, t) == g_str_lit(old(self)@, val@),
    {
        let str_label = self.new_str_label(val.clone());
        self.emit3("\tlea ", str_label.as_str(), "(%rip), %rax");
        self.emit("\tpush %rax");
        self.emit3("# Evaluated: \"", val.as_str(), "\"");
        Some(Type::Str)
    }

    fn gen_real_var(&mut self, var: RealVar) -> (t: Option<Type>)
        ensures
            (final(self)@, t) == g_real_var(old(self)@, var),
    {
        // Fetch the variable from the data section and push it
        self.emit_var("\tmovsd VAR_", RealVar::to_char(var), "(%rip), %xmm0");
        self.emit("\tsubq $16, %rsp");
        self.emit("\tmovsd %xmm0, (%rsp)");
        self.emit_ends_with_var("# Read variable: ", RealVar::to_char(var));
        Some(Type::Number)
    }

    fn gen_num_disp(&mut self)
        ensures
            final(self)@ == g_num_disp(old(self)@),
    {
        self.emit("\tmovsd (%rsp), %xmm0");
        self.emit("\taddq $16, %rsp");
        self.emit("\tlea .LC_NUM_PRINT_FMT(%rip), %rdi");
        self.emit("\tmov $1, %al");
        self.emit("\tcall printf");
        self.emit("# Printed a number");
    }

    fn gen_str_disp(&mut self)
        ensures
            final(self)@ == g_str_disp(old(self)@),
    {
        self.emit("\tpop %rsi");
        self.emit("\tlea .LC_STR_PRINT_FMT(%rip), %rdi");
        self.emit("\tmov $0, %al");
        self.emit("\tcall printf");
        self.emit("# Printed a string");
    }

    fn gen_prompt(&mut self, var: &AssignTarget)
        ensures
            final(self)@ == g_prompt(old(self)@, *var),
    {
        self.emit("\tleaq .LC_NUM_SCAN_FMT(%rip), %rdi");
        self.emit("\tleaq .LC_NUM_SCAN_BUF(%rip), %rsi");
        self.emit("\tmovb $0, %al");
        self.emit("\tcall scanf");
        self.emit("\tmovsd .LC_NUM_SCAN_BUF(%rip), %xmm0");
        let v = match var {
            AssignTarget::RealVariable(v) => *v,
        };
        self.emit_var("\tmovsd %xmm0, VAR_", RealVar::to_char(v), "(%rip)");
    }

    fn gen_assign(&mut self, target: &AssignTarget, source: &Expression)
        requires
            room_for(old(self)@, expr_size(*source)),
        ensures
            final(self)@ == g_assign(old(self)@, *target, *source),
            final(self)@.text_labels == old(self)@.text_labels,
            final(self)@.data_labels <= old(self)@.data_labels + expr_size(*source),
    {
        let expr = self.gen_expr(source);
        match expr {
            Some(t) => match t {
                Type::Number => {},
                Type::Str => return,
            },
            None => return,
        }
        // Pop the value
        self.emit("\tmovsd (%rsp), %xmm0");
        self.emit("\taddq $16, %rsp");
        self.gen_assign_target(target);
    }

    fn gen_assign_target(&mut self, target: &AssignTarget)
        ensures
            final(self)@ == g_assign_target(old(self)@, *target),
    {
        match target {
            AssignTarget::RealVariable(real_var) => {
                self.emit_var("\tmovsd %xmm0, VAR_", RealVar::to_char(*real_var), "(%rip)");
                self.emit_ends_with_var("# Wrote to variable ", RealVar::to_char(*real_var));
            },
        }
    }

    /// The code of an `If` statement: the test, the `Then` block, the `Else` block.
    fn gen_if(&mut self, statement: &Statement)
        requires
            statement is If,
            room_for(old(self)@, stmt_size(*statement)),
        ensures
            final(self)@ == g_stmt(old(self)@, *statement),
            final(self)@.text_labels <= old(self)@.text_labels + 4 * stmt_size(*statement),
            final(self)@.data_labels <= old(self)@.data_labels + stmt_size(*statement),
        decreases statement, 0nat,
    {
        match statement {
            Statement::If { condition, consequence, alternative } => {
                let expr = self.gen_expr(condition);
                match expr {
                    Some(t) => match t {
                        Type::Number => {},
                        Type::Str => return,
                    },
                    None => return,
                }
                // Pop the value
                self.emit("\tmovsd (%rsp), %xmm0");
                self.emit("\taddq $16, %rsp");
                // Compare it to 0
                self.emit("# If statement:");
                self.emit("\txorpd %xmm1, %xmm1");
                self.emit("\tcomisd %xmm0, %xmm1");
                let false_label = self.new_text_label();
                let done_label = self.new_text_label();
                self.emit2("\tje ", false_label.as_str());
                // The then block
                self.emit("# Then block:");
                self.gen_statements(consequence);
                self.emit2("\tjmp ", done_label.as_str());
                // The else block
                self.emit("# Else block:");
                self.emit2(false_label.as_str(), ":");
                self.gen_statements(alternative);
                self.emit("# Done:");
                self.emit2(done_label.as_str(), ":");
            },
            _ => {},
        }
    }

    /// The code of a `For` loop. The loop keeps a 48-byte frame: the direction
    /// at offset 0 (set when the step is negative), the step at offset 16 and
    /// the end value at offset 32; it runs while the variable has not passed
    /// the end value in the step's direction.
    fn gen_for(&mut self, statement: &Statement)
        requires
            statement is For,
            room_for(old(self)@, stmt_size(*statement)),
        ensures
            final(self)@ == g_stmt(old(self)@, *statement),
            final(self)@.text_labels <= old(self)@.text_labels + 4 * stmt_size(*statement),
            final(self)@.data_labels <= old(self)@.data_labels + stmt_size(*statement),
        decreases statement, 0nat,
    {
        match statement {
            Statement::For { variable, min, max, step, body } => {
                let var_char = RealVar::to_char(*variable);
                // The start value goes into the variable
                if self.gen_expr(min).is_none() {
                    return;
                }
                self.emit("\tmovsd (%rsp), %xmm0");
                self.emit("\taddq $16, %rsp");
                self.emit_var("\tmovsd %xmm0, VAR_", var_char, "(%rip)");
                // The end value
                if self.gen_expr(max).is_none() {
                    return;
                }
                self.emit("\tmovsd (%rsp), %xmm3");
                self.emit("\taddq $16, %rsp");
                // The loop's frame, with the end value at offset 32
                self.emit("\tsubq $48, %rsp");
                self.emit("\tmovsd %xmm3, 32(%rsp)");
                // The step, and the direction flag
                match step {
                    Some(e) => {
                        if self.gen_expr(e).is_none() {
                            return;
                        }
                        self.emit("\tmovsd (%rsp), %xmm4");
                        self.emit("\taddq $16, %rsp");
                        self.emit("\tmovsd %xmm4, 16(%rsp)");
                        self.emit("\tmovmskpd %xmm4, %eax");
                        self.emit("\tand $1, %eax");
                        self.emit("\tmovl %eax, 0(%rsp)");
                    },
                    None => {
                        self.emit("\tmovsd .LC0(%rip), %xmm4");
                        self.emit("\tmovsd %xmm4, 16(%rsp)");
                        self.emit("\tmovl $0, 0(%rsp)");
                    },
                }
                let loop_body = self.new_text_label();
                let loop_check = self.new_text_label();
                let neg_label = self.new_text_label();
                let done_label = self.new_text_label();
                self.emit2("\tjmp ", loop_check.as_str());
                self.emit("# Starting for loop by jumping to check");
                // The body
                self.emit2(loop_body.as_str(), ":");
                self.gen_statements(body);
                // The step
                self.emit("# Incrementation");
                self.emit("\tmovsd 16(%rsp), %xmm4");
                self.emit_var("\tmovsd VAR_", var_char, "(%rip), %xmm0");
                self.emit("\taddsd %xmm4, %xmm0");
                self.emit_var("\tmovsd %xmm0, VAR_", var_char, "(%rip)");
                // The check
                self.emit("# Loop checking");
                self.emit2(loop_check.as_str(), ":");
                self.emit("\tmovl 0(%rsp), %eax");
                self.emit("\ttest %eax, %eax");
                self.emit2("\tjnz ", neg_label.as_str());
                // Forward: go on while the end value is at least the variable
                self.emit("\tmovsd 32(%rsp), %xmm3");
                self.emit_var("\tmovsd VAR_", var_char, "(%rip), %xmm0");
                self.emit("\tcomisd %xmm0, %xmm3");
                self.emit2("\tjae ", loop_body.as_str());
                self.emit2("\tjmp ", done_label.as_str());
                // Backward: go on while the variable is at least the end value
                self.emit2(neg_label.as_str(), ":");
                self.emit("\tmovsd 32(%rsp), %xmm3");
                self.emit_var("\tmovsd VAR_", var_char, "(%rip), %xmm0");
                self.emit("\tcomisd %xmm3, %xmm0");
                self.emit2("\tjae ", loop_body.as_str());
                // Done: drop the frame
                self.emit2(done_label.as_str(), ":");
                self.emit("\taddq $48, %rsp");
                self.emit("# Loop done");
            },
            _ => {},
        }
    }

    fn gen_rodata_section(&mut self)
        ensures
            final(self)@ == g_rodata_section(old(self)@),
    {
        self.emit("\n.section .rodata");
        let ghost m1 = self@;
        let mut i: usize = 0;
        proof {
            assert(m1.strings.skip(0) =~= m1.strings);
        }
        while i < self.string_literals.len()
            invariant
                m1 == emit(old(self)@, "\n.section .rodata"@),
                i <= self.string_literals.len(),
                self@.strings == m1.strings,
                self@.numbers == m1.numbers,
                g_string_entries(m1, m1.strings) == g_string_entries(self@, m1.strings.skip(i as int)),
            decreases self.string_literals.len() - i,
        {
            let label = self.string_literals[i].0.clone();
            let value = self.string_literals[i].1.clone();
            proof {
                assert(m1.strings.skip(i as int).drop_first() =~= m1.strings.skip(i + 1));
                assert(m1.strings.skip(i as int)[0] == (label@, value@));
            }
            self.emit2(label.as_str(), ":");
            self.emit3("\t.string \"", value.as_str(), "\"");
            i = i + 1;
        }
        proof {
            assert(m1.strings.skip(i as int) =~= Seq::<(Seq<char>, Seq<char>)>::empty());
        }
        self.emit(".align 8");
        let ghost m2 = self@;
        let mut k: usize = 0;
        proof {
            assert(m2.numbers.skip(0) =~= m2.numbers);
        }
        while k < self.float_literals.len()
            invariant
                m2.numbers == m1.numbers,
                k <= self.float_literals.len(),
                self@.numbers == m2.numbers,
                g_number_entries(m2, m2.numbers) == g_number_entries(self@, m2.numbers.skip(k as int)),
            decreases self.float_literals.len() - k,
        {
            let label = self.float_literals[k].0.clone();
            let value = self.float_literals[k].1.clone();
            proof {
                assert(m2.numbers.skip(k as int).drop_first() =~= m2.numbers.skip(k + 1));
                assert(m2.numbers.skip(k as int)[0] == (label@, value@));
            }
            self.emit2(label.as_str(), ":");
            self.emit2("\t.double ", value.as_str());
            k = k + 1;
        }
        proof {
            assert(m2.numbers.skip(k as int) =~= Seq::<(Seq<char>, Seq<char>)>::empty());
        }
    }
}

} // verus!
