use tram::ast::{Ast, AstNode, Statement};
use tram::executor::{ExitFlag, RuntimeError, VM};
use tram::parse::Parser;
use tram::value::Value;

fn chars(s: &str) -> Vec<char> {
    s.chars().collect()
}

fn run(src: &str) -> (VM, Result<Value, RuntimeError>) {
    let mut p = Parser::new(src);
    let (ast, errs) = p.parse_all();
    assert!(errs.is_empty(), "unexpected diagnostics: {:?}", errs);
    let mut vm = VM::new();
    vm.register_stdlib();
    let r = vm.execute(&ast);
    (vm, r)
}

fn run_value(src: &str) -> Value {
    let (_, r) = run(src);
    r.unwrap()
}

fn get_num(vm: &VM, name: &str) -> i64 {
    match vm.locals.get(&chars(name)) {
        Value::Number(n) => n,
        v => panic!("{} is not a number: {:?}", name, v),
    }
}

#[test]
fn precedence_mul_before_add() {
    assert_eq!(run_value("1 + 2 * 3"), Value::Number(7));
}

#[test]
fn string_concatenation_end_to_end() {
    let (vm, r) = run("\"a\" + \"b\"");
    match r.unwrap() {
        Value::Str(h) => assert_eq!(*vm.heap.str_cell(h), chars("ab")),
        v => panic!("expected string, got {:?}", v),
    }
}

#[test]
fn compound_assignment() {
    assert_eq!(run_value("x = 5; x += 2; x"), Value::Number(7));
}

#[test]
fn missing_map_key_is_nil() {
    let mut p = Parser::new("m.missing");
    let (ast, errs) = p.parse_all();
    assert!(errs.is_empty());
    let mut vm = VM::new();
    vm.register_stdlib();
    let h = vm.heap.alloc_map(Vec::new());
    vm.vm_set(&chars("m"), Value::MapVal(h));
    assert_eq!(vm.execute(&ast), Ok(Value::Nil));
}

#[test]
fn unmatched_brace_is_a_diagnostic() {
    let mut p = Parser::new("{ 1 + 2");
    let (_, errs) = p.parse_all();
    assert!(errs.len() >= 1);
}

#[test]
fn logical_operators_do_not_short_circuit() {
    // false && sideEffect() still invokes sideEffect
    let (vm, r) = run("x = 0 func f() { x = 1 } false && f()");
    assert_eq!(r.unwrap(), Value::Bool(false));
    assert_eq!(get_num(&vm, "x"), 1);
    let (vm, r) = run("y = 0 func g() { y = 1 } true || g()");
    assert_eq!(r.unwrap(), Value::Bool(true));
    assert_eq!(get_num(&vm, "y"), 1);
}

#[test]
fn logical_operators_combine_truthiness() {
    assert_eq!(run_value("true && 1"), Value::Bool(true));
    assert_eq!(run_value("true && nil"), Value::Bool(false));
    assert_eq!(run_value("false || false"), Value::Bool(false));
    assert_eq!(run_value("false || 0"), Value::Bool(true));
}

#[test]
fn loop_breaks_when_condition_first_true() {
    let (vm, r) = run("x = 0 loop { x = x + 1 if x > 2 { break } } x");
    assert_eq!(r.unwrap(), Value::Number(3));
    assert!(matches!(vm.exit_flag, ExitFlag::Continue));
}

#[test]
fn labeled_break_propagates_past_inner_loop() {
    // loop 'out { loop { break 'out; inner_after = 1 }; outer_after = 1 }
    // built directly: the surface grammar never writes labels.
    let break_out: Ast = Box::new(AstNode::Break(Some(chars("out"))));
    let inner_after: Ast =
        Box::new(AstNode::Assign(chars("inner_after"), Box::new(AstNode::Value(tram::ast::Literal::Num(1)))));
    let inner_body: Ast = Box::new(AstNode::Block(
        vec![Statement::Expression(break_out), Statement::Expression(inner_after)],
        false,
    ));
    let inner_loop: Ast = Box::new(AstNode::Loop { label: None, cond: None, run: inner_body });
    let outer_after: Ast =
        Box::new(AstNode::Assign(chars("outer_after"), Box::new(AstNode::Value(tram::ast::Literal::Num(1)))));
    let outer_body: Ast = Box::new(AstNode::Block(
        vec![Statement::Expression(inner_loop), Statement::Expression(outer_after)],
        false,
    ));
    let outer_loop = AstNode::Loop { label: Some(chars("out")), cond: None, run: outer_body };

    let mut vm = VM::new();
    assert_eq!(vm.execute(&outer_loop), Ok(Value::Nil));
    // both loops terminated; the matching outer loop consumed the flag
    assert!(matches!(vm.exit_flag, ExitFlag::Continue));
    // the inner loop ran exactly one iteration, the outer too
    assert_eq!(get_num(&vm, "inner_after"), 1);
    assert_eq!(get_num(&vm, "outer_after"), 1);
}

#[test]
fn loop_with_false_condition_skips_body_but_does_not_terminate() {
    // a conditioned loop is a while-like guard: a false condition only
    // skips the body; only break terminates, here via the budget instead.
    let body: Ast = Box::new(AstNode::Assign(
        chars("ran"),
        Box::new(AstNode::Value(tram::ast::Literal::Num(1))),
    ));
    let cond: Ast = Box::new(AstNode::Value(tram::ast::Literal::Bool(false)));
    let lp = AstNode::Loop { label: None, cond: Some(cond), run: body };
    let mut vm = VM::new();
    vm.fuel = 1000;
    assert_eq!(vm.execute(&lp), Err(RuntimeError::OutOfFuel));
    assert_eq!(vm.locals.get(&chars("ran")), Value::Nil);
}

#[test]
fn if_else_chains() {
    assert_eq!(run_value("if false { 1 } else if true { 2 } else { 3 }"), Value::Number(2));
    assert_eq!(run_value("if nil { 1 } else { 2 }"), Value::Number(2));
    assert_eq!(run_value("if 0 { 1 } else { 2 }"), Value::Number(1));
    assert_eq!(run_value("if \"\" { 1 } else { 2 }"), Value::Number(1));
    assert_eq!(run_value("if false { 1 }"), Value::Nil);
}

#[test]
fn unbound_identifier_is_nil() {
    assert_eq!(run_value("nothing_bound_here"), Value::Nil);
}

#[test]
fn assignment_yields_nil() {
    assert_eq!(run_value("x = 3"), Value::Nil);
}

#[test]
fn scoped_block_isolates_new_names_but_rebinds_existing() {
    let (vm, r) = run("x = 1 { x = 2 y = 5 } x");
    assert_eq!(r.unwrap(), Value::Number(2));
    assert_eq!(vm.locals.get(&chars("y")), Value::Nil);
}

#[test]
fn user_functions_bind_parameters_positionally() {
    assert_eq!(run_value("f = func(a, b) { a - b } f(10, 4)"), Value::Number(6));
}

#[test]
fn named_function_declaration_binds_and_yields() {
    let (vm, r) = run("func inc(n) { n + 1 } inc(41)");
    assert_eq!(r.unwrap(), Value::Number(42));
    assert!(matches!(vm.locals.get(&chars("inc")), Value::Function(_)));
}

#[test]
fn arity_mismatch_is_an_error() {
    let (_, r) = run("f = func(a) { a } f(1, 2)");
    assert_eq!(r, Err(RuntimeError::IncorrectNumberOfArgs));
}

#[test]
fn calling_a_non_function_fails() {
    let (_, r) = run("nil()");
    assert_eq!(r, Err(RuntimeError::NotAFunction));
    let (_, r) = run("3()");
    assert_eq!(r, Err(RuntimeError::NotAFunction));
}

#[test]
fn functions_do_not_close_over_locals() {
    // user functions see only globals by name lookup at call time
    let (_, r) = run("f = func() { hidden } { hidden = 1 f() }");
    // the scoped block bound `hidden` fresh... it rebinds nothing outside,
    // but the call happens inside the block, so lookup still finds it.
    assert_eq!(r.unwrap(), Value::Number(1));
    let (_, r2) = run("g = func() { gone } { gone = 1 } g()");
    assert_eq!(r2.unwrap(), Value::Nil);
}

#[test]
fn add_type_mismatch() {
    let (_, r) = run("1 + nil");
    assert_eq!(r, Err(RuntimeError::CannotAdd));
    let (_, r) = run("\"a\" + 1");
    assert_eq!(r, Err(RuntimeError::CannotAdd));
}

#[test]
fn arithmetic_end_to_end() {
    assert_eq!(run_value("7 / 2"), Value::Number(3));
    assert_eq!(run_value("5 / 0"), Value::Number(0));
    assert_eq!(run_value("2 ** 10"), Value::Number(1024));
    assert_eq!(run_value("7 % 3"), Value::Number(1));
    assert_eq!(run_value("0 - 7 / 2"), Value::Number(-3));
    assert_eq!(run_value("1 == 1"), Value::Bool(true));
    assert_eq!(run_value("1 == 2"), Value::Bool(false));
    assert_eq!(run_value("\"x\" == \"x\""), Value::Bool(true));
    assert_eq!(run_value("2 > 1"), Value::Bool(true));
    assert_eq!(run_value("2 <= 1"), Value::Bool(false));
    assert_eq!(run_value("!nil"), Value::Bool(true));
    assert_eq!(run_value("!1"), Value::Bool(false));
    assert_eq!(run_value("-5"), Value::Number(-5));
}

#[test]
fn print_appends_to_output_log() {
    let (vm, r) = run("print(1, \"a\", true)");
    assert_eq!(r.unwrap(), Value::Nil);
    assert_eq!(vm.output.len(), 1);
    let line: String = vm.output[0].iter().collect();
    assert_eq!(line, "1 a true");
}

#[test]
fn type_names_variants() {
    let check = |src: &str, expect: &str| {
        let (vm, r) = run(src);
        match r.unwrap() {
            Value::Str(h) => assert_eq!(*vm.heap.str_cell(h), chars(expect)),
            v => panic!("expected string, got {:?}", v),
        }
    };
    check("type(1)", "number");
    check("type(\"s\")", "string");
    check("type(true)", "bool");
    check("type(nil)", "nil");
    check("type(type)", "func");
    assert_eq!(run("type(1, 2)").1, Err(RuntimeError::IncorrectNumberOfArgs));
}

#[test]
fn named_function_renders_with_its_name() {
    let (vm, _) = run("func foo() { 1 } print(foo)");
    let line: String = vm.output[0].iter().collect();
    assert_eq!(line, "< func foo >");
    let (vm2, _) = run("print(print)");
    let line: String = vm2.output[0].iter().collect();
    assert_eq!(line, "< native func >");
}

#[test]
fn break_propagates_through_block_statements() {
    // statements after a break in the same block still run; the loop stops
    // at its next iteration boundary.
    let (vm, r) = run("x = 0 loop { break x = x + 1 } x");
    assert_eq!(r.unwrap(), Value::Number(1));
    assert!(matches!(vm.exit_flag, ExitFlag::Continue));
}

#[test]
fn block_yields_last_statement_value() {
    assert_eq!(run_value("{ 5 }"), Value::Number(5));
    assert_eq!(run_value("{ }"), Value::Nil);
    assert_eq!(run_value("{ 1 2 3 }"), Value::Number(3));
}

#[test]
fn assignment_of_identifier_aliases() {
    // b = a binds b to the very same handle: mutation through b shows
    // through a
    let mut vm = VM::new();
    let h = vm.heap.alloc_array(vec![Value::Number(1)]);
    vm.vm_set(&chars("a"), Value::Array(h));
    let node = AstNode::Assign(chars("b"), Box::new(AstNode::Ident(chars("a"))));
    assert_eq!(vm.execute(&node), Ok(Value::Nil));
    match vm.locals.get(&chars("b")) {
        Value::Array(hb) => {
            assert_eq!(hb, h);
            vm.heap.array_set(hb, 0, Value::Number(9));
        },
        v => panic!("b is not an array: {:?}", v),
    }
    match vm.locals.get(&chars("a")) {
        Value::Array(ha) => assert_eq!(vm.heap.array_get(ha, 0), Value::Number(9)),
        v => panic!("a is not an array: {:?}", v),
    }
}

#[test]
fn recursive_user_function() {
    assert_eq!(
        run_value("func fact(n) { if n < 1 { 1 } else { n * fact(n - 1) } } fact(5)"),
        Value::Number(120)
    );
}

#[test]
fn deep_recursion_reports_budget_exhaustion() {
    let mut p = Parser::new("func f(n) { f(n + 1) } f(0)");
    let (ast, errs) = p.parse_all();
    assert!(errs.is_empty());
    let mut vm = VM::new();
    vm.fuel = 300;
    assert_eq!(vm.execute(&ast), Err(RuntimeError::OutOfFuel));
}

#[test]
fn semicolons_separate_statements() {
    assert_eq!(run_value("a = 1; b = 2; a + b"), Value::Number(3));
    assert_eq!(run_value(";;; 4 ;;;"), Value::Number(4));
}

#[test]
fn runaway_execution_reports_budget_exhaustion() {
    let mut p = Parser::new("loop { }");
    let (ast, errs) = p.parse_all();
    assert!(errs.is_empty());
    let mut vm = VM::new();
    vm.fuel = 5000;
    assert_eq!(vm.execute(&ast), Err(RuntimeError::OutOfFuel));
}
