use minilisp::environment::Environment;
use minilisp::environment::build_global_env;
use minilisp::error::Error;
use minilisp::eval;
use minilisp::expression::Exp;
use minilisp::expression::Function;
use minilisp::expression::NativeFn;
use minilisp::parser::read;

fn num(x: f32) -> Exp {
    Exp::Number(x.to_bits())
}

fn eval_text(env: &mut Environment, text: &str) -> Result<Exp, Error> {
    eval(&read(text).unwrap(), env)
}

fn expect_number(env: &mut Environment, text: &str, expected: f32) {
    let result = eval_text(env, text).unwrap();
    assert!(
        matches!(result, Exp::Number(b) if b == expected.to_bits()),
        "{} did not evaluate to {}",
        text,
        expected
    );
}

#[test]
fn single_layer() {
    let mut env = Environment::new();

    env.define("x", &num(8.0)).unwrap();
    let x = env.lookup("x").unwrap();
    assert!(matches!(x, Exp::Number(val) if val == 8.0f32.to_bits()));

    assert!(env.define("x", &num(2.0)).is_err());

    assert!(env.lookup("y").is_none());
}

#[test]
fn multi_layer() {
    let mut env = Environment::new();
    env.define("x", &num(5.0)).unwrap();
    env.define("y", &num(3.0)).unwrap();

    env.extend();
    env.define("y", &num(2.0)).unwrap();

    let x = env.lookup("x").unwrap();
    assert!(matches!(x, Exp::Number(val) if val == 5.0f32.to_bits()));
    let y = env.lookup("y").unwrap();
    assert!(matches!(y, Exp::Number(val) if val == 2.0f32.to_bits()));

    assert!(env.lookup("z").is_none());
}

#[test]
fn redefinition_fails_and_keeps_the_first_binding() {
    let mut env = Environment::new();
    env.define("x", &num(8.0)).unwrap();
    assert_eq!(env.define("x", &num(2.0)), Err(Error::AlreadyDefined));
    let x = env.lookup("x").unwrap();
    assert!(matches!(x, Exp::Number(val) if val == 8.0f32.to_bits()));
}

#[test]
fn assign_overwrites_the_nearest_binding() {
    let mut env = Environment::new();
    env.define("x", &num(1.0)).unwrap();
    env.extend();
    env.assign("x", &num(9.0)).unwrap();
    assert!(matches!(env.lookup("x").unwrap(), Exp::Number(b) if b == 9.0f32.to_bits()));
    assert_eq!(env.assign("nope", &num(0.0)), Err(Error::UndefinedIdentifier));
}

#[test]
fn parent_of_root_is_none() {
    let env = Environment::new();
    assert!(env.parent().is_none());
    let mut child_env = Environment::new();
    child_env.extend();
    assert_eq!(child_env.parent(), Some(0));
}

#[test]
fn self_evaluating_forms() {
    let mut env = build_global_env();
    expect_number(&mut env, "5", 5.0);
    assert!(matches!(eval_text(&mut env, "true").unwrap(), Exp::Bool(true)));
    assert!(matches!(eval_text(&mut env, "false").unwrap(), Exp::Bool(false)));
}

#[test]
fn identifiers_resolve_through_the_global_frame() {
    let mut env = build_global_env();
    expect_number(&mut env, "five", 5.0);
    assert!(matches!(eval_text(&mut env, "nope"), Err(Error::UndefinedIdentifier)));
}

#[test]
fn arithmetic_end_to_end() {
    let mut env = build_global_env();
    expect_number(&mut env, "(+ (* 2 3) 1)", 7.0);
    expect_number(&mut env, "(- 10 2 3)", 5.0);
    expect_number(&mut env, "(+ 2.5 0.25)", 2.75);
    expect_number(&mut env, "(+)", 0.0);
    expect_number(&mut env, "(*)", 1.0);
}

#[test]
fn definition_then_use() {
    let mut env = build_global_env();
    let defined = eval_text(&mut env, "(def x 5)").unwrap();
    assert!(matches!(defined, Exp::Ident(s) if s == "x"));
    expect_number(&mut env, "(+ x 1)", 6.0);
}

#[test]
fn lambda_application() {
    let mut env = build_global_env();
    expect_number(&mut env, "((lambda (a b) (+ (* 2 a) b)) 3 4)", 10.0);
}

#[test]
fn equals_native_with_if() {
    let mut env = build_global_env();
    env.define("=", &Exp::Function(Function::Native(NativeFn::Equals))).unwrap();
    expect_number(&mut env, "(if (= 1 2) 10 20)", 20.0);
    expect_number(&mut env, "(if (= 2 2) 10 20)", 10.0);
    assert!(matches!(eval_text(&mut env, "(= 1 1 1)").unwrap(), Exp::Bool(true)));
    assert!(matches!(eval_text(&mut env, "(= 1 1 2)").unwrap(), Exp::Bool(false)));
}

#[test]
fn if_truthiness() {
    let mut env = build_global_env();
    expect_number(&mut env, "(if false 1 2)", 2.0);
    expect_number(&mut env, "(if true 1 2)", 1.0);
    // Zero is truthy: only a false boolean fails the test.
    expect_number(&mut env, "(if 0.0 1 2)", 1.0);
    expect_number(&mut env, "(if 0 1 2)", 1.0);
}

#[test]
fn if_evaluates_only_the_taken_branch() {
    let mut env = build_global_env();
    let chosen = eval_text(&mut env, "(if false (def x 1) (def y 2))").unwrap();
    assert!(matches!(chosen, Exp::Ident(s) if s == "y"));
    // Only the taken branch had its side effect: y is bound, x is not.
    expect_number(&mut env, "y", 2.0);
    assert!(matches!(eval_text(&mut env, "x"), Err(Error::UndefinedIdentifier)));
}

#[test]
fn closures_capture_by_reference() {
    // Mutating a captured variable after the closure is made must be
    // visible inside the closure: the capture is a reference to the scope,
    // not a copy of its bindings.
    let mut env = build_global_env();
    eval_text(&mut env, "(def x 1)").unwrap();
    eval_text(&mut env, "(def get (lambda () x))").unwrap();
    env.assign("x", &num(99.0)).unwrap();
    expect_number(&mut env, "(get)", 99.0);
}

#[test]
fn closures_see_their_defining_scope() {
    let mut env = build_global_env();
    eval_text(&mut env, "(def make (lambda (n) (lambda (m) (+ n m))))").unwrap();
    eval_text(&mut env, "(def add2 (make 2))").unwrap();
    expect_number(&mut env, "(add2 40)", 42.0);
}

#[test]
fn extra_arguments_are_ignored_missing_ones_are_an_error() {
    let mut env = build_global_env();
    expect_number(&mut env, "((lambda (a) a) 1 2 3)", 1.0);
    assert!(matches!(eval_text(&mut env, "((lambda (a b) a) 1)"), Err(Error::ArityError)));
}

#[test]
fn error_kinds_surface() {
    let mut env = build_global_env();
    assert!(matches!(eval_text(&mut env, "(1 2)"), Err(Error::NotCallable)));
    assert!(matches!(eval_text(&mut env, "()"), Err(Error::NotCallable)));
    assert!(matches!(eval_text(&mut env, "(+ 1 true)"), Err(Error::TypeError)));
    assert!(matches!(eval_text(&mut env, "(- )"), Err(Error::TypeError)));
    assert!(matches!(eval_text(&mut env, "(if true 1)"), Err(Error::MissingClause)));
    assert!(matches!(eval_text(&mut env, "(def five 1)"), Err(Error::AlreadyDefined)));
    assert!(matches!(eval_text(&mut env, "(def 5 1)"), Err(Error::TypeError)));
    assert!(matches!(eval_text(&mut env, "(lambda (a 5) a)"), Err(Error::TypeError)));
}

#[test]
fn runaway_recursion_hits_the_depth_margin() {
    let mut env = build_global_env();
    eval_text(&mut env, "(def loop (lambda (f) (f f)))").unwrap();
    assert!(matches!(eval_text(&mut env, "(loop loop)"), Err(Error::DepthExceeded)));
}

#[test]
fn display_strings() {
    let mut env = build_global_env();
    let seven = eval_text(&mut env, "(+ (* 2 3) 1)").unwrap();
    assert_eq!(seven.to_display_string(), "7");
    assert_eq!(num(2.5).to_display_string(), "2.5");
    assert_eq!(eval_text(&mut env, "true").unwrap().to_display_string(), "true");
    assert_eq!(read("(+ 1 (a b))").unwrap().to_display_string(), "(+ 1 (a b))");
    assert_eq!(
        eval_text(&mut env, "(lambda (a) a)").unwrap().to_display_string(),
        "#function#"
    );
    assert_eq!(Error::UndefinedIdentifier.message(), "Undefined identifier");
}
