use mago_linter::argument_order::{ArgumentOrderConfig, ArgumentOrderRule};
use mago_linter::ast::{
    Argument, ArgumentList, Assignment, Attribute, AttributeList, Binary, Block, Call, Class, ClassLikeMember,
    ClassLikeMemberSelector, Conditional, DirectVariable, DoWhile, Expression, ExpressionKind, For, Foreach,
    Function, FunctionCall, Identifier, If, Instantiation, Literal, LocalIdentifier, LoopBody, Method, MethodBody,
    MethodCall, NamedArgument, Node, NodeKind, Parameter, ParameterList, PositionalArgument, Program, Span,
    Statement, StaticMethodCall, Switch, SwitchCase, Try, Variable, While,
};
use mago_linter::reporting::{Codebase, FunctionLikeKind, Level, LintContext, SafetyClassification};
use mago_linter::rule::{Category, RuleSettings};

fn sp(start: u32, end: u32) -> Span {
    Span { start, end }
}

fn bytes(s: &str) -> Vec<u8> {
    s.as_bytes().to_vec()
}

fn expr(kind: ExpressionKind) -> Expression {
    Expression { span: sp(0, 0), kind }
}

fn complex() -> Expression {
    expr(ExpressionKind::Other)
}

fn integer(v: u64) -> Expression {
    expr(ExpressionKind::Literal(Literal::Integer { raw: bytes(&v.to_string()), value: Some(v) }))
}

fn string(v: &str) -> Expression {
    expr(ExpressionKind::Literal(Literal::String { raw: bytes(&format!("'{}'", v)), value: Some(bytes(v)) }))
}

fn ident(name: &str) -> Identifier {
    Identifier { span: sp(0, 0), value: bytes(name), resolved_name: bytes(name) }
}

fn local(name: &str) -> LocalIdentifier {
    LocalIdentifier { span: sp(0, 0), value: bytes(name) }
}

/// A named argument whose name and value sit at the given offsets.
fn named_at(name: &str, value: Expression, start: u32, end: u32) -> Argument {
    let name_span = sp(start, start + name.len() as u32);
    let value = Expression { span: sp(end - 1, end), kind: value.kind };
    Argument::Named(NamedArgument { name: LocalIdentifier { span: name_span, value: bytes(name) }, value })
}

fn named(name: &str, value: Expression) -> Argument {
    named_at(name, value, 0, 1)
}

fn args(arguments: Vec<Argument>) -> ArgumentList {
    ArgumentList { left_parenthesis: sp(0, 1), arguments, right_parenthesis: sp(0, 1) }
}

fn params(names: &[&str]) -> ParameterList {
    ParameterList {
        parameters: names
            .iter()
            .map(|n| Parameter { variable: DirectVariable { span: sp(0, 0), name: bytes(n) } })
            .collect(),
    }
}

fn function(name: &str, parameters: &[&str], body: Vec<Statement>) -> Statement {
    Statement::Function(Function {
        attribute_lists: vec![],
        name: local(name),
        parameter_list: params(parameters),
        body: Block { statements: body },
    })
}

fn call(name: &str, arguments: Vec<Argument>) -> Statement {
    Statement::Expression(expr(ExpressionKind::Call(Call::Function(FunctionCall {
        function: Box::new(expr(ExpressionKind::Identifier(ident(name)))),
        argument_list: args(arguments),
    }))))
}

fn class(name: &str, constructor: Option<&[&str]>, attributes: Vec<Attribute>) -> Statement {
    let mut members = vec![ClassLikeMember::Other];
    if let Some(p) = constructor {
        members.push(ClassLikeMember::Method(Method {
            attribute_lists: vec![],
            name: local("__construct"),
            parameter_list: params(p),
            body: MethodBody::Concrete(Block { statements: vec![] }),
        }));
    }
    Statement::Class(Class {
        attribute_lists: vec![AttributeList { attributes }],
        name: local(name),
        members,
    })
}

fn new(class_name: &str, arguments: Vec<Argument>) -> Statement {
    Statement::Expression(expr(ExpressionKind::Instantiation(Instantiation {
        class: Box::new(expr(ExpressionKind::Identifier(ident(class_name)))),
        argument_list: Some(args(arguments)),
    })))
}

fn rule() -> ArgumentOrderRule {
    ArgumentOrderRule::build(RuleSettings { enabled: true, config: ArgumentOrderConfig::default() })
}

fn run_with(statements: Vec<Statement>, codebase: Option<Codebase>) -> LintContext {
    let mut ctx = LintContext::new(vec![], codebase);
    rule().check(&mut ctx, &Node::Program(Program { statements }));
    ctx
}

fn run(statements: Vec<Statement>) -> LintContext {
    run_with(statements, None)
}

#[test]
fn arguments_in_signature_order_are_not_reported() {
    let ctx = run(vec![
        function("createUser", &["$name", "$email", "$age"], vec![]),
        call("createUser", vec![named("name", string("John")), named("email", string("x")), named("age", integer(25))]),
    ]);
    assert!(ctx.issues.is_empty());
}

#[test]
fn arguments_out_of_signature_order_are_reported() {
    // createUser(age: 25, name: "John", email: "john@example.com");
    let ctx = run(vec![
        function("createUser", &["$name", "$email", "$age"], vec![]),
        call(
            "createUser",
            vec![
                named_at("age", integer(25), 11, 18),
                named_at("name", string("John"), 20, 32),
                named_at("email", string("john@example.com"), 34, 58),
            ],
        ),
    ]);
    assert_eq!(ctx.issues.len(), 2);
    let first = &ctx.issues[0];
    assert_eq!(first.level, Level::Warning);
    assert_eq!(first.code, bytes("argument-order"));
    assert_eq!(first.message, bytes("Named argument `name` is not in the same order as the function signature."));
    assert_eq!(first.annotation.span, sp(20, 32));
    assert_eq!(first.annotation.message, bytes("This argument is out of order."));
    assert_eq!(first.help, bytes("Reorder named arguments to match the function signature parameter order."));
    let plan = first.fix.as_ref().expect("the first issue carries the fix");
    assert_eq!(plan.edits.len(), 1);
    assert_eq!(plan.edits[0].start, 11);
    assert_eq!(plan.edits[0].end, 58);
    assert_eq!(
        plan.edits[0].replacement,
        bytes("name: \"John\",\n    email: \"john@example.com\",\n    age: 25")
    );
    assert_eq!(plan.edits[0].safety, SafetyClassification::Safe);
    let second = &ctx.issues[1];
    assert_eq!(second.message, bytes("Named argument `email` is not in the same order as the function signature."));
    assert!(second.fix.is_none());
}

#[test]
fn calls_inside_function_bodies_are_checked() {
    let ctx = run(vec![
        function("pair", &["$a", "$b"], vec![]),
        function("outer", &[], vec![call("pair", vec![named("b", integer(1)), named("a", integer(2))])]),
    ]);
    assert_eq!(ctx.issues.len(), 1);
}

#[test]
fn a_single_named_argument_is_not_checked() {
    let ctx = run(vec![function("pair", &["$a", "$b"], vec![]), call("pair", vec![named("b", integer(1))])]);
    assert!(ctx.issues.is_empty());
}

#[test]
fn unknown_functions_are_not_checked() {
    let ctx = run(vec![call("unknown", vec![named("b", integer(1)), named("a", integer(2))])]);
    assert!(ctx.issues.is_empty());
}

#[test]
fn unknown_names_go_last_in_the_fix() {
    let ctx = run(vec![
        function("f", &["$a", "$b"], vec![]),
        call("f", vec![named("c", integer(1)), named("b", integer(2)), named("a", integer(3))]),
    ]);
    assert_eq!(ctx.issues.len(), 1);
    assert_eq!(ctx.issues[0].message, bytes("Named argument `a` is not in the same order as the function signature."));
    let replacement = &ctx.issues[0].fix.as_ref().unwrap().edits[0].replacement;
    assert_eq!(replacement, &bytes("a: 3,\n    b: 2,\n    c: 1"));
}

#[test]
fn values_are_written_from_their_literals() {
    let float = expr(ExpressionKind::Literal(Literal::Float { raw: bytes("1.5") }));
    let raw_string = expr(ExpressionKind::Literal(Literal::String { raw: bytes("'x\\'y'"), value: None }));
    let ctx = run(vec![
        function("f", &["$a", "$b", "$c", "$d", "$e", "$g", "$h"], vec![]),
        call(
            "f",
            vec![
                named("h", complex()),
                named("a", float),
                named("b", expr(ExpressionKind::Literal(Literal::True))),
                named("c", expr(ExpressionKind::Literal(Literal::False))),
                named("d", expr(ExpressionKind::Literal(Literal::Null))),
                named("e", raw_string),
                named("g", integer(18446744073709551615)),
            ],
        ),
    ]);
    assert_eq!(ctx.issues.len(), 6);
    let replacement = &ctx.issues[0].fix.as_ref().unwrap().edits[0].replacement;
    assert_eq!(
        replacement,
        &bytes(
            "a: 1.5,\n    b: true,\n    c: false,\n    d: null,\n    e: 'x\\'y',\n    g: 18446744073709551615,\n    h: /* complex expression */"
        )
    );
}

#[test]
fn attribute_arguments_follow_the_constructor() {
    let attribute = Attribute {
        name: ident("Route"),
        argument_list: Some(args(vec![
            named("authRequired", expr(ExpressionKind::Literal(Literal::True))),
            named("path", string("/users")),
            named("method", string("POST")),
        ])),
    };
    let ctx = run(vec![
        class("Route", Some(&["$path", "$method", "$authRequired"]), vec![]),
        class("Handler", None, vec![attribute]),
    ]);
    assert_eq!(ctx.issues.len(), 2);
    assert_eq!(
        ctx.issues[0].message,
        bytes("Named argument `path` is not in the same order as the attribute constructor signature.")
    );
    assert_eq!(
        ctx.issues[0].fix.as_ref().unwrap().edits[0].replacement,
        bytes("path: \"/users\",\n    method: \"POST\",\n    authRequired: true")
    );
}

#[test]
fn instantiation_arguments_follow_the_constructor() {
    let ctx = run(vec![
        class("Point", Some(&["$x", "$y"]), vec![]),
        new("Point", vec![named("y", integer(1)), named("x", integer(2))]),
    ]);
    assert_eq!(ctx.issues.len(), 1);
    assert_eq!(ctx.issues[0].message, bytes("Named argument `x` is not in the same order as the constructor signature."));
}

#[test]
fn a_class_without_constructor_has_no_parameters() {
    let ctx = run(vec![class("Empty", None, vec![]), new("Empty", vec![named("b", integer(1)), named("a", integer(2))])]);
    assert!(ctx.issues.is_empty());
}

#[test]
fn a_later_class_without_constructor_keeps_the_earlier_parameters() {
    let ctx = run(vec![
        class("Point", Some(&["$x", "$y"]), vec![]),
        class("Point", None, vec![]),
        new("Point", vec![named("y", integer(1)), named("x", integer(2))]),
    ]);
    assert_eq!(ctx.issues.len(), 1);
}

#[test]
fn a_later_function_replaces_an_earlier_one() {
    let ctx = run(vec![
        function("f", &["$a", "$b"], vec![]),
        function("f", &["$b", "$a"], vec![]),
        call("f", vec![named("b", integer(1)), named("a", integer(2))]),
    ]);
    assert!(ctx.issues.is_empty());
}

#[test]
fn codebase_functions_are_found_in_any_case() {
    let mut codebase = Codebase::new();
    codebase.insert(&vec![], &bytes("Helper"), FunctionLikeKind::Function, vec![bytes("$x"), bytes("$y")]);
    let ctx = run_with(vec![call("HELPER", vec![named("y", integer(1)), named("x", integer(2))])], Some(codebase));
    assert_eq!(ctx.issues.len(), 1);
    assert_eq!(ctx.issues[0].message, bytes("Named argument `x` is not in the same order as the function signature."));
}

#[test]
fn local_functions_shadow_the_codebase() {
    let mut codebase = Codebase::new();
    codebase.insert(&vec![], &bytes("f"), FunctionLikeKind::Function, vec![bytes("$b"), bytes("$a")]);
    let ctx = run_with(
        vec![function("f", &["$a", "$b"], vec![]), call("f", vec![named("b", integer(1)), named("a", integer(2))])],
        Some(codebase),
    );
    assert_eq!(messages(&ctx), vec![bytes("Named argument `a` is not in the same order as the function signature.")]);
}

#[test]
fn local_classes_shadow_the_codebase() {
    let mut codebase = Codebase::new();
    codebase.insert(&bytes("Point"), &bytes("__construct"), FunctionLikeKind::Method, vec![bytes("$y"), bytes("$x")]);
    let ctx = run_with(
        vec![class("Point", Some(&["$x", "$y"]), vec![]), new("Point", vec![named("y", integer(1)), named("x", integer(2))])],
        Some(codebase),
    );
    assert_eq!(messages(&ctx), vec![bytes("Named argument `x` is not in the same order as the constructor signature.")]);
}

#[test]
fn the_proposed_order_passes_the_check() {
    let before = run(vec![
        function("f", &["$a", "$b", "$c"], vec![]),
        call("f", vec![named("c", integer(3)), named("z", integer(9)), named("a", integer(1)), named("b", integer(2))]),
    ]);
    assert_eq!(before.issues.len(), 2);
    assert_eq!(before.issues[0].fix.as_ref().unwrap().edits[0].replacement, bytes("a: 1,\n    b: 2,\n    c: 3,\n    z: 9"));
    let after = run(vec![
        function("f", &["$a", "$b", "$c"], vec![]),
        call("f", vec![named("a", integer(1)), named("b", integer(2)), named("c", integer(3)), named("z", integer(9))]),
    ]);
    assert!(after.issues.is_empty());
}

#[test]
fn unknown_names_do_not_change_what_is_reported() {
    let with_unknown = run(vec![
        function("f", &["$a", "$b", "$c"], vec![]),
        call("f", vec![named("x", integer(0)), named("c", integer(3)), named("y", integer(0)), named("a", integer(1)), named("b", integer(2))]),
    ]);
    let without = run(vec![
        function("f", &["$a", "$b", "$c"], vec![]),
        call("f", vec![named("c", integer(3)), named("a", integer(1)), named("b", integer(2))]),
    ]);
    assert_eq!(messages(&with_unknown), messages(&without));
    assert_eq!(
        messages(&without),
        vec![
            bytes("Named argument `a` is not in the same order as the function signature."),
            bytes("Named argument `b` is not in the same order as the function signature."),
        ]
    );
}

#[test]
fn codebase_entries_of_another_kind_are_ignored() {
    let mut codebase = Codebase::new();
    codebase.insert(&vec![], &bytes("helper"), FunctionLikeKind::Closure, vec![bytes("$x"), bytes("$y")]);
    let ctx = run_with(vec![call("helper", vec![named("y", integer(1)), named("x", integer(2))])], Some(codebase));
    assert!(ctx.issues.is_empty());
}

#[test]
fn static_method_calls_use_the_codebase() {
    let mut codebase = Codebase::new();
    codebase.insert(&bytes("Foo"), &bytes("bar"), FunctionLikeKind::Method, vec![bytes("$a"), bytes("$b")]);
    let static_call = Statement::Expression(expr(ExpressionKind::Call(Call::StaticMethod(StaticMethodCall {
        class: Box::new(expr(ExpressionKind::Identifier(ident("FOO")))),
        method: ClassLikeMemberSelector::Identifier(local("Bar")),
        argument_list: args(vec![named("b", integer(1)), named("a", integer(2))]),
    }))));
    let ctx = run_with(vec![static_call], Some(codebase));
    assert_eq!(ctx.issues.len(), 1);
    assert_eq!(
        ctx.issues[0].message,
        bytes("Named argument `a` is not in the same order as the static method signature.")
    );
}

#[test]
fn method_calls_are_not_reported() {
    let mut codebase = Codebase::new();
    codebase.insert(&bytes("Foo"), &bytes("bar"), FunctionLikeKind::Method, vec![bytes("$a"), bytes("$b")]);
    let this = expr(ExpressionKind::Variable(Variable::Direct(DirectVariable { span: sp(0, 0), name: bytes("$this") })));
    let method_call = Statement::Expression(expr(ExpressionKind::Call(Call::Method(MethodCall {
        object: Box::new(this),
        method: ClassLikeMemberSelector::Identifier(local("bar")),
        argument_list: args(vec![named("b", integer(1)), named("a", integer(2))]),
    }))));
    let ctx = run_with(vec![method_call], Some(codebase));
    assert!(ctx.issues.is_empty());
}

#[test]
fn attribute_constructor_from_codebase() {
    let mut codebase = Codebase::new();
    codebase.insert(&bytes("Route"), &bytes("__construct"), FunctionLikeKind::Method, vec![bytes("$path"), bytes("$method")]);
    let attribute = Attribute {
        name: ident("Route"),
        argument_list: Some(args(vec![named("method", string("GET")), named("path", string("/"))])),
    };
    let ctx = run_with(
        vec![Statement::Function(Function {
            attribute_lists: vec![AttributeList { attributes: vec![attribute] }],
            name: local("handler"),
            parameter_list: params(&[]),
            body: Block { statements: vec![] },
        })],
        Some(codebase),
    );
    assert_eq!(ctx.issues.len(), 1);
}

#[test]
fn positional_arguments_are_ignored_when_ordering() {
    let ctx = run(vec![
        function("f", &["$a", "$b", "$c"], vec![]),
        call(
            "f",
            vec![
                Argument::Positional(PositionalArgument { span: sp(0, 1), value: integer(0) }),
                named("c", integer(1)),
                named("b", integer(2)),
            ],
        ),
    ]);
    assert_eq!(ctx.issues.len(), 1);
    assert_eq!(ctx.issues[0].fix.as_ref().unwrap().edits[0].replacement, bytes("b: 2,\n    c: 1"));
}

fn call_expression(name: &str, arguments: Vec<Argument>) -> Expression {
    expr(ExpressionKind::Call(Call::Function(FunctionCall {
        function: Box::new(expr(ExpressionKind::Identifier(ident(name)))),
        argument_list: args(arguments),
    })))
}

fn out_of_order_call() -> Expression {
    call_expression("f", vec![named("b", integer(1)), named("a", integer(2))])
}

fn variable(name: &str) -> Expression {
    expr(ExpressionKind::Variable(Variable::Direct(DirectVariable { span: sp(0, 0), name: bytes(name) })))
}

fn messages(ctx: &LintContext) -> Vec<Vec<u8>> {
    ctx.issues.iter().map(|i| i.message.clone()).collect()
}

#[test]
fn calls_in_nested_statements_and_assignments_are_checked() {
    // function f($a, $b) {} if (true) { f(b: 1, a: 2); } $x = f(b: 1, a: 2);
    let ctx = run(vec![
        function("f", &["$a", "$b"], vec![]),
        Statement::If(If {
            condition: expr(ExpressionKind::Literal(Literal::True)),
            body: vec![Statement::Expression(out_of_order_call())],
            else_body: vec![],
        }),
        Statement::Expression(expr(ExpressionKind::Assignment(Assignment {
            lhs: Box::new(variable("$x")),
            rhs: Box::new(out_of_order_call()),
        }))),
    ]);
    let expected = bytes("Named argument `a` is not in the same order as the function signature.");
    assert_eq!(messages(&ctx), vec![expected.clone(), expected]);
}

#[test]
fn blocks_are_visited() {
    let ctx = run(vec![
        function("f", &["$a", "$b"], vec![]),
        Statement::Block(Block { statements: vec![call("f", vec![named("b", integer(1)), named("a", integer(2))])] }),
    ]);
    assert_eq!(ctx.issues.len(), 1);
}

#[test]
fn calls_in_argument_values_are_checked_after_the_call() {
    // f(a: f(b: 1, a: 2), c: 3, b: 4): the outer call first, then the inner one.
    let ctx = run(vec![
        function("f", &["$a", "$b", "$c"], vec![]),
        Statement::Expression(call_expression(
            "f",
            vec![named("a", out_of_order_call()), named("c", integer(3)), named("b", integer(4))],
        )),
    ]);
    assert_eq!(
        messages(&ctx),
        vec![
            bytes("Named argument `b` is not in the same order as the function signature."),
            bytes("Named argument `a` is not in the same order as the function signature."),
        ]
    );
}

#[test]
fn loops_switch_try_return_and_echo_are_visited() {
    let stmt = || Statement::Expression(out_of_order_call());
    let ctx = run(vec![
        function("f", &["$a", "$b"], vec![]),
        Statement::For(For {
            initializations: vec![out_of_order_call()],
            conditions: vec![],
            increments: vec![],
            body: LoopBody::Statement(Box::new(stmt())),
        }),
        Statement::Foreach(Foreach { expression: out_of_order_call(), body: LoopBody::ColonDelimited(vec![stmt()]) }),
        Statement::While(While { condition: complex(), body: LoopBody::Statement(Box::new(stmt())) }),
        Statement::DoWhile(DoWhile { statement: Box::new(stmt()), condition: out_of_order_call() }),
        Statement::Switch(Switch {
            subject: complex(),
            cases: vec![SwitchCase { condition: Some(out_of_order_call()), statements: vec![stmt()] }],
        }),
        Statement::Try(Try {
            body: Block { statements: vec![stmt()] },
            catch_bodies: vec![Block { statements: vec![stmt()] }],
            finally_body: Some(Block { statements: vec![stmt()] }),
        }),
        Statement::Return(Some(out_of_order_call())),
        Statement::Echo(vec![out_of_order_call(), integer(1)]),
    ]);
    assert_eq!(ctx.issues.len(), 14);
}

#[test]
fn calls_inside_compound_expressions_are_checked() {
    let ctx = run(vec![
        function("f", &["$a", "$b"], vec![]),
        Statement::Expression(expr(ExpressionKind::Binary(Binary {
            lhs: Box::new(expr(ExpressionKind::Parenthesized(Box::new(out_of_order_call())))),
            rhs: Box::new(expr(ExpressionKind::Unary(Box::new(out_of_order_call())))),
        }))),
        Statement::Expression(expr(ExpressionKind::Array(vec![out_of_order_call(), integer(1)]))),
        Statement::Expression(expr(ExpressionKind::Conditional(Conditional {
            condition: Box::new(out_of_order_call()),
            if_true: Some(Box::new(out_of_order_call())),
            otherwise: Box::new(out_of_order_call()),
        }))),
    ]);
    assert_eq!(ctx.issues.len(), 6);
}

#[test]
fn closures_arrow_functions_other_expressions_and_namespaces_are_visited() {
    let ctx = run(vec![
        function("f", &["$a", "$b"], vec![]),
        Statement::Namespace(vec![
            Statement::Expression(expr(ExpressionKind::Closure(Block {
                statements: vec![Statement::Expression(out_of_order_call())],
            }))),
            Statement::Expression(expr(ExpressionKind::ArrowFunction(Box::new(out_of_order_call())))),
            Statement::Expression(expr(ExpressionKind::Composite(vec![variable("$a"), out_of_order_call()]))),
        ]),
    ]);
    assert_eq!(ctx.issues.len(), 3);
}

#[test]
fn arguments_of_method_calls_and_instantiations_are_checked() {
    let ctx = run(vec![
        function("f", &["$a", "$b"], vec![]),
        Statement::Expression(expr(ExpressionKind::Call(Call::Method(MethodCall {
            object: Box::new(variable("$o")),
            method: ClassLikeMemberSelector::Identifier(local("m")),
            argument_list: args(vec![Argument::Positional(PositionalArgument {
                span: sp(0, 0),
                value: out_of_order_call(),
            })]),
        })))),
        new("Unknown", vec![named("x", out_of_order_call())]),
    ]);
    assert_eq!(ctx.issues.len(), 2);
}

#[test]
fn attribute_argument_values_are_checked() {
    // #[Route(path: new Point(y: 1, x: 2))] class Handler {}
    let ctx = run(vec![
        class("Point", Some(&["$x", "$y"]), vec![]),
        class(
            "Handler",
            None,
            vec![Attribute {
                name: ident("Route"),
                argument_list: Some(args(vec![named(
                    "path",
                    expr(ExpressionKind::Instantiation(Instantiation {
                        class: Box::new(expr(ExpressionKind::Identifier(ident("Point")))),
                        argument_list: Some(args(vec![named("y", integer(1)), named("x", integer(2))])),
                    })),
                )])),
            }],
        ),
    ]);
    assert_eq!(messages(&ctx), vec![bytes("Named argument `x` is not in the same order as the constructor signature.")]);
}

#[test]
fn argument_order_ignores_other_nodes() {
    let mut ctx = LintContext::new(vec![], None);
    rule().check(&mut ctx, &Node::Other);
    assert!(ctx.issues.is_empty());
}

#[test]
fn argument_order_metadata_and_configuration() {
    let meta = ArgumentOrderRule::meta();
    assert_eq!(meta.name, "Argument Order");
    assert_eq!(meta.code, "argument-order");
    assert_eq!(meta.category, Category::Consistency);
    assert!(meta.description.starts_with("Enforces that named arguments are used in the same order as defined \n"));
    assert_eq!(ArgumentOrderRule::targets(), vec![NodeKind::Program]);
    assert!(!ArgumentOrderConfig::default_enabled());
    assert_eq!(ArgumentOrderConfig::default().level(), Level::Warning);
}
