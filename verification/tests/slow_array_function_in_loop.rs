use mago_linter::ast::{
    Argument, ArgumentList, Assignment, Binary, Block, Call, DoWhile, Expression, ExpressionKind, For, Foreach,
    FunctionCall, Identifier, If, LoopBody, Node, NodeKind, PositionalArgument, Span, Statement, Switch, SwitchCase,
    Try, While,
};
use mago_linter::reporting::{Level, LintContext};
use mago_linter::rule::{Category, RuleRequirements, RuleSettings};
use mago_linter::slow_array_function_in_loop::{SlowArrayFunctionInLoopConfig, SlowArrayFunctionInLoopRule};

fn find(source: &str, needle: &str) -> Span {
    let at = source.find(needle).expect("needle in source");
    Span { start: at as u32, end: (at + needle.len()) as u32 }
}

fn bytes(s: &str) -> Vec<u8> {
    s.as_bytes().to_vec()
}

fn other(source: &str, text: &str) -> Expression {
    Expression { span: find(source, text), kind: ExpressionKind::Other }
}

/// `name(args)` where `text` is the whole call as written.
fn call(source: &str, text: &str, name: &str, args: Vec<Argument>) -> Expression {
    let span = find(source, text);
    Expression {
        span,
        kind: ExpressionKind::Call(Call::Function(FunctionCall {
            function: Box::new(Expression {
                span: Span { start: span.start, end: span.start + name.len() as u32 },
                kind: ExpressionKind::Identifier(Identifier {
                    span: Span { start: span.start, end: span.start + name.len() as u32 },
                    value: bytes(name),
                    resolved_name: bytes(name),
                }),
            }),
            argument_list: ArgumentList {
                left_parenthesis: Span { start: 0, end: 0 },
                arguments: args,
                right_parenthesis: Span { start: 0, end: 0 },
            },
        })),
    }
}

fn positional(source: &str, text: &str) -> Argument {
    let span = find(source, text);
    Argument::Positional(PositionalArgument { span, value: Expression { span, kind: ExpressionKind::Other } })
}

fn binary(source: &str, text: &str, lhs: Expression, rhs: Expression) -> Expression {
    Expression { span: find(source, text), kind: ExpressionKind::Binary(Binary { lhs: Box::new(lhs), rhs: Box::new(rhs) }) }
}

fn assign(source: &str, text: &str, lhs: Expression, rhs: Expression) -> Statement {
    Statement::Expression(Expression {
        span: find(source, text),
        kind: ExpressionKind::Assignment(Assignment { lhs: Box::new(lhs), rhs: Box::new(rhs) }),
    })
}

fn rule_with(config: SlowArrayFunctionInLoopConfig) -> SlowArrayFunctionInLoopRule {
    SlowArrayFunctionInLoopRule::build(RuleSettings { enabled: true, config })
}

fn run_with(config: SlowArrayFunctionInLoopConfig, source: &str, node: Node) -> LintContext {
    let mut ctx = LintContext::new(bytes(source), None);
    rule_with(config).check(&mut ctx, &node);
    ctx
}

fn run(source: &str, node: Node) -> LintContext {
    run_with(SlowArrayFunctionInLoopConfig::default(), source, node)
}

fn count_for_loop(source: &str) -> Node {
    let count = call(source, "count($array)", "count", vec![positional(source, "$array")]);
    let condition = binary(source, "$i < count($array)", other(source, "$i"), count);
    Node::For(For {
        initializations: vec![],
        conditions: vec![condition],
        increments: vec![],
        body: LoopBody::Statement(Box::new(Statement::Other)),
    })
}

#[test]
fn count_in_a_for_condition_is_reported() {
    let source = "for ($i = 0; $i < count($array); $i++) { echo $array[$i]; }";
    let ctx = run(source, count_for_loop(source));
    assert_eq!(ctx.issues.len(), 1);
    let issue = &ctx.issues[0];
    assert_eq!(issue.level, Level::Warning);
    assert_eq!(issue.code, bytes("slow-array-function-in-loop"));
    assert_eq!(issue.message, bytes("Array count function called in for loop condition."));
    assert_eq!(issue.annotation.span, find(source, "count($array)"));
    assert_eq!(issue.annotation.message, bytes("This count() call executes on every iteration"));
    assert_eq!(
        issue.note,
        Some(bytes("Calling count() in loop conditions causes unnecessary function call overhead."))
    );
    assert_eq!(
        issue.help,
        bytes("Cache the count result: for ($i = 0, $count = count($array); $i < $count; $i++)")
    );
    assert!(issue.fix.is_none());
}

#[test]
fn count_detection_can_be_switched_off() {
    let source = "for ($i = 0; $i < count($array); $i++) {}";
    let mut config = SlowArrayFunctionInLoopConfig::default();
    config.detect_count_functions = false;
    let ctx = run_with(config, source, count_for_loop(source));
    assert!(ctx.issues.is_empty());
}

#[test]
fn every_for_condition_is_checked() {
    let source = "for (; count($a) > 0, sizeof($b) > 0;) {}";
    let c1 = binary(source, "count($a) > 0", call(source, "count($a)", "count", vec![]), other(source, "0"));
    let c2 = binary(source, "sizeof($b) > 0", call(source, "sizeof($b)", "sizeof", vec![]), other(source, "0"));
    let node = Node::For(For {
        initializations: vec![],
        conditions: vec![c1, c2],
        increments: vec![],
        body: LoopBody::ColonDelimited(vec![]),
    });
    let ctx = run(source, node);
    assert_eq!(ctx.issues.len(), 2);
    assert_eq!(ctx.issues[1].annotation.span, find(source, "sizeof($b)"));
}

#[test]
fn count_in_a_parenthesized_while_condition_is_found() {
    let source = "while ((COUNT($items)) > 0) {}";
    let inner = call(source, "COUNT($items)", "COUNT", vec![]);
    let parenthesized = Expression {
        span: find(source, "(COUNT($items))"),
        kind: ExpressionKind::Parenthesized(Box::new(inner)),
    };
    let condition = binary(source, "(COUNT($items)) > 0", parenthesized, other(source, "0"));
    let node = Node::While(While { condition, body: LoopBody::ColonDelimited(vec![]) });
    let ctx = run(source, node);
    assert_eq!(ctx.issues.len(), 1);
    assert_eq!(ctx.issues[0].message, bytes("Array count function called in while loop condition."));
    assert_eq!(ctx.issues[0].annotation.span, find(source, "COUNT($items)"));
}

#[test]
fn only_the_first_count_of_a_condition_is_reported() {
    let source = "do {} while (count($a) < count($b));";
    let condition = binary(
        source,
        "count($a) < count($b)",
        call(source, "count($a)", "count", vec![]),
        call(source, "count($b)", "count", vec![]),
    );
    let node = Node::DoWhile(DoWhile { statement: Box::new(Statement::Other), condition });
    let ctx = run(source, node);
    assert_eq!(ctx.issues.len(), 1);
    assert_eq!(ctx.issues[0].message, bytes("Array count function called in do-while loop condition."));
    assert_eq!(ctx.issues[0].annotation.span, find(source, "count($a)"));
}

#[test]
fn other_functions_in_conditions_are_not_reported() {
    let source = "while (strlen($s) > 0) {}";
    let condition = binary(source, "strlen($s) > 0", call(source, "strlen($s)", "strlen", vec![]), other(source, "0"));
    let ctx = run(source, Node::While(While { condition, body: LoopBody::ColonDelimited(vec![]) }));
    assert!(ctx.issues.is_empty());
}

fn merge_source_and_body(source: &str) -> LoopBody {
    let merge = call(
        source,
        "array_merge($options, $source->getOptions())",
        "array_merge",
        vec![positional(source, "$options, "), positional(source, "$source->getOptions()")],
    );
    // The first argument's value is `$options` without the comma.
    let merge = match merge.kind {
        ExpressionKind::Call(Call::Function(mut c)) => {
            if let Argument::Positional(p) = &mut c.argument_list.arguments[0] {
                p.value.span = Span { start: p.span.start, end: p.span.start + "$options".len() as u32 };
            }
            Expression { span: merge.span, kind: ExpressionKind::Call(Call::Function(c)) }
        },
        _ => unreachable!(),
    };
    let statement = assign(
        source,
        "$options = array_merge($options, $source->getOptions())",
        other(source, "$options"),
        merge,
    );
    LoopBody::Statement(Box::new(Statement::Block(Block { statements: vec![Statement::Other, statement] })))
}

#[test]
fn accumulative_array_merge_in_a_foreach_is_reported() {
    let source = "foreach ($sources as $source) { $options = array_merge($options, $source->getOptions()); }";
    let body = merge_source_and_body(source);
    let node = Node::Foreach(Foreach { expression: other(source, "$sources"), body });
    let ctx = run(source, node);
    assert_eq!(ctx.issues.len(), 1);
    let issue = &ctx.issues[0];
    assert_eq!(issue.message, bytes("Slow array merging in loop detected."));
    assert_eq!(issue.annotation.span, find(source, "$options = array_merge($options, $source->getOptions())"));
    assert_eq!(issue.annotation.message, bytes("This array_merge call executes on every iteration"));
    assert_eq!(issue.note, Some(bytes("Merging arrays in loops has O(n²) complexity and causes high CPU usage.")));
    assert_eq!(
        issue.help,
        bytes("Collect arrays in the loop, then merge once: $options[] = $source->getOptions(); array_merge(...$options);")
    );
    assert!(issue.fix.is_none());
}

#[test]
fn array_merge_detection_can_be_switched_off() {
    let source = "foreach ($sources as $source) { $options = array_merge($options, $source->getOptions()); }";
    let body = merge_source_and_body(source);
    let mut config = SlowArrayFunctionInLoopConfig::default();
    config.detect_array_merge = false;
    let ctx = run_with(config, source, Node::Foreach(Foreach { expression: other(source, "$sources"), body }));
    assert!(ctx.issues.is_empty());
}

#[test]
fn array_merge_into_another_variable_is_not_reported() {
    let source = "while (true) { $all = array_merge($part, $all); }";
    let merge = call(
        source,
        "array_merge($part, $all)",
        "array_merge",
        vec![positional(source, "$part"), positional(source, "$all)")],
    );
    let statement = assign(source, "$all = array_merge($part, $all)", other(source, "$all"), merge);
    let node = Node::While(While {
        condition: other(source, "true"),
        body: LoopBody::ColonDelimited(vec![statement]),
    });
    let ctx = run(source, node);
    assert!(ctx.issues.is_empty());
}

#[test]
fn array_merge_in_a_for_body_and_count_in_its_condition() {
    let source = "for ($i = 0; $i < count($x); $i++) $x = array_merge($x, $y);";
    let count = call(source, "count($x)", "count", vec![]);
    let condition = binary(source, "$i < count($x)", other(source, "$i"), count);
    let merge = call(
        source,
        "array_merge($x, $y)",
        "array_merge",
        vec![positional(source, "$x, $y"), positional(source, "$y")],
    );
    let merge = match merge.kind {
        ExpressionKind::Call(Call::Function(mut c)) => {
            if let Argument::Positional(p) = &mut c.argument_list.arguments[0] {
                p.value.span = Span { start: p.span.start, end: p.span.start + 2 };
            }
            Expression { span: merge.span, kind: ExpressionKind::Call(Call::Function(c)) }
        },
        _ => unreachable!(),
    };
    let lhs_at = source.find("$x = ").unwrap() as u32;
    let lhs = Expression { span: Span { start: lhs_at, end: lhs_at + 2 }, kind: ExpressionKind::Other };
    let statement = assign(source, "$x = array_merge($x, $y)", lhs, merge);
    let node = Node::For(For {
        initializations: vec![],
        conditions: vec![condition],
        increments: vec![],
        body: LoopBody::Statement(Box::new(statement)),
    });
    let ctx = run(source, node);
    assert_eq!(ctx.issues.len(), 2);
    assert_eq!(ctx.issues[0].message, bytes("Array count function called in for loop condition."));
    assert_eq!(ctx.issues[1].message, bytes("Slow array merging in loop detected."));
}

/// `$o = array_merge($o, $x)`, found at the `nth` place it is written in the source.
fn merge_at(source: &str, nth: usize) -> Statement {
    let text = "$o = array_merge($o, $x)";
    let at = source.match_indices(text).nth(nth).expect("merge in source").0 as u32;
    let span = |from: usize, len: usize| Span { start: at + from as u32, end: at + (from + len) as u32 };
    let name = Expression {
        span: span(5, 11),
        kind: ExpressionKind::Identifier(Identifier {
            span: span(5, 11),
            value: bytes("array_merge"),
            resolved_name: bytes("array_merge"),
        }),
    };
    let first = Argument::Positional(PositionalArgument {
        span: span(17, 2),
        value: Expression { span: span(17, 2), kind: ExpressionKind::Other },
    });
    let second = Argument::Positional(PositionalArgument {
        span: span(21, 2),
        value: Expression { span: span(21, 2), kind: ExpressionKind::Other },
    });
    let merge = Expression {
        span: span(5, 19),
        kind: ExpressionKind::Call(Call::Function(FunctionCall {
            function: Box::new(name),
            argument_list: ArgumentList {
                left_parenthesis: span(16, 1),
                arguments: vec![first, second],
                right_parenthesis: span(23, 1),
            },
        })),
    };
    Statement::Expression(Expression {
        span: span(0, text.len()),
        kind: ExpressionKind::Assignment(Assignment {
            lhs: Box::new(Expression { span: span(0, 2), kind: ExpressionKind::Other }),
            rhs: Box::new(merge),
        }),
    })
}

fn foreach_over(source: &str, body: Statement) -> Node {
    Node::Foreach(Foreach { expression: other(source, "$xs"), body: LoopBody::Statement(Box::new(body)) })
}

#[test]
fn array_merge_inside_an_if_in_the_loop_is_reported() {
    let source = "foreach ($xs as $x) { if ($x) { $o = array_merge($o, $x); } }";
    let branch = Statement::If(If { condition: other(source, "$x)"), body: vec![merge_at(source, 0)], else_body: vec![] });
    let ctx = run(source, foreach_over(source, Statement::Block(Block { statements: vec![branch] })));
    assert_eq!(ctx.issues.len(), 1);
    assert_eq!(ctx.issues[0].message, bytes("Slow array merging in loop detected."));
    assert_eq!(ctx.issues[0].annotation.span, find(source, "$o = array_merge($o, $x)"));
}

#[test]
fn array_merge_in_else_switch_and_try_branches_is_reported() {
    let source = "foreach ($xs as $x) { if ($x) {} else { $o = array_merge($o, $x); } \
        switch ($x) { case 1: $o = array_merge($o, $x); } \
        try { $o = array_merge($o, $x); } catch (E $e) { $o = array_merge($o, $x); } finally { $o = array_merge($o, $x); } }";
    let statements = vec![
        Statement::If(If { condition: other(source, "$x"), body: vec![], else_body: vec![merge_at(source, 0)] }),
        Statement::Switch(Switch {
            subject: other(source, "$x"),
            cases: vec![SwitchCase { condition: Some(other(source, "1")), statements: vec![merge_at(source, 1)] }],
        }),
        Statement::Try(Try {
            body: Block { statements: vec![merge_at(source, 2)] },
            catch_bodies: vec![Block { statements: vec![merge_at(source, 3)] }],
            finally_body: Some(Block { statements: vec![merge_at(source, 4)] }),
        }),
    ];
    let ctx = run(source, foreach_over(source, Statement::Block(Block { statements })));
    assert_eq!(ctx.issues.len(), 5);
    let spans: Vec<Span> = ctx.issues.iter().map(|i| i.annotation.span).collect();
    let expected: Vec<Span> = source
        .match_indices("$o = array_merge($o, $x)")
        .map(|(at, t)| Span { start: at as u32, end: (at + t.len()) as u32 })
        .collect();
    assert_eq!(spans, expected);
}

#[test]
fn array_merge_in_a_nested_loop_is_left_to_that_loop() {
    let source = "foreach ($xs as $x) { while ($x) { $o = array_merge($o, $x); } }";
    let inner = Statement::While(While {
        condition: other(source, "$x)"),
        body: LoopBody::Statement(Box::new(merge_at(source, 0))),
    });
    let ctx = run(source, foreach_over(source, Statement::Block(Block { statements: vec![inner] })));
    assert!(ctx.issues.is_empty());
}

#[test]
fn array_merge_in_a_do_while_body_is_reported() {
    let source = "do { $o = array_merge($o, $x); } while ($x);";
    let node = Node::DoWhile(DoWhile {
        statement: Box::new(Statement::Block(Block { statements: vec![merge_at(source, 0)] })),
        condition: other(source, "$x)"),
    });
    let ctx = run(source, node);
    assert_eq!(ctx.issues.len(), 1);
}

#[test]
fn settings_other_than_level_and_detection_change_nothing() {
    let source = "foreach ($xs as $x) { if ($x) { $o = array_merge($o, $x); } }";
    let node = || {
        let branch = Statement::If(If { condition: other(source, "$x)"), body: vec![merge_at(source, 0)], else_body: vec![] });
        foreach_over(source, branch)
    };
    let mut config = SlowArrayFunctionInLoopConfig::default();
    config.detect_in_nested_loops = !config.detect_in_nested_loops;
    config.auto_fix_array_merge = !config.auto_fix_array_merge;
    config.auto_fix_count_in_loop = !config.auto_fix_count_in_loop;
    config.min_loop_iterations_threshold = 1000;
    config.require_safe_count_caching = !config.require_safe_count_caching;
    config.max_auto_fix_complexity = 0;
    let changed = run_with(config, source, node());
    let default = run(source, node());
    assert_eq!(changed.issues.len(), 1);
    assert_eq!(format!("{:?}", changed.issues), format!("{:?}", default.issues));
}

#[test]
fn function_call_nodes_are_not_reported_directly() {
    let source = "count($a)";
    let node = match call(source, "count($a)", "count", vec![]).kind {
        ExpressionKind::Call(Call::Function(c)) => Node::FunctionCall(c),
        _ => unreachable!(),
    };
    let ctx = run(source, node);
    assert!(ctx.issues.is_empty());
}

#[test]
fn slow_array_metadata_and_configuration() {
    let meta = SlowArrayFunctionInLoopRule::meta();
    assert_eq!(meta.name, "Slow Array Function in Loop");
    assert_eq!(meta.code, "slow-array-function-in-loop");
    assert_eq!(meta.category, Category::BestPractices);
    assert_eq!(meta.requirements, RuleRequirements::Unrestricted);
    assert_eq!(
        SlowArrayFunctionInLoopRule::targets(),
        vec![NodeKind::For, NodeKind::Foreach, NodeKind::While, NodeKind::DoWhile, NodeKind::FunctionCall]
    );
    let config = SlowArrayFunctionInLoopConfig::default();
    assert_eq!(config.level(), Level::Warning);
    assert!(config.detect_array_merge);
    assert!(config.detect_count_functions);
    assert!(config.detect_in_nested_loops);
    assert!(config.auto_fix_array_merge);
    assert!(config.auto_fix_count_in_loop);
    assert_eq!(config.min_loop_iterations_threshold, 2);
    assert!(config.require_safe_count_caching);
    assert_eq!(config.max_auto_fix_complexity, 10);
    assert!(SlowArrayFunctionInLoopConfig::default_enabled());
}
