use mago_linter::ast::{
    Argument, ArgumentList, Expression, ExpressionKind, LocalIdentifier, NamedArgument, Node, NodeKind,
    PositionalArgument, Program, Span,
};
use mago_linter::named_argument_ordering::{NamedArgumentOrderingConfig, NamedArgumentOrderingRule};
use mago_linter::reporting::{Level, LintContext, SafetyClassification};
use mago_linter::rule::{Category, PhpVersion, PhpVersionRange, RuleRequirements, RuleSettings};

/// The span of the `nth` occurrence of `needle` in `source`.
fn find(source: &str, needle: &str, nth: usize) -> Span {
    let mut from = 0;
    let mut found = 0;
    loop {
        let at = from + source[from..].find(needle).expect("needle in source");
        if found == nth {
            return Span { start: at as u32, end: (at + needle.len()) as u32 };
        }
        found += 1;
        from = at + 1;
    }
}

fn other(span: Span) -> Expression {
    Expression { span, kind: ExpressionKind::Other }
}

/// `name: value`, the nth time `name: value` occurs.
fn named(source: &str, name: &str, value: &str, nth: usize) -> Argument {
    let whole = find(source, &format!("{}: {}", name, value), nth);
    let name_span = Span { start: whole.start, end: whole.start + name.len() as u32 };
    let value_span = Span { start: whole.end - value.len() as u32, end: whole.end };
    Argument::Named(NamedArgument {
        name: LocalIdentifier { span: name_span, value: name.as_bytes().to_vec() },
        value: other(value_span),
    })
}

fn positional(source: &str, text: &str) -> Argument {
    let span = find(source, text, 0);
    Argument::Positional(PositionalArgument { span, value: other(span) })
}

fn list(source: &str, arguments: Vec<Argument>) -> ArgumentList {
    let open = source.find('(').unwrap();
    let close = source.rfind(')').unwrap();
    ArgumentList {
        left_parenthesis: Span { start: open as u32, end: open as u32 + 1 },
        arguments,
        right_parenthesis: Span { start: close as u32, end: close as u32 + 1 },
    }
}

fn rule() -> NamedArgumentOrderingRule {
    NamedArgumentOrderingRule::build(RuleSettings { enabled: true, config: NamedArgumentOrderingConfig::default() })
}

fn run(source: &str, node: Node) -> LintContext {
    let mut ctx = LintContext::new(source.as_bytes().to_vec(), None);
    rule().check(&mut ctx, &node);
    ctx
}

#[test]
fn alphabetical_arguments_are_not_reported() {
    let source = "configure(host: 'localhost', port: 8080, ssl: true, username: 'admin');";
    let args = vec![
        named(source, "host", "'localhost'", 0),
        named(source, "port", "8080", 0),
        named(source, "ssl", "true", 0),
        named(source, "username", "'admin'", 0),
    ];
    let ctx = run(source, Node::ArgumentList(list(source, args)));
    assert!(ctx.issues.is_empty());
}

#[test]
fn unordered_arguments_are_reported_with_a_sorting_fix() {
    let source = "configure(username: 'admin', host: 'localhost', ssl: true, port: 8080);";
    let args = vec![
        named(source, "username", "'admin'", 0),
        named(source, "host", "'localhost'", 0),
        named(source, "ssl", "true", 0),
        named(source, "port", "8080", 0),
    ];
    let l = list(source, args);
    let span = l.span();
    let ctx = run(source, Node::ArgumentList(l));
    assert_eq!(ctx.issues.len(), 1);
    let issue = &ctx.issues[0];
    assert_eq!(issue.level, Level::Warning);
    assert_eq!(issue.code, b"named-argument-ordering".to_vec());
    assert_eq!(issue.message, b"Named arguments should be ordered alphabetically by parameter name.".to_vec());
    assert_eq!(issue.annotation.span, span);
    assert_eq!(issue.annotation.message, b"These named arguments are not in alphabetical order.".to_vec());
    assert_eq!(issue.note, None);
    assert_eq!(
        issue.help,
        b"Consider reordering the named arguments alphabetically to improve readability.".to_vec()
    );
    let plan = issue.fix.as_ref().expect("a fix");
    assert_eq!(plan.edits.len(), 1);
    let edit = &plan.edits[0];
    assert_eq!(edit.start, 10);
    assert_eq!(edit.end, source.len() as u32 - 2);
    assert_eq!(edit.replacement, b"host: 'localhost', port: 8080, ssl: true, username: 'admin'".to_vec());
    assert_eq!(edit.safety, SafetyClassification::Safe);
}

#[test]
fn positional_arguments_before_named_ones_are_kept_first() {
    let source = "f($x, b: 1, a: 2);";
    let args = vec![positional(source, "$x"), named(source, "b", "1", 0), named(source, "a", "2", 0)];
    let ctx = run(source, Node::ArgumentList(list(source, args)));
    assert_eq!(ctx.issues.len(), 1);
    let edit = &ctx.issues[0].fix.as_ref().unwrap().edits[0];
    assert_eq!(edit.replacement, b"$x, a: 2, b: 1".to_vec());
}

#[test]
fn positional_argument_after_named_one_skips_the_list() {
    let source = "f(b: 1, a: 2, $x);";
    let args = vec![named(source, "b", "1", 0), named(source, "a", "2", 0), positional(source, "$x")];
    let ctx = run(source, Node::ArgumentList(list(source, args)));
    assert!(ctx.issues.is_empty());
}

#[test]
fn a_single_named_argument_is_not_reported() {
    let source = "f($y, b: 1);";
    let args = vec![positional(source, "$y"), named(source, "b", "1", 0)];
    let ctx = run(source, Node::ArgumentList(list(source, args)));
    assert!(ctx.issues.is_empty());
}

#[test]
fn equal_names_keep_their_order_in_the_fix() {
    let source = "f(b: 1, a: 2, a: 3);";
    let args = vec![named(source, "b", "1", 0), named(source, "a", "2", 0), named(source, "a", "3", 0)];
    let ctx = run(source, Node::ArgumentList(list(source, args)));
    assert_eq!(ctx.issues.len(), 1);
    let edit = &ctx.issues[0].fix.as_ref().unwrap().edits[0];
    assert_eq!(edit.replacement, b"a: 2, a: 3, b: 1".to_vec());
}

#[test]
fn names_are_compared_bytewise() {
    // Upper-case letters sort before lower-case ones, as `str` orders them.
    let source = "f(b: 1, Z: 2);";
    let args = vec![named(source, "b", "1", 0), named(source, "Z", "2", 0)];
    let ctx = run(source, Node::ArgumentList(list(source, args)));
    assert_eq!(ctx.issues.len(), 1);
    assert_eq!(ctx.issues[0].fix.as_ref().unwrap().edits[0].replacement, b"Z: 2, b: 1".to_vec());
}

#[test]
fn equal_names_in_order_are_not_reported() {
    let source = "f(a: 1, a: 2);";
    let args = vec![named(source, "a", "1", 0), named(source, "a", "2", 0)];
    let ctx = run(source, Node::ArgumentList(list(source, args)));
    assert!(ctx.issues.is_empty());
}

#[test]
fn named_ordering_ignores_other_nodes() {
    let ctx = run("", Node::Program(Program { statements: vec![] }));
    assert!(ctx.issues.is_empty());
}

#[test]
fn issues_follow_the_configured_level() {
    let source = "f(b: 1, a: 2);";
    let args = vec![named(source, "b", "1", 0), named(source, "a", "2", 0)];
    let r = NamedArgumentOrderingRule::build(RuleSettings {
        enabled: true,
        config: NamedArgumentOrderingConfig { level: Level::Error },
    });
    let mut ctx = LintContext::new(source.as_bytes().to_vec(), None);
    r.check(&mut ctx, &Node::ArgumentList(list(source, args)));
    assert_eq!(ctx.issues[0].level, Level::Error);
}

#[test]
fn metadata_and_configuration() {
    let meta = NamedArgumentOrderingRule::meta();
    assert_eq!(meta.name, "Named Argument Ordering");
    assert_eq!(meta.code, "named-argument-ordering");
    assert_eq!(meta.category, Category::Consistency);
    assert!(meta.description.starts_with("Enforces that named arguments are ordered alphabetically"));
    assert!(meta.bad_example.contains("configure(username: 'admin'"));
    assert_eq!(
        meta.requirements,
        RuleRequirements::PhpVersion(PhpVersionRange::from_version(PhpVersion { major: 8, minor: 0, patch: 0 }))
    );
    assert_eq!(NamedArgumentOrderingRule::targets(), vec![NodeKind::ArgumentList]);
    let cfg = NamedArgumentOrderingConfig::default();
    assert_eq!(cfg.level(), Level::Warning);
    assert!(NamedArgumentOrderingConfig::default_enabled());
}
