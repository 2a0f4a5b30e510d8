//! The rule that named arguments follow the order of the parameters in the
//! signature of the function, method or constructor that they are passed to.
use vstd::prelude::*;

use crate::ast::{
    Argument, Attribute, AttributeList, Block, Call, Class, ClassLikeMember, LoopBody, SwitchCase,
    ClassLikeMemberSelector, Expression, ExpressionKind, FunctionCall, Instantiation, Literal,
    MethodBody, MethodCall, NamedArgument, Node, NodeKind, ParameterList, Program, Statement,
    StaticMethodCall, Variable,
};
use crate::order::{by_number, stable_order, stable_order_by_number};
use crate::reporting::{
    Annotation, AnnotationView, Edit, EditView, FixPlan, FunctionLikeKind, FunctionLikeMetadata, Issue,
    IssueView, Level, LintContext, SafetyClassification, issue_views,
};
use crate::rule::{Category, PhpVersion, PhpVersionRange, RuleMeta, RuleRequirements, RuleSettings};
use crate::text::{
    append_bytes, ascii_lowercase, copy_bytes, byte_strings, bytes_equal, decimal, decimal_bytes, join, join_bytes, lit,
    lit_bytes, strip_dollar, strip_dollar_prefix, to_ascii_lowercase,
};

verus! {

pub const ARGUMENT_ORDER_NAME: &'static str = "Argument Order";

pub const ARGUMENT_ORDER_CODE: &'static str = "argument-order";

pub const ARGUMENT_ORDER_DESCRIPTION: &'static str = "Enforces that named arguments are used in the same order as defined \nin the function or attribute signature.\n\nThis rule helps maintain consistency and readability by ensuring that\nnamed arguments follow the parameter declaration order, making code\neasier to understand and maintain.\n";

pub const ARGUMENT_ORDER_GOOD_EXAMPLE: &'static str = "<?php\n\nfunction createUser(string $name, string $email, int $age): void {}\n\n// ✅ Arguments in signature order\ncreateUser(\n    name: \"John\",\n    email: \"john@example.com\", \n    age: 25\n);\n\n#[Route(string $path, string $method = \"GET\", bool $authRequired = false)]\nclass Route {}\n\n// ✅ Attribute arguments in signature order  \n#[Route(\n    path: \"/users\",\n    method: \"POST\",\n    authRequired: true\n)]\nfunction handler() {}\n";

pub const ARGUMENT_ORDER_BAD_EXAMPLE: &'static str = "<?php\n\nfunction createUser(string $name, string $email, int $age): void {}\n\n// ❌ Arguments out of signature order\ncreateUser(\n    age: 25,\n    name: \"John\",\n    email: \"john@example.com\"\n);\n\n#[Route(string $path, string $method = \"GET\", bool $authRequired = false)]\nclass Route {}\n\n// ❌ Attribute arguments out of signature order\n#[Route(\n    authRequired: true,\n    path: \"/users\", \n    method: \"POST\"\n)]\nfunction handler() {}\n";

pub const CONSTRUCTOR_NAME: &'static str = "__construct";

pub const THIS_VARIABLE: &'static str = "$this";

pub const FUNCTION_SIGNATURE: &'static str = "function signature";

pub const ATTRIBUTE_CONSTRUCTOR_SIGNATURE: &'static str = "attribute constructor signature";

pub const METHOD_SIGNATURE: &'static str = "method signature";

pub const STATIC_METHOD_SIGNATURE: &'static str = "static method signature";

pub const CONSTRUCTOR_SIGNATURE: &'static str = "constructor signature";

/// The metadata of the rule.
pub open spec fn argument_order_meta() -> RuleMeta {
    RuleMeta {
        name: ARGUMENT_ORDER_NAME,
        code: ARGUMENT_ORDER_CODE,
        description: ARGUMENT_ORDER_DESCRIPTION,
        good_example: ARGUMENT_ORDER_GOOD_EXAMPLE,
        bad_example: ARGUMENT_ORDER_BAD_EXAMPLE,
        category: Category::Consistency,
        requirements: RuleRequirements::PhpVersion(
            PhpVersionRange { min: Some(PhpVersion { major: 8, minor: 0, patch: 0 }), max: None },
        ),
    }
}

/// The configuration of the rule: the level of the issues it reports.
#[derive(Clone, Copy, Debug, PartialEq, Eq, Structural, Hash)]
pub struct ArgumentOrderConfig {
    pub level: Level,
}

impl Default for ArgumentOrderConfig {
    fn default() -> (r: Self)
        ensures
            r.level == Level::Warning,
    {
        Self { level: Level::Warning }
    }
}

impl ArgumentOrderConfig {
    /// The rule is optional: it is off unless the settings turn it on.
    pub fn default_enabled() -> (r: bool)
        ensures
            !r,
    {
        false
    }

    /// The level of the issues the rule reports.
    pub fn level(&self) -> (r: Level)
        ensures
            r == self.level,
    {
        self.level
    }
}

/// Names of byte strings to lists of parameter names; a later insertion
/// replaces an earlier one under the same name.
pub struct SignatureMap {
    entries: Vec<(Vec<u8>, Vec<Vec<u8>>)>,
}

pub open spec fn signature_entries_map(entries: Seq<(Vec<u8>, Vec<Vec<u8>>)>) -> Map<Seq<u8>, Seq<Seq<u8>>>
    decreases entries.len(),
{
    if entries.len() == 0 {
        Map::empty()
    } else {
        signature_entries_map(entries.drop_last()).insert(entries.last().0@, byte_strings(entries.last().1@))
    }
}

proof fn lemma_signature_entries_last_match(entries: Seq<(Vec<u8>, Vec<Vec<u8>>)>, key: Seq<u8>, i: int)
    requires
        -1 <= i < entries.len(),
        forall|j: int| i < j < entries.len() ==> (#[trigger] entries[j]).0@ != key,
    ensures
        i >= 0 && entries[i].0@ == key ==> {
            &&& signature_entries_map(entries).contains_key(key)
            &&& signature_entries_map(entries)[key] == byte_strings(entries[i].1@)
        },
        i == -1 ==> !signature_entries_map(entries).contains_key(key),
    decreases entries.len(),
{
    if entries.len() > 0 && i < entries.len() - 1 {
        let d = entries.drop_last();
        assert forall|j: int| i < j < d.len() implies (#[trigger] d[j]).0@ != key by {
            assert(d[j] == entries[j]);
        }
        lemma_signature_entries_last_match(d, key, i);
        if i >= 0 {
            assert(d[i] == entries[i]);
        }
    }
}

impl View for SignatureMap {
    type V = Map<Seq<u8>, Seq<Seq<u8>>>;

    closed spec fn view(&self) -> Self::V {
        signature_entries_map(self.entries@)
    }
}

impl SignatureMap {
    pub fn new() -> (r: SignatureMap)
        ensures
            r@ == Map::<Seq<u8>, Seq<Seq<u8>>>::empty(),
    {
        SignatureMap { entries: Vec::new() }
    }

    pub fn insert(&mut self, name: Vec<u8>, parameters: Vec<Vec<u8>>)
        ensures
            final(self)@ == old(self)@.insert(name@, byte_strings(parameters@)),
    {
        let ghost old_entries = self.entries@;
        self.entries.push((name, parameters));
        assert(self.entries@.drop_last() =~= old_entries);
    }

    pub fn get(&self, name: &Vec<u8>) -> (r: Option<&Vec<Vec<u8>>>)
        ensures
            match r {
                Some(p) => self@.contains_key(name@) && self@[name@] == byte_strings(p@),
                None => !self@.contains_key(name@),
            },
    {
        let mut i: usize = self.entries.len();
        while i > 0
            invariant
                i <= self.entries@.len(),
                forall|j: int| i <= j < self.entries@.len() ==> (#[trigger] self.entries@[j]).0@ != name@,
            decreases i,
        {
            if bytes_equal(&self.entries[i - 1].0, name) {
                proof {
                    lemma_signature_entries_last_match(self.entries@, name@, i - 1);
                }
                return Some(&self.entries[i - 1].1);
            }
            i = i - 1;
        }
        proof {
            lemma_signature_entries_last_match(self.entries@, name@, -1);
        }
        None
    }

    pub fn contains_key(&self, name: &Vec<u8>) -> (r: bool)
        ensures
            r == self@.contains_key(name@),
    {
        self.get(name).is_some()
    }
}

/// The names of the parameters, each without its leading `$`.
pub open spec fn parameter_names(list: ParameterList) -> Seq<Seq<u8>> {
    list.parameters@.map_values(|p: crate::ast::Parameter| strip_dollar(p.variable.name@))
}

/// The parameters of the first method of a class named `__construct`.
pub open spec fn constructor_parameters(members: Seq<ClassLikeMember>) -> Option<Seq<Seq<u8>>>
    decreases members.len(),
{
    if members.len() == 0 {
        None
    } else {
        match members[0] {
            ClassLikeMember::Method(m) => if m.name.value@ == lit(CONSTRUCTOR_NAME) {
                Some(parameter_names(m.parameter_list))
            } else {
                constructor_parameters(members.drop_first())
            },
            ClassLikeMember::Other => constructor_parameters(members.drop_first()),
        }
    }
}

/// The signatures that the top-level statements declare: functions by name,
/// and classes by name with the parameters of their constructor (none where a
/// class has no constructor and no earlier class of that name had one).
pub open spec fn collect_signatures(statements: Seq<Statement>) -> (Map<Seq<u8>, Seq<Seq<u8>>>, Map<Seq<u8>, Seq<Seq<u8>>>)
    decreases statements.len(),
{
    if statements.len() == 0 {
        (Map::empty(), Map::empty())
    } else {
        let (functions, constructors) = collect_signatures(statements.drop_last());
        match statements.last() {
            Statement::Function(f) => (functions.insert(f.name.value@, parameter_names(f.parameter_list)), constructors),
            Statement::Class(c) => match constructor_parameters(c.members@) {
                Some(p) => (functions, constructors.insert(c.name.value@, p)),
                None => if constructors.contains_key(c.name.value@) {
                    (functions, constructors)
                } else {
                    (functions, constructors.insert(c.name.value@, seq![]))
                },
            },
            _ => (functions, constructors),
        }
    }
}

/// What the rule consults while it visits a program.
pub struct OrderEnv {
    pub level: Level,
    pub code: Seq<u8>,
    pub codebase: Option<Map<(Seq<u8>, Seq<u8>), FunctionLikeMetadata>>,
    pub functions: Map<Seq<u8>, Seq<Seq<u8>>>,
    pub constructors: Map<Seq<u8>, Seq<Seq<u8>>>,
}

/// The parameter names (without `$`) of the function-like the codebase records
/// under this key, if it is of the given kind.
pub open spec fn codebase_parameters(
    codebase: Option<Map<(Seq<u8>, Seq<u8>), FunctionLikeMetadata>>,
    key: (Seq<u8>, Seq<u8>),
    kind: FunctionLikeKind,
) -> Option<Seq<Seq<u8>>> {
    match codebase {
        None => None,
        Some(m) => if m.contains_key(key) && m[key].kind == kind {
            Some(m[key].parameters.map_values(|p: Seq<u8>| strip_dollar(p)))
        } else {
            None
        },
    }
}

/// A global function of the codebase, looked up by its name in any case.
pub open spec fn codebase_function_parameters(env: OrderEnv, name: Seq<u8>) -> Option<Seq<Seq<u8>>> {
    codebase_parameters(env.codebase, (seq![], ascii_lowercase(name)), FunctionLikeKind::Function)
}

/// A method of the codebase, looked up by class and method name in any case.
pub open spec fn codebase_method_parameters(env: OrderEnv, class: Seq<u8>, method: Seq<u8>) -> Option<Seq<Seq<u8>>> {
    codebase_parameters(env.codebase, (ascii_lowercase(class), ascii_lowercase(method)), FunctionLikeKind::Method)
}

/// The named arguments of a list, in order.
pub open spec fn named_arguments(args: Seq<Argument>) -> Seq<NamedArgument>
    decreases args.len(),
{
    if args.len() == 0 {
        seq![]
    } else {
        match args.last() {
            Argument::Named(n) => named_arguments(args.drop_last()).push(n),
            Argument::Positional(_) => named_arguments(args.drop_last()),
        }
    }
}

/// The last position of a name among the parameters.
pub open spec fn parameter_position(expected: Seq<Seq<u8>>, name: Seq<u8>) -> Option<int>
    decreases expected.len(),
{
    if expected.len() == 0 {
        None
    } else if expected.last() == name {
        Some(expected.len() - 1)
    } else {
        parameter_position(expected.drop_last(), name)
    }
}

/// The sort key of an argument: its parameter's position, or the largest
/// `usize` where no parameter has its name.
pub open spec fn sort_key(expected: Seq<Seq<u8>>, name: Seq<u8>) -> usize {
    match parameter_position(expected, name) {
        Some(p) => p as usize,
        None => usize::MAX,
    }
}

/// An argument is out of order when its parameter comes before that of an
/// earlier argument.
pub open spec fn is_out_of_order(expected: Seq<Seq<u8>>, named: Seq<NamedArgument>, i: int) -> bool {
    &&& parameter_position(expected, named[i].name.value@) is Some
    &&& exists|j: int|
        0 <= j < i && #[trigger] parameter_position(expected, named[j].name.value@) is Some
            && parameter_position(expected, named[j].name.value@)->0 > parameter_position(
            expected,
            named[i].name.value@,
        )->0
}

/// The positions (among the named arguments `named[..m]`) of those out of order.
pub open spec fn out_of_order_positions(expected: Seq<Seq<u8>>, named: Seq<NamedArgument>, m: int) -> Seq<int>
    decreases m,
{
    if m <= 0 {
        seq![]
    } else if is_out_of_order(expected, named, m - 1) {
        out_of_order_positions(expected, named, m - 1).push(m - 1)
    } else {
        out_of_order_positions(expected, named, m - 1)
    }
}

/// The text written for an argument's value in the fix: literals by their
/// value, anything else as a placeholder.
pub open spec fn value_text(value: Expression) -> Seq<u8> {
    match value.kind {
        ExpressionKind::Literal(Literal::String { raw, value }) => match value {
            Some(v) => lit("\"") + v@ + lit("\""),
            None => raw@,
        },
        ExpressionKind::Literal(Literal::Integer { raw, value }) => match value {
            Some(v) => decimal(v as nat),
            None => raw@,
        },
        ExpressionKind::Literal(Literal::Float { raw }) => raw@,
        ExpressionKind::Literal(Literal::True) => lit("true"),
        ExpressionKind::Literal(Literal::False) => lit("false"),
        ExpressionKind::Literal(Literal::Null) => lit("null"),
        _ => lit("/* complex expression */"),
    }
}

/// The sort keys of the named arguments.
pub open spec fn sort_keys(expected: Seq<Seq<u8>>, named: Seq<NamedArgument>) -> Seq<usize> {
    Seq::new(named.len(), |i: int| sort_key(expected, named[i].name.value@))
}

/// The fix: from the first to the last named argument, the arguments stably
/// sorted by the position of their parameters, one per line.
pub open spec fn reorder_fix(expected: Seq<Seq<u8>>, named: Seq<NamedArgument>) -> Seq<EditView> {
    let order = stable_order(named.len(), by_number(sort_keys(expected, named)));
    let parts = Seq::new(
        named.len(),
        |k: int| named[order[k]].name.value@ + lit(": ") + value_text(named[order[k]].value),
    );
    seq![
        EditView {
            start: named[0].spec_span().start,
            end: named[named.len() - 1].spec_span().end,
            replacement: join(parts, lit(",\n    ")),
            safety: SafetyClassification::Safe,
        },
    ]
}

/// The issue reported for one argument out of order.
pub open spec fn order_issue(
    level: Level,
    code: Seq<u8>,
    arg: NamedArgument,
    description: Seq<u8>,
    fix: Option<Seq<EditView>>,
) -> IssueView {
    IssueView {
        level,
        code,
        message: lit("Named argument `") + arg.name.value@ + lit("` is not in the same order as the ") + description
            + lit("."),
        annotation: AnnotationView { span: arg.spec_span(), message: lit("This argument is out of order.") },
        note: None,
        help: lit("Reorder named arguments to match the ") + description + lit(" parameter order."),
        fix,
    }
}

/// One issue per argument out of order, the first with the fix.
pub open spec fn order_issues(
    level: Level,
    code: Seq<u8>,
    named: Seq<NamedArgument>,
    expected: Seq<Seq<u8>>,
    description: Seq<u8>,
) -> Seq<IssueView> {
    let oo = out_of_order_positions(expected, named, named.len() as int);
    Seq::new(
        oo.len(),
        |k: int|
            order_issue(
                level,
                code,
                named[oo[k]],
                description,
                if k == 0 { Some(reorder_fix(expected, named)) } else { None },
            ),
    )
}

/// Issues for a call whose parameters may be known.
pub open spec fn issues_with(
    env: OrderEnv,
    named: Seq<NamedArgument>,
    expected: Option<Seq<Seq<u8>>>,
    description: Seq<u8>,
) -> Seq<IssueView> {
    match expected {
        Some(e) => order_issues(env.level, env.code, named, e, description),
        None => seq![],
    }
}

/// The parameters known for a name: those declared in the file first, then
/// those of the codebase.
pub open spec fn local_or(local: Map<Seq<u8>, Seq<Seq<u8>>>, name: Seq<u8>, other: Option<Seq<Seq<u8>>>) -> Option<Seq<Seq<u8>>> {
    if local.contains_key(name) {
        Some(local[name])
    } else {
        other
    }
}

pub open spec fn function_call_issues(env: OrderEnv, call: FunctionCall) -> Seq<IssueView> {
    let named = named_arguments(call.argument_list.arguments@);
    if named.len() < 2 {
        seq![]
    } else {
        match call.function.kind {
            ExpressionKind::Identifier(id) => issues_with(
                env,
                named,
                local_or(env.functions, id.value@, codebase_function_parameters(env, id.value@)),
                lit(FUNCTION_SIGNATURE),
            ),
            _ => seq![],
        }
    }
}

pub open spec fn attribute_issues(env: OrderEnv, attribute: Attribute) -> Seq<IssueView> {
    match attribute.argument_list {
        None => seq![],
        Some(list) => {
            let named = named_arguments(list.arguments@);
            if named.len() < 2 {
                seq![]
            } else {
                let class = attribute.name.value@;
                issues_with(
                    env,
                    named,
                    local_or(env.constructors, class, codebase_method_parameters(env, class, lit(CONSTRUCTOR_NAME))),
                    lit(ATTRIBUTE_CONSTRUCTOR_SIGNATURE),
                )
            }
        },
    }
}

pub open spec fn static_method_call_issues(env: OrderEnv, call: StaticMethodCall) -> Seq<IssueView> {
    let named = named_arguments(call.argument_list.arguments@);
    if named.len() < 2 {
        seq![]
    } else {
        match (call.class.kind, call.method) {
            (ExpressionKind::Identifier(class), ClassLikeMemberSelector::Identifier(method)) => issues_with(
                env,
                named,
                codebase_method_parameters(env, class.value@, method.value@),
                lit(STATIC_METHOD_SIGNATURE),
            ),
            _ => seq![],
        }
    }
}

pub open spec fn instantiation_issues(env: OrderEnv, instantiation: Instantiation) -> Seq<IssueView> {
    match instantiation.argument_list {
        None => seq![],
        Some(list) => {
            let named = named_arguments(list.arguments@);
            if named.len() < 2 {
                seq![]
            } else {
                match instantiation.class.kind {
                    ExpressionKind::Identifier(class) => issues_with(
                        env,
                        named,
                        local_or(
                            env.constructors,
                            class.value@,
                            codebase_method_parameters(env, class.value@, lit(CONSTRUCTOR_NAME)),
                        ),
                        lit(CONSTRUCTOR_SIGNATURE),
                    ),
                    _ => seq![],
                }
            }
        },
    }
}

/// The issues of an expression and of every call in it, in the order in which
/// the calls are met reading the text: a call or instantiation is checked
/// before what is inside it. The class of the object of a method call is never
/// resolved, so a method call gives no issue of its own.
pub open spec fn expression_issues(env: OrderEnv, expression: Expression) -> Seq<IssueView>
    decreases expression,
{
    match expression.kind {
        ExpressionKind::Call(Call::Function(call)) => function_call_issues(env, call) + expression_issues(
            env,
            *call.function,
        ) + arguments_issues(env, call.argument_list.arguments@),
        ExpressionKind::Call(Call::Method(call)) => expression_issues(env, *call.object) + arguments_issues(
            env,
            call.argument_list.arguments@,
        ),
        ExpressionKind::Call(Call::StaticMethod(call)) => static_method_call_issues(env, call) + expression_issues(
            env,
            *call.class,
        ) + arguments_issues(env, call.argument_list.arguments@),
        ExpressionKind::Instantiation(instantiation) => instantiation_issues(env, instantiation) + expression_issues(
            env,
            *instantiation.class,
        ) + match instantiation.argument_list {
            Some(list) => arguments_issues(env, list.arguments@),
            None => seq![],
        },
        ExpressionKind::Binary(binary) => expression_issues(env, *binary.lhs) + expression_issues(env, *binary.rhs),
        ExpressionKind::Parenthesized(inner) => expression_issues(env, *inner),
        ExpressionKind::Assignment(assignment) => expression_issues(env, *assignment.lhs) + expression_issues(
            env,
            *assignment.rhs,
        ),
        ExpressionKind::Array(elements) => expressions_issues(env, elements@),
        ExpressionKind::Conditional(conditional) => expression_issues(env, *conditional.condition) + match conditional.if_true {
            Some(e) => expression_issues(env, *e),
            None => seq![],
        } + expression_issues(env, *conditional.otherwise),
        ExpressionKind::Unary(operand) => expression_issues(env, *operand),
        ExpressionKind::Closure(body) => statements_issues(env, body.statements@),
        ExpressionKind::ArrowFunction(value) => expression_issues(env, *value),
        ExpressionKind::Composite(parts) => expressions_issues(env, parts@),
        _ => seq![],
    }
}

/// The issues of a sequence of expressions, in order.
pub open spec fn expressions_issues(env: OrderEnv, expressions: Seq<Expression>) -> Seq<IssueView>
    decreases expressions,
{
    if expressions.len() == 0 {
        seq![]
    } else {
        expressions_issues(env, expressions.drop_last()) + expression_issues(env, expressions.last())
    }
}

/// The issues of the values of an argument list, in order.
pub open spec fn arguments_issues(env: OrderEnv, arguments: Seq<Argument>) -> Seq<IssueView>
    decreases arguments,
{
    if arguments.len() == 0 {
        seq![]
    } else {
        arguments_issues(env, arguments.drop_last()) + match arguments.last() {
            Argument::Positional(p) => expression_issues(env, p.value),
            Argument::Named(n) => expression_issues(env, n.value),
        }
    }
}

/// The issues of an attribute: its own, then those of its argument values.
pub open spec fn attribute_site_issues(env: OrderEnv, attribute: Attribute) -> Seq<IssueView>
    decreases attribute,
{
    attribute_issues(env, attribute) + match attribute.argument_list {
        Some(list) => arguments_issues(env, list.arguments@),
        None => seq![],
    }
}

pub open spec fn attributes_issues(env: OrderEnv, attributes: Seq<Attribute>) -> Seq<IssueView>
    decreases attributes,
{
    if attributes.len() == 0 {
        seq![]
    } else {
        attributes_issues(env, attributes.drop_last()) + attribute_site_issues(env, attributes.last())
    }
}

pub open spec fn attribute_lists_issues(env: OrderEnv, lists: Seq<AttributeList>) -> Seq<IssueView>
    decreases lists,
{
    if lists.len() == 0 {
        seq![]
    } else {
        attribute_lists_issues(env, lists.drop_last()) + attributes_issues(env, lists.last().attributes@)
    }
}

/// The issues of one statement, wherever it stands: a function's body and then
/// its attributes; a class's attributes and then its methods; for any other
/// statement, the expressions and statements it holds, in the order of the text.
pub open spec fn statement_issues(env: OrderEnv, statement: Statement) -> Seq<IssueView>
    decreases statement,
{
    match statement {
        Statement::Function(f) => statements_issues(env, f.body.statements@) + attribute_lists_issues(
            env,
            f.attribute_lists@,
        ),
        Statement::Class(c) => attribute_lists_issues(env, c.attribute_lists@) + members_issues(env, c.members@),
        Statement::Expression(e) => expression_issues(env, e),
        Statement::Block(b) => statements_issues(env, b.statements@),
        Statement::For(f) => expressions_issues(env, f.initializations@) + expressions_issues(env, f.conditions@)
            + expressions_issues(env, f.increments@) + loop_body_issues(env, f.body),
        Statement::Foreach(f) => expression_issues(env, f.expression) + loop_body_issues(env, f.body),
        Statement::While(w) => expression_issues(env, w.condition) + loop_body_issues(env, w.body),
        Statement::DoWhile(d) => statement_issues(env, *d.statement) + expression_issues(env, d.condition),
        Statement::If(i) => expression_issues(env, i.condition) + statements_issues(env, i.body@) + statements_issues(
            env,
            i.else_body@,
        ),
        Statement::Switch(sw) => expression_issues(env, sw.subject) + cases_issues(env, sw.cases@),
        Statement::Try(t) => statements_issues(env, t.body.statements@) + blocks_issues(env, t.catch_bodies@)
            + match t.finally_body {
            Some(b) => statements_issues(env, b.statements@),
            None => seq![],
        },
        Statement::Return(value) => match value {
            Some(e) => expression_issues(env, e),
            None => seq![],
        },
        Statement::Echo(values) => expressions_issues(env, values@),
        Statement::Namespace(body) => statements_issues(env, body@),
        Statement::Other => seq![],
    }
}

pub open spec fn statements_issues(env: OrderEnv, statements: Seq<Statement>) -> Seq<IssueView>
    decreases statements,
{
    if statements.len() == 0 {
        seq![]
    } else {
        statements_issues(env, statements.drop_last()) + statement_issues(env, statements.last())
    }
}

/// The issues of the body of a loop.
pub open spec fn loop_body_issues(env: OrderEnv, body: LoopBody) -> Seq<IssueView>
    decreases body,
{
    match body {
        LoopBody::Statement(s) => statement_issues(env, *s),
        LoopBody::ColonDelimited(ss) => statements_issues(env, ss@),
    }
}

/// The issues of the cases of a `switch`: each case's condition, then its statements.
pub open spec fn cases_issues(env: OrderEnv, cases: Seq<SwitchCase>) -> Seq<IssueView>
    decreases cases,
{
    if cases.len() == 0 {
        seq![]
    } else {
        cases_issues(env, cases.drop_last()) + match cases.last().condition {
            Some(c) => expression_issues(env, c),
            None => seq![],
        } + statements_issues(env, cases.last().statements@)
    }
}

/// The issues of a sequence of blocks, in order.
pub open spec fn blocks_issues(env: OrderEnv, blocks: Seq<Block>) -> Seq<IssueView>
    decreases blocks,
{
    if blocks.len() == 0 {
        seq![]
    } else {
        blocks_issues(env, blocks.drop_last()) + statements_issues(env, blocks.last().statements@)
    }
}

/// The issues of a method: its attributes, then its body.
pub open spec fn member_issues(env: OrderEnv, member: ClassLikeMember) -> Seq<IssueView>
    decreases member,
{
    match member {
        ClassLikeMember::Method(m) => attribute_lists_issues(env, m.attribute_lists@) + match m.body {
            MethodBody::Concrete(b) => statements_issues(env, b.statements@),
            MethodBody::Abstract => seq![],
        },
        ClassLikeMember::Other => seq![],
    }
}

pub open spec fn members_issues(env: OrderEnv, members: Seq<ClassLikeMember>) -> Seq<IssueView>
    decreases members,
{
    if members.len() == 0 {
        seq![]
    } else {
        members_issues(env, members.drop_last()) + member_issues(env, members.last())
    }
}


/// The codebase as the rule consults it.
pub open spec fn codebase_view(codebase: Option<crate::reporting::Codebase>) -> Option<Map<(Seq<u8>, Seq<u8>), FunctionLikeMetadata>> {
    match codebase {
        Some(c) => Some(c@),
        None => None,
    }
}

/// The byte strings of an optional list.
pub open spec fn optional_strings(o: Option<Vec<Vec<u8>>>) -> Option<Seq<Seq<u8>>> {
    match o {
        Some(v) => Some(byte_strings(v@)),
        None => None,
    }
}

/// The arguments behind a sequence of references.
pub open spec fn arguments_behind(named: Seq<&NamedArgument>) -> Seq<NamedArgument> {
    named.map_values(|a: &NamedArgument| *a)
}

/// The rule checks whole programs.
pub struct ArgumentOrderRule {
    meta: RuleMeta,
    cfg: ArgumentOrderConfig,
}

impl ArgumentOrderRule {
    pub closed spec fn spec_meta(&self) -> RuleMeta {
        self.meta
    }

    pub closed spec fn spec_config(&self) -> ArgumentOrderConfig {
        self.cfg
    }

    /// What the rule consults, given the signatures declared in the file.
    pub open spec fn env(
        &self,
        codebase: Option<crate::reporting::Codebase>,
        functions: Map<Seq<u8>, Seq<Seq<u8>>>,
        constructors: Map<Seq<u8>, Seq<Seq<u8>>>,
    ) -> OrderEnv {
        OrderEnv {
            level: self.spec_config().level,
            code: lit(self.spec_meta().code),
            codebase: codebase_view(codebase),
            functions,
            constructors,
        }
    }

    /// What the rule reports for a program: the signatures of its top-level
    /// functions and classes are collected, then its statements are visited.
    pub open spec fn program_issues(&self, codebase: Option<crate::reporting::Codebase>, program: Program) -> Seq<IssueView> {
        let (functions, constructors) = collect_signatures(program.statements@);
        statements_issues(self.env(codebase, functions, constructors), program.statements@)
    }

    /// What the rule reports for a node.
    pub open spec fn spec_issues(&self, codebase: Option<crate::reporting::Codebase>, node: Node) -> Seq<IssueView> {
        match node {
            Node::Program(program) => self.program_issues(codebase, program),
            _ => seq![],
        }
    }

    pub fn meta() -> (r: RuleMeta)
        ensures
            r == argument_order_meta(),
    {
        RuleMeta {
            name: ARGUMENT_ORDER_NAME,
            code: ARGUMENT_ORDER_CODE,
            description: ARGUMENT_ORDER_DESCRIPTION,
            good_example: ARGUMENT_ORDER_GOOD_EXAMPLE,
            bad_example: ARGUMENT_ORDER_BAD_EXAMPLE,
            category: Category::Consistency,
            requirements: RuleRequirements::PhpVersion(
                PhpVersionRange::from_version(PhpVersion { major: 8, minor: 0, patch: 0 }),
            ),
        }
    }

    /// The rule is handed whole programs.
    pub fn targets() -> (r: Vec<NodeKind>)
        ensures
            r@ == seq![NodeKind::Program],
    {
        let mut r = Vec::new();
        r.push(NodeKind::Program);
        r
    }

    pub fn build(settings: RuleSettings<ArgumentOrderConfig>) -> (r: Self)
        ensures
            r.spec_meta() == argument_order_meta(),
            r.spec_config() == settings.config,
    {
        Self { meta: Self::meta(), cfg: settings.config }
    }

    /// Reports the named arguments of a program that are out of the order of
    /// the signature they are passed to; other nodes are left alone.
    pub fn check(&self, ctx: &mut LintContext, node: &Node)
        ensures
            final(ctx).source == old(ctx).source,
            final(ctx).codebase == old(ctx).codebase,
            issue_views(final(ctx).issues@) == issue_views(old(ctx).issues@) + self.spec_issues(
                old(ctx).codebase,
                *node,
            ),
    {
        let program = match node {
            Node::Program(p) => p,
            _ => {
                assert(issue_views(ctx.issues@) + seq![] =~= issue_views(ctx.issues@));
                return ;
            },
        };
        let mut function_signatures = SignatureMap::new();
        let mut class_constructors = SignatureMap::new();
        let ghost statements = program.statements@;
        let mut i: usize = 0;
        while i < program.statements.len()
            invariant
                statements == program.statements@,
                i <= statements.len(),
                (function_signatures@, class_constructors@) == collect_signatures(statements.take(i as int)),
            decreases statements.len() - i,
        {
            assert(statements.take(i + 1).drop_last() =~= statements.take(i as int));
            match &program.statements[i] {
                Statement::Function(function) => {
                    let param_names = self.extract_parameter_names(&function.parameter_list);
                    function_signatures.insert(copy_bytes(&function.name.value), param_names);
                },
                Statement::Class(class) => {
                    let mut found = false;
                    let mut m: usize = 0;
                    let constructor = lit_bytes(CONSTRUCTOR_NAME);
                    assert(class.members@.skip(0) =~= class.members@);
                    while !found && m < class.members.len()
                        invariant
                            m <= class.members@.len(),
                            constructor@ == lit(CONSTRUCTOR_NAME),
                            !found ==> constructor_parameters(class.members@) == constructor_parameters(
                                class.members@.skip(m as int),
                            ),
                            found ==> class_constructors@ == collect_signatures(statements.take(i as int)).1.insert(
                                class.name.value@,
                                constructor_parameters(class.members@)->0,
                            ),
                            !found ==> (function_signatures@, class_constructors@) == collect_signatures(
                                statements.take(i as int),
                            ),
                            found ==> function_signatures@ == collect_signatures(statements.take(i as int)).0,
                            found ==> constructor_parameters(class.members@) is Some,
                        decreases class.members@.len() - m + (if found { 0int } else { 1int }),
                    {
                        proof {
                            let rest = class.members@.skip(m as int);
                            assert(rest.drop_first() =~= class.members@.skip(m + 1));
                            assert(rest[0] == class.members@[m as int]);
                        }
                        match &class.members[m] {
                            ClassLikeMember::Method(method) => {
                                if bytes_equal(&method.name.value, &constructor) {
                                    let param_names = self.extract_parameter_names(&method.parameter_list);
                                    class_constructors.insert(copy_bytes(&class.name.value), param_names);
                                    found = true;
                                } else {
                                    m = m + 1;
                                }
                            },
                            ClassLikeMember::Other => {
                                m = m + 1;
                            },
                        }
                    }
                    if !found {
                        assert(class.members@.skip(m as int).len() == 0);
                        assert(constructor_parameters(class.members@) is None);
                    }
                    if !class_constructors.contains_key(&class.name.value) {
                        let empty: Vec<Vec<u8>> = Vec::new();
                        assert(byte_strings(empty@) =~= seq![]);
                        class_constructors.insert(copy_bytes(&class.name.value), empty);
                    }
                },
                _ => {},
            }
            i = i + 1;
        }
        assert(statements.take(statements.len() as int) =~= statements);
        self.check_program_nodes(ctx, program, &function_signatures, &class_constructors);
    }


    fn extract_parameter_names(&self, parameter_list: &ParameterList) -> (r: Vec<Vec<u8>>)
        ensures
            byte_strings(r@) == parameter_names(*parameter_list),
    {
        let mut r: Vec<Vec<u8>> = Vec::new();
        let mut i: usize = 0;
        while i < parameter_list.parameters.len()
            invariant
                i <= parameter_list.parameters@.len(),
                byte_strings(r@) == parameter_names(*parameter_list).take(i as int),
            decreases parameter_list.parameters@.len() - i,
        {
            let ghost before = r@;
            let name = strip_dollar_prefix(&parameter_list.parameters[i].variable.name);
            assert(name@ == parameter_names(*parameter_list)[i as int]);
            r.push(name);
            assert(r@ == before.push(name));
            proof {
                crate::text::lemma_byte_strings_push(before, name);
            }
            i = i + 1;
            assert(byte_strings(r@) =~= parameter_names(*parameter_list).take(i as int));
        }
        assert(parameter_names(*parameter_list).take(i as int) =~= parameter_names(*parameter_list));
        r
    }

    fn check_program_nodes(
        &self,
        ctx: &mut LintContext,
        program: &Program,
        function_signatures: &SignatureMap,
        class_constructors: &SignatureMap,
    )
        ensures
            final(ctx).source == old(ctx).source,
            final(ctx).codebase == old(ctx).codebase,
            issue_views(final(ctx).issues@) == issue_views(old(ctx).issues@) + statements_issues(
                self.env(old(ctx).codebase, function_signatures@, class_constructors@),
                program.statements@,
            ),
    {
        self.visit_statements(ctx, &program.statements, function_signatures, class_constructors);
    }

    fn visit_statements(
        &self,
        ctx: &mut LintContext,
        statements: &Vec<Statement>,
        function_signatures: &SignatureMap,
        class_constructors: &SignatureMap,
    )
        ensures
            final(ctx).source == old(ctx).source,
            final(ctx).codebase == old(ctx).codebase,
            issue_views(final(ctx).issues@) == issue_views(old(ctx).issues@) + statements_issues(
                self.env(old(ctx).codebase, function_signatures@, class_constructors@),
                statements@,
            ),
        decreases statements@, 1int,
    {
        let ghost env = self.env(ctx.codebase, function_signatures@, class_constructors@);
        let ghost start = issue_views(ctx.issues@);
        let mut i: usize = 0;
        assert(start + statements_issues(env, statements@.take(0)) =~= start);
        while i < statements.len()
            invariant
                i <= statements@.len(),
                env == self.env(ctx.codebase, function_signatures@, class_constructors@),
                ctx.source == old(ctx).source,
                ctx.codebase == old(ctx).codebase,
                issue_views(ctx.issues@) == start + statements_issues(env, statements@.take(i as int)),
            decreases statements@.len() - i,
        {
            assert(statements@.take(i + 1).drop_last() =~= statements@.take(i as int));
            assert(decreases_to!(statements@ => statements@[i as int]));
            self.visit_statement(ctx, &statements[i], function_signatures, class_constructors);
            i = i + 1;
            assert(issue_views(ctx.issues@) =~= start + statements_issues(env, statements@.take(i as int)));
        }
        assert(statements@.take(statements@.len() as int) =~= statements@);
    }

    fn check_attribute_lists(
        &self,
        ctx: &mut LintContext,
        attribute_lists: &Vec<AttributeList>,
        function_signatures: &SignatureMap,
        class_constructors: &SignatureMap,
    )
        ensures
            final(ctx).source == old(ctx).source,
            final(ctx).codebase == old(ctx).codebase,
            issue_views(final(ctx).issues@) == issue_views(old(ctx).issues@) + attribute_lists_issues(
                self.env(old(ctx).codebase, function_signatures@, class_constructors@),
                attribute_lists@,
            ),
        decreases attribute_lists@, 1int,
    {
        let ghost env = self.env(ctx.codebase, function_signatures@, class_constructors@);
        let ghost start = issue_views(ctx.issues@);
        let mut i: usize = 0;
        assert(start + attribute_lists_issues(env, attribute_lists@.take(0)) =~= start);
        while i < attribute_lists.len()
            invariant
                i <= attribute_lists@.len(),
                env == self.env(ctx.codebase, function_signatures@, class_constructors@),
                ctx.source == old(ctx).source,
                ctx.codebase == old(ctx).codebase,
                issue_views(ctx.issues@) == start + attribute_lists_issues(env, attribute_lists@.take(i as int)),
            decreases attribute_lists@.len() - i,
        {
            assert(attribute_lists@.take(i + 1).drop_last() =~= attribute_lists@.take(i as int));
            assert(decreases_to!(attribute_lists@ => attribute_lists@[i as int]));
            self.visit_attributes(ctx, &attribute_lists[i].attributes, function_signatures, class_constructors);
            i = i + 1;
            assert(issue_views(ctx.issues@) =~= start + attribute_lists_issues(env, attribute_lists@.take(i as int)));
        }
        assert(attribute_lists@.take(attribute_lists@.len() as int) =~= attribute_lists@);
    }

    fn visit_attributes(
        &self,
        ctx: &mut LintContext,
        attributes: &Vec<Attribute>,
        function_signatures: &SignatureMap,
        class_constructors: &SignatureMap,
    )
        ensures
            final(ctx).source == old(ctx).source,
            final(ctx).codebase == old(ctx).codebase,
            issue_views(final(ctx).issues@) == issue_views(old(ctx).issues@) + attributes_issues(
                self.env(old(ctx).codebase, function_signatures@, class_constructors@),
                attributes@,
            ),
        decreases attributes@, 1int,
    {
        let ghost env = self.env(ctx.codebase, function_signatures@, class_constructors@);
        let ghost start = issue_views(ctx.issues@);
        let mut j: usize = 0;
        assert(start + attributes_issues(env, attributes@.take(0)) =~= start);
        while j < attributes.len()
            invariant
                j <= attributes@.len(),
                env == self.env(ctx.codebase, function_signatures@, class_constructors@),
                ctx.source == old(ctx).source,
                ctx.codebase == old(ctx).codebase,
                issue_views(ctx.issues@) == start + attributes_issues(env, attributes@.take(j as int)),
            decreases attributes@.len() - j,
        {
            assert(attributes@.take(j + 1).drop_last() =~= attributes@.take(j as int));
            assert(decreases_to!(attributes@ => attributes@[j as int]));
            self.visit_attribute(ctx, &attributes[j], function_signatures, class_constructors);
            j = j + 1;
            assert(issue_views(ctx.issues@) =~= start + attributes_issues(env, attributes@.take(j as int)));
        }
        assert(attributes@.take(attributes@.len() as int) =~= attributes@);
    }

    /// Checks an attribute against its class's constructor, then the calls in
    /// its argument values.
    fn visit_attribute(
        &self,
        ctx: &mut LintContext,
        attribute: &Attribute,
        function_signatures: &SignatureMap,
        class_constructors: &SignatureMap,
    )
        ensures
            final(ctx).source == old(ctx).source,
            final(ctx).codebase == old(ctx).codebase,
            issue_views(final(ctx).issues@) == issue_views(old(ctx).issues@) + attribute_site_issues(
                self.env(old(ctx).codebase, function_signatures@, class_constructors@),
                *attribute,
            ),
        decreases attribute, 0int,
    {
        let ghost env = self.env(ctx.codebase, function_signatures@, class_constructors@);
        let ghost start = issue_views(ctx.issues@);
        self.check_attribute_with_signatures(ctx, attribute, function_signatures, class_constructors);
        if let Some(list) = &attribute.argument_list {
            self.visit_arguments(ctx, &list.arguments, function_signatures, class_constructors);
        }
        assert(issue_views(ctx.issues@) =~= start + attribute_site_issues(env, *attribute));
    }

    fn visit_statement(
        &self,
        ctx: &mut LintContext,
        statement: &Statement,
        function_signatures: &SignatureMap,
        class_constructors: &SignatureMap,
    )
        ensures
            final(ctx).source == old(ctx).source,
            final(ctx).codebase == old(ctx).codebase,
            issue_views(final(ctx).issues@) == issue_views(old(ctx).issues@) + statement_issues(
                self.env(old(ctx).codebase, function_signatures@, class_constructors@),
                *statement,
            ),
        decreases statement, 0int,
    {
        let ghost env = self.env(ctx.codebase, function_signatures@, class_constructors@);
        let ghost start = issue_views(ctx.issues@);
        match statement {
            Statement::Function(function) => {
                self.visit_statements(ctx, &function.body.statements, function_signatures, class_constructors);
                self.check_attribute_lists(ctx, &function.attribute_lists, function_signatures, class_constructors);
                assert(issue_views(ctx.issues@) =~= start + statement_issues(env, *statement));
            },
            Statement::Class(class) => {
                self.check_attribute_lists(ctx, &class.attribute_lists, function_signatures, class_constructors);
                let ghost middle = issue_views(ctx.issues@);
                let mut m: usize = 0;
                assert(middle + members_issues(env, class.members@.take(0)) =~= middle);
                assert(decreases_to!(*statement => *class));
                assert(decreases_to!(*class => class.members));
                assert(decreases_to!(class.members => class.members@));
                while m < class.members.len()
                    invariant
                        decreases_to!(*statement => class.members@),
                        m <= class.members@.len(),
                        env == self.env(ctx.codebase, function_signatures@, class_constructors@),
                        ctx.source == old(ctx).source,
                        ctx.codebase == old(ctx).codebase,
                        issue_views(ctx.issues@) == middle + members_issues(env, class.members@.take(m as int)),
                    decreases class.members@.len() - m,
                {
                    assert(class.members@.take(m + 1).drop_last() =~= class.members@.take(m as int));
                    assert(decreases_to!(class.members@ => class.members@[m as int]));
                    self.visit_class_member(ctx, &class.members[m], function_signatures, class_constructors);
                    m = m + 1;
                    assert(issue_views(ctx.issues@) =~= middle + members_issues(env, class.members@.take(m as int)));
                }
                assert(class.members@.take(class.members@.len() as int) =~= class.members@);
                assert(issue_views(ctx.issues@) =~= start + statement_issues(env, *statement));
            },
            Statement::Expression(expression) => {
                self.visit_expression(ctx, expression, function_signatures, class_constructors);
            },
            Statement::Block(block) => {
                self.visit_statements(ctx, &block.statements, function_signatures, class_constructors);
            },
            Statement::For(for_loop) => {
                self.visit_expressions(ctx, &for_loop.initializations, function_signatures, class_constructors);
                self.visit_expressions(ctx, &for_loop.conditions, function_signatures, class_constructors);
                self.visit_expressions(ctx, &for_loop.increments, function_signatures, class_constructors);
                self.visit_loop_body(ctx, &for_loop.body, function_signatures, class_constructors);
                assert(issue_views(ctx.issues@) =~= start + statement_issues(env, *statement));
            },
            Statement::Foreach(foreach) => {
                self.visit_expression(ctx, &foreach.expression, function_signatures, class_constructors);
                self.visit_loop_body(ctx, &foreach.body, function_signatures, class_constructors);
                assert(issue_views(ctx.issues@) =~= start + statement_issues(env, *statement));
            },
            Statement::While(while_loop) => {
                self.visit_expression(ctx, &while_loop.condition, function_signatures, class_constructors);
                self.visit_loop_body(ctx, &while_loop.body, function_signatures, class_constructors);
                assert(issue_views(ctx.issues@) =~= start + statement_issues(env, *statement));
            },
            Statement::DoWhile(do_while) => {
                self.visit_statement(ctx, &do_while.statement, function_signatures, class_constructors);
                self.visit_expression(ctx, &do_while.condition, function_signatures, class_constructors);
                assert(issue_views(ctx.issues@) =~= start + statement_issues(env, *statement));
            },
            Statement::If(if_statement) => {
                self.visit_expression(ctx, &if_statement.condition, function_signatures, class_constructors);
                self.visit_statements(ctx, &if_statement.body, function_signatures, class_constructors);
                self.visit_statements(ctx, &if_statement.else_body, function_signatures, class_constructors);
                assert(issue_views(ctx.issues@) =~= start + statement_issues(env, *statement));
            },
            Statement::Switch(switch) => {
                self.visit_expression(ctx, &switch.subject, function_signatures, class_constructors);
                self.visit_cases(ctx, &switch.cases, function_signatures, class_constructors);
                assert(issue_views(ctx.issues@) =~= start + statement_issues(env, *statement));
            },
            Statement::Try(try_statement) => {
                self.visit_statements(ctx, &try_statement.body.statements, function_signatures, class_constructors);
                self.visit_blocks(ctx, &try_statement.catch_bodies, function_signatures, class_constructors);
                if let Some(finally_body) = &try_statement.finally_body {
                    self.visit_statements(ctx, &finally_body.statements, function_signatures, class_constructors);
                }
                assert(issue_views(ctx.issues@) =~= start + statement_issues(env, *statement));
            },
            Statement::Return(value) => {
                if let Some(value) = value {
                    self.visit_expression(ctx, value, function_signatures, class_constructors);
                } else {
                    assert(issue_views(ctx.issues@) + seq![] =~= issue_views(ctx.issues@));
                }
            },
            Statement::Echo(values) => {
                self.visit_expressions(ctx, values, function_signatures, class_constructors);
            },
            Statement::Namespace(body) => {
                self.visit_statements(ctx, body, function_signatures, class_constructors);
            },
            Statement::Other => {
                assert(issue_views(ctx.issues@) + seq![] =~= issue_views(ctx.issues@));
            },
        }
    }

    fn visit_loop_body(
        &self,
        ctx: &mut LintContext,
        body: &LoopBody,
        function_signatures: &SignatureMap,
        class_constructors: &SignatureMap,
    )
        ensures
            final(ctx).source == old(ctx).source,
            final(ctx).codebase == old(ctx).codebase,
            issue_views(final(ctx).issues@) == issue_views(old(ctx).issues@) + loop_body_issues(
                self.env(old(ctx).codebase, function_signatures@, class_constructors@),
                *body,
            ),
        decreases body, 0int,
    {
        match body {
            LoopBody::Statement(statement) => {
                self.visit_statement(ctx, statement, function_signatures, class_constructors);
            },
            LoopBody::ColonDelimited(statements) => {
                self.visit_statements(ctx, statements, function_signatures, class_constructors);
            },
        }
    }

    fn visit_cases(
        &self,
        ctx: &mut LintContext,
        cases: &Vec<SwitchCase>,
        function_signatures: &SignatureMap,
        class_constructors: &SignatureMap,
    )
        ensures
            final(ctx).source == old(ctx).source,
            final(ctx).codebase == old(ctx).codebase,
            issue_views(final(ctx).issues@) == issue_views(old(ctx).issues@) + cases_issues(
                self.env(old(ctx).codebase, function_signatures@, class_constructors@),
                cases@,
            ),
        decreases cases@, 1int,
    {
        let ghost env = self.env(ctx.codebase, function_signatures@, class_constructors@);
        let ghost start = issue_views(ctx.issues@);
        let mut i: usize = 0;
        assert(start + cases_issues(env, cases@.take(0)) =~= start);
        while i < cases.len()
            invariant
                i <= cases@.len(),
                env == self.env(ctx.codebase, function_signatures@, class_constructors@),
                ctx.source == old(ctx).source,
                ctx.codebase == old(ctx).codebase,
                issue_views(ctx.issues@) == start + cases_issues(env, cases@.take(i as int)),
            decreases cases@.len() - i,
        {
            assert(cases@.take(i + 1).drop_last() =~= cases@.take(i as int));
            assert(decreases_to!(cases@ => cases@[i as int]));
            let case = &cases[i];
            let ghost before = issue_views(ctx.issues@);
            if let Some(condition) = &case.condition {
                self.visit_expression(ctx, condition, function_signatures, class_constructors);
            }
            self.visit_statements(ctx, &case.statements, function_signatures, class_constructors);
            i = i + 1;
            assert(issue_views(ctx.issues@) =~= start + cases_issues(env, cases@.take(i as int)));
        }
        assert(cases@.take(cases@.len() as int) =~= cases@);
    }

    fn visit_blocks(
        &self,
        ctx: &mut LintContext,
        blocks: &Vec<Block>,
        function_signatures: &SignatureMap,
        class_constructors: &SignatureMap,
    )
        ensures
            final(ctx).source == old(ctx).source,
            final(ctx).codebase == old(ctx).codebase,
            issue_views(final(ctx).issues@) == issue_views(old(ctx).issues@) + blocks_issues(
                self.env(old(ctx).codebase, function_signatures@, class_constructors@),
                blocks@,
            ),
        decreases blocks@, 1int,
    {
        let ghost env = self.env(ctx.codebase, function_signatures@, class_constructors@);
        let ghost start = issue_views(ctx.issues@);
        let mut i: usize = 0;
        assert(start + blocks_issues(env, blocks@.take(0)) =~= start);
        while i < blocks.len()
            invariant
                i <= blocks@.len(),
                env == self.env(ctx.codebase, function_signatures@, class_constructors@),
                ctx.source == old(ctx).source,
                ctx.codebase == old(ctx).codebase,
                issue_views(ctx.issues@) == start + blocks_issues(env, blocks@.take(i as int)),
            decreases blocks@.len() - i,
        {
            assert(blocks@.take(i + 1).drop_last() =~= blocks@.take(i as int));
            assert(decreases_to!(blocks@ => blocks@[i as int]));
            self.visit_statements(ctx, &blocks[i].statements, function_signatures, class_constructors);
            i = i + 1;
            assert(issue_views(ctx.issues@) =~= start + blocks_issues(env, blocks@.take(i as int)));
        }
        assert(blocks@.take(blocks@.len() as int) =~= blocks@);
    }

    fn visit_class_member(
        &self,
        ctx: &mut LintContext,
        member: &ClassLikeMember,
        function_signatures: &SignatureMap,
        class_constructors: &SignatureMap,
    )
        ensures
            final(ctx).source == old(ctx).source,
            final(ctx).codebase == old(ctx).codebase,
            issue_views(final(ctx).issues@) == issue_views(old(ctx).issues@) + member_issues(
                self.env(old(ctx).codebase, function_signatures@, class_constructors@),
                *member,
            ),
        decreases member, 0int,
    {
        let ghost env = self.env(ctx.codebase, function_signatures@, class_constructors@);
        let ghost start = issue_views(ctx.issues@);
        if let ClassLikeMember::Method(method) = member {
            self.check_attribute_lists(ctx, &method.attribute_lists, function_signatures, class_constructors);
            match &method.body {
                MethodBody::Concrete(block) => {
                    self.visit_statements(ctx, &block.statements, function_signatures, class_constructors);
                },
                MethodBody::Abstract => {},
            }
            assert(issue_views(ctx.issues@) =~= start + member_issues(env, *member));
        } else {
            assert(issue_views(ctx.issues@) + seq![] =~= issue_views(ctx.issues@));
        }
    }

    fn visit_expression(
        &self,
        ctx: &mut LintContext,
        expression: &Expression,
        function_signatures: &SignatureMap,
        class_constructors: &SignatureMap,
    )
        ensures
            final(ctx).source == old(ctx).source,
            final(ctx).codebase == old(ctx).codebase,
            issue_views(final(ctx).issues@) == issue_views(old(ctx).issues@) + expression_issues(
                self.env(old(ctx).codebase, function_signatures@, class_constructors@),
                *expression,
            ),
        decreases expression, 0int,
    {
        let ghost env = self.env(ctx.codebase, function_signatures@, class_constructors@);
        let ghost start = issue_views(ctx.issues@);
        match &expression.kind {
            ExpressionKind::Call(Call::Function(function_call)) => {
                self.check_function_call_with_signatures(ctx, function_call, function_signatures, class_constructors);
                self.visit_expression(ctx, &function_call.function, function_signatures, class_constructors);
                self.visit_arguments(ctx, &function_call.argument_list.arguments, function_signatures, class_constructors);
                assert(issue_views(ctx.issues@) =~= start + expression_issues(env, *expression));
            },
            ExpressionKind::Call(Call::Method(method_call)) => {
                self.check_method_call_with_codebase(ctx, method_call);
                self.visit_expression(ctx, &method_call.object, function_signatures, class_constructors);
                self.visit_arguments(ctx, &method_call.argument_list.arguments, function_signatures, class_constructors);
                assert(issue_views(ctx.issues@) =~= start + expression_issues(env, *expression));
            },
            ExpressionKind::Call(Call::StaticMethod(static_call)) => {
                self.check_static_method_call_with_codebase(ctx, static_call, function_signatures, class_constructors);
                self.visit_expression(ctx, &static_call.class, function_signatures, class_constructors);
                self.visit_arguments(ctx, &static_call.argument_list.arguments, function_signatures, class_constructors);
                assert(issue_views(ctx.issues@) =~= start + expression_issues(env, *expression));
            },
            ExpressionKind::Instantiation(instantiation) => {
                self.check_instantiation_with_signatures(ctx, instantiation, function_signatures, class_constructors);
                self.visit_expression(ctx, &instantiation.class, function_signatures, class_constructors);
                if let Some(list) = &instantiation.argument_list {
                    self.visit_arguments(ctx, &list.arguments, function_signatures, class_constructors);
                }
                assert(issue_views(ctx.issues@) =~= start + expression_issues(env, *expression));
            },
            ExpressionKind::Binary(binary) => {
                self.visit_expression(ctx, &binary.lhs, function_signatures, class_constructors);
                self.visit_expression(ctx, &binary.rhs, function_signatures, class_constructors);
                assert(issue_views(ctx.issues@) =~= start + expression_issues(env, *expression));
            },
            ExpressionKind::Parenthesized(inner) => {
                self.visit_expression(ctx, inner, function_signatures, class_constructors);
            },
            ExpressionKind::Assignment(assignment) => {
                self.visit_expression(ctx, &assignment.lhs, function_signatures, class_constructors);
                self.visit_expression(ctx, &assignment.rhs, function_signatures, class_constructors);
                assert(issue_views(ctx.issues@) =~= start + expression_issues(env, *expression));
            },
            ExpressionKind::Array(elements) => {
                self.visit_expressions(ctx, elements, function_signatures, class_constructors);
            },
            ExpressionKind::Conditional(conditional) => {
                self.visit_expression(ctx, &conditional.condition, function_signatures, class_constructors);
                if let Some(if_true) = &conditional.if_true {
                    self.visit_expression(ctx, if_true, function_signatures, class_constructors);
                }
                self.visit_expression(ctx, &conditional.otherwise, function_signatures, class_constructors);
                assert(issue_views(ctx.issues@) =~= start + expression_issues(env, *expression));
            },
            ExpressionKind::Unary(operand) => {
                self.visit_expression(ctx, operand, function_signatures, class_constructors);
            },
            ExpressionKind::Closure(body) => {
                self.visit_statements(ctx, &body.statements, function_signatures, class_constructors);
            },
            ExpressionKind::ArrowFunction(value) => {
                self.visit_expression(ctx, value, function_signatures, class_constructors);
            },
            ExpressionKind::Composite(parts) => {
                self.visit_expressions(ctx, parts, function_signatures, class_constructors);
            },
            _ => {
                assert(issue_views(ctx.issues@) + seq![] =~= issue_views(ctx.issues@));
            },
        }
    }

    fn visit_expressions(
        &self,
        ctx: &mut LintContext,
        expressions: &Vec<Expression>,
        function_signatures: &SignatureMap,
        class_constructors: &SignatureMap,
    )
        ensures
            final(ctx).source == old(ctx).source,
            final(ctx).codebase == old(ctx).codebase,
            issue_views(final(ctx).issues@) == issue_views(old(ctx).issues@) + expressions_issues(
                self.env(old(ctx).codebase, function_signatures@, class_constructors@),
                expressions@,
            ),
        decreases expressions@, 1int,
    {
        let ghost env = self.env(ctx.codebase, function_signatures@, class_constructors@);
        let ghost start = issue_views(ctx.issues@);
        let mut i: usize = 0;
        assert(start + expressions_issues(env, expressions@.take(0)) =~= start);
        while i < expressions.len()
            invariant
                i <= expressions@.len(),
                env == self.env(ctx.codebase, function_signatures@, class_constructors@),
                ctx.source == old(ctx).source,
                ctx.codebase == old(ctx).codebase,
                issue_views(ctx.issues@) == start + expressions_issues(env, expressions@.take(i as int)),
            decreases expressions@.len() - i,
        {
            assert(expressions@.take(i + 1).drop_last() =~= expressions@.take(i as int));
            assert(decreases_to!(expressions@ => expressions@[i as int]));
            self.visit_expression(ctx, &expressions[i], function_signatures, class_constructors);
            i = i + 1;
            assert(issue_views(ctx.issues@) =~= start + expressions_issues(env, expressions@.take(i as int)));
        }
        assert(expressions@.take(expressions@.len() as int) =~= expressions@);
    }

    fn visit_arguments(
        &self,
        ctx: &mut LintContext,
        arguments: &Vec<Argument>,
        function_signatures: &SignatureMap,
        class_constructors: &SignatureMap,
    )
        ensures
            final(ctx).source == old(ctx).source,
            final(ctx).codebase == old(ctx).codebase,
            issue_views(final(ctx).issues@) == issue_views(old(ctx).issues@) + arguments_issues(
                self.env(old(ctx).codebase, function_signatures@, class_constructors@),
                arguments@,
            ),
        decreases arguments@, 1int,
    {
        let ghost env = self.env(ctx.codebase, function_signatures@, class_constructors@);
        let ghost start = issue_views(ctx.issues@);
        let mut i: usize = 0;
        assert(start + arguments_issues(env, arguments@.take(0)) =~= start);
        while i < arguments.len()
            invariant
                i <= arguments@.len(),
                env == self.env(ctx.codebase, function_signatures@, class_constructors@),
                ctx.source == old(ctx).source,
                ctx.codebase == old(ctx).codebase,
                issue_views(ctx.issues@) == start + arguments_issues(env, arguments@.take(i as int)),
            decreases arguments@.len() - i,
        {
            assert(arguments@.take(i + 1).drop_last() =~= arguments@.take(i as int));
            assert(decreases_to!(arguments@ => arguments@[i as int]));
            match &arguments[i] {
                Argument::Positional(positional) => {
                    self.visit_expression(ctx, &positional.value, function_signatures, class_constructors);
                },
                Argument::Named(named) => {
                    self.visit_expression(ctx, &named.value, function_signatures, class_constructors);
                },
            }
            i = i + 1;
            assert(issue_views(ctx.issues@) =~= start + arguments_issues(env, arguments@.take(i as int)));
        }
        assert(arguments@.take(arguments@.len() as int) =~= arguments@);
    }

    fn check_function_call_with_signatures(
        &self,
        ctx: &mut LintContext,
        function_call: &FunctionCall,
        function_signatures: &SignatureMap,
        class_constructors: &SignatureMap,
    )
        ensures
            final(ctx).source == old(ctx).source,
            final(ctx).codebase == old(ctx).codebase,
            issue_views(final(ctx).issues@) == issue_views(old(ctx).issues@) + function_call_issues(
                self.env(old(ctx).codebase, function_signatures@, class_constructors@),
                *function_call,
            ),
    {
        let named_args = collect_named(&function_call.argument_list.arguments);
        if named_args.len() < 2 {
            assert(issue_views(ctx.issues@) + seq![] =~= issue_views(ctx.issues@));
            return ;
        }
        let function_name = match &function_call.function.kind {
            ExpressionKind::Identifier(identifier) => &identifier.value,
            _ => {
                assert(issue_views(ctx.issues@) + seq![] =~= issue_views(ctx.issues@));
                return ;
            },
        };
        if let Some(parameter_order) = function_signatures.get(function_name) {
            self.check_argument_order_against_expected(ctx, &named_args, parameter_order, FUNCTION_SIGNATURE);
            return ;
        }
        if let Some(parameter_order) = self.lookup_function_signature_from_codebase(ctx, function_name) {
            self.check_argument_order_against_expected(ctx, &named_args, &parameter_order, FUNCTION_SIGNATURE);
        } else {
            assert(issue_views(ctx.issues@) + seq![] =~= issue_views(ctx.issues@));
        }
    }

    fn check_attribute_with_signatures(
        &self,
        ctx: &mut LintContext,
        attribute: &Attribute,
        function_signatures: &SignatureMap,
        class_constructors: &SignatureMap,
    )
        ensures
            final(ctx).source == old(ctx).source,
            final(ctx).codebase == old(ctx).codebase,
            issue_views(final(ctx).issues@) == issue_views(old(ctx).issues@) + attribute_issues(
                self.env(old(ctx).codebase, function_signatures@, class_constructors@),
                *attribute,
            ),
    {
        let argument_list = match &attribute.argument_list {
            Some(l) => l,
            None => {
                assert(issue_views(ctx.issues@) + seq![] =~= issue_views(ctx.issues@));
                return ;
            },
        };
        let named_args = collect_named(&argument_list.arguments);
        if named_args.len() < 2 {
            assert(issue_views(ctx.issues@) + seq![] =~= issue_views(ctx.issues@));
            return ;
        }
        let class_name = &attribute.name.value;
        if let Some(parameter_order) = class_constructors.get(class_name) {
            self.check_argument_order_against_expected(ctx, &named_args, parameter_order, ATTRIBUTE_CONSTRUCTOR_SIGNATURE);
            return ;
        }
        let constructor = lit_bytes(CONSTRUCTOR_NAME);
        if let Some(parameter_order) = self.lookup_method_signature_from_codebase(ctx, class_name, &constructor) {
            self.check_argument_order_against_expected(ctx, &named_args, &parameter_order, ATTRIBUTE_CONSTRUCTOR_SIGNATURE);
        } else {
            assert(issue_views(ctx.issues@) + seq![] =~= issue_views(ctx.issues@));
        }
    }

    /// Method calls are checked only where the class of the object is known;
    /// it never is, so they report nothing.
    fn check_method_call_with_codebase(&self, ctx: &mut LintContext, method_call: &MethodCall)
        ensures
            final(ctx).source == old(ctx).source,
            final(ctx).codebase == old(ctx).codebase,
            issue_views(final(ctx).issues@) == issue_views(old(ctx).issues@),
    {
        let named_args = collect_named(&method_call.argument_list.arguments);
        if named_args.len() < 2 {
            return ;
        }
        let method_name = match &method_call.method {
            ClassLikeMemberSelector::Identifier(identifier) => &identifier.value,
            _ => {
                return ;
            },
        };
        if let Some(parameter_order) = self.lookup_method_from_object_type(ctx, method_call, method_name) {
            self.check_argument_order_against_expected(ctx, &named_args, &parameter_order, METHOD_SIGNATURE);
        }
    }

    fn check_static_method_call_with_codebase(
        &self,
        ctx: &mut LintContext,
        static_call: &StaticMethodCall,
        function_signatures: &SignatureMap,
        class_constructors: &SignatureMap,
    )
        ensures
            final(ctx).source == old(ctx).source,
            final(ctx).codebase == old(ctx).codebase,
            issue_views(final(ctx).issues@) == issue_views(old(ctx).issues@) + static_method_call_issues(
                self.env(old(ctx).codebase, function_signatures@, class_constructors@),
                *static_call,
            ),
    {
        let named_args = collect_named(&static_call.argument_list.arguments);
        if named_args.len() < 2 {
            assert(issue_views(ctx.issues@) + seq![] =~= issue_views(ctx.issues@));
            return ;
        }
        let class_name = match &static_call.class.kind {
            ExpressionKind::Identifier(identifier) => &identifier.value,
            _ => {
                assert(issue_views(ctx.issues@) + seq![] =~= issue_views(ctx.issues@));
                return ;
            },
        };
        let method_name = match &static_call.method {
            ClassLikeMemberSelector::Identifier(identifier) => &identifier.value,
            _ => {
                assert(issue_views(ctx.issues@) + seq![] =~= issue_views(ctx.issues@));
                return ;
            },
        };
        if let Some(parameter_order) = self.lookup_method_signature_from_codebase(ctx, class_name, method_name) {
            self.check_argument_order_against_expected(ctx, &named_args, &parameter_order, STATIC_METHOD_SIGNATURE);
        } else {
            assert(issue_views(ctx.issues@) + seq![] =~= issue_views(ctx.issues@));
        }
    }

    fn check_instantiation_with_signatures(
        &self,
        ctx: &mut LintContext,
        instantiation: &Instantiation,
        function_signatures: &SignatureMap,
        class_constructors: &SignatureMap,
    )
        ensures
            final(ctx).source == old(ctx).source,
            final(ctx).codebase == old(ctx).codebase,
            issue_views(final(ctx).issues@) == issue_views(old(ctx).issues@) + instantiation_issues(
                self.env(old(ctx).codebase, function_signatures@, class_constructors@),
                *instantiation,
            ),
    {
        let argument_list = match &instantiation.argument_list {
            Some(l) => l,
            None => {
                assert(issue_views(ctx.issues@) + seq![] =~= issue_views(ctx.issues@));
                return ;
            },
        };
        let named_args = collect_named(&argument_list.arguments);
        if named_args.len() < 2 {
            assert(issue_views(ctx.issues@) + seq![] =~= issue_views(ctx.issues@));
            return ;
        }
        let class_name = match &instantiation.class.kind {
            ExpressionKind::Identifier(identifier) => &identifier.value,
            _ => {
                assert(issue_views(ctx.issues@) + seq![] =~= issue_views(ctx.issues@));
                return ;
            },
        };
        if let Some(parameter_order) = class_constructors.get(class_name) {
            self.check_argument_order_against_expected(ctx, &named_args, parameter_order, CONSTRUCTOR_SIGNATURE);
            return ;
        }
        let constructor = lit_bytes(CONSTRUCTOR_NAME);
        if let Some(parameter_order) = self.lookup_method_signature_from_codebase(ctx, class_name, &constructor) {
            self.check_argument_order_against_expected(ctx, &named_args, &parameter_order, CONSTRUCTOR_SIGNATURE);
        } else {
            assert(issue_views(ctx.issues@) + seq![] =~= issue_views(ctx.issues@));
        }
    }

    /// The parameter names (without `$`) of a global function of the codebase.
    fn lookup_function_signature_from_codebase(&self, ctx: &LintContext, function_name: &Vec<u8>) -> (r: Option<Vec<Vec<u8>>>)
        ensures
            optional_strings(r) == codebase_parameters(
                codebase_view(ctx.codebase),
                (seq![], ascii_lowercase(function_name@)),
                FunctionLikeKind::Function,
            ),
    {
        let codebase = match &ctx.codebase {
            Some(c) => c,
            None => {
                return None;
            },
        };
        let function_atom = to_ascii_lowercase(function_name);
        let empty_scope: Vec<u8> = Vec::new();
        assert(empty_scope@ =~= seq![]);
        match codebase.get(&empty_scope, &function_atom) {
            Some(metadata) => {
                if metadata.kind == FunctionLikeKind::Function {
                    Some(strip_all(&metadata.parameters))
                } else {
                    None
                }
            },
            None => None,
        }
    }

    /// The parameter names (without `$`) of a method of the codebase.
    fn lookup_method_signature_from_codebase(
        &self,
        ctx: &LintContext,
        class_name: &Vec<u8>,
        method_name: &Vec<u8>,
    ) -> (r: Option<Vec<Vec<u8>>>)
        ensures
            optional_strings(r) == codebase_parameters(
                codebase_view(ctx.codebase),
                (ascii_lowercase(class_name@), ascii_lowercase(method_name@)),
                FunctionLikeKind::Method,
            ),
    {
        let codebase = match &ctx.codebase {
            Some(c) => c,
            None => {
                return None;
            },
        };
        let class_atom = to_ascii_lowercase(class_name);
        let method_atom = to_ascii_lowercase(method_name);
        match codebase.get(&class_atom, &method_atom) {
            Some(metadata) => {
                if metadata.kind == FunctionLikeKind::Method {
                    Some(strip_all(&metadata.parameters))
                } else {
                    None
                }
            },
            None => None,
        }
    }

    /// The signature of a method called on an object: only `$this` in a known
    /// current class is resolved.
    fn lookup_method_from_object_type(
        &self,
        ctx: &LintContext,
        method_call: &MethodCall,
        method_name: &Vec<u8>,
    ) -> (r: Option<Vec<Vec<u8>>>)
        ensures
            r is None,
    {
        if let ExpressionKind::Variable(Variable::Direct(var)) = &method_call.object.kind {
            let this = lit_bytes(THIS_VARIABLE);
            if bytes_equal(&var.name, &this) {
                if let Some(current_class) = self.get_current_class_from_context(ctx) {
                    return self.lookup_method_signature_from_codebase(ctx, &current_class, method_name);
                }
            }
        }
        None
    }

    /// The class whose body is being visited: the rule does not track it.
    fn get_current_class_from_context(&self, _ctx: &LintContext) -> (r: Option<Vec<u8>>)
        ensures
            r is None,
    {
        None
    }

    fn get_argument_value_text(&self, arg: &NamedArgument) -> (r: Vec<u8>)
        ensures
            r@ == value_text(arg.value),
    {
        match &arg.value.kind {
            ExpressionKind::Literal(literal) => match literal {
                Literal::String { raw, value } => {
                    if let Some(value) = value {
                        let mut r = lit_bytes("\"");
                        append_bytes(&mut r, value);
                        append_bytes(&mut r, &lit_bytes("\""));
                        r
                    } else {
                        copy_bytes(raw)
                    }
                },
                Literal::Integer { raw, value } => {
                    if let Some(value) = value {
                        decimal_bytes(*value)
                    } else {
                        copy_bytes(raw)
                    }
                },
                Literal::Float { raw } => copy_bytes(raw),
                Literal::True => lit_bytes("true"),
                Literal::False => lit_bytes("false"),
                Literal::Null => lit_bytes("null"),
            },
            _ => lit_bytes("/* complex expression */"),
        }
    }

    fn create_reorder_fix(
        &self,
        plan: &mut FixPlan,
        original_args: &Vec<&NamedArgument>,
        sorted_args: &Vec<&NamedArgument>,
    )
        ensures
            original_args@.len() != sorted_args@.len() || original_args@.len() == 0 ==> final(plan)@ == old(plan)@,
            original_args@.len() == sorted_args@.len() && original_args@.len() != 0 ==> final(plan)@ == old(plan)@.push(
                EditView {
                    start: original_args@[0].spec_span().start,
                    end: original_args@[original_args@.len() - 1].spec_span().end,
                    replacement: join(
                        Seq::new(
                            sorted_args@.len(),
                            |k: int| sorted_args@[k].name.value@ + lit(": ") + value_text(sorted_args@[k].value),
                        ),
                        lit(",\n    "),
                    ),
                    safety: SafetyClassification::Safe,
                },
            ),
    {
        if original_args.len() != sorted_args.len() || original_args.len() == 0 {
            return ;
        }
        let first_arg_span = original_args[0].span();
        let last_arg_span = original_args[original_args.len() - 1].span();
        let full_span = crate::ast::Span::between(first_arg_span, last_arg_span);
        let mut replacement_parts: Vec<Vec<u8>> = Vec::new();
        let ghost parts = Seq::new(
            sorted_args@.len(),
            |k: int| sorted_args@[k].name.value@ + lit(": ") + value_text(sorted_args@[k].value),
        );
        let mut k: usize = 0;
        while k < sorted_args.len()
            invariant
                k <= sorted_args@.len(),
                parts == Seq::new(
                    sorted_args@.len(),
                    |k: int| sorted_args@[k].name.value@ + lit(": ") + value_text(sorted_args@[k].value),
                ),
                byte_strings(replacement_parts@) == parts.take(k as int),
            decreases sorted_args@.len() - k,
        {
            let arg = sorted_args[k];
            let mut arg_text = copy_bytes(&arg.name.value);
            append_bytes(&mut arg_text, &lit_bytes(": "));
            append_bytes(&mut arg_text, &self.get_argument_value_text(arg));
            assert(arg_text@ == parts[k as int]);
            let ghost before = replacement_parts@;
            replacement_parts.push(arg_text);
            assert(replacement_parts@ == before.push(arg_text));
            proof {
                crate::text::lemma_byte_strings_push(before, arg_text);
            }
            k = k + 1;
            assert(byte_strings(replacement_parts@) =~= parts.take(k as int));
        }
        assert(parts.take(k as int) =~= parts);
        let replacement_text = join_bytes(&replacement_parts, &lit_bytes(",\n    "));
        let ghost old_plan = plan@;
        plan.edits.push(Edit {
            start: full_span.start,
            end: full_span.end,
            replacement: replacement_text,
            safety: SafetyClassification::Safe,
        });
        assert(plan@ =~= old_plan.push(
            EditView {
                start: original_args@[0].spec_span().start,
                end: original_args@[original_args@.len() - 1].spec_span().end,
                replacement: join(parts, lit(",\n    ")),
                safety: SafetyClassification::Safe,
            },
        ));
    }


    /// The issue for one argument out of order, before any fix is attached.
    fn order_issue_for(&self, arg: &NamedArgument, context_description: &str) -> (r: Issue)
        ensures
            r@ == order_issue(
                self.spec_config().level,
                lit(self.spec_meta().code),
                *arg,
                lit(context_description),
                None,
            ),
    {
        let description = lit_bytes(context_description);
        let mut message = lit_bytes("Named argument `");
        append_bytes(&mut message, &arg.name.value);
        append_bytes(&mut message, &lit_bytes("` is not in the same order as the "));
        append_bytes(&mut message, &description);
        append_bytes(&mut message, &lit_bytes("."));
        let mut help = lit_bytes("Reorder named arguments to match the ");
        append_bytes(&mut help, &description);
        append_bytes(&mut help, &lit_bytes(" parameter order."));
        Issue {
            level: self.cfg.level,
            code: lit_bytes(self.meta.code),
            message,
            annotation: Annotation { span: arg.span(), message: lit_bytes("This argument is out of order.") },
            note: None,
            help,
            fix: None,
        }
    }

    /// Reports each named argument whose parameter comes before that of an
    /// earlier argument; the first report carries a fix that sorts all of them
    /// by the position of their parameters.
    fn check_argument_order_against_expected(
        &self,
        ctx: &mut LintContext,
        named_args: &Vec<&NamedArgument>,
        expected_order: &Vec<Vec<u8>>,
        context_description: &str,
    )
        ensures
            final(ctx).source == old(ctx).source,
            final(ctx).codebase == old(ctx).codebase,
            issue_views(final(ctx).issues@) == issue_views(old(ctx).issues@) + order_issues(
                self.spec_config().level,
                lit(self.spec_meta().code),
                arguments_behind(named_args@),
                byte_strings(expected_order@),
                lit(context_description),
            ),
    {
        let ghost named = arguments_behind(named_args@);
        let ghost expected = byte_strings(expected_order@);
        let n = named_args.len();
        let mut positions: Vec<Option<usize>> = Vec::new();
        let mut i: usize = 0;
        while i < n
            invariant
                n == named_args@.len(),
                named == arguments_behind(named_args@),
                expected == byte_strings(expected_order@),
                i <= n,
                positions@.len() == i,
                forall|k: int| 0 <= k < i ==> match #[trigger] positions@[k] {
                    Some(p) => parameter_position(expected, named[k].name.value@) == Some(p as int),
                    None => parameter_position(expected, named[k].name.value@) is None,
                },
            decreases n - i,
        {
            positions.push(parameter_position_of(expected_order, &named_args[i].name.value));
            i = i + 1;
        }
        let mut out_of_order_args: Vec<usize> = Vec::new();
        let mut expected_position: usize = 0;
        let mut i: usize = 0;
        while i < n
            invariant
                n == named_args@.len(),
                named == arguments_behind(named_args@),
                expected == byte_strings(expected_order@),
                i <= n,
                positions@.len() == n,
                forall|k: int| 0 <= k < n ==> match #[trigger] positions@[k] {
                    Some(p) => parameter_position(expected, named[k].name.value@) == Some(p as int),
                    None => parameter_position(expected, named[k].name.value@) is None,
                },
                out_of_order_args@.len() == out_of_order_positions(expected, named, i as int).len(),
                forall|k: int| 0 <= k < out_of_order_args@.len() ==> #[trigger] out_of_order_args@[k] as int
                    == out_of_order_positions(expected, named, i as int)[k],
                forall|j: int| 0 <= j < i && #[trigger] positions@[j] is Some ==> positions@[j]->0 <= expected_position,
                expected_position == 0 || exists|j: int| 0 <= j < i && #[trigger] positions@[j] == Some(expected_position),
            decreases n - i,
        {
            let ghost before = out_of_order_args@;
            if let Some(param_position) = positions[i] {
                if param_position < expected_position {
                    out_of_order_args.push(i);
                    assert(is_out_of_order(expected, named, i as int)) by {
                        let j = choose|j: int| 0 <= j < i && #[trigger] positions@[j] == Some(expected_position);
                        assert(parameter_position(expected, named[j].name.value@) is Some);
                    }
                } else {
                    assert(!is_out_of_order(expected, named, i as int)) by {
                        if is_out_of_order(expected, named, i as int) {
                            let j = choose|j: int|
                                0 <= j < i && #[trigger] parameter_position(expected, named[j].name.value@) is Some
                                    && parameter_position(expected, named[j].name.value@)->0 > parameter_position(
                                    expected,
                                    named[i as int].name.value@,
                                )->0;
                            assert(positions@[j] is Some);
                        }
                    }
                    expected_position = param_position;
                }
            } else {
                assert(!is_out_of_order(expected, named, i as int));
            }
            i = i + 1;
            assert forall|k: int| 0 <= k < out_of_order_args@.len() implies #[trigger] out_of_order_args@[k] as int
                == out_of_order_positions(expected, named, i as int)[k] by {
                if k < before.len() {
                    assert(out_of_order_args@[k] == before[k]);
                }
            }
        }
        let ghost oo = out_of_order_positions(expected, named, n as int);
        proof {
            lemma_out_of_order_positions_range(expected, named, n as int);
        }
        let ghost all_issues = order_issues(
            self.spec_config().level,
            lit(self.spec_meta().code),
            named,
            expected,
            lit(context_description),
        );
        if out_of_order_args.len() == 0 {
            assert(issue_views(ctx.issues@) + all_issues =~= issue_views(ctx.issues@));
            return ;
        }
        let mut keys: Vec<usize> = Vec::new();
        let mut i: usize = 0;
        while i < n
            invariant
                n == named_args@.len(),
                named == arguments_behind(named_args@),
                expected == byte_strings(expected_order@),
                i <= n,
                positions@.len() == n,
                forall|k: int| 0 <= k < n ==> match #[trigger] positions@[k] {
                    Some(p) => parameter_position(expected, named[k].name.value@) == Some(p as int),
                    None => parameter_position(expected, named[k].name.value@) is None,
                },
                keys@.len() == i,
                forall|k: int| 0 <= k < i ==> #[trigger] keys@[k] == sort_key(expected, named[k].name.value@),
            decreases n - i,
        {
            let key = match positions[i] {
                Some(p) => p,
                None => usize::MAX,
            };
            keys.push(key);
            i = i + 1;
        }
        assert(keys@ =~= sort_keys(expected, named));
        let order = stable_order_by_number(&keys);
        let ghost spec_order = stable_order(n as nat, by_number(keys@));
        proof {
            crate::order::lemma_by_number_strict_weak(keys@);
            crate::order::lemma_stable_order(n as nat, by_number(keys@));
        }
        let mut sorted_args: Vec<&NamedArgument> = Vec::new();
        let mut k: usize = 0;
        while k < n
            invariant
                n == named_args@.len(),
                named == arguments_behind(named_args@),
                order@.len() == n,
                forall|i: int| 0 <= i < n ==> #[trigger] order@[i] as int == spec_order[i],
                crate::order::is_permutation(spec_order, n as nat),
                k <= n,
                sorted_args@.len() == k,
                forall|i: int| 0 <= i < k ==> *#[trigger] sorted_args@[i] == named[spec_order[i]],
            decreases n - k,
        {
            assert(0 <= spec_order[k as int] < n);
            sorted_args.push(named_args[order[k]]);
            k = k + 1;
        }
        let ghost start = issue_views(ctx.issues@);
        let mut k: usize = 0;
        while k < out_of_order_args.len()
            invariant
                n == named_args@.len(),
                named == arguments_behind(named_args@),
                expected == byte_strings(expected_order@),
                oo == out_of_order_positions(expected, named, n as int),
                out_of_order_args@.len() == oo.len(),
                out_of_order_args@.len() > 0,
                forall|j: int| 0 <= j < out_of_order_args@.len() ==> #[trigger] out_of_order_args@[j] as int == oo[j],
                forall|j: int| 0 <= j < oo.len() ==> 0 <= #[trigger] oo[j] < n,
                all_issues == order_issues(
                    self.spec_config().level,
                    lit(self.spec_meta().code),
                    named,
                    expected,
                    lit(context_description),
                ),
                sorted_args@.len() == n,
                forall|i: int| 0 <= i < n ==> *#[trigger] sorted_args@[i] == named[spec_order[i]],
                spec_order == stable_order(n as nat, by_number(sort_keys(expected, named))),
                k <= out_of_order_args@.len(),
                ctx.source == old(ctx).source,
                ctx.codebase == old(ctx).codebase,
                issue_views(ctx.issues@) == start + all_issues.take(k as int),
            decreases out_of_order_args@.len() - k,
        {
            let out_of_order_arg = named_args[out_of_order_args[k]];
            let issue = self.order_issue_for(out_of_order_arg, context_description);
            if k == 0 {
                let mut plan = FixPlan { edits: Vec::new() };
                assert(plan@ =~= Seq::<EditView>::empty());
                self.create_reorder_fix(&mut plan, named_args, &sorted_args);
                proof {
                    let parts = Seq::new(
                        sorted_args@.len(),
                        |k: int| sorted_args@[k].name.value@ + lit(": ") + value_text(sorted_args@[k].value),
                    );
                    let spec_parts = Seq::new(
                        named.len(),
                        |k: int| named[spec_order[k]].name.value@ + lit(": ") + value_text(named[spec_order[k]].value),
                    );
                    assert(parts =~= spec_parts);
                    assert(plan@ =~= reorder_fix(expected, named));
                }
                ctx.propose(issue, plan);
            } else {
                ctx.report(issue);
            }
            k = k + 1;
            assert(issue_views(ctx.issues@) =~= start + all_issues.take(k as int));
        }
        assert(all_issues.take(k as int) =~= all_issues);
    }

}


/// The named arguments of a list, in order.
fn collect_named<'a>(arguments: &'a Vec<Argument>) -> (r: Vec<&'a NamedArgument>)
    ensures
        arguments_behind(r@) == named_arguments(arguments@),
{
    let mut r: Vec<&'a NamedArgument> = Vec::new();
    let mut i: usize = 0;
    while i < arguments.len()
        invariant
            i <= arguments@.len(),
            arguments_behind(r@) == named_arguments(arguments@.take(i as int)),
        decreases arguments@.len() - i,
    {
        assert(arguments@.take(i + 1).drop_last() =~= arguments@.take(i as int));
        match &arguments[i] {
            Argument::Named(named) => {
                r.push(named);
            },
            Argument::Positional(_) => {},
        }
        i = i + 1;
        assert(arguments_behind(r@) =~= named_arguments(arguments@.take(i as int)));
    }
    assert(arguments@.take(arguments@.len() as int) =~= arguments@);
    r
}

/// The names without their leading `$`.
fn strip_all(names: &Vec<Vec<u8>>) -> (r: Vec<Vec<u8>>)
    ensures
        byte_strings(r@) == byte_strings(names@).map_values(|p: Seq<u8>| strip_dollar(p)),
{
    let mut r: Vec<Vec<u8>> = Vec::new();
    let mut i: usize = 0;
    while i < names.len()
        invariant
            i <= names@.len(),
            byte_strings(r@) == byte_strings(names@).map_values(|p: Seq<u8>| strip_dollar(p)).take(i as int),
        decreases names@.len() - i,
    {
        let ghost before = r@;
        let name = strip_dollar_prefix(&names[i]);
        assert(name@ == byte_strings(names@).map_values(|p: Seq<u8>| strip_dollar(p))[i as int]);
        r.push(name);
        assert(r@ == before.push(name));
        proof {
            crate::text::lemma_byte_strings_push(before, name);
        }
        i = i + 1;
        assert(byte_strings(r@) =~= byte_strings(names@).map_values(|p: Seq<u8>| strip_dollar(p)).take(i as int));
    }
    assert(byte_strings(names@).map_values(|p: Seq<u8>| strip_dollar(p)).take(i as int) =~= byte_strings(names@).map_values(|p: Seq<u8>| strip_dollar(p)));
    r
}

pub proof fn lemma_out_of_order_positions_range(expected: Seq<Seq<u8>>, named: Seq<NamedArgument>, m: int)
    ensures
        forall|j: int| 0 <= j < out_of_order_positions(expected, named, m).len()
            ==> 0 <= #[trigger] out_of_order_positions(expected, named, m)[j] < m,
    decreases m,
{
    if m > 0 {
        lemma_out_of_order_positions_range(expected, named, m - 1);
        let prev = out_of_order_positions(expected, named, m - 1);
        let cur = out_of_order_positions(expected, named, m);
        assert forall|j: int| 0 <= j < cur.len() implies 0 <= #[trigger] cur[j] < m by {
            if j < prev.len() {
                assert(cur[j] == prev[j]);
            }
        }
    }
}

proof fn lemma_parameter_position_prefix(expected: Seq<Seq<u8>>, name: Seq<u8>, i: int)
    requires
        0 <= i <= expected.len(),
        forall|j: int| i <= j < expected.len() ==> #[trigger] expected[j] != name,
    ensures
        parameter_position(expected, name) == parameter_position(expected.take(i), name),
    decreases expected.len() - i,
{
    if i < expected.len() {
        let d = expected.drop_last();
        assert forall|j: int| i <= j < d.len() implies #[trigger] d[j] != name by {
            assert(d[j] == expected[j]);
        }
        lemma_parameter_position_prefix(d, name, i);
        assert(d.take(i) =~= expected.take(i));
    } else {
        assert(expected.take(i) =~= expected);
    }
}

/// The last position of a name among the parameters.
fn parameter_position_of(expected: &Vec<Vec<u8>>, name: &Vec<u8>) -> (r: Option<usize>)
    ensures
        match r {
            Some(p) => parameter_position(byte_strings(expected@), name@) == Some(p as int),
            None => parameter_position(byte_strings(expected@), name@) is None,
        },
{
    let ghost names = byte_strings(expected@);
    let mut i: usize = expected.len();
    while i > 0
        invariant
            i <= expected@.len(),
            names == byte_strings(expected@),
            forall|j: int| i <= j < names.len() ==> #[trigger] names[j] != name@,
        decreases i,
    {
        if bytes_equal(&expected[i - 1], name) {
            proof {
                lemma_parameter_position_prefix(names, name@, i as int);
                assert(names.take(i as int).last() == name@);
            }
            return Some(i - 1);
        }
        i = i - 1;
    }
    proof {
        lemma_parameter_position_prefix(names, name@, 0);
    }
    None
}

} // verus!
