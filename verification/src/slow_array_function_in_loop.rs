//! The rule against slow array functions in loops: `count()` or `sizeof()` in
//! a loop condition, and `$a = array_merge($a, ...)` in a loop body.
use vstd::prelude::*;

use crate::ast::{
    Argument, Assignment, Call, DoWhile, Expression, ExpressionKind, For, Foreach, FunctionCall, LoopBody, Node,
    NodeKind, Span, Statement, While,
};
use crate::reporting::{Annotation, AnnotationView, Issue, IssueView, Level, LintContext, issue_views};
use crate::rule::{Category, RuleMeta, RuleRequirements, RuleSettings};
use crate::text::{byte_strings, bytes_eq_ignore_ascii_case, bytes_equal, eq_ignore_ascii_case, lit, lit_bytes,
    slice_bytes};

verus! {

pub const SLOW_ARRAY_NAME: &'static str = "Slow Array Function in Loop";

pub const SLOW_ARRAY_CODE: &'static str = "slow-array-function-in-loop";

pub const SLOW_ARRAY_DESCRIPTION: &'static str = "Detects performance anti-patterns where slow array functions are used inside loops,\ncausing unnecessary computational overhead and high CPU usage.\n\nThis rule identifies two main patterns:\n1. Array merging in loops - `array_merge()` called repeatedly in loop iterations\n2. Count function in loop conditions - `count()`, `sizeof()` called in loop conditions\n\nArray merging in loops has O(n²) complexity and can be 10-100x slower than collecting\narrays and merging once. Count functions in loop conditions cause unnecessary overhead\nwhen the array doesn't change.\n";

pub const SLOW_ARRAY_GOOD_EXAMPLE: &'static str = "<?php\n\n// Collect arrays, then merge once\n$options = [];\nforeach ($sources as $source) {\n    $options[] = $source->getOptions();\n}\n$options = array_merge(...$options);\n\n// Cache count result\nfor ($i = 0, $count = count($array); $i < $count; $i++) {\n    echo $array[$i];\n}\n";

pub const SLOW_ARRAY_BAD_EXAMPLE: &'static str = "<?php\n\n// Slow array merging in loop\n$options = [];\nforeach ($sources as $source) {\n    $options = array_merge($options, $source->getOptions());\n}\n\n// Count called on every iteration\nfor ($i = 0; $i < count($array); $i++) {\n    echo $array[$i];\n}\n";

pub const COUNT_ANNOTATION: &'static str = "This count() call executes on every iteration";

pub const COUNT_NOTE: &'static str = "Calling count() in loop conditions causes unnecessary function call overhead.";

pub const COUNT_HELP: &'static str = "Cache the count result: for ($i = 0, $count = count($array); $i < $count; $i++)";

pub const MERGE_MESSAGE: &'static str = "Slow array merging in loop detected.";

pub const MERGE_ANNOTATION: &'static str = "This array_merge call executes on every iteration";

pub const MERGE_NOTE: &'static str = "Merging arrays in loops has O(n²) complexity and causes high CPU usage.";

pub const MERGE_HELP: &'static str = "Collect arrays in the loop, then merge once: $options[] = $source->getOptions(); array_merge(...$options);";

pub const FOR_LOOP: &'static str = "for loop";

pub const WHILE_LOOP: &'static str = "while loop";

pub const DO_WHILE_LOOP: &'static str = "do-while loop";

/// The metadata of the rule.
pub open spec fn slow_array_meta() -> RuleMeta {
    RuleMeta {
        name: SLOW_ARRAY_NAME,
        code: SLOW_ARRAY_CODE,
        description: SLOW_ARRAY_DESCRIPTION,
        good_example: SLOW_ARRAY_GOOD_EXAMPLE,
        bad_example: SLOW_ARRAY_BAD_EXAMPLE,
        category: Category::BestPractices,
        requirements: RuleRequirements::Unrestricted,
    }
}

/// The configuration of the rule. Only `level`, `detect_array_merge` and
/// `detect_count_functions` change what the rule reports.
#[derive(Clone, Copy, Debug)]
pub struct SlowArrayFunctionInLoopConfig {
    pub level: Level,
    pub detect_array_merge: bool,
    pub detect_count_functions: bool,
    pub detect_in_nested_loops: bool,
    pub auto_fix_array_merge: bool,
    pub auto_fix_count_in_loop: bool,
    pub min_loop_iterations_threshold: usize,
    pub require_safe_count_caching: bool,
    pub max_auto_fix_complexity: usize,
}

impl Default for SlowArrayFunctionInLoopConfig {
    fn default() -> (r: Self)
        ensures
            r.level == Level::Warning,
            r.detect_array_merge,
            r.detect_count_functions,
            r.detect_in_nested_loops,
            r.auto_fix_array_merge,
            r.auto_fix_count_in_loop,
            r.min_loop_iterations_threshold == 2,
            r.require_safe_count_caching,
            r.max_auto_fix_complexity == 10,
    {
        Self {
            level: Level::Warning,
            detect_array_merge: true,
            detect_count_functions: true,
            detect_in_nested_loops: true,
            auto_fix_array_merge: true,
            auto_fix_count_in_loop: true,
            min_loop_iterations_threshold: 2,
            require_safe_count_caching: true,
            max_auto_fix_complexity: 10,
        }
    }
}

impl SlowArrayFunctionInLoopConfig {
    /// The level of the issues the rule reports.
    pub fn level(&self) -> (r: Level)
        ensures
            r == self.level,
    {
        self.level
    }

    /// The rule is enabled unless the settings say otherwise.
    pub fn default_enabled() -> (r: bool)
        ensures
            r,
    {
        true
    }
}

/// The bytes of the source that a span covers.
pub open spec fn text_of(source: Seq<u8>, span: Span) -> Seq<u8> {
    source.subrange(span.start as int, span.end as int)
}

/// The call is to a named function whose resolved name is one of `names`, up
/// to ASCII case.
pub open spec fn call_matches_any(call: FunctionCall, names: Seq<Seq<u8>>) -> bool {
    match call.function.kind {
        ExpressionKind::Identifier(id) => exists|k: int|
            0 <= k < names.len() && eq_ignore_ascii_case(id.resolved_name@, #[trigger] names[k]),
        _ => false,
    }
}

/// The names of the functions that count an array.
pub open spec fn count_functions() -> Seq<Seq<u8>> {
    seq![lit("count"), lit("sizeof")]
}

/// The span of the first call to a count function in a condition, looking
/// through binary operations (left side first) and parentheses.
pub open spec fn count_call_span(expression: Expression) -> Option<Span>
    decreases expression,
{
    match expression.kind {
        ExpressionKind::Call(Call::Function(call)) => if call_matches_any(call, count_functions()) {
            Some(expression.span)
        } else {
            None
        },
        ExpressionKind::Binary(binary) => match count_call_span(*binary.lhs) {
            Some(span) => Some(span),
            None => count_call_span(*binary.rhs),
        },
        ExpressionKind::Parenthesized(inner) => count_call_span(*inner),
        _ => None,
    }
}

/// The issue for a count call in the condition of a loop of the given kind.
pub open spec fn count_issue(level: Level, code: Seq<u8>, span: Span, loop_type: Seq<u8>) -> IssueView {
    IssueView {
        level,
        code,
        message: lit("Array count function called in ") + loop_type + lit(" condition."),
        annotation: AnnotationView { span, message: lit(COUNT_ANNOTATION) },
        note: Some(lit(COUNT_NOTE)),
        help: lit(COUNT_HELP),
        fix: None,
    }
}

/// The issue for a condition, if it holds a count call.
pub open spec fn condition_issues(level: Level, code: Seq<u8>, condition: Expression, loop_type: Seq<u8>) -> Seq<IssueView> {
    match count_call_span(condition) {
        Some(span) => seq![count_issue(level, code, span, loop_type)],
        None => seq![],
    }
}

/// The issues for the conditions of a `for` loop, in order.
pub open spec fn conditions_issues(level: Level, code: Seq<u8>, conditions: Seq<Expression>) -> Seq<IssueView>
    decreases conditions.len(),
{
    if conditions.len() == 0 {
        seq![]
    } else {
        conditions_issues(level, code, conditions.drop_last()) + condition_issues(
            level,
            code,
            conditions.last(),
            lit(FOR_LOOP),
        )
    }
}

/// The issue for slow array merging at the given span.
pub open spec fn merge_issue(level: Level, code: Seq<u8>, span: Span) -> IssueView {
    IssueView {
        level,
        code,
        message: lit(MERGE_MESSAGE),
        annotation: AnnotationView { span, message: lit(MERGE_ANNOTATION) },
        note: Some(lit(MERGE_NOTE)),
        help: lit(MERGE_HELP),
        fix: None,
    }
}

/// The first argument of the call is positional and spelled as the target of
/// the assignment.
pub open spec fn is_accumulative(source: Seq<u8>, assignment: Assignment, call: FunctionCall) -> bool {
    let args = call.argument_list.arguments@;
    args.len() > 0 && args[0] is Positional && text_of(source, assignment.lhs.span) == text_of(
        source,
        (args[0]->Positional_0).value.span,
    )
}

/// `$a = array_merge($a, ...)`: an assignment of a call to `array_merge`
/// whose first argument is the assigned variable.
pub open spec fn merge_issues_in_expression(level: Level, code: Seq<u8>, source: Seq<u8>, expression: Expression) -> Seq<IssueView> {
    match expression.kind {
        ExpressionKind::Assignment(assignment) => match assignment.rhs.kind {
            ExpressionKind::Call(Call::Function(call)) => if call_matches_any(call, seq![lit("array_merge")])
                && is_accumulative(source, assignment, call) {
                seq![merge_issue(level, code, expression.span)]
            } else {
                seq![]
            },
            _ => seq![],
        },
        _ => seq![],
    }
}

/// The expression statements that the merging check looks at in a statement:
/// the statement itself if it is one, else those in the statements of a block
/// or of the branches of an `if`, a `switch` or a `try`. Nested loops are not
/// looked into: each loop is checked when the rule is handed it.
pub open spec fn merge_candidates(statement: Statement) -> Seq<Expression>
    decreases statement,
{
    match statement {
        Statement::Expression(expression) => seq![expression],
        Statement::Block(block) => merge_candidates_in(block.statements@),
        Statement::If(i) => merge_candidates_in(i.body@) + merge_candidates_in(i.else_body@),
        Statement::Switch(sw) => merge_candidates_in_cases(sw.cases@),
        Statement::Try(t) => merge_candidates_in(t.body.statements@) + merge_candidates_in_blocks(t.catch_bodies@)
            + match t.finally_body {
            Some(b) => merge_candidates_in(b.statements@),
            None => seq![],
        },
        _ => seq![],
    }
}

pub open spec fn merge_candidates_in(statements: Seq<Statement>) -> Seq<Expression>
    decreases statements,
{
    if statements.len() == 0 {
        seq![]
    } else {
        merge_candidates_in(statements.drop_last()) + merge_candidates(statements.last())
    }
}

pub open spec fn merge_candidates_in_cases(cases: Seq<crate::ast::SwitchCase>) -> Seq<Expression>
    decreases cases,
{
    if cases.len() == 0 {
        seq![]
    } else {
        merge_candidates_in_cases(cases.drop_last()) + merge_candidates_in(cases.last().statements@)
    }
}

pub open spec fn merge_candidates_in_blocks(blocks: Seq<crate::ast::Block>) -> Seq<Expression>
    decreases blocks,
{
    if blocks.len() == 0 {
        seq![]
    } else {
        merge_candidates_in_blocks(blocks.drop_last()) + merge_candidates_in(blocks.last().statements@)
    }
}

pub open spec fn merge_candidates_in_body(body: LoopBody) -> Seq<Expression> {
    match body {
        LoopBody::Statement(statement) => merge_candidates(*statement),
        LoopBody::ColonDelimited(statements) => merge_candidates_in(statements@),
    }
}

/// The merging issues of expression statements, in order.
pub open spec fn merge_issues_of(level: Level, code: Seq<u8>, source: Seq<u8>, expressions: Seq<Expression>) -> Seq<IssueView>
    decreases expressions.len(),
{
    if expressions.len() == 0 {
        seq![]
    } else {
        merge_issues_of(level, code, source, expressions.drop_last()) + merge_issues_in_expression(
            level,
            code,
            source,
            expressions.last(),
        )
    }
}

/// The merging issues of a loop body.
pub open spec fn merge_issues_in_body(level: Level, code: Seq<u8>, source: Seq<u8>, body: LoopBody) -> Seq<IssueView> {
    merge_issues_of(level, code, source, merge_candidates_in_body(body))
}

/// The spans that the accumulation test reads lie inside the source: where the
/// first argument of the call is positional, the target and that argument.
pub open spec fn accumulative_spans_within(source: Seq<u8>, assignment: Assignment, call: FunctionCall) -> bool {
    let args = call.argument_list.arguments@;
    args.len() > 0 && args[0] is Positional ==> assignment.lhs.span.within(source.len())
        && (args[0]->Positional_0).value.span.within(source.len())
}

/// The spans that the merging check reads of an assignment lie inside the
/// source: where it assigns a call to `array_merge`, those of the accumulation test.
pub open spec fn assignment_spans_within(source: Seq<u8>, assignment: Assignment) -> bool {
    match assignment.rhs.kind {
        ExpressionKind::Call(Call::Function(call)) => call_matches_any(call, seq![lit("array_merge")])
            ==> accumulative_spans_within(source, assignment, call),
        _ => true,
    }
}

/// The spans that the merging check reads of an expression lie inside the source.
pub open spec fn expression_spans_within(source: Seq<u8>, expression: Expression) -> bool {
    match expression.kind {
        ExpressionKind::Assignment(assignment) => assignment_spans_within(source, assignment),
        _ => true,
    }
}

/// The spans that the merging check reads of these expression statements lie
/// inside the source.
pub open spec fn candidates_spans_within(source: Seq<u8>, expressions: Seq<Expression>) -> bool {
    forall|k: int| 0 <= k < expressions.len() ==> expression_spans_within(source, #[trigger] expressions[k])
}

/// The rule checks loops.
pub struct SlowArrayFunctionInLoopRule {
    meta: RuleMeta,
    cfg: SlowArrayFunctionInLoopConfig,
}

impl SlowArrayFunctionInLoopRule {
    pub closed spec fn spec_meta(&self) -> RuleMeta {
        self.meta
    }

    pub closed spec fn spec_config(&self) -> SlowArrayFunctionInLoopConfig {
        self.cfg
    }

    pub open spec fn spec_level(&self) -> Level {
        self.spec_config().level
    }

    pub open spec fn spec_code(&self) -> Seq<u8> {
        lit(self.spec_meta().code)
    }

    /// The count issues that the rule reports for a condition, if it looks
    /// for them.
    pub open spec fn count_issues(&self, condition: Expression, loop_type: Seq<u8>) -> Seq<IssueView> {
        if self.spec_config().detect_count_functions {
            condition_issues(self.spec_level(), self.spec_code(), condition, loop_type)
        } else {
            seq![]
        }
    }

    /// The merging issues that the rule reports for a loop body, if it looks
    /// for them.
    pub open spec fn merge_issues(&self, source: Seq<u8>, body: LoopBody) -> Seq<IssueView> {
        if self.spec_config().detect_array_merge {
            merge_issues_in_body(self.spec_level(), self.spec_code(), source, body)
        } else {
            seq![]
        }
    }

    /// What the rule reports for a node: for a `for` loop, count calls in each
    /// condition and then merging in the body; for `foreach`, merging; for
    /// `while` and `do`-`while`, a count call in the condition and then merging.
    pub open spec fn spec_issues(&self, source: Seq<u8>, node: Node) -> Seq<IssueView> {
        match node {
            Node::For(for_loop) => (if self.spec_config().detect_count_functions {
                conditions_issues(self.spec_level(), self.spec_code(), for_loop.conditions@)
            } else {
                seq![]
            }) + self.merge_issues(source, for_loop.body),
            Node::Foreach(foreach) => self.merge_issues(source, foreach.body),
            Node::While(while_loop) => self.count_issues(while_loop.condition, lit(WHILE_LOOP)) + self.merge_issues(
                source,
                while_loop.body,
            ),
            Node::DoWhile(do_while) => self.count_issues(do_while.condition, lit(DO_WHILE_LOOP)) + (
            if self.spec_config().detect_array_merge {
                merge_issues_of(self.spec_level(), self.spec_code(), source, merge_candidates(*do_while.statement))
            } else {
                seq![]
            }),
            _ => seq![],
        }
    }

    /// The spans of the node that the rule reads lie inside the source.
    pub open spec fn spans_within(&self, source: Seq<u8>, node: Node) -> bool {
        self.spec_config().detect_array_merge ==> match node {
            Node::For(for_loop) => candidates_spans_within(source, merge_candidates_in_body(for_loop.body)),
            Node::Foreach(foreach) => candidates_spans_within(source, merge_candidates_in_body(foreach.body)),
            Node::While(while_loop) => candidates_spans_within(source, merge_candidates_in_body(while_loop.body)),
            Node::DoWhile(do_while) => candidates_spans_within(source, merge_candidates(*do_while.statement)),
            _ => true,
        }
    }

    pub fn meta() -> (r: RuleMeta)
        ensures
            r == slow_array_meta(),
    {
        RuleMeta {
            name: SLOW_ARRAY_NAME,
            code: SLOW_ARRAY_CODE,
            description: SLOW_ARRAY_DESCRIPTION,
            good_example: SLOW_ARRAY_GOOD_EXAMPLE,
            bad_example: SLOW_ARRAY_BAD_EXAMPLE,
            category: Category::BestPractices,
            requirements: RuleRequirements::Unrestricted,
        }
    }

    /// The rule is handed loops and function calls.
    pub fn targets() -> (r: Vec<NodeKind>)
        ensures
            r@ == seq![NodeKind::For, NodeKind::Foreach, NodeKind::While, NodeKind::DoWhile, NodeKind::FunctionCall],
    {
        let mut r = Vec::new();
        r.push(NodeKind::For);
        r.push(NodeKind::Foreach);
        r.push(NodeKind::While);
        r.push(NodeKind::DoWhile);
        r.push(NodeKind::FunctionCall);
        r
    }

    pub fn build(settings: RuleSettings<SlowArrayFunctionInLoopConfig>) -> (r: Self)
        ensures
            r.spec_meta() == slow_array_meta(),
            r.spec_config() == settings.config,
    {
        Self { meta: Self::meta(), cfg: settings.config }
    }

    /// Reports count calls in loop conditions and accumulative `array_merge`
    /// in loop bodies, as the configuration asks; other nodes are left alone.
    pub fn check(&self, ctx: &mut LintContext, node: &Node)
        requires
            self.spans_within(old(ctx).source@, *node),
        ensures
            final(ctx).source == old(ctx).source,
            final(ctx).codebase == old(ctx).codebase,
            issue_views(final(ctx).issues@) == issue_views(old(ctx).issues@) + self.spec_issues(
                old(ctx).source@,
                *node,
            ),
    {
        let ghost start = issue_views(ctx.issues@);
        let ghost source = ctx.source@;
        match node {
            Node::For(for_loop) => {
                if self.cfg.detect_count_functions {
                    let mut i: usize = 0;
                    assert(start + conditions_issues(self.spec_level(), self.spec_code(), for_loop.conditions@.take(0))
                        =~= start);
                    while i < for_loop.conditions.len()
                        invariant
                            i <= for_loop.conditions@.len(),
                            ctx.source == old(ctx).source,
                            ctx.codebase == old(ctx).codebase,
                            issue_views(ctx.issues@) == start + conditions_issues(
                                self.spec_level(),
                                self.spec_code(),
                                for_loop.conditions@.take(i as int),
                            ),
                        decreases for_loop.conditions@.len() - i,
                    {
                        assert(for_loop.conditions@.take(i + 1).drop_last() =~= for_loop.conditions@.take(i as int));
                        if let Some(count_call) = Self::find_count_function_call(ctx, &for_loop.conditions[i]) {
                            self.report_count_in_condition(ctx, count_call, FOR_LOOP);
                        }
                        i = i + 1;
                        assert(issue_views(ctx.issues@) =~= start + conditions_issues(
                            self.spec_level(),
                            self.spec_code(),
                            for_loop.conditions@.take(i as int),
                        ));
                    }
                    assert(for_loop.conditions@.take(i as int) =~= for_loop.conditions@);
                }
                if self.cfg.detect_array_merge {
                    self.check_array_merge_in_for_body(ctx, for_loop);
                }
                assert(issue_views(ctx.issues@) =~= start + self.spec_issues(source, *node));
            },
            Node::Foreach(foreach) => {
                if self.cfg.detect_array_merge {
                    self.check_array_merge_in_foreach_body(ctx, foreach);
                }
                assert(issue_views(ctx.issues@) =~= start + self.spec_issues(source, *node));
            },
            Node::While(while_loop) => {
                if self.cfg.detect_count_functions {
                    if let Some(count_call) = Self::find_count_function_call(ctx, &while_loop.condition) {
                        self.report_count_in_condition(ctx, count_call, WHILE_LOOP);
                    }
                }
                if self.cfg.detect_array_merge {
                    self.check_array_merge_in_while_body(ctx, while_loop);
                }
                assert(issue_views(ctx.issues@) =~= start + self.spec_issues(source, *node));
            },
            Node::DoWhile(do_while) => {
                if self.cfg.detect_count_functions {
                    if let Some(count_call) = Self::find_count_function_call(ctx, &do_while.condition) {
                        self.report_count_in_condition(ctx, count_call, DO_WHILE_LOOP);
                    }
                }
                if self.cfg.detect_array_merge {
                    self.check_array_merge_in_do_while_body(ctx, do_while);
                }
                assert(issue_views(ctx.issues@) =~= start + self.spec_issues(source, *node));
            },
            Node::FunctionCall(_function_call) => {
                // Calls inside loops are reached through the loops themselves.
                assert(issue_views(ctx.issues@) =~= start + self.spec_issues(source, *node));
            },
            _ => {
                assert(issue_views(ctx.issues@) =~= start + self.spec_issues(source, *node));
            },
        }
    }

    /// The span of the first count call in a condition.
    fn find_count_function_call(ctx: &LintContext, expression: &Expression) -> (r: Option<Span>)
        ensures
            r == count_call_span(*expression),
        decreases expression,
    {
        match &expression.kind {
            ExpressionKind::Call(Call::Function(call)) => {
                let mut names: Vec<Vec<u8>> = Vec::new();
                names.push(lit_bytes("count"));
                names.push(lit_bytes("sizeof"));
                assert(byte_strings(names@) =~= count_functions());
                if function_call_matches_any(ctx, call, &names).is_some() {
                    Some(expression.span)
                } else {
                    None
                }
            },
            ExpressionKind::Binary(binary) => {
                match Self::find_count_function_call(ctx, &binary.lhs) {
                    Some(span) => Some(span),
                    None => Self::find_count_function_call(ctx, &binary.rhs),
                }
            },
            ExpressionKind::Parenthesized(inner) => Self::find_count_function_call(ctx, inner),
            _ => None,
        }
    }

    fn report_count_in_condition(&self, ctx: &mut LintContext, count_call: Span, loop_type: &str)
        ensures
            final(ctx).source == old(ctx).source,
            final(ctx).codebase == old(ctx).codebase,
            issue_views(final(ctx).issues@) == issue_views(old(ctx).issues@).push(
                count_issue(self.spec_level(), self.spec_code(), count_call, lit(loop_type)),
            ),
    {
        let mut message = lit_bytes("Array count function called in ");
        crate::text::append_bytes(&mut message, &lit_bytes(loop_type));
        crate::text::append_bytes(&mut message, &lit_bytes(" condition."));
        let issue = Issue {
            level: self.cfg.level,
            code: lit_bytes(self.meta.code),
            message,
            annotation: Annotation { span: count_call, message: lit_bytes(COUNT_ANNOTATION) },
            note: Some(lit_bytes(COUNT_NOTE)),
            help: lit_bytes(COUNT_HELP),
            fix: None,
        };
        ctx.report(issue);
    }

    fn check_array_merge_in_statements(&self, ctx: &mut LintContext, statements: &Vec<Statement>)
        requires
            candidates_spans_within(old(ctx).source@, merge_candidates_in(statements@)),
        ensures
            final(ctx).source == old(ctx).source,
            final(ctx).codebase == old(ctx).codebase,
            issue_views(final(ctx).issues@) == issue_views(old(ctx).issues@) + merge_issues_of(
                self.spec_level(),
                self.spec_code(),
                old(ctx).source@,
                merge_candidates_in(statements@),
            ),
        decreases statements@, 1int,
    {
        let ghost start = issue_views(ctx.issues@);
        let ghost source = ctx.source@;
        let ghost level = self.spec_level();
        let ghost code = self.spec_code();
        let mut i: usize = 0;
        assert(start + merge_issues_of(level, code, source, merge_candidates_in(statements@.take(0))) =~= start);
        proof {
            lemma_statements_spans_within(source, statements@);
        }
        while i < statements.len()
            invariant
                i <= statements@.len(),
                source == ctx.source@,
                level == self.spec_level(),
                code == self.spec_code(),
                forall|k: int|
                    0 <= k < statements@.len() ==> candidates_spans_within(source, merge_candidates(#[trigger] statements@[k])),
                ctx.source == old(ctx).source,
                ctx.codebase == old(ctx).codebase,
                issue_views(ctx.issues@) == start + merge_issues_of(level, code, source, merge_candidates_in(statements@.take(i as int))),
            decreases statements@.len() - i,
        {
            assert(statements@.take(i + 1).drop_last() =~= statements@.take(i as int));
            assert(decreases_to!(statements@ => statements@[i as int]));
            self.check_array_merge_in_statement(ctx, &statements[i]);
            proof {
                lemma_merge_issues_of_add(
                    level,
                    code,
                    source,
                    merge_candidates_in(statements@.take(i as int)),
                    merge_candidates(statements@[i as int]),
                );
            }
            i = i + 1;
            assert(issue_views(ctx.issues@) =~= start + merge_issues_of(
                level,
                code,
                source,
                merge_candidates_in(statements@.take(i as int)),
            ));
        }
        assert(statements@.take(i as int) =~= statements@);
    }

    fn check_array_merge_in_cases(&self, ctx: &mut LintContext, cases: &Vec<crate::ast::SwitchCase>)
        requires
            candidates_spans_within(old(ctx).source@, merge_candidates_in_cases(cases@)),
        ensures
            final(ctx).source == old(ctx).source,
            final(ctx).codebase == old(ctx).codebase,
            issue_views(final(ctx).issues@) == issue_views(old(ctx).issues@) + merge_issues_of(
                self.spec_level(),
                self.spec_code(),
                old(ctx).source@,
                merge_candidates_in_cases(cases@),
            ),
        decreases cases@, 1int,
    {
        let ghost start = issue_views(ctx.issues@);
        let ghost source = ctx.source@;
        let ghost level = self.spec_level();
        let ghost code = self.spec_code();
        let mut i: usize = 0;
        assert(start + merge_issues_of(level, code, source, merge_candidates_in_cases(cases@.take(0))) =~= start);
        proof {
            lemma_cases_spans_within(source, cases@);
        }
        while i < cases.len()
            invariant
                i <= cases@.len(),
                source == ctx.source@,
                level == self.spec_level(),
                code == self.spec_code(),
                forall|k: int|
                    0 <= k < cases@.len() ==> candidates_spans_within(source, merge_candidates_in((#[trigger] cases@[k]).statements@)),
                ctx.source == old(ctx).source,
                ctx.codebase == old(ctx).codebase,
                issue_views(ctx.issues@) == start + merge_issues_of(level, code, source, merge_candidates_in_cases(cases@.take(i as int))),
            decreases cases@.len() - i,
        {
            assert(cases@.take(i + 1).drop_last() =~= cases@.take(i as int));
            assert(decreases_to!(cases@ => cases@[i as int]));
            assert(decreases_to!(cases@[i as int] => cases@[i as int].statements));
            assert(decreases_to!(cases@[i as int].statements => cases@[i as int].statements@));
            self.check_array_merge_in_statements(ctx, &cases[i].statements);
            proof {
                lemma_merge_issues_of_add(
                    level,
                    code,
                    source,
                    merge_candidates_in_cases(cases@.take(i as int)),
                    merge_candidates_in(cases@[i as int].statements@),
                );
            }
            i = i + 1;
            assert(issue_views(ctx.issues@) =~= start + merge_issues_of(
                level,
                code,
                source,
                merge_candidates_in_cases(cases@.take(i as int)),
            ));
        }
        assert(cases@.take(i as int) =~= cases@);
    }

    fn check_array_merge_in_blocks(&self, ctx: &mut LintContext, blocks: &Vec<crate::ast::Block>)
        requires
            candidates_spans_within(old(ctx).source@, merge_candidates_in_blocks(blocks@)),
        ensures
            final(ctx).source == old(ctx).source,
            final(ctx).codebase == old(ctx).codebase,
            issue_views(final(ctx).issues@) == issue_views(old(ctx).issues@) + merge_issues_of(
                self.spec_level(),
                self.spec_code(),
                old(ctx).source@,
                merge_candidates_in_blocks(blocks@),
            ),
        decreases blocks@, 1int,
    {
        let ghost start = issue_views(ctx.issues@);
        let ghost source = ctx.source@;
        let ghost level = self.spec_level();
        let ghost code = self.spec_code();
        let mut i: usize = 0;
        assert(start + merge_issues_of(level, code, source, merge_candidates_in_blocks(blocks@.take(0))) =~= start);
        proof {
            lemma_blocks_spans_within(source, blocks@);
        }
        while i < blocks.len()
            invariant
                i <= blocks@.len(),
                source == ctx.source@,
                level == self.spec_level(),
                code == self.spec_code(),
                forall|k: int|
                    0 <= k < blocks@.len() ==> candidates_spans_within(source, merge_candidates_in((#[trigger] blocks@[k]).statements@)),
                ctx.source == old(ctx).source,
                ctx.codebase == old(ctx).codebase,
                issue_views(ctx.issues@) == start + merge_issues_of(level, code, source, merge_candidates_in_blocks(blocks@.take(i as int))),
            decreases blocks@.len() - i,
        {
            assert(blocks@.take(i + 1).drop_last() =~= blocks@.take(i as int));
            assert(decreases_to!(blocks@ => blocks@[i as int]));
            assert(decreases_to!(blocks@[i as int] => blocks@[i as int].statements));
            assert(decreases_to!(blocks@[i as int].statements => blocks@[i as int].statements@));
            self.check_array_merge_in_statements(ctx, &blocks[i].statements);
            proof {
                lemma_merge_issues_of_add(
                    level,
                    code,
                    source,
                    merge_candidates_in_blocks(blocks@.take(i as int)),
                    merge_candidates_in(blocks@[i as int].statements@),
                );
            }
            i = i + 1;
            assert(issue_views(ctx.issues@) =~= start + merge_issues_of(
                level,
                code,
                source,
                merge_candidates_in_blocks(blocks@.take(i as int)),
            ));
        }
        assert(blocks@.take(i as int) =~= blocks@);
    }

    fn check_array_merge_in_for_body(&self, ctx: &mut LintContext, for_loop: &For)
        requires
            candidates_spans_within(old(ctx).source@, merge_candidates_in_body(for_loop.body)),
        ensures
            final(ctx).source == old(ctx).source,
            final(ctx).codebase == old(ctx).codebase,
            issue_views(final(ctx).issues@) == issue_views(old(ctx).issues@) + merge_issues_in_body(
                self.spec_level(),
                self.spec_code(),
                old(ctx).source@,
                for_loop.body,
            ),
    {
        match &for_loop.body {
            LoopBody::Statement(stmt) => {
                self.check_array_merge_in_statement(ctx, stmt);
            },
            LoopBody::ColonDelimited(body) => {
                self.check_array_merge_in_statements(ctx, body);
            },
        }
    }

    fn check_array_merge_in_foreach_body(&self, ctx: &mut LintContext, foreach: &Foreach)
        requires
            candidates_spans_within(old(ctx).source@, merge_candidates_in_body(foreach.body)),
        ensures
            final(ctx).source == old(ctx).source,
            final(ctx).codebase == old(ctx).codebase,
            issue_views(final(ctx).issues@) == issue_views(old(ctx).issues@) + merge_issues_in_body(
                self.spec_level(),
                self.spec_code(),
                old(ctx).source@,
                foreach.body,
            ),
    {
        match &foreach.body {
            LoopBody::Statement(stmt) => {
                self.check_array_merge_in_statement(ctx, stmt);
            },
            LoopBody::ColonDelimited(body) => {
                self.check_array_merge_in_statements(ctx, body);
            },
        }
    }

    fn check_array_merge_in_while_body(&self, ctx: &mut LintContext, while_loop: &While)
        requires
            candidates_spans_within(old(ctx).source@, merge_candidates_in_body(while_loop.body)),
        ensures
            final(ctx).source == old(ctx).source,
            final(ctx).codebase == old(ctx).codebase,
            issue_views(final(ctx).issues@) == issue_views(old(ctx).issues@) + merge_issues_in_body(
                self.spec_level(),
                self.spec_code(),
                old(ctx).source@,
                while_loop.body,
            ),
    {
        match &while_loop.body {
            LoopBody::Statement(stmt) => {
                self.check_array_merge_in_statement(ctx, stmt);
            },
            LoopBody::ColonDelimited(body) => {
                self.check_array_merge_in_statements(ctx, body);
            },
        }
    }

    fn check_array_merge_in_do_while_body(&self, ctx: &mut LintContext, do_while: &DoWhile)
        requires
            candidates_spans_within(old(ctx).source@, merge_candidates(*do_while.statement)),
        ensures
            final(ctx).source == old(ctx).source,
            final(ctx).codebase == old(ctx).codebase,
            issue_views(final(ctx).issues@) == issue_views(old(ctx).issues@) + merge_issues_of(
                self.spec_level(),
                self.spec_code(),
                old(ctx).source@,
                merge_candidates(*do_while.statement),
            ),
    {
        self.check_array_merge_in_statement(ctx, &do_while.statement);
    }

    /// Checks the expression statements of a statement, looking into blocks and
    /// the branches of `if`, `switch` and `try`, but not into nested loops.
    fn check_array_merge_in_statement(&self, ctx: &mut LintContext, statement: &Statement)
        requires
            candidates_spans_within(old(ctx).source@, merge_candidates(*statement)),
        ensures
            final(ctx).source == old(ctx).source,
            final(ctx).codebase == old(ctx).codebase,
            issue_views(final(ctx).issues@) == issue_views(old(ctx).issues@) + merge_issues_of(
                self.spec_level(),
                self.spec_code(),
                old(ctx).source@,
                merge_candidates(*statement),
            ),
        decreases statement, 0int,
    {
        let ghost start = issue_views(ctx.issues@);
        let ghost source = ctx.source@;
        let ghost level = self.spec_level();
        let ghost code = self.spec_code();
        match statement {
            Statement::Expression(expression) => {
                assert(merge_candidates(*statement) =~= seq![*expression]);
                assert(merge_candidates(*statement).drop_last() =~= Seq::<Expression>::empty());
                assert(expression_spans_within(source, merge_candidates(*statement)[0]));
                assert(merge_candidates(*statement).last() == *expression);
                assert(merge_issues_of(level, code, source, merge_candidates(*statement)) =~= merge_issues_of(
                    level,
                    code,
                    source,
                    Seq::<Expression>::empty(),
                ) + merge_issues_in_expression(level, code, source, *expression));
                self.check_array_merge_in_expression(ctx, expression);
                assert(issue_views(ctx.issues@) =~= start + merge_issues_of(level, code, source, merge_candidates(*statement)));
            },
            Statement::Block(block) => {
                self.check_array_merge_in_statements(ctx, &block.statements);
            },
            Statement::If(i) => {
                let ghost a = merge_candidates_in(i.body@);
                let ghost b = merge_candidates_in(i.else_body@);
                proof {
                    lemma_candidates_spans_within_split(source, a, b);
                }
                self.check_array_merge_in_statements(ctx, &i.body);
                self.check_array_merge_in_statements(ctx, &i.else_body);
                proof {
                    lemma_merge_issues_of_add(level, code, source, a, b);
                }
                assert(issue_views(ctx.issues@) =~= start + merge_issues_of(level, code, source, merge_candidates(*statement)));
            },
            Statement::Switch(sw) => {
                self.check_array_merge_in_cases(ctx, &sw.cases);
            },
            Statement::Try(t) => {
                let ghost a = merge_candidates_in(t.body.statements@);
                let ghost b = merge_candidates_in_blocks(t.catch_bodies@);
                let ghost c = match &t.finally_body {
                    Some(f) => merge_candidates_in(f.statements@),
                    None => seq![],
                };
                assert(merge_candidates(*statement) == a + b + c);
                proof {
                    lemma_candidates_spans_within_split(source, a + b, c);
                    lemma_candidates_spans_within_split(source, a, b);
                }
                self.check_array_merge_in_statements(ctx, &t.body.statements);
                self.check_array_merge_in_blocks(ctx, &t.catch_bodies);
                match &t.finally_body {
                    Some(f) => {
                        self.check_array_merge_in_statements(ctx, &f.statements);
                    },
                    None => {
                        assert(issue_views(ctx.issues@) =~= issue_views(ctx.issues@) + merge_issues_of(level, code, source, c));
                    },
                }
                proof {
                    lemma_merge_issues_of_add(level, code, source, a, b);
                    lemma_merge_issues_of_add(level, code, source, a + b, c);
                }
                assert(issue_views(ctx.issues@) =~= start + merge_issues_of(level, code, source, merge_candidates(*statement)));
            },
            _ => {
                assert(issue_views(ctx.issues@) =~= start + merge_issues_of(level, code, source, merge_candidates(*statement)));
            },
        }
    }

    fn check_array_merge_in_expression(&self, ctx: &mut LintContext, expression: &Expression)
        requires
            expression_spans_within(old(ctx).source@, *expression),
        ensures
            final(ctx).source == old(ctx).source,
            final(ctx).codebase == old(ctx).codebase,
            issue_views(final(ctx).issues@) == issue_views(old(ctx).issues@) + merge_issues_in_expression(
                self.spec_level(),
                self.spec_code(),
                old(ctx).source@,
                *expression,
            ),
    {
        if let ExpressionKind::Assignment(assignment) = &expression.kind {
            if let ExpressionKind::Call(Call::Function(call)) = &assignment.rhs.kind {
                let mut names: Vec<Vec<u8>> = Vec::new();
                names.push(lit_bytes("array_merge"));
                assert(byte_strings(names@) =~= seq![lit("array_merge")]);
                if function_call_matches_any(ctx, call, &names).is_some() && self.is_accumulative_array_merge(
                    ctx,
                    assignment,
                    call,
                ) {
                    self.report_array_merge_in_loop(ctx, expression.span);
                    return ;
                }
            }
        }
        assert(issue_views(ctx.issues@) + seq![] =~= issue_views(ctx.issues@));
    }

    fn is_accumulative_array_merge(&self, ctx: &LintContext, assignment: &Assignment, call: &FunctionCall) -> (r: bool)
        requires
            accumulative_spans_within(ctx.source@, *assignment, *call),
        ensures
            r == is_accumulative(ctx.source@, *assignment, *call),
    {
        if call.argument_list.arguments.len() > 0 {
            if let Argument::Positional(pos_arg) = &call.argument_list.arguments[0] {
                let lhs_span = assignment.lhs.span;
                let arg_span = pos_arg.value.span;
                let assignment_lhs_text = slice_bytes(&ctx.source, lhs_span.start as usize, lhs_span.end as usize);
                let first_arg_text = slice_bytes(&ctx.source, arg_span.start as usize, arg_span.end as usize);
                return bytes_equal(&assignment_lhs_text, &first_arg_text);
            }
        }
        false
    }

    fn report_array_merge_in_loop(&self, ctx: &mut LintContext, assignment: Span)
        ensures
            final(ctx).source == old(ctx).source,
            final(ctx).codebase == old(ctx).codebase,
            issue_views(final(ctx).issues@) == issue_views(old(ctx).issues@).push(
                merge_issue(self.spec_level(), self.spec_code(), assignment),
            ),
    {
        let issue = Issue {
            level: self.cfg.level,
            code: lit_bytes(self.meta.code),
            message: lit_bytes(MERGE_MESSAGE),
            annotation: Annotation { span: assignment, message: lit_bytes(MERGE_ANNOTATION) },
            note: Some(lit_bytes(MERGE_NOTE)),
            help: lit_bytes(MERGE_HELP),
            fix: None,
        };
        ctx.report(issue);
    }
}

/// The position of the first of `names` that the call is to, if any: the
/// callee must be a name, compared by its resolved name up to ASCII case.
pub fn function_call_matches_any(ctx: &LintContext, call: &FunctionCall, names: &Vec<Vec<u8>>) -> (r: Option<usize>)
    ensures
        r is Some <==> call_matches_any(*call, byte_strings(names@)),
        r matches Some(k) ==> k < names@.len() && call.function.kind is Identifier && eq_ignore_ascii_case(
            (call.function.kind->Identifier_0).resolved_name@,
            names@[k as int]@,
        ) && forall|j: int| 0 <= j < k ==> !eq_ignore_ascii_case(
            (call.function.kind->Identifier_0).resolved_name@,
            #[trigger] names@[j]@,
        ),
{
    let identifier = match &call.function.kind {
        ExpressionKind::Identifier(identifier) => identifier,
        _ => {
            return None;
        },
    };
    let mut k: usize = 0;
    while k < names.len()
        invariant
            k <= names@.len(),
            call.function.kind == ExpressionKind::Identifier(*identifier),
            forall|j: int| 0 <= j < k ==> !eq_ignore_ascii_case(identifier.resolved_name@, #[trigger] names@[j]@),
        decreases names@.len() - k,
    {
        if bytes_eq_ignore_ascii_case(&identifier.resolved_name, &names[k]) {
            assert(byte_strings(names@)[k as int] == names@[k as int]@);
            return Some(k);
        }
        k = k + 1;
    }
    assert forall|j: int| 0 <= j < names@.len() implies !eq_ignore_ascii_case(
        identifier.resolved_name@,
        #[trigger] byte_strings(names@)[j],
    ) by {
        assert(byte_strings(names@)[j] == names@[j]@);
    }
    None
}

/// The merging issues of two runs of expression statements, one after the other.
pub proof fn lemma_merge_issues_of_add(level: Level, code: Seq<u8>, source: Seq<u8>, a: Seq<Expression>, b: Seq<Expression>)
    ensures
        merge_issues_of(level, code, source, a + b) == merge_issues_of(level, code, source, a) + merge_issues_of(
            level,
            code,
            source,
            b,
        ),
    decreases b.len(),
{
    if b.len() == 0 {
        assert(a + b =~= a);
    } else {
        assert((a + b).drop_last() =~= a + b.drop_last());
        lemma_merge_issues_of_add(level, code, source, a, b.drop_last());
    }
}

proof fn lemma_candidates_spans_within_split(source: Seq<u8>, a: Seq<Expression>, b: Seq<Expression>)
    requires
        candidates_spans_within(source, a + b),
    ensures
        candidates_spans_within(source, a),
        candidates_spans_within(source, b),
{
    assert forall|k: int| 0 <= k < a.len() implies expression_spans_within(source, #[trigger] a[k]) by {
        assert((a + b)[k] == a[k]);
    }
    assert forall|k: int| 0 <= k < b.len() implies expression_spans_within(source, #[trigger] b[k]) by {
        assert((a + b)[a.len() + k] == b[k]);
    }
}

proof fn lemma_statements_spans_within(source: Seq<u8>, statements: Seq<Statement>)
    requires
        candidates_spans_within(source, merge_candidates_in(statements)),
    ensures
        forall|k: int|
            0 <= k < statements.len() ==> candidates_spans_within(source, merge_candidates(#[trigger] statements[k])),
    decreases statements.len(),
{
    if statements.len() > 0 {
        lemma_candidates_spans_within_split(
            source,
            merge_candidates_in(statements.drop_last()),
            merge_candidates(statements.last()),
        );
        lemma_statements_spans_within(source, statements.drop_last());
        assert forall|k: int| 0 <= k < statements.len() implies candidates_spans_within(
            source,
            merge_candidates(#[trigger] statements[k]),
        ) by {
            if k < statements.len() - 1 {
                assert(statements[k] == statements.drop_last()[k]);
            }
        }
    }
}

proof fn lemma_cases_spans_within(source: Seq<u8>, cases: Seq<crate::ast::SwitchCase>)
    requires
        candidates_spans_within(source, merge_candidates_in_cases(cases)),
    ensures
        forall|k: int|
            0 <= k < cases.len() ==> candidates_spans_within(source, merge_candidates_in((#[trigger] cases[k]).statements@)),
    decreases cases.len(),
{
    if cases.len() > 0 {
        lemma_candidates_spans_within_split(
            source,
            merge_candidates_in_cases(cases.drop_last()),
            merge_candidates_in(cases.last().statements@),
        );
        lemma_cases_spans_within(source, cases.drop_last());
        assert forall|k: int| 0 <= k < cases.len() implies candidates_spans_within(
            source,
            merge_candidates_in((#[trigger] cases[k]).statements@),
        ) by {
            if k < cases.len() - 1 {
                assert(cases[k] == cases.drop_last()[k]);
            }
        }
    }
}

proof fn lemma_blocks_spans_within(source: Seq<u8>, blocks: Seq<crate::ast::Block>)
    requires
        candidates_spans_within(source, merge_candidates_in_blocks(blocks)),
    ensures
        forall|k: int|
            0 <= k < blocks.len() ==> candidates_spans_within(source, merge_candidates_in((#[trigger] blocks[k]).statements@)),
    decreases blocks.len(),
{
    if blocks.len() > 0 {
        lemma_candidates_spans_within_split(
            source,
            merge_candidates_in_blocks(blocks.drop_last()),
            merge_candidates_in(blocks.last().statements@),
        );
        lemma_blocks_spans_within(source, blocks.drop_last());
        assert forall|k: int| 0 <= k < blocks.len() implies candidates_spans_within(
            source,
            merge_candidates_in((#[trigger] blocks[k]).statements@),
        ) by {
            if k < blocks.len() - 1 {
                assert(blocks[k] == blocks.drop_last()[k]);
            }
        }
    }
}

} // verus!
