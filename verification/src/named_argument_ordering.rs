//! The rule that named arguments be ordered alphabetically by parameter name.
use vstd::prelude::*;

use crate::ast::{Argument, ArgumentList, NamedArgument, Node, NodeKind, Span};
use crate::order::{by_bytes, stable_order, stable_order_by_bytes};
use crate::reporting::{
    AnnotationView, Annotation, Edit, EditView, FixPlan, Issue, IssueView, Level, LintContext,
    SafetyClassification, issue_views,
};
use crate::rule::{Category, PhpVersion, PhpVersionRange, RuleMeta, RuleRequirements, RuleSettings};
use crate::text::{byte_strings, bytes_less, bytes_lt, join, join_bytes, lit, lit_bytes, slice_bytes, append_bytes,
    lemma_bytes_lt_total, lemma_bytes_lt_transitive, lemma_bytes_lt_irreflexive};

verus! {

pub const NAMED_ARGUMENT_ORDERING_NAME: &'static str = "Named Argument Ordering";

pub const NAMED_ARGUMENT_ORDERING_CODE: &'static str = "named-argument-ordering";

pub const NAMED_ARGUMENT_ORDERING_DESCRIPTION: &'static str = "Enforces that named arguments are ordered alphabetically by parameter name.\n\nThis improves code readability and consistency by ensuring that named arguments\nfollow a predictable order, making it easier to scan and understand function calls\nwith multiple named parameters.\n";

pub const NAMED_ARGUMENT_ORDERING_GOOD_EXAMPLE: &'static str = "<?php\n\nfunction configure(string $host, int $port, bool $ssl, string $username) {}\n\nconfigure(host: 'localhost', port: 8080, ssl: true, username: 'admin'); // ✅ alphabetical order\n";

pub const NAMED_ARGUMENT_ORDERING_BAD_EXAMPLE: &'static str = "<?php\n\nfunction configure(string $host, int $port, bool $ssl, string $username) {}\n\nconfigure(username: 'admin', host: 'localhost', ssl: true, port: 8080); // ❌ not alphabetical\n";

pub const ORDERING_MESSAGE: &'static str = "Named arguments should be ordered alphabetically by parameter name.";

pub const ORDERING_ANNOTATION: &'static str = "These named arguments are not in alphabetical order.";

pub const ORDERING_HELP: &'static str = "Consider reordering the named arguments alphabetically to improve readability.";

/// The metadata of the rule.
pub open spec fn named_argument_ordering_meta() -> RuleMeta {
    RuleMeta {
        name: NAMED_ARGUMENT_ORDERING_NAME,
        code: NAMED_ARGUMENT_ORDERING_CODE,
        description: NAMED_ARGUMENT_ORDERING_DESCRIPTION,
        good_example: NAMED_ARGUMENT_ORDERING_GOOD_EXAMPLE,
        bad_example: NAMED_ARGUMENT_ORDERING_BAD_EXAMPLE,
        category: Category::Consistency,
        requirements: RuleRequirements::PhpVersion(
            PhpVersionRange { min: Some(PhpVersion { major: 8, minor: 0, patch: 0 }), max: None },
        ),
    }
}

/// The configuration of the rule: the level of the issues it reports.
#[derive(Clone, Copy, Debug, PartialEq, Eq, Structural, Hash)]
pub struct NamedArgumentOrderingConfig {
    pub level: Level,
}

impl Default for NamedArgumentOrderingConfig {
    fn default() -> (r: Self)
        ensures
            r.level == Level::Warning,
    {
        Self { level: Level::Warning }
    }
}

impl NamedArgumentOrderingConfig {
    /// The level of the issues the rule reports.
    pub fn level(&self) -> (r: Level)
        ensures
            r == self.level,
    {
        self.level
    }

    /// The rule is enabled unless the settings say otherwise.
    pub fn default_enabled() -> (r: bool)
        ensures
            r,
    {
        true
    }
}

/// The bytes of the source that a span covers.
pub open spec fn text_of(source: Seq<u8>, span: Span) -> Seq<u8> {
    source.subrange(span.start as int, span.end as int)
}

/// The position of the first named argument, or the number of arguments if
/// there is none.
pub open spec fn first_named(args: Seq<Argument>) -> int
    decreases args.len(),
{
    if args.len() == 0 {
        0
    } else if args[0] is Named {
        0
    } else {
        1 + first_named(args.drop_first())
    }
}

/// Some positional argument follows a named one.
pub open spec fn positional_after_named(args: Seq<Argument>) -> bool {
    exists|i: int, j: int| 0 <= i < j < args.len() && #[trigger] args[i] is Named && #[trigger] args[j] is Positional
}

/// The names of the named arguments `args[first..]`, as the source spells them.
pub open spec fn argument_names(source: Seq<u8>, args: Seq<Argument>) -> Seq<Seq<u8>> {
    let f = first_named(args);
    Seq::new((args.len() - f) as nat, |k: int| text_of(source, (args[f + k]->Named_0).name.span))
}

/// No name is followed by one that sorts before it.
pub open spec fn is_alphabetical(names: Seq<Seq<u8>>) -> bool {
    forall|i: int, j: int| 0 <= i < j < names.len() ==> !bytes_lt(#[trigger] names[j], #[trigger] names[i])
}

/// Whether the rule reports the argument list: it has two named arguments or
/// more, no positional argument after a named one, and the names are not in
/// alphabetical order.
pub open spec fn reports_list(source: Seq<u8>, list: ArgumentList) -> bool {
    let args = list.arguments@;
    &&& !positional_after_named(args)
    &&& args.len() - first_named(args) >= 2
    &&& !is_alphabetical(argument_names(source, args))
}

/// `name: value`, as the source spells the name and the value.
pub open spec fn named_argument_text(source: Seq<u8>, arg: NamedArgument) -> Seq<u8> {
    text_of(source, arg.name.span) + lit(": ") + text_of(source, arg.value.span)
}

/// The arguments of the fixed list: positional ones as written, then the named
/// ones stably sorted by name.
pub open spec fn fix_parts(source: Seq<u8>, args: Seq<Argument>) -> Seq<Seq<u8>> {
    let f = first_named(args);
    let order = stable_order((args.len() - f) as nat, by_bytes(argument_names(source, args)));
    Seq::new(
        args.len(),
        |i: int|
            if i < f {
                text_of(source, (args[i]->Positional_0).span)
            } else {
                named_argument_text(source, args[f + order[i - f]]->Named_0)
            },
    )
}

/// The fix: the text between the parentheses, replaced by the reordered arguments.
pub open spec fn ordering_fix(source: Seq<u8>, list: ArgumentList) -> Seq<EditView> {
    seq![
        EditView {
            start: list.left_parenthesis.end,
            end: list.right_parenthesis.start,
            replacement: join(fix_parts(source, list.arguments@), lit(", ")),
            safety: SafetyClassification::Safe,
        },
    ]
}

/// The issue reported for an argument list that is out of order.
pub open spec fn ordering_issue(level: Level, code: Seq<u8>, source: Seq<u8>, list: ArgumentList) -> IssueView {
    IssueView {
        level,
        code,
        message: lit(ORDERING_MESSAGE),
        annotation: AnnotationView { span: list.spec_span(), message: lit(ORDERING_ANNOTATION) },
        note: None,
        help: lit(ORDERING_HELP),
        fix: Some(ordering_fix(source, list)),
    }
}

/// The spans that the rule reads from the source: the name of each named
/// argument, and, where it reports the list, every argument and value.
pub open spec fn list_spans_within(source: Seq<u8>, list: ArgumentList) -> bool {
    let args = list.arguments@;
    &&& forall|i: int| 0 <= i < args.len() && #[trigger] args[i] is Named
        ==> (args[i]->Named_0).name.span.within(source.len())
    &&& reports_list(source, list) ==> forall|i: int| 0 <= i < args.len() ==> match #[trigger] args[i] {
        Argument::Named(a) => a.value.span.within(source.len()),
        Argument::Positional(p) => p.span.within(source.len()),
    }
}

/// The rule checks the argument lists it is handed.
pub struct NamedArgumentOrderingRule {
    meta: RuleMeta,
    cfg: NamedArgumentOrderingConfig,
}

impl NamedArgumentOrderingRule {
    pub closed spec fn spec_meta(&self) -> RuleMeta {
        self.meta
    }

    pub closed spec fn spec_config(&self) -> NamedArgumentOrderingConfig {
        self.cfg
    }

    /// What the rule reports for a node.
    pub open spec fn spec_issues(&self, source: Seq<u8>, node: Node) -> Seq<IssueView> {
        match node {
            Node::ArgumentList(list) => if reports_list(source, list) {
                seq![ordering_issue(self.spec_config().level, lit(self.spec_meta().code), source, list)]
            } else {
                seq![]
            },
            _ => seq![],
        }
    }

    /// The spans of the node that the rule reads lie inside the source.
    pub open spec fn spans_within(source: Seq<u8>, node: Node) -> bool {
        match node {
            Node::ArgumentList(list) => list_spans_within(source, list),
            _ => true,
        }
    }

    pub fn meta() -> (r: RuleMeta)
        ensures
            r == named_argument_ordering_meta(),
    {
        RuleMeta {
            name: NAMED_ARGUMENT_ORDERING_NAME,
            code: NAMED_ARGUMENT_ORDERING_CODE,
            description: NAMED_ARGUMENT_ORDERING_DESCRIPTION,
            good_example: NAMED_ARGUMENT_ORDERING_GOOD_EXAMPLE,
            bad_example: NAMED_ARGUMENT_ORDERING_BAD_EXAMPLE,
            category: Category::Consistency,
            requirements: RuleRequirements::PhpVersion(
                PhpVersionRange::from_version(PhpVersion { major: 8, minor: 0, patch: 0 }),
            ),
        }
    }

    /// The rule is handed argument lists.
    pub fn targets() -> (r: Vec<NodeKind>)
        ensures
            r@ == seq![NodeKind::ArgumentList],
    {
        let mut r = Vec::new();
        r.push(NodeKind::ArgumentList);
        r
    }

    pub fn build(settings: RuleSettings<NamedArgumentOrderingConfig>) -> (r: Self)
        ensures
            r.spec_meta() == named_argument_ordering_meta(),
            r.spec_config() == settings.config,
    {
        Self { meta: Self::meta(), cfg: settings.config }
    }

    /// Reports an argument list whose named arguments are not in alphabetical
    /// order, with a fix that sorts them; other nodes are left alone.
    pub fn check(&self, ctx: &mut LintContext, node: &Node)
        requires
            Self::spans_within(old(ctx).source@, *node),
        ensures
            final(ctx).source == old(ctx).source,
            final(ctx).codebase == old(ctx).codebase,
            issue_views(final(ctx).issues@) == issue_views(old(ctx).issues@) + self.spec_issues(
                old(ctx).source@,
                *node,
            ),
    {
        let argument_list = match node {
            Node::ArgumentList(l) => l,
            _ => {
                assert(issue_views(ctx.issues@) + seq![] =~= issue_views(ctx.issues@));
                return ;
            },
        };
        let ghost source = ctx.source@;
        let ghost args = argument_list.arguments@;
        let n = argument_list.arguments.len();
        let mut names: Vec<Vec<u8>> = Vec::new();
        let mut first: usize = 0;
        let mut has_positional_after_named = false;
        let mut found_named = false;
        let mut index: usize = 0;
        while index < n
            invariant
                n == args.len(),
                args == argument_list.arguments@,
                source == ctx.source@,
                list_spans_within(source, *argument_list),
                index <= n,
                found_named ==> first < index,
                !found_named ==> names@.len() == 0,
                !found_named ==> forall|i: int| 0 <= i < index ==> #[trigger] args[i] is Positional,
                found_named ==> forall|i: int| 0 <= i < first ==> #[trigger] args[i] is Positional,
                found_named ==> args[first as int] is Named,
                has_positional_after_named == exists|i: int, j: int|
                    0 <= i < j < index && #[trigger] args[i] is Named && #[trigger] args[j] is Positional,
                !has_positional_after_named && found_named ==> {
                    &&& names@.len() == index - first
                    &&& forall|i: int| first <= i < index ==> #[trigger] args[i] is Named
                    &&& forall|k: int| 0 <= k < names@.len() ==> #[trigger] names@[k]@ == text_of(
                        source,
                        (args[first + k]->Named_0).name.span,
                    )
                },
            decreases n - index,
        {
            match &argument_list.arguments[index] {
                Argument::Named(named_arg) => {
                    if !found_named {
                        first = index;
                    }
                    found_named = true;
                    let name_span = named_arg.name.span;
                    let name = slice_bytes(&ctx.source, name_span.start as usize, name_span.end as usize);
                    names.push(name);
                    proof {
                        if !has_positional_after_named {
                            assert forall|k: int| 0 <= k < names@.len() implies #[trigger] names@[k]@ == text_of(
                                source,
                                (args[first + k]->Named_0).name.span,
                            ) by {
                                if k == names@.len() - 1 {
                                    assert(first + k == index);
                                }
                            }
                        }
                    }
                },
                Argument::Positional(_) => {
                    if found_named {
                        has_positional_after_named = true;
                        assert(args[first as int] is Named && args[index as int] is Positional);
                    }
                },
            }
            index = index + 1;
        }
        if names.len() < 2 || has_positional_after_named {
            proof {
                if !has_positional_after_named {
                    if found_named {
                        lemma_first_named(args, first as int);
                    } else {
                        lemma_first_named(args, n as int);
                    }
                }
            }
            assert(issue_views(ctx.issues@) + seq![] =~= issue_views(ctx.issues@));
            return ;
        }
        proof {
            lemma_first_named(args, first as int);
        }
        assert(byte_strings(names@) =~= argument_names(source, args));
        let mut sorted = true;
        let mut k: usize = 1;
        while sorted && k < names.len()
            invariant
                1 <= k <= names@.len(),
                sorted ==> forall|m: int| 1 <= m < k ==> !bytes_lt(#[trigger] names@[m]@, names@[m - 1]@),
                !sorted ==> k < names@.len() && bytes_lt(names@[k as int]@, names@[k - 1]@),
            decreases names@.len() - k + (if sorted { 1int } else { 0int }),
        {
            if bytes_less(&names[k], &names[k - 1]) {
                sorted = false;
            } else {
                k = k + 1;
            }
        }
        if sorted {
            proof {
                lemma_adjacent_alphabetical(byte_strings(names@));
            }
            assert(issue_views(ctx.issues@) + seq![] =~= issue_views(ctx.issues@));
            return ;
        }
        assert(!is_alphabetical(byte_strings(names@))) by {
            assert(byte_strings(names@)[k - 1] == names@[k - 1]@);
            assert(byte_strings(names@)[k as int] == names@[k as int]@);
        }
        let issue = Issue {
            level: self.cfg.level,
            code: lit_bytes(self.meta.code),
            message: lit_bytes(ORDERING_MESSAGE),
            annotation: Annotation { span: argument_list.span(), message: lit_bytes(ORDERING_ANNOTATION) },
            note: None,
            help: lit_bytes(ORDERING_HELP),
            fix: None,
        };
        let plan = self.reorder_plan(&ctx.source, argument_list, &names, first);
        ctx.propose(issue, plan);
        assert(issue_views(ctx.issues@) =~= issue_views(old(ctx).issues@) + self.spec_issues(source, *node));
    }

    /// The plan that replaces the arguments with the named ones sorted by name.
    fn reorder_plan(&self, source: &Vec<u8>, argument_list: &ArgumentList, names: &Vec<Vec<u8>>, first: usize) -> (r: FixPlan)
        requires
            reports_list(source@, *argument_list),
            list_spans_within(source@, *argument_list),
            first == first_named(argument_list.arguments@),
            byte_strings(names@) == argument_names(source@, argument_list.arguments@),
        ensures
            r@ == ordering_fix(source@, *argument_list),
    {
        let ghost args = argument_list.arguments@;
        proof {
            lemma_first_named_facts(args);
        }
        let order = stable_order_by_bytes(names);
        let ghost spec_order = stable_order(names@.len() as nat, by_bytes(byte_strings(names@)));
        proof {
            crate::order::lemma_by_bytes_strict_weak(byte_strings(names@));
            crate::order::lemma_stable_order(names@.len() as nat, by_bytes(byte_strings(names@)));
        }
        let n = argument_list.arguments.len();
        let mut parts: Vec<Vec<u8>> = Vec::new();
        let mut current: usize = 0;
        let mut index: usize = 0;
        while index < n
            invariant
                n == args.len(),
                args == argument_list.arguments@,
                reports_list(source@, *argument_list),
                list_spans_within(source@, *argument_list),
                first == first_named(args),
                names@.len() == n - first,
                order@.len() == names@.len(),
                forall|i: int| 0 <= i < order@.len() ==> #[trigger] order@[i] as int == spec_order[i],
                spec_order == stable_order((n - first) as nat, by_bytes(argument_names(source@, args))),
                crate::order::is_permutation(spec_order, (n - first) as nat),
                forall|i: int| 0 <= i < first ==> #[trigger] args[i] is Positional,
                forall|i: int| first <= i < n ==> #[trigger] args[i] is Named,
                index <= n,
                current == if index <= first { 0 } else { index - first },
                parts@.len() == index,
                forall|k: int| 0 <= k < index ==> #[trigger] parts@[k]@ == fix_parts(source@, args)[k],
            decreases n - index,
        {
            match &argument_list.arguments[index] {
                Argument::Named(_) => {
                    let sorted_index = first + order[current];
                    assert(0 <= spec_order[current as int] < n - first);
                    let text = match &argument_list.arguments[sorted_index] {
                        Argument::Named(named_arg) => {
                            let name_span = named_arg.name.span;
                            let value_span = named_arg.value.span;
                            let mut text = slice_bytes(source, name_span.start as usize, name_span.end as usize);
                            let sep = lit_bytes(": ");
                            append_bytes(&mut text, &sep);
                            let value = slice_bytes(source, value_span.start as usize, value_span.end as usize);
                            append_bytes(&mut text, &value);
                            text
                        },
                        Argument::Positional(_) => {
                            assert(false);
                            Vec::new()
                        },
                    };
                    parts.push(text);
                    current = current + 1;
                },
                Argument::Positional(positional) => {
                    let span = positional.span;
                    parts.push(slice_bytes(source, span.start as usize, span.end as usize));
                },
            }
            index = index + 1;
        }
        assert(byte_strings(parts@) =~= fix_parts(source@, args));
        let replacement = join_bytes(&parts, &lit_bytes(", "));
        let mut edits = Vec::new();
        edits.push(Edit {
            start: argument_list.left_parenthesis.end,
            end: argument_list.right_parenthesis.start,
            replacement,
            safety: SafetyClassification::Safe,
        });
        let plan = FixPlan { edits };
        assert(plan@ =~= ordering_fix(source@, *argument_list));
        plan
    }
}

/// `first_named` is the first position of a named argument.
proof fn lemma_first_named(args: Seq<Argument>, f: int)
    requires
        0 <= f <= args.len(),
        forall|i: int| 0 <= i < f ==> #[trigger] args[i] is Positional,
        f < args.len() ==> args[f] is Named,
    ensures
        first_named(args) == f,
    decreases f,
{
    if f > 0 {
        let t = args.drop_first();
        assert(args[0] is Positional);
        assert forall|i: int| 0 <= i < f - 1 implies #[trigger] t[i] is Positional by {
            assert(t[i] == args[i + 1]);
        }
        if f - 1 < t.len() {
            assert(t[f - 1] == args[f]);
        }
        lemma_first_named(t, f - 1);
    }
}

/// What holds of `first_named` in any list.
proof fn lemma_first_named_facts(args: Seq<Argument>)
    ensures
        0 <= first_named(args) <= args.len(),
        forall|i: int| 0 <= i < first_named(args) ==> #[trigger] args[i] is Positional,
        first_named(args) < args.len() ==> args[first_named(args)] is Named,
    decreases args.len(),
{
    if args.len() > 0 && !(args[0] is Named) {
        let t = args.drop_first();
        lemma_first_named_facts(t);
        assert forall|i: int| 0 <= i < first_named(args) implies #[trigger] args[i] is Positional by {
            if i > 0 {
                assert(args[i] == t[i - 1]);
            }
        }
    }
}

/// Names that never step back between neighbours are in alphabetical order.
proof fn lemma_adjacent_alphabetical(names: Seq<Seq<u8>>)
    requires
        forall|m: int| 1 <= m < names.len() ==> !bytes_lt(#[trigger] names[m], names[m - 1]),
    ensures
        is_alphabetical(names),
{
    assert forall|i: int, j: int| 0 <= i < j < names.len() implies !bytes_lt(#[trigger] names[j], #[trigger] names[i]) by {
        lemma_adjacent_chain(names, i, j);
    }
}

proof fn lemma_adjacent_chain(names: Seq<Seq<u8>>, i: int, j: int)
    requires
        forall|m: int| 1 <= m < names.len() ==> !bytes_lt(#[trigger] names[m], names[m - 1]),
        0 <= i <= j < names.len(),
    ensures
        names[i] == names[j] || bytes_lt(names[i], names[j]),
        !bytes_lt(names[j], names[i]),
    decreases j - i,
{
    if i < j {
        lemma_adjacent_chain(names, i, j - 1);
        assert(!bytes_lt(names[j], names[j - 1]));
        lemma_bytes_lt_total(names[j - 1], names[j]);
        if bytes_lt(names[i], names[j - 1]) && bytes_lt(names[j - 1], names[j]) {
            lemma_bytes_lt_transitive(names[i], names[j - 1], names[j]);
        }
    }
    lemma_bytes_lt_irreflexive(names[i]);
    if bytes_lt(names[i], names[j]) && bytes_lt(names[j], names[i]) {
        lemma_bytes_lt_transitive(names[i], names[j], names[i]);
    }
}

} // verus!
