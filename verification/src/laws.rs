//! Properties that hold of the rules on every input.
use vstd::prelude::*;

use crate::argument_order::{
    attribute_issues, codebase_function_parameters, codebase_method_parameters, function_call_issues,
    instantiation_issues, is_out_of_order, lemma_out_of_order_positions_range, named_arguments, order_issues, out_of_order_positions,
    parameter_position, reorder_fix, sort_key, sort_keys, statement_issues, statements_issues, OrderEnv,
    ATTRIBUTE_CONSTRUCTOR_SIGNATURE, CONSTRUCTOR_NAME, CONSTRUCTOR_SIGNATURE, FUNCTION_SIGNATURE,
};
use crate::ast::{
    ArgumentList, Attribute, Call, Class, ClassLikeMember, ExpressionKind, FunctionCall, Instantiation, Method,
    MethodBody, NamedArgument, Node, Statement,
};
use crate::named_argument_ordering::{
    argument_names, first_named, is_alphabetical, ordering_issue, positional_after_named, reports_list,
    NamedArgumentOrderingRule,
};
use crate::order::{
    by_bytes, by_number, is_permutation, is_stable_by, lemma_by_bytes_strict_weak,
    lemma_by_number_strict_weak, lemma_stable_order, stable_order,
};
use crate::reporting::{FunctionLikeKind, FunctionLikeMetadata, IssueView, Level};
use crate::slow_array_function_in_loop::{
    call_matches_any, conditions_issues, condition_issues, count_call_span, count_functions, count_issue,
    is_accumulative, merge_issue,
    merge_issues_in_expression, merge_issues_of, merge_candidates, merge_candidates_in_body,
    SlowArrayFunctionInLoopRule, DO_WHILE_LOOP, FOR_LOOP, WHILE_LOOP,
};
use crate::ast::{Expression, Span};
use crate::text::{ascii_lowercase, bytes_lt, lit, strip_dollar};

verus! {

/// An argument list whose named arguments are already in alphabetical order
/// is not reported.
pub proof fn law_alphabetical_list_passes(rule: NamedArgumentOrderingRule, source: Seq<u8>, list: ArgumentList)
    requires
        is_alphabetical(argument_names(source, list.arguments@)),
    ensures
        rule.spec_issues(source, Node::ArgumentList(list)) == Seq::<IssueView>::empty(),
{
}

/// The fix for an argument list lists every named argument exactly once, in
/// alphabetical order, and arguments with equal names keep their order.
pub proof fn law_alphabetical_fix_sorts(source: Seq<u8>, list: ArgumentList)
    requires
        reports_list(source, list),
    ensures
        ({
            let names = argument_names(source, list.arguments@);
            let order = stable_order(names.len(), by_bytes(names));
            &&& is_permutation(order, names.len())
            &&& is_alphabetical(Seq::new(names.len(), |k: int| names[order[k]]))
            &&& is_stable_by(order, by_bytes(names))
        }),
{
    let names = argument_names(source, list.arguments@);
    let order = stable_order(names.len(), by_bytes(names));
    lemma_by_bytes_strict_weak(names);
    lemma_stable_order(names.len(), by_bytes(names));
    let sorted = Seq::new(names.len(), |k: int| names[order[k]]);
    assert forall|i: int, j: int| 0 <= i < j < sorted.len() implies !bytes_lt(
        #[trigger] sorted[j],
        #[trigger] sorted[i],
    ) by {
        assert(!by_bytes(names)(order[j], order[i]));
    }
}

/// The named arguments follow the order of the parameters: for any two
/// arguments whose names are parameters, the earlier names the earlier
/// parameter (or the same one).
pub open spec fn in_signature_order(expected: Seq<Seq<u8>>, named: Seq<NamedArgument>) -> bool {
    forall|i: int, j: int|
        0 <= i < j < named.len() && #[trigger] parameter_position(expected, named[i].name.value@) is Some
            && #[trigger] parameter_position(expected, named[j].name.value@) is Some ==> parameter_position(
            expected,
            named[i].name.value@,
        )->0 <= parameter_position(expected, named[j].name.value@)->0
}

proof fn lemma_out_of_order_positions_empty(expected: Seq<Seq<u8>>, named: Seq<NamedArgument>, m: int)
    requires
        0 <= m <= named.len(),
    ensures
        out_of_order_positions(expected, named, m).len() == 0 <==> forall|i: int|
            0 <= i < m ==> !#[trigger] is_out_of_order(expected, named, i),
    decreases m,
{
    if m > 0 {
        lemma_out_of_order_positions_empty(expected, named, m - 1);
        if out_of_order_positions(expected, named, m).len() == 0 {
            assert forall|i: int| 0 <= i < m implies !#[trigger] is_out_of_order(expected, named, i) by {
                if i < m - 1 {
                }
            }
        }
    }
}

/// Named arguments are reported exactly when they are not in the order of
/// the parameters.
pub proof fn law_reports_iff_out_of_signature_order(
    level: Level,
    code: Seq<u8>,
    named: Seq<NamedArgument>,
    expected: Seq<Seq<u8>>,
    description: Seq<u8>,
)
    ensures
        order_issues(level, code, named, expected, description).len() == 0 <==> in_signature_order(expected, named),
{
    lemma_out_of_order_positions_empty(expected, named, named.len() as int);
    if in_signature_order(expected, named) {
        assert forall|i: int| 0 <= i < named.len() implies !#[trigger] is_out_of_order(expected, named, i) by {
            if is_out_of_order(expected, named, i) {
                let j = choose|j: int|
                    0 <= j < i && #[trigger] parameter_position(expected, named[j].name.value@) is Some
                        && parameter_position(expected, named[j].name.value@)->0 > parameter_position(
                        expected,
                        named[i].name.value@,
                    )->0;
                assert(parameter_position(expected, named[j].name.value@)->0 <= parameter_position(
                    expected,
                    named[i].name.value@,
                )->0);
            }
        }
    } else {
        let (i, j) = choose|i: int, j: int|
            0 <= i < j < named.len() && #[trigger] parameter_position(expected, named[i].name.value@) is Some
                && #[trigger] parameter_position(expected, named[j].name.value@) is Some && !(parameter_position(
                expected,
                named[i].name.value@,
            )->0 <= parameter_position(expected, named[j].name.value@)->0);
        assert(is_out_of_order(expected, named, j));
    }
}

/// Only the first issue for a call carries the fix.
pub proof fn law_only_first_issue_has_fix(
    level: Level,
    code: Seq<u8>,
    named: Seq<NamedArgument>,
    expected: Seq<Seq<u8>>,
    description: Seq<u8>,
)
    ensures
        forall|k: int|
            0 <= k < order_issues(level, code, named, expected, description).len() ==> (
            #[trigger] order_issues(level, code, named, expected, description)[k].fix is Some <==> k == 0),
        order_issues(level, code, named, expected, description).len() > 0 ==> order_issues(
            level,
            code,
            named,
            expected,
            description,
        )[0].fix == Some(reorder_fix(expected, named)),
{
}

/// The fix puts every named argument once, in the order of the parameters
/// they name; arguments that name the same parameter keep their order, and
/// arguments that name no parameter come last, in their original order.
pub proof fn law_reorder_fix_follows_signature(expected: Seq<Seq<u8>>, named: Seq<NamedArgument>)
    requires
        expected.len() <= usize::MAX,
    ensures
        ({
            let keys = sort_keys(expected, named);
            let order = stable_order(named.len(), by_number(keys));
            &&& is_permutation(order, named.len())
            &&& forall|i: int, j: int| 0 <= i < j < order.len() ==> keys[#[trigger] order[i]] <= keys[#[trigger] order[j]]
            &&& is_stable_by(order, by_number(keys))
            &&& forall|i: int, j: int|
                0 <= i < j < order.len() && parameter_position(expected, named[#[trigger] order[i]].name.value@) is None
                    ==> parameter_position(expected, named[#[trigger] order[j]].name.value@) is None
        }),
{
    let keys = sort_keys(expected, named);
    let order = stable_order(named.len(), by_number(keys));
    lemma_by_number_strict_weak(keys);
    lemma_stable_order(named.len(), by_number(keys));
    assert forall|i: int, j: int| 0 <= i < j < order.len() implies keys[#[trigger] order[i]] <= keys[#[trigger] order[j]] by {
        assert(!by_number(keys)(order[j], order[i]));
    }
    assert forall|i: int, j: int|
        0 <= i < j < order.len() && parameter_position(expected, named[#[trigger] order[i]].name.value@) is None
        implies parameter_position(expected, named[#[trigger] order[j]].name.value@) is None by {
        assert(!by_number(keys)(order[j], order[i]));
        lemma_parameter_position_below(expected, named[order[j]].name.value@);
        assert(keys[order[i]] == usize::MAX);
        assert(keys[order[j]] == sort_key(expected, named[order[j]].name.value@));
    }
}

proof fn lemma_parameter_position_below(expected: Seq<Seq<u8>>, name: Seq<u8>)
    ensures
        parameter_position(expected, name) matches Some(p) ==> 0 <= p < expected.len(),
    decreases expected.len(),
{
    if expected.len() > 0 {
        lemma_parameter_position_below(expected.drop_last(), name);
    }
}


/// The named arguments in the order that the fix writes them.
pub open spec fn reordered_arguments(expected: Seq<Seq<u8>>, named: Seq<NamedArgument>) -> Seq<NamedArgument> {
    let order = stable_order(named.len(), by_number(sort_keys(expected, named)));
    Seq::new(named.len(), |k: int| named[order[k]])
}

/// The order that the fix proposes passes the check: checking the arguments
/// again in that order reports nothing.
pub proof fn law_reordered_arguments_pass(
    level: Level,
    code: Seq<u8>,
    named: Seq<NamedArgument>,
    expected: Seq<Seq<u8>>,
    description: Seq<u8>,
)
    requires
        expected.len() <= usize::MAX,
    ensures
        order_issues(level, code, reordered_arguments(expected, named), expected, description).len() == 0,
{
    let keys = sort_keys(expected, named);
    let order = stable_order(named.len(), by_number(keys));
    let sorted = reordered_arguments(expected, named);
    law_reorder_fix_follows_signature(expected, named);
    assert forall|i: int, j: int|
        0 <= i < j < sorted.len() && #[trigger] parameter_position(expected, sorted[i].name.value@) is Some
            && #[trigger] parameter_position(expected, sorted[j].name.value@) is Some implies parameter_position(
        expected,
        sorted[i].name.value@,
    )->0 <= parameter_position(expected, sorted[j].name.value@)->0 by {
        lemma_parameter_position_below(expected, sorted[i].name.value@);
        lemma_parameter_position_below(expected, sorted[j].name.value@);
        assert(sorted[i] == named[order[i]]);
        assert(sorted[j] == named[order[j]]);
        assert(keys[order[i]] <= keys[order[j]]);
    }
    assert(in_signature_order(expected, sorted));
    law_reports_iff_out_of_signature_order(level, code, sorted, expected, description);
}

/// The named arguments that name a parameter, in order.
pub open spec fn known_arguments(expected: Seq<Seq<u8>>, named: Seq<NamedArgument>) -> Seq<NamedArgument>
    decreases named.len(),
{
    if named.len() == 0 {
        seq![]
    } else if parameter_position(expected, named.last().name.value@) is Some {
        known_arguments(expected, named.drop_last()).push(named.last())
    } else {
        known_arguments(expected, named.drop_last())
    }
}

/// The arguments reported out of order, in order.
pub open spec fn reported_arguments(expected: Seq<Seq<u8>>, named: Seq<NamedArgument>) -> Seq<NamedArgument> {
    let oo = out_of_order_positions(expected, named, named.len() as int);
    Seq::new(oo.len(), |k: int| named[oo[k]])
}

/// Some argument names a parameter after position `p`.
spec fn names_later_parameter(expected: Seq<Seq<u8>>, named: Seq<NamedArgument>, p: int) -> bool
    decreases named.len(),
{
    if named.len() == 0 {
        false
    } else {
        names_later_parameter(expected, named.drop_last(), p) || (parameter_position(
            expected,
            named.last().name.value@,
        ) is Some && parameter_position(expected, named.last().name.value@)->0 > p)
    }
}

proof fn lemma_names_later_parameter(expected: Seq<Seq<u8>>, named: Seq<NamedArgument>, p: int)
    ensures
        names_later_parameter(expected, named, p) <==> exists|j: int|
            0 <= j < named.len() && #[trigger] parameter_position(expected, named[j].name.value@) is Some
                && parameter_position(expected, named[j].name.value@)->0 > p,
    decreases named.len(),
{
    if named.len() > 0 {
        let d = named.drop_last();
        lemma_names_later_parameter(expected, d, p);
        if names_later_parameter(expected, d, p) {
            let j = choose|j: int|
                0 <= j < d.len() && #[trigger] parameter_position(expected, d[j].name.value@) is Some
                    && parameter_position(expected, d[j].name.value@)->0 > p;
            assert(named[j] == d[j]);
        }
        if exists|j: int|
            0 <= j < named.len() && #[trigger] parameter_position(expected, named[j].name.value@) is Some
                && parameter_position(expected, named[j].name.value@)->0 > p {
            let j = choose|j: int|
                0 <= j < named.len() && #[trigger] parameter_position(expected, named[j].name.value@) is Some
                    && parameter_position(expected, named[j].name.value@)->0 > p;
            if j < d.len() {
                assert(named[j] == d[j]);
            }
        }
    }
}

proof fn lemma_names_later_parameter_known(expected: Seq<Seq<u8>>, named: Seq<NamedArgument>, p: int)
    ensures
        names_later_parameter(expected, known_arguments(expected, named), p) == names_later_parameter(
            expected,
            named,
            p,
        ),
    decreases named.len(),
{
    if named.len() > 0 {
        let d = named.drop_last();
        lemma_names_later_parameter_known(expected, d, p);
        let k = known_arguments(expected, named);
        if parameter_position(expected, named.last().name.value@) is Some {
            assert(k.drop_last() =~= known_arguments(expected, d));
        }
    }
}

/// The last argument is out of order exactly when it names a parameter and an
/// earlier argument names a later one.
proof fn lemma_last_out_of_order(expected: Seq<Seq<u8>>, named: Seq<NamedArgument>)
    requires
        named.len() > 0,
    ensures
        is_out_of_order(expected, named, named.len() - 1) <==> parameter_position(
            expected,
            named.last().name.value@,
        ) is Some && names_later_parameter(
            expected,
            named.drop_last(),
            parameter_position(expected, named.last().name.value@)->0,
        ),
{
    let d = named.drop_last();
    let n = named.len() as int;
    let p = parameter_position(expected, named.last().name.value@)->0;
    lemma_names_later_parameter(expected, d, p);
    if is_out_of_order(expected, named, n - 1) {
        let j = choose|j: int|
            0 <= j < n - 1 && #[trigger] parameter_position(expected, named[j].name.value@) is Some
                && parameter_position(expected, named[j].name.value@)->0 > parameter_position(
                expected,
                named[n - 1].name.value@,
            )->0;
        assert(d[j] == named[j]);
    }
    if parameter_position(expected, named.last().name.value@) is Some && names_later_parameter(expected, d, p) {
        let j = choose|j: int|
            0 <= j < d.len() && #[trigger] parameter_position(expected, d[j].name.value@) is Some
                && parameter_position(expected, d[j].name.value@)->0 > p;
        assert(d[j] == named[j]);
        assert(is_out_of_order(expected, named, n - 1));
    }
}

/// The positions out of order among the first `m` arguments depend on those
/// arguments only.
proof fn lemma_positions_prefix(expected: Seq<Seq<u8>>, a: Seq<NamedArgument>, b: Seq<NamedArgument>, m: int)
    requires
        0 <= m <= a.len(),
        m <= b.len(),
        forall|i: int| 0 <= i < m ==> a[i] == b[i],
    ensures
        out_of_order_positions(expected, a, m) == out_of_order_positions(expected, b, m),
    decreases m,
{
    if m > 0 {
        lemma_positions_prefix(expected, a, b, m - 1);
        let i = m - 1;
        assert(a[i] == b[i]);
        if is_out_of_order(expected, a, i) {
            let j = choose|j: int|
                0 <= j < i && #[trigger] parameter_position(expected, a[j].name.value@) is Some
                    && parameter_position(expected, a[j].name.value@)->0 > parameter_position(
                    expected,
                    a[i].name.value@,
                )->0;
            assert(a[j] == b[j]);
            assert(is_out_of_order(expected, b, i));
        }
        if is_out_of_order(expected, b, i) {
            let j = choose|j: int|
                0 <= j < i && #[trigger] parameter_position(expected, b[j].name.value@) is Some
                    && parameter_position(expected, b[j].name.value@)->0 > parameter_position(
                    expected,
                    b[i].name.value@,
                )->0;
            assert(a[j] == b[j]);
            assert(is_out_of_order(expected, a, i));
        }
    }
}

proof fn lemma_reported_step(expected: Seq<Seq<u8>>, named: Seq<NamedArgument>)
    requires
        named.len() > 0,
    ensures
        reported_arguments(expected, named) == reported_arguments(expected, named.drop_last()) + if is_out_of_order(
            expected,
            named,
            named.len() - 1,
        ) {
            seq![named.last()]
        } else {
            Seq::<NamedArgument>::empty()
        },
{
    let n = named.len() as int;
    let d = named.drop_last();
    lemma_positions_prefix(expected, named, d, n - 1);
    lemma_out_of_order_positions_range(expected, d, n - 1);
    let prev = out_of_order_positions(expected, d, n - 1);
    let oo = out_of_order_positions(expected, named, n);
    let r = reported_arguments(expected, named);
    let rd = reported_arguments(expected, d);
    let tail = if is_out_of_order(expected, named, n - 1) {
        seq![named.last()]
    } else {
        Seq::<NamedArgument>::empty()
    };
    assert forall|k: int| 0 <= k < rd.len() implies r[k] == rd[k] by {
        assert(oo[k] == prev[k]);
        assert(named[prev[k]] == d[prev[k]]);
    }
    assert(r =~= rd + tail);
}

proof fn lemma_reported_known(expected: Seq<Seq<u8>>, named: Seq<NamedArgument>)
    ensures
        reported_arguments(expected, named) == reported_arguments(expected, known_arguments(expected, named)),
    decreases named.len(),
{
    let k = known_arguments(expected, named);
    if named.len() == 0 {
        assert(reported_arguments(expected, named) =~= Seq::<NamedArgument>::empty());
        assert(reported_arguments(expected, k) =~= Seq::<NamedArgument>::empty());
    } else {
        let d = named.drop_last();
        let x = named.last();
        lemma_reported_known(expected, d);
        lemma_reported_step(expected, named);
        lemma_last_out_of_order(expected, named);
        if parameter_position(expected, x.name.value@) is Some {
            let p = parameter_position(expected, x.name.value@)->0;
            assert(k.drop_last() =~= known_arguments(expected, d));
            assert(k.last() == x);
            lemma_reported_step(expected, k);
            lemma_last_out_of_order(expected, k);
            lemma_names_later_parameter_known(expected, d, p);
        }
    }
}

/// Arguments that name no parameter are never reported and do not change what
/// is reported of the others: two lists with the same arguments naming
/// parameters, in the same order, report the same arguments, with the same
/// messages and places.
pub proof fn law_unknown_names_do_not_change_reports(
    level: Level,
    code: Seq<u8>,
    expected: Seq<Seq<u8>>,
    named1: Seq<NamedArgument>,
    named2: Seq<NamedArgument>,
    description: Seq<u8>,
)
    requires
        known_arguments(expected, named1) == known_arguments(expected, named2),
    ensures
        reported_arguments(expected, named1) == reported_arguments(expected, named2),
        ({
            let a = order_issues(level, code, named1, expected, description);
            let b = order_issues(level, code, named2, expected, description);
            &&& a.len() == b.len()
            &&& forall|k: int|
                0 <= k < a.len() ==> (#[trigger] a[k]).message == b[k].message && a[k].annotation == b[k].annotation
        }),
{
    lemma_reported_known(expected, named1);
    lemma_reported_known(expected, named2);
    let r1 = reported_arguments(expected, named1);
    let r2 = reported_arguments(expected, named2);
    let a = order_issues(level, code, named1, expected, description);
    let b = order_issues(level, code, named2, expected, description);
    let oo1 = out_of_order_positions(expected, named1, named1.len() as int);
    let oo2 = out_of_order_positions(expected, named2, named2.len() as int);
    assert(a.len() == oo1.len() && oo1.len() == r1.len());
    assert(b.len() == oo2.len() && oo2.len() == r2.len());
    assert forall|k: int| 0 <= k < a.len() implies (#[trigger] a[k]).message == b[k].message && a[k].annotation
        == b[k].annotation by {
        assert(r1[k] == named1[oo1[k]]);
        assert(r2[k] == named2[oo2[k]]);
        assert(r1[k] == r2[k]);
    }
}

/// The same rule environment with another codebase.
pub open spec fn with_codebase(
    env: OrderEnv,
    codebase: Option<Map<(Seq<u8>, Seq<u8>), FunctionLikeMetadata>>,
) -> OrderEnv {
    OrderEnv { level: env.level, code: env.code, codebase, functions: env.functions, constructors: env.constructors }
}

/// A call of a function declared in the file is checked against that
/// declaration alone: the codebase is consulted only for other names.
pub proof fn law_local_functions_shadow_codebase(
    env: OrderEnv,
    codebase: Option<Map<(Seq<u8>, Seq<u8>), FunctionLikeMetadata>>,
    call: FunctionCall,
)
    requires
        call.function.kind matches ExpressionKind::Identifier(id) && env.functions.contains_key(id.value@),
    ensures
        function_call_issues(env, call) == function_call_issues(with_codebase(env, codebase), call),
        ({
            let named = named_arguments(call.argument_list.arguments@);
            let name = call.function.kind->Identifier_0.value@;
            function_call_issues(env, call) == if named.len() < 2 {
                Seq::<IssueView>::empty()
            } else {
                order_issues(env.level, env.code, named, env.functions[name], lit(FUNCTION_SIGNATURE))
            }
        }),
{
}

/// An instantiation of a class declared in the file, and an attribute naming
/// one, are checked against that class's constructor alone.
pub proof fn law_local_classes_shadow_codebase(
    env: OrderEnv,
    codebase: Option<Map<(Seq<u8>, Seq<u8>), FunctionLikeMetadata>>,
    instantiation: Instantiation,
    attribute: Attribute,
)
    requires
        instantiation.class.kind matches ExpressionKind::Identifier(c) && env.constructors.contains_key(c.value@),
        env.constructors.contains_key(attribute.name.value@),
    ensures
        instantiation_issues(env, instantiation) == instantiation_issues(with_codebase(env, codebase), instantiation),
        attribute_issues(env, attribute) == attribute_issues(with_codebase(env, codebase), attribute),
{
}

/// Functions of the codebase are found by their name in any ASCII case.
pub proof fn law_codebase_function_lookup_ignores_case(env: OrderEnv, name1: Seq<u8>, name2: Seq<u8>)
    requires
        ascii_lowercase(name1) == ascii_lowercase(name2),
    ensures
        codebase_function_parameters(env, name1) == codebase_function_parameters(env, name2),
{
}

/// Methods of the codebase are found by class and method name in any ASCII case.
pub proof fn law_codebase_method_lookup_ignores_case(
    env: OrderEnv,
    class1: Seq<u8>,
    method1: Seq<u8>,
    class2: Seq<u8>,
    method2: Seq<u8>,
)
    requires
        ascii_lowercase(class1) == ascii_lowercase(class2),
        ascii_lowercase(method1) == ascii_lowercase(method2),
    ensures
        codebase_method_parameters(env, class1, method1) == codebase_method_parameters(env, class2, method2),
{
}

/// A function recorded in the codebase under a name in one case is found by
/// that name in any other case, with the parameters recorded.
pub proof fn law_recorded_functions_are_found_in_any_case(
    env: OrderEnv,
    codebase: Map<(Seq<u8>, Seq<u8>), FunctionLikeMetadata>,
    recorded: Seq<u8>,
    looked_up: Seq<u8>,
    parameters: Seq<Seq<u8>>,
)
    requires
        ascii_lowercase(recorded) == ascii_lowercase(looked_up),
    ensures
        codebase_function_parameters(
            with_codebase(
                env,
                Some(
                    codebase.insert(
                        (ascii_lowercase(seq![]), ascii_lowercase(recorded)),
                        FunctionLikeMetadata { kind: FunctionLikeKind::Function, parameters },
                    ),
                ),
            ),
            looked_up,
        ) == Some(parameters.map_values(|p: Seq<u8>| strip_dollar(p))),
{
    assert(ascii_lowercase(seq![]) =~= Seq::<u8>::empty());
}

/// The issue reports a count call in the condition of a loop.
pub open spec fn is_count_issue(level: Level, code: Seq<u8>, issue: IssueView) -> bool {
    exists|span: Span, loop_type: Seq<u8>|
        (loop_type == lit(FOR_LOOP) || loop_type == lit(WHILE_LOOP) || loop_type == lit(DO_WHILE_LOOP))
            && issue == #[trigger] count_issue(level, code, span, loop_type)
}

/// The issue reports slow array merging.
pub open spec fn is_merge_issue(level: Level, code: Seq<u8>, issue: IssueView) -> bool {
    exists|span: Span| issue == #[trigger] merge_issue(level, code, span)
}

proof fn lemma_merge_issues_of(level: Level, code: Seq<u8>, source: Seq<u8>, expressions: Seq<Expression>)
    ensures
        forall|k: int|
            0 <= k < merge_issues_of(level, code, source, expressions).len() ==> is_merge_issue(
                level,
                code,
                #[trigger] merge_issues_of(level, code, source, expressions)[k],
            ),
    decreases expressions.len(),
{
    if expressions.len() > 0 {
        let front = merge_issues_of(level, code, source, expressions.drop_last());
        let back = merge_issues_in_expression(level, code, source, expressions.last());
        lemma_merge_issues_of(level, code, source, expressions.drop_last());
        let all = merge_issues_of(level, code, source, expressions);
        assert(all == front + back);
        assert(back.len() <= 1);
        assert forall|k: int| 0 <= k < all.len() implies is_merge_issue(level, code, #[trigger] all[k]) by {
            if k < front.len() {
                assert(all[k] == front[k]);
            } else {
                assert(all[k] == back[0]);
                assert(back[0] == merge_issue(level, code, expressions.last().span));
            }
        }
    }
}

proof fn lemma_count_issues_of_conditions(level: Level, code: Seq<u8>, conditions: Seq<crate::ast::Expression>)
    ensures
        forall|k: int|
            0 <= k < conditions_issues(level, code, conditions).len() ==> is_count_issue(
                level,
                code,
                #[trigger] conditions_issues(level, code, conditions)[k],
            ),
    decreases conditions.len(),
{
    if conditions.len() > 0 {
        lemma_count_issues_of_conditions(level, code, conditions.drop_last());
        let front = conditions_issues(level, code, conditions.drop_last());
        let back = condition_issues(level, code, conditions.last(), lit(FOR_LOOP));
        let all = conditions_issues(level, code, conditions);
        assert(all == front + back);
        assert forall|k: int| 0 <= k < all.len() implies is_count_issue(level, code, #[trigger] all[k]) by {
            if k < front.len() {
                assert(all[k] == front[k]);
            } else {
                assert(all[k] == back[k - front.len()]);
                let span = crate::slow_array_function_in_loop::count_call_span(conditions.last())->0;
                assert(all[k] == count_issue(level, code, span, lit(FOR_LOOP)));
            }
        }
    }
}

/// Of the rule's settings only the level and the two switches of detection
/// change what it reports: two rules that agree on these report the same
/// issues for every node.
pub proof fn law_slow_array_other_settings_change_nothing(
    rule1: SlowArrayFunctionInLoopRule,
    rule2: SlowArrayFunctionInLoopRule,
    source: Seq<u8>,
    node: Node,
)
    requires
        rule1.spec_meta() == rule2.spec_meta(),
        rule1.spec_config().level == rule2.spec_config().level,
        rule1.spec_config().detect_count_functions == rule2.spec_config().detect_count_functions,
        rule1.spec_config().detect_array_merge == rule2.spec_config().detect_array_merge,
    ensures
        rule1.spec_issues(source, node) == rule2.spec_issues(source, node),
        rule1.spans_within(source, node) == rule2.spans_within(source, node),
{
}

/// The rule reports only the two patterns it names, each only where the
/// configuration asks for it, and proposes no fix.
pub proof fn law_slow_array_reports_enabled_patterns(rule: SlowArrayFunctionInLoopRule, source: Seq<u8>, node: Node)
    ensures
        forall|k: int|
            0 <= k < rule.spec_issues(source, node).len() ==> {
                let issue = #[trigger] rule.spec_issues(source, node)[k];
                &&& (rule.spec_config().detect_count_functions && is_count_issue(
                    rule.spec_level(),
                    rule.spec_code(),
                    issue,
                )) || (rule.spec_config().detect_array_merge && is_merge_issue(
                    rule.spec_level(),
                    rule.spec_code(),
                    issue,
                ))
                &&& issue.fix is None
            },
{
    let level = rule.spec_level();
    let code = rule.spec_code();
    let cfg = rule.spec_config();
    let all = rule.spec_issues(source, node);
    match node {
        Node::For(f) => {
            let front = if cfg.detect_count_functions {
                conditions_issues(level, code, f.conditions@)
            } else {
                seq![]
            };
            let back = rule.merge_issues(source, f.body);
            lemma_count_issues_of_conditions(level, code, f.conditions@);
            lemma_merge_issues_of(level, code, source, merge_candidates_in_body(f.body));
            assert(all == front + back);
            assert forall|k: int| 0 <= k < all.len() implies {
                &&& (cfg.detect_count_functions && is_count_issue(level, code, #[trigger] all[k])) || (
                cfg.detect_array_merge && is_merge_issue(level, code, all[k]))
                &&& all[k].fix is None
            } by {
                if k < front.len() {
                    assert(all[k] == front[k]);
                    let (span, t) = choose|span: Span, t: Seq<u8>|
                        (t == lit(FOR_LOOP) || t == lit(WHILE_LOOP) || t == lit(DO_WHILE_LOOP)) && all[k]
                            == #[trigger] count_issue(level, code, span, t);
                } else {
                    assert(all[k] == back[k - front.len()]);
                    let span = choose|span: Span| all[k] == #[trigger] merge_issue(level, code, span);
                }
            }
        },
        Node::Foreach(f) => {
            lemma_merge_issues_of(level, code, source, merge_candidates_in_body(f.body));
            assert forall|k: int| 0 <= k < all.len() implies {
                &&& (cfg.detect_count_functions && is_count_issue(level, code, #[trigger] all[k])) || (
                cfg.detect_array_merge && is_merge_issue(level, code, all[k]))
                &&& all[k].fix is None
            } by {
                let span = choose|span: Span| all[k] == #[trigger] merge_issue(level, code, span);
            }
        },
        Node::While(w) => {
            let front = rule.count_issues(w.condition, lit(WHILE_LOOP));
            let back = rule.merge_issues(source, w.body);
            lemma_merge_issues_of(level, code, source, merge_candidates_in_body(w.body));
            assert(all == front + back);
            assert forall|k: int| 0 <= k < all.len() implies {
                &&& (cfg.detect_count_functions && is_count_issue(level, code, #[trigger] all[k])) || (
                cfg.detect_array_merge && is_merge_issue(level, code, all[k]))
                &&& all[k].fix is None
            } by {
                if k < front.len() {
                    assert(all[k] == front[k]);
                    let span = crate::slow_array_function_in_loop::count_call_span(w.condition)->0;
                    assert(all[k] == count_issue(level, code, span, lit(WHILE_LOOP)));
                } else {
                    assert(all[k] == back[k - front.len()]);
                    let span = choose|span: Span| all[k] == #[trigger] merge_issue(level, code, span);
                }
            }
        },
        Node::DoWhile(d) => {
            let front = rule.count_issues(d.condition, lit(DO_WHILE_LOOP));
            let back = if cfg.detect_array_merge {
                merge_issues_of(level, code, source, merge_candidates(*d.statement))
            } else {
                seq![]
            };
            lemma_merge_issues_of(level, code, source, merge_candidates(*d.statement));
            assert(all == front + back);
            assert forall|k: int| 0 <= k < all.len() implies {
                &&& (cfg.detect_count_functions && is_count_issue(level, code, #[trigger] all[k])) || (
                cfg.detect_array_merge && is_merge_issue(level, code, all[k]))
                &&& all[k].fix is None
            } by {
                if k < front.len() {
                    assert(all[k] == front[k]);
                    let span = crate::slow_array_function_in_loop::count_call_span(d.condition)->0;
                    assert(all[k] == count_issue(level, code, span, lit(DO_WHILE_LOOP)));
                } else {
                    assert(all[k] == back[k - front.len()]);
                    let span = choose|span: Span| all[k] == #[trigger] merge_issue(level, code, span);
                }
            }
        },
        _ => {},
    }
}


/// The body of a method is checked as the same statements written at the top
/// level: adding a method without attributes to a class adds the issues of
/// its body's statements, after those the class gave before.
pub proof fn law_method_bodies_are_checked(env: OrderEnv, with_method: Class, without: Class, method: Method)
    requires
        with_method.attribute_lists@ == without.attribute_lists@,
        with_method.members@ == without.members@.push(ClassLikeMember::Method(method)),
        method.attribute_lists@.len() == 0,
        method.body is Concrete,
    ensures
        statement_issues(env, Statement::Class(with_method)) == statement_issues(env, Statement::Class(without))
            + statements_issues(env, (method.body->Concrete_0).statements@),
{
    assert(with_method.members@.drop_last() =~= without.members@);
    assert(method.attribute_lists@ =~= Seq::<crate::ast::AttributeList>::empty());
    let attrs = crate::argument_order::attribute_lists_issues(env, with_method.attribute_lists@);
    let before = crate::argument_order::members_issues(env, without.members@);
    let body = statements_issues(env, (method.body->Concrete_0).statements@);
    assert(crate::argument_order::attribute_lists_issues(env, method.attribute_lists@) =~= Seq::<IssueView>::empty());
    assert(crate::argument_order::member_issues(env, ClassLikeMember::Method(method)) =~= body);
    let ms = with_method.members@;
    assert(ms.last() == ClassLikeMember::Method(method));
    assert(crate::argument_order::members_issues(env, ms) == crate::argument_order::members_issues(env, ms.drop_last())
        + crate::argument_order::member_issues(env, ms.last()));
    assert(crate::argument_order::members_issues(env, ms) =~= before + body);
    assert(statement_issues(env, Statement::Class(with_method)) == attrs + crate::argument_order::members_issues(env, ms));
    assert(statement_issues(env, Statement::Class(without)) == attrs + before);
    assert(attrs + (before + body) =~= (attrs + before) + body);
}

/// The parameters (without `$`) that a codebase map records under a key for
/// a function-like of the given kind.
pub open spec fn recorded_parameters(
    codebase: Map<(Seq<u8>, Seq<u8>), FunctionLikeMetadata>,
    key: (Seq<u8>, Seq<u8>),
) -> Seq<Seq<u8>> {
    codebase[key].parameters.map_values(|p: Seq<u8>| strip_dollar(p))
}

/// A call of a function the file does not declare is checked against the
/// global function that the codebase records under its lower-cased name.
pub proof fn law_undeclared_functions_use_the_codebase(
    env: OrderEnv,
    codebase: Map<(Seq<u8>, Seq<u8>), FunctionLikeMetadata>,
    call: FunctionCall,
)
    requires
        call.function.kind matches ExpressionKind::Identifier(id) && !env.functions.contains_key(id.value@)
            && codebase.contains_key((seq![], ascii_lowercase(id.value@))) && codebase[(
            seq![],
            ascii_lowercase(id.value@),
        )].kind == FunctionLikeKind::Function,
        env.codebase == Some(codebase),
        named_arguments(call.argument_list.arguments@).len() >= 2,
    ensures
        function_call_issues(env, call) == order_issues(
            env.level,
            env.code,
            named_arguments(call.argument_list.arguments@),
            recorded_parameters(codebase, (seq![], ascii_lowercase(call.function.kind->Identifier_0.value@))),
            lit(FUNCTION_SIGNATURE),
        ),
{
}

/// `new C(...)` of a class the file does not declare is checked against the
/// constructor that the codebase records for `C` under lower-cased names.
pub proof fn law_undeclared_classes_use_the_codebase(
    env: OrderEnv,
    codebase: Map<(Seq<u8>, Seq<u8>), FunctionLikeMetadata>,
    instantiation: Instantiation,
)
    requires
        instantiation.class.kind matches ExpressionKind::Identifier(c) && !env.constructors.contains_key(c.value@)
            && codebase.contains_key((ascii_lowercase(c.value@), ascii_lowercase(lit(CONSTRUCTOR_NAME)))) && codebase[(
            ascii_lowercase(c.value@),
            ascii_lowercase(lit(CONSTRUCTOR_NAME)),
        )].kind == FunctionLikeKind::Method,
        env.codebase == Some(codebase),
        instantiation.argument_list matches Some(list) && named_arguments(list.arguments@).len() >= 2,
    ensures
        instantiation_issues(env, instantiation) == order_issues(
            env.level,
            env.code,
            named_arguments((instantiation.argument_list->0).arguments@),
            recorded_parameters(
                codebase,
                (
                    ascii_lowercase(instantiation.class.kind->Identifier_0.value@),
                    ascii_lowercase(lit(CONSTRUCTOR_NAME)),
                ),
            ),
            lit(CONSTRUCTOR_SIGNATURE),
        ),
{
}

/// An attribute naming a class the file does not declare is checked against
/// the constructor that the codebase records for that class.
pub proof fn law_undeclared_attribute_classes_use_the_codebase(
    env: OrderEnv,
    codebase: Map<(Seq<u8>, Seq<u8>), FunctionLikeMetadata>,
    attribute: Attribute,
)
    requires
        !env.constructors.contains_key(attribute.name.value@),
        codebase.contains_key((ascii_lowercase(attribute.name.value@), ascii_lowercase(lit(CONSTRUCTOR_NAME)))),
        codebase[(ascii_lowercase(attribute.name.value@), ascii_lowercase(lit(CONSTRUCTOR_NAME)))].kind
            == FunctionLikeKind::Method,
        env.codebase == Some(codebase),
        attribute.argument_list matches Some(list) && named_arguments(list.arguments@).len() >= 2,
    ensures
        attribute_issues(env, attribute) == order_issues(
            env.level,
            env.code,
            named_arguments((attribute.argument_list->0).arguments@),
            recorded_parameters(
                codebase,
                (ascii_lowercase(attribute.name.value@), ascii_lowercase(lit(CONSTRUCTOR_NAME))),
            ),
            lit(ATTRIBUTE_CONSTRUCTOR_SIGNATURE),
        ),
{
}

/// An argument list with two named arguments or more and no positional
/// argument after them is reported, once, as soon as some name is followed by
/// one that sorts before it.
pub proof fn law_unordered_list_is_reported(
    rule: NamedArgumentOrderingRule,
    source: Seq<u8>,
    list: ArgumentList,
    i: int,
    j: int,
)
    requires
        !positional_after_named(list.arguments@),
        list.arguments@.len() - first_named(list.arguments@) >= 2,
        0 <= i < j < argument_names(source, list.arguments@).len(),
        bytes_lt(argument_names(source, list.arguments@)[j], argument_names(source, list.arguments@)[i]),
    ensures
        rule.spec_issues(source, Node::ArgumentList(list)) == seq![
            ordering_issue(rule.spec_config().level, lit(rule.spec_meta().code), source, list),
        ],
{
    let names = argument_names(source, list.arguments@);
    assert(!is_alphabetical(names));
}

/// The spans of all the calls to a count function in a condition, looking
/// through binary operations and parentheses, in the order of the text.
pub open spec fn count_calls(expression: Expression) -> Seq<Span>
    decreases expression,
{
    match expression.kind {
        ExpressionKind::Call(Call::Function(call)) => if call_matches_any(call, count_functions()) {
            seq![expression.span]
        } else {
            seq![]
        },
        ExpressionKind::Binary(binary) => count_calls(*binary.lhs) + count_calls(*binary.rhs),
        ExpressionKind::Parenthesized(inner) => count_calls(*inner),
        _ => seq![],
    }
}

/// The count call reported for a condition is the first of all the count
/// calls in it, however deep they sit in binary operations and parentheses,
/// and one is reported whenever there is any.
pub proof fn law_count_call_is_the_first_in_the_condition(expression: Expression)
    ensures
        count_call_span(expression) == if count_calls(expression).len() > 0 {
            Some(count_calls(expression)[0])
        } else {
            None::<Span>
        },
    decreases expression,
{
    match expression.kind {
        ExpressionKind::Binary(binary) => {
            law_count_call_is_the_first_in_the_condition(*binary.lhs);
            law_count_call_is_the_first_in_the_condition(*binary.rhs);
            let l = count_calls(*binary.lhs);
            let r = count_calls(*binary.rhs);
            assert(count_calls(expression) == l + r);
            if l.len() > 0 {
                assert((l + r)[0] == l[0]);
            } else {
                assert(l + r =~= r);
            }
        },
        ExpressionKind::Parenthesized(inner) => {
            law_count_call_is_the_first_in_the_condition(*inner);
        },
        _ => {},
    }
}

/// An assignment `$a = array_merge($a, ...)` whose first argument is spelled
/// as the target.
pub open spec fn is_accumulative_merge(source: Seq<u8>, expression: Expression) -> bool {
    match expression.kind {
        ExpressionKind::Assignment(assignment) => match assignment.rhs.kind {
            ExpressionKind::Call(Call::Function(call)) => call_matches_any(call, seq![lit("array_merge")])
                && is_accumulative(source, assignment, call),
            _ => false,
        },
        _ => false,
    }
}

/// The expression statements of a loop's body that the merging check reads.
pub open spec fn loop_merge_candidates(node: Node) -> Seq<Expression> {
    match node {
        Node::For(f) => merge_candidates_in_body(f.body),
        Node::Foreach(f) => merge_candidates_in_body(f.body),
        Node::While(w) => merge_candidates_in_body(w.body),
        Node::DoWhile(d) => merge_candidates(*d.statement),
        _ => seq![],
    }
}

proof fn lemma_merge_issues_of_contains(level: Level, code: Seq<u8>, source: Seq<u8>, expressions: Seq<Expression>, e: Expression)
    requires
        expressions.contains(e),
        is_accumulative_merge(source, e),
    ensures
        merge_issues_of(level, code, source, expressions).contains(merge_issue(level, code, e.span)),
    decreases expressions.len(),
{
    let front = merge_issues_of(level, code, source, expressions.drop_last());
    let back = merge_issues_in_expression(level, code, source, expressions.last());
    let all = merge_issues_of(level, code, source, expressions);
    assert(all == front + back);
    if expressions.last() == e {
        assert(back == seq![merge_issue(level, code, e.span)]);
        assert(all[front.len() as int] == merge_issue(level, code, e.span));
    } else {
        let k = choose|k: int| 0 <= k < expressions.len() && expressions[k] == e;
        assert(expressions.drop_last()[k] == e);
        lemma_merge_issues_of_contains(level, code, source, expressions.drop_last(), e);
        let m = choose|m: int| 0 <= m < front.len() && front[m] == merge_issue(level, code, e.span);
        assert(all[m] == front[m]);
    }
}

/// With merging detection on, every accumulative `array_merge` assignment in
/// the body of a `for`, `foreach`, `while` or `do`-`while` loop is reported,
/// at the assignment.
pub proof fn law_every_accumulative_merge_in_a_loop_is_reported(
    rule: SlowArrayFunctionInLoopRule,
    source: Seq<u8>,
    node: Node,
    e: Expression,
)
    requires
        rule.spec_config().detect_array_merge,
        loop_merge_candidates(node).contains(e),
        is_accumulative_merge(source, e),
    ensures
        rule.spec_issues(source, node).contains(merge_issue(rule.spec_level(), rule.spec_code(), e.span)),
{
    let level = rule.spec_level();
    let code = rule.spec_code();
    let merges = merge_issues_of(level, code, source, loop_merge_candidates(node));
    lemma_merge_issues_of_contains(level, code, source, loop_merge_candidates(node), e);
    let m = choose|m: int| 0 <= m < merges.len() && merges[m] == merge_issue(level, code, e.span);
    let all = rule.spec_issues(source, node);
    let front = match node {
        Node::For(f) => if rule.spec_config().detect_count_functions {
            conditions_issues(level, code, f.conditions@)
        } else {
            seq![]
        },
        Node::While(w) => rule.count_issues(w.condition, lit(WHILE_LOOP)),
        Node::DoWhile(d) => rule.count_issues(d.condition, lit(DO_WHILE_LOOP)),
        _ => Seq::<IssueView>::empty(),
    };
    assert(all =~= front + merges);
    assert(all[front.len() + m] == merges[m]);
}

} // verus!
