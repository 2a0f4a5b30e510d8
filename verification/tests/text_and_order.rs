use mago_linter::order::{stable_order_by_bytes, stable_order_by_number};
use mago_linter::reporting::{Codebase, FunctionLikeKind};
use mago_linter::text::{
    bytes_eq_ignore_ascii_case, bytes_less, decimal_bytes, join_bytes, strip_dollar_prefix, to_ascii_lowercase,
};

fn b(s: &str) -> Vec<u8> {
    s.as_bytes().to_vec()
}

#[test]
fn decimal_writes_numbers_as_to_string_does() {
    for n in [0u64, 7, 10, 42, 1000, 18446744073709551615] {
        assert_eq!(decimal_bytes(n), b(&n.to_string()));
    }
}

#[test]
fn join_puts_the_separator_between_parts() {
    assert_eq!(join_bytes(&vec![], &b(", ")), b(""));
    assert_eq!(join_bytes(&vec![b("a")], &b(", ")), b("a"));
    assert_eq!(join_bytes(&vec![b("a"), b("b"), b("c")], &b(", ")), b("a, b, c"));
}

#[test]
fn byte_order_is_the_order_of_str() {
    let words = ["", "a", "A", "ab", "b", "Z", "é", "a\u{0}"];
    for x in words {
        for y in words {
            assert_eq!(bytes_less(&b(x), &b(y)), x < y, "{:?} < {:?}", x, y);
        }
    }
}

#[test]
fn ascii_case_folding() {
    assert_eq!(to_ascii_lowercase(&b("Array_Merge-É")), b("array_merge-É"));
    assert!(bytes_eq_ignore_ascii_case(&b("COUNT"), &b("count")));
    assert!(!bytes_eq_ignore_ascii_case(&b("count"), &b("counts")));
}

#[test]
fn one_dollar_is_stripped() {
    assert_eq!(strip_dollar_prefix(&b("$name")), b("name"));
    assert_eq!(strip_dollar_prefix(&b("$$name")), b("$name"));
    assert_eq!(strip_dollar_prefix(&b("name")), b("name"));
    assert_eq!(strip_dollar_prefix(&b("")), b(""));
}

#[test]
fn stable_orders_keep_ties_in_place() {
    assert_eq!(stable_order_by_number(&vec![2, 0, usize::MAX, 0, 1]), vec![1, 3, 4, 0, 2]);
    assert_eq!(stable_order_by_bytes(&vec![b("b"), b("a"), b("b"), b("A")]), vec![3, 1, 0, 2]);
    assert_eq!(stable_order_by_number(&vec![]), Vec::<usize>::new());
}

#[test]
fn codebase_reads_back_what_was_written() {
    let mut codebase = Codebase::new();
    assert!(codebase.get(&b(""), &b("f")).is_none());
    codebase.insert(&b(""), &b("F"), FunctionLikeKind::Function, vec![b("$a")]);
    codebase.insert(&b("C"), &b("M"), FunctionLikeKind::Method, vec![]);
    codebase.insert(&b(""), &b("f"), FunctionLikeKind::Function, vec![b("$b")]);
    let entry = codebase.get(&b(""), &b("f")).expect("recorded");
    assert_eq!(entry.parameters, vec![b("$b")]);
    assert_eq!(codebase.get(&b("c"), &b("m")).unwrap().kind, FunctionLikeKind::Method);
    assert!(codebase.get(&b("C"), &b("M")).is_none());
}
