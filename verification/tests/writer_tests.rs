use smallnlo::table::Float;
use smallnlo::writer::{w_iter, w_literal, w_nested_vec, w_slice};

#[test]
fn literal_is_one_line() {
    let mut s = String::new();
    w_literal(&mut s, &42usize);
    w_literal(&mut s, &-7isize);
    w_literal(&mut s, &"name".to_string());
    w_literal(&mut s, &Float { text: "1.5e3".to_string() });
    assert_eq!(s, "42\n-7\nname\n1.5e3\n");
}

#[test]
fn slice_is_count_then_values() {
    let mut s = String::from("head\n");
    w_slice(&mut s, &vec![3usize, 1, 2]);
    assert_eq!(s, "head\n3\n3\n1\n2\n");
    let mut e = String::new();
    w_slice::<usize>(&mut e, &vec![]);
    assert_eq!(e, "0\n");
}

#[test]
fn iter_is_values_only() {
    let mut s = String::new();
    w_iter(&mut s, &vec!["a".to_string(), "b".to_string()]);
    assert_eq!(s, "a\nb\n");
}

#[test]
fn nested_vec_counts_lists_and_values() {
    let mut s = String::new();
    w_nested_vec(&mut s, &vec![vec![1usize], vec![], vec![4, 5]]);
    assert_eq!(s, "3\n1\n1\n0\n2\n4\n5\n");
}
