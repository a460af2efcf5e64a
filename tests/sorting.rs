use std::cell::Cell;
use wasm_sorter::{
    comparison_of, compare_text, sort_by_callback, sort_strings, CallbackReply, Comparison,
};

fn reply_of_number(x: f64) -> CallbackReply {
    if x < 0.0 {
        CallbackReply::Negative
    } else if x > 0.0 {
        CallbackReply::Positive
    } else if x == 0.0 {
        CallbackReply::Zero
    } else {
        CallbackReply::NotNumeric
    }
}

fn sorted_copy(v: &[i64]) -> Vec<i64> {
    let mut s = v.to_vec();
    s.sort();
    s
}

#[test]
fn callback_reply_mapping() {
    assert_eq!(comparison_of(&CallbackReply::Negative), Comparison::Less);
    assert_eq!(comparison_of(&CallbackReply::Positive), Comparison::Greater);
    assert_eq!(comparison_of(&CallbackReply::Zero), Comparison::Equal);
    assert_eq!(comparison_of(&CallbackReply::NotNumeric), Comparison::Equal);
    assert_eq!(comparison_of(&CallbackReply::Failed), Comparison::Equal);
}

#[test]
fn sort_by_key_difference() {
    let values: Vec<(i64, usize)> = vec![(5, 0), (3, 1), (9, 2), (1, 3), (3, 4)];
    let r = sort_by_callback(values, |a: &(i64, usize), b: &(i64, usize)| {
        reply_of_number((a.0 - b.0) as f64)
    });
    assert_eq!(r, vec![(1, 3), (3, 1), (3, 4), (5, 0), (9, 2)]);
}

#[test]
fn sort_empty_and_single() {
    let r: Vec<i64> = sort_by_callback(Vec::new(), |_: &i64, _: &i64| CallbackReply::Positive);
    assert!(r.is_empty());
    let r = sort_by_callback(vec![7i64], |_: &i64, _: &i64| CallbackReply::Positive);
    assert_eq!(r, vec![7]);
}

#[test]
fn failing_callback_still_permutes() {
    let values: Vec<i64> = vec![8, -2, 5, 5, 0, 13, -7, 4, 1, 9];
    let calls = Cell::new(0u32);
    let r = sort_by_callback(values.clone(), |a: &i64, b: &i64| {
        calls.set(calls.get() + 1);
        if (a + b) % 3 == 0 {
            CallbackReply::Failed
        } else {
            reply_of_number((a - b) as f64)
        }
    });
    assert!(calls.get() > 0);
    assert_eq!(r.len(), values.len());
    assert_eq!(sorted_copy(&r), sorted_copy(&values));
}

#[test]
fn always_failing_callback_keeps_order() {
    let values: Vec<i64> = vec![3, 1, 2];
    let r = sort_by_callback(values, |_: &i64, _: &i64| CallbackReply::Failed);
    assert_eq!(r, vec![3, 1, 2]);
}

#[test]
fn non_numeric_reply_is_equal() {
    let values: Vec<i64> = vec![2, 1];
    let r = sort_by_callback(values, |_: &i64, _: &i64| CallbackReply::NotNumeric);
    assert_eq!(r, vec![2, 1]);
}

#[test]
fn callback_sees_current_order() {
    let values: Vec<i64> = vec![4, 2, 6, 1];
    let r = sort_by_callback(values, |a: &i64, b: &i64| {
        assert_ne!(a, b);
        reply_of_number((a - b) as f64)
    });
    assert_eq!(r, vec![1, 2, 4, 6]);
}

#[test]
fn sort_numbers_drops_non_numbers() {
    let raw: Vec<Option<f64>> = vec![Some(3.0), Some(1.0), None, Some(2.0)];
    let nums: Vec<f64> = raw.into_iter().flatten().collect();
    let r = sort_by_callback(nums, |a: &f64, b: &f64| reply_of_number(a - b));
    assert_eq!(r, vec![1.0, 2.0, 3.0]);
}

#[test]
fn sort_numbers_descending_with_nan() {
    let nums: Vec<f64> = vec![1.5, f64::NAN, -4.0, 10.0];
    let r = sort_by_callback(nums, |a: &f64, b: &f64| reply_of_number(b - a));
    assert_eq!(r.len(), 4);
    assert_eq!(r.iter().filter(|x| x.is_nan()).count(), 1);
}

#[test]
fn sort_strings_descending() {
    let input = vec!["b".to_string(), "a".to_string(), "c".to_string()];
    let r = sort_strings(input, false);
    assert_eq!(r, vec!["c".to_string(), "b".to_string(), "a".to_string()]);
}

#[test]
fn sort_strings_ascending() {
    let input: Vec<String> =
        vec!["pear", "apple", "Zebra", "app", "", "apple"].into_iter().map(String::from).collect();
    let r = sort_strings(input, true);
    let expected: Vec<String> =
        vec!["", "Zebra", "app", "apple", "apple", "pear"].into_iter().map(String::from).collect();
    assert_eq!(r, expected);
}

#[test]
fn sort_strings_utf8_bytes() {
    let input: Vec<String> = vec!["é", "z", "e"].into_iter().map(String::from).collect();
    let r = sort_strings(input, true);
    let expected: Vec<String> = vec!["e", "z", "é"].into_iter().map(String::from).collect();
    assert_eq!(r, expected);
}

#[test]
fn compare_text_cases() {
    let s = |x: &str| x.to_string();
    assert_eq!(compare_text(&s("abc"), &s("abd")), Comparison::Less);
    assert_eq!(compare_text(&s("abc"), &s("ab")), Comparison::Greater);
    assert_eq!(compare_text(&s(""), &s("")), Comparison::Equal);
    assert_eq!(compare_text(&s("ab"), &s("abc")), Comparison::Less);
    assert_eq!(compare_text(&s("same"), &s("same")), Comparison::Equal);
}
