use unique_inverse::{unique_inverse, UniqueInverse};

#[test]
fn test_unique() {
    let result = unique_inverse(vec![1, 2, 3, 4, 4, 3, 2, 1, 5]);
    assert_eq!(
        result,
        UniqueInverse {
            uniques: vec![1, 2, 3, 4, 5],
            inverses: vec![0, 1, 2, 3, 3, 2, 1, 0, 4]
        }
    );
}

#[test]
fn empty_input_gives_empty_parts() {
    let result = unique_inverse(Vec::<i32>::new());
    assert_eq!(
        result,
        UniqueInverse {
            uniques: vec![],
            inverses: vec![]
        }
    );
}

#[test]
fn identical_elements_share_one_value() {
    let result = unique_inverse(vec![1, 1, 1]);
    assert_eq!(
        result,
        UniqueInverse {
            uniques: vec![1],
            inverses: vec![0, 0, 0]
        }
    );
}

#[test]
fn single_element() {
    let result = unique_inverse(vec![42u8]);
    assert_eq!(result.uniques, vec![42u8]);
    assert_eq!(result.inverses, vec![0]);
}

#[test]
fn distinct_elements_are_kept_as_they_are() {
    let input = vec![9u64, 7, 8, 0, 3];
    let result = unique_inverse(input.clone());
    assert_eq!(result.uniques, input);
    assert_eq!(result.inverses, vec![0, 1, 2, 3, 4]);
}

#[test]
fn order_is_by_first_occurrence_not_by_value() {
    let result = unique_inverse(vec![30, 10, 30, 20, 10, 20]);
    assert_eq!(result.uniques, vec![30, 10, 20]);
    assert_eq!(result.inverses, vec![0, 1, 0, 2, 1, 2]);
}

#[test]
fn negative_and_extreme_values() {
    let result = unique_inverse(vec![i64::MIN, -1, i64::MAX, -1, i64::MIN, 0]);
    assert_eq!(result.uniques, vec![i64::MIN, -1, i64::MAX, 0]);
    assert_eq!(result.inverses, vec![0, 1, 2, 1, 0, 3]);
}

#[test]
fn owned_strings() {
    let words = vec!["b", "a", "b", "c", "a", "a"];
    let input: Vec<String> = words.iter().map(|w| w.to_string()).collect();
    let result = unique_inverse(input);
    assert_eq!(
        result.uniques,
        vec!["b".to_string(), "a".to_string(), "c".to_string()]
    );
    assert_eq!(result.inverses, vec![0, 1, 0, 2, 1, 1]);
}

#[test]
fn tuples_and_chars() {
    let result = unique_inverse(vec![('x', 1), ('y', 1), ('x', 2), ('x', 1)]);
    assert_eq!(result.uniques, vec![('x', 1), ('y', 1), ('x', 2)]);
    assert_eq!(result.inverses, vec![0, 1, 2, 0]);
}

#[test]
fn results_with_different_indices_differ() {
    let left = unique_inverse(vec![1, 2, 1]);
    let right = unique_inverse(vec![1, 2, 2]);
    assert_eq!(left.uniques, right.uniques);
    assert_ne!(left, right);
}

#[test]
fn result_can_be_printed_for_debugging() {
    let result = unique_inverse(vec![5, 5]);
    assert_eq!(
        format!("{:?}", result),
        "UniqueInverse { uniques: [5], inverses: [0, 0] }"
    );
}
