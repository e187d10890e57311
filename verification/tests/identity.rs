use std::hash::{Hash, Hasher};
use unique_inverse::unique_inverse;

/// Equal by `key` alone; `note` tells two equal values apart.
#[derive(Clone, Debug)]
struct Tagged {
    key: u32,
    note: &'static str,
}

impl PartialEq for Tagged {
    fn eq(&self, other: &Self) -> bool {
        self.key == other.key
    }
}

impl Eq for Tagged {}

impl Hash for Tagged {
    fn hash<H: Hasher>(&self, state: &mut H) {
        self.key.hash(state);
    }
}

#[test]
fn the_first_of_equal_values_is_the_one_kept() {
    let input = vec![
        Tagged { key: 7, note: "first seven" },
        Tagged { key: 3, note: "first three" },
        Tagged { key: 7, note: "second seven" },
        Tagged { key: 3, note: "second three" },
        Tagged { key: 7, note: "third seven" },
    ];
    let result = unique_inverse(input);
    assert_eq!(result.inverses, vec![0, 1, 0, 1, 0]);
    assert_eq!(result.uniques.len(), 2);
    assert_eq!(result.uniques[0].key, 7);
    assert_eq!(result.uniques[0].note, "first seven");
    assert_eq!(result.uniques[1].key, 3);
    assert_eq!(result.uniques[1].note, "first three");
}

#[test]
fn values_that_cannot_be_copied() {
    let input = vec![vec![1, 2], vec![], vec![1, 2], vec![2, 1], vec![]];
    let result = unique_inverse(input);
    assert_eq!(result.uniques, vec![vec![1, 2], vec![], vec![2, 1]]);
    assert_eq!(result.inverses, vec![0, 1, 0, 2, 1]);
}
