use prereqs::review::{merge_unique, Review};

fn review(content: &str, course_id: &str, user_id: &str) -> Review {
    Review {
        content: content.to_string(),
        course_id: course_id.to_string(),
        user_id: user_id.to_string(),
    }
}

#[test]
fn merge_drops_duplicates_across_inputs() {
    let by_course = vec![
        review("great", "CS101", "alice"),
        review("hard", "CS101", "bob"),
    ];
    let by_user = vec![
        review("hard", "CS101", "bob"),
        review("fine", "MATH101", "bob"),
    ];
    let merged = merge_unique(&by_course, &by_user);
    assert_eq!(merged.len(), 3);
    assert!(merged.contains(&review("great", "CS101", "alice")));
    assert!(merged.contains(&review("hard", "CS101", "bob")));
    assert!(merged.contains(&review("fine", "MATH101", "bob")));
}

#[test]
fn merge_drops_duplicates_within_one_input() {
    let twice = vec![
        review("great", "CS101", "alice"),
        review("great", "CS101", "alice"),
    ];
    let merged = merge_unique(&twice, &Vec::new());
    assert_eq!(merged, vec![review("great", "CS101", "alice")]);
}

#[test]
fn merge_keeps_distinct_reviews_apart() {
    // Same content from two different users: two distinct reviews.
    let a = vec![review("great", "CS101", "alice")];
    let b = vec![review("great", "CS101", "bob")];
    let merged = merge_unique(&a, &b);
    assert_eq!(merged.len(), 2);
}

#[test]
fn merge_of_empty_inputs_is_empty() {
    let merged = merge_unique(&Vec::new(), &Vec::new());
    assert!(merged.is_empty());
}
