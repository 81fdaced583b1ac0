use prereqs::codec::{DecodeError, DocField, DocValue};
use prereqs::eval::{Evaluation, StudentContext, SubjectCredits, Trace};
use prereqs::model::{ConstructError, Operator, ReqNode, Requirement, Requirements};

fn course(code: &str) -> ReqNode {
    ReqNode::leaf(Requirement::CourseCompleted { code: code.to_string() })
}

fn student(completed: &[&str]) -> StudentContext {
    StudentContext {
        completed: completed.iter().map(|c| c.to_string()).collect(),
        credits: Vec::new(),
        standing: 0,
    }
}

fn example_tree() -> Requirements {
    let inner = ReqNode::branch(Operator::Or, vec![course("MATH101"), course("MATH102")])
        .expect("or branch");
    let root =
        ReqNode::branch(Operator::And, vec![course("CS101"), inner]).expect("and branch");
    Requirements::with_root(root).expect("valid tree")
}

#[test]
fn empty_requirements_always_satisfied() {
    let reqs = Requirements::empty();
    assert!(reqs.is_empty());
    let outcome = reqs.evaluate(&student(&[]));
    assert!(outcome.satisfied);
    assert!(outcome.failure.is_none());
    let outcome = reqs.evaluate(&student(&["CS101", "MATH200"]));
    assert!(outcome.satisfied);
    assert!(outcome.failure.is_none());
}

#[test]
fn and_reports_first_failing_child() {
    let root = ReqNode::branch(Operator::And, vec![course("CS101"), course("CS102")])
        .expect("and branch");
    let reqs = Requirements::with_root(root).expect("valid tree");
    // CS101 fails, CS102 succeeds: the reported leaf is CS101 regardless.
    let outcome = reqs.evaluate(&student(&["CS102"]));
    assert!(!outcome.satisfied);
    assert_eq!(
        outcome.failure,
        Some(Trace::Leaf(Requirement::CourseCompleted { code: "CS101".to_string() }))
    );
}

#[test]
fn or_reports_every_failing_child() {
    let root = ReqNode::branch(Operator::Or, vec![course("MATH101"), course("MATH102")])
        .expect("or branch");
    let reqs = Requirements::with_root(root).expect("valid tree");
    let outcome = reqs.evaluate(&student(&[]));
    assert!(!outcome.satisfied);
    assert_eq!(
        outcome.failure,
        Some(Trace::AnyOf(vec![
            Trace::Leaf(Requirement::CourseCompleted { code: "MATH101".to_string() }),
            Trace::Leaf(Requirement::CourseCompleted { code: "MATH102".to_string() }),
        ]))
    );
}

#[test]
fn empty_branch_is_rejected() {
    assert_eq!(
        ReqNode::branch(Operator::And, Vec::new()).unwrap_err(),
        ConstructError::EmptyBranch
    );
    assert_eq!(
        ReqNode::branch(Operator::Or, Vec::new()).unwrap_err(),
        ConstructError::EmptyBranch
    );
}

#[test]
fn not_arity_is_rejected() {
    assert_eq!(
        ReqNode::branch(Operator::Not, vec![course("CS101"), course("CS102")]).unwrap_err(),
        ConstructError::NotArity
    );
    assert_eq!(
        ReqNode::branch(Operator::Not, Vec::new()).unwrap_err(),
        ConstructError::NotArity
    );
    assert!(ReqNode::branch(Operator::Not, vec![course("CS101")]).is_ok());
}

#[test]
fn with_root_rejects_nested_malformed_tree() {
    // The malformed node hides below a well-shaped root.
    let bad = ReqNode::Branch { op: Operator::And, children: Vec::new() };
    let root = ReqNode::Branch { op: Operator::Or, children: vec![course("CS101"), bad] };
    assert_eq!(Requirements::with_root(root).unwrap_err(), ConstructError::EmptyBranch);
}

#[test]
fn validate_reports_first_violation_depth_first() {
    let not_branch = ReqNode::Branch { op: Operator::Not, children: Vec::new() };
    let and_branch = ReqNode::Branch { op: Operator::And, children: Vec::new() };
    let root = ReqNode::Branch { op: Operator::Or, children: vec![not_branch, and_branch] };
    assert_eq!(root.validate(), Some(ConstructError::NotArity));
}

#[test]
fn evaluation_is_idempotent() {
    let reqs = example_tree();
    let ctx = student(&["CS101"]);
    let first = reqs.evaluate(&ctx);
    let second = reqs.evaluate(&ctx);
    assert_eq!(first, second);
}

#[test]
fn example_tree_against_two_students() {
    let reqs = example_tree();

    let outcome = reqs.evaluate(&student(&["CS101", "MATH102"]));
    assert!(outcome.satisfied);
    assert!(outcome.failure.is_none());

    // With CS101 alone, the Or branch fails and names both alternatives.
    let outcome = reqs.evaluate(&student(&["CS101"]));
    assert!(!outcome.satisfied);
    assert_eq!(
        outcome.failure,
        Some(Trace::AnyOf(vec![
            Trace::Leaf(Requirement::CourseCompleted { code: "MATH101".to_string() }),
            Trace::Leaf(Requirement::CourseCompleted { code: "MATH102".to_string() }),
        ]))
    );
}

#[test]
fn credits_requirement_uses_first_matching_subject() {
    let root = ReqNode::leaf(Requirement::CreditsInSubject {
        subject: "MATH".to_string(),
        minimum: 6,
    });
    let reqs = Requirements::with_root(root).expect("valid tree");
    let ctx = StudentContext {
        completed: Vec::new(),
        credits: vec![
            SubjectCredits { subject: "MATH".to_string(), total: 9 },
            SubjectCredits { subject: "MATH".to_string(), total: 0 },
        ],
        standing: 0,
    };
    assert!(reqs.evaluate(&ctx).satisfied);

    let ctx = StudentContext {
        completed: Vec::new(),
        credits: vec![SubjectCredits { subject: "PHYS".to_string(), total: 9 }],
        standing: 0,
    };
    let outcome = reqs.evaluate(&ctx);
    assert!(!outcome.satisfied);
    assert_eq!(
        outcome.failure,
        Some(Trace::Leaf(Requirement::CreditsInSubject {
            subject: "MATH".to_string(),
            minimum: 6,
        }))
    );
}

#[test]
fn standing_requirement_compares_rank() {
    let root = ReqNode::leaf(Requirement::MinimumStanding { level: 3 });
    let reqs = Requirements::with_root(root).expect("valid tree");
    let mut ctx = student(&[]);
    ctx.standing = 3;
    assert!(reqs.evaluate(&ctx).satisfied);
    ctx.standing = 2;
    assert!(!reqs.evaluate(&ctx).satisfied);
}

#[test]
fn not_branch_negates_and_explains() {
    let root = ReqNode::branch(Operator::Not, vec![course("CS101")]).expect("not branch");
    let reqs = Requirements::with_root(root).expect("valid tree");
    // The negated condition fails, so the Not branch is satisfied.
    assert!(reqs.evaluate(&student(&[])).satisfied);
    // The negated condition holds, so the Not branch fails.
    let outcome = reqs.evaluate(&student(&["CS101"]));
    assert!(!outcome.satisfied);
    assert_eq!(outcome.failure, Some(Trace::Negation));
}

#[test]
fn round_trip_example_tree() {
    let reqs = example_tree();
    let doc = reqs.encode();
    let back = Requirements::decode(&doc).expect("decodes");
    assert_eq!(back, example_tree());
}

#[test]
fn round_trip_every_leaf_kind() {
    let root = ReqNode::branch(
        Operator::And,
        vec![
            course("CS101"),
            ReqNode::leaf(Requirement::CreditsInSubject {
                subject: "MATH".to_string(),
                minimum: 6,
            }),
            ReqNode::leaf(Requirement::MinimumStanding { level: 2 }),
            ReqNode::branch(Operator::Not, vec![course("CS199")]).expect("not branch"),
        ],
    )
    .expect("and branch");
    let reqs = Requirements::with_root(root).expect("valid tree");
    let doc = reqs.encode();
    let back = Requirements::decode(&doc).expect("decodes");
    assert_eq!(reqs, back);
}

#[test]
fn round_trip_empty_requirements() {
    let reqs = Requirements::empty();
    let doc = reqs.encode();
    assert_eq!(doc, DocValue::Null);
    let back = Requirements::decode(&doc).expect("decodes");
    assert!(back.is_empty());
    assert_eq!(reqs, back);
}

#[test]
fn leaf_encodes_as_tagged_document() {
    let reqs = Requirements::with_root(course("CS101")).expect("valid tree");
    assert_eq!(
        reqs.encode(),
        DocValue::Doc(vec![
            DocField { name: "kind".to_string(), value: DocValue::Text("course".to_string()) },
            DocField { name: "code".to_string(), value: DocValue::Text("CS101".to_string()) },
        ])
    );
}

#[test]
fn branch_encodes_as_tagged_document() {
    let root = ReqNode::branch(Operator::Or, vec![course("CS101")]).expect("or branch");
    let reqs = Requirements::with_root(root).expect("valid tree");
    assert_eq!(
        reqs.encode(),
        DocValue::Doc(vec![
            DocField { name: "kind".to_string(), value: DocValue::Text("or".to_string()) },
            DocField {
                name: "children".to_string(),
                value: DocValue::Array(vec![DocValue::Doc(vec![
                    DocField {
                        name: "kind".to_string(),
                        value: DocValue::Text("course".to_string()),
                    },
                    DocField {
                        name: "code".to_string(),
                        value: DocValue::Text("CS101".to_string()),
                    },
                ])]),
            },
        ])
    );
}

#[test]
fn decode_rejects_unknown_kind() {
    let doc = DocValue::Doc(vec![DocField {
        name: "kind".to_string(),
        value: DocValue::Text("mystery".to_string()),
    }]);
    assert_eq!(
        Requirements::decode(&doc).unwrap_err(),
        DecodeError::Construction(ConstructError::UnknownKind)
    );
}

#[test]
fn decode_rejects_bad_shape() {
    assert_eq!(
        Requirements::decode(&DocValue::Int(3)).unwrap_err(),
        DecodeError::Shape
    );
    assert_eq!(
        Requirements::decode(&DocValue::Doc(Vec::new())).unwrap_err(),
        DecodeError::Shape
    );
    // A course leaf whose payload field has the wrong name.
    let doc = DocValue::Doc(vec![
        DocField { name: "kind".to_string(), value: DocValue::Text("course".to_string()) },
        DocField { name: "name".to_string(), value: DocValue::Text("CS101".to_string()) },
    ]);
    assert_eq!(Requirements::decode(&doc).unwrap_err(), DecodeError::Shape);
    // A credits minimum out of range.
    let doc = DocValue::Doc(vec![
        DocField { name: "kind".to_string(), value: DocValue::Text("credits".to_string()) },
        DocField { name: "subject".to_string(), value: DocValue::Text("MATH".to_string()) },
        DocField { name: "minimum".to_string(), value: DocValue::Int(-1) },
    ]);
    assert_eq!(Requirements::decode(&doc).unwrap_err(), DecodeError::Shape);
}

#[test]
fn decode_rejects_malformed_tree() {
    let doc = DocValue::Doc(vec![
        DocField { name: "kind".to_string(), value: DocValue::Text("and".to_string()) },
        DocField { name: "children".to_string(), value: DocValue::Array(Vec::new()) },
    ]);
    assert_eq!(
        Requirements::decode(&doc).unwrap_err(),
        DecodeError::Construction(ConstructError::EmptyBranch)
    );
}

#[test]
fn accessors_expose_the_root() {
    let reqs = Requirements::empty();
    assert!(reqs.root().is_none());
    let reqs = Requirements::with_root(course("CS101")).expect("valid tree");
    assert!(!reqs.is_empty());
    assert_eq!(
        reqs.root(),
        Some(&ReqNode::Leaf(Requirement::CourseCompleted { code: "CS101".to_string() }))
    );
}

#[test]
fn course_eligibility_uses_its_requirements() {
    let course_record = prereqs::course::Course {
        title: "Algorithms".to_string(),
        credits: "3".to_string(),
        subject: "CS".to_string(),
        code: "CS301".to_string(),
        level: "undergraduate".to_string(),
        url: String::new(),
        department: "Computer Science".to_string(),
        faculty: "Science".to_string(),
        faculty_url: String::new(),
        terms: vec!["Fall".to_string()],
        description: String::new(),
        prerequisites: vec!["CS101".to_string()],
        corequisites: Vec::new(),
        requirements: Requirements::with_root(course("CS101")).expect("valid tree"),
    };
    assert!(course_record.eligibility(&student(&["CS101"])).satisfied);
    let outcome: Evaluation = course_record.eligibility(&student(&[]));
    assert!(!outcome.satisfied);
}
