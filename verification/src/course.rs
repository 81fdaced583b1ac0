//! The catalog course record that owns a prerequisite tree.

use vstd::prelude::*;

use crate::eval::{outcome_of, Evaluation, StudentContext};
use crate::model::Requirements;

verus! {

/// A course record. Its `requirements` tree is constructed once, when the
/// record is created or updated, and replaced wholesale on update — never
/// mutated in place.
#[derive(Debug)]
pub struct Course {
    pub title: String,
    pub credits: String,
    pub subject: String,
    pub code: String,
    pub level: String,
    pub url: String,
    pub department: String,
    pub faculty: String,
    pub faculty_url: String,
    pub terms: Vec<String>,
    pub description: String,
    pub prerequisites: Vec<String>,
    pub corequisites: Vec<String>,
    /// The structured prerequisite tree this library models.
    pub requirements: Requirements,
}

impl Course {
    /// Whether the student may enroll: the course's requirement tree
    /// evaluated against the student's academic history.
    pub fn eligibility(&self, ctx: &StudentContext) -> (r: Evaluation)
        ensures
            outcome_of(self.requirements@, ctx@, r@),
    {
        self.requirements.evaluate(ctx)
    }
}

} // verus!
