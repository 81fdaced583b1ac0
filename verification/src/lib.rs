//! A prerequisite requirement model for a course catalog.
//!
//! Courses carry a recursive logical expression (`Requirements`) describing
//! the conditions a student must satisfy to enroll: atomic conditions such as
//! "completed course X" combined with AND / OR / NOT operators. The library
//! offers validated construction of such trees, evaluation against a
//! student's academic history with an explanation of failures, and a
//! tagged-document encoding with a proved round trip.

pub mod model;
pub mod eval;
pub mod codec;
pub mod course;
pub mod review;

pub use crate::codec::{DocField, DocValue};
pub use crate::course::Course;
pub use crate::eval::{Evaluation, StudentContext, SubjectCredits, Trace};
pub use crate::model::{ConstructError, Operator, ReqNode, Requirement, Requirements};
pub use crate::review::Review;
