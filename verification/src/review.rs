//! Course reviews, and the duplicate-free merge of two review listings that
//! the read side performs when a query matches both a course and a user.

use vstd::prelude::*;

verus! {

/// One user's review of one course.
#[derive(Debug, PartialEq)]
pub struct Review {
    pub content: String,
    pub course_id: String,
    pub user_id: String,
}

/// The mathematical model of a [`Review`].
pub struct ReviewView {
    pub content: Seq<char>,
    pub course_id: Seq<char>,
    pub user_id: Seq<char>,
}

impl View for Review {
    type V = ReviewView;

    open spec fn view(&self) -> ReviewView {
        ReviewView { content: self.content@, course_id: self.course_id@, user_id: self.user_id@ }
    }
}

impl Clone for Review {
    /// A clone models the same review.
    fn clone(&self) -> (r: Self)
        ensures
            r@ == self@,
    {
        Review {
            content: self.content.clone(),
            course_id: self.course_id.clone(),
            user_id: self.user_id.clone(),
        }
    }
}

/// The models of a sequence of reviews, in order.
pub open spec fn review_views(rs: Seq<Review>) -> Seq<ReviewView>
    decreases rs,
{
    if rs.len() == 0 {
        Seq::empty()
    } else {
        seq![rs[0]@] + review_views(rs.drop_first())
    }
}

/// `review_views` maps the sequence elementwise.
pub proof fn lemma_review_views(rs: Seq<Review>)
    ensures
        review_views(rs).len() == rs.len(),
        forall|i: int|
            #![trigger review_views(rs)[i]]
            #![trigger rs[i]@]
            0 <= i < rs.len() ==> review_views(rs)[i] == rs[i]@,
    decreases rs,
{
    if rs.len() > 0 {
        lemma_review_views(rs.drop_first());
        assert(review_views(rs) == seq![rs[0]@] + review_views(rs.drop_first()));
        assert forall|i: int| 0 <= i < rs.len() implies review_views(rs)[i] == rs[i]@ by {
            if i > 0 {
                assert(rs.drop_first()[i - 1] == rs[i]);
            }
        }
    }
}

/// Appending one review appends its model.
proof fn lemma_review_views_push(rs: Seq<Review>, x: Review)
    ensures
        review_views(rs.push(x)) =~= review_views(rs).push(x@),
{
    lemma_review_views(rs.push(x));
    lemma_review_views(rs);
    assert forall|j: int| 0 <= j < rs.len() + 1 implies review_views(rs.push(x))[j]
        == review_views(rs).push(x@)[j] by {
        if j < rs.len() {
            assert(rs.push(x)[j] == rs[j]);
        } else {
            assert(rs.push(x)[j] == x);
        }
    }
}

/// Membership after an append: the old members plus the new one.
proof fn lemma_contains_push(s: Seq<ReviewView>, e: ReviewView, v: ReviewView)
    ensures
        s.push(e).contains(v) <==> (s.contains(v) || e == v),
{
    if s.contains(v) {
        let k = choose|k: int| 0 <= k < s.len() && s[k] == v;
        assert(s.push(e)[k] == v);
    }
    if e == v {
        assert(s.push(e)[s.len() as int] == v);
    }
    if s.push(e).contains(v) {
        let k = choose|k: int| 0 <= k < s.push(e).len() && s.push(e)[k] == v;
        if k < s.len() {
            assert(s[k] == v);
        }
    }
}

/// True exactly when the two reviews carry the same content and ids.
fn reviews_equal(a: &Review, b: &Review) -> (eq: bool)
    ensures
        eq == (a@ == b@),
{
    a.content == b.content && a.course_id == b.course_id && a.user_id == b.user_id
}

/// True exactly when a review with this model is already listed.
#[verifier::loop_isolation(false)]
fn contains_review(rs: &Vec<Review>, x: &Review) -> (found: bool)
    ensures
        found == review_views(rs@).contains(x@),
{
    proof {
        lemma_review_views(rs@);
    }
    let mut i: usize = 0;
    while i < rs.len()
        invariant
            0 <= i <= rs.len(),
            forall|j: int| 0 <= j < i ==> (#[trigger] rs@[j])@ != x@,
        decreases rs.len() - i,
    {
        if reviews_equal(&rs[i], x) {
            assert(review_views(rs@)[i as int] == x@);
            return true;
        }
        i += 1;
    }
    assert forall|k: int| 0 <= k < review_views(rs@).len() implies review_views(rs@)[k]
        != x@ by {
        assert(review_views(rs@)[k] == rs@[k]@);
    }
    false
}

/// Merge two review listings, keeping one copy of each distinct review: the
/// result lists exactly the reviews of either input, without duplicates.
#[verifier::loop_isolation(false)]
pub fn merge_unique(a: &Vec<Review>, b: &Vec<Review>) -> (merged: Vec<Review>)
    ensures
        forall|i: int|
            0 <= i < merged@.len() ==> review_views(a@).contains((#[trigger] merged@[i])@)
                || review_views(b@).contains(merged@[i]@),
        forall|k: int| 0 <= k < a@.len() ==> review_views(merged@).contains((#[trigger] a@[k])@),
        forall|k: int| 0 <= k < b@.len() ==> review_views(merged@).contains((#[trigger] b@[k])@),
        forall|i: int, j: int| 0 <= i < j < merged@.len() ==> merged@[i]@ != merged@[j]@,
{
    proof {
        lemma_review_views(a@);
        lemma_review_views(b@);
    }
    let mut out: Vec<Review> = Vec::new();
    let mut i: usize = 0;
    while i < a.len()
        invariant
            0 <= i <= a.len(),
            forall|j: int|
                0 <= j < out@.len() ==> review_views(a@).contains((#[trigger] out@[j])@),
            forall|k: int| 0 <= k < i ==> review_views(out@).contains((#[trigger] a@[k])@),
            forall|p: int, q: int| 0 <= p < q < out@.len() ==> out@[p]@ != out@[q]@,
        decreases a.len() - i,
    {
        let x = a[i].clone();
        proof {
            assert(review_views(a@)[i as int] == a@[i as int]@);
        }
        if !contains_review(&out, &x) {
            let ghost old_out = out@;
            out.push(x);
            proof {
                lemma_review_views_push(old_out, out@[old_out.len() as int]);
                lemma_review_views(out@);
                assert forall|v: ReviewView| review_views(old_out).contains(v) implies
                    review_views(out@).contains(v) by {
                    lemma_contains_push(review_views(old_out), out@[old_out.len() as int]@, v);
                }
                assert(review_views(out@).contains(a@[i as int]@));
            }
        }
        i += 1;
    }
    let mut i: usize = 0;
    while i < b.len()
        invariant
            0 <= i <= b.len(),
            forall|j: int|
                0 <= j < out@.len() ==> review_views(a@).contains((#[trigger] out@[j])@)
                    || review_views(b@).contains(out@[j]@),
            forall|k: int| 0 <= k < a@.len() ==> review_views(out@).contains((#[trigger] a@[k])@),
            forall|k: int| 0 <= k < i ==> review_views(out@).contains((#[trigger] b@[k])@),
            forall|p: int, q: int| 0 <= p < q < out@.len() ==> out@[p]@ != out@[q]@,
        decreases b.len() - i,
    {
        let x = b[i].clone();
        proof {
            assert(review_views(b@)[i as int] == b@[i as int]@);
        }
        if !contains_review(&out, &x) {
            let ghost old_out = out@;
            out.push(x);
            proof {
                lemma_review_views_push(old_out, out@[old_out.len() as int]);
                lemma_review_views(out@);
                assert forall|v: ReviewView| review_views(old_out).contains(v) implies
                    review_views(out@).contains(v) by {
                    lemma_contains_push(review_views(old_out), out@[old_out.len() as int]@, v);
                }
                assert(review_views(out@).contains(b@[i as int]@));
            }
        }
        i += 1;
    }
    out
}

} // verus!
