//! Evaluation of a requirement tree against a student's academic history,
//! with an explanation of why an unsatisfied tree failed.

use vstd::prelude::*;

use crate::model::{ReqNode, ReqNodeView, Requirement, RequirementView, Requirements, Operator};

verus! {

/// Per-subject credit total of one student.
#[derive(Clone, Debug)]
pub struct SubjectCredits {
    pub subject: String,
    pub total: u32,
}

/// The evaluator's input: a student's academic history, as supplied by the
/// surrounding service layer.
#[derive(Clone, Debug)]
pub struct StudentContext {
    /// Codes of the courses the student has completed.
    pub completed: Vec<String>,
    /// Credit totals per subject.
    pub credits: Vec<SubjectCredits>,
    /// The student's current standing, as a rank: higher means further along.
    pub standing: u32,
}

/// The mathematical model of a [`StudentContext`].
pub struct StudentContextView {
    pub completed: Seq<Seq<char>>,
    pub credits: Seq<(Seq<char>, u32)>,
    pub standing: u32,
}

impl View for StudentContext {
    type V = StudentContextView;

    open spec fn view(&self) -> StudentContextView {
        StudentContextView {
            completed: Seq::new(self.completed@.len(), |i: int| self.completed@[i]@),
            credits: Seq::new(
                self.credits@.len(),
                |i: int| (self.credits@[i].subject@, self.credits@[i].total),
            ),
            standing: self.standing,
        }
    }
}

/// The credit total recorded for `subject`: the first matching entry counts,
/// and a subject without an entry has zero credits.
pub open spec fn credits_for(credits: Seq<(Seq<char>, u32)>, subject: Seq<char>) -> u32
    decreases credits,
{
    if credits.len() == 0 {
        0
    } else if credits[0].0 == subject {
        credits[0].1
    } else {
        credits_for(credits.drop_first(), subject)
    }
}

/// Looking up credits skips entries for other subjects.
proof fn lemma_credits_for_skip(credits: Seq<(Seq<char>, u32)>, subject: Seq<char>, i: int)
    requires
        0 <= i <= credits.len(),
        forall|j: int| 0 <= j < i ==> (#[trigger] credits[j]).0 != subject,
    ensures
        credits_for(credits, subject) == credits_for(credits.skip(i), subject),
    decreases i,
{
    if i > 0 {
        lemma_credits_for_skip(credits.drop_first(), subject, i - 1);
        assert(credits.drop_first().skip(i - 1) =~= credits.skip(i));
        assert forall|j: int| 0 <= j < i - 1 implies (#[trigger] credits.drop_first()[j]).0
            != subject by {
            assert(credits.drop_first()[j] == credits[j + 1]);
        }
    } else {
        assert(credits.skip(0) =~= credits);
    }
}

impl RequirementView {
    /// Whether this atomic condition holds of the given student.
    pub open spec fn satisfied_by(self, ctx: StudentContextView) -> bool {
        match self {
            RequirementView::CourseCompleted { code } => ctx.completed.contains(code),
            RequirementView::CreditsInSubject { subject, minimum } => {
                credits_for(ctx.credits, subject) >= minimum
            },
            RequirementView::MinimumStanding { level } => ctx.standing >= level,
        }
    }
}

impl ReqNodeView {
    /// Whether this tree holds of the given student: `And` needs every
    /// child, `Or` at least one, `Not` its single child to fail.
    pub open spec fn satisfied_by(self, ctx: StudentContextView) -> bool
        decreases self,
    {
        match self {
            ReqNodeView::Leaf(req) => req.satisfied_by(ctx),
            ReqNodeView::Branch { op, children } => match op {
                Operator::And => forall|i: int|
                    0 <= i < children.len() ==> (#[trigger] children[i]).satisfied_by(ctx),
                Operator::Or => exists|i: int|
                    0 <= i < children.len() && (#[trigger] children[i]).satisfied_by(ctx),
                Operator::Not => children.len() == 1 && !children[0].satisfied_by(ctx),
            },
        }
    }
}

/// Whether a whole `Requirements` value holds of the given student: an
/// empty value is unconditionally satisfied.
pub open spec fn requirements_satisfied_by(
    root: Option<ReqNodeView>,
    ctx: StudentContextView,
) -> bool {
    match root {
        None => true,
        Some(n) => n.satisfied_by(ctx),
    }
}

/// Empty requirements are satisfied by every student context.
pub proof fn lemma_empty_always_satisfied(ctx: StudentContextView)
    ensures
        requirements_satisfied_by(None, ctx),
{
}

/// The explanation of an unsatisfied subtree. An `And` branch fails because
/// of its first failing child, so its explanation is that child's; an `Or`
/// branch fails only when every alternative does, so its explanation lists
/// them all.
#[derive(Debug, PartialEq)]
pub enum Trace {
    /// This atomic requirement is unmet.
    Leaf(Requirement),
    /// Every alternative of an `Or` branch failed, each explained in order.
    AnyOf(Vec<Trace>),
    /// A negated condition was satisfied.
    Negation,
}

/// The mathematical model of a [`Trace`].
pub enum TraceView {
    Leaf(RequirementView),
    AnyOf(Seq<TraceView>),
    Negation,
}

impl View for Trace {
    type V = TraceView;

    open spec fn view(&self) -> TraceView
        decreases self,
    {
        match self {
            Trace::Leaf(req) => TraceView::Leaf(req@),
            Trace::AnyOf(ts) => TraceView::AnyOf(Trace::views_of(ts@)),
            Trace::Negation => TraceView::Negation,
        }
    }
}

impl Trace {
    /// The models of a sequence of traces, in order.
    pub open spec fn views_of(ts: Seq<Trace>) -> Seq<TraceView>
        decreases ts,
    {
        if ts.len() == 0 {
            Seq::empty()
        } else {
            seq![ts[0]@] + Self::views_of(ts.drop_first())
        }
    }

    /// `views_of` maps the sequence elementwise.
    pub proof fn lemma_views_of(ts: Seq<Trace>)
        ensures
            Self::views_of(ts).len() == ts.len(),
            forall|i: int|
                #![trigger Self::views_of(ts)[i]]
                #![trigger ts[i]@]
                0 <= i < ts.len() ==> Self::views_of(ts)[i] == ts[i]@,
        decreases ts,
    {
        if ts.len() > 0 {
            Self::lemma_views_of(ts.drop_first());
            assert(Self::views_of(ts) == seq![ts[0]@] + Self::views_of(ts.drop_first()));
            assert forall|i: int| 0 <= i < ts.len() implies Self::views_of(ts)[i]
                == #[trigger] ts[i]@ by {
                if i > 0 {
                    assert(ts.drop_first()[i - 1] == ts[i]);
                }
            }
        }
    }
}

impl ReqNodeView {
    /// The explanation of this tree's failure for the given student.
    /// Meaningful when the tree is well formed and unsatisfied.
    pub open spec fn explain(self, ctx: StudentContextView) -> TraceView
        decreases self,
    {
        match self {
            ReqNodeView::Leaf(req) => TraceView::Leaf(req),
            ReqNodeView::Branch { op, children } => match op {
                Operator::And => Self::explain_first_failing(children, ctx),
                Operator::Or => TraceView::AnyOf(Self::explanations_of(children, ctx)),
                Operator::Not => TraceView::Negation,
            },
        }
    }

    /// The explanation of the first failing node of `nodes`.
    pub open spec fn explain_first_failing(
        nodes: Seq<ReqNodeView>,
        ctx: StudentContextView,
    ) -> TraceView
        decreases nodes,
    {
        if nodes.len() == 0 {
            TraceView::Negation
        } else if !nodes[0].satisfied_by(ctx) {
            nodes[0].explain(ctx)
        } else {
            Self::explain_first_failing(nodes.drop_first(), ctx)
        }
    }

    /// The explanations of all of `nodes`, in order.
    pub open spec fn explanations_of(
        nodes: Seq<ReqNodeView>,
        ctx: StudentContextView,
    ) -> Seq<TraceView>
        decreases nodes,
    {
        if nodes.len() == 0 {
            Seq::empty()
        } else {
            seq![nodes[0].explain(ctx)] + Self::explanations_of(nodes.drop_first(), ctx)
        }
    }

    /// `explanations_of` maps the sequence elementwise.
    pub proof fn lemma_explanations_of(nodes: Seq<ReqNodeView>, ctx: StudentContextView)
        ensures
            Self::explanations_of(nodes, ctx).len() == nodes.len(),
            forall|i: int|
                #![trigger Self::explanations_of(nodes, ctx)[i]]
                #![trigger nodes[i].explain(ctx)]
                0 <= i < nodes.len() ==> Self::explanations_of(nodes, ctx)[i]
                    == nodes[i].explain(ctx),
        decreases nodes,
    {
        if nodes.len() > 0 {
            Self::lemma_explanations_of(nodes.drop_first(), ctx);
            assert forall|i: int| 0 <= i < nodes.len() implies Self::explanations_of(nodes, ctx)[i]
                == (#[trigger] nodes[i]).explain(ctx) by {
                if i > 0 {
                    assert(nodes.drop_first()[i - 1] == nodes[i]);
                }
            }
        }
    }

    /// Searching for the first failing node skips a satisfied prefix.
    pub proof fn lemma_explain_first_failing_skip(
        nodes: Seq<ReqNodeView>,
        ctx: StudentContextView,
        i: int,
    )
        requires
            0 <= i <= nodes.len(),
            forall|j: int| 0 <= j < i ==> (#[trigger] nodes[j]).satisfied_by(ctx),
        ensures
            Self::explain_first_failing(nodes, ctx) == Self::explain_first_failing(
                nodes.skip(i),
                ctx,
            ),
        decreases i,
    {
        if i > 0 {
            Self::lemma_explain_first_failing_skip(nodes.drop_first(), ctx, i - 1);
            assert(nodes.drop_first().skip(i - 1) =~= nodes.skip(i));
            assert forall|j: int| 0 <= j < i - 1 implies (#[trigger] nodes.drop_first()[j])
                .satisfied_by(ctx) by {
                assert(nodes.drop_first()[j] == nodes[j + 1]);
            }
        } else {
            assert(nodes.skip(0) =~= nodes);
        }
    }
}

impl StudentContext {
    /// Whether the student has completed the course with this code.
    #[verifier::loop_isolation(false)]
    pub fn has_completed(&self, code: &String) -> (b: bool)
        ensures
            b == self@.completed.contains(code@),
    {
        let mut i: usize = 0;
        while i < self.completed.len()
            invariant
                0 <= i <= self.completed.len(),
                forall|j: int| 0 <= j < i ==> self@.completed[j] != code@,
            decreases self.completed.len() - i,
        {
            let hit = self.completed[i] == *code;
            proof {
                assert(self@.completed[i as int] == self.completed@[i as int]@);
            }
            if hit {
                return true;
            }
            i += 1;
        }
        false
    }

    /// The student's credit total in `subject`.
    #[verifier::loop_isolation(false)]
    pub fn credits_in(&self, subject: &String) -> (c: u32)
        ensures
            c == credits_for(self@.credits, subject@),
    {
        let mut i: usize = 0;
        while i < self.credits.len()
            invariant
                0 <= i <= self.credits.len(),
                forall|j: int| 0 <= j < i ==> (#[trigger] self@.credits[j]).0 != subject@,
            decreases self.credits.len() - i,
        {
            let hit = self.credits[i].subject == *subject;
            proof {
                assert(self@.credits[i as int]
                    == (self.credits@[i as int].subject@, self.credits@[i as int].total));
            }
            if hit {
                proof {
                    lemma_credits_for_skip(self@.credits, subject@, i as int);
                    assert(self@.credits.skip(i as int)[0] == self@.credits[i as int]);
                }
                return self.credits[i].total;
            }
            i += 1;
        }
        proof {
            lemma_credits_for_skip(self@.credits, subject@, self@.credits.len() as int);
            assert(self@.credits.skip(self@.credits.len() as int)
                =~= Seq::<(Seq<char>, u32)>::empty());
        }
        0
    }
}

impl Requirement {
    /// Whether this atomic condition holds of the given student.
    pub fn satisfied_by(&self, ctx: &StudentContext) -> (b: bool)
        ensures
            b == self@.satisfied_by(ctx@),
    {
        match self {
            Requirement::CourseCompleted { code } => ctx.has_completed(code),
            Requirement::CreditsInSubject { subject, minimum } => {
                ctx.credits_in(subject) >= *minimum
            },
            Requirement::MinimumStanding { level } => ctx.standing >= *level,
        }
    }
}

impl Clone for Requirement {
    /// A clone models the same atomic condition.
    fn clone(&self) -> (res: Self)
        ensures
            res@ == self@,
    {
        match self {
            Requirement::CourseCompleted { code } => Requirement::CourseCompleted {
                code: code.clone(),
            },
            Requirement::CreditsInSubject { subject, minimum } => {
                Requirement::CreditsInSubject { subject: subject.clone(), minimum: *minimum }
            },
            Requirement::MinimumStanding { level } => Requirement::MinimumStanding {
                level: *level,
            },
        }
    }
}

impl ReqNode {
    /// Evaluate this well-formed subtree against a student: `None` when it
    /// is satisfied, otherwise its failure explanation.
    #[verifier::loop_isolation(false)]
    pub fn eval(&self, ctx: &StudentContext) -> (r: Option<Trace>)
        requires
            self@.wf(),
        ensures
            r is None <==> self@.satisfied_by(ctx@),
            r matches Some(t) ==> t@ == self@.explain(ctx@),
        decreases *self,
    {
        match self {
            ReqNode::Leaf(req) => {
                if req.satisfied_by(ctx) {
                    None
                } else {
                    Some(Trace::Leaf(req.clone()))
                }
            },
            ReqNode::Branch { op, children } => {
                proof {
                    ReqNode::lemma_views_of(children@);
                    assert(self->Branch_children == *children);
                }
                let ghost views = ReqNode::views_of(children@);
                match op {
                    Operator::And => {
                        let mut i: usize = 0;
                        while i < children.len()
                            invariant
                                0 <= i <= children.len(),
                                forall|j: int|
                                    0 <= j < i ==> (#[trigger] views[j]).satisfied_by(ctx@),
                            decreases children.len() - i,
                        {
                            proof {
                                assert(decreases_to!(*self => self->Branch_children));
                                assert(decreases_to!(self->Branch_children
                                    => self->Branch_children[i as int]));
                            }
                            let found = children[i].eval(ctx);
                            if let Some(t) = found {
                                proof {
                                    ReqNodeView::lemma_explain_first_failing_skip(
                                        views,
                                        ctx@,
                                        i as int,
                                    );
                                    assert(views.skip(i as int)[0] == views[i as int]);
                                }
                                return Some(t);
                            }
                            i += 1;
                        }
                        None
                    },
                    Operator::Or => {
                        let mut failures: Vec<Trace> = Vec::new();
                        let mut i: usize = 0;
                        while i < children.len()
                            invariant
                                0 <= i <= children.len(),
                                failures@.len() == i,
                                forall|j: int|
                                    0 <= j < i ==> !(#[trigger] views[j]).satisfied_by(ctx@),
                                forall|j: int|
                                    0 <= j < i ==> (#[trigger] failures@[j])@
                                        == views[j].explain(ctx@),
                            decreases children.len() - i,
                        {
                            proof {
                                assert(decreases_to!(*self => self->Branch_children));
                                assert(decreases_to!(self->Branch_children
                                    => self->Branch_children[i as int]));
                            }
                            match children[i].eval(ctx) {
                                None => {
                                    assert(views[i as int].satisfied_by(ctx@));
                                    return None;
                                },
                                Some(t) => {
                                    failures.push(t);
                                },
                            }
                            i += 1;
                        }
                        proof {
                            Trace::lemma_views_of(failures@);
                            ReqNodeView::lemma_explanations_of(views, ctx@);
                            assert forall|j: int| 0 <= j < children@.len() implies
                                Trace::views_of(failures@)[j] == ReqNodeView::explanations_of(
                                views,
                                ctx@,
                            )[j] by {
                                assert(Trace::views_of(failures@)[j] == failures@[j]@);
                                assert(failures@[j]@ == views[j].explain(ctx@));
                            }
                            assert(Trace::views_of(failures@)
                                =~= ReqNodeView::explanations_of(views, ctx@));
                        }
                        Some(Trace::AnyOf(failures))
                    },
                    Operator::Not => {
                        proof {
                            assert(decreases_to!(*self => self->Branch_children));
                            assert(decreases_to!(self->Branch_children
                                => self->Branch_children[0]));
                        }
                        match children[0].eval(ctx) {
                            None => Some(Trace::Negation),
                            Some(_) => None,
                        }
                    },
                }
            },
        }
    }
}

/// The outcome of evaluating a `Requirements` value against one student.
#[derive(Debug, PartialEq)]
pub struct Evaluation {
    /// Whether the student satisfies the requirements.
    pub satisfied: bool,
    /// Why they do not, when they do not.
    pub failure: Option<Trace>,
}

/// The mathematical model of an [`Evaluation`].
pub struct EvaluationView {
    pub satisfied: bool,
    pub failure: Option<TraceView>,
}

impl View for Evaluation {
    type V = EvaluationView;

    open spec fn view(&self) -> EvaluationView {
        EvaluationView {
            satisfied: self.satisfied,
            failure: match self.failure {
                None => None,
                Some(t) => Some(t@),
            },
        }
    }
}

/// What a correct evaluation outcome looks like: the boolean is the
/// satisfaction of the tree, and a failure explanation is present exactly on
/// failure and is the tree's explanation.
pub open spec fn outcome_of(
    root: Option<ReqNodeView>,
    ctx: StudentContextView,
    e: EvaluationView,
) -> bool {
    &&& e.satisfied == requirements_satisfied_by(root, ctx)
    &&& (e.failure is Some <==> !e.satisfied)
    &&& (e.failure matches Some(t) ==> root matches Some(n) && t == n.explain(ctx))
}

/// Evaluation is deterministic: the same tree and the same student context
/// admit exactly one outcome, so evaluating twice yields identical results.
pub proof fn lemma_evaluation_deterministic(
    root: Option<ReqNodeView>,
    ctx: StudentContextView,
    e1: EvaluationView,
    e2: EvaluationView,
)
    requires
        outcome_of(root, ctx, e1),
        outcome_of(root, ctx, e2),
    ensures
        e1.satisfied == e2.satisfied,
        e1.failure == e2.failure,
{
}

impl Requirements {
    /// Decide whether the student meets these requirements; on failure the
    /// outcome carries an explanation. Empty requirements are always met.
    pub fn evaluate(&self, ctx: &StudentContext) -> (r: Evaluation)
        ensures
            outcome_of(self@, ctx@, r@),
            r@.satisfied == requirements_satisfied_by(self@, ctx@),
            self@ is None ==> r@.satisfied,
    {
        proof {
            use_type_invariant(&*self);
        }
        match self.root() {
            None => Evaluation { satisfied: true, failure: None },
            Some(node) => match node.eval(ctx) {
                None => Evaluation { satisfied: true, failure: None },
                Some(t) => Evaluation { satisfied: false, failure: Some(t) },
            },
        }
    }
}

/// An `And` branch that fails reports the explanation of its first failing
/// child — later children, satisfied or not, do not change the report.
pub proof fn lemma_and_reports_first_failure(
    children: Seq<ReqNodeView>,
    ctx: StudentContextView,
    i: int,
)
    requires
        0 <= i < children.len(),
        !children[i].satisfied_by(ctx),
        forall|j: int| 0 <= j < i ==> (#[trigger] children[j]).satisfied_by(ctx),
    ensures
        !(ReqNodeView::Branch { op: Operator::And, children }).satisfied_by(ctx),
        (ReqNodeView::Branch { op: Operator::And, children }).explain(ctx) == children[i].explain(
            ctx,
        ),
{
    ReqNodeView::lemma_explain_first_failing_skip(children, ctx, i);
    assert(children.skip(i)[0] == children[i]);
}

/// An `Or` branch that fails reports every alternative: its explanation
/// lists the explanations of all children, in order.
pub proof fn lemma_or_reports_every_failure(children: Seq<ReqNodeView>, ctx: StudentContextView)
    requires
        forall|j: int| 0 <= j < children.len() ==> !(#[trigger] children[j]).satisfied_by(ctx),
    ensures
        !(ReqNodeView::Branch { op: Operator::Or, children }).satisfied_by(ctx),
        (ReqNodeView::Branch { op: Operator::Or, children }).explain(ctx) matches TraceView::AnyOf(
            ts,
        ) && ts.len() == children.len() && (forall|j: int|
            0 <= j < children.len() ==> ts[j] == (#[trigger] children[j]).explain(ctx)),
{
    ReqNodeView::lemma_explanations_of(children, ctx);
}

} // verus!
