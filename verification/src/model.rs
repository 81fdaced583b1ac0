//! The requirement tree: atomic conditions, logical operators, and the
//! recursive node type, together with validated construction.

use vstd::prelude::*;

verus! {

/// The logical combinator applied to the children of a branch node.
#[derive(Clone, Copy, Debug, PartialEq, Eq, Structural)]
pub enum Operator {
    /// Every child must be satisfied.
    And,
    /// At least one child must be satisfied.
    Or,
    /// The single child must be unsatisfied.
    Not,
}

/// An atomic eligibility condition, evaluable against a student's history.
#[derive(Debug, PartialEq)]
pub enum Requirement {
    /// The student has completed the course with this code.
    CourseCompleted { code: String },
    /// The student has accumulated at least `minimum` credits in `subject`.
    CreditsInSubject { subject: String, minimum: u32 },
    /// The student's standing is at least the given rank.
    MinimumStanding { level: u32 },
}

/// The mathematical model of a [`Requirement`]: the same variants over
/// sequences of characters instead of heap-allocated strings.
pub enum RequirementView {
    CourseCompleted { code: Seq<char> },
    CreditsInSubject { subject: Seq<char>, minimum: u32 },
    MinimumStanding { level: u32 },
}

impl View for Requirement {
    type V = RequirementView;

    open spec fn view(&self) -> RequirementView {
        match self {
            Requirement::CourseCompleted { code } => RequirementView::CourseCompleted {
                code: code@,
            },
            Requirement::CreditsInSubject { subject, minimum } => {
                RequirementView::CreditsInSubject { subject: subject@, minimum: *minimum }
            },
            Requirement::MinimumStanding { level } => RequirementView::MinimumStanding {
                level: *level,
            },
        }
    }
}

/// A node of the prerequisite tree: either an atomic condition or an
/// operator applied to an ordered sequence of child nodes.
#[derive(Debug, PartialEq)]
pub enum ReqNode {
    Leaf(Requirement),
    Branch { op: Operator, children: Vec<ReqNode> },
}

/// The mathematical model of a [`ReqNode`].
pub enum ReqNodeView {
    Leaf(RequirementView),
    Branch { op: Operator, children: Seq<ReqNodeView> },
}

impl View for ReqNode {
    type V = ReqNodeView;

    open spec fn view(&self) -> ReqNodeView
        decreases self,
    {
        match self {
            ReqNode::Leaf(req) => ReqNodeView::Leaf(req@),
            ReqNode::Branch { op, children } => ReqNodeView::Branch {
                op: *op,
                children: Self::views_of(children@),
            },
        }
    }
}

impl ReqNode {
    /// The models of a sequence of nodes, in order.
    pub open spec fn views_of(nodes: Seq<ReqNode>) -> Seq<ReqNodeView>
        decreases nodes,
    {
        if nodes.len() == 0 {
            Seq::empty()
        } else {
            seq![nodes[0]@] + Self::views_of(nodes.drop_first())
        }
    }

    /// `views_of` maps the sequence elementwise.
    pub proof fn lemma_views_of(nodes: Seq<ReqNode>)
        ensures
            Self::views_of(nodes).len() == nodes.len(),
            forall|i: int|
                #![trigger Self::views_of(nodes)[i]]
                #![trigger nodes[i]@]
                0 <= i < nodes.len() ==> Self::views_of(nodes)[i] == nodes[i]@,
        decreases nodes,
    {
        if nodes.len() > 0 {
            Self::lemma_views_of(nodes.drop_first());
            assert(Self::views_of(nodes) == seq![nodes[0]@] + Self::views_of(nodes.drop_first()));
            assert forall|i: int| 0 <= i < nodes.len() implies Self::views_of(nodes)[i]
                == #[trigger] nodes[i]@ by {
                if i > 0 {
                    assert(nodes.drop_first()[i - 1] == nodes[i]);
                }
            }
        }
    }
}

/// Whether `count` children are acceptable for a branch with operator `op`:
/// `And` and `Or` need at least one child, `Not` exactly one.
pub open spec fn arity_ok(op: Operator, count: nat) -> bool {
    match op {
        Operator::And => count >= 1,
        Operator::Or => count >= 1,
        Operator::Not => count == 1,
    }
}

impl ReqNodeView {
    /// Well-formedness of a tree: every branch has an acceptable number of
    /// children for its operator.
    pub open spec fn wf(self) -> bool
        decreases self,
    {
        match self {
            ReqNodeView::Leaf(_) => true,
            ReqNodeView::Branch { op, children } => {
                &&& arity_ok(op, children.len())
                &&& forall|i: int| 0 <= i < children.len() ==> (#[trigger] children[i]).wf()
            },
        }
    }
}

/// A construction error: the shape of a proposed tree breaks an invariant.
/// Malformed trees are rejected here, before they can be stored or evaluated.
#[derive(Clone, Copy, Debug, PartialEq, Eq, Structural)]
pub enum ConstructError {
    /// An `And` or `Or` branch was given zero children.
    EmptyBranch,
    /// A `Not` branch was given a number of children other than one.
    NotArity,
    /// A stored document carried a requirement kind tag this library does
    /// not know.
    UnknownKind,
}

impl ReqNodeView {
    /// The first invariant violation in this tree, in depth-first order,
    /// or `None` if the tree is well formed.
    pub open spec fn first_violation(self) -> Option<ConstructError>
        decreases self,
    {
        match self {
            ReqNodeView::Leaf(_) => None,
            ReqNodeView::Branch { op, children } => {
                if !arity_ok(op, children.len()) {
                    if op is Not {
                        Some(ConstructError::NotArity)
                    } else {
                        Some(ConstructError::EmptyBranch)
                    }
                } else {
                    Self::first_violation_in(children)
                }
            },
        }
    }

    /// The first invariant violation among `nodes`, scanned left to right.
    pub open spec fn first_violation_in(nodes: Seq<ReqNodeView>) -> Option<ConstructError>
        decreases nodes,
    {
        if nodes.len() == 0 {
            None
        } else if nodes[0].first_violation() is Some {
            nodes[0].first_violation()
        } else {
            Self::first_violation_in(nodes.drop_first())
        }
    }

    /// A tree is well formed exactly when no violation is found in it.
    pub proof fn lemma_wf_iff_no_violation(self)
        ensures
            self.wf() <==> self.first_violation() is None,
        decreases self,
    {
        match self {
            ReqNodeView::Leaf(_) => {},
            ReqNodeView::Branch { op, children } => {
                if arity_ok(op, children.len()) {
                    Self::lemma_wf_iff_no_violation_in(children);
                }
            },
        }
    }

    /// No violation among `nodes` exactly when every node is well formed.
    pub proof fn lemma_wf_iff_no_violation_in(nodes: Seq<ReqNodeView>)
        ensures
            (Self::first_violation_in(nodes) is None) <==> (forall|i: int|
                0 <= i < nodes.len() ==> (#[trigger] nodes[i]).wf()),
        decreases nodes,
    {
        if nodes.len() > 0 {
            nodes[0].lemma_wf_iff_no_violation();
            Self::lemma_wf_iff_no_violation_in(nodes.drop_first());
            if Self::first_violation_in(nodes) is None {
                assert forall|i: int| 0 <= i < nodes.len() implies (#[trigger] nodes[i]).wf() by {
                    if i > 0 {
                        assert(nodes.drop_first()[i - 1] == nodes[i]);
                    }
                }
            } else {
                if nodes[0].first_violation() is None {
                    let j = choose|j: int|
                        0 <= j < nodes.drop_first().len() && !(#[trigger] nodes.drop_first()[j]).wf();
                    assert(nodes[j + 1] == nodes.drop_first()[j]);
                }
            }
        }
    }

    /// Scanning skips a violation-free prefix: if the first `i` nodes are
    /// clean, the scan's outcome is the outcome on the rest.
    pub proof fn lemma_first_violation_skip(nodes: Seq<ReqNodeView>, i: int)
        requires
            0 <= i <= nodes.len(),
            forall|j: int| 0 <= j < i ==> (#[trigger] nodes[j]).first_violation() is None,
        ensures
            Self::first_violation_in(nodes) == Self::first_violation_in(nodes.skip(i)),
        decreases i,
    {
        if i > 0 {
            Self::lemma_first_violation_skip(nodes.drop_first(), i - 1);
            assert(nodes[0].first_violation() is None);
            assert(nodes.drop_first().skip(i - 1) =~= nodes.skip(i));
            assert forall|j: int| 0 <= j < i - 1 implies (#[trigger] nodes.drop_first()[j])
                .first_violation() is None by {
                assert(nodes.drop_first()[j] == nodes[j + 1]);
            }
        } else {
            assert(nodes.skip(0) =~= nodes);
        }
    }
}

impl ReqNode {
    /// Build a leaf node from an atomic requirement.
    pub fn leaf(req: Requirement) -> (r: ReqNode)
        ensures
            r@ == ReqNodeView::Leaf(req@),
    {
        ReqNode::Leaf(req)
    }

    /// Build a branch node, rejecting an unacceptable child count for the
    /// operator. The children themselves are not re-examined here; see
    /// [`ReqNode::validate`] and [`Requirements::with_root`] for whole-tree
    /// validation.
    pub fn branch(op: Operator, children: Vec<ReqNode>) -> (r: Result<ReqNode, ConstructError>)
        ensures
            r matches Ok(n) ==> n@ == (ReqNodeView::Branch {
                op,
                children: ReqNode::views_of(children@),
            }),
            r is Ok <==> arity_ok(op, children@.len()),
            r matches Err(e) ==> !arity_ok(op, children@.len()) && e == (if op is Not {
                ConstructError::NotArity
            } else {
                ConstructError::EmptyBranch
            }),
    {
        let ok = match op {
            Operator::And => children.len() >= 1,
            Operator::Or => children.len() >= 1,
            Operator::Not => children.len() == 1,
        };
        if ok {
            Ok(ReqNode::Branch { op, children })
        } else if matches!(op, Operator::Not) {
            Err(ConstructError::NotArity)
        } else {
            Err(ConstructError::EmptyBranch)
        }
    }

    /// Scan the whole tree for the first invariant violation in depth-first
    /// order, or report that it is well formed.
    #[verifier::loop_isolation(false)]
    pub fn validate(&self) -> (r: Option<ConstructError>)
        ensures
            r == self@.first_violation(),
        decreases *self,
    {
        match self {
            ReqNode::Leaf(_) => None,
            ReqNode::Branch { op, children } => {
                proof {
                    ReqNode::lemma_views_of(children@);
                }
                let ok = match op {
                    Operator::And => children.len() >= 1,
                    Operator::Or => children.len() >= 1,
                    Operator::Not => children.len() == 1,
                };
                if !ok {
                    if matches!(op, Operator::Not) {
                        Some(ConstructError::NotArity)
                    } else {
                        Some(ConstructError::EmptyBranch)
                    }
                } else {
                    let ghost views = ReqNode::views_of(children@);
                    let mut i: usize = 0;
                    while i < children.len()
                        invariant
                            0 <= i <= children.len(),
                            views == ReqNode::views_of(children@),
                            views.len() == children@.len(),
                            forall|j: int| 0 <= j < children@.len() ==> views[j] == #[trigger] children@[j]@,
                            forall|j: int|
                                0 <= j < i ==> (#[trigger] views[j]).first_violation() is None,
                        decreases children.len() - i,
                    {
                        proof {
                            assert(decreases_to!(*self => self->Branch_children));
                            assert(decreases_to!(self->Branch_children
                                => self->Branch_children[i as int]));
                            assert(self->Branch_children == *children);
                        }
                        let found = children[i].validate();
                        if found.is_some() {
                            proof {
                                ReqNodeView::lemma_first_violation_skip(views, i as int);
                                assert(views.skip(i as int)[0] == views[i as int]);
                            }
                            return found;
                        }
                        i += 1;
                    }
                    proof {
                        assert(self->Branch_children == *children);
                        ReqNodeView::lemma_first_violation_skip(views, views.len() as int);
                        assert(views.skip(views.len() as int) =~= Seq::<ReqNodeView>::empty());
                    }
                    None
                }
            },
        }
    }
}

/// The prerequisites of a course: either empty, meaning unconditional
/// eligibility, or a well-formed requirement tree. Values of this type are
/// only obtainable through validating constructors, so every stored tree
/// upholds the arity invariants.
#[derive(Debug, PartialEq)]
pub struct Requirements {
    root: Option<ReqNode>,
}

impl View for Requirements {
    type V = Option<ReqNodeView>;

    closed spec fn view(&self) -> Option<ReqNodeView> {
        match self.root {
            None => None,
            Some(n) => Some(n@),
        }
    }
}

impl Requirements {
    /// Every stored tree is well formed; upheld as a type invariant by the
    /// validating constructors.
    #[verifier::type_invariant]
    pub open spec fn well_formed(self) -> bool {
        self@ matches Some(n) ==> n.wf()
    }

    /// No prerequisites at all.
    pub fn empty() -> (r: Requirements)
        ensures
            r@ is None,
    {
        Requirements { root: None }
    }

    /// Wrap a requirement tree, validating it in full; a malformed tree is
    /// rejected with its first violation in depth-first order.
    pub fn with_root(root: ReqNode) -> (r: Result<Requirements, ConstructError>)
        ensures
            r matches Ok(reqs) ==> reqs@ == Some(root@) && root@.wf(),
            r is Ok <==> root@.first_violation() is None,
            r matches Err(e) ==> root@.first_violation() == Some(e),
    {
        match root.validate() {
            None => {
                proof {
                    root@.lemma_wf_iff_no_violation();
                }
                Ok(Requirements { root: Some(root) })
            },
            Some(e) => Err(e),
        }
    }

    /// True exactly when there are no prerequisites.
    pub fn is_empty(&self) -> (b: bool)
        ensures
            b == (self@ is None),
    {
        self.root.is_none()
    }

    /// The root node, if any.
    pub fn root(&self) -> (r: Option<&ReqNode>)
        ensures
            r matches Some(n) ==> self@ == Some(n@),
            r is None <==> self@ is None,
    {
        match &self.root {
            None => None,
            Some(n) => Some(n),
        }
    }
}

} // verus!
