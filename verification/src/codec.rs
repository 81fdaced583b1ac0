//! A stable tagged-document encoding of `Requirements`, fit for a document
//! database: a leaf encodes as `{ "kind": "course" | "credits" | "standing",
//! ... }`, a branch as `{ "kind": "and" | "or" | "not", "children": [...] }`,
//! and empty requirements as null. Decoding rejects ill-shaped documents and
//! malformed trees, and decoding an encoded value returns it exactly.

use vstd::prelude::*;

use crate::model::{
    arity_ok, ConstructError, Operator, ReqNode, ReqNodeView, Requirement, RequirementView,
    Requirements,
};

verus! {

/// A structured document value: the shape-level interchange form in which
/// requirement trees are stored and transmitted.
#[derive(Debug, PartialEq)]
pub enum DocValue {
    /// An explicit empty marker.
    Null,
    /// A string.
    Text(String),
    /// A signed integer.
    Int(i64),
    /// An ordered array of values.
    Array(Vec<DocValue>),
    /// An ordered list of named fields.
    Doc(Vec<DocField>),
}

/// One named field of a document.
#[derive(Debug, PartialEq)]
pub struct DocField {
    pub name: String,
    pub value: DocValue,
}

/// The mathematical model of a [`DocValue`].
pub enum DocValueView {
    Null,
    Text(Seq<char>),
    Int(i64),
    Array(Seq<DocValueView>),
    Doc(Seq<(Seq<char>, DocValueView)>),
}

impl View for DocValue {
    type V = DocValueView;

    open spec fn view(&self) -> DocValueView
        decreases self,
    {
        match self {
            DocValue::Null => DocValueView::Null,
            DocValue::Text(s) => DocValueView::Text(s@),
            DocValue::Int(v) => DocValueView::Int(*v),
            DocValue::Array(items) => DocValueView::Array(DocValue::views_of(items@)),
            DocValue::Doc(fields) => DocValueView::Doc(DocValue::field_views_of(fields@)),
        }
    }
}

impl View for DocField {
    type V = (Seq<char>, DocValueView);

    open spec fn view(&self) -> (Seq<char>, DocValueView)
        decreases self,
    {
        (self.name@, self.value@)
    }
}

impl DocValue {
    /// The models of a sequence of document values, in order.
    pub open spec fn views_of(items: Seq<DocValue>) -> Seq<DocValueView>
        decreases items,
    {
        if items.len() == 0 {
            Seq::empty()
        } else {
            seq![items[0]@] + Self::views_of(items.drop_first())
        }
    }

    /// The models of a sequence of fields, in order.
    pub open spec fn field_views_of(fields: Seq<DocField>) -> Seq<(Seq<char>, DocValueView)>
        decreases fields,
    {
        if fields.len() == 0 {
            Seq::empty()
        } else {
            seq![fields[0]@] + Self::field_views_of(fields.drop_first())
        }
    }

    /// `views_of` maps the sequence elementwise.
    pub proof fn lemma_views_of(items: Seq<DocValue>)
        ensures
            Self::views_of(items).len() == items.len(),
            forall|i: int|
                #![trigger Self::views_of(items)[i]]
                #![trigger items[i]@]
                0 <= i < items.len() ==> Self::views_of(items)[i] == items[i]@,
        decreases items,
    {
        if items.len() > 0 {
            Self::lemma_views_of(items.drop_first());
            assert(Self::views_of(items) == seq![items[0]@] + Self::views_of(items.drop_first()));
            assert forall|i: int| 0 <= i < items.len() implies Self::views_of(items)[i]
                == #[trigger] items[i]@ by {
                if i > 0 {
                    assert(items.drop_first()[i - 1] == items[i]);
                }
            }
        }
    }

    /// `field_views_of` maps the sequence elementwise.
    pub proof fn lemma_field_views_of(fields: Seq<DocField>)
        ensures
            Self::field_views_of(fields).len() == fields.len(),
            forall|i: int|
                #![trigger Self::field_views_of(fields)[i]]
                #![trigger fields[i]@]
                0 <= i < fields.len() ==> Self::field_views_of(fields)[i] == fields[i]@,
        decreases fields,
    {
        if fields.len() > 0 {
            Self::lemma_field_views_of(fields.drop_first());
            assert(Self::field_views_of(fields) == seq![fields[0]@] + Self::field_views_of(
                fields.drop_first(),
            ));
            assert forall|i: int| 0 <= i < fields.len() implies Self::field_views_of(fields)[i]
                == #[trigger] fields[i]@ by {
                if i > 0 {
                    assert(fields.drop_first()[i - 1] == fields[i]);
                }
            }
        }
    }
}

/// A decoding error, distinct from a construction error: either the
/// document's shape is not the expected tagged union, or the shape is right
/// but the tree it describes is malformed.
#[derive(Clone, Copy, Debug, PartialEq, Eq, Structural)]
pub enum DecodeError {
    /// The document does not match the expected tagged-union shape.
    Shape,
    /// The document is well shaped but describes a malformed tree.
    Construction(ConstructError),
}

/// The tag naming an operator in the encoding.
pub open spec fn op_tag(op: Operator) -> Seq<char> {
    match op {
        Operator::And => "and"@,
        Operator::Or => "or"@,
        Operator::Not => "not"@,
    }
}

/// The document encoding a single atomic requirement.
pub open spec fn encode_req(r: RequirementView) -> DocValueView {
    match r {
        RequirementView::CourseCompleted { code } => DocValueView::Doc(
            seq![("kind"@, DocValueView::Text("course"@)), ("code"@, DocValueView::Text(code))],
        ),
        RequirementView::CreditsInSubject { subject, minimum } => DocValueView::Doc(
            seq![
                ("kind"@, DocValueView::Text("credits"@)),
                ("subject"@, DocValueView::Text(subject)),
                ("minimum"@, DocValueView::Int(minimum as i64)),
            ],
        ),
        RequirementView::MinimumStanding { level } => DocValueView::Doc(
            seq![
                ("kind"@, DocValueView::Text("standing"@)),
                ("level"@, DocValueView::Int(level as i64)),
            ],
        ),
    }
}

/// The document encoding a requirement tree.
pub open spec fn encode_node(n: ReqNodeView) -> DocValueView
    decreases n,
{
    match n {
        ReqNodeView::Leaf(r) => encode_req(r),
        ReqNodeView::Branch { op, children } => DocValueView::Doc(
            seq![
                ("kind"@, DocValueView::Text(op_tag(op))),
                ("children"@, DocValueView::Array(encode_nodes(children))),
            ],
        ),
    }
}

/// The documents encoding each of `nodes`, in order.
pub open spec fn encode_nodes(nodes: Seq<ReqNodeView>) -> Seq<DocValueView>
    decreases nodes,
{
    if nodes.len() == 0 {
        Seq::empty()
    } else {
        seq![encode_node(nodes[0])] + encode_nodes(nodes.drop_first())
    }
}

/// `encode_nodes` maps the sequence elementwise.
pub proof fn lemma_encode_nodes(nodes: Seq<ReqNodeView>)
    ensures
        encode_nodes(nodes).len() == nodes.len(),
        forall|i: int|
            #![trigger encode_nodes(nodes)[i]]
            #![trigger encode_node(nodes[i])]
            0 <= i < nodes.len() ==> encode_nodes(nodes)[i] == encode_node(nodes[i]),
    decreases nodes,
{
    if nodes.len() > 0 {
        lemma_encode_nodes(nodes.drop_first());
        assert forall|i: int| 0 <= i < nodes.len() implies encode_nodes(nodes)[i] == encode_node(
            #[trigger] nodes[i],
        ) by {
            if i > 0 {
                assert(nodes.drop_first()[i - 1] == nodes[i]);
            }
        }
    }
}

/// The document encoding a whole `Requirements` value: null when empty.
pub open spec fn encode_requirements(root: Option<ReqNodeView>) -> DocValueView {
    match root {
        None => DocValueView::Null,
        Some(n) => encode_node(n),
    }
}

/// Decode one node from a document: reject anything but the expected tagged
/// shape, reject unknown kind tags, and reject branches whose child count
/// breaks the arity invariant.
pub open spec fn decode_node(d: DocValueView) -> Result<ReqNodeView, DecodeError>
    decreases d,
{
    match d {
        DocValueView::Doc(fields) => {
            if fields.len() < 1 || fields[0].0 != "kind"@ || !(fields[0].1 is Text) {
                Err(DecodeError::Shape)
            } else {
                let kind = fields[0].1->Text_0;
                if kind == "course"@ {
                    if fields.len() == 2 && fields[1].0 == "code"@ && fields[1].1 is Text {
                        Ok(ReqNodeView::Leaf(RequirementView::CourseCompleted {
                            code: fields[1].1->Text_0,
                        }))
                    } else {
                        Err(DecodeError::Shape)
                    }
                } else if kind == "credits"@ {
                    if fields.len() == 3 && fields[1].0 == "subject"@ && fields[1].1 is Text
                        && fields[2].0 == "minimum"@ && fields[2].1 is Int && 0 <= fields[2].1->Int_0
                        <= u32::MAX {
                        Ok(ReqNodeView::Leaf(RequirementView::CreditsInSubject {
                            subject: fields[1].1->Text_0,
                            minimum: fields[2].1->Int_0 as u32,
                        }))
                    } else {
                        Err(DecodeError::Shape)
                    }
                } else if kind == "standing"@ {
                    if fields.len() == 2 && fields[1].0 == "level"@ && fields[1].1 is Int && 0
                        <= fields[1].1->Int_0 <= u32::MAX {
                        Ok(ReqNodeView::Leaf(RequirementView::MinimumStanding {
                            level: fields[1].1->Int_0 as u32,
                        }))
                    } else {
                        Err(DecodeError::Shape)
                    }
                } else if kind == "and"@ || kind == "or"@ || kind == "not"@ {
                    let op = if kind == "and"@ {
                        Operator::And
                    } else if kind == "or"@ {
                        Operator::Or
                    } else {
                        Operator::Not
                    };
                    if fields.len() == 2 && fields[1].0 == "children"@ && fields[1].1 is Array {
                        match decode_nodes(fields[1].1->Array_0) {
                            Err(e) => Err(e),
                            Ok(children) => {
                                if arity_ok(op, children.len()) {
                                    Ok(ReqNodeView::Branch { op, children })
                                } else if op is Not {
                                    Err(DecodeError::Construction(ConstructError::NotArity))
                                } else {
                                    Err(DecodeError::Construction(ConstructError::EmptyBranch))
                                }
                            },
                        }
                    } else {
                        Err(DecodeError::Shape)
                    }
                } else {
                    Err(DecodeError::Construction(ConstructError::UnknownKind))
                }
            }
        },
        _ => Err(DecodeError::Shape),
    }
}

/// Decode a sequence of nodes, left to right, stopping at the first error.
pub open spec fn decode_nodes(ds: Seq<DocValueView>) -> Result<Seq<ReqNodeView>, DecodeError>
    decreases ds,
{
    if ds.len() == 0 {
        Ok(Seq::empty())
    } else {
        match decode_node(ds[0]) {
            Err(e) => Err(e),
            Ok(n) => match decode_nodes(ds.drop_first()) {
                Err(e) => Err(e),
                Ok(rest) => Ok(seq![n] + rest),
            },
        }
    }
}

/// Decode a whole `Requirements` document: null means empty requirements.
pub open spec fn decode_requirements(d: DocValueView) -> Result<
    Option<ReqNodeView>,
    DecodeError,
> {
    match d {
        DocValueView::Null => Ok(None),
        _ => match decode_node(d) {
            Ok(n) => Ok(Some(n)),
            Err(e) => Err(e),
        },
    }
}

/// A successfully decoded tree is well formed.
pub proof fn lemma_decode_node_wf(d: DocValueView)
    requires
        decode_node(d) is Ok,
    ensures
        decode_node(d)->Ok_0.wf(),
    decreases d,
{
    match d {
        DocValueView::Doc(fields) => {
            if fields.len() >= 1 && fields[0].1 is Text {
                let kind = fields[0].1->Text_0;
                if kind == "and"@ || kind == "or"@ || kind == "not"@ {
                    if fields.len() == 2 && fields[1].1 is Array {
                        lemma_decode_nodes_wf(fields[1].1->Array_0);
                    }
                }
            }
        },
        _ => {},
    }
}

/// Every node of a successfully decoded sequence is well formed.
pub proof fn lemma_decode_nodes_wf(ds: Seq<DocValueView>)
    requires
        decode_nodes(ds) is Ok,
    ensures
        decode_nodes(ds)->Ok_0.len() == ds.len(),
        forall|i: int|
            0 <= i < ds.len() ==> (#[trigger] decode_nodes(ds)->Ok_0[i]).wf(),
    decreases ds,
{
    if ds.len() > 0 {
        lemma_decode_node_wf(ds[0]);
        lemma_decode_nodes_wf(ds.drop_first());
        let head = decode_node(ds[0])->Ok_0;
        let rest = decode_nodes(ds.drop_first())->Ok_0;
        assert(decode_nodes(ds)->Ok_0 == seq![head] + rest);
        assert forall|i: int| 0 <= i < ds.len() implies (#[trigger] decode_nodes(ds)->Ok_0[
            i
        ]).wf() by {
            if i > 0 {
                assert(decode_nodes(ds)->Ok_0[i] == rest[i - 1]);
            }
        }
    }
}

/// Elementwise characterization of a successful sequence decode: used to
/// assemble a loop's per-element results into the sequence-level spec.
pub proof fn lemma_decode_nodes_from_elements(ds: Seq<DocValueView>, ns: Seq<ReqNodeView>)
    requires
        ds.len() == ns.len(),
        forall|i: int|
            0 <= i < ds.len() ==> decode_node(#[trigger] ds[i]) == Ok::<
                ReqNodeView,
                DecodeError,
            >(ns[i]),
    ensures
        decode_nodes(ds) == Ok::<Seq<ReqNodeView>, DecodeError>(ns),
    decreases ds,
{
    if ds.len() == 0 {
        assert(ns =~= Seq::<ReqNodeView>::empty());
    } else {
        assert forall|i: int| 0 <= i < ds.drop_first().len() implies decode_node(
            #[trigger] ds.drop_first()[i],
        ) == Ok::<ReqNodeView, DecodeError>(ns.drop_first()[i]) by {
            assert(ds.drop_first()[i] == ds[i + 1]);
            assert(ns.drop_first()[i] == ns[i + 1]);
        }
        lemma_decode_nodes_from_elements(ds.drop_first(), ns.drop_first());
        assert(decode_node(ds[0]) == Ok::<ReqNodeView, DecodeError>(ns[0]));
        assert(seq![ns[0]] + ns.drop_first() =~= ns);
    }
}

/// A failing element fails the whole sequence decode: the first error wins.
pub proof fn lemma_decode_nodes_error(ds: Seq<DocValueView>, i: int, e: DecodeError)
    requires
        0 <= i < ds.len(),
        forall|j: int| 0 <= j < i ==> decode_node(#[trigger] ds[j]) is Ok,
        decode_node(ds[i]) == Err::<ReqNodeView, DecodeError>(e),
    ensures
        decode_nodes(ds) == Err::<Seq<ReqNodeView>, DecodeError>(e),
    decreases i,
{
    if i > 0 {
        assert forall|j: int| 0 <= j < i - 1 implies decode_node(
            #[trigger] ds.drop_first()[j],
        ) is Ok by {
            assert(ds.drop_first()[j] == ds[j + 1]);
        }
        assert(ds.drop_first()[i - 1] == ds[i]);
        lemma_decode_nodes_error(ds.drop_first(), i - 1, e);
        assert(decode_node(ds[0]) is Ok);
    }
}

/// The encoding's kind tags are pairwise distinct.
proof fn lemma_tags_distinct()
    ensures
        "course"@ != "credits"@,
        "course"@ != "standing"@,
        "credits"@ != "standing"@,
        "and"@ != "course"@ && "and"@ != "credits"@ && "and"@ != "standing"@,
        "or"@ != "course"@ && "or"@ != "credits"@ && "or"@ != "standing"@ && "or"@ != "and"@,
        "not"@ != "course"@ && "not"@ != "credits"@ && "not"@ != "standing"@ && "not"@ != "and"@
            && "not"@ != "or"@,
{
    reveal_strlit("course");
    reveal_strlit("credits");
    reveal_strlit("standing");
    reveal_strlit("and");
    reveal_strlit("or");
    reveal_strlit("not");
    assert("course"@.len() == 6);
    assert("credits"@.len() == 7);
    assert("standing"@.len() == 8);
    assert("and"@.len() == 3);
    assert("or"@.len() == 2);
    assert("not"@.len() == 3);
    assert("and"@[0] == 'a' && "not"@[0] == 'n');
}

/// Round trip for one well-formed tree: decoding its encoding returns it
/// exactly.
pub proof fn lemma_node_round_trip(n: ReqNodeView)
    requires
        n.wf(),
    ensures
        decode_node(encode_node(n)) == Ok::<ReqNodeView, DecodeError>(n),
    decreases n,
{
    lemma_tags_distinct();
    match n {
        ReqNodeView::Leaf(_) => {},
        ReqNodeView::Branch { op, children } => {
            lemma_nodes_round_trip(children);
        },
    }
}

/// Round trip for a sequence of well-formed trees.
pub proof fn lemma_nodes_round_trip(ns: Seq<ReqNodeView>)
    requires
        forall|i: int| 0 <= i < ns.len() ==> (#[trigger] ns[i]).wf(),
    ensures
        decode_nodes(encode_nodes(ns)) == Ok::<Seq<ReqNodeView>, DecodeError>(ns),
    decreases ns,
{
    if ns.len() > 0 {
        lemma_node_round_trip(ns[0]);
        assert forall|i: int| 0 <= i < ns.drop_first().len() implies (#[trigger] ns.drop_first()[
            i
        ]).wf() by {
            assert(ns.drop_first()[i] == ns[i + 1]);
        }
        lemma_nodes_round_trip(ns.drop_first());
        assert(encode_nodes(ns)[0] == encode_node(ns[0]));
        assert(encode_nodes(ns).drop_first() =~= encode_nodes(ns.drop_first()));
        assert(seq![ns[0]] + ns.drop_first() =~= ns);
    } else {
        assert(ns =~= Seq::<ReqNodeView>::empty());
    }
}

/// Round trip for a whole `Requirements` value, the empty one included.
pub proof fn lemma_requirements_round_trip(root: Option<ReqNodeView>)
    requires
        root matches Some(n) ==> n.wf(),
    ensures
        decode_requirements(encode_requirements(root)) == Ok::<Option<ReqNodeView>, DecodeError>(
            root,
        ),
{
    match root {
        None => {},
        Some(n) => {
            lemma_node_round_trip(n);
            assert(!(encode_node(n) is Null));
        },
    }
}

/// True exactly when the string equals the literal.
fn is_lit(s: &String, lit: &str) -> (b: bool)
    ensures
        b == (s@ == lit@),
{
    *s == lit.to_owned()
}

impl Requirement {
    /// Encode this atomic requirement as a tagged document.
    pub fn encode(&self) -> (d: DocValue)
        ensures
            d@ == encode_req(self@),
    {
        match self {
            Requirement::CourseCompleted { code } => {
                let mut fields: Vec<DocField> = Vec::new();
                fields.push(
                    DocField { name: "kind".to_owned(), value: DocValue::Text("course".to_owned()) },
                );
                fields.push(DocField { name: "code".to_owned(), value: DocValue::Text(code.clone()) });
                proof {
                    DocValue::lemma_field_views_of(fields@);
                    assert(DocValue::field_views_of(fields@) =~= seq![
                        ("kind"@, DocValueView::Text("course"@)),
                        ("code"@, DocValueView::Text(code@)),
                    ]);
                }
                DocValue::Doc(fields)
            },
            Requirement::CreditsInSubject { subject, minimum } => {
                let mut fields: Vec<DocField> = Vec::new();
                fields.push(
                    DocField {
                        name: "kind".to_owned(),
                        value: DocValue::Text("credits".to_owned()),
                    },
                );
                fields.push(
                    DocField { name: "subject".to_owned(), value: DocValue::Text(subject.clone()) },
                );
                fields.push(
                    DocField { name: "minimum".to_owned(), value: DocValue::Int(*minimum as i64) },
                );
                proof {
                    DocValue::lemma_field_views_of(fields@);
                    assert(DocValue::field_views_of(fields@) =~= seq![
                        ("kind"@, DocValueView::Text("credits"@)),
                        ("subject"@, DocValueView::Text(subject@)),
                        ("minimum"@, DocValueView::Int(*minimum as i64)),
                    ]);
                }
                DocValue::Doc(fields)
            },
            Requirement::MinimumStanding { level } => {
                let mut fields: Vec<DocField> = Vec::new();
                fields.push(
                    DocField {
                        name: "kind".to_owned(),
                        value: DocValue::Text("standing".to_owned()),
                    },
                );
                fields.push(
                    DocField { name: "level".to_owned(), value: DocValue::Int(*level as i64) },
                );
                proof {
                    DocValue::lemma_field_views_of(fields@);
                    assert(DocValue::field_views_of(fields@) =~= seq![
                        ("kind"@, DocValueView::Text("standing"@)),
                        ("level"@, DocValueView::Int(*level as i64)),
                    ]);
                }
                DocValue::Doc(fields)
            },
        }
    }
}

impl ReqNode {
    /// Encode this tree as a tagged document.
    #[verifier::loop_isolation(false)]
    pub fn encode(&self) -> (d: DocValue)
        ensures
            d@ == encode_node(self@),
        decreases *self,
    {
        match self {
            ReqNode::Leaf(req) => req.encode(),
            ReqNode::Branch { op, children } => {
                proof {
                    ReqNode::lemma_views_of(children@);
                    assert(self->Branch_children == *children);
                }
                let ghost views = ReqNode::views_of(children@);
                let mut items: Vec<DocValue> = Vec::new();
                let mut i: usize = 0;
                while i < children.len()
                    invariant
                        0 <= i <= children.len(),
                        items@.len() == i,
                        forall|j: int|
                            0 <= j < i ==> (#[trigger] items@[j])@ == encode_node(views[j]),
                    decreases children.len() - i,
                {
                    proof {
                        assert(decreases_to!(*self => self->Branch_children));
                        assert(decreases_to!(self->Branch_children
                            => self->Branch_children[i as int]));
                    }
                    let child_doc = children[i].encode();
                    items.push(child_doc);
                    i += 1;
                }
                let ghost items_view = items@;
                proof {
                    DocValue::lemma_views_of(items_view);
                    lemma_encode_nodes(views);
                    assert(DocValue::views_of(items_view) =~= encode_nodes(views));
                }
                let tag: String = match op {
                    Operator::And => "and".to_owned(),
                    Operator::Or => "or".to_owned(),
                    Operator::Not => "not".to_owned(),
                };
                let mut fields: Vec<DocField> = Vec::new();
                fields.push(DocField { name: "kind".to_owned(), value: DocValue::Text(tag) });
                fields.push(
                    DocField { name: "children".to_owned(), value: DocValue::Array(items) },
                );
                proof {
                    DocValue::lemma_field_views_of(fields@);
                    assert(DocValue::field_views_of(fields@) =~= seq![
                        ("kind"@, DocValueView::Text(op_tag(*op))),
                        ("children"@, DocValueView::Array(encode_nodes(views))),
                    ]);
                }
                DocValue::Doc(fields)
            },
        }
    }

    /// Decode a tree from a tagged document, rejecting ill-shaped documents
    /// and malformed trees.
    #[verifier::loop_isolation(false)]
    pub fn decode(d: &DocValue) -> (r: Result<ReqNode, DecodeError>)
        ensures
            r matches Ok(n) ==> decode_node(d@) == Ok::<ReqNodeView, DecodeError>(n@),
            r matches Err(e) ==> decode_node(d@) == Err::<ReqNodeView, DecodeError>(e),
        decreases *d,
    {
        let fields = match d {
            DocValue::Doc(fields) => fields,
            _ => { return Err(DecodeError::Shape); },
        };
        proof {
            DocValue::lemma_field_views_of(fields@);
            assert(d->Doc_0 == *fields);
        }
        let ghost fv = DocValue::field_views_of(fields@);
        if fields.len() < 1 {
            return Err(DecodeError::Shape);
        }
        if !is_lit(&fields[0].name, "kind") {
            assert(fv[0].0 != "kind"@);
            return Err(DecodeError::Shape);
        }
        let kind = match &fields[0].value {
            DocValue::Text(s) => s,
            _ => {
                assert(!(fv[0].1 is Text));
                return Err(DecodeError::Shape);
            },
        };
        proof {
            assert(fv[0] == fields@[0]@);
            assert(fv[0].1 == DocValueView::Text(kind@));
        }
        if is_lit(kind, "course") {
            if fields.len() != 2 || !is_lit(&fields[1].name, "code") {
                return Err(DecodeError::Shape);
            }
            match &fields[1].value {
                DocValue::Text(code) => {
                    assert(fv[1].1 == DocValueView::Text(code@));
                    Ok(ReqNode::Leaf(Requirement::CourseCompleted { code: code.clone() }))
                },
                _ => {
                    assert(!(fv[1].1 is Text));
                    Err(DecodeError::Shape)
                },
            }
        } else if is_lit(kind, "credits") {
            if fields.len() != 3 || !is_lit(&fields[1].name, "subject") || !is_lit(
                &fields[2].name,
                "minimum",
            ) {
                return Err(DecodeError::Shape);
            }
            let subject = match &fields[1].value {
                DocValue::Text(s) => s,
                _ => {
                    assert(!(fv[1].1 is Text));
                    return Err(DecodeError::Shape);
                },
            };
            match &fields[2].value {
                DocValue::Int(v) => {
                    assert(fv[2].1 == DocValueView::Int(*v));
                    if 0 <= *v && *v <= u32::MAX as i64 {
                        Ok(
                            ReqNode::Leaf(
                                Requirement::CreditsInSubject {
                                    subject: subject.clone(),
                                    minimum: *v as u32,
                                },
                            ),
                        )
                    } else {
                        Err(DecodeError::Shape)
                    }
                },
                _ => {
                    assert(!(fv[2].1 is Int));
                    Err(DecodeError::Shape)
                },
            }
        } else if is_lit(kind, "standing") {
            if fields.len() != 2 || !is_lit(&fields[1].name, "level") {
                return Err(DecodeError::Shape);
            }
            match &fields[1].value {
                DocValue::Int(v) => {
                    assert(fv[1].1 == DocValueView::Int(*v));
                    if 0 <= *v && *v <= u32::MAX as i64 {
                        Ok(ReqNode::Leaf(Requirement::MinimumStanding { level: *v as u32 }))
                    } else {
                        Err(DecodeError::Shape)
                    }
                },
                _ => {
                    assert(!(fv[1].1 is Int));
                    Err(DecodeError::Shape)
                },
            }
        } else {
            let is_and = is_lit(kind, "and");
            let is_or = is_lit(kind, "or");
            let is_not = is_lit(kind, "not");
            if !is_and && !is_or && !is_not {
                return Err(DecodeError::Construction(ConstructError::UnknownKind));
            }
            let op = if is_and {
                Operator::And
            } else if is_or {
                Operator::Or
            } else {
                Operator::Not
            };
            if fields.len() != 2 || !is_lit(&fields[1].name, "children") {
                return Err(DecodeError::Shape);
            }
            let items = match &fields[1].value {
                DocValue::Array(items) => items,
                _ => {
                    assert(!(fv[1].1 is Array));
                    return Err(DecodeError::Shape);
                },
            };
            proof {
                DocValue::lemma_views_of(items@);
                assert(fv[1].1 == DocValueView::Array(DocValue::views_of(items@)));
            }
            let ghost dviews = DocValue::views_of(items@);
            let mut out: Vec<ReqNode> = Vec::new();
            let mut i: usize = 0;
            while i < items.len()
                invariant
                    0 <= i <= items.len(),
                    out@.len() == i,
                    forall|j: int|
                        0 <= j < i ==> decode_node(#[trigger] dviews[j]) == Ok::<
                            ReqNodeView,
                            DecodeError,
                        >(out@[j]@),
                decreases items.len() - i,
            {
                proof {
                    assert(decreases_to!(*d => d->Doc_0));
                    assert(decreases_to!(d->Doc_0 => d->Doc_0[1]));
                    assert(decreases_to!(d->Doc_0[1] => d->Doc_0[1].value));
                    assert(decreases_to!(d->Doc_0[1].value => d->Doc_0[1].value->Array_0));
                    assert(decreases_to!(d->Doc_0[1].value->Array_0
                        => d->Doc_0[1].value->Array_0[i as int]));
                    assert(d->Doc_0[1].value->Array_0 == *items);
                }
                match ReqNode::decode(&items[i]) {
                    Ok(n) => {
                        out.push(n);
                    },
                    Err(e) => {
                        proof {
                            lemma_decode_nodes_error(dviews, i as int, e);
                        }
                        return Err(e);
                    },
                }
                i += 1;
            }
            proof {
                ReqNode::lemma_views_of(out@);
                lemma_decode_nodes_from_elements(dviews, ReqNode::views_of(out@));
            }
            let count = out.len();
            let ok = match op {
                Operator::And => count >= 1,
                Operator::Or => count >= 1,
                Operator::Not => count == 1,
            };
            if ok {
                Ok(ReqNode::Branch { op, children: out })
            } else if matches!(op, Operator::Not) {
                Err(DecodeError::Construction(ConstructError::NotArity))
            } else {
                Err(DecodeError::Construction(ConstructError::EmptyBranch))
            }
        }
    }
}

impl Requirements {
    /// Encode these requirements as a document: null when empty, else the
    /// root's tagged document.
    pub fn encode(&self) -> (d: DocValue)
        ensures
            d@ == encode_requirements(self@),
    {
        match self.root() {
            None => DocValue::Null,
            Some(node) => node.encode(),
        }
    }

    /// Decode requirements from a document, rejecting ill-shaped documents
    /// and malformed trees; a decoded value is always well formed.
    pub fn decode(d: &DocValue) -> (r: Result<Requirements, DecodeError>)
        ensures
            r matches Ok(reqs) ==> decode_requirements(d@) == Ok::<
                Option<ReqNodeView>,
                DecodeError,
            >(reqs@),
            r matches Err(e) ==> decode_requirements(d@) == Err::<
                Option<ReqNodeView>,
                DecodeError,
            >(e),
    {
        if matches!(d, DocValue::Null) {
            return Ok(Requirements::empty());
        }
        match ReqNode::decode(d) {
            Ok(node) => {
                proof {
                    lemma_decode_node_wf(d@);
                    node@.lemma_wf_iff_no_violation();
                }
                match Requirements::with_root(node) {
                    Ok(reqs) => Ok(reqs),
                    Err(_) => {
                        proof {
                            assert(false);
                        }
                        Err(DecodeError::Shape)
                    },
                }
            },
            Err(e) => Err(e),
        }
    }
}

} // verus!
