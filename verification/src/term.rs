//! The RDF data model: IRIs, blank nodes, literals, and quads, with plain
//! string payloads. A term's mathematical image is a `TermV`; a quad's is a
//! `QuadV` of four term images.

use vstd::prelude::*;

verus! {

/// Mathematical image of a term.
pub enum TermV {
    Named { iri: Seq<char> },
    Blank { id: Seq<char> },
    Simple { value: Seq<char> },
    Lang { value: Seq<char>, language: Seq<char> },
    Typed { value: Seq<char>, datatype: Seq<char> },
    DefaultGraph,
}

/// Mathematical image of a quad.
pub struct QuadV {
    pub subject: TermV,
    pub predicate: TermV,
    pub object: TermV,
    pub graph_name: TermV,
}

/// The slot discipline of a quad: subjects are IRIs or blank nodes,
/// predicates are IRIs, objects are IRIs, blank nodes or literals, and graph
/// names are IRIs, blank nodes or the default-graph marker.
pub open spec fn wf_quad_view(q: QuadV) -> bool {
    &&& (q.subject is Named || q.subject is Blank)
    &&& q.predicate is Named
    &&& !(q.object is DefaultGraph)
    &&& (q.graph_name is Named || q.graph_name is Blank || q.graph_name is DefaultGraph)
}

/// An IRI.
#[derive(PartialEq, Eq, Debug, Hash)]
pub struct NamedNode {
    pub iri: String,
}

/// A blank node with a locally scoped identifier.
#[derive(PartialEq, Eq, Debug, Hash)]
pub struct BlankNode {
    pub id: String,
}

/// A literal: a lexical form with either a language tag or a datatype IRI.
#[derive(PartialEq, Eq, Debug, Hash)]
pub enum Literal {
    Simple { value: String },
    LanguageTagged { value: String, language: String },
    Typed { value: String, datatype: NamedNode },
}

/// A subject position term.
#[derive(PartialEq, Eq, Debug, Hash)]
pub enum Subject {
    NamedNode(NamedNode),
    BlankNode(BlankNode),
}

/// An object position term.
#[derive(PartialEq, Eq, Debug, Hash)]
pub enum Term {
    NamedNode(NamedNode),
    BlankNode(BlankNode),
    Literal(Literal),
}

/// A graph name position term.
#[derive(PartialEq, Eq, Debug, Hash)]
pub enum GraphName {
    NamedNode(NamedNode),
    BlankNode(BlankNode),
    DefaultGraph,
}

/// An IRI or a blank node: what may name a graph.
#[derive(PartialEq, Eq, Debug, Hash)]
pub enum NamedOrBlankNode {
    NamedNode(NamedNode),
    BlankNode(BlankNode),
}

/// A subject, predicate, object triple together with its graph name.
#[derive(PartialEq, Eq, Debug, Hash)]
pub struct Quad {
    pub subject: Subject,
    pub predicate: NamedNode,
    pub object: Term,
    pub graph_name: GraphName,
}

impl View for NamedNode {
    type V = TermV;

    open spec fn view(&self) -> TermV {
        TermV::Named { iri: self.iri@ }
    }
}

impl View for BlankNode {
    type V = TermV;

    open spec fn view(&self) -> TermV {
        TermV::Blank { id: self.id@ }
    }
}

impl View for Literal {
    type V = TermV;

    open spec fn view(&self) -> TermV {
        match self {
            Literal::Simple { value } => TermV::Simple { value: value@ },
            Literal::LanguageTagged { value, language } => TermV::Lang {
                value: value@,
                language: language@,
            },
            Literal::Typed { value, datatype } => TermV::Typed {
                value: value@,
                datatype: datatype.iri@,
            },
        }
    }
}

impl View for Subject {
    type V = TermV;

    open spec fn view(&self) -> TermV {
        match self {
            Subject::NamedNode(n) => n@,
            Subject::BlankNode(b) => b@,
        }
    }
}

impl View for Term {
    type V = TermV;

    open spec fn view(&self) -> TermV {
        match self {
            Term::NamedNode(n) => n@,
            Term::BlankNode(b) => b@,
            Term::Literal(l) => l@,
        }
    }
}

impl View for GraphName {
    type V = TermV;

    open spec fn view(&self) -> TermV {
        match self {
            GraphName::NamedNode(n) => n@,
            GraphName::BlankNode(b) => b@,
            GraphName::DefaultGraph => TermV::DefaultGraph,
        }
    }
}

impl View for NamedOrBlankNode {
    type V = TermV;

    open spec fn view(&self) -> TermV {
        match self {
            NamedOrBlankNode::NamedNode(n) => n@,
            NamedOrBlankNode::BlankNode(b) => b@,
        }
    }
}

impl View for Quad {
    type V = QuadV;

    open spec fn view(&self) -> QuadV {
        QuadV {
            subject: self.subject@,
            predicate: self.predicate@,
            object: self.object@,
            graph_name: self.graph_name@,
        }
    }
}

/// Every value of the quad type obeys the slot discipline.
pub proof fn lemma_quad_view_wf(q: &Quad)
    ensures
        wf_quad_view(q@),
{
}

impl Clone for NamedNode {
    fn clone(&self) -> (r: Self)
        ensures
            r@ == self@,
    {
        NamedNode { iri: self.iri.clone() }
    }
}

impl Clone for BlankNode {
    fn clone(&self) -> (r: Self)
        ensures
            r@ == self@,
    {
        BlankNode { id: self.id.clone() }
    }
}

impl Clone for Literal {
    fn clone(&self) -> (r: Self)
        ensures
            r@ == self@,
    {
        match self {
            Literal::Simple { value } => Literal::Simple { value: value.clone() },
            Literal::LanguageTagged { value, language } => Literal::LanguageTagged {
                value: value.clone(),
                language: language.clone(),
            },
            Literal::Typed { value, datatype } => Literal::Typed {
                value: value.clone(),
                datatype: datatype.clone(),
            },
        }
    }
}

impl Clone for Subject {
    fn clone(&self) -> (r: Self)
        ensures
            r@ == self@,
    {
        match self {
            Subject::NamedNode(n) => Subject::NamedNode(n.clone()),
            Subject::BlankNode(b) => Subject::BlankNode(b.clone()),
        }
    }
}

impl Clone for Term {
    fn clone(&self) -> (r: Self)
        ensures
            r@ == self@,
    {
        match self {
            Term::NamedNode(n) => Term::NamedNode(n.clone()),
            Term::BlankNode(b) => Term::BlankNode(b.clone()),
            Term::Literal(l) => Term::Literal(l.clone()),
        }
    }
}

impl Clone for GraphName {
    fn clone(&self) -> (r: Self)
        ensures
            r@ == self@,
    {
        match self {
            GraphName::NamedNode(n) => GraphName::NamedNode(n.clone()),
            GraphName::BlankNode(b) => GraphName::BlankNode(b.clone()),
            GraphName::DefaultGraph => GraphName::DefaultGraph,
        }
    }
}

impl Clone for NamedOrBlankNode {
    fn clone(&self) -> (r: Self)
        ensures
            r@ == self@,
    {
        match self {
            NamedOrBlankNode::NamedNode(n) => NamedOrBlankNode::NamedNode(n.clone()),
            NamedOrBlankNode::BlankNode(b) => NamedOrBlankNode::BlankNode(b.clone()),
        }
    }
}

impl Clone for Quad {
    fn clone(&self) -> (r: Self)
        ensures
            r@ == self@,
    {
        Quad {
            subject: self.subject.clone(),
            predicate: self.predicate.clone(),
            object: self.object.clone(),
            graph_name: self.graph_name.clone(),
        }
    }
}

impl NamedNode {
    pub fn new(iri: String) -> (r: Self)
        ensures
            r@ == (TermV::Named { iri: iri@ }),
    {
        NamedNode { iri }
    }
}

impl BlankNode {
    pub fn new(id: String) -> (r: Self)
        ensures
            r@ == (TermV::Blank { id: id@ }),
    {
        BlankNode { id }
    }
}

/// The IRI of the `xsd:string` datatype.
pub fn xsd_string() -> (r: NamedNode)
    ensures
        r@ == (TermV::Named { iri: "http://www.w3.org/2001/XMLSchema#string"@ }),
{
    NamedNode { iri: "http://www.w3.org/2001/XMLSchema#string".to_owned() }
}

/// The IRI of the `xsd:integer` datatype.
pub fn xsd_integer() -> (r: NamedNode)
    ensures
        r@ == (TermV::Named { iri: "http://www.w3.org/2001/XMLSchema#integer"@ }),
{
    NamedNode { iri: "http://www.w3.org/2001/XMLSchema#integer".to_owned() }
}

impl Literal {
    pub fn simple(value: String) -> (r: Self)
        ensures
            r@ == (TermV::Simple { value: value@ }),
    {
        Literal::Simple { value }
    }

    pub fn language_tagged(value: String, language: String) -> (r: Self)
        ensures
            r@ == (TermV::Lang { value: value@, language: language@ }),
    {
        Literal::LanguageTagged { value, language }
    }

    /// A typed literal; a datatype of `xsd:string` denotes a simple literal.
    pub fn typed(value: String, datatype: NamedNode) -> (r: Self)
        ensures
            r@ == if datatype.iri@ == "http://www.w3.org/2001/XMLSchema#string"@ {
                TermV::Simple { value: value@ }
            } else {
                TermV::Typed { value: value@, datatype: datatype.iri@ }
            },
    {
        let xsd_str = xsd_string();
        if datatype.iri == xsd_str.iri {
            Literal::Simple { value }
        } else {
            Literal::Typed { value, datatype }
        }
    }

    /// The `xsd:integer` literal with the canonical lexical form of `n`.
    pub fn integer(n: i64) -> (r: Self)
        ensures
            r@ == (TermV::Typed {
                value: crate::numeric::print_int(n as int),
                datatype: "http://www.w3.org/2001/XMLSchema#integer"@,
            }),
    {
        Literal::Typed { value: crate::numeric::print_i64(n), datatype: xsd_integer() }
    }
}

impl GraphName {
    pub fn is_default_graph(&self) -> (r: bool)
        ensures
            r == (self@ is DefaultGraph),
    {
        matches!(self, GraphName::DefaultGraph)
    }
}

impl NamedOrBlankNode {
    /// The same term in graph-name position.
    pub fn to_graph_name(&self) -> (r: GraphName)
        ensures
            r@ == self@,
    {
        match self {
            NamedOrBlankNode::NamedNode(n) => GraphName::NamedNode(n.clone()),
            NamedOrBlankNode::BlankNode(b) => GraphName::BlankNode(b.clone()),
        }
    }
}

impl Quad {
    pub fn new(
        subject: Subject,
        predicate: NamedNode,
        object: Term,
        graph_name: GraphName,
    ) -> (r: Self)
        ensures
            r@ == (QuadV {
                subject: subject@,
                predicate: predicate@,
                object: object@,
                graph_name: graph_name@,
            }),
    {
        Quad { subject, predicate, object, graph_name }
    }
}

} // verus!
