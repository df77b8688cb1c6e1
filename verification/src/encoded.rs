//! Interned images of RDF terms and quads.
//!
//! Every non-trivial lexical form is replaced by a 128-bit content hash; the
//! lexical form itself lives in the `id2str` side table. Equality of encoded
//! terms is structural equality of the tag and the inline payload, and a
//! total order on encoded terms gives each index its key order.

use vstd::prelude::*;

verus! {

/// A 128-bit content-addressed digest of a lexical form, used as a compact
/// surrogate for interned strings.
#[derive(Clone, Copy, PartialEq, Eq, Structural, Debug, Hash)]
pub struct StrHash {
    pub value: u128,
}

/// The fixed-width tagged image of a term: enough inline data to discriminate
/// the term kind and to answer `is_default_graph` without a string lookup.
/// Integer literals in canonical lexical form are stored inline by value so
/// that their key order agrees with their numeric order.
#[derive(Clone, Copy, PartialEq, Eq, Structural, Debug, Hash)]
pub enum EncodedTerm {
    DefaultGraph,
    NamedNode { iri_id: StrHash },
    BlankNode { id_id: StrHash },
    SimpleLiteral { value_id: StrHash },
    LangLiteral { value_id: StrHash, language_id: StrHash },
    TypedLiteral { value_id: StrHash, datatype_id: StrHash },
    IntegerLiteral { value: i64 },
}

/// The encoded image of a quad.
#[derive(Clone, Copy, PartialEq, Eq, Structural, Debug, Hash)]
pub struct EncodedQuad {
    pub subject: EncodedTerm,
    pub predicate: EncodedTerm,
    pub object: EncodedTerm,
    pub graph_name: EncodedTerm,
}

impl EncodedTerm {
    /// Whether this term is the distinguished default-graph marker.
    pub fn is_default_graph(&self) -> (r: bool)
        ensures
            r == (*self == EncodedTerm::DefaultGraph),
    {
        matches!(self, EncodedTerm::DefaultGraph)
    }
}

impl EncodedQuad {
    pub fn new(
        subject: EncodedTerm,
        predicate: EncodedTerm,
        object: EncodedTerm,
        graph_name: EncodedTerm,
    ) -> (r: Self)
        ensures
            r == (EncodedQuad { subject, predicate, object, graph_name }),
    {
        EncodedQuad { subject, predicate, object, graph_name }
    }
}

/// Rank of a term's tag in the total order on encoded terms. The order
/// between kinds is arbitrary but stable.
pub open spec fn term_rank(t: EncodedTerm) -> int {
    match t {
        EncodedTerm::DefaultGraph => 0,
        EncodedTerm::NamedNode { .. } => 1,
        EncodedTerm::BlankNode { .. } => 2,
        EncodedTerm::SimpleLiteral { .. } => 3,
        EncodedTerm::LangLiteral { .. } => 4,
        EncodedTerm::TypedLiteral { .. } => 5,
        EncodedTerm::IntegerLiteral { .. } => 6,
    }
}

/// First inline payload of a term, as an unbounded integer.
pub open spec fn term_pay0(t: EncodedTerm) -> int {
    match t {
        EncodedTerm::DefaultGraph => 0,
        EncodedTerm::NamedNode { iri_id } => iri_id.value as int,
        EncodedTerm::BlankNode { id_id } => id_id.value as int,
        EncodedTerm::SimpleLiteral { value_id } => value_id.value as int,
        EncodedTerm::LangLiteral { value_id, .. } => value_id.value as int,
        EncodedTerm::TypedLiteral { value_id, .. } => value_id.value as int,
        EncodedTerm::IntegerLiteral { value } => value as int,
    }
}

/// Second inline payload of a term, as an unbounded integer.
pub open spec fn term_pay1(t: EncodedTerm) -> int {
    match t {
        EncodedTerm::LangLiteral { language_id, .. } => language_id.value as int,
        EncodedTerm::TypedLiteral { datatype_id, .. } => datatype_id.value as int,
        _ => 0,
    }
}

/// Strict total order on encoded terms: lexicographic on
/// (tag rank, first payload, second payload), which determines the term.
pub open spec fn term_lt(a: EncodedTerm, b: EncodedTerm) -> bool {
    term_rank(a) < term_rank(b) || (term_rank(a) == term_rank(b) && (term_pay0(a) < term_pay0(b)
        || (term_pay0(a) == term_pay0(b) && term_pay1(a) < term_pay1(b))))
}

/// Two terms with equal rank and payloads are equal: the triple is injective.
pub proof fn lemma_term_order_total(a: EncodedTerm, b: EncodedTerm)
    ensures
        term_lt(a, b) || term_lt(b, a) || a == b,
        !(term_lt(a, b) && term_lt(b, a)),
        !(term_lt(a, b) && a == b),
{
}

pub proof fn lemma_term_lt_trans(a: EncodedTerm, b: EncodedTerm, c: EncodedTerm)
    requires
        term_lt(a, b),
        term_lt(b, c),
    ensures
        term_lt(a, c),
{
}

/// Three-way comparison result.
#[derive(Clone, Copy, PartialEq, Eq, Structural, Debug)]
pub enum TermOrder {
    Less,
    Equal,
    Greater,
}

/// Compares two encoded terms in the key order.
pub fn term_compare(a: &EncodedTerm, b: &EncodedTerm) -> (r: TermOrder)
    ensures
        r == TermOrder::Less <==> term_lt(*a, *b),
        r == TermOrder::Greater <==> term_lt(*b, *a),
        r == TermOrder::Equal <==> *a == *b,
{
    proof {
        lemma_term_order_total(*a, *b);
    }
    let ra = term_rank_exec(a);
    let rb = term_rank_exec(b);
    if ra < rb {
        TermOrder::Less
    } else if ra > rb {
        TermOrder::Greater
    } else {
        match (a, b) {
            (EncodedTerm::IntegerLiteral { value: va }, EncodedTerm::IntegerLiteral {
                value: vb,
            }) => {
                if va < vb {
                    TermOrder::Less
                } else if va > vb {
                    TermOrder::Greater
                } else {
                    TermOrder::Equal
                }
            },
            _ => {
                let (a0, a1) = term_payloads_exec(a);
                let (b0, b1) = term_payloads_exec(b);
                if a0 < b0 {
                    TermOrder::Less
                } else if a0 > b0 {
                    TermOrder::Greater
                } else if a1 < b1 {
                    TermOrder::Less
                } else if a1 > b1 {
                    TermOrder::Greater
                } else {
                    TermOrder::Equal
                }
            },
        }
    }
}

fn term_rank_exec(t: &EncodedTerm) -> (r: u8)
    ensures
        r as int == term_rank(*t),
{
    match t {
        EncodedTerm::DefaultGraph => 0,
        EncodedTerm::NamedNode { .. } => 1,
        EncodedTerm::BlankNode { .. } => 2,
        EncodedTerm::SimpleLiteral { .. } => 3,
        EncodedTerm::LangLiteral { .. } => 4,
        EncodedTerm::TypedLiteral { .. } => 5,
        EncodedTerm::IntegerLiteral { .. } => 6,
    }
}

/// Inline payloads of a term whose payloads are hashes (not an inline
/// integer, whose payload is signed and is compared separately).
fn term_payloads_exec(t: &EncodedTerm) -> (r: (u128, u128))
    requires
        !(t is IntegerLiteral),
    ensures
        r.0 as int == term_pay0(*t),
        r.1 as int == term_pay1(*t),
{
    match t {
        EncodedTerm::DefaultGraph => (0, 0),
        EncodedTerm::NamedNode { iri_id } => (iri_id.value, 0),
        EncodedTerm::BlankNode { id_id } => (id_id.value, 0),
        EncodedTerm::SimpleLiteral { value_id } => (value_id.value, 0),
        EncodedTerm::LangLiteral { value_id, language_id } => (value_id.value, language_id.value),
        EncodedTerm::TypedLiteral { value_id, datatype_id } => (value_id.value, datatype_id.value),
        EncodedTerm::IntegerLiteral { .. } => (0, 0),
    }
}

} // verus!
