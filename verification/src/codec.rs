//! The term codec: interning lexical forms by a 128-bit content hash,
//! encoding model terms into their fixed-width images, and decoding images
//! back into terms through the string side table.

use crate::encoded::{EncodedQuad, EncodedTerm, StrHash};
use crate::error::{CorruptionError, StorageError};
use crate::numeric::{canonical_int_value, is_canonical_int, parse_i64, print_i64, print_int};
use crate::strmap::StrMap;
use crate::term::{
    BlankNode, GraphName, Literal, NamedNode, NamedOrBlankNode, Quad, QuadV, Subject, Term, TermV,
    wf_quad_view, xsd_integer,
};
use vstd::prelude::*;
use vstd::string::StringSliceAdditionalSpecFns;

verus! {

/// Offset basis of the 128-bit FNV-1a hash.
pub const FNV_OFFSET: u128 = 0x6c62272e07bb014262b821756295c58d;

/// Prime of the 128-bit FNV-1a hash.
pub const FNV_PRIME: u128 = 0x0000000001000000000000000000013B;

/// The 128-bit FNV-1a digest of a byte string.
pub open spec fn bytes_hash(b: Seq<u8>) -> u128
    decreases b.len(),
{
    if b.len() == 0 {
        FNV_OFFSET
    } else {
        (bytes_hash(b.drop_last()) ^ (b.last() as u128)).wrapping_mul(FNV_PRIME)
    }
}

/// The content hash of a lexical form: the digest of its UTF-8 bytes.
pub open spec fn str_hash(s: Seq<char>) -> u128 {
    bytes_hash(vstd::utf8::encode_utf8(s))
}

pub open spec fn hash_of(s: Seq<char>) -> StrHash {
    StrHash { value: str_hash(s) }
}

/// Computes the content hash of a lexical form.
pub fn compute_str_hash(s: &str) -> (r: StrHash)
    ensures
        r == hash_of(s@),
{
    let b = s.as_bytes();
    let n = b.len();
    let mut acc: u128 = FNV_OFFSET;
    let mut i: usize = 0;
    proof {
        assert(b@.take(0) =~= Seq::<u8>::empty());
    }
    while i < n
        invariant
            n == b@.len(),
            0 <= i <= n,
            b@ == s.spec_bytes(),
            acc == bytes_hash(b@.take(i as int)),
        decreases n - i,
    {
        acc = (acc ^ (b[i] as u128)).wrapping_mul(FNV_PRIME);
        i = i + 1;
        proof {
            assert(b@.take(i as int).drop_last() =~= b@.take(i - 1));
            assert(b@.take(i as int).last() == b@[i - 1]);
        }
    }
    proof {
        assert(b@.take(n as int) =~= b@);
    }
    StrHash { value: acc }
}

/// The `xsd:integer` datatype IRI.
pub open spec fn xsd_integer_iri() -> Seq<char> {
    "http://www.w3.org/2001/XMLSchema#integer"@
}

/// The fixed-width image of a term. A typed literal whose datatype is
/// `xsd:integer` and whose lexical form is canonical is inlined by value;
/// every other lexical form is replaced by its content hash.
pub open spec fn encode_term_spec(t: TermV) -> EncodedTerm {
    match t {
        TermV::Named { iri } => EncodedTerm::NamedNode { iri_id: hash_of(iri) },
        TermV::Blank { id } => EncodedTerm::BlankNode { id_id: hash_of(id) },
        TermV::Simple { value } => EncodedTerm::SimpleLiteral { value_id: hash_of(value) },
        TermV::Lang { value, language } => EncodedTerm::LangLiteral {
            value_id: hash_of(value),
            language_id: hash_of(language),
        },
        TermV::Typed { value, datatype } => {
            if datatype == xsd_integer_iri() && is_canonical_int(value) {
                EncodedTerm::IntegerLiteral { value: canonical_int_value(value) as i64 }
            } else {
                EncodedTerm::TypedLiteral {
                    value_id: hash_of(value),
                    datatype_id: hash_of(datatype),
                }
            }
        },
        TermV::DefaultGraph => EncodedTerm::DefaultGraph,
    }
}

/// The image of a quad: its four term images.
pub open spec fn encode_quad_spec(q: QuadV) -> EncodedQuad {
    EncodedQuad {
        subject: encode_term_spec(q.subject),
        predicate: encode_term_spec(q.predicate),
        object: encode_term_spec(q.object),
        graph_name: encode_term_spec(q.graph_name),
    }
}

/// The side-table rows that the image of a term relies on: each hashed
/// lexical form, keyed by its hash. Inlined terms rely on none.
pub open spec fn term_strs(t: TermV) -> Map<u128, Seq<char>> {
    match t {
        TermV::Named { iri } => Map::empty().insert(str_hash(iri), iri),
        TermV::Blank { id } => Map::empty().insert(str_hash(id), id),
        TermV::Simple { value } => Map::empty().insert(str_hash(value), value),
        TermV::Lang { value, language } => Map::empty().insert(str_hash(value), value).insert(
            str_hash(language),
            language,
        ),
        TermV::Typed { value, datatype } => {
            if datatype == xsd_integer_iri() && is_canonical_int(value) {
                Map::empty()
            } else {
                Map::empty().insert(str_hash(value), value).insert(str_hash(datatype), datatype)
            }
        },
        TermV::DefaultGraph => Map::empty(),
    }
}

/// The side-table rows that the image of a quad relies on.
pub open spec fn quad_strs(q: QuadV) -> Map<u128, Seq<char>> {
    term_strs(q.subject).union_prefer_right(term_strs(q.predicate)).union_prefer_right(
        term_strs(q.object),
    ).union_prefer_right(term_strs(q.graph_name))
}

/// Every side-table row a term contributes is keyed by the hash of its own
/// lexical form.
pub proof fn lemma_term_strs_hashes(t: TermV)
    ensures
        forall|h: u128| #[trigger]
            term_strs(t).contains_key(h) ==> str_hash(term_strs(t)[h]) == h,
{
}

/// The same for all the rows a quad contributes.
pub proof fn lemma_quad_strs_hashes(q: QuadV)
    ensures
        forall|h: u128| #[trigger]
            quad_strs(q).contains_key(h) ==> str_hash(quad_strs(q)[h]) == h,
{
    lemma_term_strs_hashes(q.subject);
    lemma_term_strs_hashes(q.predicate);
    lemma_term_strs_hashes(q.object);
    lemma_term_strs_hashes(q.graph_name);
    assert forall|h: u128| #[trigger]
        quad_strs(q).contains_key(h) implies str_hash(quad_strs(q)[h]) == h by {
        if term_strs(q.graph_name).contains_key(h) {
        } else if term_strs(q.object).contains_key(h) {
        } else if term_strs(q.predicate).contains_key(h) {
        } else {
            assert(term_strs(q.subject).contains_key(h));
        }
    }
}

/// The lexical forms that the image of a term replaces by their hashes.
pub open spec fn hashed_strings(t: TermV) -> Set<Seq<char>> {
    match t {
        TermV::Named { iri } => Set::empty().insert(iri),
        TermV::Blank { id } => Set::empty().insert(id),
        TermV::Simple { value } => Set::empty().insert(value),
        TermV::Lang { value, language } => Set::empty().insert(value).insert(language),
        TermV::Typed { value, datatype } => {
            if datatype == xsd_integer_iri() && is_canonical_int(value) {
                Set::empty()
            } else {
                Set::empty().insert(value).insert(datatype)
            }
        },
        TermV::DefaultGraph => Set::empty(),
    }
}

/// Whether the side table resolves the hash of each of the term's lexical
/// forms to that very form. This fails only where two distinct forms share
/// a 128-bit content hash.
pub open spec fn resolves_term(t: TermV, m: Map<u128, Seq<char>>) -> bool {
    forall|s: Seq<char>|
        hashed_strings(t).contains(s) ==> m.contains_key(str_hash(s)) && m[str_hash(s)] == s
}

// Pure encoders, one per term position, mirroring the slot types.
/// The canonical-form test behind integer inlining: the value, when the
/// lexical form is the canonical decimal form of an `i64`.
fn as_inline_integer(value: &String) -> (r: Option<i64>)
    ensures
        match r {
            Some(n) => is_canonical_int(value@) && n as int == canonical_int_value(value@),
            None => !is_canonical_int(value@),
        },
{
    match parse_i64(value.as_str()) {
        Some(n) => {
            let printed = print_i64(n);
            if printed == *value {
                Some(n)
            } else {
                None
            }
        },
        None => None,
    }
}

pub fn encode_named_node(n: &NamedNode) -> (r: EncodedTerm)
    ensures
        r == encode_term_spec(n@),
{
    EncodedTerm::NamedNode { iri_id: compute_str_hash(n.iri.as_str()) }
}

pub fn encode_blank_node(b: &BlankNode) -> (r: EncodedTerm)
    ensures
        r == encode_term_spec(b@),
{
    EncodedTerm::BlankNode { id_id: compute_str_hash(b.id.as_str()) }
}

pub fn encode_literal(l: &Literal) -> (r: EncodedTerm)
    ensures
        r == encode_term_spec(l@),
{
    match l {
        Literal::Simple { value } => EncodedTerm::SimpleLiteral {
            value_id: compute_str_hash(value.as_str()),
        },
        Literal::LanguageTagged { value, language } => EncodedTerm::LangLiteral {
            value_id: compute_str_hash(value.as_str()),
            language_id: compute_str_hash(language.as_str()),
        },
        Literal::Typed { value, datatype } => {
            let xsd_int = xsd_integer();
            if datatype.iri == xsd_int.iri {
                match as_inline_integer(value) {
                    Some(n) => EncodedTerm::IntegerLiteral { value: n },
                    None => EncodedTerm::TypedLiteral {
                        value_id: compute_str_hash(value.as_str()),
                        datatype_id: compute_str_hash(datatype.iri.as_str()),
                    },
                }
            } else {
                EncodedTerm::TypedLiteral {
                    value_id: compute_str_hash(value.as_str()),
                    datatype_id: compute_str_hash(datatype.iri.as_str()),
                }
            }
        },
    }
}

pub fn encode_subject(s: &Subject) -> (r: EncodedTerm)
    ensures
        r == encode_term_spec(s@),
{
    match s {
        Subject::NamedNode(n) => encode_named_node(n),
        Subject::BlankNode(b) => encode_blank_node(b),
    }
}

pub fn encode_term(t: &Term) -> (r: EncodedTerm)
    ensures
        r == encode_term_spec(t@),
{
    match t {
        Term::NamedNode(n) => encode_named_node(n),
        Term::BlankNode(b) => encode_blank_node(b),
        Term::Literal(l) => encode_literal(l),
    }
}

pub fn encode_graph_name(g: &GraphName) -> (r: EncodedTerm)
    ensures
        r == encode_term_spec(g@),
{
    match g {
        GraphName::NamedNode(n) => encode_named_node(n),
        GraphName::BlankNode(b) => encode_blank_node(b),
        GraphName::DefaultGraph => EncodedTerm::DefaultGraph,
    }
}

pub fn encode_named_or_blank_node(g: &NamedOrBlankNode) -> (r: EncodedTerm)
    ensures
        r == encode_term_spec(g@),
{
    match g {
        NamedOrBlankNode::NamedNode(n) => encode_named_node(n),
        NamedOrBlankNode::BlankNode(b) => encode_blank_node(b),
    }
}

pub fn encode_quad(q: &Quad) -> (r: EncodedQuad)
    ensures
        r == encode_quad_spec(q@),
{
    EncodedQuad {
        subject: encode_subject(&q.subject),
        predicate: encode_named_node(&q.predicate),
        object: encode_term(&q.object),
        graph_name: encode_graph_name(&q.graph_name),
    }
}

/// Records one lexical form in the side table under its content hash.
pub fn intern_string(m: &mut StrMap, s: &str) -> (h: StrHash)
    ensures
        h == hash_of(s@),
        final(m)@ == old(m)@.insert(str_hash(s@), s@),
{
    let h = compute_str_hash(s);
    m.insert(h, s);
    h
}

/// Records the side-table rows that the image of `t` relies on.
pub fn insert_term_strs(m: &mut StrMap, t: &Term)
    ensures
        final(m)@ == old(m)@.union_prefer_right(term_strs(t@)),
{
    match t {
        Term::NamedNode(n) => {
            intern_string(m, n.iri.as_str());
        },
        Term::BlankNode(b) => {
            intern_string(m, b.id.as_str());
        },
        Term::Literal(l) => {
            match l {
                Literal::Simple { value } => {
                    intern_string(m, value.as_str());
                },
                Literal::LanguageTagged { value, language } => {
                    intern_string(m, value.as_str());
                    intern_string(m, language.as_str());
                },
                Literal::Typed { value, datatype } => {
                    let xsd_int = xsd_integer();
                    let inline = if datatype.iri == xsd_int.iri {
                        matches!(as_inline_integer(value), Some(_))
                    } else {
                        false
                    };
                    if !inline {
                        intern_string(m, value.as_str());
                        intern_string(m, datatype.iri.as_str());
                    }
                },
            }
        },
    }
    proof {
        assert(final(m)@ =~= old(m)@.union_prefer_right(term_strs(t@)));
    }
}

/// Records the side-table rows for a subject.
pub fn insert_subject_strs(m: &mut StrMap, s: &Subject)
    ensures
        final(m)@ == old(m)@.union_prefer_right(term_strs(s@)),
{
    match s {
        Subject::NamedNode(n) => {
            intern_string(m, n.iri.as_str());
        },
        Subject::BlankNode(b) => {
            intern_string(m, b.id.as_str());
        },
    }
    proof {
        assert(final(m)@ =~= old(m)@.union_prefer_right(term_strs(s@)));
    }
}

/// Records the side-table row for a predicate.
pub fn insert_predicate_strs(m: &mut StrMap, p: &NamedNode)
    ensures
        final(m)@ == old(m)@.union_prefer_right(term_strs(p@)),
{
    intern_string(m, p.iri.as_str());
    proof {
        assert(final(m)@ =~= old(m)@.union_prefer_right(term_strs(p@)));
    }
}

/// Records the side-table rows for a graph name; the default marker has
/// none.
pub fn insert_graph_strs(m: &mut StrMap, g: &GraphName)
    ensures
        final(m)@ == old(m)@.union_prefer_right(term_strs(g@)),
{
    match g {
        GraphName::NamedNode(n) => {
            intern_string(m, n.iri.as_str());
        },
        GraphName::BlankNode(b) => {
            intern_string(m, b.id.as_str());
        },
        GraphName::DefaultGraph => {},
    }
    proof {
        assert(final(m)@ =~= old(m)@.union_prefer_right(term_strs(g@)));
    }
}

/// Records the side-table row for a graph term.
pub fn insert_named_or_blank_strs(m: &mut StrMap, g: &NamedOrBlankNode)
    ensures
        final(m)@ == old(m)@.union_prefer_right(term_strs(g@)),
{
    match g {
        NamedOrBlankNode::NamedNode(n) => {
            intern_string(m, n.iri.as_str());
        },
        NamedOrBlankNode::BlankNode(b) => {
            intern_string(m, b.id.as_str());
        },
    }
    proof {
        assert(final(m)@ =~= old(m)@.union_prefer_right(term_strs(g@)));
    }
}

// Decoders: the inverse direction, through the side table.
/// The term denoted by an image under side table `m`: `None` when a needed
/// lexical form is missing.
pub open spec fn decode_term_spec(e: EncodedTerm, m: Map<u128, Seq<char>>) -> Option<TermV> {
    match e {
        EncodedTerm::DefaultGraph => Some(TermV::DefaultGraph),
        EncodedTerm::NamedNode { iri_id } => {
            if m.contains_key(iri_id.value) {
                Some(TermV::Named { iri: m[iri_id.value] })
            } else {
                None
            }
        },
        EncodedTerm::BlankNode { id_id } => {
            if m.contains_key(id_id.value) {
                Some(TermV::Blank { id: m[id_id.value] })
            } else {
                None
            }
        },
        EncodedTerm::SimpleLiteral { value_id } => {
            if m.contains_key(value_id.value) {
                Some(TermV::Simple { value: m[value_id.value] })
            } else {
                None
            }
        },
        EncodedTerm::LangLiteral { value_id, language_id } => {
            if m.contains_key(value_id.value) && m.contains_key(language_id.value) {
                Some(TermV::Lang { value: m[value_id.value], language: m[language_id.value] })
            } else {
                None
            }
        },
        EncodedTerm::TypedLiteral { value_id, datatype_id } => {
            if m.contains_key(value_id.value) && m.contains_key(datatype_id.value) {
                Some(TermV::Typed { value: m[value_id.value], datatype: m[datatype_id.value] })
            } else {
                None
            }
        },
        EncodedTerm::IntegerLiteral { value } => Some(TermV::Typed {
            value: print_int(value as int),
            datatype: xsd_integer_iri(),
        }),
    }
}

/// Which term kinds may stand in which quad slot.
pub open spec fn subject_kind_ok(e: EncodedTerm) -> bool {
    e is NamedNode || e is BlankNode
}

pub open spec fn predicate_kind_ok(e: EncodedTerm) -> bool {
    e is NamedNode
}

pub open spec fn object_kind_ok(e: EncodedTerm) -> bool {
    !(e is DefaultGraph)
}

pub open spec fn graph_kind_ok(e: EncodedTerm) -> bool {
    e is NamedNode || e is BlankNode || e is DefaultGraph
}

pub open spec fn quad_kinds_ok(e: EncodedQuad) -> bool {
    subject_kind_ok(e.subject) && predicate_kind_ok(e.predicate) && object_kind_ok(e.object)
        && graph_kind_ok(e.graph_name)
}

/// The quad denoted by an image: `None` when a slot holds a kind it cannot,
/// or a needed lexical form is missing.
pub open spec fn decode_quad_spec(e: EncodedQuad, m: Map<u128, Seq<char>>) -> Option<QuadV> {
    if quad_kinds_ok(e) && decode_term_spec(e.subject, m) is Some && decode_term_spec(
        e.predicate,
        m,
    ) is Some && decode_term_spec(e.object, m) is Some && decode_term_spec(e.graph_name, m)
        is Some {
        Some(
            QuadV {
                subject: decode_term_spec(e.subject, m)->Some_0,
                predicate: decode_term_spec(e.predicate, m)->Some_0,
                object: decode_term_spec(e.object, m)->Some_0,
                graph_name: decode_term_spec(e.graph_name, m)->Some_0,
            },
        )
    } else {
        None
    }
}

/// Decoding inverts encoding: under a side table that holds each lexical
/// form the image relies on, the image of a quad decodes to that quad. This
/// holds whenever no two of those lexical forms share a content hash with a
/// different form, which the consistency premises state.
pub proof fn lemma_term_round_trip(t: TermV, m: Map<u128, Seq<char>>)
    requires
        resolves_term(t, m),
    ensures
        decode_term_spec(encode_term_spec(t), m) == Some(t),
{
    match t {
        TermV::Named { iri } => {
            assert(hashed_strings(t).contains(iri));
        },
        TermV::Blank { id } => {
            assert(hashed_strings(t).contains(id));
        },
        TermV::Simple { value } => {
            assert(hashed_strings(t).contains(value));
        },
        TermV::Lang { value, language } => {
            assert(hashed_strings(t).contains(value) && hashed_strings(t).contains(language));
        },
        TermV::Typed { value, datatype } => {
            if datatype == xsd_integer_iri() && is_canonical_int(value) {
                let v = canonical_int_value(value);
                if value.len() > 0 && value[0] == '-' {
                    crate::numeric::lemma_digits_val_nonneg(value.skip(1));
                } else {
                    crate::numeric::lemma_digits_val_nonneg(value);
                }
                assert(i64::MIN <= v <= i64::MAX);
                assert((v as i64) as int == v);
                assert(print_int(v) == value);
            } else {
                assert(hashed_strings(t).contains(value) && hashed_strings(t).contains(datatype));
            }
        },
        TermV::DefaultGraph => {
        },
    }
}

/// Encoding never maps a proper term to the default-graph marker.
pub proof fn lemma_encode_not_default(t: TermV)
    ensures
        (encode_term_spec(t) is DefaultGraph) <==> (t is DefaultGraph),
{
}

/// The codec round trip on quads: decoding the image of a well-formed quad
/// under a consistent side table yields the quad itself.
pub proof fn lemma_codec_round_trip(q: QuadV, m: Map<u128, Seq<char>>)
    requires
        wf_quad_view(q),
        resolves_term(q.subject, m),
        resolves_term(q.predicate, m),
        resolves_term(q.object, m),
        resolves_term(q.graph_name, m),
    ensures
        decode_quad_spec(encode_quad_spec(q), m) == Some(q),
{
    lemma_term_round_trip(q.subject, m);
    lemma_term_round_trip(q.predicate, m);
    lemma_term_round_trip(q.object, m);
    lemma_term_round_trip(q.graph_name, m);
    lemma_encode_not_default(q.object);
    lemma_encode_not_default(q.graph_name);
}

/// Whether a term image decodes does not depend on the table's lexical
/// forms, only on which hashes it covers.
pub proof fn lemma_decode_term_monotone(
    e: EncodedTerm,
    m1: Map<u128, Seq<char>>,
    m2: Map<u128, Seq<char>>,
)
    requires
        forall|h: u128| m1.contains_key(h) ==> m2.contains_key(h),
        decode_term_spec(e, m1) is Some,
    ensures
        decode_term_spec(e, m2) is Some,
{
}

/// A quad image that decodes under a table decodes under any table covering
/// at least the same hashes.
pub proof fn lemma_decode_quad_monotone(
    e: EncodedQuad,
    m1: Map<u128, Seq<char>>,
    m2: Map<u128, Seq<char>>,
)
    requires
        forall|h: u128| m1.contains_key(h) ==> m2.contains_key(h),
        decode_quad_spec(e, m1) is Some,
    ensures
        decode_quad_spec(e, m2) is Some,
{
    lemma_decode_term_monotone(e.subject, m1, m2);
    lemma_decode_term_monotone(e.predicate, m1, m2);
    lemma_decode_term_monotone(e.object, m1, m2);
    lemma_decode_term_monotone(e.graph_name, m1, m2);
}

/// The image of a well-formed quad fills each slot with an allowed kind.
pub proof fn lemma_encoded_quad_kinds_ok(q: QuadV)
    requires
        wf_quad_view(q),
    ensures
        quad_kinds_ok(encode_quad_spec(q)),
{
}

/// A term image decodes under any table covering the hashes of the term's
/// lexical forms.
pub proof fn lemma_encoded_term_decodable(t: TermV, m: Map<u128, Seq<char>>)
    requires
        forall|h: u128| term_strs(t).contains_key(h) ==> m.contains_key(h),
    ensures
        decode_term_spec(encode_term_spec(t), m) is Some,
{
    match t {
        TermV::Named { iri } => {
            assert(term_strs(t).contains_key(str_hash(iri)));
        },
        TermV::Blank { id } => {
            assert(term_strs(t).contains_key(str_hash(id)));
        },
        TermV::Simple { value } => {
            assert(term_strs(t).contains_key(str_hash(value)));
        },
        TermV::Lang { value, language } => {
            assert(term_strs(t).contains_key(str_hash(value)) && term_strs(t).contains_key(
                str_hash(language),
            ));
        },
        TermV::Typed { value, datatype } => {
            if !(datatype == xsd_integer_iri() && is_canonical_int(value)) {
                assert(term_strs(t).contains_key(str_hash(value)) && term_strs(t).contains_key(
                    str_hash(datatype),
                ));
            }
        },
        TermV::DefaultGraph => {},
    }
}

/// The image of a well-formed quad decodes under any table covering the
/// hashes of the quad's lexical forms.
pub proof fn lemma_encoded_quad_decodable(q: QuadV, m: Map<u128, Seq<char>>)
    requires
        wf_quad_view(q),
        forall|h: u128| quad_strs(q).contains_key(h) ==> m.contains_key(h),
    ensures
        decode_quad_spec(encode_quad_spec(q), m) is Some,
{
    assert forall|h: u128| term_strs(q.subject).contains_key(h) implies m.contains_key(h) by {
        assert(quad_strs(q).contains_key(h));
    }
    assert forall|h: u128| term_strs(q.predicate).contains_key(h) implies m.contains_key(h) by {
        assert(quad_strs(q).contains_key(h));
    }
    assert forall|h: u128| term_strs(q.object).contains_key(h) implies m.contains_key(h) by {
        assert(quad_strs(q).contains_key(h));
    }
    assert forall|h: u128| term_strs(q.graph_name).contains_key(h) implies m.contains_key(h) by {
        assert(quad_strs(q).contains_key(h));
    }
    lemma_encoded_term_decodable(q.subject, m);
    lemma_encoded_term_decodable(q.predicate, m);
    lemma_encoded_term_decodable(q.object, m);
    lemma_encoded_term_decodable(q.graph_name, m);
    lemma_encoded_quad_kinds_ok(q);
}

// Executable decoders against the side table, one per slot.
fn lookup_string(m: &StrMap, h: &StrHash) -> (r: Result<String, StorageError>)
    ensures
        r is Ok <==> m@.contains_key(h.value),
        r is Ok ==> r->Ok_0@ == m@[h.value],
{
    match m.get(h) {
        Some(s) => Ok(s),
        None => Err(StorageError::Corruption(CorruptionError::MissingString { hash: *h })),
    }
}

/// Decodes an image in subject position.
pub fn decode_subject(e: &EncodedTerm, m: &StrMap) -> (r: Result<Subject, StorageError>)
    ensures
        r is Ok <==> subject_kind_ok(*e) && decode_term_spec(*e, m@) is Some,
        r is Ok ==> decode_term_spec(*e, m@) == Some(r->Ok_0@),
{
    match e {
        EncodedTerm::NamedNode { iri_id } => {
            let iri = lookup_string(m, iri_id)?;
            Ok(Subject::NamedNode(NamedNode { iri }))
        },
        EncodedTerm::BlankNode { id_id } => {
            let id = lookup_string(m, id_id)?;
            Ok(Subject::BlankNode(BlankNode { id }))
        },
        _ => Err(StorageError::Corruption(CorruptionError::UnexpectedTermKind)),
    }
}

/// Decodes an image in predicate position.
pub fn decode_predicate(e: &EncodedTerm, m: &StrMap) -> (r: Result<NamedNode, StorageError>)
    ensures
        r is Ok <==> predicate_kind_ok(*e) && decode_term_spec(*e, m@) is Some,
        r is Ok ==> decode_term_spec(*e, m@) == Some(r->Ok_0@),
{
    match e {
        EncodedTerm::NamedNode { iri_id } => {
            let iri = lookup_string(m, iri_id)?;
            Ok(NamedNode { iri })
        },
        _ => Err(StorageError::Corruption(CorruptionError::UnexpectedTermKind)),
    }
}

/// Decodes an image in object position.
pub fn decode_object(e: &EncodedTerm, m: &StrMap) -> (r: Result<Term, StorageError>)
    ensures
        r is Ok <==> object_kind_ok(*e) && decode_term_spec(*e, m@) is Some,
        r is Ok ==> decode_term_spec(*e, m@) == Some(r->Ok_0@),
{
    match e {
        EncodedTerm::NamedNode { iri_id } => {
            let iri = lookup_string(m, iri_id)?;
            Ok(Term::NamedNode(NamedNode { iri }))
        },
        EncodedTerm::BlankNode { id_id } => {
            let id = lookup_string(m, id_id)?;
            Ok(Term::BlankNode(BlankNode { id }))
        },
        EncodedTerm::SimpleLiteral { value_id } => {
            let value = lookup_string(m, value_id)?;
            Ok(Term::Literal(Literal::Simple { value }))
        },
        EncodedTerm::LangLiteral { value_id, language_id } => {
            let value = lookup_string(m, value_id)?;
            let language = lookup_string(m, language_id)?;
            Ok(Term::Literal(Literal::LanguageTagged { value, language }))
        },
        EncodedTerm::TypedLiteral { value_id, datatype_id } => {
            let value = lookup_string(m, value_id)?;
            let datatype = lookup_string(m, datatype_id)?;
            Ok(Term::Literal(Literal::Typed { value, datatype: NamedNode { iri: datatype } }))
        },
        EncodedTerm::IntegerLiteral { value } => {
            Ok(Term::Literal(Literal::Typed { value: print_i64(*value), datatype: xsd_integer() }))
        },
        EncodedTerm::DefaultGraph => {
            Err(StorageError::Corruption(CorruptionError::UnexpectedTermKind))
        },
    }
}

/// Decodes an image in graph-name position.
pub fn decode_graph_name(e: &EncodedTerm, m: &StrMap) -> (r: Result<GraphName, StorageError>)
    ensures
        r is Ok <==> graph_kind_ok(*e) && decode_term_spec(*e, m@) is Some,
        r is Ok ==> decode_term_spec(*e, m@) == Some(r->Ok_0@),
{
    match e {
        EncodedTerm::NamedNode { iri_id } => {
            let iri = lookup_string(m, iri_id)?;
            Ok(GraphName::NamedNode(NamedNode { iri }))
        },
        EncodedTerm::BlankNode { id_id } => {
            let id = lookup_string(m, id_id)?;
            Ok(GraphName::BlankNode(BlankNode { id }))
        },
        EncodedTerm::DefaultGraph => Ok(GraphName::DefaultGraph),
        _ => Err(StorageError::Corruption(CorruptionError::UnexpectedTermKind)),
    }
}

/// Decodes an image of a graph name that must not be the default marker.
pub fn decode_named_or_blank_node(e: &EncodedTerm, m: &StrMap) -> (r: Result<
    NamedOrBlankNode,
    StorageError,
>)
    ensures
        r is Ok <==> (*e is NamedNode || *e is BlankNode) && decode_term_spec(*e, m@) is Some,
        r is Ok ==> decode_term_spec(*e, m@) == Some(r->Ok_0@),
{
    match e {
        EncodedTerm::NamedNode { iri_id } => {
            let iri = lookup_string(m, iri_id)?;
            Ok(NamedOrBlankNode::NamedNode(NamedNode { iri }))
        },
        EncodedTerm::BlankNode { id_id } => {
            let id = lookup_string(m, id_id)?;
            Ok(NamedOrBlankNode::BlankNode(BlankNode { id }))
        },
        _ => Err(StorageError::Corruption(CorruptionError::UnexpectedTermKind)),
    }
}

/// Decodes the image of a quad.
pub fn decode_quad(e: &EncodedQuad, m: &StrMap) -> (r: Result<Quad, StorageError>)
    ensures
        r is Ok <==> decode_quad_spec(*e, m@) is Some,
        r is Ok ==> decode_quad_spec(*e, m@) == Some(r->Ok_0@),
{
    let subject = decode_subject(&e.subject, m)?;
    let predicate = decode_predicate(&e.predicate, m)?;
    let object = decode_object(&e.object, m)?;
    let graph_name = decode_graph_name(&e.graph_name, m)?;
    Ok(Quad { subject, predicate, object, graph_name })
}

} // verus!
