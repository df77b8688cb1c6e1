//! The engine state: nine quad index columns, the named-graph registry and
//! the string side table, with the cross-index invariant that makes every
//! index answer for the same quad set.

use crate::codec::{
    decode_quad_spec, decode_term_spec, encode_named_or_blank_node, encode_quad, encode_quad_spec,
    encode_term_spec, insert_graph_strs, insert_named_or_blank_strs, insert_predicate_strs,
    insert_subject_strs, insert_term_strs, lemma_decode_quad_monotone, lemma_decode_term_monotone,
    lemma_encoded_quad_decodable, lemma_encoded_quad_kinds_ok, lemma_encoded_term_decodable,
    lemma_quad_strs_hashes, lemma_term_strs_hashes, quad_kinds_ok, quad_strs, str_hash, term_strs,
};
use crate::encoded::{EncodedQuad, EncodedTerm, StrHash};
use crate::error::StorageError;
use crate::keyvec::{
    key_matches_prefix, lemma_key_order_total, sorted, IndexKey, KeyVec,
};
use crate::strmap::StrMap;
use crate::term::{lemma_quad_view_wf, NamedOrBlankNode, Quad};
use vstd::prelude::*;

verus! {

/// The default-graph marker.
pub open spec fn dg() -> EncodedTerm {
    EncodedTerm::DefaultGraph
}

// The key of a quad in each index: the concatenation of its terms in the
// letter order of the index name. Triple indices pad the graph slot with the
// default marker.
pub open spec fn dspo_key(q: EncodedQuad) -> IndexKey {
    IndexKey { t0: q.subject, t1: q.predicate, t2: q.object, t3: dg() }
}

pub open spec fn dpos_key(q: EncodedQuad) -> IndexKey {
    IndexKey { t0: q.predicate, t1: q.object, t2: q.subject, t3: dg() }
}

pub open spec fn dosp_key(q: EncodedQuad) -> IndexKey {
    IndexKey { t0: q.object, t1: q.subject, t2: q.predicate, t3: dg() }
}

pub open spec fn spog_key(q: EncodedQuad) -> IndexKey {
    IndexKey { t0: q.subject, t1: q.predicate, t2: q.object, t3: q.graph_name }
}

pub open spec fn posg_key(q: EncodedQuad) -> IndexKey {
    IndexKey { t0: q.predicate, t1: q.object, t2: q.subject, t3: q.graph_name }
}

pub open spec fn ospg_key(q: EncodedQuad) -> IndexKey {
    IndexKey { t0: q.object, t1: q.subject, t2: q.predicate, t3: q.graph_name }
}

pub open spec fn gspo_key(q: EncodedQuad) -> IndexKey {
    IndexKey { t0: q.graph_name, t1: q.subject, t2: q.predicate, t3: q.object }
}

pub open spec fn gpos_key(q: EncodedQuad) -> IndexKey {
    IndexKey { t0: q.graph_name, t1: q.predicate, t2: q.object, t3: q.subject }
}

pub open spec fn gosp_key(q: EncodedQuad) -> IndexKey {
    IndexKey { t0: q.graph_name, t1: q.object, t2: q.subject, t3: q.predicate }
}

/// The registry key of a graph term.
pub open spec fn graph_key(t: EncodedTerm) -> IndexKey {
    IndexKey { t0: t, t1: dg(), t2: dg(), t3: dg() }
}

/// Which index a key belongs to, and so how its slots map back to a quad.
#[derive(Clone, Copy, PartialEq, Eq, Structural, Debug)]
pub enum QuadEncoding {
    Spog,
    Posg,
    Ospg,
    Gspo,
    Gpos,
    Gosp,
    Dspo,
    Dpos,
    Dosp,
}

/// The quad a stored key stands for.
pub open spec fn decode_key_spec(enc: QuadEncoding, k: IndexKey) -> EncodedQuad {
    match enc {
        QuadEncoding::Spog => EncodedQuad {
            subject: k.t0,
            predicate: k.t1,
            object: k.t2,
            graph_name: k.t3,
        },
        QuadEncoding::Posg => EncodedQuad {
            subject: k.t2,
            predicate: k.t0,
            object: k.t1,
            graph_name: k.t3,
        },
        QuadEncoding::Ospg => EncodedQuad {
            subject: k.t1,
            predicate: k.t2,
            object: k.t0,
            graph_name: k.t3,
        },
        QuadEncoding::Gspo => EncodedQuad {
            subject: k.t1,
            predicate: k.t2,
            object: k.t3,
            graph_name: k.t0,
        },
        QuadEncoding::Gpos => EncodedQuad {
            subject: k.t3,
            predicate: k.t1,
            object: k.t2,
            graph_name: k.t0,
        },
        QuadEncoding::Gosp => EncodedQuad {
            subject: k.t2,
            predicate: k.t3,
            object: k.t1,
            graph_name: k.t0,
        },
        QuadEncoding::Dspo => EncodedQuad {
            subject: k.t0,
            predicate: k.t1,
            object: k.t2,
            graph_name: dg(),
        },
        QuadEncoding::Dpos => EncodedQuad {
            subject: k.t2,
            predicate: k.t0,
            object: k.t1,
            graph_name: dg(),
        },
        QuadEncoding::Dosp => EncodedQuad {
            subject: k.t1,
            predicate: k.t2,
            object: k.t0,
            graph_name: dg(),
        },
    }
}

/// The key of a quad in the index an encoding names.
pub open spec fn encode_key_spec(enc: QuadEncoding, q: EncodedQuad) -> IndexKey {
    match enc {
        QuadEncoding::Spog => spog_key(q),
        QuadEncoding::Posg => posg_key(q),
        QuadEncoding::Ospg => ospg_key(q),
        QuadEncoding::Gspo => gspo_key(q),
        QuadEncoding::Gpos => gpos_key(q),
        QuadEncoding::Gosp => gosp_key(q),
        QuadEncoding::Dspo => dspo_key(q),
        QuadEncoding::Dpos => dpos_key(q),
        QuadEncoding::Dosp => dosp_key(q),
    }
}

/// Whether the encoding pads the graph slot (a triple index).
pub open spec fn is_triple_encoding(enc: QuadEncoding) -> bool {
    enc == QuadEncoding::Dspo || enc == QuadEncoding::Dpos || enc == QuadEncoding::Dosp
}

/// The shape every key stored under an encoding has: triple indices carry
/// the default marker in the pad slot, quad indices a proper graph term.
pub open spec fn key_shaped(enc: QuadEncoding, k: IndexKey) -> bool {
    if is_triple_encoding(enc) {
        k.t3 == dg()
    } else {
        decode_key_spec(enc, k).graph_name != dg()
    }
}

/// Decodes a stored key into the quad it stands for.
pub fn decode_index_key(enc: QuadEncoding, k: &IndexKey) -> (r: EncodedQuad)
    ensures
        r == decode_key_spec(enc, *k),
{
    match enc {
        QuadEncoding::Spog => EncodedQuad {
            subject: k.t0,
            predicate: k.t1,
            object: k.t2,
            graph_name: k.t3,
        },
        QuadEncoding::Posg => EncodedQuad {
            subject: k.t2,
            predicate: k.t0,
            object: k.t1,
            graph_name: k.t3,
        },
        QuadEncoding::Ospg => EncodedQuad {
            subject: k.t1,
            predicate: k.t2,
            object: k.t0,
            graph_name: k.t3,
        },
        QuadEncoding::Gspo => EncodedQuad {
            subject: k.t1,
            predicate: k.t2,
            object: k.t3,
            graph_name: k.t0,
        },
        QuadEncoding::Gpos => EncodedQuad {
            subject: k.t3,
            predicate: k.t1,
            object: k.t2,
            graph_name: k.t0,
        },
        QuadEncoding::Gosp => EncodedQuad {
            subject: k.t2,
            predicate: k.t3,
            object: k.t1,
            graph_name: k.t0,
        },
        QuadEncoding::Dspo => EncodedQuad {
            subject: k.t0,
            predicate: k.t1,
            object: k.t2,
            graph_name: EncodedTerm::DefaultGraph,
        },
        QuadEncoding::Dpos => EncodedQuad {
            subject: k.t2,
            predicate: k.t0,
            object: k.t1,
            graph_name: EncodedTerm::DefaultGraph,
        },
        QuadEncoding::Dosp => EncodedQuad {
            subject: k.t1,
            predicate: k.t2,
            object: k.t0,
            graph_name: EncodedTerm::DefaultGraph,
        },
    }
}

/// Builds the key of a quad for the index an encoding names.
pub fn encode_index_key(enc: QuadEncoding, q: &EncodedQuad) -> (r: IndexKey)
    ensures
        r == encode_key_spec(enc, *q),
{
    match enc {
        QuadEncoding::Spog => IndexKey {
            t0: q.subject,
            t1: q.predicate,
            t2: q.object,
            t3: q.graph_name,
        },
        QuadEncoding::Posg => IndexKey {
            t0: q.predicate,
            t1: q.object,
            t2: q.subject,
            t3: q.graph_name,
        },
        QuadEncoding::Ospg => IndexKey {
            t0: q.object,
            t1: q.subject,
            t2: q.predicate,
            t3: q.graph_name,
        },
        QuadEncoding::Gspo => IndexKey {
            t0: q.graph_name,
            t1: q.subject,
            t2: q.predicate,
            t3: q.object,
        },
        QuadEncoding::Gpos => IndexKey {
            t0: q.graph_name,
            t1: q.predicate,
            t2: q.object,
            t3: q.subject,
        },
        QuadEncoding::Gosp => IndexKey {
            t0: q.graph_name,
            t1: q.object,
            t2: q.subject,
            t3: q.predicate,
        },
        QuadEncoding::Dspo => IndexKey {
            t0: q.subject,
            t1: q.predicate,
            t2: q.object,
            t3: EncodedTerm::DefaultGraph,
        },
        QuadEncoding::Dpos => IndexKey {
            t0: q.predicate,
            t1: q.object,
            t2: q.subject,
            t3: EncodedTerm::DefaultGraph,
        },
        QuadEncoding::Dosp => IndexKey {
            t0: q.object,
            t1: q.subject,
            t2: q.predicate,
            t3: EncodedTerm::DefaultGraph,
        },
    }
}

/// Builds the registry key of a graph term.
pub fn make_graph_key(t: &EncodedTerm) -> (r: IndexKey)
    ensures
        r == graph_key(*t),
{
    IndexKey {
        t0: *t,
        t1: EncodedTerm::DefaultGraph,
        t2: EncodedTerm::DefaultGraph,
        t3: EncodedTerm::DefaultGraph,
    }
}

/// Decoding a shaped key inverts encoding, and vice versa.
pub proof fn lemma_key_codec(enc: QuadEncoding, q: EncodedQuad, k: IndexKey)
    ensures
        (!is_triple_encoding(enc) || q.graph_name == dg()) ==> decode_key_spec(
            enc,
            encode_key_spec(enc, q),
        ) == q,
        key_shaped(enc, k) ==> encode_key_spec(enc, decode_key_spec(enc, k)) == k,
{
}

/// The mathematical image of the engine state.
pub struct StateV {
    pub dspo: Seq<IndexKey>,
    pub dpos: Seq<IndexKey>,
    pub dosp: Seq<IndexKey>,
    pub spog: Seq<IndexKey>,
    pub posg: Seq<IndexKey>,
    pub ospg: Seq<IndexKey>,
    pub gspo: Seq<IndexKey>,
    pub gpos: Seq<IndexKey>,
    pub gosp: Seq<IndexKey>,
    pub graphs: Seq<IndexKey>,
    pub id2str: Map<u128, Seq<char>>,
}

impl StateV {
    /// The column of an encoding.
    pub open spec fn column(self, enc: QuadEncoding) -> Seq<IndexKey> {
        match enc {
            QuadEncoding::Spog => self.spog,
            QuadEncoding::Posg => self.posg,
            QuadEncoding::Ospg => self.ospg,
            QuadEncoding::Gspo => self.gspo,
            QuadEncoding::Gpos => self.gpos,
            QuadEncoding::Gosp => self.gosp,
            QuadEncoding::Dspo => self.dspo,
            QuadEncoding::Dpos => self.dpos,
            QuadEncoding::Dosp => self.dosp,
        }
    }

    /// A stored default-graph quad.
    pub open spec fn has_default(self, q: EncodedQuad) -> bool {
        q.graph_name == dg() && self.dspo.contains(dspo_key(q))
    }

    /// A stored named-graph quad.
    pub open spec fn has_named(self, q: EncodedQuad) -> bool {
        q.graph_name != dg() && self.spog.contains(spog_key(q))
    }

    /// A stored quad.
    pub open spec fn has(self, q: EncodedQuad) -> bool {
        self.has_default(q) || self.has_named(q)
    }

    /// The stored quad set.
    pub open spec fn quad_set(self) -> Set<EncodedQuad> {
        Set::new(|q: EncodedQuad| self.has(q))
    }

    /// A registered named graph.
    pub open spec fn graphs_has(self, t: EncodedTerm) -> bool {
        self.graphs.contains(graph_key(t))
    }

    /// The total number of index rows that `len` reports: one per stored
    /// default-graph quad plus one per stored named-graph quad.
    pub open spec fn count(self) -> int {
        self.dspo.len() + self.gspo.len() as int
    }

    /// A term image whose lexical forms the side table can all resolve.
    pub open spec fn term_covered(self, e: EncodedTerm) -> bool {
        decode_term_spec(e, self.id2str) is Some
    }

    /// Every column is strictly sorted.
    pub open spec fn wf_sorted(self) -> bool {
        &&& sorted(self.dspo)
        &&& sorted(self.dpos)
        &&& sorted(self.dosp)
        &&& sorted(self.spog)
        &&& sorted(self.posg)
        &&& sorted(self.ospg)
        &&& sorted(self.gspo)
        &&& sorted(self.gpos)
        &&& sorted(self.gosp)
        &&& sorted(self.graphs)
    }

    /// Every stored key has the shape and slot kinds of its index, and the
    /// registry holds only proper graph terms padded with the marker.
    pub open spec fn wf_shape(self) -> bool {
        &&& forall|k: IndexKey| #[trigger]
            self.dspo.contains(k) ==> key_shaped(QuadEncoding::Dspo, k) && quad_kinds_ok(
                decode_key_spec(QuadEncoding::Dspo, k),
            )
        &&& forall|k: IndexKey| #[trigger]
            self.dpos.contains(k) ==> key_shaped(QuadEncoding::Dpos, k) && quad_kinds_ok(
                decode_key_spec(QuadEncoding::Dpos, k),
            )
        &&& forall|k: IndexKey| #[trigger]
            self.dosp.contains(k) ==> key_shaped(QuadEncoding::Dosp, k) && quad_kinds_ok(
                decode_key_spec(QuadEncoding::Dosp, k),
            )
        &&& forall|k: IndexKey| #[trigger]
            self.spog.contains(k) ==> key_shaped(QuadEncoding::Spog, k) && quad_kinds_ok(
                decode_key_spec(QuadEncoding::Spog, k),
            )
        &&& forall|k: IndexKey| #[trigger]
            self.posg.contains(k) ==> key_shaped(QuadEncoding::Posg, k) && quad_kinds_ok(
                decode_key_spec(QuadEncoding::Posg, k),
            )
        &&& forall|k: IndexKey| #[trigger]
            self.ospg.contains(k) ==> key_shaped(QuadEncoding::Ospg, k) && quad_kinds_ok(
                decode_key_spec(QuadEncoding::Ospg, k),
            )
        &&& forall|k: IndexKey| #[trigger]
            self.gspo.contains(k) ==> key_shaped(QuadEncoding::Gspo, k) && quad_kinds_ok(
                decode_key_spec(QuadEncoding::Gspo, k),
            )
        &&& forall|k: IndexKey| #[trigger]
            self.gpos.contains(k) ==> key_shaped(QuadEncoding::Gpos, k) && quad_kinds_ok(
                decode_key_spec(QuadEncoding::Gpos, k),
            )
        &&& forall|k: IndexKey| #[trigger]
            self.gosp.contains(k) ==> key_shaped(QuadEncoding::Gosp, k) && quad_kinds_ok(
                decode_key_spec(QuadEncoding::Gosp, k),
            )
        &&& forall|k: IndexKey| #[trigger]
            self.graphs.contains(k) ==> (k.t0 is NamedNode || k.t0 is BlankNode) && k.t1 == dg()
                && k.t2 == dg() && k.t3 == dg()
    }

    /// Every index answers for the same quads as its group's anchor index
    /// (DSPO for the default graph, SPOG for named graphs).
    pub open spec fn wf_agree(self) -> bool {
        &&& forall|q: EncodedQuad|
            #![trigger self.dpos.contains(dpos_key(q))]
            #![trigger self.dspo.contains(dspo_key(q))]
            q.graph_name == dg() ==> (self.dpos.contains(dpos_key(q)) <==> self.dspo.contains(
                dspo_key(q),
            ))
        &&& forall|q: EncodedQuad|
            #![trigger self.dosp.contains(dosp_key(q))]
            #![trigger self.dspo.contains(dspo_key(q))]
            q.graph_name == dg() ==> (self.dosp.contains(dosp_key(q)) <==> self.dspo.contains(
                dspo_key(q),
            ))
        &&& forall|q: EncodedQuad|
            #![trigger self.posg.contains(posg_key(q))]
            #![trigger self.spog.contains(spog_key(q))]
            q.graph_name != dg() ==> (self.posg.contains(posg_key(q)) <==> self.spog.contains(
                spog_key(q),
            ))
        &&& forall|q: EncodedQuad|
            #![trigger self.ospg.contains(ospg_key(q))]
            #![trigger self.spog.contains(spog_key(q))]
            q.graph_name != dg() ==> (self.ospg.contains(ospg_key(q)) <==> self.spog.contains(
                spog_key(q),
            ))
        &&& forall|q: EncodedQuad|
            #![trigger self.gspo.contains(gspo_key(q))]
            #![trigger self.spog.contains(spog_key(q))]
            q.graph_name != dg() ==> (self.gspo.contains(gspo_key(q)) <==> self.spog.contains(
                spog_key(q),
            ))
        &&& forall|q: EncodedQuad|
            #![trigger self.gpos.contains(gpos_key(q))]
            #![trigger self.spog.contains(spog_key(q))]
            q.graph_name != dg() ==> (self.gpos.contains(gpos_key(q)) <==> self.spog.contains(
                spog_key(q),
            ))
        &&& forall|q: EncodedQuad|
            #![trigger self.gosp.contains(gosp_key(q))]
            #![trigger self.spog.contains(spog_key(q))]
            q.graph_name != dg() ==> (self.gosp.contains(gosp_key(q)) <==> self.spog.contains(
                spog_key(q),
            ))
    }

    /// The triple indices are equally long, and so are the six quad indices.
    pub open spec fn wf_lens(self) -> bool {
        &&& self.dpos.len() == self.dspo.len()
        &&& self.dosp.len() == self.dspo.len()
        &&& self.posg.len() == self.spog.len()
        &&& self.ospg.len() == self.spog.len()
        &&& self.gspo.len() == self.spog.len()
        &&& self.gpos.len() == self.spog.len()
        &&& self.gosp.len() == self.spog.len()
    }

    /// The graph of every stored named-graph quad is registered.
    pub open spec fn wf_graphs(self) -> bool {
        forall|q: EncodedQuad| #[trigger]
            self.spog.contains(spog_key(q)) && q.graph_name != dg() ==> self.graphs.contains(
                graph_key(q.graph_name),
            )
    }

    /// The side table resolves every lexical form any stored quad or any
    /// registered graph relies on.
    pub open spec fn wf_strs(self) -> bool {
        &&& forall|q: EncodedQuad| #[trigger]
            self.has(q) ==> decode_quad_spec(q, self.id2str) is Some
        &&& forall|k: IndexKey| #[trigger]
            self.graphs.contains(k) ==> decode_term_spec(k.t0, self.id2str) is Some
    }

    /// Every side-table row is keyed by the content hash of the lexical
    /// form it holds.
    pub open spec fn wf_hash(self) -> bool {
        forall|h: u128| #[trigger]
            self.id2str.contains_key(h) ==> str_hash(self.id2str[h]) == h
    }

    pub open spec fn wf(self) -> bool {
        &&& self.wf_sorted()
        &&& self.wf_shape()
        &&& self.wf_agree()
        &&& self.wf_lens()
        &&& self.wf_graphs()
        &&& self.wf_strs()
        &&& self.wf_hash()
    }

    /// Membership in an index column, read as quads: under the invariant, a
    /// key is stored exactly when the quad it stands for is stored in its
    /// group.
    pub proof fn lemma_column_members(self, enc: QuadEncoding, q: EncodedQuad)
        requires
            self.wf(),
            if is_triple_encoding(enc) {
                q.graph_name == dg()
            } else {
                q.graph_name != dg()
            },
        ensures
            self.column(enc).contains(encode_key_spec(enc, q)) <==> self.has(q),
    {
        lemma_key_codec(enc, q, encode_key_spec(enc, q));
    }
}

/// The engine state: ten key columns and the string side table.
pub struct StorageState {
    dspo: KeyVec,
    dpos: KeyVec,
    dosp: KeyVec,
    spog: KeyVec,
    posg: KeyVec,
    ospg: KeyVec,
    gspo: KeyVec,
    gpos: KeyVec,
    gosp: KeyVec,
    graphs: KeyVec,
    id2str: StrMap,
}

impl View for StorageState {
    type V = StateV;

    closed spec fn view(&self) -> StateV {
        StateV {
            dspo: self.dspo@,
            dpos: self.dpos@,
            dosp: self.dosp@,
            spog: self.spog@,
            posg: self.posg@,
            ospg: self.ospg@,
            gspo: self.gspo@,
            gpos: self.gpos@,
            gosp: self.gosp@,
            graphs: self.graphs@,
            id2str: self.id2str@,
        }
    }
}

impl StorageState {
    /// A state with no quads, no graphs and no interned strings.
    pub fn empty() -> (r: Self)
        ensures
            r@.wf(),
            r@.dspo == Seq::<IndexKey>::empty(),
            r@.spog == Seq::<IndexKey>::empty(),
            r@.graphs == Seq::<IndexKey>::empty(),
            r@.id2str == Map::<u128, Seq<char>>::empty(),
            forall|q: EncodedQuad| !(#[trigger] r@.has(q)),
            forall|t: EncodedTerm| !(#[trigger] r@.graphs_has(t)),
            r@.count() == 0,
    {
        let r = StorageState {
            dspo: KeyVec::new(),
            dpos: KeyVec::new(),
            dosp: KeyVec::new(),
            spog: KeyVec::new(),
            posg: KeyVec::new(),
            ospg: KeyVec::new(),
            gspo: KeyVec::new(),
            gpos: KeyVec::new(),
            gosp: KeyVec::new(),
            graphs: KeyVec::new(),
            id2str: StrMap::new(),
        };
        r
    }

    /// A deep copy denoting the same state.
    pub fn duplicate(&self) -> (r: Self)
        ensures
            r@ == self@,
    {
        StorageState {
            dspo: self.dspo.duplicate(),
            dpos: self.dpos.duplicate(),
            dosp: self.dosp.duplicate(),
            spog: self.spog.duplicate(),
            posg: self.posg.duplicate(),
            ospg: self.ospg.duplicate(),
            gspo: self.gspo.duplicate(),
            gpos: self.gpos.duplicate(),
            gosp: self.gosp.duplicate(),
            graphs: self.graphs.duplicate(),
            id2str: self.id2str.duplicate(),
        }
    }

    /// How many quads `len` reports: default-graph rows plus named rows,
    /// unless the sum exceeds the machine word.
    pub fn count_rows(&self) -> (r: Result<usize, StorageError>)
        ensures
            r is Ok <==> self@.count() <= usize::MAX,
            r is Ok ==> r->Ok_0 == self@.count(),
    {
        let d = self.dspo.len();
        let g = self.gspo.len();
        if d <= usize::MAX - g {
            Ok(d + g)
        } else {
            Err(StorageError::Conflict)
        }
    }

    /// Whether no quad is stored.
    pub fn no_quads(&self) -> (r: bool)
        ensures
            r == (self@.count() == 0),
    {
        self.gspo.is_empty() && self.dspo.is_empty()
    }

    /// Point probe for a quad: DSPO for the default graph, SPOG otherwise.
    pub fn contains_quad(&self, e: &EncodedQuad) -> (r: bool)
        requires
            self@.wf(),
        ensures
            r == self@.has(*e),
    {
        if e.graph_name.is_default_graph() {
            let k = encode_index_key(QuadEncoding::Dspo, e);
            self.dspo.contains_key(&k)
        } else {
            let k = encode_index_key(QuadEncoding::Spog, e);
            self.spog.contains_key(&k)
        }
    }

    /// Point probe of the graph registry.
    pub fn contains_graph_term(&self, t: &EncodedTerm) -> (r: bool)
        requires
            self@.wf(),
        ensures
            r == self@.graphs_has(*t),
    {
        let k = make_graph_key(t);
        self.graphs.contains_key(&k)
    }

    /// Looks a lexical form up by hash.
    pub fn get_str(&self, key: &StrHash) -> (r: Option<String>)
        ensures
            r is Some <==> self@.id2str.contains_key(key.value),
            r is Some ==> r->Some_0@ == self@.id2str[key.value],
    {
        self.id2str.get(key)
    }

    /// Whether a lexical form is interned under this hash.
    pub fn contains_str(&self, key: &StrHash) -> (r: bool)
        ensures
            r == self@.id2str.contains_key(key.value),
    {
        self.id2str.contains(key)
    }

    /// Decodes an image of a quad against the side table.
    pub fn decode_stored_quad(&self, e: &EncodedQuad) -> (r: Result<Quad, StorageError>)
        ensures
            r is Ok <==> decode_quad_spec(*e, self@.id2str) is Some,
            r is Ok ==> decode_quad_spec(*e, self@.id2str) == Some(r->Ok_0@),
    {
        crate::codec::decode_quad(e, &self.id2str)
    }

    /// Decodes an image of a graph name against the side table.
    pub fn decode_stored_graph(&self, e: &EncodedTerm) -> (r: Result<
        NamedOrBlankNode,
        StorageError,
    >)
        ensures
            r is Ok <==> (*e is NamedNode || *e is BlankNode) && decode_term_spec(*e, self@.id2str)
                is Some,
            r is Ok ==> decode_term_spec(*e, self@.id2str) == Some(r->Ok_0@),
    {
        crate::codec::decode_named_or_blank_node(e, &self.id2str)
    }

    /// Scans one index for the quads whose key starts with `prefix`.
    pub fn scan(&self, enc: QuadEncoding, prefix: &Vec<EncodedTerm>) -> (r: Vec<EncodedQuad>)
        requires
            self@.wf(),
            prefix@.len() <= 4,
        ensures
            forall|q: EncodedQuad| #[trigger]
                r@.contains(q) <==> self@.has(q) && (if is_triple_encoding(enc) {
                    q.graph_name == dg()
                } else {
                    q.graph_name != dg()
                }) && key_matches_prefix(encode_key_spec(enc, q), prefix@),
            r@.no_duplicates(),
            forall|i: int|
                0 <= i < r@.len() ==> (if is_triple_encoding(enc) {
                    (#[trigger] r@[i]).graph_name == dg()
                } else {
                    r@[i].graph_name != dg()
                }),
    {
        let col = match enc {
            QuadEncoding::Spog => &self.spog,
            QuadEncoding::Posg => &self.posg,
            QuadEncoding::Ospg => &self.ospg,
            QuadEncoding::Gspo => &self.gspo,
            QuadEncoding::Gpos => &self.gpos,
            QuadEncoding::Gosp => &self.gosp,
            QuadEncoding::Dspo => &self.dspo,
            QuadEncoding::Dpos => &self.dpos,
            QuadEncoding::Dosp => &self.dosp,
        };
        let keys = col.scan_prefix(prefix);
        let n = keys.len();
        let mut r: Vec<EncodedQuad> = Vec::new();
        let mut i: usize = 0;
        while i < n
            invariant
                n == keys@.len(),
                0 <= i <= n,
                r@.len() == i,
                forall|j: int| 0 <= j < i ==> #[trigger] r@[j] == decode_key_spec(enc, keys@[j]),
            decreases n - i,
        {
            let q = decode_index_key(enc, &keys[i]);
            r.push(q);
            i = i + 1;
        }
        proof {
            self.lemma_scan_post(enc, prefix@, keys@, r@);
        }
        r
    }

    /// The contract of a decoded index scan, from the raw key scan.
    proof fn lemma_scan_post(
        &self,
        enc: QuadEncoding,
        prefix: Seq<EncodedTerm>,
        keys: Seq<IndexKey>,
        quads: Seq<EncodedQuad>,
    )
        requires
            self@.wf(),
            sorted(keys),
            forall|k: IndexKey| #[trigger]
                keys.contains(k) <==> self@.column(enc).contains(k) && key_matches_prefix(
                    k,
                    prefix,
                ),
            quads.len() == keys.len(),
            forall|j: int|
                0 <= j < keys.len() ==> #[trigger] quads[j] == decode_key_spec(enc, keys[j]),
        ensures
            forall|q: EncodedQuad| #[trigger]
                quads.contains(q) <==> self@.has(q) && (if is_triple_encoding(enc) {
                    q.graph_name == dg()
                } else {
                    q.graph_name != dg()
                }) && key_matches_prefix(encode_key_spec(enc, q), prefix),
            quads.no_duplicates(),
            forall|i: int|
                0 <= i < quads.len() ==> (if is_triple_encoding(enc) {
                    (#[trigger] quads[i]).graph_name == dg()
                } else {
                    quads[i].graph_name != dg()
                }),
    {
        let s = self@;
        // Every scanned key is stored, hence shaped for its index.
        assert forall|j: int| 0 <= j < keys.len() implies key_shaped(enc, keys[j])
            && self@.column(enc).contains(keys[j]) by {
            assert(keys.contains(keys[j]));
        }
        assert forall|i: int| 0 <= i < quads.len() implies (if is_triple_encoding(enc) {
            (quads[i]).graph_name == dg()
        } else {
            quads[i].graph_name != dg()
        }) by {
            lemma_key_codec(enc, quads[i], keys[i]);
        }
        assert forall|q: EncodedQuad|
            quads.contains(q) <==> s.has(q) && (if is_triple_encoding(enc) {
                q.graph_name == dg()
            } else {
                q.graph_name != dg()
            }) && key_matches_prefix(encode_key_spec(enc, q), prefix) by {
            if quads.contains(q) {
                let j = choose|j: int| 0 <= j < quads.len() && quads[j] == q;
                lemma_key_codec(enc, q, keys[j]);
                assert(keys.contains(keys[j]));
                assert(encode_key_spec(enc, q) == keys[j]);
                s.lemma_column_members(enc, q);
            }
            if s.has(q) && (if is_triple_encoding(enc) {
                q.graph_name == dg()
            } else {
                q.graph_name != dg()
            }) && key_matches_prefix(encode_key_spec(enc, q), prefix) {
                s.lemma_column_members(enc, q);
                assert(keys.contains(encode_key_spec(enc, q)));
                let j = choose|j: int| 0 <= j < keys.len() && keys[j] == encode_key_spec(enc, q);
                lemma_key_codec(enc, q, keys[j]);
                assert(quads[j] == q);
                assert(quads.contains(q));
            }
        }
        assert forall|p: int, w: int| 0 <= p < w < quads.len() implies quads[p] != quads[w] by {
            lemma_key_order_total(keys[p], keys[w]);
            lemma_key_codec(enc, quads[p], keys[p]);
            lemma_key_codec(enc, quads[w], keys[w]);
        }
    }

    /// The registered named graphs, each once.
    pub fn graph_terms(&self) -> (r: Vec<EncodedTerm>)
        requires
            self@.wf(),
        ensures
            forall|t: EncodedTerm| #[trigger] r@.contains(t) <==> self@.graphs_has(t),
            r@.no_duplicates(),
            forall|i: int|
                0 <= i < r@.len() ==> (#[trigger] r@[i] is NamedNode || r@[i] is BlankNode),
    {
        let empty_prefix: Vec<EncodedTerm> = Vec::new();
        let keys = self.graphs.scan_prefix(&empty_prefix);
        let n = keys.len();
        let mut r: Vec<EncodedTerm> = Vec::new();
        let mut i: usize = 0;
        while i < n
            invariant
                n == keys@.len(),
                0 <= i <= n,
                r@.len() == i,
                forall|j: int| 0 <= j < i ==> #[trigger] r@[j] == keys@[j].t0,
            decreases n - i,
        {
            r.push(keys[i].t0);
            i = i + 1;
        }
        proof {
            let s = self@;
            assert forall|j: int| 0 <= j < keys@.len() implies s.graphs.contains(keys@[j])
                && graph_key(keys@[j].t0) == keys@[j] by {
                assert(keys@.contains(keys@[j]));
            }
            assert forall|t: EncodedTerm| r@.contains(t) <==> s.graphs_has(t) by {
                if r@.contains(t) {
                    let j = choose|j: int| 0 <= j < r@.len() && r@[j] == t;
                    assert(s.graphs.contains(graph_key(t)));
                }
                if s.graphs_has(t) {
                    assert(keys@.contains(graph_key(t)));
                    let j = choose|j: int| 0 <= j < keys@.len() && keys@[j] == graph_key(t);
                    assert(r@[j] == t);
                    assert(r@.contains(t));
                }
            }
            assert forall|p: int, w: int| 0 <= p < w < r@.len() implies r@[p] != r@[w] by {
                lemma_key_order_total(keys@[p], keys@[w]);
                assert(graph_key(r@[p]) == keys@[p] && graph_key(r@[w]) == keys@[w]);
            }
        }
        r
    }

    /// Inserts a quad; returns whether it was absent. A fresh quad gets one
    /// row in every index of its group, its lexical forms go into the side
    /// table, and its graph, when named, into the registry.
    pub fn insert_quad(&mut self, quad: &Quad) -> (fresh: bool)
        requires
            old(self)@.wf(),
        ensures
            final(self)@.wf(),
            fresh == !old(self)@.has(encode_quad_spec(quad@)),
            forall|x: EncodedQuad| #[trigger]
                final(self)@.has(x) <==> old(self)@.has(x) || x == encode_quad_spec(quad@),
            forall|t: EncodedTerm| #[trigger]
                final(self)@.graphs_has(t) <==> old(self)@.graphs_has(t) || (fresh
                    && encode_quad_spec(quad@).graph_name != dg() && t == encode_quad_spec(
                    quad@,
                ).graph_name),
            fresh ==> final(self)@.id2str == old(self)@.id2str.union_prefer_right(
                quad_strs(quad@),
            ),
            !fresh ==> final(self)@ == old(self)@,
            final(self)@.count() == old(self)@.count() + if fresh {
                1int
            } else {
                0int
            },
    {
        let e = encode_quad(quad);
        proof {
            lemma_quad_view_wf(quad);
            lemma_encoded_quad_kinds_ok(quad@);
        }
        let ghost e_s = encode_quad_spec(quad@);
        let ghost olds = old(self)@;
        if e.graph_name.is_default_graph() {
            let fresh = self.dspo.insert(encode_index_key(QuadEncoding::Dspo, &e));
            if !fresh {
                proof {
                    assert(olds.has(e_s));
                    assert(self@ == olds);
                }
                return false;
            }
            let fresh2 = self.dpos.insert(encode_index_key(QuadEncoding::Dpos, &e));
            let fresh3 = self.dosp.insert(encode_index_key(QuadEncoding::Dosp, &e));
            insert_subject_strs(&mut self.id2str, &quad.subject);
            insert_predicate_strs(&mut self.id2str, &quad.predicate);
            insert_term_strs(&mut self.id2str, &quad.object);
            insert_graph_strs(&mut self.id2str, &quad.graph_name);
            proof {
                let news = self@;
                assert(fresh2 && fresh3);
                assert(news.id2str =~= olds.id2str.union_prefer_right(quad_strs(quad@)));
                self.lemma_after_default_insert(olds, e_s, quad@);
            }
            true
        } else {
            let fresh = self.spog.insert(encode_index_key(QuadEncoding::Spog, &e));
            if !fresh {
                proof {
                    assert(olds.has(e_s));
                    assert(self@ == olds);
                }
                return false;
            }
            let fresh2 = self.posg.insert(encode_index_key(QuadEncoding::Posg, &e));
            let fresh3 = self.ospg.insert(encode_index_key(QuadEncoding::Ospg, &e));
            let fresh4 = self.gspo.insert(encode_index_key(QuadEncoding::Gspo, &e));
            let fresh5 = self.gpos.insert(encode_index_key(QuadEncoding::Gpos, &e));
            let fresh6 = self.gosp.insert(encode_index_key(QuadEncoding::Gosp, &e));
            let gk = make_graph_key(&e.graph_name);
            let gfresh = self.graphs.insert(gk);
            insert_subject_strs(&mut self.id2str, &quad.subject);
            insert_predicate_strs(&mut self.id2str, &quad.predicate);
            insert_term_strs(&mut self.id2str, &quad.object);
            insert_graph_strs(&mut self.id2str, &quad.graph_name);
            proof {
                let news = self@;
                assert(fresh2 && fresh3 && fresh4 && fresh5 && fresh6);
                assert(news.id2str =~= olds.id2str.union_prefer_right(quad_strs(quad@)));
                self.lemma_after_named_insert(olds, e_s, quad@);
            }
            true
        }
    }

    /// The invariant and the membership contract after a fresh insert of a
    /// default-graph quad.
    proof fn lemma_after_default_insert(&self, olds: StateV, e: EncodedQuad, qv: crate::term::QuadV)
        requires
            olds.wf(),
            e == encode_quad_spec(qv),
            quad_kinds_ok(e),
            e.graph_name == dg(),
            !olds.dspo.contains(dspo_key(e)),
            sorted(self@.dspo),
            sorted(self@.dpos),
            sorted(self@.dosp),
            forall|x: IndexKey| #[trigger]
                self@.dspo.contains(x) <==> olds.dspo.contains(x) || x == dspo_key(e),
            forall|x: IndexKey| #[trigger]
                self@.dpos.contains(x) <==> olds.dpos.contains(x) || x == dpos_key(e),
            forall|x: IndexKey| #[trigger]
                self@.dosp.contains(x) <==> olds.dosp.contains(x) || x == dosp_key(e),
            self@.dspo.len() == olds.dspo.len() + 1,
            self@.dpos.len() == olds.dpos.len() + 1,
            self@.dosp.len() == olds.dosp.len() + 1,
            self@.spog == olds.spog,
            self@.posg == olds.posg,
            self@.ospg == olds.ospg,
            self@.gspo == olds.gspo,
            self@.gpos == olds.gpos,
            self@.gosp == olds.gosp,
            self@.graphs == olds.graphs,
            self@.id2str == olds.id2str.union_prefer_right(quad_strs(qv)),
        ensures
            self@.wf(),
            forall|x: EncodedQuad| #[trigger] self@.has(x) <==> olds.has(x) || x == e,
            forall|t: EncodedTerm| #[trigger] self@.graphs_has(t) <==> olds.graphs_has(t),
    {
        let news = self@;
        assert forall|k: IndexKey| #[trigger]
            news.dspo.contains(k) implies key_shaped(QuadEncoding::Dspo, k) && quad_kinds_ok(
            decode_key_spec(QuadEncoding::Dspo, k),
        ) by {
            if !olds.dspo.contains(k) {
                lemma_key_codec(QuadEncoding::Dspo, e, k);
            }
        }
        assert forall|k: IndexKey| #[trigger]
            news.dpos.contains(k) implies key_shaped(QuadEncoding::Dpos, k) && quad_kinds_ok(
            decode_key_spec(QuadEncoding::Dpos, k),
        ) by {
            if !olds.dpos.contains(k) {
                lemma_key_codec(QuadEncoding::Dpos, e, k);
            }
        }
        assert forall|k: IndexKey| #[trigger]
            news.dosp.contains(k) implies key_shaped(QuadEncoding::Dosp, k) && quad_kinds_ok(
            decode_key_spec(QuadEncoding::Dosp, k),
        ) by {
            if !olds.dosp.contains(k) {
                lemma_key_codec(QuadEncoding::Dosp, e, k);
            }
        }
        assert forall|q: EncodedQuad|
            #![trigger news.dpos.contains(dpos_key(q))]
            #![trigger news.dspo.contains(dspo_key(q))]
            q.graph_name == dg() implies (news.dpos.contains(dpos_key(q)) <==> news.dspo.contains(
            dspo_key(q),
        )) by {
            assert(dpos_key(q) == dpos_key(e) <==> q == e);
            assert(dspo_key(q) == dspo_key(e) <==> q == e);
        }
        assert forall|q: EncodedQuad|
            #![trigger news.dosp.contains(dosp_key(q))]
            #![trigger news.dspo.contains(dspo_key(q))]
            q.graph_name == dg() implies (news.dosp.contains(dosp_key(q)) <==> news.dspo.contains(
            dspo_key(q),
        )) by {
            assert(dosp_key(q) == dosp_key(e) <==> q == e);
            assert(dspo_key(q) == dspo_key(e) <==> q == e);
        }
        assert(news.wf_hash()) by {
            lemma_quad_strs_hashes(qv);
            assert forall|h: u128| #[trigger]
                news.id2str.contains_key(h) implies str_hash(news.id2str[h]) == h by {
                if quad_strs(qv).contains_key(h) {
                    assert(news.id2str[h] == quad_strs(qv)[h]);
                } else {
                    assert(news.id2str[h] == olds.id2str[h]);
                }
            }
        }
        assert(news.wf_strs()) by {
            assert forall|h: u128| olds.id2str.contains_key(h) implies news.id2str.contains_key(
                h,
            ) by {}
            assert forall|q: EncodedQuad| #[trigger]
                news.has(q) implies decode_quad_spec(q, news.id2str) is Some by {
                if olds.has(q) {
                    lemma_decode_quad_monotone(q, olds.id2str, news.id2str);
                } else {
                    assert(q.graph_name == dg() && news.dspo.contains(dspo_key(q)));
                    assert(dspo_key(q) == dspo_key(e));
                    assert(q == e);
                    assert forall|h: u128| quad_strs(qv).contains_key(h) implies news
                        .id2str.contains_key(h) by {}
                    lemma_encoded_quad_decodable(qv, news.id2str);
                }
            }
            assert forall|k: IndexKey| #[trigger]
                news.graphs.contains(k) implies decode_term_spec(k.t0, news.id2str) is Some by {
                lemma_decode_term_monotone(k.t0, olds.id2str, news.id2str);
            }
        }
        assert forall|x: EncodedQuad| #[trigger] news.has(x) <==> olds.has(x) || x == e by {
            if x.graph_name == dg() {
                assert(dspo_key(x) == dspo_key(e) <==> x == e);
            }
        }
    }

    /// The invariant and the membership contract after a fresh insert of a
    /// named-graph quad.
    proof fn lemma_after_named_insert(&self, olds: StateV, e: EncodedQuad, qv: crate::term::QuadV)
        requires
            olds.wf(),
            e == encode_quad_spec(qv),
            quad_kinds_ok(e),
            e.graph_name != dg(),
            !olds.spog.contains(spog_key(e)),
            sorted(self@.spog),
            sorted(self@.posg),
            sorted(self@.ospg),
            sorted(self@.gspo),
            sorted(self@.gpos),
            sorted(self@.gosp),
            sorted(self@.graphs),
            forall|x: IndexKey| #[trigger]
                self@.spog.contains(x) <==> olds.spog.contains(x) || x == spog_key(e),
            forall|x: IndexKey| #[trigger]
                self@.posg.contains(x) <==> olds.posg.contains(x) || x == posg_key(e),
            forall|x: IndexKey| #[trigger]
                self@.ospg.contains(x) <==> olds.ospg.contains(x) || x == ospg_key(e),
            forall|x: IndexKey| #[trigger]
                self@.gspo.contains(x) <==> olds.gspo.contains(x) || x == gspo_key(e),
            forall|x: IndexKey| #[trigger]
                self@.gpos.contains(x) <==> olds.gpos.contains(x) || x == gpos_key(e),
            forall|x: IndexKey| #[trigger]
                self@.gosp.contains(x) <==> olds.gosp.contains(x) || x == gosp_key(e),
            forall|x: IndexKey| #[trigger]
                self@.graphs.contains(x) <==> olds.graphs.contains(x) || x == graph_key(
                    e.graph_name,
                ),
            self@.spog.len() == olds.spog.len() + 1,
            self@.posg.len() == olds.posg.len() + 1,
            self@.ospg.len() == olds.ospg.len() + 1,
            self@.gspo.len() == olds.gspo.len() + 1,
            self@.gpos.len() == olds.gpos.len() + 1,
            self@.gosp.len() == olds.gosp.len() + 1,
            self@.dspo == olds.dspo,
            self@.dpos == olds.dpos,
            self@.dosp == olds.dosp,
            self@.id2str == olds.id2str.union_prefer_right(quad_strs(qv)),
        ensures
            self@.wf(),
            forall|x: EncodedQuad| #[trigger] self@.has(x) <==> olds.has(x) || x == e,
            forall|t: EncodedTerm| #[trigger]
                self@.graphs_has(t) <==> olds.graphs_has(t) || t == e.graph_name,
    {
        let news = self@;
        assert forall|k: IndexKey| #[trigger]
            news.spog.contains(k) implies key_shaped(QuadEncoding::Spog, k) && quad_kinds_ok(
            decode_key_spec(QuadEncoding::Spog, k),
        ) by {
            if !olds.spog.contains(k) {
                lemma_key_codec(QuadEncoding::Spog, e, k);
            }
        }
        assert forall|k: IndexKey| #[trigger]
            news.posg.contains(k) implies key_shaped(QuadEncoding::Posg, k) && quad_kinds_ok(
            decode_key_spec(QuadEncoding::Posg, k),
        ) by {
            if !olds.posg.contains(k) {
                lemma_key_codec(QuadEncoding::Posg, e, k);
            }
        }
        assert forall|k: IndexKey| #[trigger]
            news.ospg.contains(k) implies key_shaped(QuadEncoding::Ospg, k) && quad_kinds_ok(
            decode_key_spec(QuadEncoding::Ospg, k),
        ) by {
            if !olds.ospg.contains(k) {
                lemma_key_codec(QuadEncoding::Ospg, e, k);
            }
        }
        assert forall|k: IndexKey| #[trigger]
            news.gspo.contains(k) implies key_shaped(QuadEncoding::Gspo, k) && quad_kinds_ok(
            decode_key_spec(QuadEncoding::Gspo, k),
        ) by {
            if !olds.gspo.contains(k) {
                lemma_key_codec(QuadEncoding::Gspo, e, k);
            }
        }
        assert forall|k: IndexKey| #[trigger]
            news.gpos.contains(k) implies key_shaped(QuadEncoding::Gpos, k) && quad_kinds_ok(
            decode_key_spec(QuadEncoding::Gpos, k),
        ) by {
            if !olds.gpos.contains(k) {
                lemma_key_codec(QuadEncoding::Gpos, e, k);
            }
        }
        assert forall|k: IndexKey| #[trigger]
            news.gosp.contains(k) implies key_shaped(QuadEncoding::Gosp, k) && quad_kinds_ok(
            decode_key_spec(QuadEncoding::Gosp, k),
        ) by {
            if !olds.gosp.contains(k) {
                lemma_key_codec(QuadEncoding::Gosp, e, k);
            }
        }
        assert forall|k: IndexKey| #[trigger]
            news.graphs.contains(k) implies (k.t0 is NamedNode || k.t0 is BlankNode) && k.t1 == dg()
            && k.t2 == dg() && k.t3 == dg() by {}
        assert forall|q: EncodedQuad|
            #![trigger news.posg.contains(posg_key(q))]
            #![trigger news.spog.contains(spog_key(q))]
            q.graph_name != dg() implies (news.posg.contains(posg_key(q)) <==> news.spog.contains(
            spog_key(q),
        )) by {
            assert(posg_key(q) == posg_key(e) <==> q == e);
            assert(spog_key(q) == spog_key(e) <==> q == e);
        }
        assert forall|q: EncodedQuad|
            #![trigger news.ospg.contains(ospg_key(q))]
            #![trigger news.spog.contains(spog_key(q))]
            q.graph_name != dg() implies (news.ospg.contains(ospg_key(q)) <==> news.spog.contains(
            spog_key(q),
        )) by {
            assert(ospg_key(q) == ospg_key(e) <==> q == e);
            assert(spog_key(q) == spog_key(e) <==> q == e);
        }
        assert forall|q: EncodedQuad|
            #![trigger news.gspo.contains(gspo_key(q))]
            #![trigger news.spog.contains(spog_key(q))]
            q.graph_name != dg() implies (news.gspo.contains(gspo_key(q)) <==> news.spog.contains(
            spog_key(q),
        )) by {
            assert(gspo_key(q) == gspo_key(e) <==> q == e);
            assert(spog_key(q) == spog_key(e) <==> q == e);
        }
        assert forall|q: EncodedQuad|
            #![trigger news.gpos.contains(gpos_key(q))]
            #![trigger news.spog.contains(spog_key(q))]
            q.graph_name != dg() implies (news.gpos.contains(gpos_key(q)) <==> news.spog.contains(
            spog_key(q),
        )) by {
            assert(gpos_key(q) == gpos_key(e) <==> q == e);
            assert(spog_key(q) == spog_key(e) <==> q == e);
        }
        assert forall|q: EncodedQuad|
            #![trigger news.gosp.contains(gosp_key(q))]
            #![trigger news.spog.contains(spog_key(q))]
            q.graph_name != dg() implies (news.gosp.contains(gosp_key(q)) <==> news.spog.contains(
            spog_key(q),
        )) by {
            assert(gosp_key(q) == gosp_key(e) <==> q == e);
            assert(spog_key(q) == spog_key(e) <==> q == e);
        }
        assert forall|q: EncodedQuad| #[trigger]
            news.spog.contains(spog_key(q)) && q.graph_name != dg() implies news.graphs.contains(
            graph_key(q.graph_name),
        ) by {
            if !olds.spog.contains(spog_key(q)) {
                assert(spog_key(q) == spog_key(e));
                assert(q == e);
            }
        }
        assert(news.wf_hash()) by {
            lemma_quad_strs_hashes(qv);
            assert forall|h: u128| #[trigger]
                news.id2str.contains_key(h) implies str_hash(news.id2str[h]) == h by {
                if quad_strs(qv).contains_key(h) {
                    assert(news.id2str[h] == quad_strs(qv)[h]);
                } else {
                    assert(news.id2str[h] == olds.id2str[h]);
                }
            }
        }
        assert(news.wf_strs()) by {
            assert forall|h: u128| olds.id2str.contains_key(h) implies news.id2str.contains_key(
                h,
            ) by {}
            assert forall|q: EncodedQuad| #[trigger]
                news.has(q) implies decode_quad_spec(q, news.id2str) is Some by {
                if olds.has(q) {
                    lemma_decode_quad_monotone(q, olds.id2str, news.id2str);
                } else {
                    assert(q.graph_name != dg() && news.spog.contains(spog_key(q)));
                    assert(spog_key(q) == spog_key(e));
                    assert(q == e);
                    assert forall|h: u128| quad_strs(qv).contains_key(h) implies news
                        .id2str.contains_key(h) by {}
                    lemma_encoded_quad_decodable(qv, news.id2str);
                }
            }
            assert forall|k: IndexKey| #[trigger]
                news.graphs.contains(k) implies decode_term_spec(k.t0, news.id2str) is Some by {
                if olds.graphs.contains(k) {
                    lemma_decode_term_monotone(k.t0, olds.id2str, news.id2str);
                } else {
                    assert(k == graph_key(e.graph_name));
                    assert(k.t0 == encode_term_spec(qv.graph_name));
                    assert forall|h: u128|
                        term_strs(qv.graph_name).contains_key(h) implies news.id2str.contains_key(
                        h,
                    ) by {
                        assert(quad_strs(qv).contains_key(h));
                    }
                    lemma_encoded_term_decodable(qv.graph_name, news.id2str);
                }
            }
        }
        assert forall|x: EncodedQuad| #[trigger] news.has(x) <==> olds.has(x) || x == e by {
            if x.graph_name != dg() {
                assert(spog_key(x) == spog_key(e) <==> x == e);
            }
        }
        assert forall|t: EncodedTerm| #[trigger]
            news.graphs_has(t) <==> olds.graphs_has(t) || t == e.graph_name by {
            assert(graph_key(t) == graph_key(e.graph_name) <==> t == e.graph_name);
        }
    }

    /// Removes the rows of an encoded quad; returns whether it was stored.
    /// Side-table rows are never reclaimed.
    pub fn remove_encoded(&mut self, e: &EncodedQuad) -> (removed: bool)
        requires
            old(self)@.wf(),
        ensures
            final(self)@.wf(),
            removed == old(self)@.has(*e),
            forall|x: EncodedQuad| #[trigger]
                final(self)@.has(x) <==> old(self)@.has(x) && x != *e,
            forall|t: EncodedTerm| #[trigger]
                final(self)@.graphs_has(t) <==> old(self)@.graphs_has(t),
            final(self)@.id2str == old(self)@.id2str,
            !removed ==> final(self)@ == old(self)@,
            final(self)@.count() == old(self)@.count() - if removed {
                1int
            } else {
                0int
            },
    {
        let ghost olds = old(self)@;
        if e.graph_name.is_default_graph() {
            let removed = self.dspo.remove(&encode_index_key(QuadEncoding::Dspo, e));
            if !removed {
                proof {
                    assert(self@ == olds);
                    assert forall|x: EncodedQuad| #[trigger]
                        self@.has(x) <==> olds.has(x) && x != *e by {
                        if x.graph_name == dg() {
                            assert(dspo_key(x) == dspo_key(*e) <==> x == *e);
                        }
                    }
                }
                return false;
            }
            let r2 = self.dpos.remove(&encode_index_key(QuadEncoding::Dpos, e));
            let r3 = self.dosp.remove(&encode_index_key(QuadEncoding::Dosp, e));
            proof {
                assert(r2 && r3);
                self.lemma_after_default_remove(olds, *e);
            }
            true
        } else {
            let removed = self.spog.remove(&encode_index_key(QuadEncoding::Spog, e));
            if !removed {
                proof {
                    assert(self@ == olds);
                    assert forall|x: EncodedQuad| #[trigger]
                        self@.has(x) <==> olds.has(x) && x != *e by {
                        if x.graph_name != dg() {
                            assert(spog_key(x) == spog_key(*e) <==> x == *e);
                        }
                    }
                }
                return false;
            }
            let r2 = self.posg.remove(&encode_index_key(QuadEncoding::Posg, e));
            let r3 = self.ospg.remove(&encode_index_key(QuadEncoding::Ospg, e));
            let r4 = self.gspo.remove(&encode_index_key(QuadEncoding::Gspo, e));
            let r5 = self.gpos.remove(&encode_index_key(QuadEncoding::Gpos, e));
            let r6 = self.gosp.remove(&encode_index_key(QuadEncoding::Gosp, e));
            proof {
                assert(r2 && r3 && r4 && r5 && r6);
                self.lemma_after_named_remove(olds, *e);
            }
            true
        }
    }

    /// The invariant and the membership contract after removing the rows of
    /// a default-graph quad.
    proof fn lemma_after_default_remove(&self, olds: StateV, e: EncodedQuad)
        requires
            olds.wf(),
            e.graph_name == dg(),
            olds.dspo.contains(dspo_key(e)),
            sorted(self@.dspo),
            sorted(self@.dpos),
            sorted(self@.dosp),
            forall|x: IndexKey| #[trigger]
                self@.dspo.contains(x) <==> olds.dspo.contains(x) && x != dspo_key(e),
            forall|x: IndexKey| #[trigger]
                self@.dpos.contains(x) <==> olds.dpos.contains(x) && x != dpos_key(e),
            forall|x: IndexKey| #[trigger]
                self@.dosp.contains(x) <==> olds.dosp.contains(x) && x != dosp_key(e),
            self@.dspo.len() == olds.dspo.len() - 1,
            self@.dpos.len() == olds.dpos.len() - 1,
            self@.dosp.len() == olds.dosp.len() - 1,
            self@.spog == olds.spog,
            self@.posg == olds.posg,
            self@.ospg == olds.ospg,
            self@.gspo == olds.gspo,
            self@.gpos == olds.gpos,
            self@.gosp == olds.gosp,
            self@.graphs == olds.graphs,
            self@.id2str == olds.id2str,
        ensures
            self@.wf(),
            forall|x: EncodedQuad| #[trigger] self@.has(x) <==> olds.has(x) && x != e,
    {
        let news = self@;
        assert forall|k: IndexKey| #[trigger]
            news.dspo.contains(k) implies key_shaped(QuadEncoding::Dspo, k) && quad_kinds_ok(
            decode_key_spec(QuadEncoding::Dspo, k),
        ) by {}
        assert forall|k: IndexKey| #[trigger]
            news.dpos.contains(k) implies key_shaped(QuadEncoding::Dpos, k) && quad_kinds_ok(
            decode_key_spec(QuadEncoding::Dpos, k),
        ) by {}
        assert forall|k: IndexKey| #[trigger]
            news.dosp.contains(k) implies key_shaped(QuadEncoding::Dosp, k) && quad_kinds_ok(
            decode_key_spec(QuadEncoding::Dosp, k),
        ) by {}
        assert forall|q: EncodedQuad|
            #![trigger news.dpos.contains(dpos_key(q))]
            #![trigger news.dspo.contains(dspo_key(q))]
            q.graph_name == dg() implies (news.dpos.contains(dpos_key(q)) <==> news.dspo.contains(
            dspo_key(q),
        )) by {
            assert(dpos_key(q) == dpos_key(e) <==> q == e);
            assert(dspo_key(q) == dspo_key(e) <==> q == e);
        }
        assert forall|q: EncodedQuad|
            #![trigger news.dosp.contains(dosp_key(q))]
            #![trigger news.dspo.contains(dspo_key(q))]
            q.graph_name == dg() implies (news.dosp.contains(dosp_key(q)) <==> news.dspo.contains(
            dspo_key(q),
        )) by {
            assert(dosp_key(q) == dosp_key(e) <==> q == e);
            assert(dspo_key(q) == dspo_key(e) <==> q == e);
        }
        assert(news.wf_strs()) by {
            assert forall|q: EncodedQuad| #[trigger]
                news.has(q) implies decode_quad_spec(q, news.id2str) is Some by {
                assert(olds.has(q));
            }
        }
        assert forall|x: EncodedQuad| #[trigger] news.has(x) <==> olds.has(x) && x != e by {
            if x.graph_name == dg() {
                assert(dspo_key(x) == dspo_key(e) <==> x == e);
            }
        }
    }

    /// The invariant and the membership contract after removing the rows of
    /// a named-graph quad. The registry row stays.
    proof fn lemma_after_named_remove(&self, olds: StateV, e: EncodedQuad)
        requires
            olds.wf(),
            e.graph_name != dg(),
            olds.spog.contains(spog_key(e)),
            sorted(self@.spog),
            sorted(self@.posg),
            sorted(self@.ospg),
            sorted(self@.gspo),
            sorted(self@.gpos),
            sorted(self@.gosp),
            forall|x: IndexKey| #[trigger]
                self@.spog.contains(x) <==> olds.spog.contains(x) && x != spog_key(e),
            forall|x: IndexKey| #[trigger]
                self@.posg.contains(x) <==> olds.posg.contains(x) && x != posg_key(e),
            forall|x: IndexKey| #[trigger]
                self@.ospg.contains(x) <==> olds.ospg.contains(x) && x != ospg_key(e),
            forall|x: IndexKey| #[trigger]
                self@.gspo.contains(x) <==> olds.gspo.contains(x) && x != gspo_key(e),
            forall|x: IndexKey| #[trigger]
                self@.gpos.contains(x) <==> olds.gpos.contains(x) && x != gpos_key(e),
            forall|x: IndexKey| #[trigger]
                self@.gosp.contains(x) <==> olds.gosp.contains(x) && x != gosp_key(e),
            self@.spog.len() == olds.spog.len() - 1,
            self@.posg.len() == olds.posg.len() - 1,
            self@.ospg.len() == olds.ospg.len() - 1,
            self@.gspo.len() == olds.gspo.len() - 1,
            self@.gpos.len() == olds.gpos.len() - 1,
            self@.gosp.len() == olds.gosp.len() - 1,
            self@.dspo == olds.dspo,
            self@.dpos == olds.dpos,
            self@.dosp == olds.dosp,
            self@.graphs == olds.graphs,
            self@.id2str == olds.id2str,
        ensures
            self@.wf(),
            forall|x: EncodedQuad| #[trigger] self@.has(x) <==> olds.has(x) && x != e,
    {
        let news = self@;
        assert forall|k: IndexKey| #[trigger]
            news.spog.contains(k) implies key_shaped(QuadEncoding::Spog, k) && quad_kinds_ok(
            decode_key_spec(QuadEncoding::Spog, k),
        ) by {}
        assert forall|k: IndexKey| #[trigger]
            news.posg.contains(k) implies key_shaped(QuadEncoding::Posg, k) && quad_kinds_ok(
            decode_key_spec(QuadEncoding::Posg, k),
        ) by {}
        assert forall|k: IndexKey| #[trigger]
            news.ospg.contains(k) implies key_shaped(QuadEncoding::Ospg, k) && quad_kinds_ok(
            decode_key_spec(QuadEncoding::Ospg, k),
        ) by {}
        assert forall|k: IndexKey| #[trigger]
            news.gspo.contains(k) implies key_shaped(QuadEncoding::Gspo, k) && quad_kinds_ok(
            decode_key_spec(QuadEncoding::Gspo, k),
        ) by {}
        assert forall|k: IndexKey| #[trigger]
            news.gpos.contains(k) implies key_shaped(QuadEncoding::Gpos, k) && quad_kinds_ok(
            decode_key_spec(QuadEncoding::Gpos, k),
        ) by {}
        assert forall|k: IndexKey| #[trigger]
            news.gosp.contains(k) implies key_shaped(QuadEncoding::Gosp, k) && quad_kinds_ok(
            decode_key_spec(QuadEncoding::Gosp, k),
        ) by {}
        assert forall|q: EncodedQuad|
            #![trigger news.posg.contains(posg_key(q))]
            #![trigger news.spog.contains(spog_key(q))]
            q.graph_name != dg() implies (news.posg.contains(posg_key(q)) <==> news.spog.contains(
            spog_key(q),
        )) by {
            assert(posg_key(q) == posg_key(e) <==> q == e);
            assert(spog_key(q) == spog_key(e) <==> q == e);
        }
        assert forall|q: EncodedQuad|
            #![trigger news.ospg.contains(ospg_key(q))]
            #![trigger news.spog.contains(spog_key(q))]
            q.graph_name != dg() implies (news.ospg.contains(ospg_key(q)) <==> news.spog.contains(
            spog_key(q),
        )) by {
            assert(ospg_key(q) == ospg_key(e) <==> q == e);
            assert(spog_key(q) == spog_key(e) <==> q == e);
        }
        assert forall|q: EncodedQuad|
            #![trigger news.gspo.contains(gspo_key(q))]
            #![trigger news.spog.contains(spog_key(q))]
            q.graph_name != dg() implies (news.gspo.contains(gspo_key(q)) <==> news.spog.contains(
            spog_key(q),
        )) by {
            assert(gspo_key(q) == gspo_key(e) <==> q == e);
            assert(spog_key(q) == spog_key(e) <==> q == e);
        }
        assert forall|q: EncodedQuad|
            #![trigger news.gpos.contains(gpos_key(q))]
            #![trigger news.spog.contains(spog_key(q))]
            q.graph_name != dg() implies (news.gpos.contains(gpos_key(q)) <==> news.spog.contains(
            spog_key(q),
        )) by {
            assert(gpos_key(q) == gpos_key(e) <==> q == e);
            assert(spog_key(q) == spog_key(e) <==> q == e);
        }
        assert forall|q: EncodedQuad|
            #![trigger news.gosp.contains(gosp_key(q))]
            #![trigger news.spog.contains(spog_key(q))]
            q.graph_name != dg() implies (news.gosp.contains(gosp_key(q)) <==> news.spog.contains(
            spog_key(q),
        )) by {
            assert(gosp_key(q) == gosp_key(e) <==> q == e);
            assert(spog_key(q) == spog_key(e) <==> q == e);
        }
        assert forall|q: EncodedQuad| #[trigger]
            news.spog.contains(spog_key(q)) && q.graph_name != dg() implies news.graphs.contains(
            graph_key(q.graph_name),
        ) by {
            assert(olds.spog.contains(spog_key(q)));
        }
        assert(news.wf_strs()) by {
            assert forall|q: EncodedQuad| #[trigger]
                news.has(q) implies decode_quad_spec(q, news.id2str) is Some by {
                assert(olds.has(q));
            }
        }
        assert forall|x: EncodedQuad| #[trigger] news.has(x) <==> olds.has(x) && x != e by {
            if x.graph_name != dg() {
                assert(spog_key(x) == spog_key(e) <==> x == e);
            }
        }
    }

    /// Registers a named graph; returns whether it was absent. A freshly
    /// registered graph's lexical form goes into the side table.
    pub fn insert_graph_term(&mut self, g: &NamedOrBlankNode) -> (fresh: bool)
        requires
            old(self)@.wf(),
        ensures
            final(self)@.wf(),
            fresh == !old(self)@.graphs_has(encode_term_spec(g@)),
            forall|t: EncodedTerm| #[trigger]
                final(self)@.graphs_has(t) <==> old(self)@.graphs_has(t) || t == encode_term_spec(
                    g@,
                ),
            forall|x: EncodedQuad| #[trigger] final(self)@.has(x) == old(self)@.has(x),
            fresh ==> final(self)@.id2str == old(self)@.id2str.union_prefer_right(term_strs(g@)),
            !fresh ==> final(self)@ == old(self)@,
            final(self)@.count() == old(self)@.count(),
    {
        let ghost olds = old(self)@;
        let et = encode_named_or_blank_node(g);
        proof {
            assert(et is NamedNode || et is BlankNode);
        }
        let gk = make_graph_key(&et);
        let fresh = self.graphs.insert(gk);
        if !fresh {
            proof {
                assert(self@ == olds);
                assert forall|t: EncodedTerm| #[trigger]
                    self@.graphs_has(t) <==> olds.graphs_has(t) || t == encode_term_spec(g@) by {
                    assert(graph_key(t) == gk <==> t == et);
                }
            }
            return false;
        }
        insert_named_or_blank_strs(&mut self.id2str, g);
        proof {
            let news = self@;
            assert(news.id2str == olds.id2str.union_prefer_right(term_strs(g@)));
            assert forall|h: u128| olds.id2str.contains_key(h) implies news.id2str.contains_key(
                h,
            ) by {}
            assert forall|k: IndexKey| #[trigger]
                news.graphs.contains(k) implies (k.t0 is NamedNode || k.t0 is BlankNode) && k.t1
                == dg() && k.t2 == dg() && k.t3 == dg() by {}
            assert forall|q: EncodedQuad| #[trigger]
                news.spog.contains(spog_key(q)) && q.graph_name != dg() implies news
                .graphs.contains(graph_key(q.graph_name)) by {}
            assert(news.wf_hash()) by {
                lemma_term_strs_hashes(g@);
                assert forall|h: u128| #[trigger]
                    news.id2str.contains_key(h) implies str_hash(news.id2str[h]) == h by {
                    if term_strs(g@).contains_key(h) {
                        assert(news.id2str[h] == term_strs(g@)[h]);
                    } else {
                        assert(news.id2str[h] == olds.id2str[h]);
                    }
                }
            }
            assert(news.wf_strs()) by {
                assert forall|q: EncodedQuad| #[trigger]
                    news.has(q) implies decode_quad_spec(q, news.id2str) is Some by {
                    assert(olds.has(q));
                    lemma_decode_quad_monotone(q, olds.id2str, news.id2str);
                }
                assert forall|k: IndexKey| #[trigger]
                    news.graphs.contains(k) implies decode_term_spec(k.t0, news.id2str)
                    is Some by {
                    if olds.graphs.contains(k) {
                        lemma_decode_term_monotone(k.t0, olds.id2str, news.id2str);
                    } else {
                        assert(k == gk);
                        lemma_encoded_term_decodable(g@, news.id2str);
                    }
                }
            }
            assert forall|t: EncodedTerm| #[trigger]
                news.graphs_has(t) <==> olds.graphs_has(t) || t == encode_term_spec(g@) by {
                assert(graph_key(t) == gk <==> t == et);
            }
        }
        true
    }

    /// Removes the rows of every quad in the list.
    pub fn remove_many(&mut self, victims: &Vec<EncodedQuad>)
        requires
            old(self)@.wf(),
        ensures
            final(self)@.wf(),
            forall|x: EncodedQuad| #[trigger]
                final(self)@.has(x) <==> old(self)@.has(x) && !victims@.contains(x),
            forall|t: EncodedTerm| #[trigger]
                final(self)@.graphs_has(t) <==> old(self)@.graphs_has(t),
            final(self)@.id2str == old(self)@.id2str,
    {
        let n = victims.len();
        let mut i: usize = 0;
        proof {
            assert(victims@.take(0) =~= Seq::<EncodedQuad>::empty());
        }
        while i < n
            invariant
                n == victims@.len(),
                0 <= i <= n,
                self@.wf(),
                forall|x: EncodedQuad| #[trigger]
                    self@.has(x) <==> old(self)@.has(x) && !victims@.take(i as int).contains(x),
                forall|t: EncodedTerm| #[trigger]
                    self@.graphs_has(t) <==> old(self)@.graphs_has(t),
                self@.id2str == old(self)@.id2str,
            decreases n - i,
        {
            self.remove_encoded(&victims[i]);
            proof {
                assert(victims@.take(i + 1) =~= victims@.take(i as int).push(victims@[i as int]));
                assert forall|x: EncodedQuad|
                    victims@.take(i + 1).contains(x) <==> victims@.take(i as int).contains(x) || x
                        == victims@[i as int] by {
                    let part = victims@.take(i as int);
                    let whole = victims@.take(i + 1);
                    if whole.contains(x) {
                        let w = choose|w: int| 0 <= w < whole.len() && whole[w] == x;
                        if w < part.len() {
                            assert(part[w] == x);
                            assert(part.contains(x));
                        }
                    }
                    if part.contains(x) {
                        let w = choose|w: int| 0 <= w < part.len() && part[w] == x;
                        assert(whole[w] == x);
                        assert(whole.contains(x));
                    }
                    if x == victims@[i as int] {
                        assert(whole[whole.len() - 1] == x);
                        assert(whole.contains(x));
                    }
                }
            }
            i = i + 1;
        }
        proof {
            assert(victims@.take(n as int) =~= victims@);
        }
    }

    /// Unregisters a named graph row; the caller removes its quads first.
    pub fn remove_graph_term(&mut self, t: &EncodedTerm) -> (removed: bool)
        requires
            old(self)@.wf(),
            forall|q: EncodedQuad| #[trigger] old(self)@.has(q) ==> q.graph_name != *t,
        ensures
            final(self)@.wf(),
            removed == old(self)@.graphs_has(*t),
            forall|x: EncodedTerm| #[trigger]
                final(self)@.graphs_has(x) <==> old(self)@.graphs_has(x) && x != *t,
            forall|x: EncodedQuad| #[trigger] final(self)@.has(x) == old(self)@.has(x),
            final(self)@.id2str == old(self)@.id2str,
            !removed ==> final(self)@ == old(self)@,
            final(self)@.count() == old(self)@.count(),
    {
        let ghost olds = old(self)@;
        let gk = make_graph_key(t);
        let removed = self.graphs.remove(&gk);
        proof {
            let news = self@;
            if !removed {
                assert(news == olds);
            }
            assert forall|x: EncodedTerm| #[trigger]
                news.graphs_has(x) <==> olds.graphs_has(x) && x != *t by {
                assert(graph_key(x) == gk <==> x == *t);
            }
            assert forall|k: IndexKey| #[trigger]
                news.graphs.contains(k) implies (k.t0 is NamedNode || k.t0 is BlankNode) && k.t1
                == dg() && k.t2 == dg() && k.t3 == dg() by {}
            assert forall|q: EncodedQuad| #[trigger]
                news.spog.contains(spog_key(q)) && q.graph_name != dg() implies news
                .graphs.contains(graph_key(q.graph_name)) by {
                assert(olds.has(q));
                assert(q.graph_name != *t);
                assert(olds.graphs.contains(graph_key(q.graph_name)));
            }
            assert(news.wf_strs()) by {
                assert forall|q: EncodedQuad| #[trigger]
                    news.has(q) implies decode_quad_spec(q, news.id2str) is Some by {
                    assert(olds.has(q));
                }
            }
        }
        removed
    }
}

} // verus!
