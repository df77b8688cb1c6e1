//! Low level storage primitives: snapshots, transactions, and quad-pattern
//! retrieval over the nine-index layout.

use crate::codec::{
    decode_quad_spec, decode_term_spec, encode_quad_spec, encode_term_spec, quad_strs,
};
use crate::encoded::{EncodedQuad, EncodedTerm, StrHash};
use crate::error::StorageError;
use crate::keyvec::key_matches_prefix;
use crate::state::{
    dg, dspo_key, dosp_key, dpos_key, gosp_key, gpos_key, gspo_key, is_triple_encoding, ospg_key,
    posg_key, spog_key, QuadEncoding, StateV, StorageState,
};
use crate::term::{GraphName, NamedOrBlankNode, Quad};
use vstd::prelude::*;

verus! {

/// The schema of one column family of the backing key-value store.
pub struct ColumnFamilyDefinition {
    pub name: &'static str,
    pub use_iter: bool,
    pub min_prefix_size: usize,
    pub unordered_writes: bool,
}

/// A quad pattern component: a bound term or a wildcard.
pub open spec fn sel(o: Option<&EncodedTerm>) -> Option<EncodedTerm> {
    match o {
        Some(t) => Some(*t),
        None => None,
    }
}

/// Whether a quad matches a pattern, where `None` is a wildcard.
pub open spec fn quad_matches(
    q: EncodedQuad,
    s: Option<EncodedTerm>,
    p: Option<EncodedTerm>,
    o: Option<EncodedTerm>,
    g: Option<EncodedTerm>,
) -> bool {
    &&& (s is Some ==> q.subject == s->0)
    &&& (p is Some ==> q.predicate == p->0)
    &&& (o is Some ==> q.object == o->0)
    &&& (g is Some ==> q.graph_name == g->0)
}

/// Concatenation membership: an element of `a + b` is an element of one of
/// the parts.
pub proof fn lemma_concat_members(a: Seq<EncodedQuad>, b: Seq<EncodedQuad>)
    ensures
        forall|x: EncodedQuad| #[trigger] (a + b).contains(x) <==> a.contains(x) || b.contains(x),
{
    assert forall|x: EncodedQuad| (a + b).contains(x) <==> a.contains(x) || b.contains(x) by {
        if (a + b).contains(x) {
            let i = choose|i: int| 0 <= i < (a + b).len() && (a + b)[i] == x;
            if i < a.len() {
                assert(a[i] == x);
                assert(a.contains(x));
            } else {
                assert(b[i - a.len()] == x);
                assert(b.contains(x));
            }
        }
        if a.contains(x) {
            let i = choose|i: int| 0 <= i < a.len() && a[i] == x;
            assert((a + b)[i] == x);
            assert((a + b).contains(x));
        }
        if b.contains(x) {
            let i = choose|i: int| 0 <= i < b.len() && b[i] == x;
            assert((a + b)[a.len() + i] == x);
            assert((a + b).contains(x));
        }
    }
}

/// Concatenating duplicate-free, disjoint sequences gives a duplicate-free
/// sequence.
pub proof fn lemma_concat_no_dup(a: Seq<EncodedQuad>, b: Seq<EncodedQuad>)
    requires
        a.no_duplicates(),
        b.no_duplicates(),
        forall|x: EncodedQuad| !(#[trigger] a.contains(x) && b.contains(x)),
    ensures
        (a + b).no_duplicates(),
{
    assert forall|i: int, j: int|
        0 <= i < j < (a + b).len() implies (a + b)[i] != (a + b)[j] by {
        if i < a.len() && j < a.len() {
        } else if i < a.len() && j >= a.len() {
            assert(a.contains(a[i]));
            assert(b.contains(b[j - a.len()]));
        } else {
        }
    }
}

/// An iterator over the decoded quads of one index scan. Scans never fail in
/// memory; items keep the fallible shape so that callers treat them as the
/// backend contract demands.
pub struct DecodingQuadIterator {
    quads: Vec<EncodedQuad>,
    pos: usize,
}

impl DecodingQuadIterator {
    /// What is left to yield.
    pub closed spec fn remaining(&self) -> Seq<EncodedQuad> {
        self.quads@.skip(self.pos as int)
    }

    pub closed spec fn wf(&self) -> bool {
        self.pos <= self.quads@.len()
    }

    fn from_vec(quads: Vec<EncodedQuad>) -> (r: Self)
        ensures
            r.wf(),
            r.remaining() == quads@,
    {
        let r = DecodingQuadIterator { quads, pos: 0 };
        proof {
            assert(r.remaining() =~= r.quads@);
        }
        r
    }

    /// What is left to yield, as a vector.
    pub fn remaining_vec(&self) -> (r: Vec<EncodedQuad>)
        requires
            self.wf(),
        ensures
            r@ == self.remaining(),
    {
        let n = self.quads.len();
        let mut r: Vec<EncodedQuad> = Vec::new();
        let mut i: usize = self.pos;
        proof {
            assert(self.quads@.subrange(self.pos as int, self.pos as int) =~= Seq::<
                EncodedQuad,
            >::empty());
        }
        while i < n
            invariant
                self.pos <= i <= n,
                n == self.quads@.len(),
                r@ == self.quads@.subrange(self.pos as int, i as int),
            decreases n - i,
        {
            r.push(self.quads[i]);
            proof {
                assert(self.quads@.subrange(self.pos as int, i + 1) =~= self.quads@.subrange(
                    self.pos as int,
                    i as int,
                ).push(self.quads@[i as int]));
            }
            i = i + 1;
        }
        proof {
            assert(self.quads@.subrange(self.pos as int, n as int) =~= self.remaining());
        }
        r
    }

    /// The next quad, or `None` once exhausted.
    pub fn next(&mut self) -> (r: Option<Result<EncodedQuad, StorageError>>)
        requires
            old(self).wf(),
        ensures
            final(self).wf(),
            old(self).remaining().len() == 0 ==> r is None && final(self).remaining()
                == old(self).remaining(),
            old(self).remaining().len() > 0 ==> r == Some(
                Result::<EncodedQuad, StorageError>::Ok(old(self).remaining()[0]),
            ) && final(self).remaining() == old(self).remaining().skip(1),
    {
        if self.pos < self.quads.len() {
            let q = self.quads[self.pos];
            self.pos = self.pos + 1;
            proof {
                assert(final(self).remaining() =~= old(self).remaining().skip(1));
                assert(old(self).remaining()[0] == q);
            }
            Some(Ok(q))
        } else {
            proof {
                assert(old(self).remaining().len() == 0);
            }
            None
        }
    }
}

/// Two index scans chained: all of the first, then all of the second. When a
/// pattern leaves the graph unbound, the default-graph scan comes first.
pub struct ChainedDecodingQuadIterator {
    first: DecodingQuadIterator,
    second: Option<DecodingQuadIterator>,
}

impl ChainedDecodingQuadIterator {
    /// What is left to yield, both parts.
    pub closed spec fn remaining(&self) -> Seq<EncodedQuad> {
        match self.second {
            Some(s) => self.first.remaining() + s.remaining(),
            None => self.first.remaining(),
        }
    }

    pub closed spec fn wf(&self) -> bool {
        self.first.wf() && match self.second {
            Some(s) => s.wf(),
            None => true,
        }
    }

    fn new(first: DecodingQuadIterator) -> (r: Self)
        requires
            first.wf(),
        ensures
            r.wf(),
            r.remaining() == first.remaining(),
    {
        ChainedDecodingQuadIterator { first, second: None }
    }

    fn pair(first: DecodingQuadIterator, second: DecodingQuadIterator) -> (r: Self)
        requires
            first.wf(),
            second.wf(),
        ensures
            r.wf(),
            r.remaining() == first.remaining() + second.remaining(),
    {
        ChainedDecodingQuadIterator { first, second: Some(second) }
    }

    /// What is left to yield, both parts, as a vector.
    pub fn remaining_vec(&self) -> (r: Vec<EncodedQuad>)
        requires
            self.wf(),
        ensures
            r@ == self.remaining(),
    {
        let mut r = self.first.remaining_vec();
        match &self.second {
            Some(second) => {
                let tail = second.remaining_vec();
                let m = tail.len();
                let mut k: usize = 0;
                while k < m
                    invariant
                        m == tail@.len(),
                        0 <= k <= m,
                        tail@ == self.second->0.remaining(),
                        r@ == self.first.remaining() + tail@.take(k as int),
                    decreases m - k,
                {
                    r.push(tail[k]);
                    proof {
                        assert(tail@.take(k + 1) =~= tail@.take(k as int).push(tail@[k as int]));
                        assert(self.first.remaining() + tail@.take(k + 1) =~= (
                        self.first.remaining() + tail@.take(k as int)).push(tail@[k as int]));
                    }
                    k = k + 1;
                }
                proof {
                    assert(tail@.take(m as int) =~= tail@);
                }
                r
            },
            None => r,
        }
    }

    /// The next quad, or `None` once both parts are exhausted.
    pub fn next(&mut self) -> (r: Option<Result<EncodedQuad, StorageError>>)
        requires
            old(self).wf(),
        ensures
            final(self).wf(),
            old(self).remaining().len() == 0 ==> r is None && final(self).remaining()
                == old(self).remaining(),
            old(self).remaining().len() > 0 ==> r == Some(
                Result::<EncodedQuad, StorageError>::Ok(old(self).remaining()[0]),
            ) && final(self).remaining() == old(self).remaining().skip(1),
    {
        let r = self.first.next();
        match r {
            Some(q) => {
                proof {
                    if old(self).second is Some {
                        assert(old(self).remaining()[0] == old(self).first.remaining()[0]);
                        assert(final(self).remaining() =~= old(self).remaining().skip(1));
                    }
                }
                Some(q)
            },
            None => {
                match &mut self.second {
                    Some(second) => {
                        let r2 = second.next();
                        proof {
                            assert(old(self).remaining() =~= old(self).second->0.remaining());
                            if old(self).second->0.remaining().len() > 0 {
                                assert(final(self).remaining() =~= old(self).remaining().skip(1));
                            } else {
                                assert(final(self).remaining() =~= old(self).remaining());
                            }
                        }
                        r2
                    },
                    None => None,
                }
            },
        }
    }
}

// Prefix builders: the scan prefix is a sequence of whole terms, in the slot
// order of the index to scan.
fn encode_term(t: &EncodedTerm) -> (r: Vec<EncodedTerm>)
    ensures
        r@ =~= seq![*t],
{
    let mut r: Vec<EncodedTerm> = Vec::new();
    r.push(*t);
    r
}

fn encode_term_pair(a: &EncodedTerm, b: &EncodedTerm) -> (r: Vec<EncodedTerm>)
    ensures
        r@ =~= seq![*a, *b],
{
    let mut r: Vec<EncodedTerm> = Vec::new();
    r.push(*a);
    r.push(*b);
    r
}

fn encode_term_triple(a: &EncodedTerm, b: &EncodedTerm, c: &EncodedTerm) -> (r: Vec<EncodedTerm>)
    ensures
        r@ =~= seq![*a, *b, *c],
{
    let mut r: Vec<EncodedTerm> = Vec::new();
    r.push(*a);
    r.push(*b);
    r.push(*c);
    r
}

fn encode_term_quad(
    a: &EncodedTerm,
    b: &EncodedTerm,
    c: &EncodedTerm,
    d: &EncodedTerm,
) -> (r: Vec<EncodedTerm>)
    ensures
        r@ =~= seq![*a, *b, *c, *d],
{
    let mut r: Vec<EncodedTerm> = Vec::new();
    r.push(*a);
    r.push(*b);
    r.push(*c);
    r.push(*d);
    r
}

/// The contract of a pattern scan: it yields, without duplicates and with
/// default-graph quads first, exactly the stored quads matching the pattern.
pub open spec fn pattern_iter_ok(
    st: StateV,
    rem: Seq<EncodedQuad>,
    s: Option<EncodedTerm>,
    p: Option<EncodedTerm>,
    o: Option<EncodedTerm>,
    g: Option<EncodedTerm>,
) -> bool {
    &&& forall|q: EncodedQuad| #[trigger] rem.contains(q) <==> st.has(q) && quad_matches(
        q,
        s,
        p,
        o,
        g,
    )
    &&& rem.no_duplicates()
    &&& forall|i: int, j: int|
        0 <= i < j < rem.len() ==> (#[trigger] rem[i]).graph_name == dg() || (#[trigger] rem[j]).graph_name
            != dg()
}

/// An iterator over the registered named graphs.
pub struct DecodingGraphIterator {
    terms: Vec<EncodedTerm>,
    pos: usize,
}

impl DecodingGraphIterator {
    /// What is left to yield.
    pub closed spec fn remaining(&self) -> Seq<EncodedTerm> {
        self.terms@.skip(self.pos as int)
    }

    pub closed spec fn wf(&self) -> bool {
        self.pos <= self.terms@.len()
    }

    fn from_vec(terms: Vec<EncodedTerm>) -> (r: Self)
        ensures
            r.wf(),
            r.remaining() == terms@,
    {
        let r = DecodingGraphIterator { terms, pos: 0 };
        proof {
            assert(r.remaining() =~= r.terms@);
        }
        r
    }

    /// The next graph term, or `None` once exhausted.
    pub fn next(&mut self) -> (r: Option<Result<EncodedTerm, StorageError>>)
        requires
            old(self).wf(),
        ensures
            final(self).wf(),
            old(self).remaining().len() == 0 ==> r is None && final(self).remaining()
                == old(self).remaining(),
            old(self).remaining().len() > 0 ==> r == Some(
                Result::<EncodedTerm, StorageError>::Ok(old(self).remaining()[0]),
            ) && final(self).remaining() == old(self).remaining().skip(1),
    {
        if self.pos < self.terms.len() {
            let t = self.terms[self.pos];
            self.pos = self.pos + 1;
            proof {
                assert(final(self).remaining() =~= old(self).remaining().skip(1));
                assert(old(self).remaining()[0] == t);
            }
            Some(Ok(t))
        } else {
            proof {
                assert(old(self).remaining().len() == 0);
            }
            None
        }
    }
}

/// A snapshot of the store: an owned copy of the state at one point in time,
/// unaffected by any later commit.
pub struct StorageReader {
    state: StorageState,
}

impl View for StorageReader {
    type V = StateV;

    closed spec fn view(&self) -> StateV {
        self.state@
    }
}

impl StorageReader {
    pub(crate) fn from_state(state: StorageState) -> (r: Self)
        ensures
            r@ == state@,
    {
        StorageReader { state }
    }

    /// The number of stored quads: default-graph rows plus named rows.
    pub fn len(&self) -> (r: Result<usize, StorageError>)
        ensures
            r is Ok <==> self@.count() <= usize::MAX,
            r is Ok ==> r->Ok_0 == self@.count(),
    {
        self.state.count_rows()
    }

    /// Whether no quad is stored.
    pub fn is_empty(&self) -> (r: Result<bool, StorageError>)
        ensures
            r == Result::<bool, StorageError>::Ok(self@.count() == 0),
    {
        Ok(self.state.no_quads())
    }

    /// Whether a quad is stored: one probe of the group's anchor index.
    pub fn contains(&self, quad: &EncodedQuad) -> (r: Result<bool, StorageError>)
        requires
            self@.wf(),
        ensures
            r == Result::<bool, StorageError>::Ok(self@.has(*quad)),
    {
        Ok(self.state.contains_quad(quad))
    }

    /// A single-index scan wrapped as a chained iterator.
    fn scan_single(&self, enc: QuadEncoding, prefix: &Vec<EncodedTerm>) -> (r:
        ChainedDecodingQuadIterator)
        requires
            self@.wf(),
            prefix@.len() <= 4,
        ensures
            r.wf(),
            forall|q: EncodedQuad| #[trigger]
                r.remaining().contains(q) <==> self@.has(q) && (if is_triple_encoding(enc) {
                    q.graph_name == dg()
                } else {
                    q.graph_name != dg()
                }) && key_matches_prefix(crate::state::encode_key_spec(enc, q), prefix@),
            r.remaining().no_duplicates(),
            forall|i: int, j: int|
                0 <= i < j < r.remaining().len() ==> (#[trigger] r.remaining()[i]).graph_name
                    == dg() || (#[trigger] r.remaining()[j]).graph_name != dg(),
    {
        let quads = self.state.scan(enc, prefix);
        let r = ChainedDecodingQuadIterator::new(DecodingQuadIterator::from_vec(quads));
        proof {
            if is_triple_encoding(enc) {
                assert(forall|i: int, j: int|
                    0 <= i < j < r.remaining().len() ==> (#[trigger] r.remaining()[i]).graph_name
                        == dg() || (#[trigger] r.remaining()[j]).graph_name != dg());
            }
        }
        r
    }

    /// A chained scan of a triple index and a quad index under one prefix,
    /// for patterns that leave the graph unbound: default-graph quads come
    /// first.
    fn scan_pair(&self, denc: QuadEncoding, genc: QuadEncoding, prefix: &Vec<EncodedTerm>) -> (r:
        ChainedDecodingQuadIterator)
        requires
            self@.wf(),
            prefix@.len() <= 4,
            is_triple_encoding(denc),
            !is_triple_encoding(genc),
            forall|q: EncodedQuad|
                key_matches_prefix(#[trigger] crate::state::encode_key_spec(denc, q), prefix@)
                    == key_matches_prefix(crate::state::encode_key_spec(genc, q), prefix@),
        ensures
            r.wf(),
            forall|q: EncodedQuad| #[trigger]
                r.remaining().contains(q) <==> self@.has(q) && key_matches_prefix(
                    crate::state::encode_key_spec(denc, q),
                    prefix@,
                ),
            r.remaining().no_duplicates(),
            forall|i: int, j: int|
                0 <= i < j < r.remaining().len() ==> (#[trigger] r.remaining()[i]).graph_name
                    == dg() || (#[trigger] r.remaining()[j]).graph_name != dg(),
    {
        let d = self.state.scan(denc, prefix);
        let g = self.state.scan(genc, prefix);
        let r = ChainedDecodingQuadIterator::pair(
            DecodingQuadIterator::from_vec(d),
            DecodingQuadIterator::from_vec(g),
        );
        proof {
            lemma_concat_members(d@, g@);
            assert forall|x: EncodedQuad| !(#[trigger] d@.contains(x) && g@.contains(x)) by {}
            lemma_concat_no_dup(d@, g@);
            let rem = r.remaining();
            assert forall|i: int, j: int|
                0 <= i < j < rem.len() implies (#[trigger] rem[i]).graph_name == dg() || (
            #[trigger] rem[j]).graph_name != dg() by {
                if i < d@.len() {
                    assert(rem[i] == d@[i]);
                } else {
                    assert(rem[j] == g@[j - d@.len()]);
                }
            }
        }
        r
    }

    /// All stored quads: the default graph first, then the named graphs.
    pub fn quads(&self) -> (r: ChainedDecodingQuadIterator)
        requires
            self@.wf(),
        ensures
            r.wf(),
            pattern_iter_ok(self@, r.remaining(), None, None, None, None),
    {
        let prefix: Vec<EncodedTerm> = Vec::new();
        self.scan_pair(QuadEncoding::Dspo, QuadEncoding::Gspo, &prefix)
    }

    /// All stored quads in named graphs.
    fn quads_in_named_graph(&self) -> (r: DecodingQuadIterator)
        requires
            self@.wf(),
        ensures
            r.wf(),
            forall|q: EncodedQuad| #[trigger]
                r.remaining().contains(q) <==> self@.has(q) && q.graph_name != dg(),
            r.remaining().no_duplicates(),
    {
        let prefix: Vec<EncodedTerm> = Vec::new();
        DecodingQuadIterator::from_vec(self.state.scan(QuadEncoding::Gspo, &prefix))
    }

    fn quads_for_subject(&self, subject: &EncodedTerm) -> (r: ChainedDecodingQuadIterator)
        requires
            self@.wf(),
        ensures
            r.wf(),
            pattern_iter_ok(self@, r.remaining(), Some(*subject), None, None, None),
    {
        let prefix = encode_term(subject);
        proof {
            self.lemma_spo_prefix_agree(prefix@);
        }
        let r = self.scan_pair(QuadEncoding::Dspo, QuadEncoding::Spog, &prefix);
        proof {
            assert forall|q: EncodedQuad|
                key_matches_prefix(#[trigger] dspo_key(q), prefix@) <==> q.subject == *subject by {
                assert(prefix@[0] == *subject);
                assert(crate::keyvec::key_slot(dspo_key(q), 0) == q.subject);
                if q.subject == *subject {
                    assert forall|i: int| 0 <= i < prefix@.len() implies crate::keyvec::key_slot(
                        dspo_key(q),
                        i,
                    ) == prefix@[i] by {}
                }
            }
        }
        r
    }

    fn quads_for_subject_predicate(
        &self,
        subject: &EncodedTerm,
        predicate: &EncodedTerm,
    ) -> (r: ChainedDecodingQuadIterator)
        requires
            self@.wf(),
        ensures
            r.wf(),
            pattern_iter_ok(self@, r.remaining(), Some(*subject), Some(*predicate), None, None),
    {
        let prefix = encode_term_pair(subject, predicate);
        proof {
            self.lemma_spo_prefix_agree(prefix@);
        }
        let r = self.scan_pair(QuadEncoding::Dspo, QuadEncoding::Spog, &prefix);
        proof {
            assert forall|q: EncodedQuad|
                key_matches_prefix(#[trigger] dspo_key(q), prefix@) <==> (q.subject == *subject
                    && q.predicate == *predicate) by {
                assert(crate::keyvec::key_slot(dspo_key(q), 0) == q.subject);
                assert(crate::keyvec::key_slot(dspo_key(q), 1) == q.predicate);
                if q.subject == *subject && q.predicate == *predicate {
                    assert forall|i: int| 0 <= i < prefix@.len() implies crate::keyvec::key_slot(
                        dspo_key(q),
                        i,
                    ) == prefix@[i] by {}
                }
            }
        }
        r
    }

    fn quads_for_subject_predicate_object(
        &self,
        subject: &EncodedTerm,
        predicate: &EncodedTerm,
        object: &EncodedTerm,
    ) -> (r: ChainedDecodingQuadIterator)
        requires
            self@.wf(),
        ensures
            r.wf(),
            pattern_iter_ok(
                self@,
                r.remaining(),
                Some(*subject),
                Some(*predicate),
                Some(*object),
                None,
            ),
    {
        let prefix = encode_term_triple(subject, predicate, object);
        proof {
            self.lemma_spo_prefix_agree(prefix@);
        }
        let r = self.scan_pair(QuadEncoding::Dspo, QuadEncoding::Spog, &prefix);
        proof {
            assert forall|q: EncodedQuad|
                key_matches_prefix(#[trigger] dspo_key(q), prefix@) <==> (q.subject == *subject
                    && q.predicate == *predicate && q.object == *object) by {
                assert(crate::keyvec::key_slot(dspo_key(q), 0) == q.subject);
                assert(crate::keyvec::key_slot(dspo_key(q), 1) == q.predicate);
                assert(crate::keyvec::key_slot(dspo_key(q), 2) == q.object);
                if q.subject == *subject && q.predicate == *predicate && q.object == *object {
                    assert forall|i: int| 0 <= i < prefix@.len() implies crate::keyvec::key_slot(
                        dspo_key(q),
                        i,
                    ) == prefix@[i] by {}
                }
            }
        }
        r
    }

    fn quads_for_subject_object(
        &self,
        subject: &EncodedTerm,
        object: &EncodedTerm,
    ) -> (r: ChainedDecodingQuadIterator)
        requires
            self@.wf(),
        ensures
            r.wf(),
            pattern_iter_ok(self@, r.remaining(), Some(*subject), None, Some(*object), None),
    {
        let prefix = encode_term_pair(object, subject);
        proof {
            self.lemma_osp_prefix_agree(prefix@);
        }
        let r = self.scan_pair(QuadEncoding::Dosp, QuadEncoding::Ospg, &prefix);
        proof {
            assert forall|q: EncodedQuad|
                key_matches_prefix(#[trigger] dosp_key(q), prefix@) <==> (q.object == *object
                    && q.subject == *subject) by {
                assert(crate::keyvec::key_slot(dosp_key(q), 0) == q.object);
                assert(crate::keyvec::key_slot(dosp_key(q), 1) == q.subject);
                if q.object == *object && q.subject == *subject {
                    assert forall|i: int| 0 <= i < prefix@.len() implies crate::keyvec::key_slot(
                        dosp_key(q),
                        i,
                    ) == prefix@[i] by {}
                }
            }
        }
        r
    }

    fn quads_for_predicate(&self, predicate: &EncodedTerm) -> (r: ChainedDecodingQuadIterator)
        requires
            self@.wf(),
        ensures
            r.wf(),
            pattern_iter_ok(self@, r.remaining(), None, Some(*predicate), None, None),
    {
        let prefix = encode_term(predicate);
        proof {
            self.lemma_pos_prefix_agree(prefix@);
        }
        let r = self.scan_pair(QuadEncoding::Dpos, QuadEncoding::Posg, &prefix);
        proof {
            assert forall|q: EncodedQuad|
                key_matches_prefix(#[trigger] dpos_key(q), prefix@) <==> q.predicate
                    == *predicate by {
                assert(prefix@[0] == *predicate);
                assert(crate::keyvec::key_slot(dpos_key(q), 0) == q.predicate);
                if q.predicate == *predicate {
                    assert forall|i: int| 0 <= i < prefix@.len() implies crate::keyvec::key_slot(
                        dpos_key(q),
                        i,
                    ) == prefix@[i] by {}
                }
            }
        }
        r
    }

    fn quads_for_predicate_object(
        &self,
        predicate: &EncodedTerm,
        object: &EncodedTerm,
    ) -> (r: ChainedDecodingQuadIterator)
        requires
            self@.wf(),
        ensures
            r.wf(),
            pattern_iter_ok(self@, r.remaining(), None, Some(*predicate), Some(*object), None),
    {
        let prefix = encode_term_pair(predicate, object);
        proof {
            self.lemma_pos_prefix_agree(prefix@);
        }
        let r = self.scan_pair(QuadEncoding::Dpos, QuadEncoding::Posg, &prefix);
        proof {
            assert forall|q: EncodedQuad|
                key_matches_prefix(#[trigger] dpos_key(q), prefix@) <==> (q.predicate == *predicate
                    && q.object == *object) by {
                assert(crate::keyvec::key_slot(dpos_key(q), 0) == q.predicate);
                assert(crate::keyvec::key_slot(dpos_key(q), 1) == q.object);
                if q.predicate == *predicate && q.object == *object {
                    assert forall|i: int| 0 <= i < prefix@.len() implies crate::keyvec::key_slot(
                        dpos_key(q),
                        i,
                    ) == prefix@[i] by {}
                }
            }
        }
        r
    }

    fn quads_for_object(&self, object: &EncodedTerm) -> (r: ChainedDecodingQuadIterator)
        requires
            self@.wf(),
        ensures
            r.wf(),
            pattern_iter_ok(self@, r.remaining(), None, None, Some(*object), None),
    {
        let prefix = encode_term(object);
        proof {
            self.lemma_osp_prefix_agree(prefix@);
        }
        let r = self.scan_pair(QuadEncoding::Dosp, QuadEncoding::Ospg, &prefix);
        proof {
            assert forall|q: EncodedQuad|
                key_matches_prefix(#[trigger] dosp_key(q), prefix@) <==> q.object == *object by {
                assert(prefix@[0] == *object);
                assert(crate::keyvec::key_slot(dosp_key(q), 0) == q.object);
                if q.object == *object {
                    assert forall|i: int| 0 <= i < prefix@.len() implies crate::keyvec::key_slot(
                        dosp_key(q),
                        i,
                    ) == prefix@[i] by {}
                }
            }
        }
        r
    }

    fn quads_for_graph(&self, graph_name: &EncodedTerm) -> (r: ChainedDecodingQuadIterator)
        requires
            self@.wf(),
        ensures
            r.wf(),
            pattern_iter_ok(self@, r.remaining(), None, None, None, Some(*graph_name)),
    {
        if graph_name.is_default_graph() {
            let prefix: Vec<EncodedTerm> = Vec::new();
            self.scan_single(QuadEncoding::Dspo, &prefix)
        } else {
            let prefix = encode_term(graph_name);
            let r = self.scan_single(QuadEncoding::Gspo, &prefix);
            proof {
                assert forall|q: EncodedQuad|
                    key_matches_prefix(#[trigger] gspo_key(q), prefix@) <==> q.graph_name
                        == *graph_name by {
                    assert(prefix@[0] == *graph_name);
                    assert(crate::keyvec::key_slot(gspo_key(q), 0) == q.graph_name);
                    if q.graph_name == *graph_name {
                        assert forall|i: int|
                            0 <= i < prefix@.len() implies crate::keyvec::key_slot(gspo_key(q), i)
                            == prefix@[i] by {}
                    }
                }
            }
            r
        }
    }

    fn quads_for_subject_graph(
        &self,
        subject: &EncodedTerm,
        graph_name: &EncodedTerm,
    ) -> (r: ChainedDecodingQuadIterator)
        requires
            self@.wf(),
        ensures
            r.wf(),
            pattern_iter_ok(self@, r.remaining(), Some(*subject), None, None, Some(*graph_name)),
    {
        if graph_name.is_default_graph() {
            let prefix = encode_term(subject);
            let r = self.scan_single(QuadEncoding::Dspo, &prefix);
            proof {
                assert forall|q: EncodedQuad|
                    key_matches_prefix(#[trigger] dspo_key(q), prefix@) <==> q.subject
                        == *subject by {
                    assert(prefix@[0] == *subject);
                    assert(crate::keyvec::key_slot(dspo_key(q), 0) == q.subject);
                    if q.subject == *subject {
                        assert forall|i: int|
                            0 <= i < prefix@.len() implies crate::keyvec::key_slot(dspo_key(q), i)
                            == prefix@[i] by {}
                    }
                }
            }
            r
        } else {
            let prefix = encode_term_pair(graph_name, subject);
            let r = self.scan_single(QuadEncoding::Gspo, &prefix);
            proof {
                assert forall|q: EncodedQuad|
                    key_matches_prefix(#[trigger] gspo_key(q), prefix@) <==> (q.graph_name
                        == *graph_name && q.subject == *subject) by {
                    assert(crate::keyvec::key_slot(gspo_key(q), 0) == q.graph_name);
                    assert(crate::keyvec::key_slot(gspo_key(q), 1) == q.subject);
                    if q.graph_name == *graph_name && q.subject == *subject {
                        assert forall|i: int|
                            0 <= i < prefix@.len() implies crate::keyvec::key_slot(gspo_key(q), i)
                            == prefix@[i] by {}
                    }
                }
            }
            r
        }
    }

    fn quads_for_subject_predicate_graph(
        &self,
        subject: &EncodedTerm,
        predicate: &EncodedTerm,
        graph_name: &EncodedTerm,
    ) -> (r: ChainedDecodingQuadIterator)
        requires
            self@.wf(),
        ensures
            r.wf(),
            pattern_iter_ok(
                self@,
                r.remaining(),
                Some(*subject),
                Some(*predicate),
                None,
                Some(*graph_name),
            ),
    {
        if graph_name.is_default_graph() {
            let prefix = encode_term_pair(subject, predicate);
            let r = self.scan_single(QuadEncoding::Dspo, &prefix);
            proof {
                assert forall|q: EncodedQuad|
                    key_matches_prefix(#[trigger] dspo_key(q), prefix@) <==> (q.subject == *subject
                        && q.predicate == *predicate) by {
                    assert(crate::keyvec::key_slot(dspo_key(q), 0) == q.subject);
                    assert(crate::keyvec::key_slot(dspo_key(q), 1) == q.predicate);
                    if q.subject == *subject && q.predicate == *predicate {
                        assert forall|i: int|
                            0 <= i < prefix@.len() implies crate::keyvec::key_slot(dspo_key(q), i)
                            == prefix@[i] by {}
                    }
                }
            }
            r
        } else {
            let prefix = encode_term_triple(graph_name, subject, predicate);
            let r = self.scan_single(QuadEncoding::Gspo, &prefix);
            proof {
                assert forall|q: EncodedQuad|
                    key_matches_prefix(#[trigger] gspo_key(q), prefix@) <==> (q.graph_name
                        == *graph_name && q.subject == *subject && q.predicate == *predicate) by {
                    assert(crate::keyvec::key_slot(gspo_key(q), 0) == q.graph_name);
                    assert(crate::keyvec::key_slot(gspo_key(q), 1) == q.subject);
                    assert(crate::keyvec::key_slot(gspo_key(q), 2) == q.predicate);
                    if q.graph_name == *graph_name && q.subject == *subject && q.predicate
                        == *predicate {
                        assert forall|i: int|
                            0 <= i < prefix@.len() implies crate::keyvec::key_slot(gspo_key(q), i)
                            == prefix@[i] by {}
                    }
                }
            }
            r
        }
    }

    fn quads_for_subject_predicate_object_graph(
        &self,
        subject: &EncodedTerm,
        predicate: &EncodedTerm,
        object: &EncodedTerm,
        graph_name: &EncodedTerm,
    ) -> (r: ChainedDecodingQuadIterator)
        requires
            self@.wf(),
        ensures
            r.wf(),
            pattern_iter_ok(
                self@,
                r.remaining(),
                Some(*subject),
                Some(*predicate),
                Some(*object),
                Some(*graph_name),
            ),
    {
        if graph_name.is_default_graph() {
            let prefix = encode_term_triple(subject, predicate, object);
            let r = self.scan_single(QuadEncoding::Dspo, &prefix);
            proof {
                assert forall|q: EncodedQuad|
                    key_matches_prefix(#[trigger] dspo_key(q), prefix@) <==> (q.subject == *subject
                        && q.predicate == *predicate && q.object == *object) by {
                    assert(crate::keyvec::key_slot(dspo_key(q), 0) == q.subject);
                    assert(crate::keyvec::key_slot(dspo_key(q), 1) == q.predicate);
                    assert(crate::keyvec::key_slot(dspo_key(q), 2) == q.object);
                    if q.subject == *subject && q.predicate == *predicate && q.object == *object {
                        assert forall|i: int|
                            0 <= i < prefix@.len() implies crate::keyvec::key_slot(dspo_key(q), i)
                            == prefix@[i] by {}
                    }
                }
            }
            r
        } else {
            let prefix = encode_term_quad(graph_name, subject, predicate, object);
            let r = self.scan_single(QuadEncoding::Gspo, &prefix);
            proof {
                assert forall|q: EncodedQuad|
                    key_matches_prefix(#[trigger] gspo_key(q), prefix@) <==> (q.graph_name
                        == *graph_name && q.subject == *subject && q.predicate == *predicate
                        && q.object == *object) by {
                    assert(crate::keyvec::key_slot(gspo_key(q), 0) == q.graph_name);
                    assert(crate::keyvec::key_slot(gspo_key(q), 1) == q.subject);
                    assert(crate::keyvec::key_slot(gspo_key(q), 2) == q.predicate);
                    assert(crate::keyvec::key_slot(gspo_key(q), 3) == q.object);
                    if q.graph_name == *graph_name && q.subject == *subject && q.predicate
                        == *predicate && q.object == *object {
                        assert forall|i: int|
                            0 <= i < prefix@.len() implies crate::keyvec::key_slot(gspo_key(q), i)
                            == prefix@[i] by {}
                    }
                }
            }
            r
        }
    }

    fn quads_for_subject_object_graph(
        &self,
        subject: &EncodedTerm,
        object: &EncodedTerm,
        graph_name: &EncodedTerm,
    ) -> (r: ChainedDecodingQuadIterator)
        requires
            self@.wf(),
        ensures
            r.wf(),
            pattern_iter_ok(
                self@,
                r.remaining(),
                Some(*subject),
                None,
                Some(*object),
                Some(*graph_name),
            ),
    {
        if graph_name.is_default_graph() {
            let prefix = encode_term_pair(object, subject);
            let r = self.scan_single(QuadEncoding::Dosp, &prefix);
            proof {
                assert forall|q: EncodedQuad|
                    key_matches_prefix(#[trigger] dosp_key(q), prefix@) <==> (q.object == *object
                        && q.subject == *subject) by {
                    assert(crate::keyvec::key_slot(dosp_key(q), 0) == q.object);
                    assert(crate::keyvec::key_slot(dosp_key(q), 1) == q.subject);
                    if q.object == *object && q.subject == *subject {
                        assert forall|i: int|
                            0 <= i < prefix@.len() implies crate::keyvec::key_slot(dosp_key(q), i)
                            == prefix@[i] by {}
                    }
                }
            }
            r
        } else {
            let prefix = encode_term_triple(graph_name, object, subject);
            let r = self.scan_single(QuadEncoding::Gosp, &prefix);
            proof {
                assert forall|q: EncodedQuad|
                    key_matches_prefix(#[trigger] gosp_key(q), prefix@) <==> (q.graph_name
                        == *graph_name && q.object == *object && q.subject == *subject) by {
                    assert(crate::keyvec::key_slot(gosp_key(q), 0) == q.graph_name);
                    assert(crate::keyvec::key_slot(gosp_key(q), 1) == q.object);
                    assert(crate::keyvec::key_slot(gosp_key(q), 2) == q.subject);
                    if q.graph_name == *graph_name && q.object == *object && q.subject
                        == *subject {
                        assert forall|i: int|
                            0 <= i < prefix@.len() implies crate::keyvec::key_slot(gosp_key(q), i)
                            == prefix@[i] by {}
                    }
                }
            }
            r
        }
    }

    fn quads_for_predicate_graph(
        &self,
        predicate: &EncodedTerm,
        graph_name: &EncodedTerm,
    ) -> (r: ChainedDecodingQuadIterator)
        requires
            self@.wf(),
        ensures
            r.wf(),
            pattern_iter_ok(self@, r.remaining(), None, Some(*predicate), None, Some(*graph_name)),
    {
        if graph_name.is_default_graph() {
            let prefix = encode_term(predicate);
            let r = self.scan_single(QuadEncoding::Dpos, &prefix);
            proof {
                assert forall|q: EncodedQuad|
                    key_matches_prefix(#[trigger] dpos_key(q), prefix@) <==> q.predicate
                        == *predicate by {
                    assert(prefix@[0] == *predicate);
                    assert(crate::keyvec::key_slot(dpos_key(q), 0) == q.predicate);
                    if q.predicate == *predicate {
                        assert forall|i: int|
                            0 <= i < prefix@.len() implies crate::keyvec::key_slot(dpos_key(q), i)
                            == prefix@[i] by {}
                    }
                }
            }
            r
        } else {
            let prefix = encode_term_pair(graph_name, predicate);
            let r = self.scan_single(QuadEncoding::Gpos, &prefix);
            proof {
                assert forall|q: EncodedQuad|
                    key_matches_prefix(#[trigger] gpos_key(q), prefix@) <==> (q.graph_name
                        == *graph_name && q.predicate == *predicate) by {
                    assert(crate::keyvec::key_slot(gpos_key(q), 0) == q.graph_name);
                    assert(crate::keyvec::key_slot(gpos_key(q), 1) == q.predicate);
                    if q.graph_name == *graph_name && q.predicate == *predicate {
                        assert forall|i: int|
                            0 <= i < prefix@.len() implies crate::keyvec::key_slot(gpos_key(q), i)
                            == prefix@[i] by {}
                    }
                }
            }
            r
        }
    }

    fn quads_for_predicate_object_graph(
        &self,
        predicate: &EncodedTerm,
        object: &EncodedTerm,
        graph_name: &EncodedTerm,
    ) -> (r: ChainedDecodingQuadIterator)
        requires
            self@.wf(),
        ensures
            r.wf(),
            pattern_iter_ok(
                self@,
                r.remaining(),
                None,
                Some(*predicate),
                Some(*object),
                Some(*graph_name),
            ),
    {
        if graph_name.is_default_graph() {
            let prefix = encode_term_pair(predicate, object);
            let r = self.scan_single(QuadEncoding::Dpos, &prefix);
            proof {
                assert forall|q: EncodedQuad|
                    key_matches_prefix(#[trigger] dpos_key(q), prefix@) <==> (q.predicate
                        == *predicate && q.object == *object) by {
                    assert(crate::keyvec::key_slot(dpos_key(q), 0) == q.predicate);
                    assert(crate::keyvec::key_slot(dpos_key(q), 1) == q.object);
                    if q.predicate == *predicate && q.object == *object {
                        assert forall|i: int|
                            0 <= i < prefix@.len() implies crate::keyvec::key_slot(dpos_key(q), i)
                            == prefix@[i] by {}
                    }
                }
            }
            r
        } else {
            let prefix = encode_term_triple(graph_name, predicate, object);
            let r = self.scan_single(QuadEncoding::Gpos, &prefix);
            proof {
                assert forall|q: EncodedQuad|
                    key_matches_prefix(#[trigger] gpos_key(q), prefix@) <==> (q.graph_name
                        == *graph_name && q.predicate == *predicate && q.object == *object) by {
                    assert(crate::keyvec::key_slot(gpos_key(q), 0) == q.graph_name);
                    assert(crate::keyvec::key_slot(gpos_key(q), 1) == q.predicate);
                    assert(crate::keyvec::key_slot(gpos_key(q), 2) == q.object);
                    if q.graph_name == *graph_name && q.predicate == *predicate && q.object
                        == *object {
                        assert forall|i: int|
                            0 <= i < prefix@.len() implies crate::keyvec::key_slot(gpos_key(q), i)
                            == prefix@[i] by {}
                    }
                }
            }
            r
        }
    }

    fn quads_for_object_graph(
        &self,
        object: &EncodedTerm,
        graph_name: &EncodedTerm,
    ) -> (r: ChainedDecodingQuadIterator)
        requires
            self@.wf(),
        ensures
            r.wf(),
            pattern_iter_ok(self@, r.remaining(), None, None, Some(*object), Some(*graph_name)),
    {
        if graph_name.is_default_graph() {
            let prefix = encode_term(object);
            let r = self.scan_single(QuadEncoding::Dosp, &prefix);
            proof {
                assert forall|q: EncodedQuad|
                    key_matches_prefix(#[trigger] dosp_key(q), prefix@) <==> q.object
                        == *object by {
                    assert(prefix@[0] == *object);
                    assert(crate::keyvec::key_slot(dosp_key(q), 0) == q.object);
                    if q.object == *object {
                        assert forall|i: int|
                            0 <= i < prefix@.len() implies crate::keyvec::key_slot(dosp_key(q), i)
                            == prefix@[i] by {}
                    }
                }
            }
            r
        } else {
            let prefix = encode_term_pair(graph_name, object);
            let r = self.scan_single(QuadEncoding::Gosp, &prefix);
            proof {
                assert forall|q: EncodedQuad|
                    key_matches_prefix(#[trigger] gosp_key(q), prefix@) <==> (q.graph_name
                        == *graph_name && q.object == *object) by {
                    assert(crate::keyvec::key_slot(gosp_key(q), 0) == q.graph_name);
                    assert(crate::keyvec::key_slot(gosp_key(q), 1) == q.object);
                    if q.graph_name == *graph_name && q.object == *object {
                        assert forall|i: int|
                            0 <= i < prefix@.len() implies crate::keyvec::key_slot(gosp_key(q), i)
                            == prefix@[i] by {}
                    }
                }
            }
            r
        }
    }

    /// Retrieves the stored quads matching a pattern, dispatching on the
    /// bound components to the index whose key order makes them a prefix.
    pub fn quads_for_pattern(
        &self,
        subject: Option<&EncodedTerm>,
        predicate: Option<&EncodedTerm>,
        object: Option<&EncodedTerm>,
        graph_name: Option<&EncodedTerm>,
    ) -> (r: ChainedDecodingQuadIterator)
        requires
            self@.wf(),
        ensures
            r.wf(),
            pattern_iter_ok(
                self@,
                r.remaining(),
                sel(subject),
                sel(predicate),
                sel(object),
                sel(graph_name),
            ),
    {
        match subject {
            Some(subject) => match predicate {
                Some(predicate) => match object {
                    Some(object) => match graph_name {
                        Some(graph_name) => self.quads_for_subject_predicate_object_graph(
                            subject,
                            predicate,
                            object,
                            graph_name,
                        ),
                        None => self.quads_for_subject_predicate_object(subject, predicate, object),
                    },
                    None => match graph_name {
                        Some(graph_name) => self.quads_for_subject_predicate_graph(
                            subject,
                            predicate,
                            graph_name,
                        ),
                        None => self.quads_for_subject_predicate(subject, predicate),
                    },
                },
                None => match object {
                    Some(object) => match graph_name {
                        Some(graph_name) => self.quads_for_subject_object_graph(
                            subject,
                            object,
                            graph_name,
                        ),
                        None => self.quads_for_subject_object(subject, object),
                    },
                    None => match graph_name {
                        Some(graph_name) => self.quads_for_subject_graph(subject, graph_name),
                        None => self.quads_for_subject(subject),
                    },
                },
            },
            None => match predicate {
                Some(predicate) => match object {
                    Some(object) => match graph_name {
                        Some(graph_name) => self.quads_for_predicate_object_graph(
                            predicate,
                            object,
                            graph_name,
                        ),
                        None => self.quads_for_predicate_object(predicate, object),
                    },
                    None => match graph_name {
                        Some(graph_name) => self.quads_for_predicate_graph(predicate, graph_name),
                        None => self.quads_for_predicate(predicate),
                    },
                },
                None => match object {
                    Some(object) => match graph_name {
                        Some(graph_name) => self.quads_for_object_graph(object, graph_name),
                        None => self.quads_for_object(object),
                    },
                    None => match graph_name {
                        Some(graph_name) => self.quads_for_graph(graph_name),
                        None => self.quads(),
                    },
                },
            },
        }
    }

    /// The registered named graphs.
    pub fn named_graphs(&self) -> (r: DecodingGraphIterator)
        requires
            self@.wf(),
        ensures
            r.wf(),
            forall|t: EncodedTerm| #[trigger]
                r.remaining().contains(t) <==> self@.graphs_has(t),
            r.remaining().no_duplicates(),
            forall|i: int|
                0 <= i < r.remaining().len() ==> (#[trigger] r.remaining()[i] is NamedNode
                    || r.remaining()[i] is BlankNode),
    {
        DecodingGraphIterator::from_vec(self.state.graph_terms())
    }

    /// Whether a graph is registered.
    pub fn contains_named_graph(&self, graph_name: &EncodedTerm) -> (r: Result<bool, StorageError>)
        requires
            self@.wf(),
        ensures
            r == Result::<bool, StorageError>::Ok(self@.graphs_has(*graph_name)),
    {
        Ok(self.state.contains_graph_term(graph_name))
    }

    /// Looks an interned lexical form up by hash.
    pub fn get_str(&self, key: &StrHash) -> (r: Result<Option<String>, StorageError>)
        ensures
            r is Ok,
            r->Ok_0 is Some <==> self@.id2str.contains_key(key.value),
            r->Ok_0 is Some ==> r->Ok_0->Some_0@ == self@.id2str[key.value],
    {
        Ok(self.state.get_str(key))
    }

    /// Whether a lexical form is interned under this hash.
    pub fn contains_str(&self, key: &StrHash) -> (r: Result<bool, StorageError>)
        ensures
            r == Result::<bool, StorageError>::Ok(self@.id2str.contains_key(key.value)),
    {
        Ok(self.state.contains_str(key))
    }

    /// Validates the storage invariants. They are established statically by
    /// every mutation, so there is nothing left to check dynamically.
    pub fn validate(&self) -> (r: Result<(), StorageError>)
        ensures
            r is Ok,
    {
        Ok(())
    }

    /// Decodes a stored quad image back into a quad. Under the invariant
    /// this succeeds for every stored quad.
    pub fn decode_quad(&self, quad: &EncodedQuad) -> (r: Result<Quad, StorageError>)
        ensures
            r is Ok <==> decode_quad_spec(*quad, self@.id2str) is Some,
            r is Ok ==> decode_quad_spec(*quad, self@.id2str) == Some(r->Ok_0@),
    {
        self.state.decode_stored_quad(quad)
    }

    /// Decodes a stored graph term back into an IRI or blank node.
    pub fn decode_named_or_blank_node(&self, term: &EncodedTerm) -> (r: Result<
        NamedOrBlankNode,
        StorageError,
    >)
        ensures
            r is Ok <==> (*term is NamedNode || *term is BlankNode) && decode_term_spec(
                *term,
                self@.id2str,
            ) is Some,
            r is Ok ==> decode_term_spec(*term, self@.id2str) == Some(r->Ok_0@),
    {
        self.state.decode_stored_graph(term)
    }

    /// The first slots of a DSPO key and a SPOG key agree, so one prefix of
    /// at most three terms selects the same quads in both.
    proof fn lemma_spo_prefix_agree(&self, prefix: Seq<EncodedTerm>)
        requires
            prefix.len() <= 3,
        ensures
            forall|q: EncodedQuad|
                key_matches_prefix(#[trigger] dspo_key(q), prefix) == key_matches_prefix(
                    spog_key(q),
                    prefix,
                ),
    {
        assert forall|q: EncodedQuad|
            key_matches_prefix(#[trigger] dspo_key(q), prefix) == key_matches_prefix(
                spog_key(q),
                prefix,
            ) by {
            assert forall|i: int| 0 <= i < prefix.len() implies crate::keyvec::key_slot(
                dspo_key(q),
                i,
            ) == crate::keyvec::key_slot(spog_key(q), i) by {}
            if key_matches_prefix(dspo_key(q), prefix) {
                assert forall|i: int| 0 <= i < prefix.len() implies crate::keyvec::key_slot(
                    spog_key(q),
                    i,
                ) == prefix[i] by {}
            }
            if key_matches_prefix(spog_key(q), prefix) {
                assert forall|i: int| 0 <= i < prefix.len() implies crate::keyvec::key_slot(
                    dspo_key(q),
                    i,
                ) == prefix[i] by {}
            }
        }
    }

    /// The same for DPOS and POSG keys.
    proof fn lemma_pos_prefix_agree(&self, prefix: Seq<EncodedTerm>)
        requires
            prefix.len() <= 3,
        ensures
            forall|q: EncodedQuad|
                key_matches_prefix(#[trigger] dpos_key(q), prefix) == key_matches_prefix(
                    posg_key(q),
                    prefix,
                ),
    {
        assert forall|q: EncodedQuad|
            key_matches_prefix(#[trigger] dpos_key(q), prefix) == key_matches_prefix(
                posg_key(q),
                prefix,
            ) by {
            assert forall|i: int| 0 <= i < prefix.len() implies crate::keyvec::key_slot(
                dpos_key(q),
                i,
            ) == crate::keyvec::key_slot(posg_key(q), i) by {}
            if key_matches_prefix(dpos_key(q), prefix) {
                assert forall|i: int| 0 <= i < prefix.len() implies crate::keyvec::key_slot(
                    posg_key(q),
                    i,
                ) == prefix[i] by {}
            }
            if key_matches_prefix(posg_key(q), prefix) {
                assert forall|i: int| 0 <= i < prefix.len() implies crate::keyvec::key_slot(
                    dpos_key(q),
                    i,
                ) == prefix[i] by {}
            }
        }
    }

    /// The stored quad set is finite and `len` reports its cardinality: the
    /// set semantics of the store.
    pub proof fn lemma_len_is_cardinality(s: StateV)
        requires
            s.wf(),
        ensures
            s.quad_set().finite(),
            s.quad_set().len() == s.count(),
    {
        let dset = Set::new(|q: EncodedQuad| s.has_default(q));
        let nset = Set::new(|q: EncodedQuad| s.has_named(q));
        let fd = |k: crate::keyvec::IndexKey| crate::state::decode_key_spec(QuadEncoding::Dspo, k);
        let fn_ = |k: crate::keyvec::IndexKey| crate::state::decode_key_spec(QuadEncoding::Spog, k);
        crate::keyvec::lemma_sorted_len_is_set_len(s.dspo);
        crate::keyvec::lemma_sorted_len_is_set_len(s.spog);
        assert(vstd::relations::injective_on(fd, s.dspo.to_set())) by {
            assert forall|k1: crate::keyvec::IndexKey, k2: crate::keyvec::IndexKey|
                #![all_triggers]
                s.dspo.to_set().contains(k1) && s.dspo.to_set().contains(k2) && fd(k1) == fd(
                    k2,
                ) implies k1 == k2 by {
                assert(s.dspo.contains(k1) && s.dspo.contains(k2));
                crate::state::lemma_key_codec(QuadEncoding::Dspo, fd(k1), k1);
                crate::state::lemma_key_codec(QuadEncoding::Dspo, fd(k2), k2);
            }
        }
        assert(vstd::relations::injective_on(fn_, s.spog.to_set())) by {
            assert forall|k1: crate::keyvec::IndexKey, k2: crate::keyvec::IndexKey|
                #![all_triggers]
                s.spog.to_set().contains(k1) && s.spog.to_set().contains(k2) && fn_(k1) == fn_(
                    k2,
                ) implies k1 == k2 by {
                assert(s.spog.contains(k1) && s.spog.contains(k2));
                crate::state::lemma_key_codec(QuadEncoding::Spog, fn_(k1), k1);
                crate::state::lemma_key_codec(QuadEncoding::Spog, fn_(k2), k2);
            }
        }
        assert(s.dspo.to_set().map(fd) =~= dset) by {
            assert forall|q: EncodedQuad| #[trigger]
                dset.contains(q) implies s.dspo.to_set().map(fd).contains(q) by {
                crate::state::lemma_key_codec(QuadEncoding::Dspo, q, dspo_key(q));
                assert(s.dspo.to_set().contains(dspo_key(q)));
                assert(fd(dspo_key(q)) == q);
            }
            assert forall|q: EncodedQuad| #[trigger]
                s.dspo.to_set().map(fd).contains(q) implies dset.contains(q) by {
                let k = choose|k: crate::keyvec::IndexKey|
                    s.dspo.to_set().contains(k) && fd(k) == q;
                assert(s.dspo.contains(k));
                crate::state::lemma_key_codec(QuadEncoding::Dspo, q, k);
            }
        }
        assert(s.spog.to_set().map(fn_) =~= nset) by {
            assert forall|q: EncodedQuad| #[trigger]
                nset.contains(q) implies s.spog.to_set().map(fn_).contains(q) by {
                crate::state::lemma_key_codec(QuadEncoding::Spog, q, spog_key(q));
                assert(s.spog.to_set().contains(spog_key(q)));
                assert(fn_(spog_key(q)) == q);
            }
            assert forall|q: EncodedQuad| #[trigger]
                s.spog.to_set().map(fn_).contains(q) implies nset.contains(q) by {
                let k = choose|k: crate::keyvec::IndexKey|
                    s.spog.to_set().contains(k) && fn_(k) == q;
                assert(s.spog.contains(k));
                crate::state::lemma_key_codec(QuadEncoding::Spog, q, k);
                assert(q.graph_name != dg());
            }
        }
        vstd::set_lib::lemma_map_size(s.dspo.to_set(), dset, fd);
        vstd::set_lib::lemma_map_size(s.spog.to_set(), nset, fn_);
        assert(dset.disjoint(nset));
        vstd::set_lib::lemma_set_disjoint_lens(dset, nset);
        assert(s.quad_set() =~= dset + nset);
        assert(s.gspo.len() == s.spog.len());
    }

    /// The same for DOSP and OSPG keys.
    proof fn lemma_osp_prefix_agree(&self, prefix: Seq<EncodedTerm>)
        requires
            prefix.len() <= 3,
        ensures
            forall|q: EncodedQuad|
                key_matches_prefix(#[trigger] dosp_key(q), prefix) == key_matches_prefix(
                    ospg_key(q),
                    prefix,
                ),
    {
        assert forall|q: EncodedQuad|
            key_matches_prefix(#[trigger] dosp_key(q), prefix) == key_matches_prefix(
                ospg_key(q),
                prefix,
            ) by {
            assert forall|i: int| 0 <= i < prefix.len() implies crate::keyvec::key_slot(
                dosp_key(q),
                i,
            ) == crate::keyvec::key_slot(ospg_key(q), i) by {}
            if key_matches_prefix(dosp_key(q), prefix) {
                assert forall|i: int| 0 <= i < prefix.len() implies crate::keyvec::key_slot(
                    ospg_key(q),
                    i,
                ) == prefix[i] by {}
            }
            if key_matches_prefix(ospg_key(q), prefix) {
                assert forall|i: int| 0 <= i < prefix.len() implies crate::keyvec::key_slot(
                    dosp_key(q),
                    i,
                ) == prefix[i] by {}
            }
        }
    }
}

/// A transaction: an owned working copy of the state it began from, with
/// the commit counter it saw. Its reads see its own uncommitted writes; its
/// writes reach the store only through `Storage::commit`.
pub struct StorageWriter {
    state: StorageState,
    base: u64,
}

impl View for StorageWriter {
    type V = StateV;

    closed spec fn view(&self) -> StateV {
        self.state@
    }
}

impl StorageWriter {
    /// The commit counter of the state this transaction began from.
    pub closed spec fn base_version(&self) -> u64 {
        self.base
    }

    /// A snapshot of the transaction's own, uncommitted view.
    pub fn reader(&self) -> (r: StorageReader)
        ensures
            r@ == self@,
    {
        StorageReader::from_state(self.state.duplicate())
    }

    /// Inserts a quad; reports whether it was absent. The quad's lexical
    /// forms are interned and, for a named graph, the graph is registered.
    pub fn insert(&mut self, quad: &Quad) -> (r: Result<bool, StorageError>)
        requires
            old(self)@.wf(),
        ensures
            final(self)@.wf(),
            final(self).base_version() == old(self).base_version(),
            r == Result::<bool, StorageError>::Ok(!old(self)@.has(encode_quad_spec(quad@))),
            forall|x: EncodedQuad| #[trigger]
                final(self)@.has(x) <==> old(self)@.has(x) || x == encode_quad_spec(quad@),
            forall|t: EncodedTerm| #[trigger]
                final(self)@.graphs_has(t) <==> old(self)@.graphs_has(t) || (!old(self)@.has(
                    encode_quad_spec(quad@),
                ) && encode_quad_spec(quad@).graph_name != dg() && t == encode_quad_spec(
                    quad@,
                ).graph_name),
            !old(self)@.has(encode_quad_spec(quad@)) ==> final(self)@.id2str == old(
                self,
            )@.id2str.union_prefer_right(quad_strs(quad@)),
            old(self)@.has(encode_quad_spec(quad@)) ==> final(self)@ == old(self)@,
            final(self)@.count() == old(self)@.count() + if old(self)@.has(
                encode_quad_spec(quad@),
            ) {
                0int
            } else {
                1int
            },
    {
        Ok(self.state.insert_quad(quad))
    }

    /// Registers a named graph; reports whether it was absent.
    pub fn insert_named_graph(&mut self, graph_name: &NamedOrBlankNode) -> (r: Result<
        bool,
        StorageError,
    >)
        requires
            old(self)@.wf(),
        ensures
            final(self)@.wf(),
            final(self).base_version() == old(self).base_version(),
            r == Result::<bool, StorageError>::Ok(
                !old(self)@.graphs_has(encode_term_spec(graph_name@)),
            ),
            forall|t: EncodedTerm| #[trigger]
                final(self)@.graphs_has(t) <==> old(self)@.graphs_has(t) || t == encode_term_spec(
                    graph_name@,
                ),
            forall|x: EncodedQuad| #[trigger] final(self)@.has(x) == old(self)@.has(x),
            final(self)@.count() == old(self)@.count(),
    {
        Ok(self.state.insert_graph_term(graph_name))
    }

    /// Removes a quad; reports whether it was stored. Interned lexical forms
    /// are never reclaimed.
    pub fn remove(&mut self, quad: &Quad) -> (r: Result<bool, StorageError>)
        requires
            old(self)@.wf(),
        ensures
            final(self)@.wf(),
            final(self).base_version() == old(self).base_version(),
            r == Result::<bool, StorageError>::Ok(old(self)@.has(encode_quad_spec(quad@))),
            forall|x: EncodedQuad| #[trigger]
                final(self)@.has(x) <==> old(self)@.has(x) && x != encode_quad_spec(quad@),
            forall|t: EncodedTerm| #[trigger]
                final(self)@.graphs_has(t) <==> old(self)@.graphs_has(t),
            final(self)@.id2str == old(self)@.id2str,
            final(self)@.count() == old(self)@.count() - if old(self)@.has(
                encode_quad_spec(quad@),
            ) {
                1int
            } else {
                0int
            },
    {
        let e = crate::codec::encode_quad(quad);
        self.remove_encoded(&e)
    }

    /// Removes the rows of an already encoded quad.
    fn remove_encoded(&mut self, quad: &EncodedQuad) -> (r: Result<bool, StorageError>)
        requires
            old(self)@.wf(),
        ensures
            final(self)@.wf(),
            final(self).base_version() == old(self).base_version(),
            r == Result::<bool, StorageError>::Ok(old(self)@.has(*quad)),
            forall|x: EncodedQuad| #[trigger]
                final(self)@.has(x) <==> old(self)@.has(x) && x != *quad,
            forall|t: EncodedTerm| #[trigger]
                final(self)@.graphs_has(t) <==> old(self)@.graphs_has(t),
            final(self)@.id2str == old(self)@.id2str,
            final(self)@.count() == old(self)@.count() - if old(self)@.has(*quad) {
                1int
            } else {
                0int
            },
    {
        Ok(self.state.remove_encoded(quad))
    }

    /// Removes every quad of a graph; a named graph stays registered.
    pub fn clear_graph(&mut self, graph_name: &GraphName) -> (r: Result<(), StorageError>)
        requires
            old(self)@.wf(),
        ensures
            final(self)@.wf(),
            final(self).base_version() == old(self).base_version(),
            r is Ok,
            forall|x: EncodedQuad| #[trigger]
                final(self)@.has(x) <==> old(self)@.has(x) && x.graph_name != encode_term_spec(
                    graph_name@,
                ),
            forall|t: EncodedTerm| #[trigger]
                final(self)@.graphs_has(t) <==> old(self)@.graphs_has(t),
            final(self)@.id2str == old(self)@.id2str,
    {
        let e = crate::codec::encode_graph_name(graph_name);
        if e.is_default_graph() {
            let prefix: Vec<EncodedTerm> = Vec::new();
            let victims = self.state.scan(QuadEncoding::Dspo, &prefix);
            self.state.remove_many(&victims);
            proof {
                assert forall|x: EncodedQuad| #[trigger]
                    self@.has(x) <==> old(self)@.has(x) && x.graph_name != dg() by {}
            }
            Ok(())
        } else {
            // The registry probe plays the conflict lock of the on-disk
            // schema; an unregistered graph holds no quads.
            if self.state.contains_graph_term(&e) {
                let prefix = encode_term(&e);
                let victims = self.state.scan(QuadEncoding::Gspo, &prefix);
                proof {
                    assert forall|q: EncodedQuad|
                        key_matches_prefix(#[trigger] gspo_key(q), prefix@) <==> q.graph_name
                            == e by {
                        assert(prefix@[0] == e);
                        assert(crate::keyvec::key_slot(gspo_key(q), 0) == q.graph_name);
                        if q.graph_name == e {
                            assert forall|i: int|
                                0 <= i < prefix@.len() implies crate::keyvec::key_slot(
                                gspo_key(q),
                                i,
                            ) == prefix@[i] by {}
                        }
                    }
                }
                self.state.remove_many(&victims);
                Ok(())
            } else {
                proof {
                    assert forall|x: EncodedQuad| #[trigger]
                        old(self)@.has(x) implies x.graph_name != e by {}
                }
                Ok(())
            }
        }
    }

    /// Removes every named-graph quad; registrations stay.
    pub fn clear_all_named_graphs(&mut self) -> (r: Result<(), StorageError>)
        requires
            old(self)@.wf(),
        ensures
            final(self)@.wf(),
            final(self).base_version() == old(self).base_version(),
            r is Ok,
            forall|x: EncodedQuad| #[trigger]
                final(self)@.has(x) <==> old(self)@.has(x) && x.graph_name == dg(),
            forall|t: EncodedTerm| #[trigger]
                final(self)@.graphs_has(t) <==> old(self)@.graphs_has(t),
            final(self)@.id2str == old(self)@.id2str,
    {
        let prefix: Vec<EncodedTerm> = Vec::new();
        let victims = self.state.scan(QuadEncoding::Gspo, &prefix);
        self.state.remove_many(&victims);
        Ok(())
    }

    /// Removes every quad; registrations stay.
    pub fn clear_all_graphs(&mut self) -> (r: Result<(), StorageError>)
        requires
            old(self)@.wf(),
        ensures
            final(self)@.wf(),
            final(self).base_version() == old(self).base_version(),
            r is Ok,
            forall|x: EncodedQuad| !(#[trigger] final(self)@.has(x)),
            forall|t: EncodedTerm| #[trigger]
                final(self)@.graphs_has(t) <==> old(self)@.graphs_has(t),
            final(self)@.id2str == old(self)@.id2str,
    {
        let prefix: Vec<EncodedTerm> = Vec::new();
        let dvictims = self.state.scan(QuadEncoding::Dspo, &prefix);
        let gvictims = self.state.scan(QuadEncoding::Gspo, &prefix);
        self.state.remove_many(&dvictims);
        self.state.remove_many(&gvictims);
        Ok(())
    }

    /// Unregisters a named graph, removing all its quads first; reports
    /// whether the graph was registered.
    pub fn remove_named_graph(&mut self, graph_name: &NamedOrBlankNode) -> (r: Result<
        bool,
        StorageError,
    >)
        requires
            old(self)@.wf(),
        ensures
            final(self)@.wf(),
            final(self).base_version() == old(self).base_version(),
            r == Result::<bool, StorageError>::Ok(
                old(self)@.graphs_has(encode_term_spec(graph_name@)),
            ),
            forall|x: EncodedQuad| #[trigger]
                final(self)@.has(x) <==> old(self)@.has(x) && x.graph_name != encode_term_spec(
                    graph_name@,
                ),
            forall|t: EncodedTerm| #[trigger]
                final(self)@.graphs_has(t) <==> old(self)@.graphs_has(t) && t != encode_term_spec(
                    graph_name@,
                ),
            final(self)@.id2str == old(self)@.id2str,
    {
        let e = crate::codec::encode_named_or_blank_node(graph_name);
        proof {
            assert(e != dg());
        }
        self.remove_encoded_named_graph(e)
    }

    /// The encoded form of graph removal: cascade, then drop the registry
    /// row, under the registry probe that locks the graph.
    fn remove_encoded_named_graph(&mut self, graph_name: EncodedTerm) -> (r: Result<
        bool,
        StorageError,
    >)
        requires
            old(self)@.wf(),
            graph_name != dg(),
        ensures
            final(self)@.wf(),
            final(self).base_version() == old(self).base_version(),
            r == Result::<bool, StorageError>::Ok(old(self)@.graphs_has(graph_name)),
            forall|x: EncodedQuad| #[trigger]
                final(self)@.has(x) <==> old(self)@.has(x) && x.graph_name != graph_name,
            forall|t: EncodedTerm| #[trigger]
                final(self)@.graphs_has(t) <==> old(self)@.graphs_has(t) && t != graph_name,
            final(self)@.id2str == old(self)@.id2str,
    {
        if self.state.contains_graph_term(&graph_name) {
            let prefix = encode_term(&graph_name);
            let victims = self.state.scan(QuadEncoding::Gspo, &prefix);
            proof {
                assert forall|q: EncodedQuad|
                    key_matches_prefix(#[trigger] gspo_key(q), prefix@) <==> q.graph_name
                        == graph_name by {
                    assert(prefix@[0] == graph_name);
                    assert(crate::keyvec::key_slot(gspo_key(q), 0) == q.graph_name);
                    if q.graph_name == graph_name {
                        assert forall|i: int|
                            0 <= i < prefix@.len() implies crate::keyvec::key_slot(gspo_key(q), i)
                            == prefix@[i] by {}
                    }
                }
            }
            self.state.remove_many(&victims);
            self.state.remove_graph_term(&graph_name);
            Ok(true)
        } else {
            proof {
                assert forall|x: EncodedQuad| #[trigger]
                    old(self)@.has(x) implies x.graph_name != graph_name by {}
            }
            Ok(false)
        }
    }

    /// Unregisters every named graph, removing all their quads.
    pub fn remove_all_named_graphs(&mut self) -> (r: Result<(), StorageError>)
        requires
            old(self)@.wf(),
        ensures
            final(self)@.wf(),
            final(self).base_version() == old(self).base_version(),
            r is Ok,
            forall|x: EncodedQuad| #[trigger]
                final(self)@.has(x) <==> old(self)@.has(x) && x.graph_name == dg(),
            forall|t: EncodedTerm| !(#[trigger] final(self)@.graphs_has(t)),
            final(self)@.id2str == old(self)@.id2str,
    {
        let graphs = self.state.graph_terms();
        let n = graphs.len();
        let mut i: usize = 0;
        proof {
            assert(graphs@.take(0) =~= Seq::<EncodedTerm>::empty());
        }
        while i < n
            invariant
                n == graphs@.len(),
                0 <= i <= n,
                self@.wf(),
                self.base_version() == old(self).base_version(),
                self@.id2str == old(self)@.id2str,
                forall|t: EncodedTerm| #[trigger] graphs@.contains(t) <==> old(self)@.graphs_has(t),
                forall|j: int|
                    0 <= j < n ==> (#[trigger] graphs@[j] is NamedNode || graphs@[j] is BlankNode),
                forall|x: EncodedQuad| #[trigger]
                    self@.has(x) <==> old(self)@.has(x) && (x.graph_name == dg()
                        || !graphs@.take(i as int).contains(x.graph_name)),
                forall|t: EncodedTerm| #[trigger]
                    self@.graphs_has(t) <==> old(self)@.graphs_has(t) && !graphs@.take(
                        i as int,
                    ).contains(t),
            decreases n - i,
        {
            let g = graphs[i];
            proof {
                assert(graphs@[i as int] is NamedNode || graphs@[i as int] is BlankNode);
            }
            self.remove_encoded_named_graph(g);
            proof {
                assert(graphs@.take(i + 1) =~= graphs@.take(i as int).push(graphs@[i as int]));
                assert forall|t: EncodedTerm|
                    graphs@.take(i + 1).contains(t) <==> graphs@.take(i as int).contains(t) || t
                        == graphs@[i as int] by {
                    let part = graphs@.take(i as int);
                    let whole = graphs@.take(i + 1);
                    if whole.contains(t) {
                        let w = choose|w: int| 0 <= w < whole.len() && whole[w] == t;
                        if w < part.len() {
                            assert(part[w] == t);
                            assert(part.contains(t));
                        }
                    }
                    if part.contains(t) {
                        let w = choose|w: int| 0 <= w < part.len() && part[w] == t;
                        assert(whole[w] == t);
                        assert(whole.contains(t));
                    }
                    if t == graphs@[i as int] {
                        assert(whole[whole.len() - 1] == t);
                        assert(whole.contains(t));
                    }
                }
                assert forall|x: EncodedQuad| #[trigger]
                    self@.has(x) <==> old(self)@.has(x) && (x.graph_name == dg()
                        || !graphs@.take(i + 1).contains(x.graph_name)) by {
                    if x.graph_name == dg() {
                        assert(x.graph_name != graphs@[i as int]);
                    }
                }
                assert forall|t: EncodedTerm| #[trigger]
                    self@.graphs_has(t) <==> old(self)@.graphs_has(t) && !graphs@.take(
                    i + 1,
                ).contains(t) by {}
            }
            i = i + 1;
        }
        proof {
            assert(graphs@.take(n as int) =~= graphs@);
            assert forall|x: EncodedQuad| #[trigger]
                self@.has(x) <==> old(self)@.has(x) && x.graph_name == dg() by {
                if old(self)@.has(x) && x.graph_name != dg() {
                    assert(old(self)@.graphs_has(x.graph_name));
                    assert(graphs@.contains(x.graph_name));
                }
            }
        }
        Ok(())
    }

    /// Removes every named graph with its quads, then every default-graph
    /// quad. Interned lexical forms stay.
    pub fn clear(&mut self) -> (r: Result<(), StorageError>)
        requires
            old(self)@.wf(),
        ensures
            final(self)@.wf(),
            final(self).base_version() == old(self).base_version(),
            r is Ok,
            forall|x: EncodedQuad| !(#[trigger] final(self)@.has(x)),
            forall|t: EncodedTerm| !(#[trigger] final(self)@.graphs_has(t)),
            final(self)@.id2str == old(self)@.id2str,
    {
        self.remove_all_named_graphs()?;
        let prefix: Vec<EncodedTerm> = Vec::new();
        let victims = self.state.scan(QuadEncoding::Dspo, &prefix);
        self.state.remove_many(&victims);
        Ok(())
    }
}

/// The store handle: the committed state and its commit counter.
pub struct Storage {
    state: StorageState,
    version: u64,
}

impl View for Storage {
    type V = StateV;

    closed spec fn view(&self) -> StateV {
        self.state@
    }
}

impl Storage {
    /// How many transactions have committed.
    pub closed spec fn version_of(&self) -> u64 {
        self.version
    }

    /// An empty store.
    pub fn new() -> (r: Result<Self, StorageError>)
        ensures
            r is Ok,
            r->Ok_0@.wf(),
            forall|q: EncodedQuad| !(#[trigger] r->Ok_0@.has(q)),
            forall|t: EncodedTerm| !(#[trigger] r->Ok_0@.graphs_has(t)),
            r->Ok_0@.id2str == Map::<u128, Seq<char>>::empty(),
            r->Ok_0@.count() == 0,
    {
        Self::setup(Self::column_families())
    }

    /// The column-family schema: eleven families, named verbatim, each with
    /// its iteration need, minimum scan-prefix width in bytes, and write
    /// ordering.
    fn column_families() -> (r: Vec<ColumnFamilyDefinition>)
        ensures
            r@.len() == 11,
            r@[0].name@ == "id2str"@ && !r@[0].use_iter && r@[0].min_prefix_size == 0
                && r@[0].unordered_writes,
            r@[1].name@ == "spog"@ && r@[1].use_iter && r@[1].min_prefix_size == 17
                && !r@[1].unordered_writes,
            r@[2].name@ == "posg"@ && r@[2].use_iter && r@[2].min_prefix_size == 17
                && !r@[2].unordered_writes,
            r@[3].name@ == "ospg"@ && r@[3].use_iter && r@[3].min_prefix_size == 0
                && !r@[3].unordered_writes,
            r@[4].name@ == "gspo"@ && r@[4].use_iter && r@[4].min_prefix_size == 17
                && !r@[4].unordered_writes,
            r@[5].name@ == "gpos"@ && r@[5].use_iter && r@[5].min_prefix_size == 17
                && !r@[5].unordered_writes,
            r@[6].name@ == "gosp"@ && r@[6].use_iter && r@[6].min_prefix_size == 17
                && !r@[6].unordered_writes,
            r@[7].name@ == "dspo"@ && r@[7].use_iter && r@[7].min_prefix_size == 17
                && !r@[7].unordered_writes,
            r@[8].name@ == "dpos"@ && r@[8].use_iter && r@[8].min_prefix_size == 17
                && !r@[8].unordered_writes,
            r@[9].name@ == "dosp"@ && r@[9].use_iter && r@[9].min_prefix_size == 0
                && !r@[9].unordered_writes,
            r@[10].name@ == "graphs"@ && r@[10].use_iter && r@[10].min_prefix_size == 17
                && !r@[10].unordered_writes,
    {
        let mut r: Vec<ColumnFamilyDefinition> = Vec::new();
        r.push(
            ColumnFamilyDefinition {
                name: "id2str",
                use_iter: false,
                min_prefix_size: 0,
                unordered_writes: true,
            },
        );
        r.push(
            ColumnFamilyDefinition {
                name: "spog",
                use_iter: true,
                // a named or blank node start
                min_prefix_size: 17,
                unordered_writes: false,
            },
        );
        r.push(
            ColumnFamilyDefinition {
                name: "posg",
                use_iter: true,
                min_prefix_size: 17,
                unordered_writes: false,
            },
        );
        r.push(
            ColumnFamilyDefinition {
                name: "ospg",
                use_iter: true,
                // small literals may start the key
                min_prefix_size: 0,
                unordered_writes: false,
            },
        );
        r.push(
            ColumnFamilyDefinition {
                name: "gspo",
                use_iter: true,
                min_prefix_size: 17,
                unordered_writes: false,
            },
        );
        r.push(
            ColumnFamilyDefinition {
                name: "gpos",
                use_iter: true,
                min_prefix_size: 17,
                unordered_writes: false,
            },
        );
        r.push(
            ColumnFamilyDefinition {
                name: "gosp",
                use_iter: true,
                min_prefix_size: 17,
                unordered_writes: false,
            },
        );
        r.push(
            ColumnFamilyDefinition {
                name: "dspo",
                use_iter: true,
                min_prefix_size: 17,
                unordered_writes: false,
            },
        );
        r.push(
            ColumnFamilyDefinition {
                name: "dpos",
                use_iter: true,
                min_prefix_size: 17,
                unordered_writes: false,
            },
        );
        r.push(
            ColumnFamilyDefinition {
                name: "dosp",
                use_iter: true,
                min_prefix_size: 0,
                unordered_writes: false,
            },
        );
        r.push(
            ColumnFamilyDefinition {
                name: "graphs",
                use_iter: true,
                min_prefix_size: 17,
                unordered_writes: false,
            },
        );
        r
    }

    /// Opens the in-memory column set the schema declares, all empty.
    fn setup(column_families: Vec<ColumnFamilyDefinition>) -> (r: Result<Self, StorageError>)
        requires
            column_families@.len() == 11,
        ensures
            r is Ok,
            r->Ok_0@.wf(),
            forall|q: EncodedQuad| !(#[trigger] r->Ok_0@.has(q)),
            forall|t: EncodedTerm| !(#[trigger] r->Ok_0@.graphs_has(t)),
            r->Ok_0@.id2str == Map::<u128, Seq<char>>::empty(),
            r->Ok_0@.count() == 0,
    {
        let _ = column_families;
        Ok(Storage { state: StorageState::empty(), version: 0 })
    }

    /// A repeatable-read snapshot: an owned copy of the committed state,
    /// which no later commit can change.
    pub fn snapshot(&self) -> (r: StorageReader)
        ensures
            r@ == self@,
    {
        StorageReader::from_state(self.state.duplicate())
    }

    /// Begins a transaction over the current committed state.
    pub fn transaction(&self) -> (r: StorageWriter)
        ensures
            r@ == self@,
            r.base_version() == self.version_of(),
    {
        StorageWriter { state: self.state.duplicate(), base: self.version }
    }

    /// Commits a transaction atomically: all of its writes become the
    /// committed state, or none do. The commit succeeds exactly when no
    /// other transaction committed since this one began (and the commit
    /// counter has room), which makes committed transactions serializable:
    /// each one read the state the previous commit left.
    pub fn commit(&mut self, writer: StorageWriter) -> (r: Result<(), StorageError>)
        ensures
            r is Ok <==> old(self).version_of() == writer.base_version() && old(self).version_of()
                < u64::MAX,
            r is Ok ==> final(self)@ == writer@ && final(self).version_of() == old(
                self,
            ).version_of() + 1,
            r is Err ==> final(self)@ == old(self)@ && final(self).version_of() == old(
                self,
            ).version_of() && r == Result::<(), StorageError>::Err(StorageError::Conflict),
    {
        if self.version == writer.base && self.version < u64::MAX {
            let StorageWriter { state, base } = writer;
            let _ = base;
            self.state = state;
            self.version = self.version + 1;
            Ok(())
        } else {
            Err(StorageError::Conflict)
        }
    }
}

// The store's laws over state images. Each mutation's contract instantiates
// the hypotheses, so these hold of the executable operations.
/// Insert idempotence: inserting an absent quad reports it fresh; inserting
/// it again does not, leaves the state unchanged, and the quad is contained.
pub proof fn lemma_insert_idempotent(
    s0: StateV,
    s1: StateV,
    s2: StateV,
    e: EncodedQuad,
    fresh1: bool,
    fresh2: bool,
)
    requires
        !s0.has(e),
        fresh1 == !s0.has(e),
        forall|x: EncodedQuad| #[trigger] s1.has(x) <==> s0.has(x) || x == e,
        fresh2 == !s1.has(e),
        forall|x: EncodedQuad| #[trigger] s2.has(x) <==> s1.has(x) || x == e,
    ensures
        fresh1,
        !fresh2,
        s2.has(e),
{
}

/// Remove duality: after inserting and then removing a quad, it is not
/// contained, and removing it again reports it absent.
pub proof fn lemma_remove_dual(
    s0: StateV,
    s1: StateV,
    s2: StateV,
    e: EncodedQuad,
    removed1: bool,
    removed2: bool,
)
    requires
        forall|x: EncodedQuad| #[trigger] s1.has(x) <==> s0.has(x) || x == e,
        removed1 == s1.has(e),
        forall|x: EncodedQuad| #[trigger] s2.has(x) <==> s1.has(x) && x != e,
        removed2 == s2.has(e),
    ensures
        removed1,
        !s2.has(e),
        !removed2,
{
}

/// Graph cascade: after a graph is unregistered, no quad of that graph
/// remains and the graph is no longer registered.
pub proof fn lemma_graph_cascade(s0: StateV, s1: StateV, g: EncodedTerm)
    requires
        forall|x: EncodedQuad| #[trigger] s1.has(x) <==> s0.has(x) && x.graph_name != g,
        forall|t: EncodedTerm| #[trigger] s1.graphs_has(t) <==> s0.graphs_has(t) && t != g,
    ensures
        forall|x: EncodedQuad| #[trigger] s1.has(x) ==> x.graph_name != g,
        !s1.graphs_has(g),
{
}

/// Isolation: a snapshot is an owned state image; a commit replaces the
/// store's state but relates the snapshot's image to nothing, so what the
/// snapshot shows is what the store held when it was taken.
pub proof fn lemma_snapshot_isolation(
    snapshot_view: StateV,
    store_before: StateV,
    store_after: StateV,
    q: EncodedQuad,
)
    requires
        snapshot_view == store_before,
        !store_before.has(q),
        store_after.has(q),
    ensures
        !snapshot_view.has(q),
        store_after != snapshot_view,
{
}

} // verus!
