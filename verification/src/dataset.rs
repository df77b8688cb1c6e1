//! The dataset view: adapts a storage snapshot to the SPARQL notion of a
//! query dataset, which may restrict the default graph to a list of graphs
//! and the named graphs to another list. A scratch interner holds strings
//! that arise during evaluation but are absent from the store.

use crate::codec::{encode_graph_name, encode_named_or_blank_node, encode_term_spec, hash_of, str_hash};
use crate::encoded::{EncodedQuad, EncodedTerm, StrHash};
use crate::error::EvaluationError;
use crate::state::{dg, StateV};
use crate::storage::{quad_matches, sel, StorageReader};
use crate::strmap::StrMap;
use crate::term::{GraphName, NamedOrBlankNode};
use vstd::prelude::*;

verus! {

/// The dataset clause of a query: which graphs form the default graph and
/// which graphs may be named, `None` meaning unrestricted.
pub struct QueryDataset {
    pub default_graph_graphs: Option<Vec<GraphName>>,
    pub available_named_graphs: Option<Vec<NamedOrBlankNode>>,
}

impl QueryDataset {
    /// The unrestricted dataset.
    pub fn new() -> (r: Self)
        ensures
            r.default_graph_graphs is None,
            r.available_named_graphs is None,
    {
        QueryDataset { default_graph_graphs: None, available_named_graphs: None }
    }
}

/// The encoded image of a dataset clause.
struct EncodedDatasetSpec {
    default: Option<Vec<EncodedTerm>>,
    named: Option<Vec<EncodedTerm>>,
}

/// A quad rewritten into the query's default graph.
pub open spec fn rewrite_default(q: EncodedQuad) -> EncodedQuad {
    EncodedQuad {
        subject: q.subject,
        predicate: q.predicate,
        object: q.object,
        graph_name: dg(),
    }
}

/// A storage snapshot scoped by a dataset clause, with a scratch interner.
pub struct DatasetView {
    store: StorageReader,
    extra: StrMap,
    dataset: EncodedDatasetSpec,
}

impl DatasetView {
    /// The snapshot the view reads.
    pub closed spec fn snapshot(&self) -> StateV {
        self.store@
    }

    /// The encoded graphs forming the query's default graph, if restricted.
    pub closed spec fn default_spec(&self) -> Option<Seq<EncodedTerm>> {
        match self.dataset.default {
            Some(v) => Some(v@),
            None => None,
        }
    }

    /// The encoded graphs the query may name, if restricted.
    pub closed spec fn named_spec(&self) -> Option<Seq<EncodedTerm>> {
        match self.dataset.named {
            Some(v) => Some(v@),
            None => None,
        }
    }

    /// The scratch interner's contents.
    pub closed spec fn extra_spec(&self) -> Map<u128, Seq<char>> {
        self.extra@
    }

    pub closed spec fn wf(&self) -> bool {
        &&& self.store@.wf()
        &&& match self.named_spec() {
            Some(ns) => forall|i: int| 0 <= i < ns.len() ==> #[trigger] ns[i] != dg(),
            None => true,
        }
    }

    /// Scopes a snapshot by a dataset clause, encoding its graph lists.
    pub fn new(store: StorageReader, dataset: &QueryDataset) -> (r: Result<Self, EvaluationError>)
        requires
            store@.wf(),
        ensures
            r is Ok,
            r->Ok_0.wf(),
            r->Ok_0.snapshot() == store@,
            r->Ok_0.extra_spec() == Map::<u128, Seq<char>>::empty(),
            match dataset.default_graph_graphs {
                Some(gs) => r->Ok_0.default_spec() matches Some(es) && es.len() == gs@.len()
                    && forall|i: int|
                    0 <= i < gs@.len() ==> es[i] == encode_term_spec(#[trigger] gs@[i]@),
                None => r->Ok_0.default_spec() is None,
            },
            match dataset.available_named_graphs {
                Some(gs) => r->Ok_0.named_spec() matches Some(es) && es.len() == gs@.len()
                    && forall|i: int|
                    0 <= i < gs@.len() ==> es[i] == encode_term_spec(#[trigger] gs@[i]@),
                None => r->Ok_0.named_spec() is None,
            },
    {
        let default: Option<Vec<EncodedTerm>> = match &dataset.default_graph_graphs {
            Some(gs) => {
                let n = gs.len();
                let mut v: Vec<EncodedTerm> = Vec::new();
                let mut i: usize = 0;
                while i < n
                    invariant
                        n == gs@.len(),
                        0 <= i <= n,
                        v@.len() == i,
                        forall|j: int|
                            0 <= j < i ==> v@[j] == encode_term_spec(#[trigger] gs@[j]@),
                    decreases n - i,
                {
                    v.push(encode_graph_name(&gs[i]));
                    i = i + 1;
                }
                Some(v)
            },
            None => None,
        };
        let named: Option<Vec<EncodedTerm>> = match &dataset.available_named_graphs {
            Some(gs) => {
                let n = gs.len();
                let mut v: Vec<EncodedTerm> = Vec::new();
                let mut i: usize = 0;
                while i < n
                    invariant
                        n == gs@.len(),
                        0 <= i <= n,
                        v@.len() == i,
                        forall|j: int|
                            0 <= j < i ==> v@[j] == encode_term_spec(#[trigger] gs@[j]@),
                        forall|j: int| 0 <= j < i ==> #[trigger] v@[j] != dg(),
                    decreases n - i,
                {
                    let e = encode_named_or_blank_node(&gs[i]);
                    proof {
                        assert(e != dg());
                    }
                    v.push(e);
                    i = i + 1;
                }
                Some(v)
            },
            None => None,
        };
        Ok(
            DatasetView {
                store,
                extra: StrMap::new(),
                dataset: EncodedDatasetSpec { default, named },
            },
        )
    }

    /// One unscoped pattern scan of the underlying store.
    fn store_encoded_quads_for_pattern(
        &self,
        subject: Option<&EncodedTerm>,
        predicate: Option<&EncodedTerm>,
        object: Option<&EncodedTerm>,
        graph_name: Option<&EncodedTerm>,
    ) -> (r: Vec<EncodedQuad>)
        requires
            self.wf(),
        ensures
            forall|q: EncodedQuad| #[trigger]
                r@.contains(q) <==> self.snapshot().has(q) && quad_matches(
                    q,
                    sel(subject),
                    sel(predicate),
                    sel(object),
                    sel(graph_name),
                ),
    {
        let iter = self.store.quads_for_pattern(subject, predicate, object, graph_name);
        iter.remaining_vec()
    }

    /// Pattern retrieval under the dataset scope:
    /// - a default-graph pattern reads the scoping graphs (rewriting their
    ///   name to the default marker), or the true default graph when
    ///   unrestricted;
    /// - a named-graph pattern answers only for an available graph;
    /// - a graph wildcard unions the available graphs, or every named graph
    ///   when unrestricted, and never the default graph.
    pub fn encoded_quads_for_pattern(
        &self,
        subject: Option<&EncodedTerm>,
        predicate: Option<&EncodedTerm>,
        object: Option<&EncodedTerm>,
        graph_name: Option<&EncodedTerm>,
    ) -> (r: Vec<EncodedQuad>)
        requires
            self.wf(),
        ensures
            match sel(graph_name) {
                Some(g) => {
                    if g == dg() {
                        match self.default_spec() {
                            Some(ds) => forall|q: EncodedQuad| #[trigger]
                                r@.contains(q) <==> (exists|x: EncodedQuad|
                                    #![all_triggers]
                                    self.snapshot().has(x) && quad_matches(
                                        x,
                                        sel(subject),
                                        sel(predicate),
                                        sel(object),
                                        None,
                                    ) && ds.contains(x.graph_name) && q == rewrite_default(x)),
                            None => forall|q: EncodedQuad| #[trigger]
                                r@.contains(q) <==> self.snapshot().has(q) && quad_matches(
                                    q,
                                    sel(subject),
                                    sel(predicate),
                                    sel(object),
                                    Some(dg()),
                                ),
                        }
                    } else {
                        forall|q: EncodedQuad| #[trigger]
                            r@.contains(q) <==> self.snapshot().has(q) && quad_matches(
                                q,
                                sel(subject),
                                sel(predicate),
                                sel(object),
                                Some(g),
                            ) && (match self.named_spec() {
                                Some(ns) => ns.contains(g),
                                None => true,
                            })
                    }
                },
                None => forall|q: EncodedQuad| #[trigger]
                    r@.contains(q) <==> self.snapshot().has(q) && quad_matches(
                        q,
                        sel(subject),
                        sel(predicate),
                        sel(object),
                        None,
                    ) && q.graph_name != dg() && (match self.named_spec() {
                        Some(ns) => ns.contains(q.graph_name),
                        None => true,
                    }),
            },
    {
        match graph_name {
            Some(g) => {
                if g.is_default_graph() {
                    match &self.dataset.default {
                        Some(ds) => {
                            let n = ds.len();
                            let mut out: Vec<EncodedQuad> = Vec::new();
                            let mut i: usize = 0;
                            while i < n
                                invariant
                                    self.wf(),
                                    n == ds@.len(),
                                    0 <= i <= n,
                                    forall|q: EncodedQuad| #[trigger]
                                        out@.contains(q) <==> (exists|x: EncodedQuad|
                                            #![all_triggers]
                                            self.snapshot().has(x) && quad_matches(
                                                x,
                                                sel(subject),
                                                sel(predicate),
                                                sel(object),
                                                None,
                                            ) && ds@.take(i as int).contains(x.graph_name) && q
                                                == rewrite_default(x)),
                                decreases n - i,
                            {
                                let gi = ds[i];
                                let part = self.store_encoded_quads_for_pattern(
                                    subject,
                                    predicate,
                                    object,
                                    Some(&gi),
                                );
                                let m = part.len();
                                let mut j: usize = 0;
                                while j < m
                                    invariant
                                        self.wf(),
                                        n == ds@.len(),
                                        0 <= i < n,
                                        gi == ds@[i as int],
                                        m == part@.len(),
                                        0 <= j <= m,
                                        forall|q: EncodedQuad| #[trigger]
                                            part@.contains(q) <==> self.snapshot().has(q)
                                                && quad_matches(
                                                q,
                                                sel(subject),
                                                sel(predicate),
                                                sel(object),
                                                Some(gi),
                                            ),
                                        forall|q: EncodedQuad| #[trigger]
                                            out@.contains(q) <==> (exists|x: EncodedQuad|
                                                #![all_triggers]
                                                self.snapshot().has(x) && quad_matches(
                                                    x,
                                                    sel(subject),
                                                    sel(predicate),
                                                    sel(object),
                                                    None,
                                                ) && (ds@.take(i as int).contains(x.graph_name) || (
                                                x.graph_name == gi && part@.take(
                                                    j as int,
                                                ).contains(x))) && q == rewrite_default(x)),
                                    decreases m - j,
                                {
                                    let x = part[j];
                                    proof {
                                        assert(part@.contains(x));
                                    }
                                    let rewritten = EncodedQuad {
                                        subject: x.subject,
                                        predicate: x.predicate,
                                        object: x.object,
                                        graph_name: EncodedTerm::DefaultGraph,
                                    };
                                    let ghost prev = out@;
                                    out.push(rewritten);
                                    proof {
                                        lemma_push_members(prev, rewritten);
                                        assert(part@.take(j + 1) =~= part@.take(j as int).push(
                                            part@[j as int],
                                        ));
                                        lemma_take_push_members(part@, j as int);
                                        assert forall|q: EncodedQuad| #[trigger]
                                            out@.contains(q) <==> (exists|x2: EncodedQuad|
                                                #![all_triggers]
                                                self.snapshot().has(x2) && quad_matches(
                                                    x2,
                                                    sel(subject),
                                                    sel(predicate),
                                                    sel(object),
                                                    None,
                                                ) && (ds@.take(i as int).contains(x2.graph_name)
                                                    || (x2.graph_name == gi && part@.take(
                                                    j + 1,
                                                ).contains(x2))) && q == rewrite_default(x2)) by {
                                            if out@.contains(q) {
                                                if q == rewrite_default(x) {
                                                    assert(self.snapshot().has(x) && quad_matches(
                                                        x,
                                                        sel(subject),
                                                        sel(predicate),
                                                        sel(object),
                                                        None,
                                                    ) && x.graph_name == gi && part@.take(
                                                        j + 1,
                                                    ).contains(x));
                                                }
                                            }
                                        }
                                    }
                                    j = j + 1;
                                }
                                proof {
                                    assert(part@.take(m as int) =~= part@);
                                    assert(ds@.take(i + 1) =~= ds@.take(i as int).push(
                                        ds@[i as int],
                                    ));
                                    lemma_take_push_members_terms(ds@, i as int);
                                }
                                i = i + 1;
                            }
                            proof {
                                assert(ds@.take(n as int) =~= ds@);
                            }
                            out
                        },
                        None => {
                            let marker = EncodedTerm::DefaultGraph;
                            self.store_encoded_quads_for_pattern(
                                subject,
                                predicate,
                                object,
                                Some(&marker),
                            )
                        },
                    }
                } else {
                    let allowed = match &self.dataset.named {
                        Some(ns) => contains_term(ns, g),
                        None => true,
                    };
                    if allowed {
                        self.store_encoded_quads_for_pattern(subject, predicate, object, Some(g))
                    } else {
                        let empty: Vec<EncodedQuad> = Vec::new();
                        proof {
                            assert forall|q: EncodedQuad| !(#[trigger] empty@.contains(q)) by {}
                        }
                        empty
                    }
                }
            },
            None => {
                match &self.dataset.named {
                    Some(ns) => {
                        let n = ns.len();
                        let mut out: Vec<EncodedQuad> = Vec::new();
                        let mut i: usize = 0;
                        while i < n
                            invariant
                                self.wf(),
                                n == ns@.len(),
                                0 <= i <= n,
                                forall|q: EncodedQuad| #[trigger]
                                    out@.contains(q) <==> self.snapshot().has(q) && quad_matches(
                                        q,
                                        sel(subject),
                                        sel(predicate),
                                        sel(object),
                                        None,
                                    ) && ns@.take(i as int).contains(q.graph_name),
                            decreases n - i,
                        {
                            let gi = ns[i];
                            let part = self.store_encoded_quads_for_pattern(
                                subject,
                                predicate,
                                object,
                                Some(&gi),
                            );
                            let m = part.len();
                            let mut j: usize = 0;
                            while j < m
                                invariant
                                    self.wf(),
                                    n == ns@.len(),
                                    0 <= i < n,
                                    gi == ns@[i as int],
                                    m == part@.len(),
                                    0 <= j <= m,
                                    forall|q: EncodedQuad| #[trigger]
                                        part@.contains(q) <==> self.snapshot().has(q)
                                            && quad_matches(
                                            q,
                                            sel(subject),
                                            sel(predicate),
                                            sel(object),
                                            Some(gi),
                                        ),
                                    forall|q: EncodedQuad| #[trigger]
                                        out@.contains(q) <==> self.snapshot().has(q)
                                            && quad_matches(
                                            q,
                                            sel(subject),
                                            sel(predicate),
                                            sel(object),
                                            None,
                                        ) && (ns@.take(i as int).contains(q.graph_name) || (
                                        q.graph_name == gi && part@.take(j as int).contains(q))),
                                decreases m - j,
                            {
                                let x = part[j];
                                proof {
                                    assert(part@.contains(x));
                                }
                                let ghost prev = out@;
                                out.push(x);
                                proof {
                                    lemma_push_members(prev, x);
                                    assert(part@.take(j + 1) =~= part@.take(j as int).push(
                                        part@[j as int],
                                    ));
                                    lemma_take_push_members(part@, j as int);
                                }
                                j = j + 1;
                            }
                            proof {
                                assert(part@.take(m as int) =~= part@);
                                assert(ns@.take(i + 1) =~= ns@.take(i as int).push(ns@[i as int]));
                                lemma_take_push_members_terms(ns@, i as int);
                            }
                            i = i + 1;
                        }
                        proof {
                            assert(ns@.take(n as int) =~= ns@);
                            assert forall|q: EncodedQuad| #[trigger]
                                out@.contains(q) implies q.graph_name != dg() by {
                                // an available graph is encoded from an IRI or
                                // a blank node, never the default marker
                            }
                        }
                        out
                    },
                    None => {
                        let all = self.store_encoded_quads_for_pattern(
                            subject,
                            predicate,
                            object,
                            None,
                        );
                        let n = all.len();
                        let mut out: Vec<EncodedQuad> = Vec::new();
                        let mut i: usize = 0;
                        while i < n
                            invariant
                                n == all@.len(),
                                0 <= i <= n,
                                forall|q: EncodedQuad| #[trigger]
                                    out@.contains(q) <==> all@.take(i as int).contains(q)
                                        && q.graph_name != dg(),
                            decreases n - i,
                        {
                            let x = all[i];
                            if !x.graph_name.is_default_graph() {
                                let ghost prev = out@;
                                out.push(x);
                                proof {
                                    lemma_push_members(prev, x);
                                }
                            }
                            proof {
                                assert(all@.take(i + 1) =~= all@.take(i as int).push(
                                    all@[i as int],
                                ));
                                lemma_take_push_members(all@, i as int);
                            }
                            i = i + 1;
                        }
                        proof {
                            assert(all@.take(n as int) =~= all@);
                            assert forall|q: EncodedQuad|
                                out@.contains(q) <==> self.snapshot().has(q) && quad_matches(
                                    q,
                                    sel(subject),
                                    sel(predicate),
                                    sel(object),
                                    None,
                                ) && q.graph_name != dg() by {}
                        }
                        out
                    },
                }
            },
        }
    }

    /// Resolves a hash: the scratch interner first, then the store.
    pub fn get_str(&self, id: &StrHash) -> (r: Result<Option<String>, EvaluationError>)
        ensures
            r is Ok,
            r->Ok_0 is Some <==> self.extra_spec().contains_key(id.value)
                || self.snapshot().id2str.contains_key(id.value),
            r->Ok_0 matches Some(v) ==> v@ == if self.extra_spec().contains_key(id.value) {
                self.extra_spec()[id.value]
            } else {
                self.snapshot().id2str[id.value]
            },
    {
        match self.extra.get(id) {
            Some(v) => Ok(Some(v)),
            None => {
                match self.store.get_str(id) {
                    Ok(v) => Ok(v),
                    Err(e) => Err(EvaluationError::Storage(e)),
                }
            },
        }
    }

    /// The hash of a string, when either the scratch interner or the store
    /// already binds it.
    pub fn get_str_id(&self, value: &str) -> (r: Result<Option<StrHash>, EvaluationError>)
        ensures
            r is Ok,
            r->Ok_0 is Some <==> self.extra_spec().contains_key(str_hash(value@))
                || self.snapshot().id2str.contains_key(str_hash(value@)),
            r->Ok_0 matches Some(h) ==> h == hash_of(value@),
    {
        let id = crate::codec::compute_str_hash(value);
        if self.extra.contains(&id) {
            Ok(Some(id))
        } else {
            match self.store.contains_str(&id) {
                Ok(true) => Ok(Some(id)),
                Ok(false) => Ok(None),
                Err(e) => Err(EvaluationError::Storage(e)),
            }
        }
    }

    /// Interns a string the evaluator constructed: a no-op when the store or
    /// the scratch interner already binds its hash.
    pub fn insert_str(&mut self, value: &str) -> (r: Result<StrHash, EvaluationError>)
        ensures
            r == Result::<StrHash, EvaluationError>::Ok(hash_of(value@)),
            final(self).snapshot() == old(self).snapshot(),
            final(self).default_spec() == old(self).default_spec(),
            final(self).named_spec() == old(self).named_spec(),
            final(self).extra_spec() == if old(self).snapshot().id2str.contains_key(
                str_hash(value@),
            ) || old(self).extra_spec().contains_key(str_hash(value@)) {
                old(self).extra_spec()
            } else {
                old(self).extra_spec().insert(str_hash(value@), value@)
            },
    {
        let id = crate::codec::compute_str_hash(value);
        match self.store.contains_str(&id) {
            Ok(true) => Ok(id),
            Ok(false) => {
                if self.extra.contains(&id) {
                    Ok(id)
                } else {
                    self.extra.insert(id, value);
                    Ok(id)
                }
            },
            Err(e) => Err(EvaluationError::Storage(e)),
        }
    }

    /// Graph enumeration must go through the surrounding algebra: a view's
    /// graph set may be narrowed by the query and is not authoritative.
    pub fn encoded_named_graphs(&self) -> (r: Result<Vec<EncodedTerm>, EvaluationError>)
        ensures
            r == Result::<Vec<EncodedTerm>, EvaluationError>::Err(
                EvaluationError::GraphLookupUnsupported,
            ),
    {
        Err(EvaluationError::GraphLookupUnsupported)
    }

    /// See `encoded_named_graphs`.
    pub fn contains_encoded_named_graph(&self, graph_name: &EncodedTerm) -> (r: Result<
        bool,
        EvaluationError,
    >)
        ensures
            r == Result::<bool, EvaluationError>::Err(EvaluationError::GraphLookupUnsupported),
    {
        let _ = graph_name;
        Err(EvaluationError::GraphLookupUnsupported)
    }
}

/// Membership after a push.
proof fn lemma_push_members(s: Seq<EncodedQuad>, e: EncodedQuad)
    ensures
        forall|x: EncodedQuad| #[trigger] s.push(e).contains(x) <==> s.contains(x) || x == e,
{
    assert forall|x: EncodedQuad| s.push(e).contains(x) <==> s.contains(x) || x == e by {
        if s.push(e).contains(x) {
            let w = choose|w: int| 0 <= w < s.push(e).len() && s.push(e)[w] == x;
            if w < s.len() {
                assert(s[w] == x);
                assert(s.contains(x));
            }
        }
        if s.contains(x) {
            let w = choose|w: int| 0 <= w < s.len() && s[w] == x;
            assert(s.push(e)[w] == x);
            assert(s.push(e).contains(x));
        }
        if x == e {
            assert(s.push(e)[s.len() as int] == x);
            assert(s.push(e).contains(x));
        }
    }
}

/// Membership in one-longer take.
proof fn lemma_take_push_members(s: Seq<EncodedQuad>, i: int)
    requires
        0 <= i < s.len(),
    ensures
        forall|x: EncodedQuad| #[trigger]
            s.take(i + 1).contains(x) <==> s.take(i).contains(x) || x == s[i],
{
    assert(s.take(i + 1) =~= s.take(i).push(s[i]));
    lemma_push_members(s.take(i), s[i]);
}

/// Membership in one-longer take, for term sequences.
proof fn lemma_take_push_members_terms(s: Seq<EncodedTerm>, i: int)
    requires
        0 <= i < s.len(),
    ensures
        forall|x: EncodedTerm| #[trigger]
            s.take(i + 1).contains(x) <==> s.take(i).contains(x) || x == s[i],
{
    assert(s.take(i + 1) =~= s.take(i).push(s[i]));
    assert forall|x: EncodedTerm| s.take(i).push(s[i]).contains(x) <==> s.take(i).contains(x) || x
        == s[i] by {
        let p = s.take(i).push(s[i]);
        if p.contains(x) {
            let w = choose|w: int| 0 <= w < p.len() && p[w] == x;
            if w < i {
                assert(s.take(i)[w] == x);
                assert(s.take(i).contains(x));
            }
        }
        if s.take(i).contains(x) {
            let w = choose|w: int| 0 <= w < s.take(i).len() && s.take(i)[w] == x;
            assert(p[w] == x);
            assert(p.contains(x));
        }
        if x == s[i] {
            assert(p[i] == x);
            assert(p.contains(x));
        }
    }
}

/// Whether a term list holds a term.
fn contains_term(v: &Vec<EncodedTerm>, t: &EncodedTerm) -> (r: bool)
    ensures
        r == v@.contains(*t),
{
    let n = v.len();
    let mut i: usize = 0;
    while i < n
        invariant
            n == v@.len(),
            0 <= i <= n,
            forall|j: int| 0 <= j < i ==> v@[j] != *t,
        decreases n - i,
    {
        if crate::encoded::term_compare(&v[i], t) == crate::encoded::TermOrder::Equal {
            assert(v@[i as int] == *t);
            return true;
        }
        i = i + 1;
    }
    assert(forall|j: int| 0 <= j < v@.len() ==> v@[j] != *t);
    false
}

} // verus!
