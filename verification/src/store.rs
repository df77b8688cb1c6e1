//! The dataset API: a quad store with snapshot reads and serializable
//! transactions, over the indexed storage engine.

use crate::codec::{
    decode_quad_spec, decode_term_spec, encode_graph_name, encode_named_or_blank_node,
    encode_quad_spec, encode_subject, encode_term, encode_term_spec,
};
use crate::encoded::{EncodedQuad, EncodedTerm};
use crate::error::{LoaderError, ParseError, SerializerError, StorageError};
use crate::state::{dg, StateV};
use crate::storage::{
    pattern_iter_ok, ChainedDecodingQuadIterator, DecodingGraphIterator, Storage, StorageReader,
    StorageWriter,
};
use crate::io::{DatasetFormat, GraphFormat};
use crate::nquads::{parse_document_spec, parse_nquads, serialize_dataset, write_nquads};
use crate::term::{GraphName, NamedNode, NamedOrBlankNode, Quad, QuadV, Subject, Term, TermV};
use vstd::prelude::*;

verus! {

/// A quad view moved into a given graph.
pub open spec fn in_graph(q: QuadV, g: TermV) -> QuadV {
    QuadV { subject: q.subject, predicate: q.predicate, object: q.object, graph_name: g }
}

/// The decoded images of a sequence of stored quads.
pub open spec fn decoded_all(encs: Seq<EncodedQuad>, m: Map<u128, Seq<char>>) -> Seq<QuadV> {
    encs.map_values(|e: EncodedQuad| decode_quad_spec(e, m)->0)
}

/// The decoded images, each moved into the default graph: what a graph dump
/// writes as triples.
pub open spec fn decoded_all_as_triples(encs: Seq<EncodedQuad>, m: Map<u128, Seq<char>>) -> Seq<
    QuadV,
> {
    encs.map_values(|e: EncodedQuad| in_graph(decode_quad_spec(e, m)->0, TermV::DefaultGraph))
}

/// Whether every parsed statement is a triple (lives in the default graph).
pub open spec fn all_triples(qs: Seq<QuadV>) -> bool {
    forall|j: int| 0 <= j < qs.len() ==> (#[trigger] qs[j]).graph_name is DefaultGraph
}

/// The encoded image of a bound pattern component, per slot type.
pub open spec fn sel_subject(o: Option<&Subject>) -> Option<EncodedTerm> {
    match o {
        Some(s) => Some(encode_term_spec(s@)),
        None => None,
    }
}

pub open spec fn sel_predicate(o: Option<&NamedNode>) -> Option<EncodedTerm> {
    match o {
        Some(p) => Some(encode_term_spec(p@)),
        None => None,
    }
}

pub open spec fn sel_object(o: Option<&Term>) -> Option<EncodedTerm> {
    match o {
        Some(t) => Some(encode_term_spec(t@)),
        None => None,
    }
}

pub open spec fn sel_graph(o: Option<&GraphName>) -> Option<EncodedTerm> {
    match o {
        Some(g) => Some(encode_term_spec(g@)),
        None => None,
    }
}

/// An iterator over the quads a pattern selects, decoded back to terms.
pub struct QuadIter {
    iter: ChainedDecodingQuadIterator,
    reader: StorageReader,
}

impl QuadIter {
    /// The encoded quads still to yield.
    pub closed spec fn remaining(&self) -> Seq<EncodedQuad> {
        self.iter.remaining()
    }

    /// The snapshot the quads are decoded against.
    pub closed spec fn snapshot(&self) -> StateV {
        self.reader@
    }

    pub closed spec fn wf(&self) -> bool {
        &&& self.iter.wf()
        &&& self.reader@.wf()
        &&& forall|q: EncodedQuad| #[trigger]
            self.iter.remaining().contains(q) ==> self.reader@.has(q)
    }

    pub(crate) fn from_parts(iter: ChainedDecodingQuadIterator, reader: StorageReader) -> (r: Self)
        requires
            iter.wf(),
            reader@.wf(),
            forall|q: EncodedQuad| #[trigger] iter.remaining().contains(q) ==> reader@.has(q),
        ensures
            r.wf(),
            r.remaining() == iter.remaining(),
            r.snapshot() == reader@,
    {
        QuadIter { iter, reader }
    }

    /// The next quad. Under the storage invariant every stored quad
    /// decodes, so iteration never reports corruption.
    pub fn next(&mut self) -> (r: Option<Result<Quad, StorageError>>)
        requires
            old(self).wf(),
        ensures
            final(self).wf(),
            final(self).snapshot() == old(self).snapshot(),
            old(self).remaining().len() == 0 ==> r is None && final(self).remaining() == old(
                self,
            ).remaining(),
            old(self).remaining().len() > 0 ==> {
                &&& final(self).remaining() == old(self).remaining().skip(1)
                &&& r matches Some(item)
                &&& (r->0 matches Ok(quad) && Some(quad@) == decode_quad_spec(
                    old(self).remaining()[0],
                    old(self).snapshot().id2str,
                ))
            },
    {
        proof {
            if old(self).remaining().len() > 0 {
                assert(old(self).remaining().contains(old(self).remaining()[0]));
            }
        }
        let item = self.iter.next();
        proof {
            assert forall|q: EncodedQuad| #[trigger]
                self.iter.remaining().contains(q) implies self.reader@.has(q) by {
                let w = choose|w: int|
                    0 <= w < self.iter.remaining().len() && self.iter.remaining()[w] == q;
                if old(self).remaining().len() > 0 {
                    assert(old(self).remaining()[w + 1] == q);
                    assert(old(self).remaining().contains(q));
                } else {
                    assert(old(self).remaining().contains(q));
                }
            }
        }
        match item {
            Some(item) => {
                match item {
                    Ok(encoded) => {
                        let decoded = self.reader.decode_quad(&encoded);
                        match decoded {
                            Ok(quad) => Some(Ok(quad)),
                            Err(e) => Some(Err(e)),
                        }
                    },
                    Err(e) => Some(Err(e)),
                }
            },
            None => None,
        }
    }
}

/// An iterator over the registered named graphs, decoded back to terms.
pub struct GraphNameIter {
    iter: DecodingGraphIterator,
    reader: StorageReader,
}

impl GraphNameIter {
    /// The encoded graph terms still to yield.
    pub closed spec fn remaining(&self) -> Seq<EncodedTerm> {
        self.iter.remaining()
    }

    pub closed spec fn snapshot(&self) -> StateV {
        self.reader@
    }

    pub closed spec fn wf(&self) -> bool {
        &&& self.iter.wf()
        &&& self.reader@.wf()
        &&& forall|t: EncodedTerm| #[trigger]
            self.iter.remaining().contains(t) ==> self.reader@.graphs_has(t) && (t is NamedNode
                || t is BlankNode)
    }

    pub(crate) fn from_parts(iter: DecodingGraphIterator, reader: StorageReader) -> (r: Self)
        requires
            iter.wf(),
            reader@.wf(),
            forall|t: EncodedTerm| #[trigger]
                iter.remaining().contains(t) ==> reader@.graphs_has(t) && (t is NamedNode
                    || t is BlankNode),
        ensures
            r.wf(),
            r.remaining() == iter.remaining(),
            r.snapshot() == reader@,
    {
        GraphNameIter { iter, reader }
    }

    /// The next graph name; never a corruption error under the invariant.
    pub fn next(&mut self) -> (r: Option<Result<NamedOrBlankNode, StorageError>>)
        requires
            old(self).wf(),
        ensures
            final(self).wf(),
            final(self).snapshot() == old(self).snapshot(),
            old(self).remaining().len() == 0 ==> r is None && final(self).remaining() == old(
                self,
            ).remaining(),
            old(self).remaining().len() > 0 ==> {
                &&& final(self).remaining() == old(self).remaining().skip(1)
                &&& (r->0 matches Ok(g) && Some(g@) == decode_term_spec(
                    old(self).remaining()[0],
                    old(self).snapshot().id2str,
                ))
            },
    {
        proof {
            if old(self).remaining().len() > 0 {
                assert(old(self).remaining().contains(old(self).remaining()[0]));
            }
        }
        let item = self.iter.next();
        proof {
            assert forall|t: EncodedTerm| #[trigger]
                self.iter.remaining().contains(t) implies self.reader@.graphs_has(t) && (
            t is NamedNode || t is BlankNode) by {
                let w = choose|w: int|
                    0 <= w < self.iter.remaining().len() && self.iter.remaining()[w] == t;
                if old(self).remaining().len() > 0 {
                    assert(old(self).remaining()[w + 1] == t);
                    assert(old(self).remaining().contains(t));
                } else {
                    assert(old(self).remaining().contains(t));
                }
            }
        }
        match item {
            Some(item) => {
                match item {
                    Ok(encoded) => {
                        let decoded = self.reader.decode_named_or_blank_node(&encoded);
                        match decoded {
                            Ok(g) => Some(Ok(g)),
                            Err(e) => Some(Err(e)),
                        }
                    },
                    Err(e) => Some(Err(e)),
                }
            },
            None => None,
        }
    }
}

/// An RDF dataset with repeatable-read snapshots and serializable
/// transactions.
pub struct Store {
    storage: Storage,
}

impl View for Store {
    type V = StateV;

    closed spec fn view(&self) -> StateV {
        self.storage@
    }
}

impl Store {
    /// How many transactions have committed.
    pub closed spec fn version_of(&self) -> u64 {
        self.storage.version_of()
    }

    /// An empty store.
    pub fn new() -> (r: Result<Self, StorageError>)
        ensures
            r is Ok,
            r->Ok_0@.wf(),
            forall|q: EncodedQuad| !(#[trigger] r->Ok_0@.has(q)),
            forall|t: EncodedTerm| !(#[trigger] r->Ok_0@.graphs_has(t)),
            r->Ok_0@.count() == 0,
    {
        match Storage::new() {
            Ok(storage) => Ok(Store { storage }),
            Err(e) => Err(e),
        }
    }

    /// Retrieves the quads matching a pattern, against a fresh snapshot.
    pub fn quads_for_pattern(
        &self,
        subject: Option<&Subject>,
        predicate: Option<&NamedNode>,
        object: Option<&Term>,
        graph_name: Option<&GraphName>,
    ) -> (r: QuadIter)
        requires
            self@.wf(),
        ensures
            r.wf(),
            r.snapshot() == self@,
            pattern_iter_ok(
                self@,
                r.remaining(),
                sel_subject(subject),
                sel_predicate(predicate),
                sel_object(object),
                sel_graph(graph_name),
            ),
    {
        let reader = self.storage.snapshot();
        let s_enc: Option<EncodedTerm> = match subject {
            Some(s) => Some(encode_subject(s)),
            None => None,
        };
        let p_enc: Option<EncodedTerm> = match predicate {
            Some(p) => Some(crate::codec::encode_named_node(p)),
            None => None,
        };
        let o_enc: Option<EncodedTerm> = match object {
            Some(o) => Some(encode_term(o)),
            None => None,
        };
        let g_enc: Option<EncodedTerm> = match graph_name {
            Some(g) => Some(encode_graph_name(g)),
            None => None,
        };
        let iter = reader.quads_for_pattern(
            s_enc.as_ref(),
            p_enc.as_ref(),
            o_enc.as_ref(),
            g_enc.as_ref(),
        );
        QuadIter::from_parts(iter, reader)
    }

    /// All stored quads: the default graph first, then the named graphs.
    pub fn iter(&self) -> (r: QuadIter)
        requires
            self@.wf(),
        ensures
            r.wf(),
            r.snapshot() == self@,
            pattern_iter_ok(self@, r.remaining(), None, None, None, None),
    {
        self.quads_for_pattern(None, None, None, None)
    }

    /// Whether the store holds this quad.
    pub fn contains(&self, quad: &Quad) -> (r: Result<bool, StorageError>)
        requires
            self@.wf(),
        ensures
            r == Result::<bool, StorageError>::Ok(self@.has(encode_quad_spec(quad@))),
    {
        let e = crate::codec::encode_quad(quad);
        self.storage.snapshot().contains(&e)
    }

    /// The number of stored quads.
    pub fn len(&self) -> (r: Result<usize, StorageError>)
        ensures
            r is Ok <==> self@.count() <= usize::MAX,
            r is Ok ==> r->Ok_0 == self@.count(),
    {
        self.storage.snapshot().len()
    }

    /// Whether the store is empty.
    pub fn is_empty(&self) -> (r: Result<bool, StorageError>)
        ensures
            r == Result::<bool, StorageError>::Ok(self@.count() == 0),
    {
        self.storage.snapshot().is_empty()
    }

    /// Begins a transaction over the current committed state. Its writes
    /// reach the store only through `commit`.
    pub fn transaction(&self) -> (r: Transaction)
        ensures
            r@ == self@,
            r.base_version() == self.version_of(),
    {
        Transaction { writer: self.storage.transaction() }
    }

    /// Commits a transaction: atomic, and serializable with every other
    /// committed transaction. Fails exactly when another transaction
    /// committed since this one began or the commit counter is exhausted;
    /// the caller then retries on a fresh transaction.
    pub fn commit(&mut self, transaction: Transaction) -> (r: Result<(), StorageError>)
        ensures
            r is Ok <==> old(self).version_of() == transaction.base_version() && old(
                self,
            ).version_of() < u64::MAX,
            r is Ok ==> final(self)@ == transaction@ && final(self).version_of() == old(
                self,
            ).version_of() + 1,
            r is Err ==> final(self)@ == old(self)@ && final(self).version_of() == old(
                self,
            ).version_of(),
    {
        self.storage.commit(transaction.writer)
    }

    /// Inserts a quad in a transaction of its own; reports whether it was
    /// absent. Fails only when the commit counter is exhausted.
    pub fn insert(&mut self, quad: &Quad) -> (r: Result<bool, StorageError>)
        requires
            old(self)@.wf(),
        ensures
            final(self)@.wf(),
            r is Ok <==> old(self).version_of() < u64::MAX,
            r is Ok ==> {
                &&& r->Ok_0 == !old(self)@.has(encode_quad_spec(quad@))
                &&& forall|x: EncodedQuad| #[trigger]
                    final(self)@.has(x) <==> old(self)@.has(x) || x == encode_quad_spec(quad@)
                &&& forall|t: EncodedTerm| #[trigger]
                    final(self)@.graphs_has(t) <==> old(self)@.graphs_has(t) || (!old(self)@.has(
                        encode_quad_spec(quad@),
                    ) && encode_quad_spec(quad@).graph_name != dg() && t == encode_quad_spec(
                        quad@,
                    ).graph_name)
                &&& final(self)@.count() == old(self)@.count() + if old(self)@.has(
                    encode_quad_spec(quad@),
                ) {
                    0int
                } else {
                    1int
                }
            },
            r is Err ==> final(self)@ == old(self)@,
    {
        let mut t = self.transaction();
        let fresh = t.insert(quad)?;
        match self.commit(t) {
            Ok(()) => Ok(fresh),
            Err(e) => Err(e),
        }
    }

    /// Adds a set of quads atomically.
    pub fn extend(&mut self, quads: &Vec<Quad>) -> (r: Result<(), StorageError>)
        requires
            old(self)@.wf(),
        ensures
            final(self)@.wf(),
            r is Ok <==> old(self).version_of() < u64::MAX,
            r is Ok ==> forall|x: EncodedQuad| #[trigger]
                final(self)@.has(x) <==> old(self)@.has(x) || (exists|i: int|
                    0 <= i < quads@.len() && x == encode_quad_spec(#[trigger] quads@[i]@)),
            r is Err ==> final(self)@ == old(self)@,
    {
        let mut t = self.transaction();
        t.extend(quads)?;
        self.commit(t)
    }

    /// Removes a quad in a transaction of its own; reports whether it was
    /// stored.
    pub fn remove(&mut self, quad: &Quad) -> (r: Result<bool, StorageError>)
        requires
            old(self)@.wf(),
        ensures
            final(self)@.wf(),
            r is Ok <==> old(self).version_of() < u64::MAX,
            r is Ok ==> {
                &&& r->Ok_0 == old(self)@.has(encode_quad_spec(quad@))
                &&& forall|x: EncodedQuad| #[trigger]
                    final(self)@.has(x) <==> old(self)@.has(x) && x != encode_quad_spec(quad@)
                &&& forall|t: EncodedTerm| #[trigger]
                    final(self)@.graphs_has(t) <==> old(self)@.graphs_has(t)
            },
            r is Err ==> final(self)@ == old(self)@,
    {
        let mut t = self.transaction();
        let removed = t.remove(quad)?;
        match self.commit(t) {
            Ok(()) => Ok(removed),
            Err(e) => Err(e),
        }
    }

    /// The registered named graphs, against a fresh snapshot.
    pub fn named_graphs(&self) -> (r: GraphNameIter)
        requires
            self@.wf(),
        ensures
            r.wf(),
            r.snapshot() == self@,
            forall|t: EncodedTerm| #[trigger] r.remaining().contains(t) <==> self@.graphs_has(t),
            r.remaining().no_duplicates(),
    {
        let reader = self.storage.snapshot();
        let iter = reader.named_graphs();
        GraphNameIter::from_parts(iter, reader)
    }

    /// Whether a graph is registered.
    pub fn contains_named_graph(&self, graph_name: &NamedOrBlankNode) -> (r: Result<
        bool,
        StorageError,
    >)
        requires
            self@.wf(),
        ensures
            r == Result::<bool, StorageError>::Ok(self@.graphs_has(encode_term_spec(graph_name@))),
    {
        let e = encode_named_or_blank_node(graph_name);
        self.storage.snapshot().contains_named_graph(&e)
    }

    /// Registers a graph; reports whether it was absent.
    pub fn insert_named_graph(&mut self, graph_name: &NamedOrBlankNode) -> (r: Result<
        bool,
        StorageError,
    >)
        requires
            old(self)@.wf(),
        ensures
            final(self)@.wf(),
            r is Ok <==> old(self).version_of() < u64::MAX,
            r is Ok ==> {
                &&& r->Ok_0 == !old(self)@.graphs_has(encode_term_spec(graph_name@))
                &&& forall|t: EncodedTerm| #[trigger]
                    final(self)@.graphs_has(t) <==> old(self)@.graphs_has(t) || t
                        == encode_term_spec(graph_name@)
                &&& forall|x: EncodedQuad| #[trigger] final(self)@.has(x) == old(self)@.has(x)
            },
            r is Err ==> final(self)@ == old(self)@,
    {
        let mut t = self.transaction();
        let fresh = t.insert_named_graph(graph_name)?;
        match self.commit(t) {
            Ok(()) => Ok(fresh),
            Err(e) => Err(e),
        }
    }

    /// Removes every quad of a graph; a named graph stays registered.
    pub fn clear_graph(&mut self, graph_name: &GraphName) -> (r: Result<(), StorageError>)
        requires
            old(self)@.wf(),
        ensures
            final(self)@.wf(),
            r is Ok <==> old(self).version_of() < u64::MAX,
            r is Ok ==> {
                &&& forall|x: EncodedQuad| #[trigger]
                    final(self)@.has(x) <==> old(self)@.has(x) && x.graph_name != encode_term_spec(
                        graph_name@,
                    )
                &&& forall|t: EncodedTerm| #[trigger]
                    final(self)@.graphs_has(t) <==> old(self)@.graphs_has(t)
            },
            r is Err ==> final(self)@ == old(self)@,
    {
        let mut t = self.transaction();
        t.clear_graph(graph_name)?;
        self.commit(t)
    }

    /// Unregisters a graph, removing all its quads first; reports whether
    /// it was registered.
    pub fn remove_named_graph(&mut self, graph_name: &NamedOrBlankNode) -> (r: Result<
        bool,
        StorageError,
    >)
        requires
            old(self)@.wf(),
        ensures
            final(self)@.wf(),
            r is Ok <==> old(self).version_of() < u64::MAX,
            r is Ok ==> {
                &&& r->Ok_0 == old(self)@.graphs_has(encode_term_spec(graph_name@))
                &&& forall|x: EncodedQuad| #[trigger]
                    final(self)@.has(x) <==> old(self)@.has(x) && x.graph_name != encode_term_spec(
                        graph_name@,
                    )
                &&& forall|t: EncodedTerm| #[trigger]
                    final(self)@.graphs_has(t) <==> old(self)@.graphs_has(t) && t
                        != encode_term_spec(graph_name@)
            },
            r is Err ==> final(self)@ == old(self)@,
    {
        let mut t = self.transaction();
        let removed = t.remove_named_graph(graph_name)?;
        match self.commit(t) {
            Ok(()) => Ok(removed),
            Err(e) => Err(e),
        }
    }

    /// Empties the store: every named graph with its quads, then the
    /// default graph.
    pub fn clear(&mut self) -> (r: Result<(), StorageError>)
        requires
            old(self)@.wf(),
        ensures
            final(self)@.wf(),
            r is Ok <==> old(self).version_of() < u64::MAX,
            r is Ok ==> forall|x: EncodedQuad| !(#[trigger] final(self)@.has(x)),
            r is Ok ==> forall|t: EncodedTerm| !(#[trigger] final(self)@.graphs_has(t)),
            r is Err ==> final(self)@ == old(self)@,
    {
        let mut t = self.transaction();
        t.clear()?;
        self.commit(t)
    }

    /// Validates the storage invariants; they are maintained statically.
    pub fn validate(&self) -> (r: Result<(), StorageError>)
        ensures
            r is Ok,
    {
        self.storage.snapshot().validate()
    }

    /// Loads a dataset document atomically: on success every statement is
    /// stored; a malformed document changes nothing.
    pub fn load_dataset(&mut self, data: &str, format: DatasetFormat) -> (r: Result<
        (),
        LoaderError,
    >)
        requires
            old(self)@.wf(),
        ensures
            final(self)@.wf(),
            r is Ok <==> parse_document_spec(data@) is Some && old(self).version_of() < u64::MAX,
            r is Ok ==> {
                let qs = parse_document_spec(data@)->0;
                forall|x: EncodedQuad| #[trigger]
                    final(self)@.has(x) <==> old(self)@.has(x) || (exists|j: int|
                        0 <= j < qs.len() && x == encode_quad_spec(#[trigger] qs[j]))
            },
            r is Err ==> final(self)@ == old(self)@,
            parse_document_spec(data@) is None ==> r == Result::<(), LoaderError>::Err(
                LoaderError::Parsing(ParseError::Syntax),
            ),
    {
        match format {
            DatasetFormat::NQuads => {},
        }
        match parse_nquads(data) {
            Some(quads) => {
                let ghost qs = parse_document_spec(data@)->0;
                match self.extend(&quads) {
                    Ok(()) => {
                        proof {
                            assert forall|x: EncodedQuad| #[trigger]
                                self@.has(x) <==> old(self)@.has(x) || (exists|j: int|
                                    0 <= j < qs.len() && x == encode_quad_spec(
                                        #[trigger] qs[j],
                                    )) by {
                                if self@.has(x) && !old(self)@.has(x) {
                                    let i = choose|i: int|
                                        0 <= i < quads@.len() && x == encode_quad_spec(
                                            #[trigger] quads@[i]@,
                                        );
                                    assert(qs[i] == quads@[i]@);
                                    assert(0 <= i < qs.len() && x == encode_quad_spec(qs[i]));
                                }
                                if exists|j: int|
                                    0 <= j < qs.len() && x == encode_quad_spec(#[trigger] qs[j]) {
                                    let j = choose|j: int|
                                        0 <= j < qs.len() && x == encode_quad_spec(qs[j]);
                                    assert(quads@[j]@ == qs[j]);
                                    assert(0 <= j < quads@.len() && x == encode_quad_spec(
                                        quads@[j]@,
                                    ));
                                }
                            }
                        }
                        Ok(())
                    },
                    Err(e) => Err(LoaderError::Storage(e)),
                }
            },
            None => Err(LoaderError::Parsing(ParseError::Syntax)),
        }
    }

    /// Loads a graph document (triples) into one graph, atomically.
    pub fn load_graph(
        &mut self,
        data: &str,
        format: GraphFormat,
        to_graph_name: &GraphName,
    ) -> (r: Result<(), LoaderError>)
        requires
            old(self)@.wf(),
        ensures
            final(self)@.wf(),
            r is Ok <==> (parse_document_spec(data@) matches Some(qs) && all_triples(qs)) && old(
                self,
            ).version_of() < u64::MAX,
            r is Ok ==> {
                let qs = parse_document_spec(data@)->0;
                forall|x: EncodedQuad| #[trigger]
                    final(self)@.has(x) <==> old(self)@.has(x) || (exists|j: int|
                        0 <= j < qs.len() && x == encode_quad_spec(
                            in_graph(#[trigger] qs[j], to_graph_name@),
                        ))
            },
            r is Err ==> final(self)@ == old(self)@,
    {
        match format {
            GraphFormat::NTriples => {},
        }
        let quads = match parse_nquads(data) {
            Some(quads) => quads,
            None => {
                return Err(LoaderError::Parsing(ParseError::Syntax));
            },
        };
        let ghost qs = parse_document_spec(data@)->0;
        let n = quads.len();
        let mut moved: Vec<Quad> = Vec::new();
        let mut i: usize = 0;
        while i < n
            invariant
                *self == *old(self),
                old(self)@.wf(),
                parse_document_spec(data@) is Some,
                qs == parse_document_spec(data@)->0,
                n == quads@.len(),
                qs.len() == n,
                forall|j: int| 0 <= j < n ==> (#[trigger] quads@[j])@ == qs[j],
                0 <= i <= n,
                moved@.len() == i,
                forall|j: int| 0 <= j < i ==> (#[trigger] qs[j]).graph_name is DefaultGraph,
                forall|j: int|
                    0 <= j < i ==> (#[trigger] moved@[j])@ == in_graph(qs[j], to_graph_name@),
            decreases n - i,
        {
            let q = &quads[i];
            match &q.graph_name {
                GraphName::DefaultGraph => {},
                _ => {
                    proof {
                        assert(!all_triples(qs));
                    }
                    return Err(LoaderError::Parsing(ParseError::Syntax));
                },
            }
            let q2 = Quad {
                subject: q.subject.clone(),
                predicate: q.predicate.clone(),
                object: q.object.clone(),
                graph_name: to_graph_name.clone(),
            };
            moved.push(q2);
            i = i + 1;
        }
        match self.extend(&moved) {
            Ok(()) => {
                proof {
                    assert forall|x: EncodedQuad| #[trigger]
                        self@.has(x) <==> old(self)@.has(x) || (exists|j: int|
                            0 <= j < qs.len() && x == encode_quad_spec(
                                in_graph(#[trigger] qs[j], to_graph_name@),
                            )) by {
                        if self@.has(x) && !old(self)@.has(x) {
                            let i2 = choose|i2: int|
                                0 <= i2 < moved@.len() && x == encode_quad_spec(
                                    #[trigger] moved@[i2]@,
                                );
                            assert(moved@[i2]@ == in_graph(qs[i2], to_graph_name@));
                            assert(0 <= i2 < qs.len() && x == encode_quad_spec(
                                in_graph(qs[i2], to_graph_name@),
                            ));
                        }
                        if exists|j: int|
                            0 <= j < qs.len() && x == encode_quad_spec(
                                in_graph(#[trigger] qs[j], to_graph_name@),
                            ) {
                            let j = choose|j: int|
                                0 <= j < qs.len() && x == encode_quad_spec(
                                    in_graph(qs[j], to_graph_name@),
                                );
                            assert(moved@[j]@ == in_graph(qs[j], to_graph_name@));
                            assert(0 <= j < moved@.len() && x == encode_quad_spec(moved@[j]@));
                        }
                    }
                }
                Ok(())
            },
            Err(e) => Err(LoaderError::Storage(e)),
        }
    }

    /// Writes the whole dataset as N-Quads: one line per stored quad, the
    /// default graph first.
    pub fn dump_dataset(&self, format: DatasetFormat) -> (r: Result<String, SerializerError>)
        requires
            self@.wf(),
        ensures
            r is Ok,
            exists|encs: Seq<EncodedQuad>|
                pattern_iter_ok(self@, encs, None, None, None, None) && r->Ok_0@
                    == serialize_dataset(decoded_all(encs, self@.id2str)),
    {
        match format {
            DatasetFormat::NQuads => {},
        }
        let reader = self.storage.snapshot();
        let it = reader.quads();
        let encs = it.remaining_vec();
        let n = encs.len();
        let mut quads: Vec<Quad> = Vec::new();
        let mut i: usize = 0;
        while i < n
            invariant
                reader@ == self@,
                reader@.wf(),
                n == encs@.len(),
                forall|q: EncodedQuad| #[trigger] encs@.contains(q) ==> self@.has(q),
                0 <= i <= n,
                quads@.len() == i,
                forall|j: int|
                    0 <= j < i ==> (#[trigger] quads@[j])@ == decode_quad_spec(
                        encs@[j],
                        self@.id2str,
                    )->0,
            decreases n - i,
        {
            proof {
                assert(encs@.contains(encs@[i as int]));
            }
            match reader.decode_quad(&encs[i]) {
                Ok(q) => {
                    quads.push(q);
                },
                Err(e) => {
                    // unreachable: the invariant resolves every stored quad
                    proof {
                        assert(false);
                    }
                    return Err(SerializerError::Storage(e));
                },
            }
            i = i + 1;
        }
        let text = write_nquads(&quads);
        proof {
            assert(quads@.map_values(|q: Quad| q@) =~= decoded_all(encs@, self@.id2str));
        }
        Ok(text)
    }

    /// Writes one graph as N-Triples: its quads, graph position omitted.
    pub fn dump_graph(&self, format: GraphFormat, from_graph_name: &GraphName) -> (r: Result<
        String,
        SerializerError,
    >)
        requires
            self@.wf(),
        ensures
            r is Ok,
            exists|encs: Seq<EncodedQuad>|
                pattern_iter_ok(
                    self@,
                    encs,
                    None,
                    None,
                    None,
                    Some(encode_term_spec(from_graph_name@)),
                ) && r->Ok_0@ == serialize_dataset(decoded_all_as_triples(encs, self@.id2str)),
    {
        match format {
            GraphFormat::NTriples => {},
        }
        let reader = self.storage.snapshot();
        let g_enc = encode_graph_name(from_graph_name);
        let it = reader.quads_for_pattern(None, None, None, Some(&g_enc));
        let encs = it.remaining_vec();
        let n = encs.len();
        let mut quads: Vec<Quad> = Vec::new();
        let mut i: usize = 0;
        while i < n
            invariant
                reader@ == self@,
                reader@.wf(),
                n == encs@.len(),
                forall|q: EncodedQuad| #[trigger] encs@.contains(q) ==> self@.has(q),
                0 <= i <= n,
                quads@.len() == i,
                forall|j: int|
                    0 <= j < i ==> (#[trigger] quads@[j])@ == in_graph(
                        decode_quad_spec(encs@[j], self@.id2str)->0,
                        TermV::DefaultGraph,
                    ),
            decreases n - i,
        {
            proof {
                assert(encs@.contains(encs@[i as int]));
            }
            match reader.decode_quad(&encs[i]) {
                Ok(q) => {
                    let triple = Quad {
                        subject: q.subject,
                        predicate: q.predicate,
                        object: q.object,
                        graph_name: GraphName::DefaultGraph,
                    };
                    quads.push(triple);
                },
                Err(e) => {
                    // unreachable: the invariant resolves every stored quad
                    proof {
                        assert(false);
                    }
                    return Err(SerializerError::Storage(e));
                },
            }
            i = i + 1;
        }
        let text = write_nquads(&quads);
        proof {
            assert(quads@.map_values(|q: Quad| q@) =~= decoded_all_as_triples(
                encs@,
                self@.id2str,
            ));
        }
        Ok(text)
    }
}

/// An object to do operations during a transaction: reads see the
/// transaction's own writes; nothing reaches the store before `commit`.
pub struct Transaction {
    writer: StorageWriter,
}

impl View for Transaction {
    type V = StateV;

    closed spec fn view(&self) -> StateV {
        self.writer@
    }
}

impl Transaction {
    /// The commit counter of the state this transaction began from.
    pub closed spec fn base_version(&self) -> u64 {
        self.writer.base_version()
    }

    /// Retrieves the quads matching a pattern in the transaction's own view.
    pub fn quads_for_pattern(
        &self,
        subject: Option<&Subject>,
        predicate: Option<&NamedNode>,
        object: Option<&Term>,
        graph_name: Option<&GraphName>,
    ) -> (r: QuadIter)
        requires
            self@.wf(),
        ensures
            r.wf(),
            r.snapshot() == self@,
            pattern_iter_ok(
                self@,
                r.remaining(),
                sel_subject(subject),
                sel_predicate(predicate),
                sel_object(object),
                sel_graph(graph_name),
            ),
    {
        let reader = self.writer.reader();
        let s_enc: Option<EncodedTerm> = match subject {
            Some(s) => Some(encode_subject(s)),
            None => None,
        };
        let p_enc: Option<EncodedTerm> = match predicate {
            Some(p) => Some(crate::codec::encode_named_node(p)),
            None => None,
        };
        let o_enc: Option<EncodedTerm> = match object {
            Some(o) => Some(encode_term(o)),
            None => None,
        };
        let g_enc: Option<EncodedTerm> = match graph_name {
            Some(g) => Some(encode_graph_name(g)),
            None => None,
        };
        let iter = reader.quads_for_pattern(
            s_enc.as_ref(),
            p_enc.as_ref(),
            o_enc.as_ref(),
            g_enc.as_ref(),
        );
        QuadIter::from_parts(iter, reader)
    }

    /// All quads in the transaction's own view.
    pub fn iter(&self) -> (r: QuadIter)
        requires
            self@.wf(),
        ensures
            r.wf(),
            r.snapshot() == self@,
            pattern_iter_ok(self@, r.remaining(), None, None, None, None),
    {
        self.quads_for_pattern(None, None, None, None)
    }

    /// Whether the transaction's view holds this quad.
    pub fn contains(&self, quad: &Quad) -> (r: Result<bool, StorageError>)
        requires
            self@.wf(),
        ensures
            r == Result::<bool, StorageError>::Ok(self@.has(encode_quad_spec(quad@))),
    {
        let e = crate::codec::encode_quad(quad);
        self.writer.reader().contains(&e)
    }

    /// The number of quads in the transaction's view.
    pub fn len(&self) -> (r: Result<usize, StorageError>)
        ensures
            r is Ok <==> self@.count() <= usize::MAX,
            r is Ok ==> r->Ok_0 == self@.count(),
    {
        self.writer.reader().len()
    }

    /// Whether the transaction's view is empty.
    pub fn is_empty(&self) -> (r: Result<bool, StorageError>)
        ensures
            r == Result::<bool, StorageError>::Ok(self@.count() == 0),
    {
        self.writer.reader().is_empty()
    }

    /// Inserts a quad; reports whether it was absent from this view.
    pub fn insert(&mut self, quad: &Quad) -> (r: Result<bool, StorageError>)
        requires
            old(self)@.wf(),
        ensures
            final(self)@.wf(),
            final(self).base_version() == old(self).base_version(),
            r == Result::<bool, StorageError>::Ok(!old(self)@.has(encode_quad_spec(quad@))),
            forall|x: EncodedQuad| #[trigger]
                final(self)@.has(x) <==> old(self)@.has(x) || x == encode_quad_spec(quad@),
            forall|t: EncodedTerm| #[trigger]
                final(self)@.graphs_has(t) <==> old(self)@.graphs_has(t) || (!old(self)@.has(
                    encode_quad_spec(quad@),
                ) && encode_quad_spec(quad@).graph_name != dg() && t == encode_quad_spec(
                    quad@,
                ).graph_name),
            final(self)@.count() == old(self)@.count() + if old(self)@.has(
                encode_quad_spec(quad@),
            ) {
                0int
            } else {
                1int
            },
    {
        self.writer.insert(quad)
    }

    /// Adds a set of quads.
    pub fn extend(&mut self, quads: &Vec<Quad>) -> (r: Result<(), StorageError>)
        requires
            old(self)@.wf(),
        ensures
            final(self)@.wf(),
            final(self).base_version() == old(self).base_version(),
            r is Ok,
            forall|x: EncodedQuad| #[trigger]
                final(self)@.has(x) <==> old(self)@.has(x) || (exists|i: int|
                    0 <= i < quads@.len() && x == encode_quad_spec(#[trigger] quads@[i]@)),
    {
        let n = quads.len();
        let mut i: usize = 0;
        while i < n
            invariant
                n == quads@.len(),
                0 <= i <= n,
                self@.wf(),
                self.base_version() == old(self).base_version(),
                forall|x: EncodedQuad| #[trigger]
                    self@.has(x) <==> old(self)@.has(x) || (exists|j: int|
                        0 <= j < i && x == encode_quad_spec(#[trigger] quads@[j]@)),
            decreases n - i,
        {
            let _ = self.writer.insert(&quads[i])?;
            proof {
                assert forall|x: EncodedQuad| #[trigger]
                    self@.has(x) <==> old(self)@.has(x) || (exists|j: int|
                        0 <= j < i + 1 && x == encode_quad_spec(#[trigger] quads@[j]@)) by {
                    if x == encode_quad_spec(quads@[i as int]@) {
                        assert(0 <= i < i + 1 && x == encode_quad_spec(quads@[i as int]@));
                    }
                }
            }
            i = i + 1;
        }
        Ok(())
    }

    /// Removes a quad; reports whether this view held it.
    pub fn remove(&mut self, quad: &Quad) -> (r: Result<bool, StorageError>)
        requires
            old(self)@.wf(),
        ensures
            final(self)@.wf(),
            final(self).base_version() == old(self).base_version(),
            r == Result::<bool, StorageError>::Ok(old(self)@.has(encode_quad_spec(quad@))),
            forall|x: EncodedQuad| #[trigger]
                final(self)@.has(x) <==> old(self)@.has(x) && x != encode_quad_spec(quad@),
            forall|t: EncodedTerm| #[trigger]
                final(self)@.graphs_has(t) <==> old(self)@.graphs_has(t),
            final(self)@.count() == old(self)@.count() - if old(self)@.has(
                encode_quad_spec(quad@),
            ) {
                1int
            } else {
                0int
            },
    {
        self.writer.remove(quad)
    }

    /// The graphs registered in the transaction's view.
    pub fn named_graphs(&self) -> (r: GraphNameIter)
        requires
            self@.wf(),
        ensures
            r.wf(),
            r.snapshot() == self@,
            forall|t: EncodedTerm| #[trigger] r.remaining().contains(t) <==> self@.graphs_has(t),
            r.remaining().no_duplicates(),
    {
        let reader = self.writer.reader();
        let iter = reader.named_graphs();
        GraphNameIter::from_parts(iter, reader)
    }

    /// Whether a graph is registered in the transaction's view.
    pub fn contains_named_graph(&self, graph_name: &NamedOrBlankNode) -> (r: Result<
        bool,
        StorageError,
    >)
        requires
            self@.wf(),
        ensures
            r == Result::<bool, StorageError>::Ok(self@.graphs_has(encode_term_spec(graph_name@))),
    {
        let e = encode_named_or_blank_node(graph_name);
        self.writer.reader().contains_named_graph(&e)
    }

    /// Registers a graph; reports whether it was absent from this view.
    pub fn insert_named_graph(&mut self, graph_name: &NamedOrBlankNode) -> (r: Result<
        bool,
        StorageError,
    >)
        requires
            old(self)@.wf(),
        ensures
            final(self)@.wf(),
            final(self).base_version() == old(self).base_version(),
            r == Result::<bool, StorageError>::Ok(
                !old(self)@.graphs_has(encode_term_spec(graph_name@)),
            ),
            forall|t: EncodedTerm| #[trigger]
                final(self)@.graphs_has(t) <==> old(self)@.graphs_has(t) || t == encode_term_spec(
                    graph_name@,
                ),
            forall|x: EncodedQuad| #[trigger] final(self)@.has(x) == old(self)@.has(x),
            final(self)@.count() == old(self)@.count(),
    {
        self.writer.insert_named_graph(graph_name)
    }

    /// Removes every quad of a graph; a named graph stays registered.
    pub fn clear_graph(&mut self, graph_name: &GraphName) -> (r: Result<(), StorageError>)
        requires
            old(self)@.wf(),
        ensures
            final(self)@.wf(),
            final(self).base_version() == old(self).base_version(),
            r is Ok,
            forall|x: EncodedQuad| #[trigger]
                final(self)@.has(x) <==> old(self)@.has(x) && x.graph_name != encode_term_spec(
                    graph_name@,
                ),
            forall|t: EncodedTerm| #[trigger]
                final(self)@.graphs_has(t) <==> old(self)@.graphs_has(t),
    {
        self.writer.clear_graph(graph_name)
    }

    /// Unregisters a graph, removing all its quads first.
    pub fn remove_named_graph(&mut self, graph_name: &NamedOrBlankNode) -> (r: Result<
        bool,
        StorageError,
    >)
        requires
            old(self)@.wf(),
        ensures
            final(self)@.wf(),
            final(self).base_version() == old(self).base_version(),
            r == Result::<bool, StorageError>::Ok(
                old(self)@.graphs_has(encode_term_spec(graph_name@)),
            ),
            forall|x: EncodedQuad| #[trigger]
                final(self)@.has(x) <==> old(self)@.has(x) && x.graph_name != encode_term_spec(
                    graph_name@,
                ),
            forall|t: EncodedTerm| #[trigger]
                final(self)@.graphs_has(t) <==> old(self)@.graphs_has(t) && t != encode_term_spec(
                    graph_name@,
                ),
    {
        self.writer.remove_named_graph(graph_name)
    }

    /// Loads a dataset document into the transaction's view.
    pub fn load_dataset(&mut self, data: &str, format: DatasetFormat) -> (r: Result<
        (),
        LoaderError,
    >)
        requires
            old(self)@.wf(),
        ensures
            final(self)@.wf(),
            final(self).base_version() == old(self).base_version(),
            r is Ok <==> parse_document_spec(data@) is Some,
            r is Ok ==> {
                let qs = parse_document_spec(data@)->0;
                forall|x: EncodedQuad| #[trigger]
                    final(self)@.has(x) <==> old(self)@.has(x) || (exists|j: int|
                        0 <= j < qs.len() && x == encode_quad_spec(#[trigger] qs[j]))
            },
            r is Err ==> final(self)@ == old(self)@ && r == Result::<(), LoaderError>::Err(
                LoaderError::Parsing(ParseError::Syntax),
            ),
    {
        match format {
            DatasetFormat::NQuads => {},
        }
        match parse_nquads(data) {
            Some(quads) => {
                let ghost qs = parse_document_spec(data@)->0;
                match self.extend(&quads) {
                    Ok(()) => {
                        proof {
                            assert forall|x: EncodedQuad| #[trigger]
                                self@.has(x) <==> old(self)@.has(x) || (exists|j: int|
                                    0 <= j < qs.len() && x == encode_quad_spec(
                                        #[trigger] qs[j],
                                    )) by {
                                if self@.has(x) && !old(self)@.has(x) {
                                    let i = choose|i: int|
                                        0 <= i < quads@.len() && x == encode_quad_spec(
                                            #[trigger] quads@[i]@,
                                        );
                                    assert(qs[i] == quads@[i]@);
                                    assert(0 <= i < qs.len() && x == encode_quad_spec(qs[i]));
                                }
                                if exists|j: int|
                                    0 <= j < qs.len() && x == encode_quad_spec(#[trigger] qs[j]) {
                                    let j = choose|j: int|
                                        0 <= j < qs.len() && x == encode_quad_spec(qs[j]);
                                    assert(quads@[j]@ == qs[j]);
                                    assert(0 <= j < quads@.len() && x == encode_quad_spec(
                                        quads@[j]@,
                                    ));
                                }
                            }
                        }
                        Ok(())
                    },
                    Err(e) => Err(LoaderError::Storage(e)),
                }
            },
            None => Err(LoaderError::Parsing(ParseError::Syntax)),
        }
    }

    /// Loads a graph document (triples) into one graph of the transaction's
    /// view.
    pub fn load_graph(
        &mut self,
        data: &str,
        format: GraphFormat,
        to_graph_name: &GraphName,
    ) -> (r: Result<(), LoaderError>)
        requires
            old(self)@.wf(),
        ensures
            final(self)@.wf(),
            final(self).base_version() == old(self).base_version(),
            r is Ok <==> (parse_document_spec(data@) matches Some(qs) && all_triples(qs)),
            r is Ok ==> {
                let qs = parse_document_spec(data@)->0;
                forall|x: EncodedQuad| #[trigger]
                    final(self)@.has(x) <==> old(self)@.has(x) || (exists|j: int|
                        0 <= j < qs.len() && x == encode_quad_spec(
                            in_graph(#[trigger] qs[j], to_graph_name@),
                        ))
            },
            r is Err ==> final(self)@ == old(self)@ && r == Result::<(), LoaderError>::Err(
                LoaderError::Parsing(ParseError::Syntax),
            ),
    {
        match format {
            GraphFormat::NTriples => {},
        }
        let quads = match parse_nquads(data) {
            Some(quads) => quads,
            None => {
                return Err(LoaderError::Parsing(ParseError::Syntax));
            },
        };
        let ghost qs = parse_document_spec(data@)->0;
        let n = quads.len();
        let mut moved: Vec<Quad> = Vec::new();
        let mut i: usize = 0;
        while i < n
            invariant
                *self == *old(self),
                old(self)@.wf(),
                parse_document_spec(data@) is Some,
                qs == parse_document_spec(data@)->0,
                n == quads@.len(),
                qs.len() == n,
                forall|j: int| 0 <= j < n ==> (#[trigger] quads@[j])@ == qs[j],
                0 <= i <= n,
                moved@.len() == i,
                forall|j: int| 0 <= j < i ==> (#[trigger] qs[j]).graph_name is DefaultGraph,
                forall|j: int|
                    0 <= j < i ==> (#[trigger] moved@[j])@ == in_graph(qs[j], to_graph_name@),
            decreases n - i,
        {
            let q = &quads[i];
            match &q.graph_name {
                GraphName::DefaultGraph => {},
                _ => {
                    proof {
                        assert(!all_triples(qs));
                    }
                    return Err(LoaderError::Parsing(ParseError::Syntax));
                },
            }
            let q2 = Quad {
                subject: q.subject.clone(),
                predicate: q.predicate.clone(),
                object: q.object.clone(),
                graph_name: to_graph_name.clone(),
            };
            moved.push(q2);
            i = i + 1;
        }
        match self.extend(&moved) {
            Ok(()) => {
                proof {
                    assert forall|x: EncodedQuad| #[trigger]
                        self@.has(x) <==> old(self)@.has(x) || (exists|j: int|
                            0 <= j < qs.len() && x == encode_quad_spec(
                                in_graph(#[trigger] qs[j], to_graph_name@),
                            )) by {
                        if self@.has(x) && !old(self)@.has(x) {
                            let i2 = choose|i2: int|
                                0 <= i2 < moved@.len() && x == encode_quad_spec(
                                    #[trigger] moved@[i2]@,
                                );
                            assert(moved@[i2]@ == in_graph(qs[i2], to_graph_name@));
                            assert(0 <= i2 < qs.len() && x == encode_quad_spec(
                                in_graph(qs[i2], to_graph_name@),
                            ));
                        }
                        if exists|j: int|
                            0 <= j < qs.len() && x == encode_quad_spec(
                                in_graph(#[trigger] qs[j], to_graph_name@),
                            ) {
                            let j = choose|j: int|
                                0 <= j < qs.len() && x == encode_quad_spec(
                                    in_graph(qs[j], to_graph_name@),
                                );
                            assert(moved@[j]@ == in_graph(qs[j], to_graph_name@));
                            assert(0 <= j < moved@.len() && x == encode_quad_spec(moved@[j]@));
                        }
                    }
                }
                Ok(())
            },
            Err(e) => Err(LoaderError::Storage(e)),
        }
    }

    /// Empties the transaction's view.
    pub fn clear(&mut self) -> (r: Result<(), StorageError>)
        requires
            old(self)@.wf(),
        ensures
            final(self)@.wf(),
            final(self).base_version() == old(self).base_version(),
            r is Ok,
            forall|x: EncodedQuad| !(#[trigger] final(self)@.has(x)),
            forall|t: EncodedTerm| !(#[trigger] final(self)@.graphs_has(t)),
    {
        self.writer.clear()
    }
}

} // verus!
