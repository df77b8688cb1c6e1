use ic_oxigraph::error::StorageError;
use ic_oxigraph::io::{DatasetFormat, GraphFormat};
use ic_oxigraph::store::{GraphNameIter, QuadIter, Store};
use ic_oxigraph::term::{
    BlankNode, GraphName, Literal, NamedNode, NamedOrBlankNode, Quad, Subject, Term,
};

fn collect_quads(mut iter: QuadIter) -> Vec<Quad> {
    let mut out = Vec::new();
    while let Some(item) = iter.next() {
        out.push(item.unwrap());
    }
    out
}

fn collect_graphs(mut iter: GraphNameIter) -> Vec<NamedOrBlankNode> {
    let mut out = Vec::new();
    while let Some(item) = iter.next() {
        out.push(item.unwrap());
    }
    out
}

#[test]
fn store() -> Result<(), StorageError> {
    let main_s = Subject::BlankNode(BlankNode::new(String::from("b1")));
    let main_p = NamedNode::new(String::from("http://example.com"));
    let main_o = Term::Literal(Literal::integer(1));
    let main_g = GraphName::BlankNode(BlankNode::new(String::from("g1")));

    let default_quad = Quad::new(
        main_s.clone(),
        main_p.clone(),
        main_o.clone(),
        GraphName::DefaultGraph,
    );
    let named_quad = Quad::new(
        main_s.clone(),
        main_p.clone(),
        main_o.clone(),
        main_g.clone(),
    );
    let default_quads = vec![
        Quad::new(
            main_s.clone(),
            main_p.clone(),
            Term::Literal(Literal::integer(0)),
            GraphName::DefaultGraph,
        ),
        default_quad.clone(),
        Quad::new(
            main_s.clone(),
            main_p.clone(),
            Term::Literal(Literal::integer(200_000_000)),
            GraphName::DefaultGraph,
        ),
    ];
    let all_quads = vec![
        Quad::new(
            main_s.clone(),
            main_p.clone(),
            Term::Literal(Literal::integer(0)),
            GraphName::DefaultGraph,
        ),
        default_quad.clone(),
        Quad::new(
            main_s.clone(),
            main_p.clone(),
            Term::Literal(Literal::integer(200_000_000)),
            GraphName::DefaultGraph,
        ),
        named_quad.clone(),
    ];

    let mut store = Store::new()?;
    for t in &default_quads {
        assert!(store.insert(t)?);
    }
    assert!(!store.insert(&default_quad)?);

    assert!(store.remove(&default_quad)?);
    assert!(!store.remove(&default_quad)?);
    assert!(store.insert(&named_quad)?);
    assert!(!store.insert(&named_quad)?);
    assert!(store.insert(&default_quad)?);
    assert!(!store.insert(&default_quad)?);

    assert_eq!(store.len()?, 4);
    assert_eq!(collect_quads(store.iter()), all_quads);
    assert_eq!(
        collect_quads(store.quads_for_pattern(Some(&main_s), None, None, None)),
        all_quads
    );
    assert_eq!(
        collect_quads(store.quads_for_pattern(Some(&main_s), Some(&main_p), None, None)),
        all_quads
    );
    assert_eq!(
        collect_quads(store.quads_for_pattern(Some(&main_s), Some(&main_p), Some(&main_o), None)),
        vec![default_quad.clone(), named_quad.clone()]
    );
    assert_eq!(
        collect_quads(store.quads_for_pattern(
            Some(&main_s),
            Some(&main_p),
            Some(&main_o),
            Some(&GraphName::DefaultGraph)
        )),
        vec![default_quad.clone()]
    );
    assert_eq!(
        collect_quads(store.quads_for_pattern(
            Some(&main_s),
            Some(&main_p),
            Some(&main_o),
            Some(&main_g)
        )),
        vec![named_quad.clone()]
    );
    assert_eq!(
        collect_quads(store.quads_for_pattern(
            Some(&main_s),
            Some(&main_p),
            None,
            Some(&GraphName::DefaultGraph)
        )),
        default_quads
    );
    assert_eq!(
        collect_quads(store.quads_for_pattern(Some(&main_s), None, Some(&main_o), None)),
        vec![default_quad.clone(), named_quad.clone()]
    );
    assert_eq!(
        collect_quads(store.quads_for_pattern(
            Some(&main_s),
            None,
            Some(&main_o),
            Some(&GraphName::DefaultGraph)
        )),
        vec![default_quad.clone()]
    );
    assert_eq!(
        collect_quads(store.quads_for_pattern(Some(&main_s), None, Some(&main_o), Some(&main_g))),
        vec![named_quad.clone()]
    );
    assert_eq!(
        collect_quads(store.quads_for_pattern(
            Some(&main_s),
            None,
            None,
            Some(&GraphName::DefaultGraph)
        )),
        default_quads
    );
    assert_eq!(
        collect_quads(store.quads_for_pattern(None, Some(&main_p), None, None)),
        all_quads
    );
    assert_eq!(
        collect_quads(store.quads_for_pattern(None, Some(&main_p), Some(&main_o), None)),
        vec![default_quad.clone(), named_quad.clone()]
    );
    assert_eq!(
        collect_quads(store.quads_for_pattern(None, None, Some(&main_o), None)),
        vec![default_quad.clone(), named_quad.clone()]
    );
    assert_eq!(
        collect_quads(store.quads_for_pattern(
            None,
            None,
            None,
            Some(&GraphName::DefaultGraph)
        )),
        default_quads
    );
    assert_eq!(
        collect_quads(store.quads_for_pattern(
            None,
            Some(&main_p),
            Some(&main_o),
            Some(&GraphName::DefaultGraph)
        )),
        vec![default_quad]
    );
    assert_eq!(
        collect_quads(store.quads_for_pattern(
            None,
            Some(&main_p),
            Some(&main_o),
            Some(&main_g)
        )),
        vec![named_quad]
    );

    Ok(())
}

#[test]
fn insert_idempotence_and_remove_duality() {
    let s = Subject::BlankNode(BlankNode::new(String::from("b1")));
    let p = NamedNode::new(String::from("http://ex/p"));
    let o = Term::Literal(Literal::integer(1));
    let q = Quad::new(s, p, o, GraphName::DefaultGraph);

    let mut store = Store::new().unwrap();
    assert!(store.insert(&q).unwrap());
    assert!(!store.insert(&q).unwrap());
    assert!(store.contains(&q).unwrap());
    assert_eq!(store.len().unwrap(), 1);

    assert!(store.remove(&q).unwrap());
    assert!(!store.contains(&q).unwrap());
    assert!(!store.remove(&q).unwrap());
    assert_eq!(store.len().unwrap(), 0);
    assert!(store.is_empty().unwrap());
}

#[test]
fn named_graph_lifecycle() {
    let s = Subject::BlankNode(BlankNode::new(String::from("b1")));
    let p = NamedNode::new(String::from("http://ex/p"));
    let o = Term::Literal(Literal::integer(1));
    let g1 = NamedOrBlankNode::BlankNode(BlankNode::new(String::from("g1")));
    let named_quad = Quad::new(s, p, o, g1.to_graph_name());

    let mut store = Store::new().unwrap();
    assert!(store.insert(&named_quad).unwrap());
    assert_eq!(collect_graphs(store.named_graphs()), vec![g1.clone()]);
    assert!(store.contains_named_graph(&g1).unwrap());
    assert!(collect_quads(store.quads_for_pattern(
        None,
        None,
        None,
        Some(&GraphName::DefaultGraph)
    ))
    .is_empty());
    assert_eq!(
        collect_quads(store.quads_for_pattern(None, None, None, Some(&g1.to_graph_name()))),
        vec![named_quad.clone()]
    );

    // clearing removes the quads but keeps the registration
    store.clear_graph(&g1.to_graph_name()).unwrap();
    assert_eq!(store.len().unwrap(), 0);
    assert_eq!(collect_graphs(store.named_graphs()), vec![g1.clone()]);

    // unregistering drops the graph entirely
    assert!(store.remove_named_graph(&g1).unwrap());
    assert!(collect_graphs(store.named_graphs()).is_empty());
    assert!(!store.contains_named_graph(&g1).unwrap());
    assert!(!store.remove_named_graph(&g1).unwrap());
}

#[test]
fn empty_graph_registration_survives_clear_graph() {
    let g = NamedOrBlankNode::NamedNode(NamedNode::new(String::from("http://ex/g")));
    let mut store = Store::new().unwrap();
    assert!(store.insert_named_graph(&g).unwrap());
    assert!(!store.insert_named_graph(&g).unwrap());
    assert!(store.contains_named_graph(&g).unwrap());
    store.clear_graph(&g.to_graph_name()).unwrap();
    assert!(store.contains_named_graph(&g).unwrap());
}

#[test]
fn concurrent_transactions_conflict() {
    let a = Subject::NamedNode(NamedNode::new(String::from("http://ex/a")));
    let b = NamedNode::new(String::from("http://ex/b"));
    let c = Term::NamedNode(NamedNode::new(String::from("http://ex/c")));
    let q = Quad::new(a, b, c, GraphName::DefaultGraph);

    let mut store = Store::new().unwrap();
    let mut t1 = store.transaction();
    let mut t2 = store.transaction();
    let r1 = t1.insert(&q).unwrap();
    let r2 = t2.insert(&q).unwrap();
    assert!(r1);
    assert!(r2);

    // the first commit wins; the second conflicts and is retried afresh
    store.commit(t1).unwrap();
    assert_eq!(store.commit(t2), Err(StorageError::Conflict));
    let mut t3 = store.transaction();
    let r3 = t3.insert(&q).unwrap();
    assert!(!r3);
    store.commit(t3).unwrap();

    // exactly one insert into the committed store reported the quad as new
    assert_eq!(store.len().unwrap(), 1);
}

#[test]
fn snapshot_isolation() {
    let s = Subject::NamedNode(NamedNode::new(String::from("http://ex/s")));
    let p = NamedNode::new(String::from("http://ex/p"));
    let o = Term::NamedNode(NamedNode::new(String::from("http://ex/o")));
    let q = Quad::new(s, p, o, GraphName::DefaultGraph);

    let mut store = Store::new().unwrap();
    // a reader begun before the write commits never observes it
    let snapshot = store.iter();
    let mut t = store.transaction();
    t.insert(&q).unwrap();
    assert!(t.contains(&q).unwrap());
    store.commit(t).unwrap();
    assert!(store.contains(&q).unwrap());
    assert!(collect_quads(snapshot).is_empty());
}

#[test]
fn transaction_sees_own_writes() {
    let s = Subject::NamedNode(NamedNode::new(String::from("http://ex/s")));
    let p = NamedNode::new(String::from("http://ex/p"));
    let o = Term::NamedNode(NamedNode::new(String::from("http://ex/o")));
    let q = Quad::new(s, p, o, GraphName::DefaultGraph);

    let store = Store::new().unwrap();
    let mut t = store.transaction();
    assert!(t.is_empty().unwrap());
    t.insert(&q).unwrap();
    assert!(t.contains(&q).unwrap());
    assert_eq!(t.len().unwrap(), 1);
    assert_eq!(collect_quads(t.iter()), vec![q.clone()]);
    // the transaction was never committed, so the store still holds nothing
    assert!(store.is_empty().unwrap());
    assert!(!store.contains(&q).unwrap());
}

#[test]
fn extend_adds_all_quads() {
    let s = Subject::NamedNode(NamedNode::new(String::from("http://ex/s")));
    let p = NamedNode::new(String::from("http://ex/p"));
    let quads = vec![
        Quad::new(
            s.clone(),
            p.clone(),
            Term::Literal(Literal::integer(1)),
            GraphName::DefaultGraph,
        ),
        Quad::new(
            s.clone(),
            p.clone(),
            Term::Literal(Literal::integer(2)),
            GraphName::DefaultGraph,
        ),
    ];
    let mut store = Store::new().unwrap();
    store.extend(&quads).unwrap();
    assert_eq!(store.len().unwrap(), 2);
    assert!(store.contains(&quads[0]).unwrap());
    assert!(store.contains(&quads[1]).unwrap());
}

#[test]
fn clear_empties_everything() {
    let s = Subject::NamedNode(NamedNode::new(String::from("http://ex/s")));
    let p = NamedNode::new(String::from("http://ex/p"));
    let o = Term::NamedNode(NamedNode::new(String::from("http://ex/o")));
    let g = GraphName::NamedNode(NamedNode::new(String::from("http://ex/g")));
    let mut store = Store::new().unwrap();
    store
        .insert(&Quad::new(s.clone(), p.clone(), o.clone(), g))
        .unwrap();
    store
        .insert(&Quad::new(s, p, o, GraphName::DefaultGraph))
        .unwrap();
    assert_eq!(store.len().unwrap(), 2);
    store.clear().unwrap();
    assert!(store.is_empty().unwrap());
    assert!(collect_graphs(store.named_graphs()).is_empty());
    assert!(store.validate().is_ok());
}

#[test]
fn nquads_load_and_dump_round_trip() {
    let blob = "<http://ex/s> <http://ex/p> <http://ex/o> <http://ex/g> .\n";
    let mut store = Store::new().unwrap();
    store.load_dataset(blob, DatasetFormat::NQuads).unwrap();
    assert_eq!(store.len().unwrap(), 1);
    let out = store.dump_dataset(DatasetFormat::NQuads).unwrap();
    assert_eq!(out, blob);
}

#[test]
fn load_graph_targets_one_graph() {
    let blob = "<http://ex/s> <http://ex/p> \"hi there\" .\n";
    let g = GraphName::NamedNode(NamedNode::new(String::from("http://ex/g")));
    let mut store = Store::new().unwrap();
    store
        .load_graph(blob, GraphFormat::NTriples, &g)
        .unwrap();
    assert_eq!(store.len().unwrap(), 1);
    let expected = Quad::new(
        Subject::NamedNode(NamedNode::new(String::from("http://ex/s"))),
        NamedNode::new(String::from("http://ex/p")),
        Term::Literal(Literal::simple(String::from("hi there"))),
        g.clone(),
    );
    assert!(store.contains(&expected).unwrap());
    // dumping the graph back writes it as triples
    let out = store.dump_graph(GraphFormat::NTriples, &g).unwrap();
    assert_eq!(out, blob);
}

#[test]
fn malformed_document_is_rejected_atomically() {
    let blob = "<http://ex/s> <http://ex/p> <http://ex/o> .\nnot a statement\n";
    let mut store = Store::new().unwrap();
    assert!(store.load_dataset(blob, DatasetFormat::NQuads).is_err());
    assert!(store.is_empty().unwrap());
}

#[test]
fn literal_round_trip_through_storage() {
    let s = Subject::BlankNode(BlankNode::new(String::from("b\u{e9}")));
    let p = NamedNode::new(String::from("http://ex/p"));
    let cases = vec![
        Term::Literal(Literal::simple(String::from("line\nbreak and \"quote\""))),
        Term::Literal(Literal::language_tagged(
            String::from("bonjour"),
            String::from("fr"),
        )),
        Term::Literal(Literal::typed(
            String::from("2024-01-01"),
            NamedNode::new(String::from("http://www.w3.org/2001/XMLSchema#date")),
        )),
        // a non-canonical integer form is kept verbatim, not inlined
        Term::Literal(Literal::typed(
            String::from("01"),
            NamedNode::new(String::from("http://www.w3.org/2001/XMLSchema#integer")),
        )),
        Term::Literal(Literal::integer(-42)),
        Term::Literal(Literal::integer(i64::MIN)),
    ];
    let mut store = Store::new().unwrap();
    let mut expected = Vec::new();
    for o in cases {
        let q = Quad::new(s.clone(), p.clone(), o, GraphName::DefaultGraph);
        assert!(store.insert(&q).unwrap());
        expected.push(q);
    }
    let got = collect_quads(store.iter());
    assert_eq!(got.len(), expected.len());
    for q in &expected {
        assert!(got.contains(q));
        assert!(store.contains(q).unwrap());
    }
}

#[test]
fn escaped_literals_survive_the_text_round_trip() {
    // the lexical form holds a quote, a backslash and a line break
    let blob = "<http://ex/s> <http://ex/p> \"a\\\"b\\nc\\\\d\" .\n<http://ex/s> <http://ex/p> \"bonjour\"@fr <http://ex/g> .\n";
    let mut store = Store::new().unwrap();
    store.load_dataset(blob, DatasetFormat::NQuads).unwrap();
    assert_eq!(store.len().unwrap(), 2);
    let expected = Quad::new(
        Subject::NamedNode(NamedNode::new(String::from("http://ex/s"))),
        NamedNode::new(String::from("http://ex/p")),
        Term::Literal(Literal::simple(String::from("a\"b\nc\\d"))),
        GraphName::DefaultGraph,
    );
    assert!(store.contains(&expected).unwrap());
    let out = store.dump_dataset(DatasetFormat::NQuads).unwrap();
    assert_eq!(out, blob);
}

#[test]
fn typed_literals_survive_the_text_round_trip() {
    let blob = "<http://ex/s> <http://ex/p> \"2024-01-01\"^^<http://www.w3.org/2001/XMLSchema#date> .\n";
    let mut store = Store::new().unwrap();
    store.load_dataset(blob, DatasetFormat::NQuads).unwrap();
    let out = store.dump_dataset(DatasetFormat::NQuads).unwrap();
    assert_eq!(out, blob);
}
