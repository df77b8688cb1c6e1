use ic_oxigraph::codec::{
    compute_str_hash, decode_quad, decode_subject, encode_literal, encode_quad,
};
use ic_oxigraph::dataset::{DatasetView, QueryDataset};
use ic_oxigraph::encoded::{EncodedQuad, EncodedTerm};
use ic_oxigraph::error::{CorruptionError, EvaluationError, StorageError};
use ic_oxigraph::numeric::{parse_i64, print_i64};
use ic_oxigraph::storage::{Storage, StorageReader};
use ic_oxigraph::store::Store;
use ic_oxigraph::strmap::StrMap;
use ic_oxigraph::term::{
    BlankNode, GraphName, Literal, NamedNode, NamedOrBlankNode, Quad, Subject, Term,
};

#[test]
fn canonical_integer_printing_and_parsing() {
    assert_eq!(print_i64(0), "0");
    assert_eq!(print_i64(-42), "-42");
    assert_eq!(print_i64(200_000_000), "200000000");
    assert_eq!(print_i64(i64::MAX), "9223372036854775807");
    assert_eq!(print_i64(i64::MIN), "-9223372036854775808");

    assert_eq!(parse_i64("0"), Some(0));
    assert_eq!(parse_i64("-42"), Some(-42));
    // leading zeros parse but are not canonical
    assert_eq!(parse_i64("01"), Some(1));
    assert_eq!(parse_i64("9223372036854775807"), Some(i64::MAX));
    assert_eq!(parse_i64("-9223372036854775808"), Some(i64::MIN));
    assert_eq!(parse_i64("9223372036854775808"), None);
    assert_eq!(parse_i64(""), None);
    assert_eq!(parse_i64("-"), None);
    assert_eq!(parse_i64("12a"), None);
}

#[test]
fn integer_literals_are_inlined_by_value() {
    let xsd_int = NamedNode::new(String::from("http://www.w3.org/2001/XMLSchema#integer"));
    let canonical = Literal::typed(String::from("7"), xsd_int.clone());
    match encode_literal(&canonical) {
        EncodedTerm::IntegerLiteral { value } => assert_eq!(value, 7),
        other => panic!("expected an inline integer, got {:?}", other),
    }
    // a non-canonical form keeps its exact lexical form, by hash
    let padded = Literal::typed(String::from("07"), xsd_int);
    assert!(matches!(
        encode_literal(&padded),
        EncodedTerm::TypedLiteral { .. }
    ));
}

#[test]
fn encoded_quad_decodes_back_through_the_side_table() {
    let q = Quad::new(
        Subject::NamedNode(NamedNode::new(String::from("http://ex/s"))),
        NamedNode::new(String::from("http://ex/p")),
        Term::Literal(Literal::language_tagged(
            String::from("hallo"),
            String::from("de"),
        )),
        GraphName::BlankNode(BlankNode::new(String::from("g"))),
    );
    let e = encode_quad(&q);
    let mut table = StrMap::new();
    for s in ["http://ex/s", "http://ex/p", "hallo", "de", "g"] {
        let h = compute_str_hash(s);
        table.insert(h, s);
    }
    assert_eq!(decode_quad(&e, &table), Ok(q));
}

#[test]
fn decoding_without_the_side_table_reports_corruption() {
    let q = Quad::new(
        Subject::NamedNode(NamedNode::new(String::from("http://ex/s"))),
        NamedNode::new(String::from("http://ex/p")),
        Term::Literal(Literal::simple(String::from("x"))),
        GraphName::DefaultGraph,
    );
    let e = encode_quad(&q);
    let empty = StrMap::new();
    match decode_quad(&e, &empty) {
        Err(StorageError::Corruption(CorruptionError::MissingString { .. })) => {},
        other => panic!("expected a missing-string corruption, got {:?}", other),
    }
}

#[test]
fn a_literal_cannot_stand_in_subject_position() {
    let lit = encode_literal(&Literal::simple(String::from("x")));
    let table = StrMap::new();
    assert_eq!(
        decode_subject(&lit, &table),
        Err(StorageError::Corruption(CorruptionError::UnexpectedTermKind))
    );
}

#[test]
fn string_side_table_is_a_map() {
    let mut table = StrMap::new();
    let h1 = compute_str_hash("alpha");
    let h2 = compute_str_hash("beta");
    assert_ne!(h1, h2);
    assert!(!table.contains(&h1));
    table.insert(h1, "alpha");
    table.insert(h2, "beta");
    assert_eq!(table.get(&h1).as_deref(), Some("alpha"));
    assert_eq!(table.get(&h2).as_deref(), Some("beta"));
    // a later binding for the same hash wins
    table.insert(h1, "alpha");
    assert_eq!(table.get(&h1).as_deref(), Some("alpha"));
    assert_eq!(table.get(&compute_str_hash("gamma")), None);
}

fn seeded_reader() -> (StorageReader, Quad, Quad) {
    let s = Subject::NamedNode(NamedNode::new(String::from("http://ex/s")));
    let p = NamedNode::new(String::from("http://ex/p"));
    let o = Term::NamedNode(NamedNode::new(String::from("http://ex/o")));
    let g = GraphName::NamedNode(NamedNode::new(String::from("http://ex/g")));
    let in_default = Quad::new(s.clone(), p.clone(), o.clone(), GraphName::DefaultGraph);
    let in_named = Quad::new(s, p, o, g);
    let mut storage = Storage::new().unwrap();
    let mut t = storage.transaction();
    t.insert(&in_default).unwrap();
    t.insert(&in_named).unwrap();
    storage.commit(t).unwrap();
    (storage.snapshot(), in_default, in_named)
}

#[test]
fn dataset_view_scopes_the_default_graph() {
    let (reader, _in_default, in_named) = seeded_reader();
    let g = NamedOrBlankNode::NamedNode(NamedNode::new(String::from("http://ex/g")));
    // FROM <http://ex/g>: the named graph plays the default graph
    let dataset = QueryDataset {
        default_graph_graphs: Some(vec![g.to_graph_name()]),
        available_named_graphs: Some(vec![]),
    };
    let view = DatasetView::new(reader, &dataset).unwrap();
    let got = view.encoded_quads_for_pattern(
        None,
        None,
        None,
        Some(&EncodedTerm::DefaultGraph),
    );
    let expected = encode_quad(&in_named);
    assert_eq!(got.len(), 1);
    assert_eq!(got[0].subject, expected.subject);
    assert_eq!(got[0].graph_name, EncodedTerm::DefaultGraph);
    // the graph wildcard sees no available named graph
    let none = view.encoded_quads_for_pattern(None, None, None, None);
    assert!(none.is_empty());
}

#[test]
fn dataset_view_unrestricted_wildcard_excludes_the_default_graph() {
    let (reader, _in_default, in_named) = seeded_reader();
    let dataset = QueryDataset::new();
    let view = DatasetView::new(reader, &dataset).unwrap();
    let got = view.encoded_quads_for_pattern(None, None, None, None);
    assert_eq!(got, vec![encode_quad(&in_named)]);
}

#[test]
fn dataset_view_interns_scratch_strings() {
    let (reader, _in_default, _in_named) = seeded_reader();
    let dataset = QueryDataset::new();
    let mut view = DatasetView::new(reader, &dataset).unwrap();
    // a stored string resolves without touching the scratch interner
    let stored = view.get_str_id("http://ex/s").unwrap();
    assert!(stored.is_some());
    // a fresh string is interned and can then be resolved
    assert_eq!(view.get_str_id("fresh value").unwrap(), None);
    let h = view.insert_str("fresh value").unwrap();
    assert_eq!(view.get_str_id("fresh value").unwrap(), Some(h));
    assert_eq!(view.get_str(&h).unwrap().as_deref(), Some("fresh value"));
    // graph enumeration is not the view's business
    assert_eq!(
        view.encoded_named_graphs(),
        Err(EvaluationError::GraphLookupUnsupported)
    );
    assert_eq!(
        view.contains_encoded_named_graph(&EncodedTerm::DefaultGraph),
        Err(EvaluationError::GraphLookupUnsupported)
    );
}

#[test]
fn pattern_results_match_the_pattern_and_the_store() {
    let s0 = Subject::NamedNode(NamedNode::new(String::from("http://ex/s")));
    let p0 = NamedNode::new(String::from("http://ex/p"));
    let o0 = Term::NamedNode(NamedNode::new(String::from("http://ex/o")));
    let g0 = GraphName::NamedNode(NamedNode::new(String::from("http://ex/g")));
    let in_default = Quad::new(s0.clone(), p0.clone(), o0.clone(), GraphName::DefaultGraph);
    let in_named = Quad::new(s0, p0, o0, g0);
    let mut store = Store::new().unwrap();
    store.insert(&in_default).unwrap();
    store.insert(&in_named).unwrap();
    let s = Subject::NamedNode(NamedNode::new(String::from("http://ex/s")));
    let o = Term::NamedNode(NamedNode::new(String::from("http://ex/o")));
    let mut it = store.quads_for_pattern(Some(&s), None, Some(&o), None);
    let mut got = Vec::new();
    while let Some(item) = it.next() {
        got.push(item.unwrap());
    }
    // soundness and completeness at these values: both stored quads match
    assert_eq!(got, vec![in_default, in_named]);
    // and a pattern matching nothing returns nothing
    let absent = Subject::NamedNode(NamedNode::new(String::from("http://ex/absent")));
    let mut it2 = store.quads_for_pattern(Some(&absent), None, None, None);
    assert!(it2.next().is_none());
}

#[test]
fn encoded_quad_helpers() {
    let e = EncodedQuad::new(
        EncodedTerm::IntegerLiteral { value: 3 },
        EncodedTerm::IntegerLiteral { value: 4 },
        EncodedTerm::IntegerLiteral { value: 5 },
        EncodedTerm::DefaultGraph,
    );
    assert!(e.graph_name.is_default_graph());
    assert!(!e.subject.is_default_graph());
}

#[test]
fn dataset_view_chains_several_default_graphs() {
    let s = Subject::NamedNode(NamedNode::new(String::from("http://ex/s")));
    let p = NamedNode::new(String::from("http://ex/p"));
    let g1 = NamedOrBlankNode::NamedNode(NamedNode::new(String::from("http://ex/g1")));
    let g2 = NamedOrBlankNode::NamedNode(NamedNode::new(String::from("http://ex/g2")));
    let q1 = Quad::new(
        s.clone(),
        p.clone(),
        Term::Literal(Literal::integer(1)),
        g1.to_graph_name(),
    );
    let q2 = Quad::new(
        s.clone(),
        p.clone(),
        Term::Literal(Literal::integer(2)),
        g2.to_graph_name(),
    );
    let mut storage = Storage::new().unwrap();
    let mut t = storage.transaction();
    t.insert(&q1).unwrap();
    t.insert(&q2).unwrap();
    storage.commit(t).unwrap();

    let dataset = QueryDataset {
        default_graph_graphs: Some(vec![g1.to_graph_name(), g2.to_graph_name()]),
        available_named_graphs: None,
    };
    let view = DatasetView::new(storage.snapshot(), &dataset).unwrap();
    let got = view.encoded_quads_for_pattern(None, None, None, Some(&EncodedTerm::DefaultGraph));
    assert_eq!(got.len(), 2);
    assert!(got.iter().all(|q| q.graph_name == EncodedTerm::DefaultGraph));
    // restricting a named-graph pattern to unavailable graphs yields nothing
    let dataset2 = QueryDataset {
        default_graph_graphs: None,
        available_named_graphs: Some(vec![g2.clone()]),
    };
    let view2 = DatasetView::new(storage.snapshot(), &dataset2).unwrap();
    let g1_enc = encode_quad(&q1).graph_name;
    assert!(view2
        .encoded_quads_for_pattern(None, None, None, Some(&g1_enc))
        .is_empty());
    let wildcard = view2.encoded_quads_for_pattern(None, None, None, None);
    assert_eq!(wildcard, vec![encode_quad(&q2)]);
}
