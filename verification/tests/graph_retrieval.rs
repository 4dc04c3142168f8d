use mempalace_core::graph_retrieval::{
    expand_from_chunks, graph_stats, query_by_predicate, search_by_entities, GraphFact, KgStats, Triple,
};

/// A small in-memory graph: triples (subject, predicate, object, confidence).
struct MockKg {
    triples: Vec<(String, String, String, Option<f64>)>,
    entities: Vec<String>,
}

impl MockKg {
    fn new() -> Self {
        MockKg { triples: Vec::new(), entities: Vec::new() }
    }

    fn add_entity(&mut self, name: &str) {
        if !self.entities.iter().any(|e| e.eq_ignore_ascii_case(name)) {
            self.entities.push(name.to_string());
        }
    }

    fn add_triple(&mut self, s: &str, p: &str, o: &str, c: Option<f64>) {
        self.add_entity(s);
        self.add_entity(o);
        self.triples.push((s.to_string(), p.to_string(), o.to_string(), c));
    }

    fn query_entity(&self, name: &str) -> Option<Vec<GraphFact<f64>>> {
        let mut out = Vec::new();
        for (s, p, o, c) in &self.triples {
            let dir = if s.eq_ignore_ascii_case(name) {
                "outgoing"
            } else if o.eq_ignore_ascii_case(name) {
                "incoming"
            } else {
                continue;
            };
            out.push(GraphFact {
                subject: s.clone(),
                predicate: p.clone(),
                object: o.clone(),
                direction: dir.to_string(),
                confidence: *c,
                current: true,
            });
        }
        Some(out)
    }

    fn query_relationship(&self, predicate: &str) -> Option<Vec<Triple<f64>>> {
        Some(
            self.triples
                .iter()
                .filter(|t| t.1 == predicate)
                .map(|(s, p, o, c)| Triple {
                    subject: s.clone(),
                    predicate: p.clone(),
                    object: o.clone(),
                    confidence: *c,
                    current: true,
                })
                .collect(),
        )
    }

    fn stats(&self) -> KgStats {
        let mut types: Vec<String> = Vec::new();
        for t in &self.triples {
            if !types.contains(&t.1) {
                types.push(t.1.clone());
            }
        }
        KgStats {
            total_entities: self.entities.len(),
            total_triples: self.triples.len(),
            current_facts: self.triples.len(),
            expired_facts: 0,
            relationship_types: types,
        }
    }
}

#[test]
fn test_search_by_entities_single_entity() {
    let mut kg = MockKg::new();
    kg.add_triple("Alice", "works_at", "Acme", Some(0.9));
    kg.add_triple("Alice", "knows", "Bob", Some(0.7));
    let result = search_by_entities(|n: &str| kg.query_entity(n), &["Alice"], 2, 10).unwrap();
    assert!(!result.entities.is_empty());
    assert!(result.relationships.len() >= 2);
}

#[test]
fn test_search_by_entities_with_depth() {
    let mut kg = MockKg::new();
    kg.add_triple("A", "knows", "B", Some(0.8));
    kg.add_triple("B", "knows", "C", Some(0.8));
    kg.add_triple("C", "knows", "D", Some(0.8));
    let result = search_by_entities(|n: &str| kg.query_entity(n), &["A"], 1, 10).unwrap();
    assert!(result.relationships.len() >= 1);
    let result_deep = search_by_entities(|n: &str| kg.query_entity(n), &["A"], 3, 10).unwrap();
    assert!(result_deep.relationships.len() >= result.relationships.len());
}

#[test]
fn test_search_by_entities_with_limit() {
    let mut kg = MockKg::new();
    for i in 0..10 {
        kg.add_triple("Root", &format!("rel_{}", i), &format!("Target{}", i), Some(0.5));
    }
    let result = search_by_entities(|n: &str| kg.query_entity(n), &["Root"], 1, 3).unwrap();
    assert!(result.relationships.len() <= 3);
}

#[test]
fn test_expand_from_chunks() {
    let mut kg = MockKg::new();
    kg.add_triple("obs-1", "mentions", "Alice", Some(0.8));
    kg.add_triple("obs-2", "mentions", "Bob", Some(0.8));
    let q = |n: &str| kg.query_entity(n);
    let result = expand_from_chunks(q, &vec!["obs-1".to_string(), "obs-2".to_string()], 1, 10).unwrap();
    assert!(!result.entities.is_empty());
}

#[test]
fn test_query_by_predicate() {
    let mut kg = MockKg::new();
    kg.add_triple("Alice", "works_at", "Acme", Some(0.9));
    kg.add_triple("Bob", "works_at", "NewCo", Some(0.9));
    let results = query_by_predicate(|p: &str, _as_of: Option<&str>| kg.query_relationship(p), "works_at", None).unwrap();
    assert_eq!(results.len(), 2);
    assert!(results.iter().all(|r| r.predicate == "works_at"));
}

#[test]
fn test_graph_stats() {
    let mut kg = MockKg::new();
    kg.add_entity("Alice");
    kg.add_triple("Alice", "knows", "Bob", None);
    let stats = graph_stats(&kg.stats());
    let get = |k: &str| stats.iter().find(|e| e.0 == k).map(|e| e.1).unwrap();
    assert_eq!(get("total_entities"), 2);
    assert_eq!(get("total_triples"), 1);
    assert_eq!(get("current_facts"), 1);
}

#[test]
fn walk_breadth_first_records_entities_and_stops_at_depth() {
    let mut kg = MockKg::new();
    kg.add_triple("A", "knows", "B", None);
    kg.add_triple("B", "knows", "C", None);
    kg.add_triple("C", "knows", "D", None);
    let r = search_by_entities(|n: &str| kg.query_entity(n), &["A"], 1, 10).unwrap();
    assert_eq!(r.depth, 1);
    assert_eq!(r.entities, vec!["a".to_string(), "b".to_string()]);
    let preds: Vec<(String, String)> = r.relationships.iter().map(|x| (x.subject.clone(), x.object.clone())).collect();
    assert_eq!(preds, vec![("A".to_string(), "B".to_string()), ("B".to_string(), "C".to_string())]);
    let deep = search_by_entities(|n: &str| kg.query_entity(n), &["A"], 9, 10).unwrap();
    assert_eq!(deep.depth, 5);
    assert_eq!(deep.relationships.len(), 3);
}

#[test]
fn walk_fails_when_a_lookup_fails() {
    let r = search_by_entities(|_n: &str| -> Option<Vec<GraphFact<f64>>> { None }, &["A"], 2, 10);
    assert!(r.is_none());
}

#[test]
fn start_names_are_recorded_normalized() {
    let kg = MockKg::new();
    let r = search_by_entities(|n: &str| kg.query_entity(n), &["Mary Ann O'Neil"], 2, 10).unwrap();
    assert_eq!(r.entities, vec!["mary_ann_oneil".to_string()]);
}
