use sem::entity::EntityInfo;
use sem::graph_order::{compare_entity_refs, sort_edges, sort_entities_by_id, EntityRef, RefType};
use std::cmp::Ordering;

fn edge(from: &str, to: &str, ref_type: RefType) -> EntityRef {
    EntityRef { from_entity: from.to_string(), to_entity: to.to_string(), ref_type }
}

fn entity(id: &str) -> EntityInfo {
    EntityInfo {
        id: id.to_string(),
        name: id.to_string(),
        entity_type: "function".to_string(),
        file_path: "a.py".to_string(),
        parent_id: None,
        start_line: 1,
        end_line: 2,
    }
}

fn keys(edges: &[EntityRef]) -> Vec<(String, String, RefType)> {
    edges
        .iter()
        .map(|e| (e.from_entity.clone(), e.to_entity.clone(), e.ref_type))
        .collect()
}

#[test]
fn graph_json_entities_and_edges_are_stably_ordered() {
    let edges = vec![
        edge("a.py::four", "a.py::one", RefType::Calls),
        edge("a.py::one", "a.py::two", RefType::Calls),
        edge("a.py::two", "a.py::three", RefType::Calls),
    ];
    let first = keys(&sort_edges(edges.clone()));
    let mut sorted = first.clone();
    sorted.sort();
    assert_eq!(first, sorted);
    let mut reversed = edges.clone();
    reversed.reverse();
    for _ in 0..4 {
        assert_eq!(keys(&sort_edges(reversed.clone())), first);
    }

    let ents = vec![entity("a.py::two"), entity("a.py::four"), entity("a.py::one"), entity("a.py::three")];
    let ids: Vec<String> = sort_entities_by_id(ents).into_iter().map(|e| e.id).collect();
    assert!(ids.len() >= 4);
    assert_eq!(ids, vec!["a.py::four", "a.py::one", "a.py::three", "a.py::two"]);
    let mut s = ids.clone();
    s.sort();
    assert_eq!(ids, s);
}

#[test]
fn edges_order_by_source_target_then_kind() {
    let edges = vec![
        edge("b", "a", RefType::Calls),
        edge("a", "b", RefType::TypeRef),
        edge("a", "b", RefType::Calls),
        edge("a", "a", RefType::Imports),
        edge("a", "b", RefType::Imports),
    ];
    let sorted = keys(&sort_edges(edges));
    assert_eq!(
        sorted,
        vec![
            ("a".to_string(), "a".to_string(), RefType::Imports),
            ("a".to_string(), "b".to_string(), RefType::Calls),
            ("a".to_string(), "b".to_string(), RefType::Imports),
            ("a".to_string(), "b".to_string(), RefType::TypeRef),
            ("b".to_string(), "a".to_string(), RefType::Calls),
        ]
    );
}

#[test]
fn duplicate_edges_are_kept() {
    let edges = vec![edge("x", "y", RefType::Calls), edge("x", "y", RefType::Calls)];
    assert_eq!(sort_edges(edges).len(), 2);
}

#[test]
fn compare_edges() {
    assert_eq!(compare_entity_refs(&edge("a", "b", RefType::Calls), &edge("a", "b", RefType::Calls)), Ordering::Equal);
    assert_eq!(compare_entity_refs(&edge("a", "b", RefType::Calls), &edge("a", "c", RefType::Calls)), Ordering::Less);
    assert_eq!(compare_entity_refs(&edge("b", "a", RefType::Calls), &edge("a", "z", RefType::TypeRef)), Ordering::Greater);
    assert_eq!(compare_entity_refs(&edge("a", "b", RefType::TypeRef), &edge("a", "b", RefType::Imports)), Ordering::Greater);
    // ids order as strings do, code point by code point
    assert_eq!(compare_entity_refs(&edge("ab", "x", RefType::Calls), &edge("a", "x", RefType::Calls)), Ordering::Greater);
    assert_eq!(compare_entity_refs(&edge("Z", "x", RefType::Calls), &edge("a", "x", RefType::Calls)), Ordering::Less);
    assert_eq!(compare_entity_refs(&edge("é", "x", RefType::Calls), &edge("z", "x", RefType::Calls)), Ordering::Greater);
}
