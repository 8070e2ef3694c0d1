use sem::orient::{hit_lines, orient_outcome, orient_precheck, OrientHit, OrientOutcome};

fn hit(entity_type: &str, signature: &str, dependents: usize) -> OrientHit {
    OrientHit {
        name: "load_config".to_string(),
        entity_type: entity_type.to_string(),
        file_path: "src/config.rs".to_string(),
        start_line: 120,
        signature: signature.to_string(),
        dependencies: 3,
        dependents,
    }
}

#[test]
fn orient_outcomes() {
    assert_eq!(orient_outcome(false, true, 5), OrientOutcome::NoSearchableTerms);
    assert_eq!(orient_outcome(true, true, 0), OrientOutcome::Json);
    assert_eq!(orient_outcome(true, false, 0), OrientOutcome::NoMatches);
    assert_eq!(orient_outcome(true, false, 2), OrientOutcome::Listing);
}

#[test]
fn hit_lines_pad_type_and_locate() {
    let l = hit_lines(&hit("function", "fn load_config() -> Config", 4));
    assert_eq!(l.entity_type, format!("{:<9}", "function"));
    assert_eq!(l.entity_type, "function ");
    assert_eq!(l.name, "load_config");
    assert_eq!(l.location, "src/config.rs:120");
    assert_eq!(l.signature.as_deref(), Some("fn load_config() -> Config"));
    assert_eq!(l.dependents.as_deref(), Some("4 dependents"));
}

#[test]
fn hit_lines_leave_out_empty_parts() {
    let l = hit_lines(&hit("interface", "", 0));
    assert_eq!(l.entity_type, "interface");
    assert!(l.signature.is_none());
    assert!(l.dependents.is_none());
    let l = hit_lines(&hit("implementation", "", 10));
    assert_eq!(l.entity_type, "implementation");
    assert_eq!(l.dependents.as_deref(), Some("10 dependents"));
    let l = hit_lines(&hit("fn", "", 0));
    assert_eq!(l.entity_type, "fn       ");
}

#[test]
fn orient_refuses_queries_without_terms_before_searching() {
    assert_eq!(orient_precheck(false), Some(OrientOutcome::NoSearchableTerms));
    assert_eq!(orient_precheck(true), None);
}
