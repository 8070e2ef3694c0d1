use sem::entity::{EntityInfo, EntityMap};
use sem::import_resolution::{
    file_stem, find_import_target, import_file_candidates, import_source_matches_file, import_stem,
};

fn entity(file_path: &str) -> EntityInfo {
    EntityInfo {
        id: format!("{file_path}::function::helper"),
        name: "helper".to_string(),
        entity_type: "function".to_string(),
        file_path: file_path.to_string(),
        parent_id: None,
        start_line: 1,
        end_line: 1,
    }
}

#[test]
fn explicit_relative_import_prefers_exact_extension() {
    let ids = vec![
        "src/util.js::function::helper".to_string(),
        "src/util.ts::function::helper".to_string(),
    ];
    let entity_map = EntityMap::from_pairs(vec![
        (ids[0].clone(), entity("src/util.js")),
        (ids[1].clone(), entity("src/util.ts")),
    ]);

    let target = find_import_target(
        &ids,
        "./util.ts",
        "src/main.ts",
        &[".ts", ".tsx", ".js", ".jsx"],
        &entity_map,
    );

    assert_eq!(target, Some(&ids[1]));
}

#[test]
fn explicit_relative_import_requires_exact_extension() {
    let ids = vec!["src/util.js::function::helper".to_string()];
    let entity_map = EntityMap::from_pairs(vec![(ids[0].clone(), entity("src/util.js"))]);

    let target = find_import_target(
        &ids,
        "./util.ts",
        "src/main.ts",
        &[".ts", ".tsx", ".js", ".jsx"],
        &entity_map,
    );

    assert_eq!(target, None);
}

#[test]
fn absolute_python_import_uses_dotted_path() {
    let ids = vec![
        "src/a/util.py::function::helper".to_string(),
        "src/b/util.py::function::helper".to_string(),
    ];
    let entity_map = EntityMap::from_pairs(vec![
        (ids[0].clone(), entity("src/a/util.py")),
        (ids[1].clone(), entity("src/b/util.py")),
    ]);

    let target = find_import_target(&ids, "src.b.util", "src/main.py", &[".py"], &entity_map);

    assert_eq!(target, Some(&ids[1]));
}

#[test]
fn bare_import_with_extension_uses_file_stem() {
    let ids = vec!["src/util.ts::function::helper".to_string()];
    let entity_map = EntityMap::from_pairs(vec![(ids[0].clone(), entity("src/util.ts"))]);

    let target = find_import_target(
        &ids,
        "util.ts",
        "src/main.ts",
        &[".ts", ".tsx", ".js", ".jsx"],
        &entity_map,
    );

    assert_eq!(target, Some(&ids[0]));
}

// ---- further cases of the library's own ----

const TS: [&str; 4] = [".ts", ".tsx", ".js", ".jsx"];

#[test]
fn candidates_without_extension_list_each_then_index() {
    let c = import_file_candidates("src/main.ts", "./util", &TS).unwrap();
    assert_eq!(
        c,
        vec![
            "src/util.ts",
            "src/util.tsx",
            "src/util.js",
            "src/util.jsx",
            "src/util/index.ts",
            "src/util/index.tsx",
            "src/util/index.js",
            "src/util/index.jsx",
        ]
    );
}

#[test]
fn candidates_drop_repeated_extensions() {
    let c = import_file_candidates("a.ts", "./b", &[".ts", ".ts"]).unwrap();
    assert_eq!(c, vec!["b.ts", "b/index.ts"]);
}

#[test]
fn candidates_climb_with_parent_steps() {
    let c = import_file_candidates("src/x/y/main.ts", "../../lib/z.ts", &TS).unwrap();
    assert_eq!(c, vec!["src/lib/z.ts"]);
}

#[test]
fn candidates_leaving_the_repository_are_none() {
    assert_eq!(import_file_candidates("main.ts", "../x", &TS), None);
    assert_eq!(import_file_candidates("/abs/main.ts", "./x", &TS), None);
}

#[test]
fn candidates_trim_the_source() {
    let c = import_file_candidates("src/main.ts", "  ./util.ts\t", &TS).unwrap();
    assert_eq!(c, vec!["src/util.ts"]);
    assert_eq!(import_file_candidates("src/main.ts", "   ", &TS), None);
}

#[test]
fn python_relative_imports_climb_per_extra_dot() {
    let c = import_file_candidates("pkg/sub/mod.py", ".helpers", &[".py"]).unwrap();
    assert_eq!(c, vec!["pkg/sub/helpers.py", "pkg/sub/helpers/index.py"]);
    let c = import_file_candidates("pkg/sub/mod.py", "..core.db", &[".py"]).unwrap();
    assert_eq!(c, vec!["pkg/core/db.py", "pkg/core/db/index.py"]);
    let c = import_file_candidates("pkg/sub/mod.py", "..", &[".py"]).unwrap();
    assert_eq!(c, vec!["pkg.py", "pkg/index.py"]);
    assert_eq!(import_file_candidates("mod.py", "...x", &[".py"]), None);
}

#[test]
fn bare_imports_have_no_candidates() {
    assert_eq!(import_file_candidates("src/main.ts", "react", &TS), None);
    // a dotted path is a module path only for Python alone
    assert_eq!(import_file_candidates("src/main.ts", "a.b", &TS), None);
}

#[test]
fn stems() {
    assert_eq!(file_stem("src/a/util.tsx"), "util");
    assert_eq!(file_stem("README"), "README");
    assert_eq!(file_stem("x/y.rs"), "y");
    assert_eq!(file_stem("x/y.txt"), "y.txt");
    assert_eq!(import_stem("util.ts"), "util");
    assert_eq!(import_stem("..pkg/models"), "models");
    assert_eq!(import_stem("os.path"), "path");
    assert_eq!(import_stem("react"), "react");
}

#[test]
fn source_matches_file_by_candidates_or_stem() {
    assert!(import_source_matches_file("src/main.ts", "./util", &TS, "src/util/index.ts"));
    assert!(!import_source_matches_file("src/main.ts", "./util", &TS, "util.ts"));
    assert!(import_source_matches_file("src/main.ts", "lodash/util", &TS, "vendor/util.js"));
    assert!(!import_source_matches_file("src/main.ts", "lodash/util", &TS, "vendor/other.js"));
}

#[test]
fn first_candidate_with_an_entity_wins() {
    let ids = vec!["b".to_string(), "a".to_string()];
    let entity_map = EntityMap::from_pairs(vec![
        ("a".to_string(), entity("src/util.ts")),
        ("b".to_string(), entity("src/util/index.ts")),
    ]);
    let target = find_import_target(&ids, "./util", "src/main.ts", &TS, &entity_map);
    assert_eq!(target, Some(&ids[1]));
}

#[test]
fn later_pairs_replace_earlier_ones() {
    let m = EntityMap::from_pairs(vec![
        ("a".to_string(), entity("x.ts")),
        ("a".to_string(), entity("y.ts")),
    ]);
    assert_eq!(m.get("a").unwrap().file_path, "y.ts");
    assert!(m.get("b").is_none());
}

#[test]
fn normalized_candidates_are_plain_and_stable() {
    let exts = [".ts"];
    let c = sem::import_resolution::import_file_candidates("src/app/main.ts", "./a/./../b//c", &exts).unwrap();
    assert_eq!(c[0], "src/app/b/c.ts");
    for p in &c {
        assert!(!p.starts_with('/'));
        assert!(p.split('/').all(|seg| !seg.is_empty() && seg != "." && seg != ".."));
    }
    let again = sem::import_resolution::import_file_candidates("x.ts", &format!("./{}", c[0]), &exts).unwrap();
    assert_eq!(again, vec![c[0].clone()]);
    assert!(sem::import_resolution::import_file_candidates("src/main.ts", "../../x", &exts).is_none());
}

#[test]
fn normalization_fails_only_when_leaving_the_repository() {
    let exts = [".ts"];
    assert!(import_file_candidates("src/main.ts", "../x", &exts).is_some());
    assert!(import_file_candidates("src/main.ts", "../../x", &exts).is_none());
    assert!(import_file_candidates("main.ts", "./a/../../b", &exts).is_none());
    assert_eq!(
        import_file_candidates("main.ts", "./a/../b", &exts).unwrap()[0],
        "b.ts"
    );
}
