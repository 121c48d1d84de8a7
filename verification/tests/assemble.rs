use import_graph::config::ModuleResolutionItem;
use import_graph::graph::{build_graph, GraphBuildError, NodeType, SourceFile};
use import_graph::imports::UnresolvedImport;

fn file(path_relative: &str, imports: Vec<&str>) -> SourceFile {
    SourceFile {
        path_absolute: format!("/repo/{}", path_relative),
        path_relative: path_relative.to_string(),
        imports: imports
            .into_iter()
            .map(|m| UnresolvedImport {
                module_name: m.to_string(),
            })
            .collect(),
    }
}

#[test]
fn end_to_end_two_files_one_internal_edge() {
    let files = vec![
        file("myFile.tsx", vec!["./myOtherFile"]),
        file("myOtherFile.tsx", vec![]),
    ];
    let graph = build_graph("test graph".to_string(), files, &None).unwrap();

    assert_eq!(graph.title, "test graph");
    assert_eq!(graph.nodes.len(), 2);
    assert!(graph
        .nodes
        .iter()
        .all(|n| matches!(n.node_type, NodeType::Internal)));
    assert_eq!(graph.edges.len(), 1);
    assert_eq!(graph.edges[0].source_id, graph.nodes[0].id);
    assert_eq!(graph.edges[0].target_id, graph.nodes[1].id);
    assert_eq!(graph.nodes[0].path_relative, "myFile.tsx");
    assert_eq!(graph.nodes[1].path_relative, "myOtherFile.tsx");
}

#[test]
fn alias_scenario_builds_one_edge() {
    let files = vec![
        file("feature-a/subfeature/myFile.tsx", vec!["~/common/myCommonFile"]),
        file("app/common/myCommonFile.tsx", vec![]),
    ];
    let rules = Some(vec![ModuleResolutionItem {
        pattern: "~/".to_string(),
        replacement: "app/".to_string(),
    }]);
    let graph = build_graph("aliased".to_string(), files, &rules).unwrap();

    assert_eq!(graph.nodes.len(), 2);
    assert_eq!(graph.edges.len(), 1);
    assert_eq!(graph.edges[0].source_id, graph.nodes[0].id);
    assert_eq!(graph.edges[0].target_id, graph.nodes[1].id);
}

#[test]
fn external_import_deduplicated_across_files() {
    let files = vec![
        file("a.tsx", vec!["react"]),
        file("b.tsx", vec!["react"]),
        file("c.tsx", vec!["react"]),
    ];
    let graph = build_graph("externals".to_string(), files, &None).unwrap();

    assert_eq!(graph.nodes.len(), 4);
    let externals: Vec<_> = graph
        .nodes
        .iter()
        .filter(|n| matches!(n.node_type, NodeType::External))
        .collect();
    assert_eq!(externals.len(), 1);
    let react = externals[0];
    assert_eq!(react.label, "react");
    assert_eq!(react.path_absolute, "");
    assert_eq!(react.path_relative, "");
    assert_eq!(graph.edges.len(), 3);
    for edge in &graph.edges {
        assert_eq!(edge.target_id, react.id);
    }
}

#[test]
fn external_nodes_keep_first_encounter_order() {
    let files = vec![
        file("a.tsx", vec!["react", "lodash"]),
        file("b.tsx", vec!["lodash", "uuid", "react"]),
    ];
    let graph = build_graph("order".to_string(), files, &None).unwrap();

    assert_eq!(graph.nodes.len(), 5);
    assert_eq!(graph.nodes[2].label, "react");
    assert_eq!(graph.nodes[3].label, "lodash");
    assert_eq!(graph.nodes[4].label, "uuid");
    assert_eq!(graph.edges.len(), 5);
    assert_eq!(graph.edges[0].target_id, graph.nodes[2].id);
    assert_eq!(graph.edges[1].target_id, graph.nodes[3].id);
    assert_eq!(graph.edges[2].target_id, graph.nodes[3].id);
    assert_eq!(graph.edges[3].target_id, graph.nodes[4].id);
    assert_eq!(graph.edges[4].target_id, graph.nodes[2].id);
    assert_eq!(graph.edges[0].source_id, graph.nodes[0].id);
    assert_eq!(graph.edges[4].source_id, graph.nodes[1].id);
}

#[test]
fn duplicate_relative_path_is_an_error() {
    let files = vec![
        file("src/a.ts", vec![]),
        file("src/b.ts", vec![]),
        file("src/a.ts", vec![]),
    ];
    let result = build_graph("dup".to_string(), files, &None);
    match result {
        Err(GraphBuildError::DuplicatePath { path }) => {
            assert_eq!(path, "src/a.ts");
        }
        Ok(_) => panic!("a duplicate relative path must be rejected"),
    }
}

#[test]
fn empty_input_builds_empty_graph() {
    let graph = build_graph("empty".to_string(), vec![], &None).unwrap();
    assert_eq!(graph.title, "empty");
    assert_eq!(graph.nodes.len(), 0);
    assert_eq!(graph.edges.len(), 0);
}

#[test]
fn node_ids_are_fresh_hyphenated_identifiers() {
    let files = vec![file("a.ts", vec!["react"]), file("b.ts", vec![])];
    let graph = build_graph("ids".to_string(), files, &None).unwrap();
    for node in &graph.nodes {
        assert_eq!(node.id.len(), 36);
    }
    assert_ne!(graph.nodes[0].id, graph.nodes[1].id);
}

#[test]
fn labels_derived_during_build() {
    let files = vec![
        file("src/SomeContext/index.ts", vec![]),
        file("src/components/MyComponent.jsx", vec![]),
    ];
    let graph = build_graph("labels".to_string(), files, &None).unwrap();
    assert_eq!(graph.nodes[0].label, "SomeContext/index.ts");
    assert_eq!(graph.nodes[1].label, "MyComponent.jsx");
}
