use import_graph::config::ModuleResolutionItem;
use import_graph::graph::{Node, NodeType};
use import_graph::imports::{
    create_file_path_candidates, resolve_imports, ResolvedImport, UnresolvedImport,
};

fn internal_node(id: &str, path_absolute: &str, path_relative: &str) -> Node {
    Node {
        id: id.to_string(),
        node_type: NodeType::Internal,
        label: "test".to_string(),
        path_absolute: path_absolute.to_string(),
        path_relative: path_relative.to_string(),
    }
}

#[test]
fn test_resolve_imports_both_root_directory() {
    let source_node = internal_node(
        "7c00c281-b165-4ccd-9deb-3575a0d7e71d",
        "/path/to/repo/myFile.tsx",
        "myFile.tsx",
    );
    let target_node = internal_node(
        "c319b51d-2f58-41aa-96f5-fbe35bb227b4",
        "/path/to/repo/myOtherFile.tsx",
        "myOtherFile.tsx",
    );

    let nodes = vec![source_node.clone(), target_node.clone()];

    let unresolved_imports = vec![UnresolvedImport {
        module_name: "./myOtherFile".to_string(),
    }];

    let module_resolution = None;

    let resolved_imports =
        resolve_imports(unresolved_imports, &source_node, &nodes, &module_resolution);
    assert_eq!(
        resolved_imports,
        vec![ResolvedImport::InternalImport {
            target_path: "myOtherFile.tsx".to_string(),
            target_node_id: "c319b51d-2f58-41aa-96f5-fbe35bb227b4".to_string()
        }]
    );
}

#[test]
fn test_resolve_imports_same_directory() {
    let source_node = internal_node(
        "7c00c281-b165-4ccd-9deb-3575a0d7e71d",
        "/path/to/repo/subdirectory/myFile.tsx",
        "subdirectory/myFile.tsx",
    );
    let target_node = internal_node(
        "c319b51d-2f58-41aa-96f5-fbe35bb227b4",
        "/path/to/repo/subdirectory/myOtherFile.tsx",
        "subdirectory/myOtherFile.tsx",
    );

    let nodes = vec![source_node.clone(), target_node.clone()];

    let unresolved_imports = vec![UnresolvedImport {
        module_name: "./myOtherFile".to_string(),
    }];

    let module_resolution = None;

    let resolved_imports =
        resolve_imports(unresolved_imports, &source_node, &nodes, &module_resolution);
    assert_eq!(
        resolved_imports,
        vec![ResolvedImport::InternalImport {
            target_path: "subdirectory/myOtherFile.tsx".to_string(),
            target_node_id: "c319b51d-2f58-41aa-96f5-fbe35bb227b4".to_string()
        }]
    );
}

#[test]
fn test_resolve_imports_far_away_directory() {
    let source_node = internal_node(
        "7c00c281-b165-4ccd-9deb-3575a0d7e71d",
        "/path/to/repo/feature-a/subfeature/myFile.tsx",
        "feature-a/subfeature/myFile.tsx",
    );
    let target_node = internal_node(
        "c319b51d-2f58-41aa-96f5-fbe35bb227b4",
        "/path/to/repo/feature-b/subfeature/myOtherFile.tsx",
        "feature-b/subfeature/myOtherFile.tsx",
    );

    let nodes = vec![source_node.clone(), target_node.clone()];

    let unresolved_imports = vec![UnresolvedImport {
        module_name: "../../feature-b/subfeature/myOtherFile".to_string(),
    }];

    let module_resolution = None;

    let resolved_imports =
        resolve_imports(unresolved_imports, &source_node, &nodes, &module_resolution);
    assert_eq!(
        resolved_imports,
        vec![ResolvedImport::InternalImport {
            target_path: "feature-b/subfeature/myOtherFile.tsx".to_string(),
            target_node_id: "c319b51d-2f58-41aa-96f5-fbe35bb227b4".to_string()
        }]
    );
}

#[test]
fn test_resolve_imports_external() {
    let source_node = internal_node(
        "7c00c281-b165-4ccd-9deb-3575a0d7e71d",
        "/path/to/repo/myFile.tsx",
        "myFile.tsx",
    );

    let nodes = vec![source_node.clone()];

    let unresolved_imports = vec![UnresolvedImport {
        module_name: "react".to_string(),
    }];

    let module_resolution = None;

    let resolved_imports =
        resolve_imports(unresolved_imports, &source_node, &nodes, &module_resolution);
    assert_eq!(
        resolved_imports,
        vec![ResolvedImport::ExternalImport {
            target_module_name: "react".to_string(),
        }]
    );
}

#[test]
fn resolve_imports_with_substitution() {
    let source_node = internal_node(
        "7c00c281-b165-4ccd-9deb-3575a0d7e71d",
        "/path/to/repo/feature-a/subfeature/myFile.tsx",
        "feature-a/subfeature/myFile.tsx",
    );
    let target_node = internal_node(
        "c319b51d-2f58-41aa-96f5-fbe35bb227b4",
        "/path/to/repo/app/common/myCommonFile.tsx",
        "app/common/myCommonFile.tsx",
    );

    let nodes = vec![source_node.clone(), target_node.clone()];

    let unresolved_imports = vec![UnresolvedImport {
        module_name: "~/common/myCommonFile".to_string(),
    }];

    let module_resolution = Some(vec![ModuleResolutionItem {
        pattern: "~/".to_string(),
        replacement: "app/".to_string(),
    }]);

    let resolved_imports =
        resolve_imports(unresolved_imports, &source_node, &nodes, &module_resolution);
    assert_eq!(
        resolved_imports,
        vec![ResolvedImport::InternalImport {
            target_path: "app/common/myCommonFile.tsx".to_string(),
            target_node_id: "c319b51d-2f58-41aa-96f5-fbe35bb227b4".to_string()
        }]
    );
}

#[test]
fn candidates_fixed_order_and_idempotent() {
    let base = "src/util".to_string();
    let first = create_file_path_candidates(&base);
    let second = create_file_path_candidates(&base);
    assert_eq!(
        first,
        vec![
            "src/util".to_string(),
            "src/util.tsx".to_string(),
            "src/util.ts".to_string(),
            "src/util.jsx".to_string(),
            "src/util.js".to_string(),
            "src/util/index.tsx".to_string(),
            "src/util/index.ts".to_string(),
            "src/util/index.jsx".to_string(),
            "src/util/index.js".to_string(),
        ]
    );
    assert_eq!(first, second);
}

#[test]
fn typed_extension_beats_untyped() {
    let source_node = internal_node("id-src", "/r/main.ts", "main.ts");
    let ts_node = internal_node("id-ts", "/r/mod.ts", "mod.ts");
    let js_node = internal_node("id-js", "/r/mod.js", "mod.js");

    let nodes = vec![source_node.clone(), ts_node, js_node];

    let resolved = resolve_imports(
        vec![UnresolvedImport {
            module_name: "./mod".to_string(),
        }],
        &source_node,
        &nodes,
        &None,
    );
    assert_eq!(
        resolved,
        vec![ResolvedImport::InternalImport {
            target_path: "mod.ts".to_string(),
            target_node_id: "id-ts".to_string()
        }]
    );
}

#[test]
fn first_matching_rule_without_hit_does_not_block_later_rule() {
    let source_node = internal_node("id-src", "/r/main.ts", "main.ts");
    let target_node = internal_node("id-t", "/r/app/common/x.tsx", "app/common/x.tsx");
    let nodes = vec![source_node.clone(), target_node];

    let module_resolution = Some(vec![
        ModuleResolutionItem {
            pattern: "~/".to_string(),
            replacement: "nowhere/".to_string(),
        },
        ModuleResolutionItem {
            pattern: "~/".to_string(),
            replacement: "app/".to_string(),
        },
    ]);

    let resolved = resolve_imports(
        vec![UnresolvedImport {
            module_name: "~/common/x".to_string(),
        }],
        &source_node,
        &nodes,
        &module_resolution,
    );
    assert_eq!(
        resolved,
        vec![ResolvedImport::InternalImport {
            target_path: "app/common/x.tsx".to_string(),
            target_node_id: "id-t".to_string()
        }]
    );
}

#[test]
fn relative_specifier_that_misses_still_gets_alias_chance() {
    let source_node = internal_node("id-src", "/r/main.ts", "main.ts");
    let target_node = internal_node("id-t", "/r/app/foo.ts", "app/foo.ts");
    let nodes = vec![source_node.clone(), target_node];

    let module_resolution = Some(vec![ModuleResolutionItem {
        pattern: "./".to_string(),
        replacement: "app/".to_string(),
    }]);

    let resolved = resolve_imports(
        vec![UnresolvedImport {
            module_name: "./foo".to_string(),
        }],
        &source_node,
        &nodes,
        &module_resolution,
    );
    assert_eq!(
        resolved,
        vec![ResolvedImport::InternalImport {
            target_path: "app/foo.ts".to_string(),
            target_node_id: "id-t".to_string()
        }]
    );
}

#[test]
fn external_keeps_original_specifier_when_rule_matches_nothing() {
    let source_node = internal_node("id-src", "/r/main.ts", "main.ts");
    let nodes = vec![source_node.clone()];

    let module_resolution = Some(vec![ModuleResolutionItem {
        pattern: "~/".to_string(),
        replacement: "app/".to_string(),
    }]);

    let resolved = resolve_imports(
        vec![UnresolvedImport {
            module_name: "~/missing/widget".to_string(),
        }],
        &source_node,
        &nodes,
        &module_resolution,
    );
    assert_eq!(
        resolved,
        vec![ResolvedImport::ExternalImport {
            target_module_name: "~/missing/widget".to_string(),
        }]
    );
}

#[test]
fn directory_index_fallback_resolves() {
    let source_node = internal_node("id-src", "/r/main.ts", "main.ts");
    let target_node = internal_node("id-i", "/r/widgets/index.ts", "widgets/index.ts");
    let nodes = vec![source_node.clone(), target_node];

    let resolved = resolve_imports(
        vec![UnresolvedImport {
            module_name: "./widgets".to_string(),
        }],
        &source_node,
        &nodes,
        &None,
    );
    assert_eq!(
        resolved,
        vec![ResolvedImport::InternalImport {
            target_path: "widgets/index.ts".to_string(),
            target_node_id: "id-i".to_string()
        }]
    );
}

#[test]
fn explicit_extension_resolves_exact_path_first() {
    let source_node = internal_node("id-src", "/r/main.ts", "main.ts");
    let target_node = internal_node("id-x", "/r/helper.ts", "helper.ts");
    let nodes = vec![source_node.clone(), target_node];

    let resolved = resolve_imports(
        vec![UnresolvedImport {
            module_name: "./helper.ts".to_string(),
        }],
        &source_node,
        &nodes,
        &None,
    );
    assert_eq!(
        resolved,
        vec![ResolvedImport::InternalImport {
            target_path: "helper.ts".to_string(),
            target_node_id: "id-x".to_string()
        }]
    );
}
