use import_graph::graph::{contains_node_modules, get_node_label};

#[test]
fn test_get_node_label_root_index() {
    let path = "index.ts";
    let label = get_node_label(path);
    assert_eq!(label, "index.ts");
}

#[test]
fn test_get_node_label_src_index() {
    let path = "src/index.ts";
    let label = get_node_label(path);
    assert_eq!(label, "src/index.ts");
}

#[test]
fn test_get_node_label_standard() {
    let path = "src/components/MyComponent.jsx";
    let label = get_node_label(path);
    assert_eq!(label, "MyComponent.jsx");
}

#[test]
fn test_get_node_label_index() {
    let path = "src/SomeContext/index.ts";
    let label = get_node_label(path);
    assert_eq!(label, "SomeContext/index.ts");
}

#[test]
fn test_get_node_label_deep_index() {
    let label = get_node_label("src/features/login/index.tsx");
    assert_eq!(label, "login/index.tsx");
}

#[test]
fn test_get_node_label_dotted_stem_is_not_index() {
    // the stem of "index.test.ts" is "index.test", not "index"
    let label = get_node_label("src/index.test.ts");
    assert_eq!(label, "index.test.ts");
}

#[test]
fn test_get_node_label_no_extension() {
    let label = get_node_label("src/Makefile");
    assert_eq!(label, "Makefile");
}

#[test]
fn test_contains_node_modules_detects_each_excluded_dir() {
    assert!(contains_node_modules("src/node_modules/pkg/index.js"));
    assert!(contains_node_modules("build/out.js"));
    assert!(contains_node_modules("web/dist/bundle.js"));
    assert!(!contains_node_modules("src/components/App.tsx"));
    assert!(!contains_node_modules("src/builder/tool.ts"));
}
