use dropshot_api_manager::docpath::{DocumentPath, OperationIdMap, PathTreeKey};
use dropshot_api_manager::tree::{compare_keys, PathTree};

fn key(entry: &str) -> PathTreeKey {
    PathTreeKey::parse(entry, &OperationIdMap::new())
}

#[test]
fn insert_keeps_children_sorted_and_merges_shared_prefixes() {
    let mut tree = PathTree::new();
    let wrapper_b = key("#/components/schemas/Wrapper/properties/b/$ref");
    let wrapper_a = key("#/components/schemas/Wrapper/properties/a/$ref");
    let endpoint = key("#/paths/~1a/get/responses/200/content/application~1json/schema/$ref");
    tree.insert(vec![wrapper_b.clone(), endpoint.clone()]);
    tree.insert(vec![wrapper_a.clone(), endpoint.clone()]);
    tree.insert(vec![wrapper_b.clone()]);
    // Components sort before endpoints, and "a" before "b".
    let keys: Vec<&PathTreeKey> = tree.children.iter().map(|(k, _)| k).collect();
    assert_eq!(keys, vec![&wrapper_a, &wrapper_b]);
    // The shared first key was reused: "b" still has one child.
    assert_eq!(tree.children[1].1.children.len(), 1);
    assert_eq!(tree.children[1].1.children[0].0, endpoint);
}

#[test]
fn key_order_follows_bases_then_subpaths() {
    let component = key("#/components/schemas/A/properties/x/$ref");
    let endpoint = key("#/paths/~1a/get/$ref");
    assert!(compare_keys(&component, &endpoint) < 0);
    assert!(compare_keys(&endpoint, &component) > 0);
    assert_eq!(compare_keys(&component, &component.clone()), 0);
    let shorter = PathTreeKey { base: component.base.clone(), subpath: DocumentPath::parse("properties") };
    assert!(compare_keys(&shorter, &component) < 0);
}

#[test]
fn build_skips_the_changed_location_and_merges_chains() {
    let stacks = vec![
        vec![
            "#/components/schemas/SubType".to_string(),
            "#/components/schemas/Wrapper/properties/b/$ref".to_string(),
            "#/paths/~1a/get/responses/200/content/application~1json/schema/$ref".to_string(),
        ],
        vec![
            "#/components/schemas/SubType".to_string(),
            "#/components/schemas/Wrapper/properties/a/$ref".to_string(),
        ],
        vec!["#/components/schemas/SubType".to_string()],
    ];
    let tree = PathTree::build(&stacks, &OperationIdMap::new());
    let keys: Vec<&PathTreeKey> = tree.children.iter().map(|(k, _)| k).collect();
    assert_eq!(keys, vec![&key("#/components/schemas/Wrapper/properties/a/$ref"), &key("#/components/schemas/Wrapper/properties/b/$ref")]);
    assert!(tree.children[0].1.children.is_empty());
    assert_eq!(
        tree.children[1].1.children[0].0,
        key("#/paths/~1a/get/responses/200/content/application~1json/schema/$ref")
    );
    assert!(PathTree::build(&Vec::new(), &OperationIdMap::new()).children.is_empty());
}
