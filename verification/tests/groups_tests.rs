use dropshot_api_manager::docpath::{OperationIdMap, PathTreeKey};
use dropshot_api_manager::groups::collect_endpoint_groups;
use dropshot_api_manager::tree::PathTree;

fn key(entry: &str) -> PathTreeKey {
    PathTreeKey::parse(entry, &OperationIdMap::new())
}

#[test]
fn chains_are_grouped_by_endpoint_in_base_order() {
    let wrapper_a = key("#/components/schemas/Wrapper/properties/a/$ref");
    let wrapper_b = key("#/components/schemas/Wrapper/properties/b/$ref");
    let endpoint_a = key("#/paths/~1a/get/responses/200/content/application~1json/schema/$ref");
    let endpoint_b = key("#/paths/~1b/get/responses/200/content/application~1json/schema/$ref");

    let mut tree = PathTree::new();
    tree.insert(vec![endpoint_b.clone()]);
    tree.insert(vec![wrapper_b.clone(), endpoint_a.clone()]);
    tree.insert(vec![wrapper_a.clone(), endpoint_a.clone()]);

    let groups = collect_endpoint_groups(&tree);
    assert_eq!(groups.len(), 2);
    assert_eq!(groups[0].endpoint_base, endpoint_a.base);
    assert_eq!(groups[1].endpoint_base, endpoint_b.base);

    // Both wrappers lead to the first endpoint; they are its tree's
    // children, in key order, with nothing below them.
    let first: Vec<&PathTreeKey> = groups[0].intermediates.children.iter().map(|(k, _)| k).collect();
    assert_eq!(first, vec![&wrapper_a, &wrapper_b]);
    assert!(groups[0].intermediates.children.iter().all(|(_, t)| t.children.is_empty()));

    // The second endpoint refers to the changed component directly.
    assert!(groups[1].intermediates.children.is_empty());
}

#[test]
fn deeper_chains_are_reversed_endpoint_first() {
    let inner = key("#/components/schemas/Inner/properties/x/$ref");
    let outer = key("#/components/schemas/Outer/properties/inner/$ref");
    let endpoint = key("#/paths/~1c/post/requestBody/content/application~1json/schema/$ref");

    let mut tree = PathTree::new();
    tree.insert(vec![inner.clone(), outer.clone(), endpoint.clone()]);

    let groups = collect_endpoint_groups(&tree);
    assert_eq!(groups.len(), 1);
    assert_eq!(groups[0].endpoint_base, endpoint.base);
    let top = &groups[0].intermediates.children;
    assert_eq!(top.len(), 1);
    assert_eq!(top[0].0, outer);
    assert_eq!(top[0].1.children.len(), 1);
    assert_eq!(top[0].1.children[0].0, inner);
}

#[test]
fn empty_tree_has_no_groups() {
    assert!(collect_endpoint_groups(&PathTree::new()).is_empty());
}
