use dropshot_api_manager::docpath::{DocumentBasePath, DocumentPath, OperationIdMap, PathTreeKey};

/// Shorthand for `DocumentPath { segments: [...] }`.
fn path(segments: &[&str]) -> DocumentPath {
    DocumentPath { segments: segments.iter().map(|&s| s.to_owned()).collect() }
}

#[test]
fn test_path_tree_key_parse() {
    // Each case is (input ref entry, expected base, expected subpath
    // segments).
    let ops = OperationIdMap::new();
    let cases: &[(&str, DocumentBasePath, &[&str])] = &[
        (
            "#/components/schemas/Foo/properties/x/$ref",
            DocumentBasePath::Component(path(&["components", "schemas", "Foo"])),
            &["properties", "x"],
        ),
        (
            "#/paths/~1users/get/responses/200/content/application~1json/schema/$ref",
            DocumentBasePath::Endpoint {
                name: path(&["paths", "/users", "get"]),
                operation_id: None,
            },
            &["responses", "200", "content", "application/json", "schema"],
        ),
        // Without a trailing /$ref (e.g., the leaf of a path stack), the
        // whole entry is the base, and the subpath is the root.
        (
            "#/components/schemas/Foo",
            DocumentBasePath::Component(path(&["components", "schemas", "Foo"])),
            &[],
        ),
    ];
    for (entry, want_base, want_subpath) in cases {
        let key = PathTreeKey::parse(entry, &ops);
        assert_eq!(&key.base, want_base, "base for entry {entry}");
        assert_eq!(key.subpath.segments.as_slice(), *want_subpath, "subpath for entry {entry}");
    }
}

#[test]
fn classify_uses_operation_ids() {
    let mut ops = OperationIdMap::new();
    ops.insert(path(&["paths", "/users", "get"]), "list_users".to_string());
    let base = DocumentBasePath::classify(DocumentPath::parse("#/paths/~1users/get"), &ops);
    assert_eq!(
        base,
        DocumentBasePath::Endpoint {
            name: path(&["paths", "/users", "get"]),
            operation_id: Some("list_users".to_string()),
        }
    );
    let root = DocumentBasePath::classify(DocumentPath::parse("#/paths"), &ops);
    assert!(root.is_paths_root());
    let other = DocumentBasePath::classify(DocumentPath::parse("#/info/title"), &ops);
    assert_eq!(other, DocumentBasePath::Other(path(&["info", "title"])));
}

#[test]
fn document_path_parse_and_split() {
    let p = DocumentPath::parse("#/a/b~1c/d");
    assert_eq!(p, path(&["a", "b/c", "d"]));
    assert!(DocumentPath::parse("#").is_root());
    let (head, tail) = p.split_at(2);
    assert_eq!(head, path(&["a", "b/c"]));
    assert_eq!(tail, path(&["d"]));
    let (head, tail) = path(&["x"]).split_at(3);
    assert_eq!(head, path(&["x"]));
    assert!(tail.is_root());
}
