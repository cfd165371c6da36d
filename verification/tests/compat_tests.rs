use dropshot_api_manager::compat::{
    ApiCompatIssue, CompatDedupMap, CompatIssueLocation, CompatRenderStatus,
    FinalizedCompatDedupMap, SubpathChange,
};
use dropshot_api_manager::docpath::{DocumentBasePath, DocumentPath, OperationIdMap, PathTreeKey};
use dropshot_api_manager::names::{ApiIdent, SemVersion};
use dropshot_api_manager::pointer::ChangeClass;
use dropshot_api_manager::tree::PathTree;

/// Pretty JSON text of a JSON document, as an issue caches it.
fn json(text: &str) -> String {
    let value: serde_json::Value = serde_json::from_str(text).unwrap();
    serde_json::to_string_pretty(&value).unwrap()
}

/// Shorthand for a component-shaped [`DocumentBasePath`] from a JSON
/// Pointer string.
fn component_base(p: &str) -> DocumentBasePath {
    DocumentBasePath::Component(DocumentPath::parse(p))
}

/// Build an `ApiCompatIssue` directly.
fn synthetic_issue(base: &str, message: &str, blessed_value: &str, generated_value: &str) -> ApiCompatIssue {
    ApiCompatIssue {
        blessed_base: component_base(base),
        generated_base: component_base(base),
        changes: vec![SubpathChange {
            class: ChangeClass::Incompatible,
            message: message.into(),
            old_subpath: DocumentPath::parse("properties/value"),
            new_subpath: DocumentPath::parse("properties/value"),
        }],
        // Leave this empty since it's ignored by the dedup logic.
        tree: PathTree::new(),
        blessed_value: Some(json(blessed_value)),
        generated_value: Some(json(generated_value)),
    }
}

fn loc(api: &str, version: &str) -> CompatIssueLocation {
    CompatIssueLocation { api: ApiIdent::from_str(api), version: SemVersion::parse(version).unwrap() }
}

fn assert_status(
    dedup: &FinalizedCompatDedupMap<'_>,
    issue: &ApiCompatIssue,
    current: &CompatIssueLocation,
    expected: CompatRenderStatus,
) {
    let actual = dedup.status_for(issue, current);
    assert_eq!(actual, expected);
}

#[test]
fn test_dedup_basic() {
    let issue_a = synthetic_issue(
        "#/components/schemas/Error",
        "schema types changed",
        r#"{"Error": {"type": "string"}}"#,
        r#"{"Error": {"type": "integer"}}"#,
    );
    let issue_b = synthetic_issue(
        "#/components/schemas/Error",
        "schema types changed",
        r#"{"Error": {"type": "string"}}"#,
        r#"{"Error": {"type": "integer"}}"#,
    );

    let foo = loc("foo", "1.0.0");
    let bar = loc("bar", "1.0.0");
    let mut dedup = CompatDedupMap::new();
    dedup.insert(foo.clone(), &issue_a);
    dedup.insert(bar.clone(), &issue_b);
    let dedup = dedup.finalize();

    assert_status(&dedup, &issue_a, &foo, CompatRenderStatus::FirstOccurrence { anchor: Some(1) });
    assert_status(&dedup, &issue_b, &bar, CompatRenderStatus::Duplicate { anchor: 1 });
}

/// Two issues with the same name and message but different underlying
/// values are not duplicates.
#[test]
fn test_dedup_distinguishes_by_value() {
    let issue_a = synthetic_issue(
        "#/components/schemas/Error",
        "schema types changed",
        r#"{"Error": {"type": "string"}}"#,
        r#"{"Error": {"type": "integer"}}"#,
    );
    // Same name, same change message, different concrete schema.
    let issue_b = synthetic_issue(
        "#/components/schemas/Error",
        "schema types changed",
        r#"{"Error": {"type": "object"}}"#,
        r#"{"Error": {"type": "array"}}"#,
    );

    let foo = loc("foo", "1.0.0");
    let bar = loc("bar", "1.0.0");
    let mut dedup = CompatDedupMap::new();
    dedup.insert(foo.clone(), &issue_a);
    dedup.insert(bar.clone(), &issue_b);
    let dedup = dedup.finalize();

    // Both issues are reported by exactly one (api, version), so finalize
    // didn't assign them anchors.
    assert_status(&dedup, &issue_a, &foo, CompatRenderStatus::FirstOccurrence { anchor: None });
    assert_status(&dedup, &issue_b, &bar, CompatRenderStatus::FirstOccurrence { anchor: None });
}

/// The same issue reported under multiple versions of the same API dedups
/// the second version, not the first.
#[test]
fn test_dedup_across_versions_of_same_api() {
    let issue = synthetic_issue(
        "#/components/schemas/Error",
        "schema types changed",
        r#"{"Error": {"type": "string"}}"#,
        r#"{"Error": {"type": "integer"}}"#,
    );

    let v1 = loc("foo", "1.0.0");
    let v2 = loc("foo", "2.0.0");
    let mut dedup = CompatDedupMap::new();
    dedup.insert(v1.clone(), &issue);
    dedup.insert(v2.clone(), &issue);
    let dedup = dedup.finalize();

    assert_status(&dedup, &issue, &v1, CompatRenderStatus::FirstOccurrence { anchor: Some(1) });
    assert_status(&dedup, &issue, &v2, CompatRenderStatus::Duplicate { anchor: 1 });
}

#[test]
fn test_dedup_asymmetric_versions_across_apis() {
    let issue = synthetic_issue(
        "#/components/schemas/Error",
        "schema types changed",
        r#"{"Error": {"type": "string"}}"#,
        r#"{"Error": {"type": "integer"}}"#,
    );

    let a_v1 = loc("api_a", "1.0.0");
    let a_v2 = loc("api_a", "2.0.0");
    let a_v3 = loc("api_a", "3.0.0");
    let b_v2 = loc("api_b", "2.0.0");

    let mut dedup = CompatDedupMap::new();
    dedup.insert(a_v1.clone(), &issue);
    dedup.insert(a_v2.clone(), &issue);
    dedup.insert(a_v3.clone(), &issue);
    dedup.insert(b_v2.clone(), &issue);
    let dedup = dedup.finalize();

    // a@v1 is the canonical occurrence; everyone else is a duplicate
    // pointing at anchor 1.
    assert_status(&dedup, &issue, &a_v1, CompatRenderStatus::FirstOccurrence { anchor: Some(1) });
    for l in [&a_v2, &a_v3, &b_v2] {
        assert_status(&dedup, &issue, l, CompatRenderStatus::Duplicate { anchor: 1 });
    }
}

#[test]
fn test_dedup_ignores_tree() {
    let ops = OperationIdMap::new();
    let mut tree_a = PathTree::new();
    tree_a.insert(vec![PathTreeKey::parse("#/components/schemas/Wrapper/properties/a/$ref", &ops)]);
    let mut tree_b = PathTree::new();
    tree_b.insert(vec![PathTreeKey::parse("#/components/schemas/Wrapper/properties/b/$ref", &ops)]);

    let make_issue = |tree: PathTree| ApiCompatIssue {
        blessed_base: component_base("#/components/schemas/SubType"),
        generated_base: component_base("#/components/schemas/SubType"),
        changes: vec![SubpathChange {
            class: ChangeClass::Incompatible,
            message: "schema types changed".into(),
            old_subpath: DocumentPath::parse("properties/value"),
            new_subpath: DocumentPath::parse("properties/value"),
        }],
        tree,
        blessed_value: Some(json(r#"{"SubType": {"type": "string"}}"#)),
        generated_value: Some(json(r#"{"SubType": {"type": "integer"}}"#)),
    };

    let issue_a = make_issue(tree_a);
    let issue_b = make_issue(tree_b);

    assert!(issue_a.is_same_change_as(&issue_b), "issues identical except for tree should dedup");
}

#[test]
fn test_anchor_numbering_skips_single_occurrence() {
    let multi_a = synthetic_issue(
        "#/components/schemas/MultiA",
        "schema types changed",
        r#"{"MultiA": {"type": "string"}}"#,
        r#"{"MultiA": {"type": "integer"}}"#,
    );
    let solo = synthetic_issue(
        "#/components/schemas/Solo",
        "schema types changed",
        r#"{"Solo": {"type": "string"}}"#,
        r#"{"Solo": {"type": "integer"}}"#,
    );
    let multi_b = synthetic_issue(
        "#/components/schemas/MultiB",
        "schema types changed",
        r#"{"MultiB": {"type": "string"}}"#,
        r#"{"MultiB": {"type": "integer"}}"#,
    );

    let foo = loc("foo", "1.0.0");
    let bar = loc("bar", "1.0.0");
    let mut dedup = CompatDedupMap::new();
    // Insert order: multi_a (twice), solo (once), multi_b (twice).
    dedup.insert(foo.clone(), &multi_a);
    dedup.insert(bar.clone(), &multi_a);
    dedup.insert(foo.clone(), &solo);
    dedup.insert(foo.clone(), &multi_b);
    dedup.insert(bar.clone(), &multi_b);
    let dedup = dedup.finalize();

    assert_status(&dedup, &multi_a, &foo, CompatRenderStatus::FirstOccurrence { anchor: Some(1) });
    assert_status(&dedup, &solo, &foo, CompatRenderStatus::FirstOccurrence { anchor: None });
    // multi_b must be anchor 2, not 3.
    assert_status(&dedup, &multi_b, &foo, CompatRenderStatus::FirstOccurrence { anchor: Some(2) });
}

/// Two issues at the same base with the same change set but reported in
/// different orders should dedup.
#[test]
fn test_dedup_change_order_independent() {
    fn make_change(message: &str, subpath: &str) -> SubpathChange {
        SubpathChange {
            class: ChangeClass::Incompatible,
            message: message.into(),
            old_subpath: DocumentPath::parse(subpath),
            new_subpath: DocumentPath::parse(subpath),
        }
    }

    fn issue_with_changes(changes: Vec<SubpathChange>) -> ApiCompatIssue {
        ApiCompatIssue {
            blessed_base: component_base("#/components/schemas/User"),
            generated_base: component_base("#/components/schemas/User"),
            changes,
            tree: PathTree::new(),
            blessed_value: Some(json(r#"{"User": {}}"#)),
            generated_value: Some(json(r#"{"User": {}}"#)),
        }
    }

    let a_changes =
        vec![make_change("a changed", "properties/a"), make_change("b changed", "properties/b")];
    let b_changes =
        vec![make_change("b changed", "properties/b"), make_change("a changed", "properties/a")];

    let issue_a = issue_with_changes(a_changes);
    let issue_b = issue_with_changes(b_changes);

    assert!(
        issue_a.is_same_change_as(&issue_b),
        "issues with same change set in different order should dedup",
    );

    let foo = loc("foo", "1.0.0");
    let bar = loc("bar", "1.0.0");
    let mut dedup = CompatDedupMap::new();
    dedup.insert(foo.clone(), &issue_a);
    dedup.insert(bar.clone(), &issue_b);
    let dedup = dedup.finalize();
    assert_status(&dedup, &issue_b, &bar, CompatRenderStatus::Duplicate { anchor: 1 });
}

#[test]
fn json_of_issue_values() {
    let issue = synthetic_issue("#/components/schemas/E", "m", r#"{"E": 1}"#, r#"{"E": 2}"#);
    assert_eq!(issue.blessed_json(), json(r#"{"E": 1}"#));
    assert_eq!(issue.generated_json(), json(r#"{"E": 2}"#));
}
