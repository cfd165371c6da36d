use dropshot_api_manager::compat::{ApiCompatIssue, CompatIssueLocation, SubpathChange};
use dropshot_api_manager::docpath::{DocumentBasePath, DocumentPath, OperationIdMap, PathTreeKey};
use dropshot_api_manager::names::{ApiIdent, SemVersion};
use dropshot_api_manager::pointer::ChangeClass;
use dropshot_api_manager::render::{render_issue, OutPiece};
use dropshot_api_manager::tree::PathTree;
use dropshot_api_manager::wrap::StyleRole;

fn op_ids(entries: &[(&str, &str)]) -> OperationIdMap {
    let mut map = OperationIdMap::new();
    for (base, op_id) in entries {
        map.insert(DocumentPath::parse(base), op_id.to_string());
    }
    map
}

fn component(p: &str) -> DocumentBasePath {
    DocumentBasePath::Component(DocumentPath::parse(p))
}

fn change(class: ChangeClass, message: &str, old: &str, new: &str) -> SubpathChange {
    SubpathChange {
        class,
        message: message.to_string(),
        old_subpath: DocumentPath::parse(old),
        new_subpath: DocumentPath::parse(new),
    }
}

fn issue(blessed: DocumentBasePath, generated: DocumentBasePath, changes: Vec<SubpathChange>, tree: PathTree) -> ApiCompatIssue {
    ApiCompatIssue {
        blessed_base: blessed,
        generated_base: generated,
        changes,
        tree,
        blessed_value: None,
        generated_value: None,
    }
}

fn plain(pieces: &[OutPiece]) -> String {
    let mut out = String::new();
    for p in pieces {
        match p {
            OutPiece::Text { text, .. } => out.push_str(text),
            OutPiece::Spaces(n) => out.push_str(&" ".repeat(*n)),
            OutPiece::Newline => out.push('\n'),
        }
    }
    out
}

fn render(issue: &ApiCompatIssue) -> String {
    plain(&render_issue(issue, None, None))
}

fn endpoint_chain(ops: &OperationIdMap, wrapper_field: &str, route: &str) -> Vec<PathTreeKey> {
    vec![
        PathTreeKey::parse(&format!("#/components/schemas/Wrapper/properties/{wrapper_field}/$ref"), ops),
        PathTreeKey::parse(
            &format!("#/paths/~1{route}/get/responses/200/content/application~1json/schema/$ref"),
            ops,
        ),
    ]
}

#[test]
fn test_render_multi_sibling_tree() {
    let ops = op_ids(&[("#/paths/~1a/get", "list_a"), ("#/paths/~1b/get", "list_b")]);
    let mut tree = PathTree::new();
    tree.insert(endpoint_chain(&ops, "via_a", "a"));
    tree.insert(endpoint_chain(&ops, "via_a", "b"));
    tree.insert(endpoint_chain(&ops, "via_b", "a"));
    tree.insert(endpoint_chain(&ops, "via_b", "b"));
    let issue = issue(
        component("#/components/schemas/SubType"),
        component("#/components/schemas/SubType"),
        vec![change(ChangeClass::Incompatible, "schema types changed", "properties/value", "properties/value")],
        tree,
    );
    assert_eq!(
        render(&issue),
        "incompatible: schema types changed\n\
         \x20         at: SubType.value\n\
         \x20    used by: GET /a (list_a)\n\
         \x20             ├─ Wrapper.via_a\n\
         \x20             └─ Wrapper.via_b\n\
         \x20    used by: GET /b (list_b)\n\
         \x20             ├─ Wrapper.via_a (*)\n\
         \x20             └─ Wrapper.via_b (*)"
    );
}

#[test]
fn test_render_deep_branching_tree() {
    let ops = op_ids(&[("#/paths/~1a/get", "list_a")]);
    let chain = |wrapper_field: &str, inner_field: &str| {
        vec![
            PathTreeKey::parse(&format!("#/components/schemas/Inner/properties/{inner_field}/$ref"), &ops),
            PathTreeKey::parse(&format!("#/components/schemas/Wrapper/properties/{wrapper_field}/$ref"), &ops),
            PathTreeKey::parse("#/paths/~1a/get/responses/200/content/application~1json/schema/$ref", &ops),
        ]
    };
    let mut tree = PathTree::new();
    tree.insert(chain("via_a", "x"));
    tree.insert(chain("via_a", "y"));
    tree.insert(chain("via_b", "z"));
    let issue = issue(
        component("#/components/schemas/SubType"),
        component("#/components/schemas/SubType"),
        vec![change(ChangeClass::Incompatible, "schema types changed", "properties/value", "properties/value")],
        tree,
    );
    assert_eq!(
        render(&issue),
        "incompatible: schema types changed\n\
         \x20         at: SubType.value\n\
         \x20    used by: GET /a (list_a)\n\
         \x20             ├─ Wrapper.via_a\n\
         \x20             │  ├─ Inner.x\n\
         \x20             │  └─ Inner.y\n\
         \x20             └─ Wrapper.via_b\n\
         \x20                └─ Inner.z"
    );
}

#[test]
fn test_render_renamed_base() {
    let issue = issue(
        component("#/components/schemas/OldName"),
        component("#/components/schemas/NewName"),
        vec![change(ChangeClass::Incompatible, "schema types changed", "properties/value", "properties/value")],
        PathTree::new(),
    );
    assert_eq!(
        render(&issue),
        "incompatible: schema types changed\n\
         \x20         at: OldName.value -> NewName.value"
    );
}

#[test]
fn test_render_endpoint_added() {
    let ops = op_ids(&[("#/paths/~1system~1info/get", "get_system_info")]);
    let issue = issue(
        DocumentBasePath::classify(DocumentPath::parse("/paths"), &OperationIdMap::new()),
        DocumentBasePath::classify(DocumentPath::parse("/paths/~1system~1info/get"), &ops),
        vec![SubpathChange {
            class: ChangeClass::ForwardIncompatible,
            message: "The operation get_system_info was added".to_string(),
            old_subpath: DocumentPath::root(),
            new_subpath: DocumentPath::root(),
        }],
        PathTree::new(),
    );
    assert_eq!(
        render(&issue),
        "forward-incompatible: The operation get_system_info was added\n\
         \x20                 at: GET /system/info (get_system_info)"
    );
}

#[test]
fn test_render_subpath_renamed() {
    let issue = issue(
        component("#/components/schemas/Foo"),
        component("#/components/schemas/Foo"),
        vec![change(ChangeClass::Incompatible, "field renamed", "properties/old_name", "properties/new_name")],
        PathTree::new(),
    );
    assert_eq!(
        render(&issue),
        "incompatible: field renamed\n\
         \x20         at: Foo.old_name -> Foo.new_name"
    );
}

#[test]
fn test_render_unhandled_class() {
    let issue = issue(
        component("#/components/schemas/Foo"),
        component("#/components/schemas/Foo"),
        vec![change(ChangeClass::Unhandled, "array maxItems changed", "items", "items")],
        PathTree::new(),
    );
    let pieces = render_issue(&issue, None, None);
    assert_eq!(plain(&pieces), "change: array maxItems changed\n    at: Foo[]");
    // The neutral keyword is in the warning style, not a severity color.
    assert!(matches!(&pieces[0], OutPiece::Text { text, style: StyleRole::Warning } if text == "change"));
}

fn location() -> CompatIssueLocation {
    CompatIssueLocation { api: ApiIdent::from_str("foo"), version: SemVersion::parse("1.0.0").unwrap() }
}

#[test]
fn test_render_abbreviated_multi_change() {
    let ops = op_ids(&[("#/paths/~1bar1/get", "get_bar1")]);
    let mut tree = PathTree::new();
    tree.insert(endpoint_chain(&ops, "value", "bar1"));
    let issue = issue(
        component("#/components/schemas/SubType"),
        component("#/components/schemas/SubType"),
        vec![
            change(ChangeClass::Incompatible, "schema kind changed", "properties/value", "properties/value"),
            SubpathChange {
                class: ChangeClass::Unhandled,
                message: "object properties changed".to_string(),
                old_subpath: DocumentPath::root(),
                new_subpath: DocumentPath::root(),
            },
        ],
        tree,
    );
    let prev = location();
    assert_eq!(
        plain(&render_issue(&issue, Some(&prev), None)),
        "incompatible: schema kind changed (see foo v1.0.0)\n\
         \x20         at: SubType.value\n\
         \x20     change: object properties changed\n\
         \x20         at: SubType\n\
         \x20    used by: GET /bar1 (get_bar1)\n\
         \x20             └─ Wrapper.value"
    );
}

#[test]
fn test_render_abbreviated() {
    let ops = op_ids(&[("#/paths/~1bar1/get", "get_bar1"), ("#/paths/~1bar2/get", "get_bar2")]);
    let mut tree = PathTree::new();
    tree.insert(endpoint_chain(&ops, "value", "bar1"));
    tree.insert(endpoint_chain(&ops, "value", "bar2"));
    let issue = issue(
        component("#/components/schemas/SubType"),
        component("#/components/schemas/SubType"),
        vec![change(ChangeClass::Incompatible, "schema types changed", "properties/value", "properties/value")],
        tree,
    );
    let prev = location();
    let pieces = render_issue(&issue, Some(&prev), None);
    assert_eq!(
        plain(&pieces),
        "incompatible: schema types changed (see foo v1.0.0)\n\
         \x20         at: SubType.value\n\
         \x20    used by: GET /bar1 (get_bar1)\n\
         \x20             └─ Wrapper.value\n\
         \x20    used by: GET /bar2 (get_bar2)\n\
         \x20             └─ Wrapper.value (*)"
    );
    assert!(pieces
        .iter()
        .any(|p| matches!(p, OutPiece::Text { text, style: StyleRole::Warning } if text == "(see foo v1.0.0)")));
}

#[test]
fn test_render_wrapped_long_endpoint() {
    let endpoint = "#/paths/~1v1~1instances~1{instance}~1network-interfaces~1{network_interface}~1multicast/post";
    let ops = op_ids(&[(endpoint, "instance_network_multicast_attach")]);
    let mut tree = PathTree::new();
    tree.insert(vec![
        PathTreeKey::parse("#/components/schemas/MulticastGroupMember/properties/identity/$ref", &ops),
        PathTreeKey::parse(&format!("{endpoint}/responses/200/content/application~1json/schema/$ref"), &ops),
    ]);
    let issue = issue(
        component("#/components/schemas/MulticastGroupIdentity"),
        component("#/components/schemas/MulticastGroupIdentity"),
        vec![change(ChangeClass::Incompatible, "schema types changed", "properties/id", "properties/id")],
        tree,
    );
    assert_eq!(
        plain(&render_issue(&issue, None, Some(80))),
        "incompatible: schema types changed\n\
         \x20         at: MulticastGroupIdentity.id\n\
         \x20    used by: POST\n\
         \x20             /v1/instances/{instance}/network-interfaces/{network_interface}/multicast\n\
         \x20             (instance_network_multicast_attach)\n\
         \x20             └─ MulticastGroupMember.identity"
    );
}

#[test]
fn label_column_and_styles() {
    let issue = issue(
        component("#/components/schemas/Foo"),
        component("#/components/schemas/Foo"),
        vec![change(ChangeClass::BackwardIncompatible, "m", "properties/a", "properties/a")],
        PathTree::new(),
    );
    let pieces = render_issue(&issue, None, None);
    assert_eq!(plain(&pieces), "backward-incompatible: m\n                   at: Foo.a");
    assert!(matches!(&pieces[0], OutPiece::Text { style: StyleRole::FailureHeader, .. }));
}

#[test]
fn changes_from_reported_pointers() {
    let c = SubpathChange::from_info(ChangeClass::Incompatible, "m".to_string(), "/properties/a", "#/properties/b");
    assert_eq!(c.old_subpath, DocumentPath::parse("properties/a"));
    assert_eq!(c.new_subpath.segments, vec!["properties".to_string(), "b".to_string()]);
    assert_eq!(c.class, ChangeClass::Incompatible);
}

/// The issue in its surrounding output: a `Failure` header, the `error:`
/// keyword, and the issue body indented so that its labels start where
/// `error` does.
#[test]
fn test_render_in_context() {
    const HEADER_WIDTH: usize = 12;
    let issue_indent = " ".repeat(HEADER_WIDTH - "error".len());
    let ops = op_ids(&[("#/paths/~1v1~1system~1audit-log/get", "audit_log_list")]);
    let mut tree = PathTree::new();
    tree.insert(vec![
        PathTreeKey::parse("#/components/schemas/AuditLogEntryResultsPage/properties/items/items/$ref", &ops),
        PathTreeKey::parse(
            "#/paths/~1v1~1system~1audit-log/get/responses/200/content/application~1json/schema/$ref",
            &ops,
        ),
    ]);
    let issue = issue(
        component("#/components/schemas/AuditLogEntry"),
        component("#/components/schemas/AuditLogEntry"),
        vec![
            change(ChangeClass::Incompatible, "schema kind changed", "properties/auth_method", "properties/auth_method"),
            change(ChangeClass::Unhandled, "object properties changed", "", ""),
        ],
        tree,
    );
    let mut out = String::new();
    out.push_str(&format!(
        "{:>HEADER_WIDTH$} nexus (versioned v2025112000.0.0 (blessed)): Oxide Region API\n",
        "Failure"
    ));
    out.push_str(&format!(
        "{:>HEADER_WIDTH$}: OpenAPI document is incompatible with the blessed upstream\n\n",
        "error"
    ));
    let body = render(&issue);
    for line in body.lines() {
        if !line.is_empty() {
            out.push_str(&issue_indent);
        }
        out.push_str(line);
        out.push('\n');
    }
    let lines: Vec<&str> = out.lines().collect();
    let error_column = lines[1].find("error").unwrap();
    assert_eq!(error_column, issue_indent.len());
    let body_lines: Vec<&str> = lines[3..].iter().copied().filter(|l| !l.is_empty()).collect();
    assert!(body_lines.iter().all(|l| l.starts_with(&issue_indent)));
    let leftmost = body_lines.iter().map(|l| l.len() - l.trim_start().len()).min().unwrap();
    assert_eq!(leftmost, error_column, "the longest label starts where `error` does:\n{out}");
    assert!(out.contains("schema kind changed"));
    assert!(out.contains("object properties changed"));
    assert!(out.contains("audit_log_list"));
}
