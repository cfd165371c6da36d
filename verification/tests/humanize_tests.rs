use dropshot_api_manager::docpath::{DocumentBasePath, DocumentPath, OperationIdMap};
use dropshot_api_manager::humanize::{
    append_humanized_at_pair, append_humanized_base, append_jq_path, component_name, line_text,
};
use dropshot_api_manager::wrap::{Line, StyleRole};

fn jq_string(path: &DocumentPath) -> String {
    let mut line = Line::new();
    append_jq_path(&mut line, path, StyleRole::Plain);
    line_text(&line)
}

#[test]
fn test_jq_path_display() {
    let cases = vec![
        // Basic path with no escapes.
        ("#/paths/users", ".paths.users"),
        // Path with tilde escape.
        ("#/paths/~0users", r#".paths."~users""#),
        // Path with slash escape.
        ("#/paths/~1users", r#".paths."/users""#),
        // Path with both escapes.
        ("#/paths/~0users~1get", r#".paths."~users/get""#),
        // Complex path with multiple segments.
        ("#/paths/~1users/get/responses/200", r#".paths."/users".get.responses.200"#),
        // Path without leading #.
        ("/paths/users", ".paths.users"),
        // Empty path (root).
        ("", "."),
        // Just #.
        ("#", "."),
        // Path with multiple slashes to escape.
        ("#/paths/~1api~1v1~1users", r#".paths."/api/v1/users""#),
        // Path with mixed escapes.
        ("#/components/schemas/User~0Name~1Field", r#".components.schemas."User~Name/Field""#),
        // Relative subpath (no `#`/leading `/`).
        ("properties/value", ".properties.value"),
        ("responses/200/content/application~1json", r#".responses.200.content."application/json""#),
    ];

    for (input, expected) in cases {
        assert_eq!(jq_string(&DocumentPath::parse(input)), expected, "for input: {input}");
    }
}

#[test]
fn humanized_component_and_subpath() {
    let base = DocumentBasePath::Component(DocumentPath::parse("#/components/schemas/Thing"));
    let sub = DocumentPath::parse("properties/items_list/items/allOf/0");
    let mut line = Line::new();
    append_humanized_at_pair(&mut line, &base, &sub, StyleRole::Plain);
    assert_eq!(line_text(&line), "Thing.items_list[].allOf.0");
    assert_eq!(component_name(&DocumentPath::parse("#/components/schemas/Thing")), "Thing");
}

#[test]
fn humanized_endpoint_with_operation_id() {
    let mut ops = OperationIdMap::new();
    ops.insert(DocumentPath::parse("#/paths/~1users/get"), "list_users".to_string());
    let base = DocumentBasePath::classify(DocumentPath::parse("#/paths/~1users/get"), &ops);
    let mut line = Line::new();
    append_humanized_base(&mut line, &base);
    assert_eq!(line_text(&line), "GET /users (list_users)");
    let spans: Vec<(String, StyleRole)> =
        line.spans().iter().map(|s| (s.content.clone(), s.style)).collect();
    assert_eq!(spans[0], ("GET".to_string(), StyleRole::SuccessHeader));
    assert_eq!(spans[2], ("/users".to_string(), StyleRole::Filename));
    assert_eq!(spans[4], ("list_users".to_string(), StyleRole::OperationId));

    let mut line = Line::new();
    append_humanized_at_pair(&mut line, &base, &DocumentPath::parse("responses/200"), StyleRole::Plain);
    assert_eq!(line_text(&line), "GET /users (list_users) (.responses.200)");
}

#[test]
fn humanized_paths_root_and_other() {
    let mut line = Line::new();
    append_humanized_base(&mut line, &DocumentBasePath::PathsRoot);
    assert_eq!(line_text(&line), ".paths");
    let mut line = Line::new();
    append_humanized_base(&mut line, &DocumentBasePath::Other(DocumentPath::parse("#/info/title")));
    assert_eq!(line_text(&line), ".info.title");
}
