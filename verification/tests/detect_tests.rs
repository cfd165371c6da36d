use dropshot_api_manager::compat::ApiCompatIssue;
use dropshot_api_manager::detect::{api_compatible, extract_operation_ids, normalize_old_websocket_responses, RawChange};
use dropshot_api_manager::docpath::{DocumentBasePath, DocumentPath};
use dropshot_api_manager::pointer::ChangeClass;
use dropshot_api_manager::render::{render_issue, OutPiece};
use dropshot_api_manager::resolve::CompatOutcome;

fn plain(pieces: &[OutPiece]) -> String {
    let mut out = String::new();
    for p in pieces {
        match p {
            OutPiece::Text { text, .. } => out.push_str(text),
            OutPiece::Spaces(n) => out.push_str(&" ".repeat(*n)),
            OutPiece::Newline => out.push('\n'),
        }
    }
    out
}

/// What `drift::compare` reports, as the command line hands it to the
/// library.
fn drift_report(blessed: &[u8], generated: &[u8]) -> Result<Vec<RawChange>, String> {
    let json = |b| serde_json::from_slice(b).map_err(|e: serde_json::Error| e.to_string());
    let changes = drift::compare(&json(blessed)?, &json(generated)?).map_err(|e| e.to_string())?;
    Ok(changes
        .into_iter()
        .map(|c| RawChange {
            old_paths: c.paths.iter().map(|p| p.old.iter().map(Into::into).collect()).collect(),
            old_base: c.paths[0].old.base_and_subpath().0.into(),
            new_base: c.paths[0].new.base_and_subpath().0.into(),
            infos: c.changes.into_iter().map(|i| (i.class as u8, i.message, i.old_subpath, i.new_subpath)).collect(),
        })
        .collect())
}

fn compare(blessed: &[u8], generated: &[u8]) -> CompatOutcome {
    let normalized = normalize_old_websocket_responses(blessed, generated);
    api_compatible(blessed, generated, drift_report(&normalized, generated))
}

fn issues(blessed: &str, generated: &str) -> Vec<ApiCompatIssue> {
    match compare(blessed.as_bytes(), generated.as_bytes()) {
        CompatOutcome::Issues(v) => v,
        CompatOutcome::CompareError(e) => panic!("api_compatible should not fail on well-formed input: {e}"),
    }
}

fn segments(path: &DocumentPath) -> Vec<&str> {
    path.segments.iter().map(|s| s.as_str()).collect()
}

const USERS_BLESSED: &str = r#"{
  "openapi": "3.0.3",
  "info": { "title": "T", "version": "1.0.0" },
  "paths": {
    "/users/{id}": {
      "get": {
        "operationId": "get_user",
        "parameters": [
          { "name": "id", "in": "path", "required": true, "schema": { "type": "string" } }
        ],
        "responses": { "200": { "description": "ok" } }
      }
    }
  },
  "components": { "schemas": {} }
}"#;

const USERS_GENERATED: &str = r#"{
  "openapi": "3.0.3",
  "info": { "title": "T", "version": "1.0.0" },
  "paths": {
    "/users/{id}": {
      "get": {
        "operationId": "get_user",
        "parameters": [
          { "name": "id", "in": "path", "required": true, "schema": { "type": "string" } },
          { "name": "token", "in": "query", "required": true, "schema": { "type": "string" } }
        ],
        "responses": { "200": { "description": "ok" } }
      }
    }
  },
  "components": { "schemas": {} }
}"#;

fn wrapper_doc(a_type: &str, b_type: &str) -> String {
    format!(
        r##"{{
  "openapi": "3.0.3",
  "info": {{ "title": "T", "version": "1.0.0" }},
  "paths": {{
    "/hello/{{name}}": {{
      "get": {{
        "operationId": "hello",
        "parameters": [
          {{ "name": "name", "in": "path", "required": true, "schema": {{ "type": "string" }} }}
        ],
        "responses": {{
          "200": {{
            "description": "ok",
            "content": {{ "application/json": {{ "schema": {{ "$ref": "#/components/schemas/Wrapper" }} }} }}
          }}
        }}
      }}
    }}
  }},
  "components": {{
    "schemas": {{
      "Wrapper": {{
        "type": "object",
        "properties": {{ "a": {{ "type": "{a_type}" }}, "b": {{ "type": "{b_type}" }} }},
        "required": ["a", "b"]
      }}
    }}
  }}
}}"##
    )
}

/// An endpoint-level change (a new required parameter) reaches no schema
/// component, so the rendered output has no reference tree.
#[test]
fn test_render_endpoint_only_change() {
    let found = issues(USERS_BLESSED, USERS_GENERATED);
    assert_eq!(found.len(), 1);
    let issue = &found[0];
    match &issue.blessed_base {
        DocumentBasePath::Endpoint { name, operation_id } => {
            assert_eq!(segments(name), vec!["paths", "/users/{id}", "get"]);
            assert_eq!(operation_id.as_deref(), Some("get_user"));
        }
        other => panic!("expected an endpoint base, found {other:?}"),
    }
    assert!(issue.tree.children.is_empty());
    assert!(!issue.changes.is_empty());
    assert!(issue.changes.iter().all(|c| c.class != ChangeClass::Trivial));
    let text = plain(&render_issue(issue, None, None));
    assert!(!text.contains("used by"), "unexpected tree in:\n{text}");
    assert!(issue.blessed_value.as_deref().unwrap().contains("\"get\""));
}

/// Multiple non-trivial changes within the same component form one issue
/// whose changes are sorted and distinct, reached from the one endpoint.
#[test]
fn test_render_multiple_changes_in_one_component() {
    let found = issues(&wrapper_doc("string", "integer"), &wrapper_doc("integer", "string"));
    assert_eq!(found.len(), 1);
    let issue = &found[0];
    match &issue.blessed_base {
        DocumentBasePath::Component(p) => assert_eq!(segments(p), vec!["components", "schemas", "Wrapper"]),
        other => panic!("expected a component base, found {other:?}"),
    }
    assert_eq!(issue.changes.len(), 2);
    assert_ne!(issue.changes[0], issue.changes[1]);
    let mut fields: Vec<&str> = issue.changes.iter().map(|c| c.old_subpath.segments[1].as_str()).collect();
    fields.sort();
    assert_eq!(fields, vec!["a", "b"]);
    assert_eq!(issue.tree.children.len(), 1);
    let text = plain(&render_issue(issue, None, None));
    assert!(text.contains("used by"), "expected the tree in:\n{text}");
    assert!(issue.blessed_value.as_deref().unwrap().starts_with("{\n  \"Wrapper\": {"));
}

#[test]
fn identical_documents_have_no_issues() {
    assert!(issues(USERS_BLESSED, USERS_BLESSED).is_empty());
}

#[test]
fn unparseable_document_is_a_compare_error() {
    match compare(b"not json", USERS_GENERATED.as_bytes()) {
        CompatOutcome::CompareError(e) => assert!(!e.is_empty()),
        CompatOutcome::Issues(_) => panic!("expected an error"),
    }
}

#[test]
fn operation_ids_are_keyed_by_endpoint_base() {
    let ops = extract_operation_ids(USERS_BLESSED.as_bytes());
    let base = DocumentPath::parse("#/paths/~1users~1{id}/get");
    assert_eq!(ops.get(&base).as_deref(), Some("get_user"));
    assert_eq!(ops.get(&DocumentPath::parse("#/paths/~1users~1{id}/post")), None);
}

fn ws_doc(responses: &str) -> String {
    format!(
        r#"{{"openapi":"3.0.3","info":{{"title":"T","version":"1.0.0"}},"paths":{{"/ws":{{"get":{{"operationId":"ws","x-dropshot-websocket":{{}},"responses":{responses}}}}}}}}}"#
    )
}

const OLD_RESPONSES: &str = r#"{"default":{"description":"","content":{"*/*":{"schema":{}}}}}"#;
const NEW_RESPONSES: &str = r##"{"101":{"description":"Negotiating protocol upgrade from HTTP/1.1 to WebSocket"},"4XX":{"$ref":"#/components/responses/Error"},"5XX":{"$ref":"#/components/responses/Error"}}"##;

#[test]
fn old_websocket_responses_are_rewritten_when_generated_uses_new_format() {
    let blessed = ws_doc(OLD_RESPONSES);
    let generated = ws_doc(NEW_RESPONSES);
    let out = normalize_old_websocket_responses(blessed.as_bytes(), generated.as_bytes());
    let out: serde_json::Value = serde_json::from_slice(&out).unwrap();
    let expected: serde_json::Value = serde_json::from_str(&generated).unwrap();
    assert_eq!(out, expected);
}

#[test]
fn websocket_responses_are_kept_when_generated_differs() {
    let blessed = ws_doc(OLD_RESPONSES);
    let generated = ws_doc(r#"{"200":{"description":"ok"}}"#);
    let out = normalize_old_websocket_responses(blessed.as_bytes(), generated.as_bytes());
    assert_eq!(out, blessed.as_bytes());
}

fn value(text: &str) -> serde_json::Value {
    serde_json::from_str(text).unwrap()
}

fn normalized(blessed: &serde_json::Value, generated: &serde_json::Value) -> serde_json::Value {
    let b = serde_json::to_vec(blessed).unwrap();
    let g = serde_json::to_vec(generated).unwrap();
    serde_json::from_slice(&normalize_old_websocket_responses(&b, &g)).unwrap()
}

const OLD_WS_OP: &str = r#"{
  "operationId": "subscribe",
  "responses": { "default": { "description": "", "content": { "*/*": { "schema": {} } } } },
  "x-dropshot-websocket": {}
}"#;

const NEW_WS_OP: &str = r##"{
  "operationId": "subscribe",
  "responses": {
    "101": { "description": "Negotiating protocol upgrade from HTTP/1.1 to WebSocket" },
    "4XX": { "$ref": "#/components/responses/Error" },
    "5XX": { "$ref": "#/components/responses/Error" }
  },
  "x-dropshot-websocket": {}
}"##;

const HEALTH_OP: &str = r#"{ "operationId": "health_check", "responses": { "200": { "description": "OK" } } }"#;

fn normalize_old_websocket_responses_case() {
    let blessed = value(&format!(r#"{{"paths": {{"/subscribe": {{"get": {OLD_WS_OP}}}, "/health": {{"get": {HEALTH_OP}}}}}}}"#));
    let generated = value(&format!(r#"{{"paths": {{"/subscribe": {{"get": {NEW_WS_OP}}}, "/health": {{"get": {HEALTH_OP}}}}}}}"#));
    let out = normalized(&blessed, &generated);
    assert_eq!(
        out.pointer("/paths/~1subscribe/get/responses"),
        generated.pointer("/paths/~1subscribe/get/responses"),
        "websocket responses should be normalized to new format",
    );
    assert_eq!(
        out.pointer("/paths/~1health/get/responses"),
        blessed.pointer("/paths/~1health/get/responses"),
        "non-websocket responses should not be modified",
    );
}

#[test]
fn compatibility_test_normalize_old_websocket_responses() {
    normalize_old_websocket_responses_case();
}

#[test]
fn detect_test_normalize_old_websocket_responses() {
    normalize_old_websocket_responses_case();
}

fn normalize_already_new_format_is_noop_case() {
    let spec = value(
        r##"{"paths": {"/subscribe": {"get": {
            "operationId": "subscribe",
            "responses": {
                "101": { "description": "Negotiating protocol upgrade" },
                "4XX": { "$ref": "#/components/responses/Error" },
                "5XX": { "$ref": "#/components/responses/Error" }
            },
            "x-dropshot-websocket": {}
        }}}}"##,
    );
    assert_eq!(normalized(&spec, &spec), spec);
}

#[test]
fn compatibility_test_normalize_already_new_format_is_noop() {
    normalize_already_new_format_is_noop_case();
}

#[test]
fn detect_test_normalize_already_new_format_is_noop() {
    normalize_already_new_format_is_noop_case();
}

fn normalize_no_websocket_endpoints_is_noop_case() {
    let spec = value(r#"{"paths": {"/health": {"get": {"operationId": "health", "responses": {"200": {"description": "OK"}}}}}}"#);
    assert_eq!(normalized(&spec, &spec), spec);
}

#[test]
fn compatibility_test_normalize_no_websocket_endpoints_is_noop() {
    normalize_no_websocket_endpoints_is_noop_case();
}

#[test]
fn detect_test_normalize_no_websocket_endpoints_is_noop() {
    normalize_no_websocket_endpoints_is_noop_case();
}

fn normalize_missing_generated_path_case() {
    let blessed = value(&format!(r#"{{"paths": {{"/subscribe": {{"get": {OLD_WS_OP}}}}}}}"#));
    let generated = value(r#"{"paths": {}}"#);
    assert_eq!(normalized(&blessed, &generated), blessed);
}

#[test]
fn compatibility_test_normalize_missing_generated_path_leaves_blessed_unchanged() {
    normalize_missing_generated_path_case();
}

#[test]
fn detect_test_normalize_missing_generated_path_leaves_blessed_unchanged() {
    normalize_missing_generated_path_case();
}

const ERROR_COMPONENTS: &str = r##"{
  "responses": {
    "Error": {
      "description": "Error",
      "content": { "application/json": { "schema": { "$ref": "#/components/schemas/Error" } } }
    }
  },
  "schemas": {
    "Error": {
      "description": "Error information from a response.",
      "type": "object",
      "properties": { "message": { "type": "string" }, "request_id": { "type": "string" } },
      "required": ["message", "request_id"]
    }
  }
}"##;

fn ws_document(op: &str) -> String {
    format!(
        r#"{{"openapi": "3.0.3", "info": {{"title": "Test", "version": "1.0.0"}}, "paths": {{"/subscribe": {{"get": {op}}}}}, "components": {ERROR_COMPONENTS}}}"#
    )
}

fn api_compatible_old_ws_format_case() {
    let found = issues(&ws_document(OLD_WS_OP), &ws_document(NEW_WS_OP));
    assert!(found.is_empty(), "old ws format should be compatible after normalization, but got: {found:?}");
}

#[test]
fn compatibility_test_api_compatible_old_ws_format() {
    api_compatible_old_ws_format_case();
}

#[test]
fn detect_test_api_compatible_old_ws_format() {
    api_compatible_old_ws_format_case();
}

#[test]
fn test_normalize_ws_to_http_still_detects_incompatibility() {
    let http_op = r##"{
      "operationId": "subscribe",
      "responses": {
        "200": { "description": "OK", "content": { "application/json": { "schema": { "type": "string" } } } },
        "4XX": { "$ref": "#/components/responses/Error" },
        "5XX": { "$ref": "#/components/responses/Error" }
      }
    }"##;
    let found = issues(&ws_document(OLD_WS_OP), &ws_document(http_op));
    assert!(!found.is_empty(), "websocket-to-HTTP change should be detected as incompatible");
}
