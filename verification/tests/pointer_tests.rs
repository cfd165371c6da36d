use dropshot_api_manager::pointer::{
    change_class_str, escape_json_pointer, is_non_trivial, json_pointer_to_jq,
    unescape_pointer_component, ApiCompatPointer, ChangeClass,
};

#[test]
fn test_best_pointer() {
    let cases = vec![
        // Same pointers.
        (
            "#/paths/~1users/get",
            "#/paths/~1users/get",
            ApiCompatPointer::Same("#/paths/~1users/get".to_string()),
        ),
        // Blessed pointer is child of generated pointer.
        (
            "#/paths/~1users/get/responses",
            "#/paths/~1users/get",
            ApiCompatPointer::Blessed("#/paths/~1users/get/responses".to_string()),
        ),
        (
            "#/paths/~1users/get/responses/200",
            "#/paths/~1users/get",
            ApiCompatPointer::Blessed("#/paths/~1users/get/responses/200".to_string()),
        ),
        // Generated pointer is child of blessed pointer.
        (
            "#/paths/~1users/get",
            "#/paths/~1users/get/responses",
            ApiCompatPointer::Generated("#/paths/~1users/get/responses".to_string()),
        ),
        (
            "#/paths/~1users/get",
            "#/paths/~1users/get/responses/200/content",
            ApiCompatPointer::Generated(
                "#/paths/~1users/get/responses/200/content".to_string(),
            ),
        ),
        // Neither is parent of the other (rename case).
        (
            "#/paths/~1users/get",
            "#/paths/~1accounts/get",
            ApiCompatPointer::Rename {
                blessed_pointer: "#/paths/~1users/get".to_string(),
                generated_pointer: "#/paths/~1accounts/get".to_string(),
            },
        ),
        (
            "#/paths/~1users/post/requestBody",
            "#/paths/~1users/put/requestBody",
            ApiCompatPointer::Rename {
                blessed_pointer: "#/paths/~1users/post/requestBody".to_string(),
                generated_pointer: "#/paths/~1users/put/requestBody".to_string(),
            },
        ),
        // Edge case: similar paths but not parent-child.
        (
            "#/paths/~1user",
            "#/paths/~1users",
            ApiCompatPointer::Rename {
                blessed_pointer: "#/paths/~1user".to_string(),
                generated_pointer: "#/paths/~1users".to_string(),
            },
        ),
    ];

    for (blessed_pointer, generated_pointer, expected) in cases {
        let actual = ApiCompatPointer::best_pointer(blessed_pointer, generated_pointer);
        assert_eq!(actual, expected);
    }
}

#[test]
fn test_json_pointer_to_jq() {
    let cases = vec![
        // Basic path with no escapes.
        ("#/paths/users", ".paths.users"),
        // Path with tilde escape.
        ("#/paths/~0users", r#".paths."~users""#),
        // Path with slash escape.
        ("#/paths/~1users", r#".paths."/users""#),
        // Path with both escapes.
        ("#/paths/~0users~1get", r#".paths."~users/get""#),
        // Complex path with multiple segments.
        (
            "#/paths/~1users/get/responses/200",
            r#".paths."/users".get.responses.200"#,
        ),
        // Path without leading #.
        ("/paths/users", ".paths.users"),
        // Empty path.
        ("", "."),
        // Just #.
        ("#", "."),
        // Path with multiple slashes to escape.
        ("#/paths/~1api~1v1~1users", r#".paths."/api/v1/users""#),
        // Path with mixed escapes.
        (
            "#/components/schemas/User~0Name~1Field",
            r#".components.schemas."User~Name/Field""#,
        ),
    ];

    for (input, expected) in cases {
        assert_eq!(json_pointer_to_jq(input), expected, "for input: {input}");
    }
}

#[test]
fn escape_then_unescape_gives_back_the_component() {
    for s in ["plain", "a/b", "~x", "~1/~0", "", "/~/~/"] {
        let escaped = escape_json_pointer(s);
        assert_eq!(unescape_pointer_component(&escaped), s);
    }
    assert_eq!(escape_json_pointer("a~b/c"), "a~0b~1c");
}

#[test]
fn unescape_decodes_slash_before_tilde() {
    // "~01" is "~0" followed by "1": it decodes to "~1", not "/".
    assert_eq!(unescape_pointer_component("~01"), "~1");
    assert_eq!(unescape_pointer_component("a~1b"), "a/b");
}

#[test]
fn change_class_prefixes() {
    assert_eq!(change_class_str(&ChangeClass::BackwardIncompatible), "backward-incompatible ");
    assert_eq!(change_class_str(&ChangeClass::ForwardIncompatible), "forward-incompatible ");
    assert_eq!(change_class_str(&ChangeClass::Incompatible), "incompatible ");
    assert_eq!(change_class_str(&ChangeClass::Unhandled), "");
    assert_eq!(change_class_str(&ChangeClass::Trivial), "trivial ");
    assert!(is_non_trivial(ChangeClass::Unhandled));
    assert!(!is_non_trivial(ChangeClass::Trivial));
}
