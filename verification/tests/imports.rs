use css_in_js_parser::{ImportKind, ImportType};

#[test]
fn test_encode_module_import() {
    // Create an ImportKind instance to test with
    let import_kind = ImportKind::Named {
        external_name: "breakpoints".to_string(),
        import_source: "./styles/media".to_string(),
    };

    let selector = import_kind.encode_module_import(
        ImportType::Selector,
        vec![
            "breakpoints".to_string(),
            "<xs".to_string(),
            "min".to_string(),
        ],
    );

    assert_eq!(
        selector,
        "--yak-css-import: url(\"./styles/media:breakpoints:%3Cxs:min\",selector)"
    );
}

#[test]
fn test_encode_module_import_single_item_chain() {
    // Create an ImportKind instance to test with
    let import_kind = ImportKind::Named {
        external_name: "breakpoints".to_string(),
        import_source: "./styles/media".to_string(),
    };

    let selector =
        import_kind.encode_module_import(ImportType::Selector, vec!["breakpoints".to_string()]);

    assert_eq!(
        selector,
        "--yak-css-import: url(\"./styles/media:breakpoints\",selector)"
    );
}

#[test]
fn test_encode_module_import_special_characters() {
    // Create an ImportKind instance to test with
    let import_kind = ImportKind::Named {
        external_name: "breakpoints".to_string(),
        import_source: "./styles/media".to_string(),
    };

    let selector = import_kind.encode_module_import(
        ImportType::Selector,
        vec!["breakpoints".to_string(), "xs".to_string()],
    );

    assert_eq!(
        selector,
        "--yak-css-import: url(\"./styles/media:breakpoints:xs\",selector)"
    );
}

#[test]
fn test_encode_module_import_special_characters_encoded() {
    // Create an ImportKind instance to test with
    let import_kind = ImportKind::Named {
        external_name: "breakpoints".to_string(),
        import_source: "./styles/media".to_string(),
    };

    let selector = import_kind.encode_module_import(
        ImportType::Selector,
        vec!["breakpoints".to_string(), "<:\">".to_string()],
    );

    assert_eq!(
        selector,
        "--yak-css-import: url(\"./styles/media:breakpoints:%3C%3A%22%3E\",selector)"
    );
}

#[test]
fn test_import_kind_methods() {
    // Test Default import
    let default_import = ImportKind::Default {
        import_source: "./default-module".to_string(),
    };

    assert_eq!(default_import.external_name().unwrap().as_str(), "default");
    assert_eq!(default_import.import_source().as_str(), "./default-module");

    // Test Named import
    let named_import = ImportKind::Named {
        external_name: "externalName".to_string(),
        import_source: "./named-module".to_string(),
    };

    assert_eq!(
        named_import.external_name().unwrap().as_str(),
        "externalName"
    );
    assert_eq!(named_import.import_source().as_str(), "./named-module");

    // Test Namespace import
    let namespace_import = ImportKind::Namespace {
        import_source: "./namespace-module".to_string(),
    };

    assert_eq!(namespace_import.external_name(), None);
    assert_eq!(
        namespace_import.import_source().as_str(),
        "./namespace-module"
    );
}

#[test]
fn test_encode_module_import_with_mixin() {
    // Create an ImportKind instance to test with
    let import_kind = ImportKind::Named {
        external_name: "mixin".to_string(),
        import_source: "./styles/mixins".to_string(),
    };

    let mixin = import_kind.encode_module_import(
        ImportType::Mixin,
        vec![
            "mixin".to_string(),
            "rotate".to_string(),
            "90deg".to_string(),
        ],
    );

    assert_eq!(
        mixin,
        "--yak-css-import: url(\"./styles/mixins:mixin:rotate:90deg\",mixin)"
    );
}

#[test]
fn test_encode_module_import_with_namespace() {
    // Create a namespace ImportKind
    let import_kind = ImportKind::Namespace {
        import_source: "./utils-module".to_string(),
    };

    let selector = import_kind.encode_module_import(
        ImportType::Selector,
        vec![
            "utils".to_string(),
            "styles".to_string(),
            "button".to_string(),
        ],
    );

    assert_eq!(
        selector,
        "--yak-css-import: url(\"./utils-module:styles:button\",selector)"
    );
}

#[test]
fn test_encode_percent_changes_input() {
    // A wrapper that handed its argument back unchanged would fail here.
    assert_eq!(
        css_in_js_parser::encode_percent("foo bar"),
        "foo%20bar".to_string()
    );
    assert_eq!(css_in_js_parser::encode_percent("a~b"), "a%7Eb".to_string());
    // Non-ASCII characters are encoded bytewise (UTF-8).
    assert_eq!(
        css_in_js_parser::encode_percent("\u{e9}"),
        "%C3%A9".to_string()
    );
    assert_eq!(css_in_js_parser::encode_percent(""), "".to_string());
}
