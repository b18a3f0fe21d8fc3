use css_in_js_parser::{import_source_type, is_yak_file, ImportSourceType, ScopedVariableReference,
    VariableId};

fn id(name: &str) -> VariableId {
    VariableId {
        name: name.to_string(),
        context: 0,
    }
}

#[test]
fn test_last_part_normal() {
    let i = ScopedVariableReference::new(id("f"), vec!["g".to_string(), "h".to_string()]);
    assert_eq!(i.last_part().as_str(), "h");
}

#[test]
fn test_last_part_zero_parts() {
    let i = ScopedVariableReference::new(id("f"), vec![]);
    assert_eq!(i.last_part().as_str(), "f");
}

#[test]
fn test_scoped_variable_reference_to_string() {
    let simple_ref = ScopedVariableReference::new(id("variable"), vec!["variable".to_string()]);
    assert_eq!(simple_ref.to_readable_string(), "variable");

    let complex_ref = ScopedVariableReference::new(
        id("obj"),
        vec![
            "obj".to_string(),
            "nested".to_string(),
            "deep".to_string(),
            "property".to_string(),
        ],
    );
    assert_eq!(complex_ref.to_readable_string(), "obj.nested.deep.property");
}

#[test]
fn test_import_source_type_classification() {
    assert_eq!(import_source_type("./theme"), ImportSourceType::Normal);
    assert_eq!(
        import_source_type("./constants.yak"),
        ImportSourceType::Yak
    );
    assert_eq!(
        import_source_type("./yak-module.yak.js"),
        ImportSourceType::Yak
    );
    assert_eq!(
        import_source_type("./yak-module.yak.mjs"),
        ImportSourceType::Yak
    );
    assert_eq!(
        import_source_type("./yak-module.yak.ts"),
        ImportSourceType::Normal
    );
}

#[test]
fn test_is_yak_file_extensions() {
    assert!(is_yak_file("page.yak.tsx"));
    assert!(is_yak_file("page.yak.jsx"));
    assert!(is_yak_file("page.yak.mjs"));
    assert!(is_yak_file("page.yak.ts"));
    assert!(is_yak_file("page.yak.js"));
    assert!(!is_yak_file("page.tsx"));
    assert!(!is_yak_file("page.yak.css"));
    // A name of fewer than eight characters holds no file name before the
    // extension.
    assert!(!is_yak_file(".yak.ts"));
    assert!(is_yak_file("a.yak.ts"));
}
