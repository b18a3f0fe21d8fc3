use css_in_js_parser::{parse_css, to_css, CssScope, ScopeType};

#[test]
fn test_parse_css_incomplete_css_1() {
    let (_, declarations) = parse_css(
        r#"
            .foo {
                    .fancy {
                            /* hello .world { color: red; } */
                            color: blue;
        "#,
        None,
    );
    assert_eq!(
        to_css(&declarations),
        "\n.foo {\n  .fancy {\n    color: blue;\n  }\n}"
    );
}

#[test]
fn test_parse_css_combine_two_independent_css_chunks() {
    let (_, declarations1) = parse_css(
        r#"
            .foo {
                    .fancy {
                            /* hello .world { color: red; } */
                            color: blue;
        "#,
        None,
    );
    let (_, declarations2) = parse_css(
        r#"
          .foo {
                  .fancy {
                          /* hello .world { color: red; } */
                          background: red;
      "#,
        None,
    );
    let combined_declarations: Vec<_> = declarations1.into_iter().chain(declarations2).collect();
    assert_eq!(
        to_css(&combined_declarations),
        "\n.foo {\n  .fancy {\n    color: blue;\n    background: red;\n  }\n}"
    );
}

#[test]
fn test_parse_css_merge_two_css_chunks() {
    let (state1, declarations1) = parse_css(
        r#"
      .foo {
              .fancy {
                      /* hello .world { color: red; } */
                      color: blue;
    "#,
        None,
    );
    let (_, declarations2) = parse_css(
        r#"
      }
        &:hover {
          color: orange;
    "#,
        Some(state1),
    );
    let combined_declarations: Vec<_> = declarations1.into_iter().chain(declarations2).collect();
    assert_eq!(
        to_css(&combined_declarations),
        r#"
.foo {
  .fancy {
    color: blue;
  }
  &:hover {
    color: orange;
  }
}"#
    );
}

#[test]
fn test_parse_css_merge_two_css_chunks2() {
    let (state1, declarations1) = parse_css(
        r#"
      .foo
    "#,
        None,
    );
    let (_, declarations2) = parse_css(
        r#"
        {
          color: orange;
    "#,
        Some(state1),
    );
    let combined_declarations: Vec<_> = declarations1.into_iter().chain(declarations2).collect();
    assert_eq!(
        to_css(&combined_declarations),
        r#"
.foo {
  color: orange;
}"#
    );
}

#[test]
fn test_parse_css_merge_two_css_chunks_and_inject_a_scope() {
    let (state1, declarations1) = parse_css(
        r#"
      .foo {
              .fancy {
                      /* hello .world { color: red; } */
                      color: blue;
    "#,
        None,
    );
    let (_, mut declarations2) = parse_css(
        r#"
      }
        &:hover {
          color: orange;
    "#,
        Some(state1),
    );
    declarations2[0].scope.insert(
        0,
        CssScope {
            name: ".isActive".to_string(),
            scope_type: ScopeType::Selector,
        },
    );
    let combined_declarations: Vec<_> = declarations1.into_iter().chain(declarations2).collect();
    assert_eq!(
        to_css(&combined_declarations),
        "\n.foo {\n  .fancy {\n    color: blue;\n  }\n}\n.isActive {\n  .foo {\n    &:hover {\n      color: orange;\n    }\n  }\n}"
    );
}

#[test]
fn test_handles_escapes_correctly() {
    let (_, declarations) = parse_css(
        r#"
            .foo {
              content: "line1\\\nline2";
            }
        "#,
        None,
    );
    assert_eq!(
        to_css(&declarations),
        "\n.foo {\n  content: \"line1\\\\\\nline2\";\n}"
    );
}

#[test]
fn test_parse_css_merge_two_css_with_comments() {
    let (state1, declarations1) = parse_css(
        r#"
        .foo {
        /* comment
      "#,
        None,
    );
    let (_, declarations2) = parse_css(
        r#"
          bar {*/
            color: orange;
      "#,
        Some(state1),
    );
    let combined_declarations: Vec<_> = declarations1.into_iter().chain(declarations2).collect();
    assert_eq!(
        to_css(&combined_declarations),
        r#"
.foo {
  color: orange;
}"#
    );
}

#[test]
fn test_property_at_rule_hoisting() {
    // Initial CSS with @property nested inside selectors (invalid CSS)
    let (_, declarations) = parse_css(
        r#"
        .foo {
            .fancy {
              @property --angle {
                  syntax: '<angle>';
                  inherits: true;
                  initial-value: 0turn;
                  }
              }
            &:hover {
                color: orange;
            }
        }
        "#,
        None,
    );
    // The result should show @property at the top level, not nested inside selectors
    assert_eq!(
        to_css(&declarations),
        r#"
@property --angle {
  syntax: '<angle>';
  inherits: true;
  initial-value: 0turn;
}

.foo {
  &:hover {
    color: orange;
  }
}"#
    );
}
