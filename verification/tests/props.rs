//! Tests for the stated library-wide properties on concrete values, plus
//! edge cases of the tokenizer.

use css_in_js_parser::{parse_css, to_css, CssScope, Declaration, ParserState, ScopeType};

/// Resumability on concrete values: every split of the text gives the same
/// declarations and the same serialized output as parsing it whole.
#[test]
fn test_resumability_every_split() {
    let text = ".foo { /* c{m*/ .fancy { color: \"bl;ue\"; } &:hover { b: c; } }";
    let (_, whole) = parse_css(text, None);
    let whole_css = to_css(&whole);
    for k in 0..=text.len() {
        if !text.is_char_boundary(k) {
            continue;
        }
        let (state1, mut first) = parse_css(&text[..k], None);
        let (_, second) = parse_css(&text[k..], Some(state1));
        first.extend(second);
        assert_eq!(first.len(), whole.len());
        assert_eq!(to_css(&first), whole_css);
    }
}

/// Round trip on concrete values: serializing, re-parsing as a single chunk
/// and serializing again yields identical output.
#[test]
fn test_round_trip_fixed_point() {
    let samples = [
        ".foo { color: blue; .fancy { margin: 0; } } .bar { x: y; }",
        "a { b: c; } @media print { d: e; }",
        ".foo { .fancy { @property --angle { syntax: z; } } &:hover { color: orange; } }",
    ];
    for sample in samples {
        let (_, declarations) = parse_css(sample, None);
        let css = to_css(&declarations);
        let (_, reparsed) = parse_css(&css, None);
        assert_eq!(to_css(&reparsed), css);
    }
}

/// An unmatched closing brace is absorbed: it never fails and later text is
/// still parsed.
#[test]
fn test_unmatched_closing_brace_is_noop() {
    let (state, declarations) = parse_css("} } .foo { color: red;", None);
    assert_eq!(declarations.len(), 1);
    assert_eq!(declarations[0].property, "color");
    assert_eq!(declarations[0].value, "red");
    assert_eq!(state.current_scopes.len(), 1);
    assert_eq!(to_css(&declarations), "\n.foo {\n  color: red;\n}");
}

/// A semicolon without a colon in the pending text emits nothing.
#[test]
fn test_semicolon_without_colon_emits_nothing() {
    let (_, declarations) = parse_css(".foo { stray ; color: red; }", None);
    assert_eq!(declarations.len(), 1);
    assert_eq!(declarations[0].property, "color");
}

/// An empty chunk changes nothing.
#[test]
fn test_empty_chunk() {
    let (state1, declarations1) = parse_css(".foo { a: b;", None);
    let (state2, declarations2) = parse_css("", Some(state1));
    assert_eq!(declarations2.len(), 0);
    assert_eq!(state2.current_scopes.len(), 1);
    let (_, declarations3) = parse_css(" c: d; }", Some(state2));
    let all: Vec<_> = declarations1
        .into_iter()
        .chain(declarations2)
        .chain(declarations3)
        .collect();
    assert_eq!(to_css(&all), "\n.foo {\n  a: b;\n  c: d;\n}");
}

/// A backslash outside strings escapes the next character, so an escaped
/// brace neither opens nor closes a scope.
#[test]
fn test_escaped_brace_outside_string() {
    let (state, declarations) = parse_css(".a\\{b { color: red; }", None);
    assert_eq!(declarations.len(), 1);
    assert_eq!(declarations[0].scope.len(), 1);
    assert_eq!(declarations[0].scope[0].name, ".a\\{b");
    assert_eq!(state.current_scopes.len(), 0);
}

/// A slash that does not begin a comment is ordinary value text, even when
/// the chunk ends right after it.
#[test]
fn test_slash_in_value_across_chunks() {
    let (state1, declarations1) = parse_css(".foo { font: 12px/", None);
    assert_eq!(declarations1.len(), 0);
    let (_, declarations2) = parse_css("1.5; }", Some(state1));
    assert_eq!(declarations2.len(), 1);
    assert_eq!(declarations2[0].property, "font");
    assert_eq!(declarations2[0].value, "12px/1.5");
}

/// A comment split right between `/` and `*`, and one split between `*` and
/// `/`, are both still comments.
#[test]
fn test_comment_markers_split_across_chunks() {
    let (state1, _) = parse_css(".foo { /", None);
    let (state2, _) = parse_css("* red { */ color: blue; }", Some(state1));
    let (_, declarations) = parse_css("", Some(state2));
    assert_eq!(declarations.len(), 0);

    let (state1, _) = parse_css(".foo { /* comment *", None);
    let (_, declarations2) = parse_css("/ color: blue; }", Some(state1));
    assert_eq!(declarations2.len(), 1);
    assert_eq!(declarations2[0].value, "blue");
}

/// The value of a declaration keeps quotes and escapes verbatim; characters
/// inside a string never affect scopes.
#[test]
fn test_string_contents_are_inert() {
    let (_, declarations) = parse_css(".foo { content: \"a{b}c;'d\"; }", None);
    assert_eq!(declarations.len(), 1);
    assert_eq!(declarations[0].value, "\"a{b}c;'d\"");
    assert_eq!(declarations[0].scope.len(), 1);
}

/// The first unquoted colon splits property and value; later colons belong
/// to the value.
#[test]
fn test_value_with_colons() {
    let (_, declarations) = parse_css("a { background: url(http://x); }", None);
    assert_eq!(declarations.len(), 1);
    assert_eq!(declarations[0].property, "background");
    assert_eq!(declarations[0].value, "url(http://x)");
}

/// A caller may rewrite the scope stack between chunks; the remaining
/// declarations are nested under the rewritten scope.
#[test]
fn test_state_scope_rewrite_between_chunks() {
    let (mut state, declarations1) = parse_css(".foo { color: blue;", None);
    assert_eq!(declarations1.len(), 1);
    state.current_scopes[0] = CssScope {
        name: ".wrapped".to_string(),
        scope_type: ScopeType::Selector,
    };
    let (_, declarations2) = parse_css(" margin: 0; }", Some(state));
    assert_eq!(declarations2[0].scope[0].name, ".wrapped");
    assert_eq!(declarations1[0].scope[0].name, ".foo");
}

/// Two equal `@property` blocks in a row stay one hoisted block; a scope
/// change closes and reopens.
#[test]
fn test_hoisted_block_grouping() {
    let declarations = vec![
        Declaration {
            property: "syntax".to_string(),
            value: "a".to_string(),
            closed: true,
            scope: vec![CssScope {
                name: "@property --x".to_string(),
                scope_type: ScopeType::AtRule,
            }],
        },
        Declaration {
            property: "inherits".to_string(),
            value: "true".to_string(),
            closed: true,
            scope: vec![CssScope {
                name: "@property --x".to_string(),
                scope_type: ScopeType::AtRule,
            }],
        },
        Declaration {
            property: "syntax".to_string(),
            value: "b".to_string(),
            closed: true,
            scope: vec![CssScope {
                name: "@property --y".to_string(),
                scope_type: ScopeType::AtRule,
            }],
        },
    ];
    assert_eq!(
        to_css(&declarations),
        "\n@property --x {\n  syntax: a;\n  inherits: true;\n}\n\n@property --y {\n  syntax: b;\n}\n"
    );
}

/// A `@media` at-rule is not hoisted: only `@property` blocks are.
#[test]
fn test_media_at_rule_not_hoisted() {
    let (_, declarations) = parse_css("@media print { color: red; }", None);
    assert_eq!(to_css(&declarations), "\n@media print {\n  color: red;\n}");
}

/// An entirely fresh state parses nothing and serializes to nothing.
#[test]
fn test_empty_everything() {
    let (state, declarations) = parse_css("", Some(ParserState::new()));
    assert_eq!(declarations.len(), 0);
    assert_eq!(state.current_scopes.len(), 0);
    assert_eq!(to_css(&declarations), "");
}
