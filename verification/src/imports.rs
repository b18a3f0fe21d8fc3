//! Cross-module selector and mixin imports.
//!
//! A reference to a selector or mixin that lives in another module is
//! written into the generated CSS as a special `--yak-css-import: url(...)`
//! declaration, so that a later build step can resolve it. The module path
//! and the imported property chain are percent-encoded to survive CSS
//! tokenization.

use vstd::prelude::*;

use crate::text::join_char;

verus! {

use vstd::string::StringExecFns;
use vstd::utf8::encode_utf8;

/// How an imported name is going to be used: as a selector reference or as
/// a mixin. The hint lets the resolving step report misuse.
#[derive(Clone, Copy, Debug, PartialEq, Eq, Structural)]
pub enum ImportType {
    Selector,
    Mixin,
}

/// The shape of the import that brought a name into scope.
#[derive(Debug)]
pub enum ImportKind {
    Default { import_source: String },
    Named { external_name: String, import_source: String },
    Namespace { import_source: String },
}

/// The mathematical value of an [`ImportKind`].
#[verifier::ext_equal]
pub enum SpecImportKind {
    Default { import_source: Seq<char> },
    Named { external_name: Seq<char>, import_source: Seq<char> },
    Namespace { import_source: Seq<char> },
}

impl View for ImportKind {
    type V = SpecImportKind;

    open spec fn view(&self) -> SpecImportKind {
        match self {
            ImportKind::Default { import_source } => SpecImportKind::Default {
                import_source: import_source@,
            },
            ImportKind::Named { external_name, import_source } => SpecImportKind::Named {
                external_name: external_name@,
                import_source: import_source@,
            },
            ImportKind::Namespace { import_source } => SpecImportKind::Namespace {
                import_source: import_source@,
            },
        }
    }
}

/// `b` is an ASCII letter or digit.
pub open spec fn is_ascii_alnum_byte(b: u8) -> bool {
    (48 <= b && b <= 57) || (65 <= b && b <= 90) || (97 <= b && b <= 122)
}

/// The uppercase hex digit for a value below 16.
pub open spec fn hex_char(n: u8) -> char {
    if n < 10 {
        ((n + 48) as u8) as char
    } else {
        ((n + 55) as u8) as char
    }
}

/// The percent-encoding of one byte: letters and digits pass through,
/// everything else becomes `%` and two uppercase hex digits.
pub open spec fn percent_encoded_byte(b: u8) -> Seq<char> {
    if is_ascii_alnum_byte(b) {
        seq![b as char]
    } else {
        seq!['%', hex_char(b / 16), hex_char(b % 16)]
    }
}

/// The percent-encoding of a byte sequence.
pub open spec fn percent_encoded_bytes(bs: Seq<u8>) -> Seq<char>
    decreases bs.len(),
{
    if bs.len() == 0 {
        Seq::empty()
    } else {
        percent_encoded_byte(bs[0]) + percent_encoded_bytes(bs.skip(1))
    }
}

/// The percent-encoding of a string: its UTF-8 bytes, each encoded.
pub open spec fn percent_encoded(s: Seq<char>) -> Seq<char> {
    percent_encoded_bytes(encode_utf8(s))
}

/// Encodes a string for use inside a URL, e.g. `foo bar` to `foo%20bar`.
///
/// Relies on `percent_encoding::utf8_percent_encode` with the
/// `NON_ALPHANUMERIC` set: every UTF-8 byte that is not an ASCII letter or
/// digit is replaced by `%` and two uppercase hex digits; ASCII letters and
/// digits pass through unchanged.
#[verifier::external_body]
pub fn encode_percent(input: &str) -> (r: String)
    ensures
        r@ == percent_encoded(input@),
{
    percent_encoding::utf8_percent_encode(input, percent_encoding::NON_ALPHANUMERIC).to_string()
}

/// The exported name that the import binds, if it has one: `default` for a
/// default import, the external name for a named import, nothing for a
/// namespace import.
pub open spec fn spec_external_name(k: SpecImportKind) -> Option<Seq<char>> {
    match k {
        SpecImportKind::Default { .. } => Some("default"@),
        SpecImportKind::Named { external_name, .. } => Some(external_name),
        SpecImportKind::Namespace { .. } => None,
    }
}

/// The module path the import came from.
pub open spec fn spec_import_source(k: SpecImportKind) -> Seq<char> {
    match k {
        SpecImportKind::Default { import_source } => import_source,
        SpecImportKind::Named { import_source, .. } => import_source,
        SpecImportKind::Namespace { import_source } => import_source,
    }
}

/// The percent-encoded segments after the module path: the exported name
/// (omitted for a namespace import, whose local name only matters inside
/// this module), then every part of the property chain past the first (the
/// first part is the local variable name itself).
pub open spec fn spec_encoded_parts(k: SpecImportKind, chain: Seq<Seq<char>>) -> Seq<Seq<char>> {
    let first: Seq<Seq<char>> = match k {
        SpecImportKind::Namespace { .. } => Seq::empty(),
        _ => seq![percent_encoded(spec_external_name(k).unwrap())],
    };
    first + if chain.len() > 1 {
        chain.skip(1).map_values(|p: Seq<char>| percent_encoded(p))
    } else {
        Seq::empty()
    }
}

/// The full import declaration text.
pub open spec fn spec_encode_module_import(
    k: SpecImportKind,
    import_type: ImportType,
    chain: Seq<Seq<char>>,
) -> Seq<char> {
    "--yak-css-import: url(\""@ + spec_import_source(k) + seq![':'] + join_char(
        spec_encoded_parts(k, chain),
        ':',
    ) + "\","@ + (if import_type == ImportType::Selector {
        "selector"@
    } else {
        "mixin"@
    }) + seq![')']
}

/// The views of a list of strings.
pub open spec fn string_views(s: Seq<String>) -> Seq<Seq<char>> {
    s.map_values(|p: String| p@)
}

/// The view of an optional string.
pub open spec fn opt_string_view(o: Option<String>) -> Option<Seq<char>> {
    match o {
        Some(s) => Some(s@),
        None => None,
    }
}

impl ImportKind {
    /// The exported name that the import binds, if it has one.
    pub fn external_name(&self) -> (r: Option<String>)
        ensures
            opt_string_view(r) == spec_external_name(self@),
    {
        match self {
            ImportKind::Default { .. } => Some(String::from_str("default")),
            ImportKind::Named { external_name, .. } => Some(external_name.clone()),
            ImportKind::Namespace { .. } => None,
        }
    }

    /// The module path the import came from.
    pub fn import_source(&self) -> (r: String)
        ensures
            r@ == spec_import_source(self@),
    {
        match self {
            ImportKind::Default { import_source } => import_source.clone(),
            ImportKind::Named { import_source, .. } => import_source.clone(),
            ImportKind::Namespace { import_source } => import_source.clone(),
        }
    }

    /// Generates the special CSS declaration that stands for an import from
    /// another module, e.g.
    /// `--yak-css-import: url("./styles/media:breakpoints:%3Cxs:min",selector)`.
    /// `import_chain` is the member chain of the imported property,
    /// beginning with the local variable name.
    pub fn encode_module_import(&self, import_type: ImportType, import_chain: Vec<String>) -> (r:
        String)
        ensures
            r@ == spec_encode_module_import(self@, import_type, string_views(import_chain@)),
    {
        let first_entry: Option<String> = match self {
            ImportKind::Namespace { .. } => None,
            _ => self.external_name(),
        };

        let mut encoded_parts: Vec<String> = Vec::new();
        match first_entry {
            Some(entry) => {
                encoded_parts.push(encode_percent(entry.as_str()));
            },
            None => {},
        }
        let ghost first_views = string_views(encoded_parts@);

        let chain_len = import_chain.len();
        if chain_len > 1 {
            let mut i: usize = 1;
            while i < chain_len
                invariant
                    1 <= i <= chain_len,
                    chain_len == import_chain@.len(),
                    string_views(encoded_parts@) == first_views + import_chain@.subrange(
                        1,
                        i as int,
                    ).map_values(|p: String| percent_encoded(p@)),
                decreases chain_len - i,
            {
                let ghost old_parts = encoded_parts@;
                encoded_parts.push(encode_percent(import_chain[i].as_str()));
                proof {
                    let prev = import_chain@.subrange(1, i as int).map_values(
                        |p: String| percent_encoded(p@),
                    );
                    let next = import_chain@.subrange(1, i + 1).map_values(
                        |p: String| percent_encoded(p@),
                    );
                    assert(import_chain@.subrange(1, i + 1) =~= import_chain@.subrange(
                        1,
                        i as int,
                    ).push(import_chain@[i as int]));
                    assert(next =~= prev.push(percent_encoded(import_chain@[i as int]@)));
                    assert(string_views(encoded_parts@) =~= string_views(old_parts).push(
                        percent_encoded(import_chain@[i as int]@),
                    ));
                    assert(string_views(encoded_parts@) =~= first_views + next);
                }
                i = i + 1;
            }
        }
        proof {
            if chain_len > 1 {
                assert(import_chain@.subrange(1, chain_len as int).map_values(
                    |p: String| percent_encoded(p@),
                ) =~= string_views(import_chain@).skip(1).map_values(
                    |p: Seq<char>| percent_encoded(p),
                ));
            }
            assert(string_views(encoded_parts@) =~= spec_encoded_parts(
                self@,
                string_views(import_chain@),
            ));
        }

        let mut result = String::new();
        result.append("--yak-css-import: url(\"");
        let source = self.import_source();
        result.append(source.as_str());
        result.push(':');
        let ghost head = result@;

        let parts_len = encoded_parts.len();
        let mut j: usize = 0;
        while j < parts_len
            invariant
                j <= parts_len,
                parts_len == encoded_parts@.len(),
                result@ == head + join_char(string_views(encoded_parts@).take(j as int), ':'),
            decreases parts_len - j,
        {
            if j > 0 {
                result.push(':');
            }
            result.append(encoded_parts[j].as_str());
            proof {
                let views = string_views(encoded_parts@);
                crate::text::lemma_join_char_snoc(views.take(j as int), ':', views[j as int]);
                assert(views.take(j + 1) =~= views.take(j as int).push(views[j as int]));
                if j > 0 {
                    assert(result@ =~= head + join_char(views.take(j + 1), ':'));
                } else {
                    assert(views.take(0).len() == 0);
                    assert(result@ =~= head + join_char(views.take(j + 1), ':'));
                }
            }
            j = j + 1;
        }
        proof {
            assert(string_views(encoded_parts@).take(parts_len as int) =~= string_views(
                encoded_parts@,
            ));
        }

        result.append("\",");
        match import_type {
            ImportType::Selector => result.append("selector"),
            ImportType::Mixin => result.append("mixin"),
        }
        result.push(')');
        proof {
            assert(result@ =~= spec_encode_module_import(
                self@,
                import_type,
                string_views(import_chain@),
            ));
        }
        result
    }
}

} // verus!
