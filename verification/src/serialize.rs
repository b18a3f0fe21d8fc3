//! The serializer: rebuilds nested, indented CSS text from a flat,
//! scope-annotated declaration list.
//!
//! Successive declarations share the longest common prefix of their scope
//! stacks; only the scopes beyond that prefix are closed and reopened.
//! Blocks that CSS forbids inside a selector (an at-rule whose name starts
//! with `@property`) are hoisted: their lines are collected in a separate
//! buffer that is emitted before everything else.
//!
//! The output is specified to the character by [`spec_to_css`].

use vstd::prelude::*;

use crate::model::{clone_scopes, scope_views, CssScope, Declaration, ScopeType, SpecDecl,
    SpecScope};
use crate::parse::decl_views;
use crate::text::{at_property_prefix, spec_starts_with, starts_with_at_property};

verus! {

use vstd::string::StringExecFns;

/// A scope that must not stay nested: an at-rule whose name starts with
/// `@property`.
pub open spec fn is_hoisted_scope(s: SpecScope) -> bool {
    s.scope_type == ScopeType::AtRule && spec_starts_with(s.name, at_property_prefix())
}

/// The first hoisted scope on a scope stack, if any.
pub open spec fn first_hoisted(scopes: Seq<SpecScope>) -> Option<SpecScope>
    decreases scopes.len(),
{
    if scopes.len() == 0 {
        None
    } else if is_hoisted_scope(scopes[0]) {
        Some(scopes[0])
    } else {
        first_hoisted(scopes.skip(1))
    }
}

/// Two spaces per nesting level.
pub open spec fn indent(level: nat) -> Seq<char> {
    Seq::new(2 * level, |i: int| ' ')
}

/// A `property: value;` line at the given nesting depth.
pub open spec fn decl_line(level: nat, property: Seq<char>, value: Seq<char>) -> Seq<char> {
    seq!['\n'] + indent(level) + property + seq![':', ' '] + value + seq![';']
}

/// A `name {` line opening a scope at the given depth.
pub open spec fn open_line(level: nat, name: Seq<char>) -> Seq<char> {
    seq!['\n'] + indent(level) + name + seq![' ', '{']
}

/// A `}` line closing a scope at the given depth.
pub open spec fn close_line(level: nat) -> Seq<char> {
    seq!['\n'] + indent(level) + seq!['}']
}

/// The opening line of a hoisted block; hoisted blocks always sit at the
/// top level.
pub open spec fn hoisted_open(name: Seq<char>) -> Seq<char> {
    seq!['\n'] + name + seq![' ', '{']
}

/// The closing of a hoisted block.
pub open spec fn hoisted_close() -> Seq<char> {
    seq!['\n', '}', '\n']
}

/// A `property: value;` line inside a hoisted block (one level deep).
pub open spec fn hoisted_decl_line(property: Seq<char>, value: Seq<char>) -> Seq<char> {
    seq!['\n', ' ', ' '] + property + seq![':', ' '] + value + seq![';']
}

/// The length of the longest common prefix of two scope stacks.
pub open spec fn common_prefix_len(a: Seq<SpecScope>, b: Seq<SpecScope>) -> nat
    decreases a.len(),
{
    if a.len() == 0 || b.len() == 0 || a[0] != b[0] {
        0
    } else {
        1 + common_prefix_len(a.skip(1), b.skip(1))
    }
}

/// [`common_prefix_len`] is the unique agreement point: every level below it
/// matches and the level at it (if both stacks reach it) differs.
pub proof fn lemma_common_prefix_len(a: Seq<SpecScope>, b: Seq<SpecScope>, k: int)
    requires
        0 <= k <= a.len(),
        k <= b.len(),
        forall|j: int| 0 <= j < k ==> a[j] == b[j],
        k < a.len() && k < b.len() ==> a[k] != b[k],
    ensures
        common_prefix_len(a, b) == k,
    decreases k,
{
    if k == 0 {
    } else {
        assert(a[0] == b[0]);
        lemma_common_prefix_len(a.skip(1), b.skip(1), k - 1);
    }
}

/// The close lines for the scopes at levels `hi - 1` down to `lo`,
/// innermost first.
pub open spec fn closes(hi: nat, lo: nat) -> Seq<char>
    decreases hi,
{
    if hi <= lo {
        Seq::empty()
    } else {
        close_line((hi - 1) as nat) + closes((hi - 1) as nat, lo)
    }
}

/// The open lines for the scopes of `scopes` from level `k` outward-in.
pub open spec fn opens(scopes: Seq<SpecScope>, k: nat) -> Seq<char>
    decreases scopes.len() - k,
{
    if k >= scopes.len() {
        Seq::empty()
    } else {
        open_line(k, scopes[k as int].name) + opens(scopes, (k + 1) as nat)
    }
}

/// The serializer's running state: the two output buffers, the scope stack
/// left open by the previous regular declaration, and the hoisted block left
/// open by the previous hoisted declaration.
#[verifier::ext_equal]
pub struct SerState {
    pub hoisted: Seq<char>,
    pub regular: Seq<char>,
    pub prev_scopes: Seq<SpecScope>,
    pub prev_hoisted: Option<SpecScope>,
}

/// The serializer's state before the first declaration.
pub open spec fn init_ser_state() -> SerState {
    SerState {
        hoisted: Seq::empty(),
        regular: Seq::empty(),
        prev_scopes: Seq::empty(),
        prev_hoisted: None,
    }
}

/// One declaration's effect on the serializer state.
pub open spec fn ser_step(st: SerState, d: SpecDecl) -> SerState {
    let h = first_hoisted(d.scope);
    let st1 = if st.prev_hoisted is Some && st.prev_hoisted != h {
        SerState { hoisted: st.hoisted + hoisted_close(), prev_hoisted: None, ..st }
    } else {
        st
    };
    match h {
        Some(hs) => {
            let st2 = if st1.prev_hoisted is None {
                SerState { hoisted: st1.hoisted + hoisted_open(hs.name), ..st1 }
            } else {
                st1
            };
            SerState {
                hoisted: st2.hoisted + hoisted_decl_line(d.property, d.value),
                prev_hoisted: Some(hs),
                ..st2
            }
        },
        None => {
            let k = common_prefix_len(st1.prev_scopes, d.scope);
            SerState {
                regular: st1.regular + closes(st1.prev_scopes.len(), k) + opens(d.scope, k)
                    + decl_line(d.scope.len(), d.property, d.value),
                prev_scopes: d.scope,
                ..st1
            }
        },
    }
}

/// Folds [`ser_step`] over a declaration list.
pub open spec fn ser_run(st: SerState, decls: Seq<SpecDecl>) -> SerState
    decreases decls.len(),
{
    if decls.len() == 0 {
        st
    } else {
        ser_run(ser_step(st, decls[0]), decls.skip(1))
    }
}

/// After the last declaration: close a still-open hoisted block, close every
/// still-open regular scope innermost first, and put the hoisted buffer
/// before the regular one.
pub open spec fn ser_finish(st: SerState) -> Seq<char> {
    (if st.prev_hoisted is Some {
        st.hoisted + hoisted_close()
    } else {
        st.hoisted
    }) + st.regular + closes(st.prev_scopes.len(), 0)
}

/// The complete serialized text of a declaration list.
pub open spec fn spec_to_css(decls: Seq<SpecDecl>) -> Seq<char> {
    ser_finish(ser_run(init_ser_state(), decls))
}

/// Folding one more declaration applies one more step.
pub proof fn lemma_ser_run_snoc(st: SerState, decls: Seq<SpecDecl>, d: SpecDecl)
    ensures
        ser_run(st, decls.push(d)) == ser_step(ser_run(st, decls), d),
    decreases decls.len(),
{
    if decls.len() == 0 {
        assert(decls.push(d)[0] == d);
        assert(decls.push(d).skip(1) =~= Seq::<SpecDecl>::empty());
        assert(ser_run(st, decls.push(d)) == ser_run(ser_step(st, d), decls.push(d).skip(1)));
        assert(ser_run(ser_step(st, d), Seq::<SpecDecl>::empty()) == ser_step(st, d));
    } else {
        assert(decls.push(d)[0] == decls[0]);
        assert(decls.push(d).skip(1) =~= decls.skip(1).push(d));
        assert(ser_run(st, decls.push(d)) == ser_run(
            ser_step(st, decls[0]),
            decls.push(d).skip(1),
        ));
        assert(ser_run(st, decls) == ser_run(ser_step(st, decls[0]), decls.skip(1)));
        lemma_ser_run_snoc(ser_step(st, decls[0]), decls.skip(1), d);
    }
}

/// The view of an optional scope.
pub open spec fn opt_scope_view(o: Option<CssScope>) -> Option<SpecScope> {
    match o {
        Some(s) => Some(s@),
        None => None,
    }
}

proof fn lemma_first_hoisted_from(scopes: Seq<SpecScope>, i: int)
    requires
        0 <= i <= scopes.len(),
        forall|j: int| 0 <= j < i ==> !is_hoisted_scope(scopes[j]),
    ensures
        first_hoisted(scopes) == first_hoisted(scopes.skip(i)),
    decreases i,
{
    if i > 0 {
        lemma_first_hoisted_from(scopes.skip(1), i - 1);
        assert(scopes.skip(1).skip(i - 1) =~= scopes.skip(i));
    } else {
        assert(scopes.skip(0) =~= scopes);
    }
}

/// Returns the scope that forces this declaration to be hoisted, if any:
/// the outermost `@property` at-rule scope on its stack.
pub fn get_non_nestable_declarations(declaration: &Declaration) -> (res: Option<CssScope>)
    ensures
        opt_scope_view(res) == first_hoisted(declaration@.scope),
{
    let len = declaration.scope.len();
    let mut i: usize = 0;
    while i < len
        invariant
            i <= len,
            len == declaration.scope@.len(),
            forall|j: int| 0 <= j < i ==> !is_hoisted_scope(declaration@.scope[j]),
        decreases len - i,
    {
        let scope = &declaration.scope[i];
        let hoisted = match scope.scope_type {
            ScopeType::AtRule => starts_with_at_property(scope.name.as_str()),
            ScopeType::Selector => false,
        };
        if hoisted {
            proof {
                lemma_first_hoisted_from(declaration@.scope, i as int);
                assert(declaration@.scope.skip(i as int)[0] == declaration@.scope[i as int]);
            }
            return Some(scope.clone());
        }
        i = i + 1;
    }
    proof {
        lemma_first_hoisted_from(declaration@.scope, len as int);
    }
    None
}

/// Appends `2 * level` spaces.
fn push_indent(out: &mut String, level: usize)
    ensures
        final(out)@ == old(out)@ + indent(level as nat),
{
    let mut j: usize = 0;
    while j < level
        invariant
            j <= level,
            out@ == old(out)@ + indent(j as nat),
        decreases level - j,
    {
        out.push(' ');
        out.push(' ');
        proof {
            assert(old(out)@ + indent((j + 1) as nat) =~= (old(out)@ + indent(j as nat)).push(
                ' ',
            ).push(' '));
        }
        j = j + 1;
    }
    proof {
        assert(out@ =~= old(out)@ + indent(level as nat));
    }
}

/// Appends `\n`, the indent for `level`, and `property: value;`.
fn push_decl_line(out: &mut String, level: usize, property: &str, value: &str)
    ensures
        final(out)@ == old(out)@ + decl_line(level as nat, property@, value@),
{
    out.push('\n');
    push_indent(out, level);
    out.append(property);
    out.push(':');
    out.push(' ');
    out.append(value);
    out.push(';');
    proof {
        assert(out@ =~= old(out)@ + decl_line(level as nat, property@, value@));
    }
}

/// Appends `\n`, the indent for `level`, and `name {`.
fn push_open_line(out: &mut String, level: usize, name: &str)
    ensures
        final(out)@ == old(out)@ + open_line(level as nat, name@),
{
    out.push('\n');
    push_indent(out, level);
    out.append(name);
    out.push(' ');
    out.push('{');
    proof {
        assert(out@ =~= old(out)@ + open_line(level as nat, name@));
    }
}

/// Appends the close lines for levels `hi - 1` down to `lo`.
fn push_closes(out: &mut String, hi: usize, lo: usize)
    requires
        lo <= hi,
    ensures
        final(out)@ == old(out)@ + closes(hi as nat, lo as nat),
{
    let mut j: usize = hi;
    while j > lo
        invariant
            lo <= j <= hi,
            out@ + closes(j as nat, lo as nat) == old(out)@ + closes(hi as nat, lo as nat),
        decreases j,
    {
        j = j - 1;
        let ghost before = out@;
        out.push('\n');
        push_indent(out, j);
        out.push('}');
        proof {
            assert(out@ =~= before + close_line(j as nat));
            assert(closes((j + 1) as nat, lo as nat) =~= close_line(j as nat) + closes(
                j as nat,
                lo as nat,
            ));
            assert(out@ + closes(j as nat, lo as nat) =~= before + closes(
                (j + 1) as nat,
                lo as nat,
            ));
        }
    }
    proof {
        assert(closes(lo as nat, lo as nat) =~= Seq::<char>::empty());
        assert(out@ =~= out@ + closes(lo as nat, lo as nat));
    }
}

/// Converts a list of CSS declarations into properly formatted CSS text,
/// handling indentation, scope nesting and the hoisting of blocks that must
/// not stay nested.
///
/// The result is exactly [`spec_to_css`] of the declarations' views.
pub fn to_css(declarations: &[Declaration]) -> (css: String)
    ensures
        css@ == spec_to_css(decl_views(declarations@)),
{
    let mut hoisted_css = String::new();
    let mut regular_css = String::new();
    let mut previous_scopes: Vec<CssScope> = Vec::new();
    let mut previous_hoisted: Option<CssScope> = None;

    let n = declarations.len();
    let mut idx: usize = 0;
    while idx < n
        invariant
            idx <= n,
            n == declarations@.len(),
            ({
                let st = ser_run(init_ser_state(), decl_views(declarations@.take(idx as int)));
                hoisted_css@ == st.hoisted && regular_css@ == st.regular && scope_views(
                    previous_scopes,
                ) == st.prev_scopes && opt_scope_view(previous_hoisted) == st.prev_hoisted
            }),
        decreases n - idx,
    {
        let declaration = &declarations[idx];
        let ghost st0 = ser_run(init_ser_state(), decl_views(declarations@.take(idx as int)));

        let hoisted_scope = get_non_nestable_declarations(declaration);

        // Close the previous hoisted block when the hoisted scope changes
        // (including when the current declaration is not hoisted at all).
        let close_previous = match (&previous_hoisted, &hoisted_scope) {
            (Some(prev), Some(cur)) => !(prev.name == cur.name && prev.scope_type
                == cur.scope_type),
            (Some(_), None) => true,
            (None, _) => false,
        };
        if close_previous {
            hoisted_css.push('\n');
            hoisted_css.push('}');
            hoisted_css.push('\n');
            previous_hoisted = None;
        }
        let ghost st1 = if st0.prev_hoisted is Some && st0.prev_hoisted != first_hoisted(
            declaration@.scope,
        ) {
            SerState { hoisted: st0.hoisted + hoisted_close(), prev_hoisted: None, ..st0 }
        } else {
            st0
        };
        proof {
            assert(hoisted_css@ =~= st1.hoisted);
        }

        match hoisted_scope {
            Some(scope) => {
                if previous_hoisted.is_none() {
                    hoisted_css.push('\n');
                    hoisted_css.append(scope.name.as_str());
                    hoisted_css.push(' ');
                    hoisted_css.push('{');
                }
                hoisted_css.push('\n');
                hoisted_css.push(' ');
                hoisted_css.push(' ');
                hoisted_css.append(declaration.property.as_str());
                hoisted_css.push(':');
                hoisted_css.push(' ');
                hoisted_css.append(declaration.value.as_str());
                hoisted_css.push(';');
                previous_hoisted = Some(scope);
                proof {
                    let stepped = ser_step(st0, declaration@);
                    assert(hoisted_css@ =~= stepped.hoisted);
                }
            },
            None => {
                // Find the common prefix of the previous and current scopes.
                let plen = previous_scopes.len();
                let slen = declaration.scope.len();
                let mut k: usize = 0;
                while k < plen && k < slen && scope_fields_equal(
                    &previous_scopes[k],
                    &declaration.scope[k],
                )
                    invariant
                        k <= plen,
                        k <= slen,
                        plen == previous_scopes@.len(),
                        slen == declaration.scope@.len(),
                        forall|j: int| 0 <= j < k ==> scope_views(previous_scopes)[j]
                            == declaration@.scope[j],
                    decreases plen - k,
                {
                    k = k + 1;
                }
                proof {
                    lemma_common_prefix_len(
                        scope_views(previous_scopes),
                        declaration@.scope,
                        k as int,
                    );
                }
                // Close the scopes that are no longer active, innermost
                // first, then open the new ones, outermost first.
                push_closes(&mut regular_css, plen, k);
                let mut j: usize = k;
                while j < slen
                    invariant
                        k <= j <= slen,
                        slen == declaration.scope@.len(),
                        regular_css@ + opens(declaration@.scope, j as nat) == st1.regular
                            + closes(st1.prev_scopes.len(), k as nat) + opens(
                            declaration@.scope,
                            k as nat,
                        ),
                    decreases slen - j,
                {
                    let ghost before = regular_css@;
                    push_open_line(&mut regular_css, j, declaration.scope[j].name.as_str());
                    proof {
                        assert(opens(declaration@.scope, j as nat) =~= open_line(
                            j as nat,
                            declaration@.scope[j as int].name,
                        ) + opens(declaration@.scope, (j + 1) as nat));
                        assert(regular_css@ + opens(declaration@.scope, (j + 1) as nat) =~= before
                            + opens(declaration@.scope, j as nat));
                    }
                    j = j + 1;
                }
                proof {
                    assert(opens(declaration@.scope, slen as nat) =~= Seq::<char>::empty());
                    assert(regular_css@ =~= regular_css@ + opens(
                        declaration@.scope,
                        slen as nat,
                    ));
                }
                push_decl_line(
                    &mut regular_css,
                    slen,
                    declaration.property.as_str(),
                    declaration.value.as_str(),
                );
                previous_scopes = clone_scopes(&declaration.scope);
                proof {
                    let stepped = ser_step(st0, declaration@);
                    assert(regular_css@ =~= stepped.regular);
                }
            },
        }
        proof {
            lemma_ser_run_snoc(init_ser_state(), decl_views(declarations@.take(idx as int)),
                declaration@);
            assert(decl_views(declarations@.take(idx + 1)) =~= decl_views(declarations@.take(
                idx as int,
            )).push(declaration@));
            let stepped = ser_step(st0, declaration@);
            assert(hoisted_css@ =~= stepped.hoisted);
            assert(regular_css@ =~= stepped.regular);
            assert(scope_views(previous_scopes) =~= stepped.prev_scopes);
        }
        idx = idx + 1;
    }
    proof {
        assert(decl_views(declarations@.take(n as int)) =~= decl_views(declarations@));
    }

    // Close the last hoisted block if necessary.
    if previous_hoisted.is_some() {
        hoisted_css.push('\n');
        hoisted_css.push('}');
        hoisted_css.push('\n');
    }
    // Close all remaining regular scopes with proper indentation, then put
    // the hoisted text first.
    push_closes(&mut regular_css, previous_scopes.len(), 0);
    hoisted_css.append(regular_css.as_str());
    proof {
        assert(hoisted_css@ =~= spec_to_css(decl_views(declarations@)));
    }
    hoisted_css
}

/// Compares two scopes by value.
fn scope_fields_equal(a: &CssScope, b: &CssScope) -> (r: bool)
    ensures
        r == (a@ == b@),
{
    let r = a.name == b.name && a.scope_type == b.scope_type;
    proof {
        if a.name@ == b.name@ && a.scope_type == b.scope_type {
            assert(a@ =~= b@);
        }
    }
    r
}

} // verus!
