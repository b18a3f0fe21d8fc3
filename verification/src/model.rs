//! The shared data model: scopes and declarations.
//!
//! A `CssScope` is one level of CSS nesting (a selector or an at-rule block);
//! a `Declaration` is a single `property: value` pair together with the full
//! stack of scopes that was active when it was parsed.

use vstd::prelude::*;

verus! {

/// The kind of a CSS nesting scope: an ordinary selector, or an `@`-prefixed
/// at-rule block.
#[derive(Clone, Copy, Debug, PartialEq, Eq, Structural)]
pub enum ScopeType {
    Selector,
    AtRule,
}

/// One level of CSS nesting. `name` is the verbatim selector or at-rule text,
/// e.g. `.foo`, `&:hover`, or `@property --angle`.
#[derive(Debug)]
pub struct CssScope {
    pub name: String,
    pub scope_type: ScopeType,
}

/// The mathematical value of a `CssScope`: its name as a character sequence,
/// plus its kind.
#[verifier::ext_equal]
pub struct SpecScope {
    pub name: Seq<char>,
    pub scope_type: ScopeType,
}

impl View for CssScope {
    type V = SpecScope;

    open spec fn view(&self) -> SpecScope {
        SpecScope { name: self.name@, scope_type: self.scope_type }
    }
}

impl Clone for CssScope {
    fn clone(&self) -> (res: Self)
        ensures
            res == *self,
    {
        CssScope { name: self.name.clone(), scope_type: self.scope_type }
    }
}

impl PartialEq for CssScope {
    fn eq(&self, other: &Self) -> (r: bool) {
        self.name == other.name && self.scope_type == other.scope_type
    }
}

impl vstd::std_specs::cmp::PartialEqSpecImpl for CssScope {
    open spec fn obeys_eq_spec() -> bool {
        true
    }

    open spec fn eq_spec(&self, other: &Self) -> bool {
        self@ == other@
    }
}

/// One `property: value` pair. `closed` is true once the terminating `;` has
/// been seen; `scope` is the nesting path, outermost scope first.
#[derive(Debug)]
pub struct Declaration {
    pub property: String,
    pub value: String,
    pub closed: bool,
    pub scope: Vec<CssScope>,
}

/// The mathematical value of a `Declaration`.
#[verifier::ext_equal]
pub struct SpecDecl {
    pub property: Seq<char>,
    pub value: Seq<char>,
    pub closed: bool,
    pub scope: Seq<SpecScope>,
}

impl View for Declaration {
    type V = SpecDecl;

    open spec fn view(&self) -> SpecDecl {
        SpecDecl {
            property: self.property@,
            value: self.value@,
            closed: self.closed,
            scope: self.scope@.map_values(|s: CssScope| s@),
        }
    }
}

impl Clone for Declaration {
    fn clone(&self) -> (res: Self)
        ensures
            res@ == self@,
    {
        let scope = clone_scopes(&self.scope);
        proof {
            assert(scope_views(scope) =~= self@.scope);
        }
        Declaration {
            property: self.property.clone(),
            value: self.value.clone(),
            closed: self.closed,
            scope,
        }
    }
}

/// The view of a scope stack: the sequence of the scopes' views.
pub open spec fn scope_views(v: Vec<CssScope>) -> Seq<SpecScope> {
    v@.map_values(|s: CssScope| s@)
}

/// Copies a scope stack; the copy has the same view.
pub fn clone_scopes(v: &Vec<CssScope>) -> (res: Vec<CssScope>)
    ensures
        scope_views(res) == scope_views(*v),
        res@.len() == v@.len(),
{
    let res = v.clone();
    proof {
        assert(res@.len() == v@.len());
        assert(forall|i: int| 0 <= i < v@.len() ==> res@[i] == v@[i]);
        assert(scope_views(res) =~= scope_views(*v));
    }
    res
}

} // verus!
