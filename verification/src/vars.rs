//! References to scoped variables.
//!
//! A `ScopedVariableReference` names a variable, or a member chain rooted in
//! one (`foo.bar.baz`), together with the resolution context that makes the
//! name unique. [`ImportSourceType`] classifies the module a variable was
//! imported from: ordinary modules are only analyzed statically, while
//! modules evaluated at build time follow different rules.

use vstd::prelude::*;

use crate::text::{join_char, lemma_join_char_snoc, str_ends_with};

verus! {

/// A unique variable identity: the variable's name plus the numeric
/// resolution context it was bound in.
#[derive(Debug, Clone, Hash, Eq, PartialEq)]
pub struct VariableId {
    pub name: String,
    pub context: u32,
}

/// Where a variable was imported from.
#[derive(Clone, Copy, Debug, PartialEq, Eq, Structural)]
pub enum ImportSourceType {
    /// An ordinary module, only statically analyzed.
    Normal,
    /// A module that is executed during the build.
    Yak,
}

/// A reference to a variable or to a member expression rooted in one,
/// e.g. `foo` or `foo.bar.baz`.
#[derive(Debug, Clone, Hash, Eq, PartialEq)]
pub struct ScopedVariableReference {
    /// The identity of the root variable.
    pub id: VariableId,
    /// The parts of the reference: `foo.bar.baz` is `[foo, bar, baz]`.
    pub parts: Vec<String>,
}

/// The views of the parts of a reference.
pub open spec fn part_views(parts: Seq<String>) -> Seq<Seq<char>> {
    parts.map_values(|p: String| p@)
}

impl ScopedVariableReference {
    pub fn new(id: VariableId, parts: Vec<String>) -> (r: Self)
        ensures
            r.id == id,
            r.parts == parts,
    {
        Self { id, parts }
    }

    /// The reference as a reader would write it: the parts joined with `.`.
    pub fn to_readable_string(&self) -> (r: String)
        ensures
            r@ == join_char(part_views(self.parts@), '.'),
    {
        let mut result = String::new();
        let len = self.parts.len();
        let mut i: usize = 0;
        while i < len
            invariant
                i <= len,
                len == self.parts@.len(),
                result@ == join_char(part_views(self.parts@).take(i as int), '.'),
            decreases len - i,
        {
            if i > 0 {
                result.push('.');
            }
            result.append(self.parts[i].as_str());
            proof {
                let views = part_views(self.parts@);
                lemma_join_char_snoc(views.take(i as int), '.', views[i as int]);
                assert(views.take(i + 1) =~= views.take(i as int).push(views[i as int]));
                assert(result@ =~= join_char(views.take(i + 1), '.'));
            }
            i = i + 1;
        }
        proof {
            assert(part_views(self.parts@).take(len as int) =~= part_views(self.parts@));
        }
        result
    }

    /// The last part of the reference, or the root variable's name when the
    /// part list is empty.
    pub fn last_part(&self) -> (r: &String)
        ensures
            self.parts@.len() > 0 ==> r@ == self.parts@.last()@,
            self.parts@.len() == 0 ==> r@ == self.id.name@,
    {
        if self.parts.len() > 0 {
            &self.parts[self.parts.len() - 1]
        } else {
            &self.id.name
        }
    }
}

use vstd::string::StringExecFns;

/// A module is a build-time module exactly when its path ends in `.yak`,
/// `.yak.js` or `.yak.mjs`.
pub open spec fn spec_import_source_type(source: Seq<char>) -> ImportSourceType {
    if crate::text::spec_ends_with(source, ".yak"@) || crate::text::spec_ends_with(
        source,
        ".yak.js"@,
    ) || crate::text::spec_ends_with(source, ".yak.mjs"@) {
        ImportSourceType::Yak
    } else {
        ImportSourceType::Normal
    }
}

/// Classifies the module a variable was imported from.
pub fn import_source_type(source: &str) -> (r: ImportSourceType)
    ensures
        r == spec_import_source_type(source@),
{
    if str_ends_with(source, ".yak") || str_ends_with(source, ".yak.js") || str_ends_with(
        source,
        ".yak.mjs",
    ) {
        ImportSourceType::Yak
    } else {
        ImportSourceType::Normal
    }
}

} // verus!
