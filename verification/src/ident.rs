//! Identities of modules and of their parts.

use vstd::prelude::*;
use crate::part::{ModulePart, ModulePartView};

verus! {

/// The identity of a node of the module graph: the path of a module, and the
/// part of it that the node stands for, if it stands for a part.
#[derive(Debug, PartialEq, Eq, Hash)]
pub struct AssetIdent {
    pub path: String,
    pub part: Option<ModulePart>,
}

/// The value of an [`AssetIdent`].
pub struct AssetIdentView {
    pub path: Seq<char>,
    pub part: Option<ModulePartView>,
}

impl AssetIdentView {
    /// This identity, narrowed to a part.
    pub open spec fn with_part(self, part: ModulePartView) -> AssetIdentView {
        AssetIdentView { path: self.path, part: Some(part) }
    }
}

impl View for AssetIdent {
    type V = AssetIdentView;

    open spec fn view(&self) -> AssetIdentView {
        AssetIdentView {
            path: self.path@,
            part: match self.part {
                Some(part) => Some(part@),
                None => None,
            },
        }
    }
}

impl Clone for AssetIdent {
    fn clone(&self) -> (r: Self)
        ensures
            r@ == self@,
    {
        let part = match &self.part {
            Some(part) => Some(part.clone()),
            None => None,
        };
        AssetIdent { path: self.path.clone(), part }
    }
}

impl AssetIdent {
    /// The identity of the whole module at `path`.
    pub fn from_path(path: String) -> (r: Self)
        ensures
            r@ == (AssetIdentView { path: path@, part: None }),
    {
        AssetIdent { path, part: None }
    }

    /// This identity, narrowed to `part`.
    pub fn with_part(&self, part: &ModulePart) -> (r: Self)
        ensures
            r@ == self@.with_part(part@),
    {
        AssetIdent { path: self.path.clone(), part: Some(part.clone()) }
    }

    /// Whether two identities are equal.
    pub fn same(&self, other: &AssetIdent) -> (r: bool)
        ensures
            r == (self@ == other@),
    {
        let parts = match (&self.part, &other.part) {
            (Some(a), Some(b)) => a.same(b),
            (None, None) => true,
            _ => false,
        };
        parts && self.path == other.path
    }
}

} // verus!
