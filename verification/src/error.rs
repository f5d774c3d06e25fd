//! What can go wrong when a part of a module is asked for.

use vstd::prelude::*;
use vstd::string::*;
use crate::ident::{AssetIdent, AssetIdentView};
use crate::part::{part_text, ModulePart, ModulePartView};

verus! {

/// Why a part could not be found.
#[derive(Debug, PartialEq, Eq)]
pub enum PartError {
    /// The split of the module has no such part.
    NotFound { module: AssetIdent, part: ModulePart },
    /// The module was not split, so it has no parts to look up.
    Unsplit { part: ModulePart },
    /// Parsing or analyzing the part failed outside; `cause` says how.
    Upstream { module: AssetIdent, part: ModulePart, cause: String },
}

/// The value of a [`PartError`].
pub enum PartErrorView {
    NotFound { module: AssetIdentView, part: ModulePartView },
    Unsplit { part: ModulePartView },
    Upstream { module: AssetIdentView, part: ModulePartView, cause: Seq<char> },
}

impl View for PartError {
    type V = PartErrorView;

    open spec fn view(&self) -> PartErrorView {
        match self {
            PartError::NotFound { module, part } => PartErrorView::NotFound { module: module@, part: part@ },
            PartError::Unsplit { part } => PartErrorView::Unsplit { part: part@ },
            PartError::Upstream { module, part, cause } => PartErrorView::Upstream {
                module: module@,
                part: part@,
                cause: cause@,
            },
        }
    }
}

/// The text of an error.
pub open spec fn error_text(error: PartErrorView) -> Seq<char> {
    match error {
        PartErrorView::NotFound { module, part } => "part "@ + part_text(part) + " is not found in the module "@
            + module.path,
        PartErrorView::Unsplit { part } => "part "@ + part_text(part) + " was asked of a module that is not split"@,
        PartErrorView::Upstream { module, part, cause } => cause + " (part "@ + part_text(part) + " of the module "@
            + module.path + ")"@,
    }
}

impl PartError {
    /// The error as a message.
    pub fn message(&self) -> (s: String)
        ensures
            s@ == error_text(self@),
    {
        match self {
            PartError::NotFound { module, part } => {
                let name = part.describe();
                String::from_str("part ").concat(name.as_str()).concat(" is not found in the module ").concat(
                    module.path.as_str(),
                )
            },
            PartError::Unsplit { part } => {
                let name = part.describe();
                String::from_str("part ").concat(name.as_str()).concat(" was asked of a module that is not split")
            },
            PartError::Upstream { module, part, cause } => {
                let name = part.describe();
                cause.clone().concat(" (part ").concat(name.as_str()).concat(" of the module ").concat(
                    module.path.as_str(),
                ).concat(")")
            },
        }
    }
}

} // verus!
