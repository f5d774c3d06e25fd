//! Addresses of the parts of a module.

use vstd::prelude::*;
use vstd::string::*;
use crate::text::{decimal, decimal_string};

verus! {

/// Names one slice of a module.
#[derive(Debug, PartialEq, Eq, Hash)]
pub enum ModulePart {
    /// The module as its importers see it: its evaluation and its exports.
    Facade,
    /// The statements that run whenever the module runs.
    Evaluation,
    /// The public surface: every export, taken from the part that defines it.
    Exports,
    /// The part that defines the export of the given name.
    Export(String),
    /// The part with the given number.
    Internal(u32),
}

/// The value of a [`ModulePart`].
pub enum ModulePartView {
    Facade,
    Evaluation,
    Exports,
    Export(Seq<char>),
    Internal(u32),
}

impl View for ModulePart {
    type V = ModulePartView;

    open spec fn view(&self) -> ModulePartView {
        match self {
            ModulePart::Facade => ModulePartView::Facade,
            ModulePart::Evaluation => ModulePartView::Evaluation,
            ModulePart::Exports => ModulePartView::Exports,
            ModulePart::Export(name) => ModulePartView::Export(name@),
            ModulePart::Internal(id) => ModulePartView::Internal(*id),
        }
    }
}

impl Clone for ModulePart {
    fn clone(&self) -> (r: Self)
        ensures
            r@ == self@,
    {
        match self {
            ModulePart::Facade => ModulePart::Facade,
            ModulePart::Evaluation => ModulePart::Evaluation,
            ModulePart::Exports => ModulePart::Exports,
            ModulePart::Export(name) => ModulePart::Export(name.clone()),
            ModulePart::Internal(id) => ModulePart::Internal(*id),
        }
    }
}

/// How a part is named in messages.
pub open spec fn part_text(part: ModulePartView) -> Seq<char> {
    match part {
        ModulePartView::Facade => "facade"@,
        ModulePartView::Evaluation => "module evaluation"@,
        ModulePartView::Exports => "exports"@,
        ModulePartView::Export(name) => "export "@ + name,
        ModulePartView::Internal(id) => "internal part "@ + decimal(id as nat),
    }
}

impl ModulePart {
    pub fn facade() -> (r: Self)
        ensures
            r@ == ModulePartView::Facade,
    {
        ModulePart::Facade
    }

    pub fn evaluation() -> (r: Self)
        ensures
            r@ == ModulePartView::Evaluation,
    {
        ModulePart::Evaluation
    }

    pub fn exports() -> (r: Self)
        ensures
            r@ == ModulePartView::Exports,
    {
        ModulePart::Exports
    }

    pub fn export(name: String) -> (r: Self)
        ensures
            r@ == ModulePartView::Export(name@),
    {
        ModulePart::Export(name)
    }

    pub fn internal(id: u32) -> (r: Self)
        ensures
            r@ == ModulePartView::Internal(id),
    {
        ModulePart::Internal(id)
    }

    /// Whether two addresses name the same part.
    pub fn same(&self, other: &ModulePart) -> (r: bool)
        ensures
            r == (self@ == other@),
    {
        match (self, other) {
            (ModulePart::Facade, ModulePart::Facade) => true,
            (ModulePart::Evaluation, ModulePart::Evaluation) => true,
            (ModulePart::Exports, ModulePart::Exports) => true,
            (ModulePart::Export(a), ModulePart::Export(b)) => *a == *b,
            (ModulePart::Internal(a), ModulePart::Internal(b)) => *a == *b,
            _ => false,
        }
    }

    /// The name of the part as it appears in messages.
    pub fn describe(&self) -> (s: String)
        ensures
            s@ == part_text(self@),
    {
        match self {
            ModulePart::Facade => String::from_str("facade"),
            ModulePart::Evaluation => String::from_str("module evaluation"),
            ModulePart::Exports => String::from_str("exports"),
            ModulePart::Export(name) => String::from_str("export ").concat(name.as_str()),
            ModulePart::Internal(id) => {
                let digits = decimal_string(*id);
                String::from_str("internal part ").concat(digits.as_str())
            },
        }
    }
}

/// What a consumer can ask a split module for by name.
#[derive(Debug, PartialEq, Eq, Hash)]
pub enum Key {
    /// The part that runs the module's side effects.
    ModuleEvaluation,
    /// The part that defines the export of the given name.
    Export(String),
    /// The part that holds the public surface.
    Exports,
}

/// The value of a [`Key`].
pub enum KeyView {
    ModuleEvaluation,
    Export(Seq<char>),
    Exports,
}

impl View for Key {
    type V = KeyView;

    open spec fn view(&self) -> KeyView {
        match self {
            Key::ModuleEvaluation => KeyView::ModuleEvaluation,
            Key::Export(name) => KeyView::Export(name@),
            Key::Exports => KeyView::Exports,
        }
    }
}

impl Clone for Key {
    fn clone(&self) -> (r: Self)
        ensures
            r@ == self@,
    {
        match self {
            Key::ModuleEvaluation => Key::ModuleEvaluation,
            Key::Export(name) => Key::Export(name.clone()),
            Key::Exports => Key::Exports,
        }
    }
}

impl Key {
    /// Whether two keys are equal.
    pub fn same(&self, other: &Key) -> (r: bool)
        ensures
            r == (self@ == other@),
    {
        match (self, other) {
            (Key::ModuleEvaluation, Key::ModuleEvaluation) => true,
            (Key::Export(a), Key::Export(b)) => *a == *b,
            (Key::Exports, Key::Exports) => true,
            _ => false,
        }
    }
}

} // verus!
