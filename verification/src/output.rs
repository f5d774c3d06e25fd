//! The output of a resolved task.

use vstd::prelude::*;
use vstd::string::*;
use crate::text::{decimal, decimal_string};

verus! {

/// The address of a value that a task holds: the output of the task, or one
/// of its cells.
#[derive(Clone, Copy, Debug, PartialEq, Eq, Hash)]
pub enum RawVc {
    TaskOutput(u32),
    TaskCell(u32, u32),
}

/// How an address is written.
pub open spec fn raw_vc_text(vc: RawVc) -> Seq<char> {
    match vc {
        RawVc::TaskOutput(task) => "TaskOutput("@ + decimal(task as nat) + ")"@,
        RawVc::TaskCell(task, cell) => "TaskCell("@ + decimal(task as nat) + ", "@ + decimal(cell as nat) + ")"@,
    }
}

impl RawVc {
    /// The address as text.
    pub fn describe(&self) -> (s: String)
        ensures
            s@ == raw_vc_text(*self),
    {
        match self {
            RawVc::TaskOutput(task) => {
                let digits = decimal_string(*task);
                String::from_str("TaskOutput(").concat(digits.as_str()).concat(")")
            },
            RawVc::TaskCell(task, cell) => {
                let first = decimal_string(*task);
                let second = decimal_string(*cell);
                String::from_str("TaskCell(").concat(first.as_str()).concat(", ").concat(second.as_str()).concat(")")
            },
        }
    }
}

/// An error that several readers share: what is left of it is its message.
#[derive(Debug, PartialEq, Eq)]
pub struct SharedError {
    pub message: String,
}

impl Clone for SharedError {
    fn clone(&self) -> (r: Self)
        ensures
            r.message@ == self.message@,
    {
        SharedError { message: self.message.clone() }
    }
}

/// A helper type representing the output of a resolved task.
#[derive(Debug, PartialEq, Eq)]
pub enum OutputContent {
    Link(RawVc),
    Error(SharedError),
    Panic(Option<String>),
}

/// The value of an [`OutputContent`].
pub enum OutputContentView {
    Link(RawVc),
    Error(Seq<char>),
    Panic(Option<Seq<char>>),
}

impl View for OutputContent {
    type V = OutputContentView;

    open spec fn view(&self) -> OutputContentView {
        match self {
            OutputContent::Link(vc) => OutputContentView::Link(*vc),
            OutputContent::Error(error) => OutputContentView::Error(error.message@),
            OutputContent::Panic(Some(message)) => OutputContentView::Panic(Some(message@)),
            OutputContent::Panic(None) => OutputContentView::Panic(None),
        }
    }
}

impl Clone for OutputContent {
    fn clone(&self) -> (r: Self)
        ensures
            r@ == self@,
    {
        match self {
            OutputContent::Link(vc) => OutputContent::Link(*vc),
            OutputContent::Error(error) => OutputContent::Error(error.clone()),
            OutputContent::Panic(Some(message)) => OutputContent::Panic(Some(message.clone())),
            OutputContent::Panic(None) => OutputContent::Panic(None),
        }
    }
}

/// How an output is written.
pub open spec fn output_text(content: OutputContentView) -> Seq<char> {
    match content {
        OutputContentView::Link(vc) => "link "@ + raw_vc_text(vc),
        OutputContentView::Error(message) => "error "@ + message,
        OutputContentView::Panic(Some(message)) => "panic "@ + message,
        OutputContentView::Panic(None) => "panic"@,
    }
}

impl OutputContent {
    /// The output as text.
    pub fn to_string(&self) -> (s: String)
        ensures
            s@ == output_text(self@),
    {
        match self {
            OutputContent::Link(raw_vc) => {
                let address = raw_vc.describe();
                String::from_str("link ").concat(address.as_str())
            },
            OutputContent::Error(err) => String::from_str("error ").concat(err.message.as_str()),
            OutputContent::Panic(Some(message)) => String::from_str("panic ").concat(message.as_str()),
            OutputContent::Panic(None) => String::from_str("panic"),
        }
    }
}

} // verus!
