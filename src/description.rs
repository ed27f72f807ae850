use vstd::prelude::*;
use crate::notifications::{Notice, UiNotification};

verus! {

/// A watch target: the file to watch and where its bytes are copied.
#[derive(Clone, Debug, PartialEq, Eq)]
pub struct FileDescription {
    pub from: String,
    pub to: String,
}

/// Which link of a copy chain this process serves.
#[derive(Clone, Copy, Debug, PartialEq, Eq, Structural)]
pub enum StepInChain {
    /// Copies `from` to `through`.
    Start,
    /// Copies `through` to `to`.
    End,
}

impl View for FileDescription {
    type V = (Seq<char>, Seq<char>);

    open spec fn view(&self) -> (Seq<char>, Seq<char>) {
        (self.from@, self.to@)
    }
}

pub open spec fn descriptions_view(v: Seq<FileDescription>) -> Seq<(Seq<char>, Seq<char>)> {
    v.map_values(|d: FileDescription| d@)
}

impl FileDescription {
    pub fn new(from: String, to: String) -> (r: FileDescription)
        ensures
            r.from == from,
            r.to == to,
    {
        FileDescription { from, to }
    }

    /// The status event that reports a finished copy of this target.
    pub fn completion_notice(&self) -> (r: UiNotification)
        ensures
            r@ == Notice::Copied(self.from@, self.to@),
    {
        UiNotification::Copied(self.from.clone(), self.to.clone())
    }
}

} // verus!
