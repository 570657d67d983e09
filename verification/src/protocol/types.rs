use vstd::prelude::*;

use crate::file::{File, FileView};

verus! {

/// A request read from the sender.
#[derive(Debug, PartialEq)]
pub enum Command {
    CheckVersion { version: u8 },
    ListDir { path: [u8; 2] },
    SaveFile { file: File },
}

/// The mathematical content of a request.
pub enum CommandView {
    CheckVersion { version: u8 },
    ListDir { path: Seq<u8> },
    SaveFile { file: FileView },
}

impl View for Command {
    type V = CommandView;

    open spec fn view(&self) -> CommandView {
        match self {
            Command::CheckVersion { version } => CommandView::CheckVersion { version: *version },
            Command::ListDir { path } => CommandView::ListDir { path: path@ },
            Command::SaveFile { file } => CommandView::SaveFile { file: file@ },
        }
    }
}

/// What the decoder makes of the bytes received so far.
#[derive(Debug, PartialEq)]
pub enum Decoded {
    /// The request is not complete: this many more bytes are needed before
    /// anything more can be decided.
    Need(usize),
    /// The bytes hold a complete request.
    Done(Command),
}

/// The mathematical content of a decoder answer.
pub enum DecodedView {
    Need(nat),
    Done(CommandView),
}

impl View for Decoded {
    type V = DecodedView;

    open spec fn view(&self) -> DecodedView {
        match self {
            Decoded::Need(n) => DecodedView::Need(*n as nat),
            Decoded::Done(c) => DecodedView::Done(c@),
        }
    }
}

} // verus!
