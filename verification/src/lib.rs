//! Reorganizes a tree of game shader assets: shader names are normalized into
//! nested directory paths, each shader's declared name gains a version suffix,
//! and material files are routed to the directory of the shader they reference.
//!
//! The library computes every decision of that pipeline on plain values:
//! callers hand it file names and file contents, and it returns the rewritten
//! contents, the directories to create, the copies to perform, and the
//! warnings to report. All file system access is left to the caller.

pub mod guid;
pub mod materials;
pub mod shaders;
pub mod text;

use vstd::prelude::*;

verus! {

/// A directory entry handed in by the caller: a file name and the file's text.
pub struct SourceFile {
    pub name: String,
    pub content: String,
}

/// A recoverable condition met while scanning: the offending file is skipped
/// and processing goes on with the next one.
#[derive(Debug, PartialEq)]
pub enum Warning {
    /// A metadata file held no identifier line.
    MetaMissingGuid { file: String },
    /// A material file held no identifier reference.
    MaterialMissingGuid { file: String },
    /// A material referenced an identifier the table does not hold.
    UnknownGuid { file: String, guid: String },
}

/// The mathematical shadow of a `Warning`.
pub enum WarningView {
    MetaMissingGuid { file: Seq<char> },
    MaterialMissingGuid { file: Seq<char> },
    UnknownGuid { file: Seq<char>, guid: Seq<char> },
}

impl View for Warning {
    type V = WarningView;

    open spec fn view(&self) -> WarningView {
        match self {
            Warning::MetaMissingGuid { file } => WarningView::MetaMissingGuid { file: file@ },
            Warning::MaterialMissingGuid { file } => WarningView::MaterialMissingGuid {
                file: file@,
            },
            Warning::UnknownGuid { file, guid } => WarningView::UnknownGuid {
                file: file@,
                guid: guid@,
            },
        }
    }
}

} // verus!
