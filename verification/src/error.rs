//! The ways in which the library's operations fail.

use vstd::prelude::*;

verus! {

/// Why an operation failed.
#[derive(Clone, Copy, Debug, PartialEq, Eq, Structural)]
pub enum Failure {
    /// The configuration directory, or a template's descriptor, is not
    /// there.
    NotFound,
    /// A descriptor is there but cannot be understood.
    ParseError,
    /// The index file is there but cannot be understood.
    CorruptCache,
    /// No template name was given.
    MissingTemplateName,
    /// The template asked for is not among the known ones.
    TemplateNotFound,
    /// Something already stands where the new project is to go.
    TargetExists,
    /// A file of the template is not a valid template.
    RenderError,
    /// The file system refused an operation.
    IoError,
    /// An event reached a generation that was not waiting for it.
    OutOfTurn,
}

} // verus!
