use vstd::prelude::*;

verus! {

/// The error kinds of the memory engine.
#[derive(Debug, Clone, PartialEq, Eq)]
pub enum DirSoulError {
    /// Storage failure: connection, constraint violation, missing row.
    Storage(String),
    /// Malformed key, ciphertext too short, undecodable plaintext.
    Encryption(String),
    /// The chat or embedding backend failed.
    Provider(String),
    /// Out-of-range confidence, quantity/unit mismatch, unknown content type.
    Validation(String),
    /// A plugin asked for an operation above its grant.
    Permission(String),
    /// Unknown plugin, timeout, crash beyond the restart cap.
    Plugin(String),
    /// Nothing matches.
    NotFound(String),
    /// Malformed configuration.
    Config(String),
}

impl DirSoulError {
    /// The kind of the error as a short lowercase word.
    pub fn kind(&self) -> (r: &'static str)
    {
        match self {
            DirSoulError::Storage(_) => "storage",
            DirSoulError::Encryption(_) => "encryption",
            DirSoulError::Provider(_) => "provider",
            DirSoulError::Validation(_) => "validation",
            DirSoulError::Permission(_) => "permission",
            DirSoulError::Plugin(_) => "plugin",
            DirSoulError::NotFound(_) => "not_found",
            DirSoulError::Config(_) => "config",
        }
    }
}

} // verus!
