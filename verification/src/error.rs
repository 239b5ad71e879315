//! Why a definition file could not be generated.
use vstd::prelude::*;

use crate::typed::{kind_name, TypeKind};

verus! {

/// Why a definition could not be rendered.
#[derive(Debug, Clone, Copy, PartialEq, Eq, Structural)]
pub enum DefinitionError {
    /// A type of this kind stands where a type signature is written
    /// (values, classes, aliases and modules have none).
    InvalidTypeSignature(TypeKind),
    /// A definition entry of this kind cannot stand at the top level of a file.
    InvalidRootType(TypeKind),
}

/// The text of the error, as it is reported to Lua.
pub open spec fn error_message(e: DefinitionError) -> Seq<char> {
    match e {
        DefinitionError::InvalidTypeSignature(k) => "type cannot be a type signature: "@ + kind_name(k),
        DefinitionError::InvalidRootType(k) => "invalid root level type: "@ + kind_name(k),
    }
}

#[verifier::external_type_specification]
#[verifier::external_body]
pub struct ExLuaError(mlua::Error);

/// The Lua error `mlua::Error::runtime` builds from a message: `RuntimeError` holding the
/// message. The error type is opaque here, so the result is named rather than spelled out;
/// the same message gives the same error.
pub uninterp spec fn runtime_error(message: Seq<char>) -> mlua::Error;

/// Calls `mlua::Error::runtime`, which wraps the message (its `to_string`, the message
/// itself for a `String`) in a `RuntimeError`.
#[verifier::external_body]
fn lua_runtime_error(message: String) -> (r: mlua::Error)
    ensures
        r == runtime_error(message@),
{
    mlua::Error::runtime(message)
}

impl DefinitionError {
    /// The text of the error.
    pub fn message(&self) -> (r: String)
        ensures
            r@ == error_message(*self),
    {
        match self {
            DefinitionError::InvalidTypeSignature(k) => {
                let mut r = String::from_str("type cannot be a type signature: ");
                r.append(k.name());
                r
            },
            DefinitionError::InvalidRootType(k) => {
                let mut r = String::from_str("invalid root level type: ");
                r.append(k.name());
                r
            },
        }
    }

    /// The Lua runtime error that carries [`Self::message`].
    pub fn into_lua_error(&self) -> (r: mlua::Error)
        ensures
            r == runtime_error(error_message(*self)),
    {
        lua_runtime_error(self.message())
    }
}

} // verus!
