//! The registry of known options, in key order.
use vstd::prelude::*;

use crate::definition::{Definition, DEFAULT_TERMINAL_COLUMNS};
use crate::type_def::{type_text, TypeDef};
use crate::usage::{aliases, hint_text, type_description_text, usage_text};

verus! {

/// The description of the `_auth` option.
pub const AUTH_DESCRIPTION: &'static str = "
            A basic-auth string to use when authenticating against the npm registry.
            This will ONLY be used to authenticate against the npm registry.  For other
            registries you will need to scope it like \"//other-registry.tld/:_auth\"

            Warning: This should generally not be set via a command-line option.  It
            is safer to use a registry-provided authentication bearer token stored in
            the ~/.npmrc file by running `npm login`.
        ";

/// `d` carries every derived field as computed from its other fields, with
/// the default settings of an option built without overrides.
pub open spec fn derived_plainly(d: Definition) -> bool {
    &&& d.env_export
    &&& !d.multiple
    &&& d.short is None
    &&& d.deprecated is None
    &&& d.exclusive is None
    &&& d.terminal_cols == DEFAULT_TERMINAL_COLUMNS
    &&& d.default_description@ == type_text(d.default_value)
    &&& d.type_description@ == type_description_text(d.type_def, false)
    &&& d.hint@ == hint_text(d.type_def, d.key@)
    &&& d.usage@ == usage_text(d.type_def, aliases(None), d.default_value, d.key@, d.hint@, false)
}

/// The known options, in key order.
pub fn init_definitions() -> (r: Vec<Definition>)
    ensures
        r@.len() == 1,
        r@[0].key@ == "_auth"@,
        r@[0].default_value == TypeDef::Null,
        r@[0].type_def matches TypeDef::Array(v) && v@ == seq![TypeDef::Null, TypeDef::String],
        r@[0].description@ == AUTH_DESCRIPTION@,
        derived_plainly(r@[0]),
{
    let auth = Definition::builder().key("_auth").default_value(TypeDef::Null).type_def(
        TypeDef::Array(vec![TypeDef::Null, TypeDef::String]),
    ).description(AUTH_DESCRIPTION).build();
    let mut r: Vec<Definition> = Vec::new();
    match auth {
        Ok(d) => r.push(d),
        Err(_) => {},
    }
    r
}

} // verus!
