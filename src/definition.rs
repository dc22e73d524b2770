//! One configuration option: its domain, its prose and usage, computed once
//! when it is built, and its markdown entry.
use vstd::prelude::*;

use crate::text::{join, join_strings, owned, push_str, views};
use crate::type_def::{type_text, TypeDef};
use crate::usage::{aliases, describe_type, describe_usage, hint, hint_text, type_description_text, usage_text};
use crate::wrap::{unindent_str, unindented, wrap_all, wrap_all_text};

verus! {

/// The terminal width used when none is given.
pub const DEFAULT_TERMINAL_COLUMNS: usize = 80;

/// A configuration option. The fields after `multiple` are derived from the
/// others when the option is built, unless given explicitly.
pub struct Definition {
    pub key: String,
    pub default_value: TypeDef,
    pub type_def: TypeDef,
    pub description: String,
    pub env_export: bool,
    pub multiple: bool,
    pub default_description: String,
    pub type_description: String,
    pub hint: String,
    pub short: Option<Vec<String>>,
    pub usage: String,
    pub deprecated: Option<String>,
    pub exclusive: Option<Vec<String>>,
    pub terminal_cols: usize,
}

/// The fields of a `Definition` gathered one by one; `build` checks the
/// required ones and derives the rest.
#[derive(Clone)]
pub struct DefinitionBuilder {
    pub key: Option<String>,
    pub default_value: Option<TypeDef>,
    pub type_def: Option<TypeDef>,
    pub description: Option<String>,
    pub env_export: Option<bool>,
    pub multiple: Option<bool>,
    pub default_description: Option<String>,
    pub type_description: Option<String>,
    pub hint: Option<String>,
    pub short: Option<Vec<String>>,
    pub usage: Option<String>,
    pub deprecated: Option<String>,
    pub exclusive: Option<Vec<String>>,
    pub terminal_cols: Option<usize>,
}

/// A required field that was never set.
#[derive(Debug, PartialEq, Eq, Structural, Clone, Copy)]
pub enum BuildError {
    MissingKey,
    MissingDefaultValue,
    MissingTypeDef,
    MissingDescription,
}

/// `s` when present, else `d`.
pub open spec fn text_or(s: Option<String>, d: Seq<char>) -> Seq<char> {
    match s {
        Some(v) => v@,
        None => d,
    }
}

/// The first required field that `b` lacks, if any.
pub open spec fn first_missing(b: DefinitionBuilder) -> Option<BuildError> {
    if b.key is None {
        Some(BuildError::MissingKey)
    } else if b.default_value is None {
        Some(BuildError::MissingDefaultValue)
    } else if b.type_def is None {
        Some(BuildError::MissingTypeDef)
    } else if b.description is None {
        Some(BuildError::MissingDescription)
    } else {
        None
    }
}

/// `d` is what `build` makes of the complete builder `b`: the given fields
/// kept, each derived field given explicitly kept as given, the others
/// computed.
pub open spec fn built_from(d: Definition, b: DefinitionBuilder) -> bool {
    let key = b.key->0@;
    let default_value = b.default_value->0;
    let type_def = b.type_def->0;
    let multiple = b.multiple.unwrap_or(false);
    &&& d.key@ == key
    &&& d.default_value == default_value
    &&& d.type_def == type_def
    &&& d.description@ == b.description->0@
    &&& d.env_export == b.env_export.unwrap_or(true)
    &&& d.multiple == multiple
    &&& d.default_description@ == text_or(b.default_description, type_text(default_value))
    &&& d.type_description@ == text_or(
        b.type_description,
        type_description_text(type_def, multiple),
    )
    &&& d.hint@ == text_or(b.hint, hint_text(type_def, key))
    &&& d.short == b.short
    &&& d.usage@ == text_or(
        b.usage,
        usage_text(type_def, aliases(b.short), default_value, key, d.hint@, multiple),
    )
    &&& d.deprecated == b.deprecated
    &&& d.exclusive == b.exclusive
    &&& d.terminal_cols == b.terminal_cols.unwrap_or(DEFAULT_TERMINAL_COLUMNS)
}

/// The strings `v`, each owned.
fn owned_all(v: &[&str]) -> (r: Vec<String>)
    ensures
        r@.len() == v@.len(),
        forall|i: int| 0 <= i < v@.len() ==> #[trigger] r@[i]@ == v@[i]@,
{
    let mut r: Vec<String> = Vec::new();
    let mut i: usize = 0;
    while i < v.len()
        invariant
            i <= v@.len(),
            r@.len() == i,
            forall|j: int| 0 <= j < i ==> #[trigger] r@[j]@ == v@[j]@,
        decreases v@.len() - i,
    {
        r.push(owned(v[i]));
        i = i + 1;
    }
    r
}

impl DefinitionBuilder {
    pub fn key(self, key: &str) -> (r: Self)
        ensures
            r.key matches Some(k) && k@ == key@,
            r == (DefinitionBuilder { key: r.key, ..self }),
    {
        DefinitionBuilder { key: Some(owned(key)), ..self }
    }

    pub fn default_value(self, default_value: TypeDef) -> (r: Self)
        ensures
            r == (DefinitionBuilder { default_value: Some(default_value), ..self }),
    {
        DefinitionBuilder { default_value: Some(default_value), ..self }
    }

    pub fn type_def(self, type_def: TypeDef) -> (r: Self)
        ensures
            r == (DefinitionBuilder { type_def: Some(type_def), ..self }),
    {
        DefinitionBuilder { type_def: Some(type_def), ..self }
    }

    pub fn description(self, description: &str) -> (r: Self)
        ensures
            r.description matches Some(s) && s@ == description@,
            r == (DefinitionBuilder { description: r.description, ..self }),
    {
        DefinitionBuilder { description: Some(owned(description)), ..self }
    }

    pub fn env_export(self, env_export: bool) -> (r: Self)
        ensures
            r == (DefinitionBuilder { env_export: Some(env_export), ..self }),
    {
        DefinitionBuilder { env_export: Some(env_export), ..self }
    }

    pub fn multiple(self, multiple: bool) -> (r: Self)
        ensures
            r == (DefinitionBuilder { multiple: Some(multiple), ..self }),
    {
        DefinitionBuilder { multiple: Some(multiple), ..self }
    }

    pub fn default_description(self, default_description: &str) -> (r: Self)
        ensures
            r.default_description matches Some(s) && s@ == default_description@,
            r == (DefinitionBuilder { default_description: r.default_description, ..self }),
    {
        DefinitionBuilder { default_description: Some(owned(default_description)), ..self }
    }

    pub fn type_description(self, type_description: &str) -> (r: Self)
        ensures
            r.type_description matches Some(s) && s@ == type_description@,
            r == (DefinitionBuilder { type_description: r.type_description, ..self }),
    {
        DefinitionBuilder { type_description: Some(owned(type_description)), ..self }
    }

    pub fn hint(self, hint: &str) -> (r: Self)
        ensures
            r.hint matches Some(s) && s@ == hint@,
            r == (DefinitionBuilder { hint: r.hint, ..self }),
    {
        DefinitionBuilder { hint: Some(owned(hint)), ..self }
    }

    pub fn short(self, short: &[&str]) -> (r: Self)
        ensures
            r.short matches Some(v) && v@.len() == short@.len() && forall|i: int|
                0 <= i < short@.len() ==> #[trigger] v@[i]@ == short@[i]@,
            r == (DefinitionBuilder { short: r.short, ..self }),
    {
        DefinitionBuilder { short: Some(owned_all(short)), ..self }
    }

    pub fn usage(self, usage: &str) -> (r: Self)
        ensures
            r.usage matches Some(s) && s@ == usage@,
            r == (DefinitionBuilder { usage: r.usage, ..self }),
    {
        DefinitionBuilder { usage: Some(owned(usage)), ..self }
    }

    pub fn deprecated(self, deprecated: &str) -> (r: Self)
        ensures
            r.deprecated matches Some(s) && s@ == deprecated@,
            r == (DefinitionBuilder { deprecated: r.deprecated, ..self }),
    {
        DefinitionBuilder { deprecated: Some(owned(deprecated)), ..self }
    }

    pub fn exclusive(self, exclusive: &[&str]) -> (r: Self)
        ensures
            r.exclusive matches Some(v) && v@.len() == exclusive@.len() && forall|i: int|
                0 <= i < exclusive@.len() ==> #[trigger] v@[i]@ == exclusive@[i]@,
            r == (DefinitionBuilder { exclusive: r.exclusive, ..self }),
    {
        DefinitionBuilder { exclusive: Some(owned_all(exclusive)), ..self }
    }

    pub fn terminal_cols(self, terminal_cols: usize) -> (r: Self)
        ensures
            r == (DefinitionBuilder { terminal_cols: Some(terminal_cols), ..self }),
    {
        DefinitionBuilder { terminal_cols: Some(terminal_cols), ..self }
    }

    /// Checks that the key, default value, domain and description are set,
    /// and derives the default description, type description, hint and usage
    /// that were not given explicitly. An explicit value always wins.
    pub fn build(self) -> (r: Result<Definition, BuildError>)
        ensures
            first_missing(self) matches Some(e) ==> r == Err::<Definition, BuildError>(e),
            first_missing(self) is None ==> (r matches Ok(d) && built_from(d, self)),
    {
        let ghost b = self;
        let DefinitionBuilder {
            key,
            default_value,
            type_def,
            description,
            env_export,
            multiple,
            default_description,
            type_description,
            hint: given_hint,
            short,
            usage,
            deprecated,
            exclusive,
            terminal_cols,
        } = self;
        let key = match key {
            Some(k) => k,
            None => return Err(BuildError::MissingKey),
        };
        let default_value = match default_value {
            Some(v) => v,
            None => return Err(BuildError::MissingDefaultValue),
        };
        let type_def = match type_def {
            Some(t) => t,
            None => return Err(BuildError::MissingTypeDef),
        };
        let description = match description {
            Some(d) => d,
            None => return Err(BuildError::MissingDescription),
        };
        let multiple = match multiple {
            Some(m) => m,
            None => false,
        };
        let default_description = match default_description {
            Some(d) => d,
            None => default_value.description(),
        };
        let type_description = match type_description {
            Some(t) => t,
            None => describe_type(&type_def, multiple),
        };
        let hint = match given_hint {
            Some(h) => h,
            None => hint(&type_def, key.as_str()),
        };
        let usage = match usage {
            Some(u) => u,
            None => describe_usage(
                &type_def,
                &short,
                &default_value,
                key.as_str(),
                hint.as_str(),
                multiple,
            ),
        };
        let terminal_cols = match terminal_cols {
            Some(c) => c,
            None => DEFAULT_TERMINAL_COLUMNS,
        };
        let env_export = match env_export {
            Some(e) => e,
            None => true,
        };
        Ok(
            Definition {
                key,
                default_value,
                type_def,
                description,
                env_export,
                multiple,
                default_description,
                type_description,
                hint,
                short,
                usage,
                deprecated,
                exclusive,
                terminal_cols,
            },
        )
    }
}

/// The note that closes the entry of an option that is not exported.
pub open spec fn env_note() -> Seq<char> {
    "\nThis value is not exported to the environment for child processes.\n"@
}

/// The bullet that marks an option as deprecated, if it is.
pub open spec fn deprecated_line(deprecated: Option<String>) -> Seq<char> {
    match deprecated {
        Some(v) => "* DEPRECATED: "@ + unindented(v@) + "\n"@,
        None => Seq::empty(),
    }
}

/// The note that lists the options this one cannot be combined with.
pub open spec fn exclusive_note(exclusive: Option<Vec<String>>) -> Seq<char> {
    match exclusive {
        Some(v) => "\nThis config can not be used with: `"@ + join(views(v@), "`, `"@) + "`"@,
        None => Seq::empty(),
    }
}

/// The markdown entry of an option before it is reflowed.
pub open spec fn document(d: Definition) -> Seq<char> {
    "#### `"@ + d.key@ + "`\n\n* Default: "@ + unindented(d.default_description@) + "\n* Type: "@
        + unindented(d.type_description@) + "\n"@ + deprecated_line(d.deprecated) + "\n"@
        + unindented(d.description@) + "\n"@ + exclusive_note(d.exclusive) + "\n"@ + (if d.env_export {
        Seq::empty()
    } else {
        env_note()
    })
}

/// `s` ends with `t`.
pub open spec fn ends_with(s: Seq<char>, t: Seq<char>) -> bool {
    s.len() >= t.len() && s.subrange(s.len() - t.len(), s.len() as int) == t
}

/// The assembled entry of an option ends with the note that its value is not
/// exported to child processes exactly when it is not exported.
pub proof fn lemma_env_note(d: Definition)
    ensures
        ends_with(document(d), env_note()) <==> !d.env_export,
{
    let doc = document(d);
    let note = env_note();
    reveal_strlit("\nThis value is not exported to the environment for child processes.\n");
    reveal_strlit("\n");
    reveal_strlit("`");
    if d.env_export {
        let x = exclusive_note(d.exclusive);
        let head = doc.subrange(0, doc.len() - 1 - x.len());
        assert(doc =~= head + x + "\n"@);
        if doc.len() >= note.len() {
            let tail = doc.subrange(doc.len() - note.len(), doc.len() as int);
            assert(note[note.len() - 2] == '.');
            assert(tail[note.len() - 2] == doc[doc.len() - 2]);
            if x.len() == 0 {
                assert(head.last() == '\n');
                assert(doc[doc.len() - 2] == '\n');
            } else {
                assert(x.last() == '`');
                assert(doc[doc.len() - 2] == '`');
            }
        }
    } else {
        let head = doc.subrange(0, doc.len() - note.len());
        assert(doc =~= head + note);
        assert(doc.subrange(doc.len() - note.len(), doc.len() as int) =~= note);
    }
}

impl Definition {
    /// A builder with no field set.
    pub fn builder() -> (r: DefinitionBuilder)
        ensures
            r.key is None,
            r.default_value is None,
            r.type_def is None,
            r.description is None,
            r.env_export is None,
            r.multiple is None,
            r.default_description is None,
            r.type_description is None,
            r.hint is None,
            r.short is None,
            r.usage is None,
            r.deprecated is None,
            r.exclusive is None,
            r.terminal_cols is None,
    {
        DefinitionBuilder {
            key: None,
            default_value: None,
            type_def: None,
            description: None,
            env_export: None,
            multiple: None,
            default_description: None,
            type_description: None,
            hint: None,
            short: None,
            usage: None,
            deprecated: None,
            exclusive: None,
            terminal_cols: None,
        }
    }

    /// The markdown entry of this option: a heading with the key, bullets
    /// with the default and the type, a deprecation bullet, the description,
    /// the options it excludes and, when it is not exported, a note saying
    /// so; each part unindented, the whole reflowed for the option's
    /// terminal width.
    pub fn describe(&self) -> (r: String)
        ensures
            r@ == wrap_all_text(document(*self), self.terminal_cols as int),
    {
        let mut deprecated = String::new();
        match &self.deprecated {
            Some(v) => {
                push_str(&mut deprecated, "* DEPRECATED: ");
                let u = unindent_str(v.as_str());
                push_str(&mut deprecated, u.as_str());
                push_str(&mut deprecated, "\n");
            },
            None => {},
        }
        let mut exclusive = String::new();
        match &self.exclusive {
            Some(v) => {
                push_str(&mut exclusive, "\nThis config can not be used with: `");
                let joined = join_strings(v, "`, `");
                push_str(&mut exclusive, joined.as_str());
                push_str(&mut exclusive, "`");
            },
            None => {},
        }
        let mut note = String::new();
        if !self.env_export {
            push_str(
                &mut note,
                "\nThis value is not exported to the environment for child processes.\n",
            );
        }
        let mut r = owned("#### `");
        push_str(&mut r, self.key.as_str());
        push_str(&mut r, "`\n\n* Default: ");
        let default_description = unindent_str(self.default_description.as_str());
        push_str(&mut r, default_description.as_str());
        push_str(&mut r, "\n* Type: ");
        let type_description = unindent_str(self.type_description.as_str());
        push_str(&mut r, type_description.as_str());
        push_str(&mut r, "\n");
        push_str(&mut r, deprecated.as_str());
        push_str(&mut r, "\n");
        let description = unindent_str(self.description.as_str());
        push_str(&mut r, description.as_str());
        push_str(&mut r, "\n");
        push_str(&mut r, exclusive.as_str());
        push_str(&mut r, "\n");
        push_str(&mut r, note.as_str());
        assert(deprecated@ =~= deprecated_line(self.deprecated));
        assert(exclusive@ =~= exclusive_note(self.exclusive));
        assert(r@ =~= document(*self));
        wrap_all(r, self.terminal_cols)
    }
}

} // verus!
