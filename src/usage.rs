//! The placeholder and usage fragment a command line shows for an option.
use vstd::prelude::*;

use crate::text::{join, join_strings, owned, push_char, push_str, views};
use crate::type_def::{type_text, TypeDef};

verus! {

broadcast use vstd::std_specs::vec::group_vec_axioms, vstd::seq::group_seq_axioms;

/// A union member that stands for a value to type: anything but `null` and
/// the generic Boolean.
pub open spec fn takes_value(t: TypeDef) -> bool {
    !(t is Null || t is Boolean)
}

/// The members of a union that take a value, in order.
pub open spec fn value_members(s: Seq<TypeDef>) -> Seq<TypeDef>
    decreases s.len(),
{
    if s.len() == 0 {
        Seq::empty()
    } else {
        let p = value_members(s.subrange(0, s.len() - 1));
        if takes_value(s.last()) {
            p.push(s.last())
        } else {
            p
        }
    }
}

/// A literal string singleton with at least one character.
pub open spec fn is_word_literal(t: TypeDef) -> bool {
    t is StringV && t->StringV_0@.len() > 0
}

pub open spec fn all_word_literals(s: Seq<TypeDef>) -> bool {
    forall|i: int| 0 <= i < s.len() ==> is_word_literal(#[trigger] s[i])
}

/// The texts of a sequence of literal string singletons.
pub open spec fn literal_texts(s: Seq<TypeDef>) -> Seq<Seq<char>> {
    s.map_values(|t: TypeDef| t->StringV_0@)
}

/// The union holds the generic Boolean among its members.
pub open spec fn has_boolean(s: Seq<TypeDef>) -> bool {
    exists|i: int| 0 <= i < s.len() && #[trigger] s[i] is Boolean
}

/// The domain is the Number scalar, or a union whose one member that takes a
/// value is the Number scalar.
pub open spec fn is_number_domain(t: TypeDef) -> bool {
    match t {
        TypeDef::Number => true,
        TypeDef::Array(v) => value_members(v@).len() == 1 && value_members(v@)[0] is Number,
        _ => false,
    }
}

/// `s` between angle brackets.
pub open spec fn angled(s: Seq<char>) -> Seq<char> {
    seq!['<'] + s + seq!['>']
}

/// The placeholder for an option's value.
pub open spec fn hint_text(t: TypeDef, key: Seq<char>) -> Seq<char> {
    if is_number_domain(t) {
        "<number>"@
    } else {
        angled(key)
    }
}

/// The prose of a domain, with a note when the option may be repeated.
pub open spec fn type_description_text(t: TypeDef, multiple: bool) -> Seq<char> {
    if multiple {
        type_text(t) + " (can be set multiple times)"@
    } else {
        type_text(t)
    }
}

/// The short aliases an option has: none when the list is absent.
pub open spec fn aliases(short: Option<Vec<String>>) -> Seq<Seq<char>> {
    match short {
        Some(v) => views(v@),
        None => Seq::empty(),
    }
}

/// `-a,b|` before the flag when there are aliases, else nothing.
pub open spec fn alias_prefix(aliases: Seq<Seq<char>>) -> Seq<char> {
    if aliases.len() > 0 {
        seq!['-'] + join(aliases, ","@) + seq!['|']
    } else {
        Seq::empty()
    }
}

/// The usage fragment for one occurrence of the option.
pub open spec fn single_usage(
    t: TypeDef,
    aliases: Seq<Seq<char>>,
    default: TypeDef,
    key: Seq<char>,
    hint: Seq<char>,
) -> Seq<char> {
    match t {
        TypeDef::Array(v) => {
            let base = alias_prefix(aliases) + "--"@ + key;
            let vm = value_members(v@);
            if vm.len() == 0 {
                base
            } else {
                let value_hint = if all_word_literals(vm) {
                    angled(join(literal_texts(vm), "|"@))
                } else {
                    hint
                };
                let flag = if has_boolean(v@) {
                    "--no-"@ + key + seq!['|'] + base
                } else {
                    base
                };
                flag + seq![' '] + value_hint
            }
        },
        _ => {
            let name = if t is Boolean && default == TypeDef::BooleanV(true) {
                "--no-"@ + key
            } else {
                "--"@ + key
            };
            if t is Boolean {
                alias_prefix(aliases) + name
            } else {
                alias_prefix(aliases) + name + seq![' '] + hint
            }
        },
    }
}

/// `u [u ...]`: the form of a fragment that may be repeated.
pub open spec fn repeatable(u: Seq<char>) -> Seq<char> {
    u + " ["@ + u + " ...]"@
}

/// The usage fragment of an option.
pub open spec fn usage_text(
    t: TypeDef,
    aliases: Seq<Seq<char>>,
    default: TypeDef,
    key: Seq<char>,
    hint: Seq<char>,
    multiple: bool,
) -> Seq<char> {
    if multiple {
        repeatable(single_usage(t, aliases, default, key, hint))
    } else {
        single_usage(t, aliases, default, key, hint)
    }
}

/// The placeholder for an option's value: `<number>` for a numeric domain,
/// else the key between angle brackets.
pub fn hint(type_def: &TypeDef, key: &str) -> (r: String)
    ensures
        r@ == hint_text(*type_def, key@),
{
    let number = match type_def {
        TypeDef::Number => true,
        TypeDef::Array(v) => {
            let (count, first_number) = count_value_members(v);
            count == 1 && first_number
        },
        _ => false,
    };
    if number {
        owned("<number>")
    } else {
        let mut r = String::new();
        push_char(&mut r, '<');
        push_str(&mut r, key);
        push_char(&mut r, '>');
        assert(r@ =~= angled(key@));
        r
    }
}

/// How many members of the union take a value, and whether the first of them
/// is the Number scalar.
fn count_value_members(v: &Vec<TypeDef>) -> (r: (usize, bool))
    ensures
        r.0 == value_members(v@).len(),
        r.0 > 0 ==> (r.1 <==> value_members(v@)[0] is Number),
{
    let mut count: usize = 0;
    let mut first_number = false;
    let mut i: usize = 0;
    while i < v.len()
        invariant
            i <= v@.len(),
            count == value_members(v@.subrange(0, i as int)).len(),
            count <= i,
            count > 0 ==> (first_number <==> value_members(v@.subrange(0, i as int))[0] is Number),
        decreases v@.len() - i,
    {
        let ghost p = v@.subrange(0, i as int);
        assert(v@.subrange(0, i + 1).subrange(0, i as int) =~= p);
        let member = &v[i];
        let takes = match member {
            TypeDef::Null => false,
            TypeDef::Boolean => false,
            _ => true,
        };
        if takes {
            if count == 0 {
                first_number = match member {
                    TypeDef::Number => true,
                    _ => false,
                };
            }
            count = count + 1;
        }
        i = i + 1;
    }
    assert(v@.subrange(0, v@.len() as int) =~= v@);
    (count, first_number)
}

/// The prose of a domain, followed by ` (can be set multiple times)` when the
/// option may be repeated.
pub fn describe_type(type_def: &TypeDef, multiple: bool) -> (r: String)
    ensures
        r@ == type_description_text(*type_def, multiple),
{
    let mut r = type_def.description();
    if multiple {
        push_str(&mut r, " (can be set multiple times)");
    }
    r
}

/// What the usage fragment of a union needs to know of its members.
struct UnionSummary {
    /// Members that take a value.
    values: usize,
    /// Every member that takes a value is a non-empty literal string.
    all_literals: bool,
    /// Those literals, in order, when `all_literals` holds.
    literals: Vec<String>,
    /// The generic Boolean is a member.
    boolean: bool,
}

fn summarize(v: &Vec<TypeDef>) -> (r: UnionSummary)
    ensures
        r.values == value_members(v@).len(),
        r.all_literals == all_word_literals(value_members(v@)),
        r.all_literals ==> views(r.literals@) == literal_texts(value_members(v@)),
        r.boolean == has_boolean(v@),
{
    let mut r = UnionSummary { values: 0, all_literals: true, literals: Vec::new(), boolean: false };
    let mut i: usize = 0;
    while i < v.len()
        invariant
            i <= v@.len(),
            r.values == value_members(v@.subrange(0, i as int)).len(),
            r.values <= i,
            r.all_literals == all_word_literals(value_members(v@.subrange(0, i as int))),
            r.all_literals ==> views(r.literals@) == literal_texts(
                value_members(v@.subrange(0, i as int)),
            ),
            r.boolean == has_boolean(v@.subrange(0, i as int)),
        decreases v@.len() - i,
    {
        let ghost p = v@.subrange(0, i as int);
        let ghost q = v@.subrange(0, i + 1);
        let ghost before = value_members(p);
        assert(q.subrange(0, i as int) =~= p);
        assert(q.last() == v@[i as int]);
        let member = &v[i];
        match member {
            TypeDef::Null => {},
            TypeDef::Boolean => {
                r.boolean = true;
            },
            TypeDef::StringV(s) => {
                if s.unicode_len() == 0 {
                    r.all_literals = false;
                } else if r.all_literals {
                    r.literals.push(s.clone());
                }
                r.values = r.values + 1;
            },
            _ => {
                r.all_literals = false;
                r.values = r.values + 1;
            },
        }
        proof {
            let after = value_members(q);
            if takes_value(*member) {
                assert(after == before.push(*member));
                assert(after.last() == *member);
                if r.all_literals {
                    assert forall|j: int| 0 <= j < after.len() implies is_word_literal(
                        #[trigger] after[j],
                    ) by {
                        if j < before.len() {
                            assert(after[j] == before[j]);
                        }
                    }
                    assert(literal_texts(after) =~= literal_texts(before).push(
                        member->StringV_0@,
                    ));
                    assert(views(r.literals@) =~= literal_texts(after));
                } else {
                    if !is_word_literal(*member) {
                        assert(!is_word_literal(after[after.len() - 1]));
                    } else {
                        assert(!all_word_literals(before));
                        let j = choose|j: int| 0 <= j < before.len() && !is_word_literal(before[j]);
                        assert(after[j] == before[j]);
                    }
                }
            } else {
                assert(after == before);
            }
            if r.boolean {
                if member is Boolean {
                    assert(q[i as int] is Boolean);
                } else {
                    let j = choose|j: int| 0 <= j < p.len() && p[j] is Boolean;
                    assert(q[j] == p[j]);
                }
            } else {
                assert forall|j: int| 0 <= j < q.len() implies !(#[trigger] q[j] is Boolean) by {
                    if j < p.len() {
                        assert(q[j] == p[j]);
                    }
                }
            }
        }
        i = i + 1;
    }
    assert(v@.subrange(0, v@.len() as int) =~= v@);
    r
}

/// Writes `-a,b|` into `s` when the option has short aliases.
fn push_alias_prefix(s: &mut String, short: &Option<Vec<String>>)
    ensures
        final(s)@ == old(s)@ + alias_prefix(aliases(*short)),
{
    match short {
        Some(v) => {
            if v.len() > 0 {
                push_char(s, '-');
                let joined = join_strings(v, ",");
                push_str(s, joined.as_str());
                push_char(s, '|');
            }
        },
        None => {},
    }
    assert(final(s)@ =~= old(s)@ + alias_prefix(aliases(*short)));
}

/// The usage fragment of an option: its flags (short aliases first, a
/// `--no-` form where a Boolean defaults on or is a member of a union) and
/// the placeholder or the literal choices of its value, repeated as
/// `u [u ...]` when the option may be set multiple times.
pub fn describe_usage(
    type_def: &TypeDef,
    short: &Option<Vec<String>>,
    default: &TypeDef,
    key: &str,
    hint: &str,
    multiple: bool,
) -> (r: String)
    ensures
        r@ == usage_text(*type_def, aliases(*short), *default, key@, hint@, multiple),
{
    let single = single_usage_string(type_def, short, default, key, hint);
    if multiple {
        let mut r = owned(single.as_str());
        push_str(&mut r, " [");
        push_str(&mut r, single.as_str());
        push_str(&mut r, " ...]");
        assert(r@ =~= repeatable(single@));
        r
    } else {
        single
    }
}

fn single_usage_string(
    type_def: &TypeDef,
    short: &Option<Vec<String>>,
    default: &TypeDef,
    key: &str,
    hint: &str,
) -> (r: String)
    ensures
        r@ == single_usage(*type_def, aliases(*short), *default, key@, hint@),
{
    let ghost al = aliases(*short);
    match type_def {
        TypeDef::Array(v) => {
            let mut base = String::new();
            push_alias_prefix(&mut base, short);
            push_str(&mut base, "--");
            push_str(&mut base, key);
            assert(base@ =~= alias_prefix(al) + "--"@ + key@);
            let summary = summarize(v);
            if summary.values == 0 {
                return base;
            }
            let mut r = String::new();
            if summary.boolean {
                push_str(&mut r, "--no-");
                push_str(&mut r, key);
                push_char(&mut r, '|');
            }
            push_str(&mut r, base.as_str());
            push_char(&mut r, ' ');
            if summary.all_literals {
                push_char(&mut r, '<');
                let joined = join_strings(&summary.literals, "|");
                push_str(&mut r, joined.as_str());
                push_char(&mut r, '>');
            } else {
                push_str(&mut r, hint);
            }
            assert(r@ =~= single_usage(*type_def, al, *default, key@, hint@));
            r
        },
        _ => {
            let boolean = match type_def {
                TypeDef::Boolean => true,
                _ => false,
            };
            let defaults_on = match default {
                TypeDef::BooleanV(b) => *b,
                _ => false,
            };
            let mut r = String::new();
            push_alias_prefix(&mut r, short);
            if boolean && defaults_on {
                push_str(&mut r, "--no-");
            } else {
                push_str(&mut r, "--");
            }
            push_str(&mut r, key);
            if !boolean {
                push_char(&mut r, ' ');
                push_str(&mut r, hint);
            }
            assert(r@ =~= single_usage(*type_def, al, *default, key@, hint@));
            r
        },
    }
}

/// Allowing an option to be repeated turns its usage fragment `u`, whatever
/// it is, into `u [u ...]`.
pub proof fn lemma_multiple_wraps(
    t: TypeDef,
    aliases: Seq<Seq<char>>,
    default: TypeDef,
    key: Seq<char>,
    hint: Seq<char>,
)
    ensures
        usage_text(t, aliases, default, key, hint, true) == repeatable(
            usage_text(t, aliases, default, key, hint, false),
        ),
{
}

} // verus!
