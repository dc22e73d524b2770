//! The domain of values an option accepts, and how it reads in prose.
use vstd::prelude::*;

use crate::text::{owned, push_char, push_str};

verus! {

broadcast use vstd::std_specs::vec::group_vec_axioms, vstd::seq::group_seq_axioms;

/// A domain of values: a scalar category, one literal value, or a union of
/// domains (the value must match one of them; the order is kept when the
/// union is rendered).
pub enum TypeDef {
    String,
    StringV(String),
    Boolean,
    BooleanV(bool),
    Url,
    Number,
    NumberV(i32),
    Path,
    Date,
    Semver,
    Umask,
    Null,
    Array(Vec<TypeDef>),
}

/// `s` between double quotes.
pub open spec fn quoted(s: Seq<char>) -> Seq<char> {
    seq!['"'] + s + seq!['"']
}

pub open spec fn bool_text(b: bool) -> Seq<char> {
    if b {
        "true"@
    } else {
        "false"@
    }
}

/// The decimal digit for `d` in `0..10`.
pub open spec fn digit_char(d: int) -> char {
    if d == 0 {
        '0'
    } else if d == 1 {
        '1'
    } else if d == 2 {
        '2'
    } else if d == 3 {
        '3'
    } else if d == 4 {
        '4'
    } else if d == 5 {
        '5'
    } else if d == 6 {
        '6'
    } else if d == 7 {
        '7'
    } else if d == 8 {
        '8'
    } else {
        '9'
    }
}

/// The decimal digits of `n`, without leading zeros.
pub open spec fn digits(n: nat) -> Seq<char>
    decreases n,
{
    if n < 10 {
        seq![digit_char(n as int)]
    } else {
        digits(n / 10).push(digit_char(n as int % 10))
    }
}

/// `n` in decimal, with a leading minus sign when negative.
pub open spec fn decimal(n: int) -> Seq<char> {
    if n < 0 {
        seq!['-'] + digits((-n) as nat)
    } else {
        digits(n as nat)
    }
}

/// Each of `items` followed by a comma and a space.
pub open spec fn comma_prefix(items: Seq<Seq<char>>) -> Seq<char>
    decreases items.len(),
{
    if items.len() == 0 {
        Seq::empty()
    } else {
        comma_prefix(items.subrange(0, items.len() - 1)) + items.last() + ", "@
    }
}

/// English list grammar with "or": `A`, `A or B`, `A, B, or C`.
pub open spec fn or_list(items: Seq<Seq<char>>) -> Seq<char> {
    if items.len() == 0 {
        Seq::empty()
    } else if items.len() == 1 {
        items[0]
    } else if items.len() == 2 {
        items[0] + " or "@ + items[1]
    } else {
        comma_prefix(items.subrange(0, items.len() - 1)) + "or "@ + items.last()
    }
}

/// The prose rendering of a domain.
pub open spec fn type_text(t: TypeDef) -> Seq<char>
    decreases t,
{
    match t {
        TypeDef::String => "String"@,
        TypeDef::StringV(s) => quoted(s@),
        TypeDef::Boolean => "Boolean"@,
        TypeDef::BooleanV(b) => bool_text(b),
        TypeDef::Url => "URL"@,
        TypeDef::Number => "Number"@,
        TypeDef::NumberV(n) => decimal(n as int),
        TypeDef::Path => "Path"@,
        TypeDef::Date => "Date"@,
        TypeDef::Semver => "SemVer string"@,
        TypeDef::Umask => "Octal numeric string in range 0000..0777 (0..511)"@,
        TypeDef::Null => "null"@,
        TypeDef::Array(v) => or_list(children_text(v@)),
    }
}

/// The renderings of the members of a union, in order.
pub open spec fn children_text(s: Seq<TypeDef>) -> Seq<Seq<char>>
    decreases s,
{
    if s.len() == 0 {
        Seq::empty()
    } else {
        children_text(s.subrange(0, s.len() - 1)).push(type_text(s.last()))
    }
}

/// The domain admits `value`: a literal the domain describes, or a list of
/// such literals (the values of an option set several times). A scalar
/// category admits the literals of its kind (Url, Path, Date and Semver are
/// written as strings; Umask as a string or a number), a literal admits
/// itself, a union admits what one of its members admits.
pub open spec fn admits(domain: TypeDef, value: TypeDef) -> bool
    decreases value, domain,
{
    match value {
        TypeDef::Array(items) => admits_all(domain, items@),
        _ => match domain {
            TypeDef::String => value is StringV,
            TypeDef::StringV(s) => value is StringV && value->StringV_0@ == s@,
            TypeDef::Boolean => value is BooleanV,
            TypeDef::BooleanV(b) => value == TypeDef::BooleanV(b),
            TypeDef::Url => value is StringV,
            TypeDef::Number => value is NumberV,
            TypeDef::NumberV(n) => value == TypeDef::NumberV(n),
            TypeDef::Path => value is StringV,
            TypeDef::Date => value is StringV,
            TypeDef::Semver => value is StringV,
            TypeDef::Umask => value is StringV || value is NumberV,
            TypeDef::Null => value is Null,
            TypeDef::Array(members) => admits_some(value, members@),
        },
    }
}

/// The domain admits each of `items`.
pub open spec fn admits_all(domain: TypeDef, items: Seq<TypeDef>) -> bool
    decreases items, domain,
{
    if items.len() == 0 {
        true
    } else {
        admits_all(domain, items.subrange(0, items.len() - 1)) && admits(domain, items.last())
    }
}

/// One of `members` admits `value`.
pub open spec fn admits_some(value: TypeDef, members: Seq<TypeDef>) -> bool
    decreases value, members,
{
    if members.len() == 0 {
        false
    } else {
        admits_some(value, members.subrange(0, members.len() - 1)) || admits(members.last(), value)
    }
}

pub proof fn lemma_children_text(s: Seq<TypeDef>)
    ensures
        children_text(s).len() == s.len(),
        forall|i: int| 0 <= i < s.len() ==> #[trigger] children_text(s)[i] == type_text(s[i]),
    decreases s.len(),
{
    if s.len() > 0 {
        let p = s.subrange(0, s.len() - 1);
        lemma_children_text(p);
        assert forall|i: int| 0 <= i < s.len() implies #[trigger] children_text(s)[i] == type_text(
            s[i],
        ) by {
            if i < s.len() - 1 {
                assert(p[i] == s[i]);
            }
        }
    }
}

fn is_string(value: &TypeDef) -> (r: bool)
    ensures
        r == value is StringV,
{
    match value {
        TypeDef::StringV(_) => true,
        _ => false,
    }
}

/// A list one of whose first `k` items is refused is refused.
proof fn lemma_admits_all_prefix(domain: TypeDef, items: Seq<TypeDef>, k: int)
    requires
        0 <= k <= items.len(),
        !admits_all(domain, items.subrange(0, k)),
    ensures
        !admits_all(domain, items),
    decreases items.len() - k,
{
    if k < items.len() {
        assert(items.subrange(0, k + 1).subrange(0, k) =~= items.subrange(0, k));
        lemma_admits_all_prefix(domain, items, k + 1);
    } else {
        assert(items.subrange(0, k) =~= items);
    }
}

/// A value one of the first `k` members admits is admitted by the union.
proof fn lemma_admits_some_prefix(value: TypeDef, members: Seq<TypeDef>, k: int)
    requires
        0 <= k <= members.len(),
        admits_some(value, members.subrange(0, k)),
    ensures
        admits_some(value, members),
    decreases members.len() - k,
{
    if k < members.len() {
        assert(members.subrange(0, k + 1).subrange(0, k) =~= members.subrange(0, k));
        lemma_admits_some_prefix(value, members, k + 1);
    } else {
        assert(members.subrange(0, k) =~= members);
    }
}

fn digit(d: u64) -> (c: char)
    requires
        d < 10,
    ensures
        c == digit_char(d as int),
{
    if d == 0 {
        '0'
    } else if d == 1 {
        '1'
    } else if d == 2 {
        '2'
    } else if d == 3 {
        '3'
    } else if d == 4 {
        '4'
    } else if d == 5 {
        '5'
    } else if d == 6 {
        '6'
    } else if d == 7 {
        '7'
    } else if d == 8 {
        '8'
    } else {
        '9'
    }
}

fn push_digits(s: &mut String, n: u64)
    ensures
        final(s)@ == old(s)@ + digits(n as nat),
    decreases n,
{
    if n >= 10 {
        push_digits(s, n / 10);
    }
    push_char(s, digit(n % 10));
    assert(final(s)@ =~= old(s)@ + digits(n as nat));
}

/// `n` in decimal.
pub(crate) fn decimal_string(n: i32) -> (r: String)
    ensures
        r@ == decimal(n as int),
{
    let mut r = String::new();
    let wide = n as i64;
    if wide < 0 {
        push_char(&mut r, '-');
        push_digits(&mut r, (-wide) as u64);
    } else {
        push_digits(&mut r, wide as u64);
    }
    assert(r@ =~= decimal(n as int));
    r
}

/// Renders `items` with English list grammar.
fn or_list_string(items: &Vec<String>) -> (r: String)
    ensures
        r@ == or_list(crate::text::views(items@)),
{
    let ghost v = crate::text::views(items@);
    let n = items.len();
    if n == 0 {
        String::new()
    } else if n == 1 {
        owned(items[0].as_str())
    } else if n == 2 {
        let mut r = owned(items[0].as_str());
        push_str(&mut r, " or ");
        push_str(&mut r, items[1].as_str());
        r
    } else {
        let mut r = String::new();
        let mut i: usize = 0;
        while i < n - 1
            invariant
                n == items@.len(),
                v == crate::text::views(items@),
                n >= 3,
                i <= n - 1,
                r@ == comma_prefix(v.subrange(0, i as int)),
            decreases n - 1 - i,
        {
            push_str(&mut r, items[i].as_str());
            push_str(&mut r, ", ");
            assert(v.subrange(0, i + 1).subrange(0, i as int) =~= v.subrange(0, i as int));
            assert(r@ =~= comma_prefix(v.subrange(0, i + 1)));
            i = i + 1;
        }
        push_str(&mut r, "or ");
        push_str(&mut r, items[n - 1].as_str());
        r
    }
}

impl Clone for TypeDef {
    fn clone(&self) -> Self {
        self.duplicate()
    }
}

impl TypeDef {
    /// A deep copy, member by member.
    fn duplicate(&self) -> TypeDef
        decreases self,
    {
        match self {
            TypeDef::String => TypeDef::String,
            TypeDef::StringV(s) => TypeDef::StringV(owned(s.as_str())),
            TypeDef::Boolean => TypeDef::Boolean,
            TypeDef::BooleanV(b) => TypeDef::BooleanV(*b),
            TypeDef::Url => TypeDef::Url,
            TypeDef::Number => TypeDef::Number,
            TypeDef::NumberV(n) => TypeDef::NumberV(*n),
            TypeDef::Path => TypeDef::Path,
            TypeDef::Date => TypeDef::Date,
            TypeDef::Semver => TypeDef::Semver,
            TypeDef::Umask => TypeDef::Umask,
            TypeDef::Null => TypeDef::Null,
            TypeDef::Array(v) => {
                let mut items: Vec<TypeDef> = Vec::new();
                let mut i: usize = 0;
                while i < v.len()
                    invariant
                        *self == TypeDef::Array(*v),
                        i <= v@.len(),
                    decreases v@.len() - i,
                {
                    proof {
                        assert(decreases_to!(*self => self->Array_0));
                        assert(decreases_to!(*v => v[i as int]));
                    }
                    items.push(v[i].duplicate());
                    i = i + 1;
                }
                TypeDef::Array(items)
            },
        }
    }

    /// Whether this domain admits `value` (see `admits`).
    pub fn validate(&self, value: &TypeDef) -> (r: bool)
        ensures
            r == admits(*self, *value),
        decreases value, self,
    {
        match value {
            TypeDef::Array(items) => {
                let mut i: usize = 0;
                while i < items.len()
                    invariant
                        *value == TypeDef::Array(*items),
                        i <= items@.len(),
                        admits_all(*self, items@.subrange(0, i as int)),
                    decreases items@.len() - i,
                {
                    proof {
                        assert(decreases_to!(*value => value->Array_0));
                        assert(decreases_to!(*items => items[i as int]));
                        assert(items@.subrange(0, i + 1).subrange(0, i as int) =~= items@.subrange(
                            0,
                            i as int,
                        ));
                    }
                    if !self.validate(&items[i]) {
                        assert(!admits_all(*self, items@.subrange(0, i + 1)));
                        proof {
                            lemma_admits_all_prefix(*self, items@, i + 1);
                        }
                        return false;
                    }
                    i = i + 1;
                }
                assert(items@.subrange(0, items@.len() as int) =~= items@);
                true
            },
            _ => match self {
                TypeDef::String => is_string(value),
                TypeDef::StringV(s) => match value {
                    TypeDef::StringV(v) => *v == *s,
                    _ => false,
                },
                TypeDef::Boolean => match value {
                    TypeDef::BooleanV(_) => true,
                    _ => false,
                },
                TypeDef::BooleanV(b) => match value {
                    TypeDef::BooleanV(v) => *v == *b,
                    _ => false,
                },
                TypeDef::Url => is_string(value),
                TypeDef::Number => match value {
                    TypeDef::NumberV(_) => true,
                    _ => false,
                },
                TypeDef::NumberV(n) => match value {
                    TypeDef::NumberV(v) => *v == *n,
                    _ => false,
                },
                TypeDef::Path => is_string(value),
                TypeDef::Date => is_string(value),
                TypeDef::Semver => is_string(value),
                TypeDef::Umask => match value {
                    TypeDef::StringV(_) => true,
                    TypeDef::NumberV(_) => true,
                    _ => false,
                },
                TypeDef::Null => match value {
                    TypeDef::Null => true,
                    _ => false,
                },
                TypeDef::Array(members) => {
                    let mut i: usize = 0;
                    while i < members.len()
                        invariant
                            *self == TypeDef::Array(*members),
                            !(value is Array),
                            i <= members@.len(),
                            !admits_some(*value, members@.subrange(0, i as int)),
                        decreases members@.len() - i,
                    {
                        proof {
                            assert(decreases_to!(*self => self->Array_0));
                            assert(decreases_to!(*members => members[i as int]));
                            assert(members@.subrange(0, i + 1).subrange(0, i as int)
                                =~= members@.subrange(0, i as int));
                        }
                        if members[i].validate(value) {
                            proof {
                                lemma_admits_some_prefix(*value, members@, i + 1);
                            }
                            return true;
                        }
                        i = i + 1;
                    }
                    assert(members@.subrange(0, members@.len() as int) =~= members@);
                    false
                },
            },
        }
    }

    /// The prose rendering of this domain: a scalar's name, a literal's value
    /// (strings quoted), or a union's members in English list grammar.
    pub fn description(&self) -> (r: String)
        ensures
            r@ == type_text(*self),
        decreases self,
    {
        match self {
            TypeDef::String => owned("String"),
            TypeDef::StringV(s) => {
                let mut r = String::new();
                push_char(&mut r, '"');
                push_str(&mut r, s.as_str());
                push_char(&mut r, '"');
                assert(r@ =~= quoted(s@));
                r
            },
            TypeDef::Boolean => owned("Boolean"),
            TypeDef::BooleanV(b) => {
                if *b {
                    owned("true")
                } else {
                    owned("false")
                }
            },
            TypeDef::Url => owned("URL"),
            TypeDef::Number => owned("Number"),
            TypeDef::NumberV(n) => decimal_string(*n),
            TypeDef::Path => owned("Path"),
            TypeDef::Date => owned("Date"),
            TypeDef::Semver => owned("SemVer string"),
            TypeDef::Umask => owned("Octal numeric string in range 0000..0777 (0..511)"),
            TypeDef::Null => owned("null"),
            TypeDef::Array(v) => {
                let mut items: Vec<String> = Vec::new();
                let mut i: usize = 0;
                while i < v.len()
                    invariant
                        *self == TypeDef::Array(*v),
                        i <= v@.len(),
                        items@.len() == i,
                        forall|j: int| 0 <= j < i ==> #[trigger] items@[j]@ == type_text(v@[j]),
                    decreases v@.len() - i,
                {
                    proof {
                        assert(decreases_to!(*self => self->Array_0));
                        assert(decreases_to!(*v => v[i as int]));
                    }
                    let item = v[i].description();
                    items.push(item);
                    i = i + 1;
                }
                proof {
                    lemma_children_text(v@);
                    assert(crate::text::views(items@) =~= children_text(v@));
                }
                or_list_string(&items)
            },
        }
    }
}

} // verus!
