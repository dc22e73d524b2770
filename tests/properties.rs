use mpn_config::definitions::AUTH_DESCRIPTION;
use mpn_config::usage::{describe_type, describe_usage, hint};
use mpn_config::wrap::{fill, reflow, split_str, split_words, wrap, wrap_all};
use mpn_config::{init_definitions, BuildError, Definition, TypeDef};

fn s(v: &str) -> TypeDef {
    TypeDef::StringV(v.to_string())
}

fn usage(t: &TypeDef, short: Option<Vec<String>>, default: &TypeDef, multiple: bool) -> String {
    let h = hint(t, "key");
    describe_usage(t, &short, default, "key", &h, multiple)
}

#[test]
fn union_rendering() {
    assert_eq!(TypeDef::Array(vec![]).description(), "");
    assert_eq!(TypeDef::Array(vec![TypeDef::Number]).description(), "Number");
    assert_eq!(
        TypeDef::Array(vec![TypeDef::Number, TypeDef::String]).description(),
        "Number or String"
    );
    assert_eq!(
        TypeDef::Array(vec![TypeDef::Number, TypeDef::String, TypeDef::Boolean]).description(),
        "Number, String, or Boolean"
    );
}

#[test]
fn nested_union_and_literals_render() {
    let t = TypeDef::Array(vec![
        TypeDef::NumberV(-2147483648),
        TypeDef::BooleanV(false),
        TypeDef::Array(vec![s("a"), TypeDef::Null]),
    ]);
    assert_eq!(t.description(), "-2147483648, false, or \"a\" or null");
    assert_eq!(TypeDef::NumberV(0).description(), "0");
    assert_eq!(TypeDef::NumberV(2147483647).description(), "2147483647");
    assert_eq!(TypeDef::BooleanV(true).description(), "true");
    assert_eq!(TypeDef::Semver.description(), "SemVer string");
    assert_eq!(TypeDef::Url.description(), "URL");
}

#[test]
fn clone_keeps_rendering() {
    let t = TypeDef::Array(vec![s("x"), TypeDef::Array(vec![TypeDef::NumberV(3)])]);
    assert_eq!(t.clone().description(), t.description());
}

#[test]
fn usage_of_string() {
    assert_eq!(usage(&TypeDef::String, None, &TypeDef::Null, false), "--key <key>");
}

#[test]
fn usage_with_short_alias() {
    let short = Some(vec!["t".to_string()]);
    assert_eq!(usage(&TypeDef::String, short, &TypeDef::Null, false), "-t|--key <key>");
    let two = Some(vec!["t".to_string(), "u".to_string()]);
    assert_eq!(usage(&TypeDef::String, two, &TypeDef::Null, false), "-t,u|--key <key>");
}

#[test]
fn usage_of_optional_boolean() {
    let t = TypeDef::Array(vec![TypeDef::Null, TypeDef::Boolean]);
    assert_eq!(usage(&t, None, &TypeDef::Null, false), "--key");
}

#[test]
fn usage_of_boolean_defaulting_on() {
    assert_eq!(usage(&TypeDef::Boolean, None, &TypeDef::BooleanV(true), false), "--no-key");
    assert_eq!(usage(&TypeDef::Boolean, None, &TypeDef::BooleanV(false), false), "--key");
}

#[test]
fn usage_of_literal_choices() {
    let t = TypeDef::Array(vec![s("a"), s("b")]);
    assert_eq!(usage(&t, None, &TypeDef::Null, false), "--key <a|b>");
    let mixed = TypeDef::Array(vec![s("a"), TypeDef::Number]);
    assert_eq!(usage(&mixed, None, &TypeDef::Null, false), "--key <key>");
}

#[test]
fn usage_of_boolean_or_value() {
    let t = TypeDef::Array(vec![TypeDef::Boolean, TypeDef::String]);
    assert_eq!(usage(&t, None, &TypeDef::Null, false), "--no-key|--key <key>");
}

#[test]
fn usage_of_number() {
    assert_eq!(usage(&TypeDef::Number, None, &TypeDef::Null, false), "--key <number>");
    let t = TypeDef::Array(vec![TypeDef::Null, TypeDef::Number]);
    assert_eq!(hint(&t, "key"), "<number>");
    assert_eq!(hint(&TypeDef::String, "key"), "<key>");
}

#[test]
fn multiple_wraps_usage() {
    let cases = vec![
        TypeDef::String,
        TypeDef::Boolean,
        TypeDef::Array(vec![s("a"), s("b")]),
        TypeDef::Array(vec![TypeDef::Null, TypeDef::Boolean]),
    ];
    for t in cases.iter() {
        let one = usage(t, None, &TypeDef::Null, false);
        let many = usage(t, None, &TypeDef::Null, true);
        assert_eq!(many, format!("{} [{} ...]", one, one));
    }
    let t = TypeDef::Array(vec![s("a"), s("b")]);
    assert_eq!(usage(&t, None, &TypeDef::Null, true), "--key <a|b> [--key <a|b> ...]");
}

#[test]
fn type_description_notes_repetition() {
    assert_eq!(describe_type(&TypeDef::Path, true), "Path (can be set multiple times)");
    assert_eq!(describe_type(&TypeDef::Path, false), "Path");
}

#[test]
fn wrap_keeps_lines_within_budget() {
    let text = "aaa bbb ccc dddddddddddddddddddd eee f";
    let out = wrap(text, 7);
    assert_eq!(out, "aaa bbb\nccc\ndddddddddddddddddddd\neee f");
    for line in out.lines() {
        assert!(line.chars().count() <= 7 || !line.contains(' '));
    }
}

#[test]
fn wrap_line_may_reach_budget_exactly() {
    assert_eq!(wrap("ab cd ef", 5), "ab cd\nef");
    assert_eq!(wrap("ab cd ef", 4), "ab\ncd\nef");
}

#[test]
fn wrap_removes_indentation() {
    assert_eq!(wrap("\n    one two\n    three\n", 80), "one two three");
}

#[test]
fn wrap_of_empty_text() {
    assert_eq!(wrap("", 10), "");
    assert_eq!(wrap("   \n\t ", 10), "");
}

#[test]
fn rewrapping_is_idempotent() {
    let text = "the quick brown fox jumps over the lazy dog again and again";
    for cols in [1usize, 5, 10, 17, 80] {
        let once = reflow(text, cols);
        let twice = reflow(&once, cols);
        assert_eq!(once, twice);
        assert_eq!(wrap(&wrap(text, cols), cols), wrap(text, cols));
    }
}

#[test]
fn words_split_on_ascii_whitespace() {
    let w = split_words(" a\tbb\n\x0cccc\r ");
    assert_eq!(w, vec!["a".to_string(), "bb".to_string(), "ccc".to_string()]);
    let filled = fill(&w, 4);
    assert_eq!(filled, "a bb\nccc");
}

#[test]
fn split_on_separator() {
    assert_eq!(split_str("a\n\n\nb", "\n\n"), vec!["a".to_string(), "\nb".to_string()]);
    assert_eq!(split_str("", "\n\n"), vec!["".to_string()]);
    assert_eq!(split_str("\n\n", "\n\n"), vec!["".to_string(), "".to_string()]);
}

#[test]
fn code_block_is_verbatim_at_any_width() {
    let code = "```\nlet  x =   1;   // a very long line that no narrow terminal could hold\n\n  y();\n```";
    let doc = format!("some words before the code\n\n{}\n\nafter", code);
    for cols in [0usize, 20, 40, 9000] {
        let out = wrap_all(doc.clone(), cols);
        assert!(out.contains(code));
        assert!(out.ends_with("\n\nafter"));
    }
}

#[test]
fn single_block_fence_is_verbatim() {
    let doc = "```one   line```\n\nplain    text".to_string();
    assert_eq!(wrap_all(doc, 80), "```one   line```\n\nplain text");
}

#[test]
fn bullets_wrap_item_by_item() {
    let doc = "* first item with several words\n* second".to_string();
    assert_eq!(wrap_all(doc, 20), "* first item with\n  several words\n* second");
}

#[test]
fn budget_is_clamped() {
    let words = "aaaa bbbb cccc dddd eeee ffff gggg hhhh iiii jjjj kkkk llll mmmm nnnn oooo pppp qqqq rrrr";
    let narrow = wrap_all(words.to_string(), 3);
    assert_eq!(narrow.lines().next().unwrap(), "aaaa bbbb cccc");
    let wide = wrap_all(words.to_string(), 500);
    assert!(wide.lines().next().unwrap().chars().count() <= 75);
    assert!(wide.lines().next().unwrap().chars().count() > 70);
}

fn methane(env_export: bool) -> Definition {
    Definition::builder()
        .key("methane")
        .default_value(s("CH4"))
        .type_def(TypeDef::String)
        .description("A gas.")
        .env_export(env_export)
        .build()
        .unwrap()
}

#[test]
fn env_note_only_when_not_exported() {
    let note = "This value is not exported to the environment for child processes.";
    assert!(!methane(true).describe().contains(note));
    assert!(methane(false).describe().ends_with(&format!("\n\n{}", note)));
}

#[test]
fn overrides_win() {
    let d = Definition::builder()
        .key("key")
        .default_value(TypeDef::NumberV(5))
        .type_def(TypeDef::Number)
        .description("d")
        .default_description("not five")
        .type_description("Text")
        .build()
        .unwrap();
    assert_eq!(d.default_description, "not five");
    assert_eq!(d.type_description, "Text");
    assert_eq!(d.hint, "<number>");
    assert_eq!(d.usage, "--key <number>");
}

#[test]
fn each_missing_field_is_named() {
    let r = Definition::builder().key("k").build();
    assert!(matches!(r, Err(BuildError::MissingDefaultValue)));
    let r = Definition::builder().key("k").default_value(TypeDef::Null).build();
    assert!(matches!(r, Err(BuildError::MissingTypeDef)));
    let r = Definition::builder().key("k").default_value(TypeDef::Null).type_def(TypeDef::String).build();
    assert!(matches!(r, Err(BuildError::MissingDescription)));
    let r = Definition::builder().description("d").build();
    assert!(matches!(r, Err(BuildError::MissingKey)));
}

#[test]
fn indented_code_in_description_is_unindented() {
    let d = Definition::builder()
        .key("k")
        .default_value(TypeDef::Null)
        .type_def(TypeDef::String)
        .description("\n    intro\n\n    ```\n    code  here\n    ```\n")
        .build()
        .unwrap();
    let out = d.describe();
    assert!(out.contains("\n\nintro\n\n```\ncode  here\n```"));
}

#[test]
fn registry_holds_auth() {
    let defs = init_definitions();
    assert_eq!(defs.len(), 1);
    let auth = &defs[0];
    assert_eq!(auth.key, "_auth");
    assert_eq!(auth.description, AUTH_DESCRIPTION);
    assert_eq!(auth.type_description, "null or String");
    assert_eq!(auth.default_description, "null");
    assert_eq!(auth.hint, "<_auth>");
    assert_eq!(auth.usage, "--_auth <_auth>");
    let out = auth.describe();
    assert!(out.starts_with("#### `_auth`\n\n* Default: null\n* Type: null or String\n\nA basic-auth string"));
    assert!(out.contains("`npm login`."));
}

#[test]
fn validate_matches_structurally() {
    let t = TypeDef::Array(vec![TypeDef::Null, TypeDef::String]);
    assert!(t.validate(&TypeDef::Null));
    assert!(t.validate(&s("x")));
    assert!(!t.validate(&TypeDef::NumberV(1)));
    let choices = TypeDef::Array(vec![s("a"), s("b")]);
    assert!(choices.validate(&s("b")));
    assert!(!choices.validate(&s("c")));
    assert!(TypeDef::Umask.validate(&TypeDef::NumberV(18)));
    assert!(TypeDef::Umask.validate(&s("022")));
    assert!(!TypeDef::Boolean.validate(&s("true")));
    assert!(TypeDef::BooleanV(true).validate(&TypeDef::BooleanV(true)));
    assert!(!TypeDef::BooleanV(true).validate(&TypeDef::BooleanV(false)));
    assert!(TypeDef::Path.validate(&TypeDef::Array(vec![s("/a"), s("/b")])));
    assert!(!TypeDef::Path.validate(&TypeDef::Array(vec![s("/a"), TypeDef::Null])));
    assert!(TypeDef::Number.validate(&TypeDef::Array(vec![])));
    assert!(!TypeDef::Array(vec![]).validate(&TypeDef::Null));
}
