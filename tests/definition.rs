use mpn_config::{BuildError, Definition, DefinitionBuilder, TypeDef};

fn s(v: &str) -> TypeDef {
    TypeDef::StringV(v.to_string())
}

#[test]
fn missing_fields_are_reported() {
    let r = Definition::builder().build();
    assert!(matches!(r, Err(BuildError::MissingKey)));
}

#[test]
fn test_basic_definition() {
    let def = Definition::builder()
        .key("key")
        .default_value(s("some default value"))
        .type_def(TypeDef::Array(vec![TypeDef::Number, TypeDef::String]))
        .description("just a test thingie")
        .build()
        .unwrap();
    assert_eq!(def.hint, "<key>");
    assert_eq!(def.usage, "--key <key>");
    assert_eq!(def.type_description, "Number or String");
    assert_eq!(def.default_description, "\"some default value\"");
    assert!(def.env_export);
    assert_eq!(
        def.describe(),
        "#### `key`\n\n* Default: \"some default value\"\n* Type: Number or String\n\njust a test thingie\n\n"
    );

    let deprecated = Definition::builder()
        .key("deprecated")
        .deprecated("do not use this")
        .default_value(TypeDef::NumberV(1234))
        .description("  it should not be used\n  ever\n\n  not even once.\n\n")
        .type_def(TypeDef::Number)
        .default_description("A number bigger than 1")
        .type_description("An expression of a numeric quantity using numerals")
        .build()
        .unwrap();
    assert_eq!(
        deprecated.describe(),
        "#### `deprecated`\n\n* Default: A number bigger than 1\n* Type: An expression of a numeric quantity using numerals\n* DEPRECATED: do not use this\n\nit should not be used ever\n\nnot even once.\n\n\n\n"
    );

    let exclusive = Definition::builder()
        .key("exclusive")
        .default_value(TypeDef::NumberV(1234))
        .type_def(TypeDef::Number)
        .description("a number")
        .exclusive(&["x"])
        .build()
        .unwrap();
    assert_eq!(
        exclusive.describe(),
        "#### `exclusive`\n\n* Default: 1234\n* Type: Number\n\na number\n\nThis config can not be used with: `x`"
    );

    let null_or_umark = Definition::builder()
        .key("key")
        .default_value(TypeDef::Null)
        .type_def(TypeDef::Array(vec![TypeDef::Null, TypeDef::Umask]))
        .description("asdf")
        .build()
        .unwrap();
    assert_eq!(
        null_or_umark.type_description,
        "null or Octal numeric string in range 0000..0777 (0..511)"
    );

    let null_date_or_bool = Definition::builder()
        .key("key")
        .default_value(TypeDef::NumberV(7))
        .type_def(TypeDef::Array(vec![TypeDef::Null, TypeDef::Date, TypeDef::Boolean]))
        .description("asdf")
        .build()
        .unwrap();
    assert_eq!(null_date_or_bool.type_description, "null, Date, or Boolean");

    let many_paths = Definition::builder()
        .key("key")
        .default_value(TypeDef::Array(vec![s("asdf")]))
        .type_def(TypeDef::Array(vec![TypeDef::Path]))
        .multiple(true)
        .description("asdf")
        .build()
        .unwrap();
    assert_eq!(many_paths.type_description, "Path (can be set multiple times)");

    let path_or_url = Definition::builder()
        .key("key")
        .default_value(TypeDef::Array(vec![s("https://example.com")]))
        .type_def(TypeDef::Array(vec![TypeDef::Path, TypeDef::Url]))
        .description("asdf")
        .build()
        .unwrap();
    assert_eq!(path_or_url.type_description, "Path or URL");

    let multi_12 = Definition::builder()
        .key("key")
        .default_value(TypeDef::Array(vec![]))
        .type_def(TypeDef::Array(vec![TypeDef::NumberV(1), TypeDef::NumberV(2)]))
        .description("asdf")
        .multiple(true)
        .build()
        .unwrap();
    assert_eq!(multi_12.type_description, "1 or 2 (can be set multiple times)");

    let multi_123 = Definition::builder()
        .key("key")
        .default_value(TypeDef::Array(vec![]))
        .type_def(TypeDef::Array(vec![
            TypeDef::NumberV(1),
            TypeDef::NumberV(2),
            TypeDef::NumberV(3),
        ]))
        .description("asdf")
        .multiple(true)
        .build()
        .unwrap();
    assert_eq!(multi_123.type_description, "1, 2, or 3 (can be set multiple times)");

    let multi_123_semver = Definition::builder()
        .key("key")
        .default_value(TypeDef::Array(vec![]))
        .type_def(TypeDef::Array(vec![
            TypeDef::NumberV(1),
            TypeDef::NumberV(2),
            TypeDef::NumberV(3),
            TypeDef::Semver,
        ]))
        .description("asdf")
        .multiple(true)
        .build()
        .unwrap();
    assert_eq!(
        multi_123_semver.type_description,
        "1, 2, 3, or SemVer string (can be set multiple times)"
    );

    let has_usage = Definition::builder()
        .key("key")
        .default_value(s("test default"))
        .type_def(TypeDef::String)
        .description("test description")
        .usage("test usage")
        .build()
        .unwrap();
    assert_eq!(has_usage.usage, "test usage");

    let has_short = Definition::builder()
        .key("key")
        .default_value(s("test default"))
        .short(&["t"])
        .type_def(TypeDef::String)
        .description("test description")
        .build()
        .unwrap();
    assert_eq!(has_short.usage, "-t|--key <key>");

    let multi_has_short = Definition::builder()
        .key("key")
        .default_value(s("test default"))
        .short(&["t"])
        .type_def(TypeDef::Array(vec![TypeDef::Null, TypeDef::String]))
        .description("test description")
        .build()
        .unwrap();
    assert_eq!(multi_has_short.usage, "-t|--key <key>");

    let hard_coded_types = Definition::builder()
        .key("key")
        .default_value(s("test default"))
        .type_def(TypeDef::Array(vec![s("string1"), s("string2")]))
        .description("test description")
        .build()
        .unwrap();
    assert_eq!(hard_coded_types.usage, "--key <string1|string2>");

    let hard_coded_optional_types = Definition::builder()
        .key("key")
        .default_value(s("test default"))
        .type_def(TypeDef::Array(vec![TypeDef::Null, s("string1"), s("string2")]))
        .description("test description")
        .build()
        .unwrap();
    assert_eq!(hard_coded_optional_types.usage, "--key <string1|string2>");

    let has_hint = Definition::builder()
        .key("key")
        .default_value(s("test default"))
        .type_def(TypeDef::String)
        .description("test description")
        .hint("<testparam>")
        .build()
        .unwrap();
    assert_eq!(has_hint.usage, "--key <testparam>");

    let optional_bool = Definition::builder()
        .key("key")
        .default_value(TypeDef::Null)
        .type_def(TypeDef::Array(vec![TypeDef::Null, TypeDef::Boolean]))
        .description("asdf")
        .build()
        .unwrap();
    assert_eq!(optional_bool.usage, "--key");

    let no_exported = Definition::builder()
        .key("methane")
        .default_value(s("CH4"))
        .type_def(TypeDef::String)
        .type_description("Greenhouse Gas")
        .description("This is bad for the environment, for our children, do not put it there.")
        .env_export(false)
        .build()
        .unwrap();
    assert!(!no_exported.env_export);
    assert_eq!(
        no_exported.describe(),
        "#### `methane`

* Default: \"CH4\"
* Type: Greenhouse Gas

This is bad for the environment, for our children, do not put it there.

This value is not exported to the environment for child processes."
    );
}

const WALDEN: &str = "
			WHEN I WROTE the following pages, or rather the bulk of them, I lived
			alone, in the woods, a mile from any neighbor, in a house which I had
			built myself, on the shore of Walden Pond, in Concord, Massachusetts, and
			earned my living by the labor of my hands only. I lived there two years
			and two months. At present I am a sojourner in civilized life again.

			I should not obtrude my affairs so much on the notice of my readers if
			very particular inquiries had not been made by my townsmen concerning my
			mode of life, which some would call impertinent, though they do not
			appear to me at all impertinent, but, considering the circumstances, very
			natural and pertinent.

			```
			this.is('a', {
			  code: 'sample',
			})

			with (multiple) {
			  blocks()
			}
			```
			";

const WALDEN_CODE: &str = "```
this.is('a', {
  code: 'sample',
})

with (multiple) {
  blocks()
}
```";

fn walden_builder() -> DefinitionBuilder {
    Definition::builder()
        .key("walden")
        .description(WALDEN)
        .default_value(TypeDef::BooleanV(true))
        .type_def(TypeDef::Boolean)
}

/// The prose lines of a rendered entry fit the budget or hold one word, the
/// code passes untouched, and the words of the prose are kept in order.
fn check_long(out: &str, budget: usize) {
    assert!(out.starts_with("#### `walden`\n\n* Default: true\n* Type: Boolean\n\n"));
    assert!(out.contains(WALDEN_CODE));
    let prose = out.split("```").next().unwrap();
    for line in prose.lines() {
        assert!(
            line.chars().count() <= budget || !line.contains(' '),
            "line too long: {:?}",
            line
        );
    }
    let body = prose.split("Boolean\n\n").nth(1).unwrap();
    let expected: Vec<&str> = WALDEN.split("```").next().unwrap().split_ascii_whitespace().collect();
    let got: Vec<&str> = body.split_ascii_whitespace().collect();
    assert_eq!(got, expected);
}

#[test]
fn test_long_description() {
    let long_def_builder = walden_builder();

    let long_40 = long_def_builder.clone().terminal_cols(40).build().unwrap();
    let out_40 = long_40.describe();
    check_long(&out_40, 35);
    assert!(out_40.contains("\nWHEN I WROTE the following pages,\nor rather"));

    let long_9000 = long_def_builder.clone().terminal_cols(9000).build().unwrap();
    let out_9000 = long_9000.describe();
    check_long(&out_9000, 75);
    assert!(out_9000.contains(
        "\nWHEN I WROTE the following pages, or rather the bulk of them, I lived\nalone,"
    ));

    let long_0 = long_def_builder.clone().terminal_cols(0).build().unwrap();
    let out_0 = long_0.describe();
    check_long(&out_0, 15);
    assert!(out_0.contains("\nWHEN I WROTE\nthe following\n"));
    assert_eq!(long_0.usage, "--no-walden");
}
