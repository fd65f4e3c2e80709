use indexmap::IndexMap;
use toml2lua::parse;
use toml2lua::render;
use toml2lua::walk;
use toml2lua::TomlValue;

fn text(s: &str) -> TomlValue {
    TomlValue::String(s.to_string())
}

#[test]
fn string_entry_at_depth_one() {
    assert_eq!(walk(Some("string"), &text("str"), 1), "\t[\"string\"] = \"str\",\n");
}

#[test]
fn array_entry_is_a_nested_block() {
    let array = TomlValue::Array(vec![text("string"), TomlValue::Integer(12345), TomlValue::Boolean(false)]);
    assert_eq!(
        walk(Some("array"), &array, 1),
        "\t[\"array\"] = {\n\t\t\"string\",\n\t\t12345,\n\t\tfalse,\n\t},\n"
    );
}

#[test]
fn quote_in_a_string_is_escaped() {
    assert_eq!(walk(Some("5"), &text("..\"..")  , 1), "\t[\"5\"] = \"..\\\"..\",\n");
}

#[test]
fn empty_table_renders_as_two_braces() {
    let root: IndexMap<String, TomlValue> = IndexMap::new();
    assert_eq!(render(&root), "{\n}");
}

#[test]
fn element_without_key() {
    assert_eq!(walk(None, &TomlValue::Integer(-7), 0), "-7,\n");
    assert_eq!(walk(None, &TomlValue::Integer(-7), 3), "\t\t\t-7,\n");
    assert_eq!(walk(None, &text("a\nb"), 2), "\t\t\"a\\nb\",\n");
}

#[test]
fn every_scalar() {
    assert_eq!(walk(Some("i"), &TomlValue::Integer(420), 1), "\t[\"i\"] = 420,\n");
    assert_eq!(walk(Some("f"), &TomlValue::Float(6.9f64.to_string()), 1), "\t[\"f\"] = 6.9,\n");
    assert_eq!(walk(Some("t"), &TomlValue::Boolean(true), 1), "\t[\"t\"] = true,\n");
    assert_eq!(walk(Some("f"), &TomlValue::Boolean(false), 1), "\t[\"f\"] = false,\n");
    assert_eq!(
        walk(Some("d"), &TomlValue::Datetime("1979-05-27T00:32:00.999999-07:00".to_string()), 1),
        "\t[\"d\"] = \"1979-05-27T00:32:00.999999-07:00\",\n"
    );
}

#[test]
fn datetime_text_is_escaped_like_a_string() {
    assert_eq!(
        walk(None, &TomlValue::Datetime("a\"b\\c".to_string()), 0),
        "\"a\\\"b\\\\c\",\n"
    );
}

#[test]
fn keys_are_always_quoted_and_escaped() {
    assert_eq!(walk(Some("plain"), &TomlValue::Integer(1), 0), "[\"plain\"] = 1,\n");
    assert_eq!(walk(Some("a b"), &TomlValue::Integer(1), 0), "[\"a b\"] = 1,\n");
    assert_eq!(walk(Some("a\"b"), &TomlValue::Integer(1), 0), "[\"a\\\"b\"] = 1,\n");
    assert_eq!(walk(Some("a\\b"), &TomlValue::Integer(1), 0), "[\"a\\\\b\"] = 1,\n");
    assert_eq!(walk(Some(""), &TomlValue::Integer(1), 0), "[\"\"] = 1,\n");
}

#[test]
fn empty_containers() {
    assert_eq!(walk(Some("a"), &TomlValue::Array(vec![]), 1), "\t[\"a\"] = {\n\t},\n");
    assert_eq!(walk(Some("t"), &TomlValue::Table(vec![]), 1), "\t[\"t\"] = {\n\t},\n");
    assert_eq!(walk(None, &TomlValue::Array(vec![]), 0), "{\n},\n");
}

#[test]
fn nested_table_entries_keep_their_order() {
    let table = TomlValue::Table(vec![
        ("c".to_string(), TomlValue::Integer(1)),
        ("a".to_string(), TomlValue::Integer(2)),
        ("b".to_string(), TomlValue::Integer(3)),
    ]);
    assert_eq!(
        walk(Some("t"), &table, 1),
        "\t[\"t\"] = {\n\t\t[\"c\"] = 1,\n\t\t[\"a\"] = 2,\n\t\t[\"b\"] = 3,\n\t},\n"
    );
}

#[test]
fn root_entries_keep_insertion_order() {
    let mut root: IndexMap<String, TomlValue> = IndexMap::new();
    root.insert("a".to_string(), TomlValue::Integer(1));
    root.insert("b".to_string(), TomlValue::Integer(2));
    root.insert("c".to_string(), TomlValue::Integer(3));
    assert_eq!(render(&root), "{\n\t[\"a\"] = 1,\n\t[\"b\"] = 2,\n\t[\"c\"] = 3,\n}");

    let mut root: IndexMap<String, TomlValue> = IndexMap::new();
    root.insert("zebra".to_string(), TomlValue::Integer(1));
    root.insert("apple".to_string(), TomlValue::Integer(2));
    root.insert("mango".to_string(), TomlValue::Integer(3));
    let lua = render(&root);
    assert_eq!(lua, "{\n\t[\"zebra\"] = 1,\n\t[\"apple\"] = 2,\n\t[\"mango\"] = 3,\n}");
    let zebra = lua.find("zebra").unwrap();
    let apple = lua.find("apple").unwrap();
    let mango = lua.find("mango").unwrap();
    assert!(zebra < apple && apple < mango);
}

#[test]
fn render_agrees_with_walk_at_depth_one() {
    let mut root: IndexMap<String, TomlValue> = IndexMap::new();
    root.insert("s".to_string(), text("x\ty"));
    root.insert("l".to_string(), TomlValue::Array(vec![TomlValue::Table(vec![("k".to_string(), text("v"))])]));
    let mut expected = String::from("{\n");
    for (key, value) in &root {
        expected.push_str(&walk(Some(key), value, 1));
    }
    expected.push('}');
    assert_eq!(render(&root), expected);
}

#[test]
fn every_entry_ends_with_a_comma_and_a_line_end() {
    let value = TomlValue::Array(vec![
        TomlValue::Integer(1),
        TomlValue::Array(vec![TomlValue::Integer(2)]),
        TomlValue::Table(vec![("k".to_string(), TomlValue::Boolean(true))]),
    ]);
    let lua = walk(Some("a"), &value, 1);
    for line in lua.lines() {
        assert!(line.ends_with(',') || line.ends_with('{'));
    }
    assert!(lua.ends_with(",\n"));
}

fn is_balanced(lua: &str) -> bool {
    let mut open: Vec<usize> = Vec::new();
    let mut indent = 0;
    let mut line_start = true;
    let mut quoted = false;
    let mut escaped = false;
    for c in lua.chars() {
        if quoted {
            if escaped {
                if !"ntr\\\"".contains(c) {
                    return false;
                }
                escaped = false;
            } else if c == '\\' {
                escaped = true;
            } else if c == '"' {
                quoted = false;
            } else if c == '\n' || c == '\r' {
                return false;
            }
        } else if c == '\n' {
            indent = 0;
            line_start = true;
        } else if c == '\t' && line_start {
            indent += 1;
        } else {
            line_start = false;
            if c == '"' {
                quoted = true;
            } else if c == '{' {
                open.push(indent);
            } else if c == '}' && open.pop() != Some(indent) {
                return false;
            }
        }
    }
    open.is_empty() && !quoted
}

#[test]
fn braces_pair_up_at_one_indentation() {
    let toml = r#"
s = "{ not a brace \" } \\"
a = [[1, [2, 3]], [], [{ x = "}" }]]
f = 1.5
d = 1979-05-27

[t]
"{" = "}"
inner = { deep = { deeper = [ "\n" ] } }

[[list]]
n = 1

[[list]]
n = 2
"#;
    let lua = parse(toml).unwrap();
    assert!(is_balanced(&lua));
    assert!(is_balanced(&parse("").unwrap()));
    assert!(!is_balanced("{\n\t}"));
    assert!(!is_balanced("{\n"));
    assert!(!is_balanced("{\n\t\"}\n}"));
}

#[test]
fn a_float_text_is_written_as_it_is() {
    assert_eq!(walk(None, &TomlValue::Float("inf".to_string()), 1), "\tinf,\n");
    assert_eq!(walk(None, &TomlValue::Float("-0".to_string()), 1), "\t-0,\n");
}
