use mlua_extras::docs::doc_ref;
use mlua_extras::text::{decimal_string, join_strings, split_newlines};
use mlua_extras::type_file::{escape_key, needs_escape, DefinitionFileGenerator, DefinitionWriter};
use mlua_extras::typed::{Definition, DefinitionEntry, Definitions, Type};

fn group(name: &str, value: &str) -> (String, Definition) {
    (
        name.to_string(),
        Definition {
            entries: vec![DefinitionEntry {
                name: value.to_string(),
                ty: Type::Value(Box::new(Type::Single("integer".to_string()))),
                doc: None,
            }],
        },
    )
}

#[test]
fn default_generator_has_no_files() {
    let generator = DefinitionFileGenerator::default();
    assert!(generator.iter().next().is_none());
}

#[test]
fn new_generator_names_files_with_default_extension() {
    let generator = DefinitionFileGenerator::new(Definitions {
        files: vec![group("init", "a"), group("util", "b")],
    });
    let mut files = generator.iter();
    let (first, writer) = files.next().unwrap();
    assert_eq!(first, "init.d.lua");
    let mut text = String::new();
    writer.write(&mut text).unwrap();
    assert_eq!(text, "--- @meta\n\n--- @type integer\na = nil\n\n");
    let (second, writer) = files.next().unwrap();
    assert_eq!(second, "util.d.lua");
    let mut text = String::new();
    writer.write(&mut text).unwrap();
    assert_eq!(text, "--- @meta\n\n--- @type integer\nb = nil\n\n");
    assert!(files.next().is_none());
    assert!(files.next().is_none());
}

#[test]
fn ext_sets_the_extension() {
    let generator =
        DefinitionFileGenerator::new(Definitions { files: vec![group("api", "x")] }).ext(".lua");
    let mut files = generator.iter();
    assert_eq!(files.next().unwrap().0, "api.lua");
    assert!(files.next().is_none());
}

#[test]
fn iter_starts_over_each_time() {
    let generator = DefinitionFileGenerator::new(Definitions { files: vec![group("one", "x")] });
    assert_eq!(generator.iter().next().unwrap().0, "one.d.lua");
    assert_eq!(generator.iter().next().unwrap().0, "one.d.lua");
}

#[test]
fn default_definitions_are_empty() {
    let definitions = Definitions::default();
    assert!(definitions.files.is_empty());
}

#[test]
fn accumulate_docs_none_without_text() {
    assert_eq!(DefinitionWriter::accumulate_docs(&[None, None]), None);
    assert_eq!(DefinitionWriter::accumulate_docs(&[]), None);
}

#[test]
fn accumulate_docs_comments_every_line() {
    let docs = DefinitionWriter::accumulate_docs(&[Some("a\nb"), None, Some("c")]);
    assert_eq!(
        docs,
        Some(vec!["--- a".to_string(), "--- b".to_string(), "--- c".to_string()])
    );
}

#[test]
fn accumulate_docs_keeps_empty_text_and_empty_lines() {
    assert_eq!(DefinitionWriter::accumulate_docs(&[Some("")]), Some(vec!["--- ".to_string()]));
    assert_eq!(
        DefinitionWriter::accumulate_docs(&[Some("x\n")]),
        Some(vec!["--- x".to_string(), "--- ".to_string()])
    );
}

#[test]
fn doc_comment_lines_join_back_to_the_text() {
    let text = "first\n\nthird";
    let lines = DefinitionWriter::accumulate_docs(&[Some(text)]).unwrap();
    let stripped: Vec<String> = lines.iter().map(|l| l.strip_prefix("--- ").unwrap().to_string()).collect();
    assert_eq!(stripped.join("\n"), text);
}

#[test]
fn plain_keys_need_no_escape() {
    assert!(!needs_escape("name"));
    assert!(!needs_escape("snake_case_1"));
    assert!(!needs_escape(""));
    assert!(!needs_escape("ünïcödé"));
}

#[test]
fn other_keys_need_escape() {
    assert!(needs_escape("with-dash"));
    assert!(needs_escape("has space"));
    assert!(needs_escape("a.b"));
    assert!(needs_escape("quote\""));
}

#[test]
fn escape_key_wraps_only_keys_that_need_it() {
    assert_eq!(escape_key("plain"), "plain");
    assert_eq!(escape_key("a.b"), "[\"a.b\"]");
    assert_eq!(escape_key("x y"), "[\"x y\"]");
}

#[test]
fn escape_key_is_identity_exactly_on_plain_keys() {
    for key in ["abc", "a-b", "_", "π", "1.5", ""] {
        assert_eq!(escape_key(key) == key, !needs_escape(key));
    }
}

#[test]
fn split_newlines_like_str_split() {
    for text in ["", "a", "a\nb", "a\n\nb\n", "\n"] {
        let expected: Vec<String> = text.split('\n').map(|s| s.to_string()).collect();
        let pieces = split_newlines(text);
        assert_eq!(pieces, expected);
        assert_eq!(join_strings(&pieces, "\n"), text);
    }
}

#[test]
fn join_strings_puts_separator_between() {
    let parts = vec!["a".to_string(), "b".to_string(), "c".to_string()];
    assert_eq!(join_strings(&parts, ", "), "a, b, c");
    assert_eq!(join_strings(&vec![], ", "), "");
    assert_eq!(join_strings(&vec!["only".to_string()], ", "), "only");
}

#[test]
fn decimal_string_prints_indices() {
    assert_eq!(decimal_string(0), "0");
    assert_eq!(decimal_string(7), "7");
    assert_eq!(decimal_string(10), "10");
    assert_eq!(decimal_string(1234), "1234");
}

#[test]
fn doc_ref_borrows_the_text() {
    assert_eq!(doc_ref(&Some("x".to_string())), Some("x"));
    assert_eq!(doc_ref(&None), None);
}

#[test]
fn file_names_one_per_group_in_order() {
    let generator = DefinitionFileGenerator::new(Definitions {
        files: vec![group("a", "x"), group("b", "y"), group("c", "z")],
    });
    assert_eq!(generator.file_names(), vec!["a.d.lua", "b.d.lua", "c.d.lua"]);
    let generator = generator.ext(".types.lua");
    let names = generator.file_names();
    assert_eq!(names, vec!["a.types.lua", "b.types.lua", "c.types.lua"]);
    assert!(names.iter().all(|n| n.ends_with(".types.lua")));
    assert!(DefinitionFileGenerator::default().file_names().is_empty());
}

#[test]
fn several_docs_join_back_after_stripping_prefixes() {
    let docs = [Some("one\ntwo"), None, Some(""), Some("three")];
    let lines = DefinitionWriter::accumulate_docs(&docs).unwrap();
    assert_eq!(lines.len(), 2 + 1 + 1);
    assert!(lines.iter().all(|l| l.starts_with("--- ") && !l.contains('\n')));
    let stripped: Vec<&str> = lines.iter().map(|l| &l[4..]).collect();
    let present: Vec<&str> = docs.iter().flatten().copied().collect();
    assert_eq!(stripped.join("\n"), present.join("\n"));
}
