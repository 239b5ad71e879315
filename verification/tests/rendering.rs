use mlua_extras::error::DefinitionError;
use mlua_extras::type_file::DefinitionFileGenerator;
use mlua_extras::typed::{
    Definition, DefinitionEntry, Definitions, Param, Return, Type, TypeKind, TypedClassBuilder,
    TypedField, TypedFunction, TypedModuleBuilder,
};

fn single(s: &str) -> Type {
    Type::Single(s.to_string())
}

fn doc(d: Option<&str>) -> Option<String> {
    d.map(|d| d.to_string())
}

fn field(ty: Type, d: Option<&str>) -> TypedField {
    TypedField { ty, doc: doc(d) }
}

fn entry(name: &str, ty: Type, d: Option<&str>) -> DefinitionEntry {
    DefinitionEntry { name: name.to_string(), ty, doc: doc(d) }
}

fn empty_class() -> TypedClassBuilder {
    TypedClassBuilder {
        type_doc: None,
        static_fields: vec![],
        fields: vec![],
        functions: vec![],
        methods: vec![],
        meta_fields: vec![],
        meta_functions: vec![],
        meta_methods: vec![],
    }
}

fn empty_module() -> TypedModuleBuilder {
    TypedModuleBuilder {
        doc: None,
        nested_modules: vec![],
        fields: vec![],
        functions: vec![],
        methods: vec![],
        meta_fields: vec![],
        meta_functions: vec![],
        meta_methods: vec![],
    }
}

/// Renders one definition group through the generator, as a caller would.
fn render(entries: Vec<DefinitionEntry>) -> (String, Result<(), DefinitionError>) {
    let definitions = Definitions {
        files: vec![("file".to_string(), Definition { entries })],
    };
    let generator = DefinitionFileGenerator::new(definitions);
    let mut files = generator.iter();
    let (name, writer) = files.next().unwrap();
    assert_eq!(name, "file.d.lua");
    let mut buffer = String::new();
    let result = writer.write(&mut buffer);
    (buffer, result)
}

#[test]
fn documented_example_output() {
    let class = TypedClassBuilder {
        fields: vec![
            ("name".to_string(), field(single("string"), Some("Name of the example"))),
            (
                "run".to_string(),
                field(
                    Type::Function {
                        params: vec![],
                        results: vec![Return { doc: None, ty: single("bool") }],
                    },
                    Some("Run the example returning it's success state"),
                ),
            ),
        ],
        ..empty_class()
    };
    let (text, result) = render(vec![
        entry("Example", Type::Class(Box::new(class)), None),
        entry("example", Type::Value(Box::new(single("Example"))), Some("Global example")),
    ]);
    assert_eq!(result, Ok(()));
    assert_eq!(
        text,
        "--- @meta\n\n\
         --- @class Example\n\
         --- Name of the example\n\
         --- @field name string\n\
         --- Run the example returning it's success state\n\
         --- @field run fun(): bool\n\
         \n\
         --- Global example\n\
         --- @type Example\n\
         example = nil\n\
         \n"
    );
}

#[test]
fn empty_definition_is_only_the_header() {
    let (text, result) = render(vec![]);
    assert_eq!(result, Ok(()));
    assert_eq!(text, "--- @meta\n\n");
}

#[test]
fn write_appends_to_the_buffer() {
    let definitions = Definitions {
        files: vec![(
            "f".to_string(),
            Definition { entries: vec![entry("x", Type::Value(Box::new(single("integer"))), None)] },
        )],
    };
    let generator = DefinitionFileGenerator::new(definitions);
    let (_, writer) = generator.iter().next().unwrap();
    let mut buffer = "-- before\n".to_string();
    assert_eq!(writer.write(&mut buffer), Ok(()));
    assert_eq!(buffer, "-- before\n--- @meta\n\n--- @type integer\nx = nil\n\n");
}

#[test]
fn value_with_multiline_doc() {
    let (text, result) = render(vec![entry(
        "count",
        Type::Value(Box::new(single("integer"))),
        Some("first line\nsecond line"),
    )]);
    assert_eq!(result, Ok(()));
    assert_eq!(
        text,
        "--- @meta\n\n--- first line\n--- second line\n--- @type integer\ncount = nil\n\n"
    );
}

#[test]
fn class_with_escaped_fields_functions_and_methods() {
    let class = TypedClassBuilder {
        type_doc: Some("Second line".to_string()),
        static_fields: vec![
            ("MAX".to_string(), field(single("integer"), None)),
            ("odd-key".to_string(), field(single("string"), Some("Odd"))),
        ],
        functions: vec![(
            "new".to_string(),
            TypedFunction {
                params: vec![],
                results: vec![Return { doc: None, ty: single("Thing") }],
                doc: doc(Some("Create")),
            },
        )],
        methods: vec![(
            "get".to_string(),
            TypedFunction {
                params: vec![Param { name: Some("i".to_string()), doc: None, ty: single("integer") }],
                results: vec![Return { doc: doc(Some("value")), ty: single("string") }],
                doc: None,
            },
        )],
        ..empty_class()
    };
    let (text, result) = render(vec![entry("Thing", Type::Class(Box::new(class)), Some("A thing"))]);
    assert_eq!(result, Ok(()));
    assert_eq!(
        text,
        "--- @meta\n\n\
         --- A thing\n\
         --- Second line\n\
         --- @class Thing\n\
         --- @field MAX integer\n\
         local _Class_Thing = {\n  \
         --- Odd\n  \
         --- @type string\n  \
         [\"odd-key\"] = nil,\n  \
         --- Create\n  \
         --- @return Thing \n  \
         new = function() end,\n  \
         --- @param self Thing\n  \
         --- @param i integer \n  \
         --- @return string value\n  \
         get = function(self, i) end,\n\
         }\n\
         \n"
    );
}

#[test]
fn class_function_with_escaped_name() {
    let class = TypedClassBuilder {
        functions: vec![(
            "do-it".to_string(),
            TypedFunction { params: vec![], results: vec![], doc: None },
        )],
        ..empty_class()
    };
    let (text, result) = render(vec![entry("C", Type::Class(Box::new(class)), None)]);
    assert_eq!(result, Ok(()));
    assert_eq!(
        text,
        "--- @meta\n\n--- @class C\nlocal _Class_C = {\n  [\"do-it\"] = function() end,\n}\n\n"
    );
}

#[test]
fn class_meta_table() {
    let class = TypedClassBuilder {
        meta_fields: vec![("__name".to_string(), field(single("string"), None))],
        meta_methods: vec![(
            "__tostring".to_string(),
            TypedFunction {
                params: vec![],
                results: vec![Return { doc: None, ty: single("string") }],
                doc: None,
            },
        )],
        ..empty_class()
    };
    let (text, result) = render(vec![entry("M", Type::Class(Box::new(class)), None)]);
    assert_eq!(result, Ok(()));
    assert_eq!(
        text,
        "--- @meta\n\n\
         --- @class M\n\
         local _Class_M = {\n  \
         __metatable = {\n\
         --- @type string\n\
         __name = nil,\n    \
         --- @param self M\n    \
         --- @return string \n    \
         __tostring = function(self) end,\n  \
         }\n\
         }\n\
         \n"
    );
}

#[test]
fn class_without_table_entries_is_only_annotations() {
    let class = TypedClassBuilder {
        fields: vec![("id".to_string(), field(single("integer"), None))],
        ..empty_class()
    };
    let (text, result) = render(vec![entry("Plain", Type::Class(Box::new(class)), None)]);
    assert_eq!(result, Ok(()));
    assert_eq!(text, "--- @meta\n\n--- @class Plain\n--- @field id integer\n\n");
}

#[test]
fn enum_entry_lists_alternatives() {
    let ty = Type::Enum("Color".to_string(), vec![single("\"red\""), single("\"green\"")]);
    let (text, result) = render(vec![entry("Color", ty, Some("Colors"))]);
    assert_eq!(result, Ok(()));
    assert_eq!(
        text,
        "--- @meta\n\n--- Colors\n--- @alias Color \"red\"\n---  | \"green\"\n\n"
    );
}

#[test]
fn alias_entry() {
    let ty = Type::Alias(Box::new(Type::Union(vec![single("integer"), single("string")])));
    let (text, result) = render(vec![entry("Id", ty, None)]);
    assert_eq!(result, Ok(()));
    assert_eq!(text, "--- @meta\n\n--- @alias Id integer | string\n\n");
}

#[test]
fn function_entry() {
    let ty = Type::Function {
        params: vec![Param { name: Some("msg".to_string()), doc: doc(Some("text")), ty: single("string") }],
        results: vec![],
    };
    let (text, result) = render(vec![entry("log", ty, Some("Logs"))]);
    assert_eq!(result, Ok(()));
    assert_eq!(
        text,
        "--- @meta\n\n--- Logs\n--- @param msg string text\nfunction log(msg) end\n\n"
    );
}

#[test]
fn function_entry_with_escaped_name() {
    let ty = Type::Function { params: vec![], results: vec![] };
    let (text, result) = render(vec![entry("a.b", ty, None)]);
    assert_eq!(result, Ok(()));
    assert_eq!(text, "--- @meta\n\nfunction [\"a.b\"]() end\n\n");
}

#[test]
fn module_entry_with_fields_nested_modules_and_functions() {
    let inner = TypedModuleBuilder {
        fields: vec![("flag".to_string(), field(single("boolean"), None))],
        ..empty_module()
    };
    let module = TypedModuleBuilder {
        doc: doc(Some("My module")),
        fields: vec![("count".to_string(), field(single("integer"), Some("How many")))],
        nested_modules: vec![("inner".to_string(), inner)],
        functions: vec![(
            "greet".to_string(),
            TypedFunction {
                params: vec![Param { name: Some("who".to_string()), doc: None, ty: single("string") }],
                results: vec![],
                doc: None,
            },
        )],
        ..empty_module()
    };
    let (text, result) = render(vec![entry("mymod", Type::Module(Box::new(module)), None)]);
    assert_eq!(result, Ok(()));
    assert_eq!(
        text,
        "--- @meta\n\n\
         --- My module\n\
         mymod = {\n  \
         --- How many\n  \
         --- @type integer\n  \
         count = nil,\n  \
         inner = {\n    \
         --- @type boolean\n    \
         flag = nil,\n  \
         },\n  \
         --- @param who string \n  \
         greet = function(who) end,\n\
         }\n\
         \n"
    );
}

#[test]
fn module_field_holding_a_module() {
    let sub = TypedModuleBuilder {
        methods: vec![(
            "run".to_string(),
            TypedFunction { params: vec![], results: vec![], doc: None },
        )],
        ..empty_module()
    };
    let module = TypedModuleBuilder {
        fields: vec![("sub".to_string(), field(Type::Module(Box::new(sub)), None))],
        ..empty_module()
    };
    let (text, result) = render(vec![entry("m", Type::Module(Box::new(module)), None)]);
    assert_eq!(result, Ok(()));
    assert_eq!(
        text,
        "--- @meta\n\n\
         m = {\n  \
         sub = {\n    \
         --- @param self table\n    \
         run = function(self) end,\n  \
         },\n\
         }\n\
         \n"
    );
}

#[test]
fn module_meta_table() {
    let module = TypedModuleBuilder {
        meta_fields: vec![("__index".to_string(), field(single("table"), None))],
        ..empty_module()
    };
    let (text, result) = render(vec![entry("m", Type::Module(Box::new(module)), None)]);
    assert_eq!(result, Ok(()));
    assert_eq!(
        text,
        "--- @meta\n\n\
         m = {\n  \
         __metatable = {\n    \
         --- @type table\n    \
         __index = nil,\n  \
         },\n\
         }\n\
         \n"
    );
}

#[test]
fn empty_module_entry() {
    let (text, result) = render(vec![entry("empty", Type::Module(Box::new(empty_module())), None)]);
    assert_eq!(result, Ok(()));
    assert_eq!(text, "--- @meta\n\nempty = {}\n\n");
}

#[test]
fn single_at_root_is_refused() {
    let (text, result) = render(vec![entry("bad", single("string"), None)]);
    assert_eq!(result, Err(DefinitionError::InvalidRootType(TypeKind::Single)));
    assert_eq!(text, "--- @meta\n\n");
}

#[test]
fn writing_stops_at_the_first_failing_entry() {
    let (text, result) = render(vec![
        entry("ok", Type::Value(Box::new(single("integer"))), None),
        entry("bad", Type::Tuple(vec![]), None),
        entry("bad2", Type::Union(vec![]), None),
    ]);
    assert_eq!(result, Err(DefinitionError::InvalidRootType(TypeKind::Tuple)));
    assert_eq!(text, "--- @meta\n\n--- @type integer\nok = nil\n\n");
}

#[test]
fn value_of_a_value_has_no_signature() {
    let ty = Type::Value(Box::new(Type::Value(Box::new(single("a")))));
    let (text, result) = render(vec![entry("v", ty, Some("doc"))]);
    assert_eq!(result, Err(DefinitionError::InvalidTypeSignature(TypeKind::Value)));
    assert_eq!(text, "--- @meta\n\n--- doc\n");
}

#[test]
fn error_messages() {
    assert_eq!(
        DefinitionError::InvalidRootType(TypeKind::Single).message(),
        "invalid root level type: Single"
    );
    assert_eq!(
        DefinitionError::InvalidTypeSignature(TypeKind::MapOf).message(),
        "type cannot be a type signature: Map"
    );
}

#[test]
fn lua_error_carries_the_message() {
    let e = DefinitionError::InvalidRootType(TypeKind::Union).into_lua_error();
    match e {
        mlua::Error::RuntimeError(m) => assert_eq!(m, "invalid root level type: Union"),
        other => panic!("unexpected error: {other}"),
    }
}

#[test]
fn each_segment_ends_with_a_blank_line() {
    let (text, result) = render(vec![
        entry("A", Type::Alias(Box::new(single("integer"))), None),
        entry("f", Type::Function { params: vec![], results: vec![] }, None),
    ]);
    assert_eq!(result, Ok(()));
    assert_eq!(text, "--- @meta\n\n--- @alias A integer\n\nfunction f() end\n\n");
}

#[test]
fn nested_module_indentation_and_closing_line() {
    let deep = TypedModuleBuilder {
        fields: vec![("v".to_string(), field(single("integer"), None))],
        ..empty_module()
    };
    let mid = TypedModuleBuilder { nested_modules: vec![("deep".to_string(), deep)], ..empty_module() };
    let top = TypedModuleBuilder { nested_modules: vec![("mid".to_string(), mid)], ..empty_module() };
    let (text, result) = render(vec![entry("top", Type::Module(Box::new(top)), None)]);
    assert_eq!(result, Ok(()));
    assert_eq!(
        text,
        "--- @meta\n\n\
         top = {\n  \
         mid = {\n    \
         deep = {\n      \
         --- @type integer\n      \
         v = nil,\n    \
         },\n  \
         },\n\
         }\n\
         \n"
    );
}
