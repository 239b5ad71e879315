use mlua_extras::error::DefinitionError;
use mlua_extras::type_file::DefinitionWriter;
use mlua_extras::typed::{Param, Return, Type, TypeKind, TypedClassBuilder, TypedModuleBuilder};

fn single(s: &str) -> Type {
    Type::Single(s.to_string())
}

fn named(name: &str, doc: Option<&str>, ty: Type) -> Param {
    Param { name: Some(name.to_string()), doc: doc.map(|d| d.to_string()), ty }
}

fn unnamed(ty: Type) -> Param {
    Param { name: None, doc: None, ty }
}

fn ret(doc: Option<&str>, ty: Type) -> Return {
    Return { doc: doc.map(|d| d.to_string()), ty }
}

fn empty_class() -> TypedClassBuilder {
    TypedClassBuilder {
        type_doc: None,
        static_fields: vec![],
        fields: vec![],
        functions: vec![],
        methods: vec![],
        meta_fields: vec![],
        meta_functions: vec![],
        meta_methods: vec![],
    }
}

fn empty_module() -> TypedModuleBuilder {
    TypedModuleBuilder {
        doc: None,
        nested_modules: vec![],
        fields: vec![],
        functions: vec![],
        methods: vec![],
        meta_fields: vec![],
        meta_functions: vec![],
        meta_methods: vec![],
    }
}

fn sig(ty: &Type) -> Result<String, DefinitionError> {
    DefinitionWriter::type_signature(ty)
}

#[test]
fn single_signature_is_the_name() {
    assert_eq!(sig(&single("string")), Ok("string".to_string()));
}

#[test]
fn enum_signature_is_the_enum_name() {
    let ty = Type::Enum("Color".to_string(), vec![single("\"red\""), single("\"green\"")]);
    assert_eq!(sig(&ty), Ok("Color".to_string()));
}

#[test]
fn tuple_signature_numbers_items_from_one() {
    let ty = Type::Tuple(vec![single("string"), single("integer")]);
    assert_eq!(sig(&ty), Ok("{ [1]: string, [2]: integer }".to_string()));
}

#[test]
fn tuple_signature_counts_past_nine() {
    let items: Vec<Type> = (0..11).map(|_| single("a")).collect();
    let text = sig(&Type::Tuple(items)).unwrap();
    assert!(text.ends_with(", [10]: a, [11]: a }"));
    assert!(text.starts_with("{ [1]: a, [2]: a"));
}

#[test]
fn empty_tuple_signature() {
    assert_eq!(sig(&Type::Tuple(vec![])), Ok("{  }".to_string()));
}

#[test]
fn variadic_signature() {
    assert_eq!(sig(&Type::Variadic(Box::new(single("string")))), Ok("...string".to_string()));
}

#[test]
fn array_signature() {
    assert_eq!(
        sig(&Type::Array(Box::new(single("string")))),
        Ok("{ [integer]: string }".to_string())
    );
}

#[test]
fn map_signature() {
    let ty = Type::MapOf(Box::new(single("string")), Box::new(single("integer")));
    assert_eq!(sig(&ty), Ok("{ [string]: integer }".to_string()));
}

#[test]
fn function_signature_type_names_unnamed_params_by_position() {
    let ty = Type::Function {
        params: vec![named("a", None, single("integer")), unnamed(single("string"))],
        results: vec![ret(None, single("r1")), ret(Some("second"), single("r2"))],
    };
    assert_eq!(sig(&ty), Ok("fun(a, param1): r1, r2".to_string()));
}

#[test]
fn function_signature_type_without_results() {
    let ty = Type::Function { params: vec![], results: vec![] };
    assert_eq!(sig(&ty), Ok("fun()".to_string()));
}

#[test]
fn union_signature() {
    let ty = Type::Union(vec![single("string"), single("nil")]);
    assert_eq!(sig(&ty), Ok("string | nil".to_string()));
}

#[test]
fn table_signature() {
    let ty = Type::Table(vec![
        ("x".to_string(), single("integer")),
        ("y".to_string(), single("string")),
    ]);
    assert_eq!(sig(&ty), Ok("{ x: integer, y: string }".to_string()));
}

#[test]
fn nested_signature() {
    let ty = Type::Array(Box::new(Type::MapOf(
        Box::new(single("string")),
        Box::new(Type::Union(vec![single("integer"), single("nil")])),
    )));
    assert_eq!(sig(&ty), Ok("{ [integer]: { [string]: integer | nil } }".to_string()));
}

#[test]
fn value_alias_class_and_module_have_no_signature() {
    assert_eq!(
        sig(&Type::Value(Box::new(single("a")))),
        Err(DefinitionError::InvalidTypeSignature(TypeKind::Value))
    );
    assert_eq!(
        sig(&Type::Alias(Box::new(single("a")))),
        Err(DefinitionError::InvalidTypeSignature(TypeKind::Alias))
    );
    assert_eq!(
        sig(&Type::Class(Box::new(empty_class()))),
        Err(DefinitionError::InvalidTypeSignature(TypeKind::Class))
    );
    assert_eq!(
        sig(&Type::Module(Box::new(empty_module()))),
        Err(DefinitionError::InvalidTypeSignature(TypeKind::Module))
    );
}

#[test]
fn invalid_inner_type_fails_the_whole_signature() {
    let ty = Type::Union(vec![single("string"), Type::Alias(Box::new(single("a")))]);
    assert_eq!(sig(&ty), Err(DefinitionError::InvalidTypeSignature(TypeKind::Alias)));
    let ty = Type::Function {
        params: vec![],
        results: vec![ret(None, Type::Value(Box::new(single("a"))))],
    };
    assert_eq!(sig(&ty), Err(DefinitionError::InvalidTypeSignature(TypeKind::Value)));
}

#[test]
fn type_signatures_in_order() {
    let r = DefinitionWriter::type_signatures(&vec![single("a"), single("b")]);
    assert_eq!(r, Ok(vec!["a".to_string(), "b".to_string()]));
    let r = DefinitionWriter::type_signatures(&vec![single("a"), Type::Alias(Box::new(single("b")))]);
    assert_eq!(r, Err(DefinitionError::InvalidTypeSignature(TypeKind::Alias)));
}

#[test]
fn function_signature_lines_declared() {
    let params = vec![named("a", Some("first"), single("integer")), unnamed(single("integer"))];
    let results = vec![ret(Some("sum"), single("integer"))];
    let lines = DefinitionWriter::function_signature("add", &params, &results, false).unwrap();
    assert_eq!(
        lines,
        vec![
            "--- @param a integer first".to_string(),
            "--- @param param1 integer ".to_string(),
            "--- @return integer sum".to_string(),
            "function add(a, param1) end".to_string(),
        ]
    );
}

#[test]
fn function_signature_lines_assigned() {
    let params = vec![named("a", None, single("integer"))];
    let lines = DefinitionWriter::function_signature("add", &params, &vec![], true).unwrap();
    assert_eq!(
        lines,
        vec!["--- @param a integer ".to_string(), "add = function(a) end".to_string()]
    );
}

#[test]
fn function_signature_error_on_invalid_param() {
    let params = vec![named("a", None, Type::Alias(Box::new(single("x"))))];
    let r = DefinitionWriter::function_signature("f", &params, &vec![], true);
    assert_eq!(r, Err(DefinitionError::InvalidTypeSignature(TypeKind::Alias)));
}

#[test]
fn method_signature_lines_start_with_self() {
    let params = vec![named("i", None, single("integer"))];
    let results = vec![ret(Some("value"), single("string"))];
    let lines = DefinitionWriter::method_signature("get", "Thing", &params, &results, true).unwrap();
    assert_eq!(
        lines,
        vec![
            "--- @param self Thing".to_string(),
            "--- @param i integer ".to_string(),
            "--- @return string value".to_string(),
            "get = function(self, i) end".to_string(),
        ]
    );
}

#[test]
fn method_signature_without_params_takes_only_self() {
    let lines = DefinitionWriter::method_signature("run", "Job", &vec![], &vec![], false).unwrap();
    assert_eq!(
        lines,
        vec!["--- @param self Job".to_string(), "function run(self) end".to_string()]
    );
}

#[test]
fn method_signature_error_on_invalid_result() {
    let results = vec![ret(None, Type::Module(Box::new(empty_module())))];
    let r = DefinitionWriter::method_signature("m", "C", &vec![], &results, true);
    assert_eq!(r, Err(DefinitionError::InvalidTypeSignature(TypeKind::Module)));
}

#[test]
fn type_kind_names() {
    assert_eq!(single("a").kind(), TypeKind::Single);
    assert_eq!(TypeKind::MapOf.name(), "Map");
    assert_eq!(TypeKind::Variadic.name(), "Variadic");
    assert_eq!(
        Type::MapOf(Box::new(single("a")), Box::new(single("b"))).kind().name(),
        "Map"
    );
}
