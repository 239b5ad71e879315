//! The typed description of Lua values that definition files are generated from.
use vstd::prelude::*;

verus! {

/// The variant of a [`Type`], named as in error messages.
#[derive(Debug, Clone, Copy, PartialEq, Eq, Structural)]
pub enum TypeKind {
    Single,
    Value,
    Alias,
    Tuple,
    Table,
    Union,
    Array,
    MapOf,
    Function,
    Enum,
    Class,
    Module,
    Variadic,
}

/// The name of a type variant.
pub open spec fn kind_name(k: TypeKind) -> Seq<char> {
    match k {
        TypeKind::Single => "Single"@,
        TypeKind::Value => "Value"@,
        TypeKind::Alias => "Alias"@,
        TypeKind::Tuple => "Tuple"@,
        TypeKind::Table => "Table"@,
        TypeKind::Union => "Union"@,
        TypeKind::Array => "Array"@,
        TypeKind::MapOf => "Map"@,
        TypeKind::Function => "Function"@,
        TypeKind::Enum => "Enum"@,
        TypeKind::Class => "Class"@,
        TypeKind::Module => "Module"@,
        TypeKind::Variadic => "Variadic"@,
    }
}

impl TypeKind {
    /// The variant's name, e.g. `"Module"`.
    pub fn name(&self) -> (r: &'static str)
        ensures
            r@ == kind_name(*self),
    {
        match self {
            TypeKind::Single => "Single",
            TypeKind::Value => "Value",
            TypeKind::Alias => "Alias",
            TypeKind::Tuple => "Tuple",
            TypeKind::Table => "Table",
            TypeKind::Union => "Union",
            TypeKind::Array => "Array",
            TypeKind::MapOf => "Map",
            TypeKind::Function => "Function",
            TypeKind::Enum => "Enum",
            TypeKind::Class => "Class",
            TypeKind::Module => "Module",
            TypeKind::Variadic => "Variadic",
        }
    }
}

/// A Lua type as the language server understands it.
pub enum Type {
    /// A named type, written as is (`string`, `integer`, `MyClass`, ...).
    Single(String),
    /// A global value of the inner type.
    Value(Box<Type>),
    /// An alias for the inner type.
    Alias(Box<Type>),
    /// A fixed list of values, indexed from 1.
    Tuple(Vec<Type>),
    /// A table with named entries.
    Table(Vec<(String, Type)>),
    /// Any one of the listed types.
    Union(Vec<Type>),
    /// A list of values of one type.
    Array(Box<Type>),
    /// A table from the first type to the second.
    MapOf(Box<Type>, Box<Type>),
    /// A function.
    Function { params: Vec<Param>, results: Vec<Return> },
    /// A named alternative of several types.
    Enum(String, Vec<Type>),
    /// A class with fields, functions and methods.
    Class(Box<TypedClassBuilder>),
    /// A module: a table of fields, nested modules and functions.
    Module(Box<TypedModuleBuilder>),
    /// Any number of values of the inner type.
    Variadic(Box<Type>),
}

/// A function parameter.
pub struct Param {
    pub name: Option<String>,
    pub doc: Option<String>,
    pub ty: Type,
}

/// A function's return value.
pub struct Return {
    pub doc: Option<String>,
    pub ty: Type,
}

/// A documented field of a class or a module.
pub struct TypedField {
    pub ty: Type,
    pub doc: Option<String>,
}

/// A documented function or method of a class or a module.
pub struct TypedFunction {
    pub params: Vec<Param>,
    pub results: Vec<Return>,
    pub doc: Option<String>,
}

/// The description of a class.
pub struct TypedClassBuilder {
    pub type_doc: Option<String>,
    pub static_fields: Vec<(String, TypedField)>,
    pub fields: Vec<(String, TypedField)>,
    pub functions: Vec<(String, TypedFunction)>,
    pub methods: Vec<(String, TypedFunction)>,
    pub meta_fields: Vec<(String, TypedField)>,
    pub meta_functions: Vec<(String, TypedFunction)>,
    pub meta_methods: Vec<(String, TypedFunction)>,
}

/// The description of a module.
pub struct TypedModuleBuilder {
    pub doc: Option<String>,
    pub nested_modules: Vec<(String, TypedModuleBuilder)>,
    pub fields: Vec<(String, TypedField)>,
    pub functions: Vec<(String, TypedFunction)>,
    pub methods: Vec<(String, TypedFunction)>,
    pub meta_fields: Vec<(String, TypedField)>,
    pub meta_functions: Vec<(String, TypedFunction)>,
    pub meta_methods: Vec<(String, TypedFunction)>,
}

/// One named, documented item of a definition file.
pub struct DefinitionEntry {
    pub name: String,
    pub ty: Type,
    pub doc: Option<String>,
}

/// The items written to one definition file, in order.
pub struct Definition {
    pub entries: Vec<DefinitionEntry>,
}

/// Definition files by name, in order.
pub struct Definitions {
    pub files: Vec<(String, Definition)>,
}

/// The variant of `t`.
pub open spec fn kind_of(t: Type) -> TypeKind {
    match t {
        Type::Single(_) => TypeKind::Single,
        Type::Value(_) => TypeKind::Value,
        Type::Alias(_) => TypeKind::Alias,
        Type::Tuple(_) => TypeKind::Tuple,
        Type::Table(_) => TypeKind::Table,
        Type::Union(_) => TypeKind::Union,
        Type::Array(_) => TypeKind::Array,
        Type::MapOf(_, _) => TypeKind::MapOf,
        Type::Function { .. } => TypeKind::Function,
        Type::Enum(_, _) => TypeKind::Enum,
        Type::Class(_) => TypeKind::Class,
        Type::Module(_) => TypeKind::Module,
        Type::Variadic(_) => TypeKind::Variadic,
    }
}

impl Type {
    /// The variant of this type.
    pub fn kind(&self) -> (k: TypeKind)
        ensures
            k == kind_of(*self),
    {
        match self {
            Type::Single(_) => TypeKind::Single,
            Type::Value(_) => TypeKind::Value,
            Type::Alias(_) => TypeKind::Alias,
            Type::Tuple(_) => TypeKind::Tuple,
            Type::Table(_) => TypeKind::Table,
            Type::Union(_) => TypeKind::Union,
            Type::Array(_) => TypeKind::Array,
            Type::MapOf(_, _) => TypeKind::MapOf,
            Type::Function { .. } => TypeKind::Function,
            Type::Enum(_, _) => TypeKind::Enum,
            Type::Class(_) => TypeKind::Class,
            Type::Module(_) => TypeKind::Module,
            Type::Variadic(_) => TypeKind::Variadic,
        }
    }
}

impl TypedClassBuilder {
    /// No meta field, meta function or meta method.
    pub open spec fn spec_is_meta_empty(&self) -> bool {
        self.meta_fields@.len() == 0 && self.meta_functions@.len() == 0
            && self.meta_methods@.len() == 0
    }

    /// Whether the class has no meta field, meta function or meta method.
    pub fn is_meta_empty(&self) -> (r: bool)
        ensures
            r == self.spec_is_meta_empty(),
    {
        self.meta_fields.len() == 0 && self.meta_functions.len() == 0 && self.meta_methods.len()
            == 0
    }
}

impl TypedModuleBuilder {
    /// No meta field, meta function or meta method.
    pub open spec fn spec_is_meta_empty(&self) -> bool {
        self.meta_fields@.len() == 0 && self.meta_functions@.len() == 0
            && self.meta_methods@.len() == 0
    }

    /// Nothing at all in the module (its doc aside).
    pub open spec fn spec_is_empty(&self) -> bool {
        self.fields@.len() == 0 && self.nested_modules@.len() == 0 && self.functions@.len() == 0
            && self.methods@.len() == 0 && self.spec_is_meta_empty()
    }

    /// Whether the module has no meta field, meta function or meta method.
    pub fn is_meta_empty(&self) -> (r: bool)
        ensures
            r == self.spec_is_meta_empty(),
    {
        self.meta_fields.len() == 0 && self.meta_functions.len() == 0 && self.meta_methods.len()
            == 0
    }

    /// Whether the module has no field, nested module, function, method or meta entry.
    pub fn is_empty(&self) -> (r: bool)
        ensures
            r == self.spec_is_empty(),
    {
        self.fields.len() == 0 && self.nested_modules.len() == 0 && self.functions.len() == 0
            && self.methods.len() == 0 && self.is_meta_empty()
    }
}

impl Default for Definitions {
    /// No definition file.
    fn default() -> (r: Definitions)
        ensures
            r.files@.len() == 0,
    {
        Definitions { files: Vec::new() }
    }
}

} // verus!
