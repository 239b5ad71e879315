//! The text of a definition file, stated as what is written and where writing stops.
//!
//! A rendering step writes text and may fail; after a failure nothing more is written.
//! A [`Written`] holds the text that a step writes and the error it stops with, if any.
use vstd::prelude::*;

use crate::docs::{accumulated, opt_string_text};
use crate::error::DefinitionError;
use crate::signature::{function_sig, method_sig, type_sig, type_sigs};
use crate::text::join;
use crate::type_file::escaped_key;
use crate::typed::{
    kind_of,
    Definition,
    DefinitionEntry,
    Param,
    Return,
    Type,
    TypedClassBuilder,
    TypedField,
    TypedFunction,
    TypedModuleBuilder,
};

verus! {

/// What a rendering step writes, and the error it stops with.
pub type Written = (Seq<char>, Option<DefinitionError>);

/// Writes `t` and succeeds.
pub open spec fn emit(t: Seq<char>) -> Written {
    (t, None)
}

/// Writes nothing and fails with `e`.
pub open spec fn failed(e: DefinitionError) -> Written {
    (Seq::empty(), Some(e))
}

/// Writes `t`, then does `w`.
pub open spec fn prepend(t: Seq<char>, w: Written) -> Written {
    (t + w.0, w.1)
}

/// Does `a`, then `b` unless `a` failed.
pub open spec fn then(a: Written, b: Written) -> Written {
    if a.1 is Some {
        a
    } else {
        (a.0 + b.0, b.1)
    }
}

/// The result a step returns.
pub open spec fn outcome(w: Written) -> Result<(), DefinitionError> {
    match w.1 {
        None => Ok(()),
        Some(e) => Err(e),
    }
}

/// The line `pre + s + post` for a successfully computed `s`; a failure writes nothing.
pub open spec fn line_with(r: Result<Seq<char>, DefinitionError>, pre: Seq<char>, post: Seq<char>) -> Written {
    match r {
        Ok(s) => emit(pre + s + post + "\n"@),
        Err(e) => failed(e),
    }
}

/// Lines that each start with `indent`, the last one followed by `post`.
pub open spec fn indented_lines(
    r: Result<Seq<Seq<char>>, DefinitionError>,
    indent: Seq<char>,
    post: Seq<char>,
) -> Written {
    match r {
        Ok(ls) => emit(indent + join(ls, "\n"@ + indent) + post + "\n"@),
        Err(e) => failed(e),
    }
}

/// The documentation comment block: `indent`, then the comment lines joined with a newline
/// and `sep_indent`, then a newline; nothing when no documentation is present.
pub open spec fn docs_block(docs: Seq<Option<Seq<char>>>, indent: Seq<char>, sep_indent: Seq<char>) -> Seq<
    char,
> {
    match accumulated(docs) {
        Some(ls) => indent + join(ls, "\n"@ + sep_indent) + "\n"@,
        None => Seq::empty(),
    }
}

/// The documentation block of one optional text.
pub open spec fn doc_block(doc: Option<String>, indent: Seq<char>, sep_indent: Seq<char>) -> Seq<char> {
    docs_block(seq![opt_string_text(doc)], indent, sep_indent)
}

/// The `--- @field` annotations of the fields `fs[i..]` whose names need no escaping.
#[verifier::opaque]
pub open spec fn field_annotations(fs: Seq<(String, TypedField)>, i: nat) -> Written
    decreases fs.len() - i,
{
    if i >= fs.len() {
        emit(Seq::empty())
    } else if crate::type_file::spec_needs_escape(fs[i as int].0@) {
        field_annotations(fs, i + 1)
    } else {
        then(
            prepend(
                doc_block(fs[i as int].1.doc, Seq::empty(), Seq::empty()),
                line_with(
                    type_sig(fs[i as int].1.ty),
                    "--- @field "@ + fs[i as int].0@ + " "@,
                    Seq::empty(),
                ),
            ),
            field_annotations(fs, i + 1),
        )
    }
}

/// The table entries `["name"] = nil,` of the fields `fs[i..]` whose names need escaping,
/// each after a `--- @type` annotation.
#[verifier::opaque]
pub open spec fn field_entries(fs: Seq<(String, TypedField)>, i: nat) -> Written
    decreases fs.len() - i,
{
    if i >= fs.len() {
        emit(Seq::empty())
    } else if !crate::type_file::spec_needs_escape(fs[i as int].0@) {
        field_entries(fs, i + 1)
    } else {
        then(
            prepend(
                doc_block(fs[i as int].1.doc, "  "@, "  "@),
                match type_sig(fs[i as int].1.ty) {
                    Ok(s) => emit(
                        "  --- @type "@ + s + "\n"@ + "  [\""@ + fs[i as int].0@ + "\"] = nil,\n"@,
                    ),
                    Err(e) => failed(e),
                },
            ),
            field_entries(fs, i + 1),
        )
    }
}

/// The table entries of the meta fields `fs[i..]` of a class.
#[verifier::opaque]
pub open spec fn class_meta_fields(fs: Seq<(String, TypedField)>, i: nat) -> Written
    decreases fs.len() - i,
{
    if i >= fs.len() {
        emit(Seq::empty())
    } else {
        then(
            prepend(
                doc_block(fs[i as int].1.doc, "    "@, "    "@),
                match type_sig(fs[i as int].1.ty) {
                    Ok(s) => emit("--- @type "@ + s + "\n"@ + fs[i as int].0@ + " = nil,\n"@),
                    Err(e) => failed(e),
                },
            ),
            class_meta_fields(fs, i + 1),
        )
    }
}

/// The name under which a function is written: escaped when asked for.
pub open spec fn entry_name(name: Seq<char>, escape: bool) -> Seq<char> {
    if escape {
        escaped_key(name)
    } else {
        name
    }
}

/// The declaration lines of one function, or of a method of `class`.
pub open spec fn declaration(name: Seq<char>, f: TypedFunction, class: Option<Seq<char>>) -> Result<
    Seq<Seq<char>>,
    DefinitionError,
> {
    match class {
        Some(c) => method_sig(name, c, f.params@, f.results@, true),
        None => function_sig(name, f.params@, f.results@, true),
    }
}

/// The table entries of the functions `fs[i..]` (methods of `class` when it is given),
/// each line starting with `indent` and the last one ending with a comma.
#[verifier::opaque]
pub open spec fn function_entries(
    fs: Seq<(String, TypedFunction)>,
    i: nat,
    indent: Seq<char>,
    class: Option<Seq<char>>,
    escape: bool,
) -> Written
    decreases fs.len() - i,
{
    if i >= fs.len() {
        emit(Seq::empty())
    } else {
        then(
            function_entry(fs[i as int].0@, fs[i as int].1, indent, class, escape),
            function_entries(fs, i + 1, indent, class, escape),
        )
    }
}

/// The table entry of one function: its documentation, then its declaration lines, each
/// starting with `indent` and the last one ending with a comma.
#[verifier::opaque]
pub open spec fn function_entry(
    name: Seq<char>,
    f: TypedFunction,
    indent: Seq<char>,
    class: Option<Seq<char>>,
    escape: bool,
) -> Written {
    prepend(
        doc_block(f.doc, indent, indent),
        indented_lines(declaration(entry_name(name, escape), f, class), indent, ","@),
    )
}

/// The meta table of a class, when it has meta entries.
#[verifier::opaque]
pub open spec fn class_meta(name: Seq<char>, c: TypedClassBuilder) -> Written {
    if c.spec_is_meta_empty() {
        emit(Seq::empty())
    } else {
        prepend(
            "  __metatable = {\n"@,
            then(
                class_meta_fields(c.meta_fields@, 0),
                then(
                    function_entries(c.meta_functions@, 0, "    "@, None, true),
                    then(
                        function_entries(c.meta_methods@, 0, "    "@, Some(name), true),
                        emit("  }\n"@),
                    ),
                ),
            ),
        )
    }
}

/// Some field of `fs` has a name that needs escaping.
pub open spec fn has_escaped_field(fs: Seq<(String, TypedField)>) -> bool {
    exists|i: int| 0 <= i < fs.len() && crate::type_file::spec_needs_escape(#[trigger] fs[i].0@)
}

/// The class has something to hold in its local table: a field whose name needs escaping,
/// a function, a method or a meta entry.
pub open spec fn class_has_table(c: TypedClassBuilder) -> bool {
    has_escaped_field(c.static_fields@) || has_escaped_field(c.fields@) || c.functions@.len() > 0
        || c.methods@.len() > 0 || !c.spec_is_meta_empty()
}

/// The local table of a class: the entries whose names need escaping, the functions,
/// the methods and the meta table.
#[verifier::opaque]
pub open spec fn class_table(name: Seq<char>, c: TypedClassBuilder) -> Written {
    prepend(
        "local _Class_"@ + name + " = {\n"@,
        then(
            field_entries(c.static_fields@, 0),
            then(
                field_entries(c.fields@, 0),
                then(
                    function_entries(c.functions@, 0, "  "@, None, true),
                    then(
                        function_entries(c.methods@, 0, "  "@, Some(name), true),
                        then(class_meta(name, c), emit("}\n"@)),
                    ),
                ),
            ),
        ),
    )
}

/// A class: its annotations (`--- @class`, then `--- @field` for every field whose name
/// needs no escaping), then its local table when it has something to hold.
#[verifier::opaque]
pub open spec fn class_text(name: Seq<char>, doc: Option<Seq<char>>, c: TypedClassBuilder) -> Written {
    prepend(
        docs_block(seq![doc, opt_string_text(c.type_doc)], Seq::empty(), Seq::empty())
            + "--- @class "@ + name + "\n"@,
        then(
            field_annotations(c.static_fields@, 0),
            then(
                field_annotations(c.fields@, 0),
                if class_has_table(c) {
                    class_table(name, c)
                } else {
                    emit(Seq::empty())
                },
            ),
        ),
    )
}

/// A module table whose closing brace is indented by `off`; its entries are indented by
/// two more spaces, the entries of its meta table by four more.
#[verifier::opaque]
pub open spec fn module_text(m: TypedModuleBuilder, off: Seq<char>) -> Written
    decreases m, 1nat,
{
    if m.spec_is_empty() {
        emit("{}"@)
    } else {
        prepend(
            "{\n"@,
            then(
                module_fields(m.fields@, 0, off, false),
                then(
                    nested_modules(m.nested_modules@, 0, off),
                    then(
                        function_entries(m.functions@, 0, off + "  "@, None, false),
                        then(
                            function_entries(m.methods@, 0, off + "  "@, Some("table"@), false),
                            then(module_meta(m, off), emit(off + "}"@)),
                        ),
                    ),
                ),
            ),
        )
    }
}

/// The meta table of a module, when it has meta entries.
#[verifier::opaque]
pub open spec fn module_meta(m: TypedModuleBuilder, off: Seq<char>) -> Written
    decreases m, 0nat,
{
    if m.spec_is_meta_empty() {
        emit(Seq::empty())
    } else {
        prepend(
            off + "  "@ + "__metatable = {\n"@,
            then(
                module_fields(m.meta_fields@, 0, off, true),
                then(
                    function_entries(m.meta_functions@, 0, off + "    "@, None, false),
                    then(
                        function_entries(m.meta_methods@, 0, off + "    "@, Some("table"@), false),
                        emit(off + "  "@ + "},\n"@),
                    ),
                ),
            ),
        )
    }
}

/// The fields `fs[i..]` of a module (its meta fields when `meta`).
#[verifier::opaque]
pub open spec fn module_fields(fs: Seq<(String, TypedField)>, i: nat, off: Seq<char>, meta: bool) -> Written
    decreases fs, fs.len() - i,
{
    if i >= fs.len() {
        emit(Seq::empty())
    } else {
        then(module_field(fs[i as int].0@, fs[i as int].1, off, meta), module_fields(fs, i + 1, off, meta))
    }
}

/// One field of a module (a meta field when `meta`): a nested module table, or
/// `name = nil,` after a `--- @type` annotation.
#[verifier::opaque]
pub open spec fn module_field(name: Seq<char>, f: TypedField, off: Seq<char>, meta: bool) -> Written
    decreases f, 0nat,
{
    let ind = if meta {
        off + "    "@
    } else {
        off + "  "@
    };
    prepend(
        doc_block(f.doc, ind, off + "  "@),
        match f.ty {
            Type::Module(sub) => prepend(
                ind + name + " = "@,
                then(module_text(*sub, off + "  "@), emit(",\n"@)),
            ),
            other => match type_sig(other) {
                Ok(s) => emit(ind + "--- @type "@ + s + "\n"@ + ind + name + " = nil,\n"@),
                Err(e) => failed(e),
            },
        },
    )
}

/// The nested modules `ns[i..]` of a module.
#[verifier::opaque]
pub open spec fn nested_modules(ns: Seq<(String, TypedModuleBuilder)>, i: nat, off: Seq<char>) -> Written
    decreases ns, ns.len() - i,
{
    if i >= ns.len() {
        emit(Seq::empty())
    } else {
        then(nested_module(ns[i as int].0@, ns[i as int].1, off), nested_modules(ns, i + 1, off))
    }
}

/// One nested module of a module, as `name = { ... },`.
#[verifier::opaque]
pub open spec fn nested_module(name: Seq<char>, n: TypedModuleBuilder, off: Seq<char>) -> Written
    decreases n, 2nat,
{
    prepend(
        doc_block(n.doc, off + "  "@, off + "  "@) + off + "  "@ + name + " = "@,
        then(module_text(n, off + "  "@), emit(",\n"@)),
    )
}

/// A global value: `--- @type` annotation, then `name = nil`.
#[verifier::opaque]
pub open spec fn value_text(name: Seq<char>, doc: Option<String>, ty: Type) -> Written {
    prepend(
        doc_block(doc, Seq::empty(), Seq::empty()),
        then(line_with(type_sig(ty), "--- @type "@, Seq::empty()), emit(name + " = nil\n"@)),
    )
}

/// An enumeration: an `--- @alias` of the enumeration's name with one alternative per line.
#[verifier::opaque]
pub open spec fn enum_text(doc: Option<String>, enum_name: Seq<char>, types: Seq<Type>) -> Written {
    prepend(
        doc_block(doc, Seq::empty(), Seq::empty()),
        match type_sigs(types, 0) {
            Ok(sigs) => emit("--- @alias "@ + enum_name + " "@ + join(sigs, "\n---  | "@) + "\n"@),
            Err(err) => failed(err),
        },
    )
}

/// An alias: `--- @alias name signature`.
#[verifier::opaque]
pub open spec fn alias_text(name: Seq<char>, doc: Option<String>, ty: Type) -> Written {
    prepend(
        doc_block(doc, Seq::empty(), Seq::empty()),
        line_with(type_sig(ty), "--- @alias "@ + name + " "@, Seq::empty()),
    )
}

/// A global function: its annotations and `function name(...) end`.
#[verifier::opaque]
pub open spec fn function_text(
    name: Seq<char>,
    doc: Option<String>,
    params: Seq<Param>,
    results: Seq<Return>,
) -> Written {
    prepend(
        doc_block(doc, Seq::empty(), Seq::empty()),
        indented_lines(
            function_sig(escaped_key(name), params, results, false),
            Seq::empty(),
            Seq::empty(),
        ),
    )
}

/// A global module: `name = { ... }`.
#[verifier::opaque]
pub open spec fn module_entry_text(name: Seq<char>, doc: Option<String>, m: TypedModuleBuilder) -> Written {
    prepend(
        docs_block(seq![opt_string_text(doc), opt_string_text(m.doc)], Seq::empty(), Seq::empty())
            + name + " = "@,
        then(module_text(m, Seq::empty()), emit("\n"@)),
    )
}

/// One top-level entry of a definition file. Only values, classes, enumerations,
/// aliases, functions and modules can stand there.
pub open spec fn entry_text(e: DefinitionEntry) -> Written {
    match e.ty {
        Type::Value(ty) => value_text(e.name@, e.doc, *ty),
        Type::Class(c) => class_text(e.name@, opt_string_text(e.doc), *c),
        Type::Enum(enum_name, types) => enum_text(e.doc, enum_name@, types@),
        Type::Alias(ty) => alias_text(e.name@, e.doc, *ty),
        Type::Function { params, results } => function_text(e.name@, e.doc, params@, results@),
        Type::Module(m) => module_entry_text(e.name@, e.doc, *m),
        _ => failed(DefinitionError::InvalidRootType(kind_of(e.ty))),
    }
}

/// The entries `es[i..]`, each followed by an empty line.
pub open spec fn entries_text(es: Seq<DefinitionEntry>, i: nat) -> Written
    decreases es.len() - i,
{
    if i >= es.len() {
        emit(Seq::empty())
    } else {
        then(entry_text(es[i as int]), prepend("\n"@, entries_text(es, i + 1)))
    }
}

/// A whole definition file: the `--- @meta` header, then every entry.
pub open spec fn definition_text(d: Definition) -> Written {
    prepend("--- @meta\n\n"@, entries_text(d.entries@, 0))
}

/// Doing `a` without failure and then `b` writes what `a` writes followed by `b`.
pub proof fn lemma_prepend_then(w: Seq<char>, a: Written, b: Written)
    requires
        a.1 is None,
    ensures
        prepend(w, then(a, b)) == prepend(w + a.0, b),
{
    assert(w + (a.0 + b.0) =~= w + a.0 + b.0);
}

/// Writing `w` and then `t` before a step is writing `w + t` before it.
pub proof fn lemma_prepend_prepend(w: Seq<char>, t: Seq<char>, b: Written)
    ensures
        prepend(w, prepend(t, b)) == prepend(w + t, b),
{
    assert(w + (t + b.0) =~= w + t + b.0);
}

/// A module that is not empty opens a table, writes its fields, nested modules,
/// functions, methods and meta table, and closes the table.
pub proof fn lemma_module_text(m: TypedModuleBuilder, off: Seq<char>)
    ensures
        module_text(m, off) == if m.spec_is_empty() {
            emit("{}"@)
        } else {
            prepend(
                "{\n"@,
                then(
                    module_fields(m.fields@, 0, off, false),
                    then(
                        nested_modules(m.nested_modules@, 0, off),
                        then(
                            function_entries(m.functions@, 0, off + "  "@, None, false),
                            then(
                                function_entries(m.methods@, 0, off + "  "@, Some("table"@), false),
                                then(module_meta(m, off), emit(off + "}"@)),
                            ),
                        ),
                    ),
                ),
            )
        },
{
    reveal_with_fuel(module_text, 1);
    reveal_with_fuel(module_meta, 1);
    reveal_with_fuel(module_fields, 1);
    reveal_with_fuel(nested_modules, 1);
    reveal_with_fuel(module_field, 1);
    reveal_with_fuel(nested_module, 1);
}

/// Unfolds the meta table of a module.
pub proof fn lemma_module_meta(m: TypedModuleBuilder, off: Seq<char>)
    ensures
        module_meta(m, off) == if m.spec_is_meta_empty() {
            emit(Seq::empty())
        } else {
            prepend(
                off + "  "@ + "__metatable = {\n"@,
                then(
                    module_fields(m.meta_fields@, 0, off, true),
                    then(
                        function_entries(m.meta_functions@, 0, off + "    "@, None, false),
                        then(
                            function_entries(m.meta_methods@, 0, off + "    "@, Some("table"@), false),
                            emit(off + "  "@ + "},\n"@),
                        ),
                    ),
                ),
            )
        },
{
    reveal_with_fuel(module_text, 1);
    reveal_with_fuel(module_meta, 1);
    reveal_with_fuel(module_fields, 1);
    reveal_with_fuel(nested_modules, 1);
    reveal_with_fuel(module_field, 1);
    reveal_with_fuel(nested_module, 1);
}

/// Unfolds the fields of a module by one.
pub proof fn lemma_module_fields(fs: Seq<(String, TypedField)>, i: nat, off: Seq<char>, meta: bool)
    ensures
        module_fields(fs, i, off, meta) == if i >= fs.len() {
            emit(Seq::empty())
        } else {
            then(
                module_field(fs[i as int].0@, fs[i as int].1, off, meta),
                module_fields(fs, i + 1, off, meta),
            )
        },
{
    reveal_with_fuel(module_text, 1);
    reveal_with_fuel(module_meta, 1);
    reveal_with_fuel(module_fields, 1);
    reveal_with_fuel(nested_modules, 1);
    reveal_with_fuel(module_field, 1);
    reveal_with_fuel(nested_module, 1);
}

/// Unfolds one field of a module.
pub proof fn lemma_module_field(name: Seq<char>, f: TypedField, off: Seq<char>, meta: bool)
    ensures
        module_field(name, f, off, meta) == {
            let ind = if meta {
                off + "    "@
            } else {
                off + "  "@
            };
            prepend(
                doc_block(f.doc, ind, off + "  "@),
                match f.ty {
                    Type::Module(sub) => prepend(
                        ind + name + " = "@,
                        then(module_text(*sub, off + "  "@), emit(",\n"@)),
                    ),
                    other => match type_sig(other) {
                        Ok(s) => emit(ind + "--- @type "@ + s + "\n"@ + ind + name + " = nil,\n"@),
                        Err(e) => failed(e),
                    },
                },
            )
        },
{
    reveal_with_fuel(module_text, 1);
    reveal_with_fuel(module_meta, 1);
    reveal_with_fuel(module_fields, 1);
    reveal_with_fuel(nested_modules, 1);
    reveal_with_fuel(module_field, 1);
    reveal_with_fuel(nested_module, 1);
}

/// Unfolds the nested modules of a module by one.
pub proof fn lemma_nested_modules(ns: Seq<(String, TypedModuleBuilder)>, i: nat, off: Seq<char>)
    ensures
        nested_modules(ns, i, off) == if i >= ns.len() {
            emit(Seq::empty())
        } else {
            then(nested_module(ns[i as int].0@, ns[i as int].1, off), nested_modules(ns, i + 1, off))
        },
{
    reveal_with_fuel(module_text, 1);
    reveal_with_fuel(module_meta, 1);
    reveal_with_fuel(module_fields, 1);
    reveal_with_fuel(nested_modules, 1);
    reveal_with_fuel(module_field, 1);
    reveal_with_fuel(nested_module, 1);
}

/// Unfolds one nested module.
pub proof fn lemma_nested_module(name: Seq<char>, n: TypedModuleBuilder, off: Seq<char>)
    ensures
        nested_module(name, n, off) == prepend(
            doc_block(n.doc, off + "  "@, off + "  "@) + off + "  "@ + name + " = "@,
            then(module_text(n, off + "  "@), emit(",\n"@)),
        ),
{
    reveal_with_fuel(module_text, 1);
    reveal_with_fuel(module_meta, 1);
    reveal_with_fuel(module_fields, 1);
    reveal_with_fuel(nested_modules, 1);
    reveal_with_fuel(module_field, 1);
    reveal_with_fuel(nested_module, 1);
}

} // verus!
