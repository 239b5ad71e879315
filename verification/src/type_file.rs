//! Lua definition files for the Lua language server.
use vstd::prelude::*;

use crate::docs::{doc_ref, opt_string_text, opt_text};
use crate::error::DefinitionError;
use crate::output::{
    class_meta,
    class_meta_fields,
    class_has_table,
    class_table,
    class_text,
    has_escaped_field,
    declaration,
    definition_text,
    doc_block,
    docs_block,
    alias_text,
    emit,
    enum_text,
    function_text,
    module_entry_text,
    value_text,
    entries_text,
    entry_text,
    entry_name,
    failed,
    field_annotations,
    field_entries,
    function_entries,
    function_entry,
    lemma_prepend_prepend,
    lemma_module_field,
    lemma_module_fields,
    lemma_module_meta,
    lemma_module_text,
    lemma_nested_module,
    lemma_nested_modules,
    lemma_prepend_then,
    module_field,
    module_meta,
    nested_module,
    module_fields,
    module_text,
    nested_modules,
    line_with,
    outcome,
    prepend,
    then,
};
use crate::signature::{result_lines, type_sig};
use crate::text::{char_is_alphanumeric, is_alphanumeric, join_strings};
use crate::typed::{Definition, DefinitionEntry, Definitions, Param, Return, Type, TypedClassBuilder, TypedField, TypedFunction, TypedModuleBuilder};

verus! {

/// Generates a Lua definition file for each definition group.
///
/// Each file starts with `--- @meta` and holds the types as documentation comments for the
/// Lua language server. Exposed values are written as `{name} = nil` with a
/// `--- @type {type}` comment above that marks their type.
pub struct DefinitionFileGenerator {
    /// The extension of each definition file, `.d.lua` by default. Callers should give one
    /// that starts with a dot: it is appended to the group's name as it is, unchecked.
    extension: String,
    definitions: Definitions,
}

impl DefinitionFileGenerator {
    /// The extension that each file name ends with.
    pub closed spec fn extension(&self) -> Seq<char> {
        self.extension@
    }

    /// The definition groups, by file name, in order.
    pub closed spec fn files(&self) -> Seq<(String, Definition)> {
        self.definitions.files@
    }
}

impl Default for DefinitionFileGenerator {
    /// No definition group, and the extension `.d.lua`.
    fn default() -> (r: Self)
        ensures
            r.extension() == ".d.lua"@,
            r.files().len() == 0,
    {
        DefinitionFileGenerator {
            extension: String::from_str(".d.lua"),
            definitions: Definitions { files: Vec::new() },
        }
    }
}

impl DefinitionFileGenerator {
    /// A generator for the given definitions, with the extension `.d.lua`.
    pub fn new(definitions: Definitions) -> (r: Self)
        ensures
            r.extension() == ".d.lua"@,
            r.files() == definitions.files@,
    {
        DefinitionFileGenerator { extension: String::from_str(".d.lua"), definitions }
    }

    /// Sets the extension that each file name ends with.
    pub fn ext(self, ext: &str) -> (r: Self)
        ensures
            r.extension() == ext@,
            r.files() == self.files(),
    {
        DefinitionFileGenerator { extension: String::from_str(ext), definitions: self.definitions }
    }

    /// Iterates over the files: each file name with the writer of its group.
    pub fn iter(&self) -> (r: DefinitionFileIter<'_>)
        ensures
            r.extension() == self.extension(),
            r.remaining() == self.files(),
    {
        let r = DefinitionFileIter {
            extension: self.extension.clone(),
            definitions: &self.definitions.files,
            index: 0,
        };
        proof {
            assert(self.definitions.files@.skip(0) =~= self.definitions.files@);
        }
        r
    }
}

impl DefinitionFileGenerator {
    /// The names of the files, in order, as a full iteration yields them before it ends:
    /// one per definition group, its name followed by the extension.
    pub fn file_names(&self) -> (names: Vec<String>)
        ensures
            names.len() == self.files().len(),
            forall|k: int| 0 <= k < names.len() ==> #[trigger] names[k]@ == self.files()[k].0@ + self.extension(),
            forall|k: int|
                0 <= k < names.len() ==> (#[trigger] names[k]@).subrange(
                    names[k]@.len() - self.extension().len(),
                    names[k]@.len() as int,
                ) == self.extension(),
    {
        let mut files = self.iter();
        let mut names: Vec<String> = Vec::new();
        proof {
            assert(self.files().skip(0) =~= self.files());
        }
        loop
            invariant
                files.extension() == self.extension(),
                names.len() <= self.files().len(),
                files.remaining() == self.files().skip(names.len() as int),
                forall|k: int| 0 <= k < names.len() ==> #[trigger] names[k]@ == self.files()[k].0@ + self.extension(),
            ensures
                names.len() == self.files().len(),
                forall|k: int| 0 <= k < names.len() ==> #[trigger] names[k]@ == self.files()[k].0@ + self.extension(),
            decreases files.remaining().len(),
        {
            match files.next() {
                Some((name, _)) => {
                    proof {
                        assert(self.files().skip(names.len() as int)[0] == self.files()[names.len() as int]);
                        assert(self.files().skip(names.len() as int).drop_first() =~= self.files().skip(
                            names.len() + 1,
                        ));
                    }
                    names.push(name);
                },
                None => {
                    break;
                },
            }
        }
        proof {
            assert forall|k: int|
                0 <= k < names.len() implies (#[trigger] names[k]@).subrange(
                names[k]@.len() - self.extension().len(),
                names[k]@.len() as int,
            ) == self.extension() by {
                assert(names[k]@.subrange(names[k]@.len() - self.extension().len(), names[k]@.len() as int)
                    =~= self.extension());
            }
        }
        names
    }
}

/// The files of a [`DefinitionFileGenerator`], in order.
pub struct DefinitionFileIter<'def> {
    extension: String,
    definitions: &'def Vec<(String, Definition)>,
    index: usize,
}

impl<'def> DefinitionFileIter<'def> {
    #[verifier::type_invariant]
    spec fn inv(self) -> bool {
        self.index <= self.definitions@.len()
    }

    /// The extension that each file name ends with.
    pub closed spec fn extension(&self) -> Seq<char> {
        self.extension@
    }

    /// The definition groups not yet visited, in order.
    pub closed spec fn remaining(&self) -> Seq<(String, Definition)> {
        self.definitions@.skip(self.index as int)
    }

    /// The next file: its name (the group's name followed by the extension) and the
    /// writer of its group; `None` once every group has been visited.
    pub fn next(&mut self) -> (r: Option<(String, DefinitionWriter<'def>)>)
        ensures
            final(self).extension() == old(self).extension(),
            old(self).remaining().len() == 0 ==> r is None && final(self).remaining() == old(
                self,
            ).remaining(),
            old(self).remaining().len() > 0 ==> {
                &&& r matches Some((name, writer))
                &&& name@ == old(self).remaining()[0].0@ + old(self).extension()
                &&& writer.spec_definition() == old(self).remaining()[0].1
                &&& final(self).remaining() == old(self).remaining().drop_first()
            },
    {
        proof {
            use_type_invariant(&*self);
        }
        if self.index < self.definitions.len() {
            let entry = &self.definitions[self.index];
            let mut name = entry.0.clone();
            name.append(self.extension.as_str());
            let writer = DefinitionWriter { definition: &entry.1 };
            self.index = self.index + 1;
            proof {
                assert(self.definitions@.skip(self.index as int) =~= old(self).remaining().drop_first());
            }
            Some((name, writer))
        } else {
            None
        }
    }
}

/// Writes one definition group.
pub struct DefinitionWriter<'def> {
    definition: &'def Definition,
}

impl<'def> DefinitionWriter<'def> {
    /// The definition group that is written.
    pub closed spec fn spec_definition(&self) -> Definition {
        *self.definition
    }
}

/// A key needs escaping when it holds a character that is neither alphanumeric nor `_`.
pub open spec fn spec_needs_escape(key: Seq<char>) -> bool {
    exists|i: int| 0 <= i < key.len() && !is_alphanumeric(#[trigger] key[i]) && key[i] != '_'
}

/// A table key as written: `["key"]` when it needs escaping, the key itself otherwise.
pub open spec fn escaped_key(key: Seq<char>) -> Seq<char> {
    if spec_needs_escape(key) {
        "[\""@ + key + "\"]"@
    } else {
        key
    }
}

/// Whether `key` holds a character that is neither alphanumeric nor `_`, so that it cannot
/// be written as a plain Lua name.
pub fn needs_escape(key: &str) -> (r: bool)
    ensures
        r == spec_needs_escape(key@),
{
    let n = key.unicode_len();
    let mut i: usize = 0;
    while i < n
        invariant
            n == key@.len(),
            i <= n,
            forall|j: int| 0 <= j < i ==> is_alphanumeric(#[trigger] key@[j]) || key@[j] == '_',
        decreases n - i,
    {
        let c = key.get_char(i);
        if !char_is_alphanumeric(c) && c != '_' {
            return true;
        }
        i = i + 1;
    }
    false
}

/// The key as written in a table: `["key"]` when it needs escaping, the key otherwise.
pub fn escape_key(key: &str) -> (r: String)
    ensures
        r@ == escaped_key(key@),
{
    if needs_escape(key) {
        let mut r = String::from_str("[\"");
        r.append(key);
        r.append("\"]");
        r
    } else {
        String::from_str(key)
    }
}

impl DefinitionWriter<'_> {
    /// Appends the documentation block of the given texts.
    fn write_docs(buffer: &mut String, docs: &[Option<&str>], indent: &str, sep_indent: &str)
        ensures
            final(buffer)@ == old(buffer)@ + docs_block(
                docs@.map_values(|d: Option<&str>| opt_text(d)),
                indent@,
                sep_indent@,
            ),
    {
        match Self::accumulate_docs(docs) {
            Some(lines) => {
                buffer.append(indent);
                let mut sep = String::from_str("\n");
                sep.append(sep_indent);
                buffer.append(join_strings(&lines, sep.as_str()).as_str());
                buffer.append("\n");
            },
            None => {},
        }
    }

    /// Appends the documentation block of one optional text.
    fn write_doc(buffer: &mut String, doc: &Option<String>, indent: &str, sep_indent: &str)
        ensures
            final(buffer)@ == old(buffer)@ + doc_block(*doc, indent@, sep_indent@),
    {
        let docs = [doc_ref(doc)];
        proof {
            assert(docs@.map_values(|d: Option<&str>| opt_text(d)) =~= seq![opt_string_text(*doc)]);
        }
        Self::write_docs(buffer, &docs, indent, sep_indent);
    }

    /// Appends the documentation block of two optional texts.
    fn write_doc_pair(buffer: &mut String, first: &Option<String>, second: &Option<String>)
        ensures
            final(buffer)@ == old(buffer)@ + docs_block(
                seq![opt_string_text(*first), opt_string_text(*second)],
                Seq::empty(),
                Seq::empty(),
            ),
    {
        let docs = [doc_ref(first), doc_ref(second)];
        proof {
            reveal_strlit("");
            assert(docs@.map_values(|d: Option<&str>| opt_text(d)) =~= seq![
                opt_string_text(*first),
                opt_string_text(*second),
            ]);
        }
        Self::write_docs(buffer, &docs, "", "");
    }

    /// Appends the `--- @field` annotations of the fields whose names need no escaping.
    fn write_field_annotations(buffer: &mut String, fs: &Vec<(String, TypedField)>) -> (r: Result<
        (),
        DefinitionError,
    >)
        ensures
            final(buffer)@ == old(buffer)@ + field_annotations(fs@, 0).0,
            r == outcome(field_annotations(fs@, 0)),
    {
        proof {
            reveal(field_annotations);
        }
        let ghost start = buffer@;
        let ghost mut w: Seq<char> = Seq::empty();
        let mut i: usize = 0;
        proof {
            reveal_strlit("");
            assert(start + w =~= start);
            assert(prepend(w, field_annotations(fs@, 0)) =~= field_annotations(fs@, 0));
        }
        while i < fs.len()
            invariant
                i <= fs.len(),
                start == old(buffer)@,
                buffer@ == start + w,
                field_annotations(fs@, 0) == prepend(w, field_annotations(fs@, i as nat)),
            decreases fs.len() - i,
        {
            proof {
                reveal(field_annotations);
            }
            let name = &fs[i].0;
            let field = &fs[i].1;
            proof {
                reveal_strlit("");
            }
            if !needs_escape(name.as_str()) {
                let ghost b0 = buffer@;
                Self::write_doc(buffer, &field.doc, "", "");
                let ghost d = doc_block(field.doc, Seq::empty(), Seq::empty());
                proof {
                    assert(""@ =~= Seq::<char>::empty());
                    assert(buffer@ =~= b0 + d);
                }
                let sig = match Self::type_signature(&field.ty) {
                    Ok(s) => s,
                    Err(e) => {
                        proof {
                            assert(type_sig(field.ty) == Err::<Seq<char>, DefinitionError>(e));
                            assert(field_annotations(fs@, i as nat) == prepend(d, failed(e)));
                            assert(buffer@ =~= start + (w + d));
                            assert(w + d + Seq::<char>::empty() =~= w + d);
                            lemma_prepend_prepend(w, d, failed(e));
                            assert(buffer@ =~= start + field_annotations(fs@, 0).0);
                        }
                        return Err(e);
                    },
                };
                buffer.append("--- @field ");
                buffer.append(name.as_str());
                buffer.append(" ");
                buffer.append(sig.as_str());
                buffer.append("\n");
                proof {
                    let piece = prepend(
                        d,
                        line_with(type_sig(field.ty), "--- @field "@ + name@ + " "@, Seq::empty()),
                    );
                    assert(piece.0 =~= d + ("--- @field "@ + name@ + " "@ + sig@ + Seq::<char>::empty() + "\n"@));
                    lemma_prepend_then(w, piece, field_annotations(fs@, (i + 1) as nat));
                    w = w + piece.0;
                    assert(buffer@ =~= start + w);
                }
            }
            i = i + 1;
        }
        proof {
            assert(w + Seq::<char>::empty() =~= w);
        }
        Ok(())
    }

    /// Appends the table entries of the fields whose names need escaping.
    fn write_field_entries(buffer: &mut String, fs: &Vec<(String, TypedField)>) -> (r: Result<
        (),
        DefinitionError,
    >)
        ensures
            final(buffer)@ == old(buffer)@ + field_entries(fs@, 0).0,
            r == outcome(field_entries(fs@, 0)),
    {
        proof {
            reveal(field_entries);
        }
        let ghost start = buffer@;
        let ghost mut w: Seq<char> = Seq::empty();
        let mut i: usize = 0;
        proof {
            assert(start + w =~= start);
            assert(prepend(w, field_entries(fs@, 0)) =~= field_entries(fs@, 0));
        }
        while i < fs.len()
            invariant
                i <= fs.len(),
                start == old(buffer)@,
                buffer@ == start + w,
                field_entries(fs@, 0) == prepend(w, field_entries(fs@, i as nat)),
            decreases fs.len() - i,
        {
            proof {
                reveal(field_entries);
            }
            let name = &fs[i].0;
            let field = &fs[i].1;
            if needs_escape(name.as_str()) {
                let ghost b0 = buffer@;
                Self::write_doc(buffer, &field.doc, "  ", "  ");
                let ghost d = doc_block(field.doc, "  "@, "  "@);
                let sig = match Self::type_signature(&field.ty) {
                    Ok(s) => s,
                    Err(e) => {
                        proof {
                            assert(type_sig(field.ty) == Err::<Seq<char>, DefinitionError>(e));
                            assert(field_entries(fs@, i as nat) == prepend(d, failed(e)));
                            lemma_prepend_prepend(w, d, failed(e));
                            assert(buffer@ =~= start + field_entries(fs@, 0).0);
                        }
                        return Err(e);
                    },
                };
                buffer.append("  --- @type ");
                buffer.append(sig.as_str());
                buffer.append("\n");
                buffer.append("  [\"");
                buffer.append(name.as_str());
                buffer.append("\"] = nil,\n");
                proof {
                    let text = "  --- @type "@ + sig@ + "\n"@ + "  [\""@ + name@ + "\"] = nil,\n"@;
                    let piece = prepend(d, emit(text));
                    assert(buffer@ =~= start + (w + piece.0));
                    lemma_prepend_then(w, piece, field_entries(fs@, (i + 1) as nat));
                    w = w + piece.0;
                }
            }
            i = i + 1;
        }
        proof {
            assert(w + Seq::<char>::empty() =~= w);
        }
        Ok(())
    }

    /// Appends the table entries of the meta fields of a class.
    fn write_class_meta_fields(buffer: &mut String, fs: &Vec<(String, TypedField)>) -> (r: Result<
        (),
        DefinitionError,
    >)
        ensures
            final(buffer)@ == old(buffer)@ + class_meta_fields(fs@, 0).0,
            r == outcome(class_meta_fields(fs@, 0)),
    {
        proof {
            reveal(class_meta_fields);
        }
        let ghost start = buffer@;
        let ghost mut w: Seq<char> = Seq::empty();
        let mut i: usize = 0;
        proof {
            assert(start + w =~= start);
            assert(prepend(w, class_meta_fields(fs@, 0)) =~= class_meta_fields(fs@, 0));
        }
        while i < fs.len()
            invariant
                i <= fs.len(),
                start == old(buffer)@,
                buffer@ == start + w,
                class_meta_fields(fs@, 0) == prepend(w, class_meta_fields(fs@, i as nat)),
            decreases fs.len() - i,
        {
            proof {
                reveal(class_meta_fields);
            }
            let name = &fs[i].0;
            let field = &fs[i].1;
            Self::write_doc(buffer, &field.doc, "    ", "    ");
            let ghost d = doc_block(field.doc, "    "@, "    "@);
            let sig = match Self::type_signature(&field.ty) {
                Ok(s) => s,
                Err(e) => {
                    proof {
                        assert(type_sig(field.ty) == Err::<Seq<char>, DefinitionError>(e));
                        assert(class_meta_fields(fs@, i as nat) == prepend(d, failed(e)));
                        lemma_prepend_prepend(w, d, failed(e));
                        assert(buffer@ =~= start + class_meta_fields(fs@, 0).0);
                    }
                    return Err(e);
                },
            };
            buffer.append("--- @type ");
            buffer.append(sig.as_str());
            buffer.append("\n");
            buffer.append(name.as_str());
            buffer.append(" = nil,\n");
            proof {
                let text = "--- @type "@ + sig@ + "\n"@ + name@ + " = nil,\n"@;
                let piece = prepend(d, emit(text));
                assert(buffer@ =~= start + (w + piece.0));
                lemma_prepend_then(w, piece, class_meta_fields(fs@, (i + 1) as nat));
                w = w + piece.0;
            }
            i = i + 1;
        }
        proof {
            assert(w + Seq::<char>::empty() =~= w);
        }
        Ok(())
    }

    /// Appends the table entry of one function, or of one method of `class`.
    fn write_function_entry(
        buffer: &mut String,
        key: &String,
        f: &TypedFunction,
        indent: &str,
        class: Option<&str>,
        escape: bool,
    ) -> (r: Result<(), DefinitionError>)
        ensures
            final(buffer)@ == old(buffer)@ + function_entry(key@, *f, indent@, opt_text(class), escape).0,
            r == outcome(function_entry(key@, *f, indent@, opt_text(class), escape)),
    {
        proof {
            reveal(function_entry);
        }
        let ghost start = buffer@;
        Self::write_doc(buffer, &f.doc, indent, indent);
        let ghost d = doc_block(f.doc, indent@, indent@);
        let name = if escape {
            escape_key(key.as_str())
        } else {
            key.clone()
        };
        let decl = match class {
            Some(cl) => Self::method_signature(name.as_str(), cl, &f.params, &f.results, true),
            None => Self::function_signature(name.as_str(), &f.params, &f.results, true),
        };
        proof {
            assert(name@ == entry_name(key@, escape));
            assert(result_lines(decl) == declaration(entry_name(key@, escape), *f, opt_text(class)));
        }
        let lines = match decl {
            Ok(l) => l,
            Err(e) => {
                proof {
                    assert(buffer@ =~= start + (d + Seq::<char>::empty()));
                }
                return Err(e);
            },
        };
        buffer.append(indent);
        let mut sep = String::from_str("\n");
        sep.append(indent);
        let joined = join_strings(&lines, sep.as_str());
        buffer.append(joined.as_str());
        buffer.append(",");
        buffer.append("\n");
        proof {
            assert(buffer@ =~= start + (d + (indent@ + joined@ + ","@ + "\n"@)));
        }
        Ok(())
    }

    /// Appends the table entries of functions, or of methods of `class` when it is given.
    fn write_function_entries(
        buffer: &mut String,
        fs: &Vec<(String, TypedFunction)>,
        indent: &str,
        class: Option<&str>,
        escape: bool,
    ) -> (r: Result<(), DefinitionError>)
        ensures
            final(buffer)@ == old(buffer)@ + function_entries(fs@, 0, indent@, opt_text(class), escape).0,
            r == outcome(function_entries(fs@, 0, indent@, opt_text(class), escape)),
    {
        proof {
            reveal(function_entries);
        }
        let ghost start = buffer@;
        let ghost mut w: Seq<char> = Seq::empty();
        let ghost c = opt_text(class);
        let mut i: usize = 0;
        proof {
            assert(start + w =~= start);
            assert(prepend(w, function_entries(fs@, 0, indent@, c, escape)) =~= function_entries(
                fs@,
                0,
                indent@,
                c,
                escape,
            ));
        }
        while i < fs.len()
            invariant
                i <= fs.len(),
                start == old(buffer)@,
                c == opt_text(class),
                buffer@ == start + w,
                function_entries(fs@, 0, indent@, c, escape) == prepend(
                    w,
                    function_entries(fs@, i as nat, indent@, c, escape),
                ),
            decreases fs.len() - i,
        {
            proof {
                reveal(function_entries);
            }
            let ghost piece = function_entry(fs@[i as int].0@, fs@[i as int].1, indent@, c, escape);
            let ghost rest = function_entries(fs@, (i + 1) as nat, indent@, c, escape);
            match Self::write_function_entry(buffer, &fs[i].0, &fs[i].1, indent, class, escape) {
                Ok(()) => {},
                Err(e) => {
                    proof {
                        assert(function_entries(fs@, i as nat, indent@, c, escape) == piece);
                        assert(buffer@ =~= start + function_entries(fs@, 0, indent@, c, escape).0);
                    }
                    return Err(e);
                },
            }
            proof {
                lemma_prepend_then(w, piece, rest);
                w = w + piece.0;
                assert(buffer@ =~= start + w);
            }
            i = i + 1;
        }
        proof {
            assert(w + Seq::<char>::empty() =~= w);
        }
        Ok(())
    }

    /// Appends the meta table of a class, when it has meta entries.
    fn write_class_meta(buffer: &mut String, name: &str, c: &TypedClassBuilder) -> (r: Result<
        (),
        DefinitionError,
    >)
        ensures
            final(buffer)@ == old(buffer)@ + class_meta(name@, *c).0,
            r == outcome(class_meta(name@, *c)),
    {
        proof {
            reveal(class_meta);
        }
        let ghost start = buffer@;
        if !c.is_meta_empty() {
            if c.meta_fields.len() != 0 || c.meta_functions.len() != 0 || c.meta_methods.len() != 0 {
                let ghost r3 = then(
                    function_entries(c.meta_methods@, 0, "    "@, Some(name@), true),
                    emit("  }\n"@),
                );
                let ghost r2 = then(function_entries(c.meta_functions@, 0, "    "@, None, true), r3);
                let ghost r1 = then(class_meta_fields(c.meta_fields@, 0), r2);
                let ghost total = class_meta(name@, *c);
                buffer.append("  __metatable = {\n");
                let ghost w0 = "  __metatable = {\n"@;
                match Self::write_class_meta_fields(buffer, &c.meta_fields) {
                    Ok(()) => {},
                    Err(e) => {
                        proof {
                            assert(buffer@ =~= start + total.0);
                        }
                        return Err(e);
                    },
                }
                let ghost w1 = w0 + class_meta_fields(c.meta_fields@, 0).0;
                proof {
                    lemma_prepend_then(w0, class_meta_fields(c.meta_fields@, 0), r2);
                    assert(buffer@ =~= start + w1);
                }
                match Self::write_function_entries(buffer, &c.meta_functions, "    ", None, true) {
                    Ok(()) => {},
                    Err(e) => {
                        proof {
                            assert(buffer@ =~= start + total.0);
                        }
                        return Err(e);
                    },
                }
                let ghost fe = function_entries(c.meta_functions@, 0, "    "@, None, true);
                let ghost w2 = w1 + fe.0;
                proof {
                    lemma_prepend_then(w1, fe, r3);
                    assert(buffer@ =~= start + w2);
                }
                match Self::write_function_entries(buffer, &c.meta_methods, "    ", Some(name), true) {
                    Ok(()) => {},
                    Err(e) => {
                        proof {
                            assert(buffer@ =~= start + total.0);
                        }
                        return Err(e);
                    },
                }
                let ghost fm = function_entries(c.meta_methods@, 0, "    "@, Some(name@), true);
                proof {
                    lemma_prepend_then(w2, fm, emit("  }\n"@));
                }
                buffer.append("  }\n");
                proof {
                    assert(buffer@ =~= start + total.0);
                }
            }
        }
        proof {
            if c.spec_is_meta_empty() {
                assert(buffer@ =~= start + Seq::<char>::empty());
            }
        }
        Ok(())
    }

    /// Whether some field of `fs` has a name that needs escaping.
    fn has_escaped_field(fs: &Vec<(String, TypedField)>) -> (r: bool)
        ensures
            r == has_escaped_field(fs@),
    {
        let mut i: usize = 0;
        while i < fs.len()
            invariant
                i <= fs.len(),
                forall|j: int| 0 <= j < i ==> !spec_needs_escape(#[trigger] fs@[j].0@),
            decreases fs.len() - i,
        {
            if needs_escape(fs[i].0.as_str()) {
                return true;
            }
            i = i + 1;
        }
        false
    }

    /// Appends the local table of a class.
    #[verifier::rlimit(100)]
    #[verifier::spinoff_prover]
    fn write_class_table(buffer: &mut String, name: &str, c: &TypedClassBuilder) -> (r: Result<
        (),
        DefinitionError,
    >)
        ensures
            final(buffer)@ == old(buffer)@ + class_table(name@, *c).0,
            r == outcome(class_table(name@, *c)),
    {
        let ghost start = buffer@;
        let ghost n = name@;
        let ghost total = class_table(n, *c);
        let ghost a3 = field_entries(c.static_fields@, 0);
        let ghost a4 = field_entries(c.fields@, 0);
        let ghost a5 = function_entries(c.functions@, 0, "  "@, None, true);
        let ghost a6 = function_entries(c.methods@, 0, "  "@, Some(n), true);
        let ghost a7 = class_meta(n, *c);
        let ghost r8 = then(a7, emit("}\n"@));
        let ghost r7 = then(a6, r8);
        let ghost r6 = then(a5, r7);
        let ghost r5 = then(a4, r6);
        let ghost r4 = then(a3, r5);
        let ghost w2 = "local _Class_"@ + n + " = {\n"@;
        proof {
            reveal(class_table);
            assert(total == prepend(w2, r4));
        }
        buffer.append("local _Class_");
        buffer.append(name);
        buffer.append(" = {\n");
        proof {
            assert(buffer@ =~= start + w2);
        }
        if let Err(e) = Self::write_field_entries(buffer, &c.static_fields) {
            proof {
                assert(buffer@ =~= start + (w2 + a3.0));
            }
            return Err(e);
        }
        let ghost w3 = w2 + a3.0;
        proof {
            lemma_prepend_then(w2, a3, r5);
            assert(buffer@ =~= start + w3);
        }
        if let Err(e) = Self::write_field_entries(buffer, &c.fields) {
            proof {
                assert(buffer@ =~= start + (w3 + a4.0));
            }
            return Err(e);
        }
        let ghost w4 = w3 + a4.0;
        proof {
            lemma_prepend_then(w3, a4, r6);
            assert(buffer@ =~= start + w4);
        }
        if let Err(e) = Self::write_function_entries(buffer, &c.functions, "  ", None, true) {
            proof {
                assert(buffer@ =~= start + (w4 + a5.0));
            }
            return Err(e);
        }
        let ghost w5 = w4 + a5.0;
        proof {
            lemma_prepend_then(w4, a5, r7);
            assert(buffer@ =~= start + w5);
        }
        if let Err(e) = Self::write_function_entries(buffer, &c.methods, "  ", Some(name), true) {
            proof {
                assert(buffer@ =~= start + (w5 + a6.0));
            }
            return Err(e);
        }
        let ghost w6 = w5 + a6.0;
        proof {
            lemma_prepend_then(w5, a6, r8);
            assert(buffer@ =~= start + w6);
        }
        if let Err(e) = Self::write_class_meta(buffer, name, c) {
            proof {
                assert(buffer@ =~= start + (w6 + a7.0));
            }
            return Err(e);
        }
        proof {
            lemma_prepend_then(w6, a7, emit("}\n"@));
        }
        buffer.append("}\n");
        proof {
            assert(buffer@ =~= start + (w6 + a7.0 + "}\n"@));
        }
        Ok(())
    }

    /// Appends a class: its annotations, then its local table when it has something to hold.
    fn write_class(buffer: &mut String, name: &str, doc: &Option<String>, c: &TypedClassBuilder) -> (r:
        Result<(), DefinitionError>)
        ensures
            final(buffer)@ == old(buffer)@ + class_text(name@, opt_string_text(*doc), *c).0,
            r == outcome(class_text(name@, opt_string_text(*doc), *c)),
    {
        let ghost start = buffer@;
        let ghost n = name@;
        let ghost total = class_text(n, opt_string_text(*doc), *c);
        let ghost a1 = field_annotations(c.static_fields@, 0);
        let ghost a2 = field_annotations(c.fields@, 0);
        let ghost table = if class_has_table(*c) {
            class_table(n, *c)
        } else {
            emit(Seq::empty())
        };
        let ghost r3 = then(a2, table);
        let ghost w0 = docs_block(
            seq![opt_string_text(*doc), opt_string_text(c.type_doc)],
            Seq::empty(),
            Seq::empty(),
        ) + "--- @class "@ + n + "\n"@;
        proof {
            reveal(class_text);
            assert(total == prepend(w0, then(a1, r3)));
        }
        Self::write_doc_pair(buffer, doc, &c.type_doc);
        buffer.append("--- @class ");
        buffer.append(name);
        buffer.append("\n");
        proof {
            assert(buffer@ =~= start + w0);
        }
        if let Err(e) = Self::write_field_annotations(buffer, &c.static_fields) {
            proof {
                assert(buffer@ =~= start + (w0 + a1.0));
            }
            return Err(e);
        }
        let ghost w1 = w0 + a1.0;
        proof {
            lemma_prepend_then(w0, a1, r3);
            assert(buffer@ =~= start + w1);
        }
        if let Err(e) = Self::write_field_annotations(buffer, &c.fields) {
            proof {
                assert(buffer@ =~= start + (w1 + a2.0));
            }
            return Err(e);
        }
        let ghost w2 = w1 + a2.0;
        proof {
            lemma_prepend_then(w1, a2, table);
            assert(buffer@ =~= start + w2);
        }
        let has_table = Self::has_escaped_field(&c.static_fields) || Self::has_escaped_field(&c.fields)
            || c.functions.len() != 0 || c.methods.len() != 0 || !c.is_meta_empty();
        if has_table {
            return Self::write_class_table(buffer, name, c);
        }
        proof {
            assert(buffer@ =~= start + (w2 + Seq::<char>::empty()));
        }
        Ok(())
    }

    /// Appends a module table whose closing brace is indented by `off`.
    fn write_module(buffer: &mut String, module: &TypedModuleBuilder, off: &str) -> (r: Result<
        (),
        DefinitionError,
    >)
        ensures
            final(buffer)@ == old(buffer)@ + module_text(*module, off@).0,
            r == outcome(module_text(*module, off@)),
        decreases module, 1int,
    {
        let ghost start = buffer@;
        let ghost o = off@;
        let ghost total = module_text(*module, o);
        proof {
            lemma_module_text(*module, o);
        }
        if module.is_empty() {
            buffer.append("{}");
            return Ok(());
        }
        let mut single = String::from_str(off);
        single.append("  ");
        let ghost s1 = o + "  "@;
        let ghost a1 = module_fields(module.fields@, 0, o, false);
        let ghost a2 = nested_modules(module.nested_modules@, 0, o);
        let ghost a3 = function_entries(module.functions@, 0, s1, None, false);
        let ghost a4 = function_entries(module.methods@, 0, s1, Some("table"@), false);
        let ghost meta = module_meta(*module, o);
        let ghost r5 = then(meta, emit(o + "}"@));
        let ghost r4 = then(a4, r5);
        let ghost r3 = then(a3, r4);
        let ghost r2 = then(a2, r3);
        let ghost r1 = then(a1, r2);
        proof {
            assert(total == prepend("{\n"@, r1));
        }
        buffer.append("{\n");
        let ghost w0 = "{\n"@;
        if let Err(e) = Self::write_module_fields(buffer, &module.fields, off, false) {
            proof {
                assert(buffer@ =~= start + (w0 + a1.0));
            }
            return Err(e);
        }
        let ghost w1 = w0 + a1.0;
        proof {
            lemma_prepend_then(w0, a1, r2);
            assert(buffer@ =~= start + w1);
        }
        if let Err(e) = Self::write_nested_modules(buffer, &module.nested_modules, off) {
            proof {
                assert(buffer@ =~= start + (w1 + a2.0));
            }
            return Err(e);
        }
        let ghost w2 = w1 + a2.0;
        proof {
            lemma_prepend_then(w1, a2, r3);
            assert(buffer@ =~= start + w2);
        }
        if let Err(e) = Self::write_function_entries(buffer, &module.functions, single.as_str(), None, false) {
            proof {
                assert(buffer@ =~= start + (w2 + a3.0));
            }
            return Err(e);
        }
        let ghost w3 = w2 + a3.0;
        proof {
            lemma_prepend_then(w2, a3, r4);
            assert(buffer@ =~= start + w3);
        }
        if let Err(e) = Self::write_function_entries(
            buffer,
            &module.methods,
            single.as_str(),
            Some("table"),
            false,
        ) {
            proof {
                assert(buffer@ =~= start + (w3 + a4.0));
            }
            return Err(e);
        }
        let ghost w4 = w3 + a4.0;
        proof {
            lemma_prepend_then(w3, a4, r5);
            assert(buffer@ =~= start + w4);
        }
        if let Err(e) = Self::write_module_meta(buffer, module, off) {
            proof {
                assert(buffer@ =~= start + (w4 + meta.0));
            }
            return Err(e);
        }
        proof {
            lemma_prepend_then(w4, meta, emit(o + "}"@));
        }
        buffer.append(off);
        buffer.append("}");
        proof {
            assert(buffer@ =~= start + (w4 + meta.0 + (o + "}"@)));
        }
        Ok(())
    }

    /// Appends the meta table of a module, when it has meta entries.
    fn write_module_meta(buffer: &mut String, module: &TypedModuleBuilder, off: &str) -> (r: Result<
        (),
        DefinitionError,
    >)
        ensures
            final(buffer)@ == old(buffer)@ + module_meta(*module, off@).0,
            r == outcome(module_meta(*module, off@)),
        decreases module, 0int,
    {
        let ghost start = buffer@;
        let ghost o = off@;
        let ghost total = module_meta(*module, o);
        proof {
            lemma_module_meta(*module, o);
        }
        if module.is_meta_empty() {
            proof {
                assert(buffer@ =~= start + Seq::<char>::empty());
            }
            return Ok(());
        }
        let mut single = String::from_str(off);
        single.append("  ");
        let mut double = String::from_str(off);
        double.append("    ");
        let ghost s1 = o + "  "@;
        let ghost s2 = o + "    "@;
        let ghost b1 = module_fields(module.meta_fields@, 0, o, true);
        let ghost b2 = function_entries(module.meta_functions@, 0, s2, None, false);
        let ghost b3 = function_entries(module.meta_methods@, 0, s2, Some("table"@), false);
        let ghost mb3 = then(b3, emit(s1 + "},\n"@));
        let ghost mb2 = then(b2, mb3);
        let ghost mb1 = then(b1, mb2);
        let ghost v0 = s1 + "__metatable = {\n"@;
        proof {
            assert(total == prepend(v0, mb1));
        }
        buffer.append(single.as_str());
        buffer.append("__metatable = {\n");
        proof {
            assert(buffer@ =~= start + v0);
        }
        if let Err(e) = Self::write_module_fields(buffer, &module.meta_fields, off, true) {
            proof {
                assert(buffer@ =~= start + (v0 + b1.0));
            }
            return Err(e);
        }
        let ghost v1 = v0 + b1.0;
        proof {
            lemma_prepend_then(v0, b1, mb2);
            assert(buffer@ =~= start + v1);
        }
        if let Err(e) = Self::write_function_entries(
            buffer,
            &module.meta_functions,
            double.as_str(),
            None,
            false,
        ) {
            proof {
                assert(buffer@ =~= start + (v1 + b2.0));
            }
            return Err(e);
        }
        let ghost v2 = v1 + b2.0;
        proof {
            lemma_prepend_then(v1, b2, mb3);
            assert(buffer@ =~= start + v2);
        }
        if let Err(e) = Self::write_function_entries(
            buffer,
            &module.meta_methods,
            double.as_str(),
            Some("table"),
            false,
        ) {
            proof {
                assert(buffer@ =~= start + (v2 + b3.0));
            }
            return Err(e);
        }
        proof {
            lemma_prepend_then(v2, b3, emit(s1 + "},\n"@));
        }
        buffer.append(single.as_str());
        buffer.append("},\n");
        proof {
            assert(buffer@ =~= start + (v2 + b3.0 + (s1 + "},\n"@)));
        }
        Ok(())
    }

    /// Appends the fields of a module (its meta fields when `meta`).
    fn write_module_fields(
        buffer: &mut String,
        fs: &Vec<(String, TypedField)>,
        off: &str,
        meta: bool,
    ) -> (r: Result<(), DefinitionError>)
        ensures
            final(buffer)@ == old(buffer)@ + module_fields(fs@, 0, off@, meta).0,
            r == outcome(module_fields(fs@, 0, off@, meta)),
        decreases fs, 0int,
    {
        let ghost start = buffer@;
        let ghost o = off@;
        let ghost mut w: Seq<char> = Seq::empty();
        let mut i: usize = 0;
        proof {
            assert(start + w =~= start);
            assert(prepend(w, module_fields(fs@, 0, o, meta)) =~= module_fields(fs@, 0, o, meta));
        }
        while i < fs.len()
            invariant
                i <= fs.len(),
                start == old(buffer)@,
                o == off@,
                buffer@ == start + w,
                module_fields(fs@, 0, o, meta) == prepend(w, module_fields(fs@, i as nat, o, meta)),
            decreases fs.len() - i,
        {
            let ghost piece = module_field(fs@[i as int].0@, fs@[i as int].1, o, meta);
            let ghost rest = module_fields(fs@, (i + 1) as nat, o, meta);
            proof {
                lemma_module_fields(fs@, i as nat, o, meta);
            }
            if let Err(e) = Self::write_module_field(buffer, &fs[i].0, &fs[i].1, off, meta) {
                proof {
                    assert(buffer@ =~= start + module_fields(fs@, 0, o, meta).0);
                }
                return Err(e);
            }
            proof {
                lemma_prepend_then(w, piece, rest);
                w = w + piece.0;
                assert(buffer@ =~= start + w);
            }
            i = i + 1;
        }
        proof {
            lemma_module_fields(fs@, i as nat, o, meta);
            assert(w + Seq::<char>::empty() =~= w);
        }
        Ok(())
    }

    /// Appends one field of a module (a meta field when `meta`).
    #[verifier::rlimit(100)]
    #[verifier::spinoff_prover]
    fn write_module_field(buffer: &mut String, name: &String, field: &TypedField, off: &str, meta: bool) -> (r:
        Result<(), DefinitionError>)
        ensures
            final(buffer)@ == old(buffer)@ + module_field(name@, *field, off@, meta).0,
            r == outcome(module_field(name@, *field, off@, meta)),
        decreases field, 0int,
    {
        let ghost start = buffer@;
        let ghost o = off@;
        proof {
            lemma_module_field(name@, *field, o, meta);
        }
        let mut single = String::from_str(off);
        single.append("  ");
        let mut ind = String::from_str(off);
        if meta {
            ind.append("    ");
        } else {
            ind.append("  ");
        }
        let ghost d = doc_block(field.doc, ind@, single@);
        Self::write_doc(buffer, &field.doc, ind.as_str(), single.as_str());
        match &field.ty {
            Type::Module(sub) => {
                buffer.append(ind.as_str());
                buffer.append(name.as_str());
                buffer.append(" = ");
                let ghost t = ind@ + name@ + " = "@;
                let ghost m = module_text(**sub, single@);
                proof {
                    assert(buffer@ =~= start + (d + t));
                }
                if let Err(e) = Self::write_module(buffer, sub, single.as_str()) {
                    proof {
                        assert(buffer@ =~= start + (d + (t + m.0)));
                    }
                    return Err(e);
                }
                buffer.append(",\n");
                proof {
                    assert(buffer@ =~= start + (d + (t + (m.0 + ",\n"@))));
                }
                Ok(())
            },
            other => {
                let sig = match Self::type_signature(other) {
                    Ok(s) => s,
                    Err(e) => {
                        proof {
                            assert(buffer@ =~= start + (d + Seq::<char>::empty()));
                        }
                        return Err(e);
                    },
                };
                buffer.append(ind.as_str());
                buffer.append("--- @type ");
                buffer.append(sig.as_str());
                buffer.append("\n");
                buffer.append(ind.as_str());
                buffer.append(name.as_str());
                buffer.append(" = nil,\n");
                proof {
                    assert(buffer@ =~= start + (d + (ind@ + "--- @type "@ + sig@ + "\n"@ + ind@ + name@
                        + " = nil,\n"@)));
                }
                Ok(())
            },
        }
    }

    /// Appends the nested modules of a module.
    fn write_nested_modules(
        buffer: &mut String,
        ns: &Vec<(String, TypedModuleBuilder)>,
        off: &str,
    ) -> (r: Result<(), DefinitionError>)
        ensures
            final(buffer)@ == old(buffer)@ + nested_modules(ns@, 0, off@).0,
            r == outcome(nested_modules(ns@, 0, off@)),
        decreases ns, 0int,
    {
        let ghost start = buffer@;
        let ghost o = off@;
        let ghost mut w: Seq<char> = Seq::empty();
        let mut i: usize = 0;
        proof {
            assert(start + w =~= start);
            assert(prepend(w, nested_modules(ns@, 0, o)) =~= nested_modules(ns@, 0, o));
        }
        while i < ns.len()
            invariant
                i <= ns.len(),
                start == old(buffer)@,
                o == off@,
                buffer@ == start + w,
                nested_modules(ns@, 0, o) == prepend(w, nested_modules(ns@, i as nat, o)),
            decreases ns.len() - i,
        {
            let ghost piece = nested_module(ns@[i as int].0@, ns@[i as int].1, o);
            let ghost rest = nested_modules(ns@, (i + 1) as nat, o);
            proof {
                lemma_nested_modules(ns@, i as nat, o);
            }
            if let Err(e) = Self::write_nested_module(buffer, &ns[i].0, &ns[i].1, off) {
                proof {
                    assert(buffer@ =~= start + nested_modules(ns@, 0, o).0);
                }
                return Err(e);
            }
            proof {
                lemma_prepend_then(w, piece, rest);
                w = w + piece.0;
                assert(buffer@ =~= start + w);
            }
            i = i + 1;
        }
        proof {
            lemma_nested_modules(ns@, i as nat, o);
            assert(w + Seq::<char>::empty() =~= w);
        }
        Ok(())
    }

    /// Appends one nested module as `name = { ... },`.
    fn write_nested_module(buffer: &mut String, name: &String, nested: &TypedModuleBuilder, off: &str) -> (r:
        Result<(), DefinitionError>)
        ensures
            final(buffer)@ == old(buffer)@ + nested_module(name@, *nested, off@).0,
            r == outcome(nested_module(name@, *nested, off@)),
        decreases nested, 2int,
    {
        let ghost start = buffer@;
        let ghost o = off@;
        proof {
            lemma_nested_module(name@, *nested, o);
        }
        let mut single = String::from_str(off);
        single.append("  ");
        Self::write_doc(buffer, &nested.doc, single.as_str(), single.as_str());
        buffer.append(single.as_str());
        buffer.append(name.as_str());
        buffer.append(" = ");
        let ghost t = doc_block(nested.doc, single@, single@) + single@ + name@ + " = "@;
        let ghost m = module_text(*nested, single@);
        proof {
            assert(buffer@ =~= start + t);
        }
        if let Err(e) = Self::write_module(buffer, nested, single.as_str()) {
            proof {
                assert(buffer@ =~= start + (t + m.0));
            }
            return Err(e);
        }
        buffer.append(",\n");
        proof {
            assert(buffer@ =~= start + (t + (m.0 + ",\n"@)));
        }
        Ok(())
    }

    /// Appends a global value.
    fn write_value(buffer: &mut String, name: &String, doc: &Option<String>, ty: &Type) -> (r: Result<
        (),
        DefinitionError,
    >)
        ensures
            final(buffer)@ == old(buffer)@ + value_text(name@, *doc, *ty).0,
            r == outcome(value_text(name@, *doc, *ty)),
    {
        let ghost start = buffer@;
        let ghost d = doc_block(*doc, Seq::empty(), Seq::empty());
        proof {
            reveal(value_text);
            reveal_strlit("");
            assert(""@ =~= Seq::<char>::empty());
        }
        Self::write_doc(buffer, doc, "", "");
        let sig = match Self::type_signature(ty) {
            Ok(s) => s,
            Err(e) => {
                proof {
                    assert(buffer@ =~= start + (d + Seq::<char>::empty()));
                }
                return Err(e);
            },
        };
        buffer.append("--- @type ");
        buffer.append(sig.as_str());
        buffer.append("\n");
        buffer.append(name.as_str());
        buffer.append(" = nil\n");
        proof {
            assert(buffer@ =~= start + (d + (("--- @type "@ + sig@ + Seq::<char>::empty() + "\n"@) + (
            name@ + " = nil\n"@))));
        }
        Ok(())
    }

    /// Appends an enumeration.
    fn write_enum(buffer: &mut String, doc: &Option<String>, enum_name: &String, types: &Vec<Type>) -> (r:
        Result<(), DefinitionError>)
        ensures
            final(buffer)@ == old(buffer)@ + enum_text(*doc, enum_name@, types@).0,
            r == outcome(enum_text(*doc, enum_name@, types@)),
    {
        let ghost start = buffer@;
        let ghost d = doc_block(*doc, Seq::empty(), Seq::empty());
        proof {
            reveal(enum_text);
            reveal_strlit("");
            assert(""@ =~= Seq::<char>::empty());
        }
        Self::write_doc(buffer, doc, "", "");
        let sigs = match Self::type_signatures(types) {
            Ok(s) => s,
            Err(e) => {
                proof {
                    assert(buffer@ =~= start + (d + Seq::<char>::empty()));
                }
                return Err(e);
            },
        };
        buffer.append("--- @alias ");
        buffer.append(enum_name.as_str());
        buffer.append(" ");
        let joined = join_strings(&sigs, "\n---  | ");
        buffer.append(joined.as_str());
        buffer.append("\n");
        proof {
            assert(buffer@ =~= start + (d + ("--- @alias "@ + enum_name@ + " "@ + joined@ + "\n"@)));
        }
        Ok(())
    }

    /// Appends an alias.
    fn write_alias(buffer: &mut String, name: &String, doc: &Option<String>, ty: &Type) -> (r: Result<
        (),
        DefinitionError,
    >)
        ensures
            final(buffer)@ == old(buffer)@ + alias_text(name@, *doc, *ty).0,
            r == outcome(alias_text(name@, *doc, *ty)),
    {
        let ghost start = buffer@;
        let ghost d = doc_block(*doc, Seq::empty(), Seq::empty());
        proof {
            reveal(alias_text);
            reveal_strlit("");
            assert(""@ =~= Seq::<char>::empty());
        }
        Self::write_doc(buffer, doc, "", "");
        let sig = match Self::type_signature(ty) {
            Ok(s) => s,
            Err(e) => {
                proof {
                    assert(buffer@ =~= start + (d + Seq::<char>::empty()));
                }
                return Err(e);
            },
        };
        buffer.append("--- @alias ");
        buffer.append(name.as_str());
        buffer.append(" ");
        buffer.append(sig.as_str());
        buffer.append("\n");
        proof {
            assert(buffer@ =~= start + (d + ("--- @alias "@ + name@ + " "@ + sig@ + Seq::<char>::empty()
                + "\n"@)));
        }
        Ok(())
    }

    /// Appends a global function.
    fn write_function(
        buffer: &mut String,
        name: &String,
        doc: &Option<String>,
        params: &Vec<Param>,
        results: &Vec<Return>,
    ) -> (r: Result<(), DefinitionError>)
        ensures
            final(buffer)@ == old(buffer)@ + function_text(name@, *doc, params@, results@).0,
            r == outcome(function_text(name@, *doc, params@, results@)),
    {
        let ghost start = buffer@;
        let ghost d = doc_block(*doc, Seq::empty(), Seq::empty());
        proof {
            reveal(function_text);
            reveal_strlit("");
            assert(""@ =~= Seq::<char>::empty());
        }
        Self::write_doc(buffer, doc, "", "");
        let escaped = escape_key(name.as_str());
        let lines = match Self::function_signature(escaped.as_str(), params, results, false) {
            Ok(l) => l,
            Err(e) => {
                proof {
                    assert(buffer@ =~= start + (d + Seq::<char>::empty()));
                }
                return Err(e);
            },
        };
        let joined = join_strings(&lines, "\n");
        buffer.append(joined.as_str());
        buffer.append("\n");
        proof {
            assert("\n"@ + Seq::<char>::empty() =~= "\n"@);
            assert(buffer@ =~= start + (d + (Seq::<char>::empty() + joined@ + Seq::<char>::empty()
                + "\n"@)));
        }
        Ok(())
    }

    /// Appends a global module.
    fn write_module_entry(buffer: &mut String, name: &String, doc: &Option<String>, m: &TypedModuleBuilder) -> (r:
        Result<(), DefinitionError>)
        ensures
            final(buffer)@ == old(buffer)@ + module_entry_text(name@, *doc, *m).0,
            r == outcome(module_entry_text(name@, *doc, *m)),
    {
        let ghost start = buffer@;
        proof {
            reveal(module_entry_text);
            reveal_strlit("");
            assert(""@ =~= Seq::<char>::empty());
        }
        Self::write_doc_pair(buffer, doc, &m.doc);
        buffer.append(name.as_str());
        buffer.append(" = ");
        let ghost t = docs_block(
            seq![opt_string_text(*doc), opt_string_text(m.doc)],
            Seq::empty(),
            Seq::empty(),
        ) + name@ + " = "@;
        let ghost mt = module_text(*m, Seq::empty());
        proof {
            assert(buffer@ =~= start + t);
        }
        if let Err(e) = Self::write_module(buffer, m, "") {
            proof {
                assert(buffer@ =~= start + (t + mt.0));
            }
            return Err(e);
        }
        buffer.append("\n");
        proof {
            assert(buffer@ =~= start + (t + (mt.0 + "\n"@)));
        }
        Ok(())
    }

    /// Appends one top-level entry.
    fn write_entry(buffer: &mut String, entry: &DefinitionEntry) -> (r: Result<(), DefinitionError>)
        ensures
            final(buffer)@ == old(buffer)@ + entry_text(*entry).0,
            r == outcome(entry_text(*entry)),
    {
        match &entry.ty {
            Type::Value(ty) => Self::write_value(buffer, &entry.name, &entry.doc, ty),
            Type::Class(c) => Self::write_class(buffer, entry.name.as_str(), &entry.doc, c),
            Type::Enum(enum_name, types) => Self::write_enum(buffer, &entry.doc, enum_name, types),
            Type::Alias(ty) => Self::write_alias(buffer, &entry.name, &entry.doc, ty),
            Type::Function { params, results } => Self::write_function(
                buffer,
                &entry.name,
                &entry.doc,
                params,
                results,
            ),
            Type::Module(m) => Self::write_module_entry(buffer, &entry.name, &entry.doc, m),
            other => {
                proof {
                    assert(buffer@ =~= old(buffer)@ + Seq::<char>::empty());
                }
                Err(DefinitionError::InvalidRootType(other.kind()))
            },
        }
    }

    /// Renders the whole definition group: the `--- @meta` header, then every entry
    /// followed by an empty line. On failure the text written so far stays in `buffer`.
    pub fn write(&self, buffer: &mut String) -> (r: Result<(), DefinitionError>)
        ensures
            final(buffer)@ == old(buffer)@ + definition_text(self.spec_definition()).0,
            r == outcome(definition_text(self.spec_definition())),
    {
        let ghost start = buffer@;
        let entries = &self.definition.entries;
        buffer.append("--- @meta\n\n");
        let ghost mut w: Seq<char> = "--- @meta\n\n"@;
        let mut i: usize = 0;
        proof {
            assert(buffer@ =~= start + w);
        }
        while i < entries.len()
            invariant
                i <= entries.len(),
                start == old(buffer)@,
                *entries == self.spec_definition().entries,
                buffer@ == start + w,
                definition_text(self.spec_definition()) == prepend(w, entries_text(entries@, i as nat)),
            decreases entries.len() - i,
        {
            let ghost piece = entry_text(entries@[i as int]);
            let ghost rest = entries_text(entries@, (i + 1) as nat);
            if let Err(e) = Self::write_entry(buffer, &entries[i]) {
                proof {
                    assert(buffer@ =~= start + definition_text(self.spec_definition()).0);
                }
                return Err(e);
            }
            buffer.append("\n");
            proof {
                lemma_prepend_then(w, piece, prepend("\n"@, rest));
                lemma_prepend_prepend(w + piece.0, "\n"@, rest);
                w = w + piece.0 + "\n"@;
                assert(buffer@ =~= start + w);
            }
            i = i + 1;
        }
        proof {
            assert(w + Seq::<char>::empty() =~= w);
        }
        Ok(())
    }
}

} // verus!
