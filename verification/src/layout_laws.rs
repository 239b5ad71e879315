//! How a rendered definition file is laid out: its segments, the lines of a class and the
//! shape and indentation of a module table.
use vstd::prelude::*;

use crate::output::{
    alias_text,
    class_has_table,
    class_table,
    class_text,
    doc_block,
    docs_block,
    field_entries,
    function_entries,
    function_entry,
    lemma_module_field,
    lemma_module_fields,
    lemma_module_meta,
    lemma_module_text,
    lemma_nested_module,
    lemma_nested_modules,
    module_field,
    module_fields,
    module_meta,
    nested_module,
    nested_modules,
    prepend,
    definition_text,
    emit,
    entries_text,
    entry_text,
    enum_text,
    field_annotations,
    function_text,
    module_entry_text,
    module_text,
    then,
    value_text,
    Written,
};
use crate::docs::opt_string_text;
use crate::laws::lemma_method_signature_lines;
use crate::signature::{method_sig, type_sig};
use crate::text::join;
use crate::type_file::spec_needs_escape;
use crate::typed::{
    Definition,
    DefinitionEntry,
    Type,
    TypedClassBuilder,
    TypedField,
    TypedFunction,
    TypedModuleBuilder,
};

verus! {

/// `t` is not empty and ends with a newline.
pub open spec fn ends_line(t: Seq<char>) -> bool {
    t.len() > 0 && t.last() == '\n'
}

/// `t` starts with `p`.
pub open spec fn starts_with(t: Seq<char>, p: Seq<char>) -> bool {
    p.len() <= t.len() && t.take(p.len() as int) == p
}

/// The segment of the file written for one entry: its text and an empty line.
pub open spec fn segment(e: DefinitionEntry) -> Seq<char> {
    entry_text(e).0 + "\n"@
}

/// `a` then `b` without failure writes both texts, one after the other.
proof fn lemma_then_ok(a: Written, b: Written)
    requires
        then(a, b).1 is None,
    ensures
        a.1 is None,
        b.1 is None,
        then(a, b).0 == a.0 + b.0,
{
}

/// Text that ends a line still does after more such text.
proof fn lemma_ends_line_concat(a: Seq<char>, b: Seq<char>)
    requires
        ends_line(a) || a.len() == 0,
        ends_line(b) || b.len() == 0,
    ensures
        ends_line(a + b) || (a + b).len() == 0,
        ends_line(b) ==> ends_line(a + b),
        ends_line(a) ==> ends_line(a + b),
{
    if b.len() > 0 {
        assert((a + b).last() == b.last());
    } else {
        assert(a + b =~= a);
    }
}

/// The `--- @field` annotations, when they can all be written, end a line or are empty.
proof fn lemma_field_annotations_lines(fs: Seq<(String, crate::typed::TypedField)>, i: nat)
    ensures
        field_annotations(fs, i).1 is None ==> ends_line(field_annotations(fs, i).0) || field_annotations(
            fs,
            i,
        ).0.len() == 0,
    decreases fs.len() - i,
{
    reveal(field_annotations);
    reveal_strlit("");
    reveal_strlit("\n");
    if i < fs.len() {
        lemma_field_annotations_lines(fs, i + 1);
        let w = field_annotations(fs, i);
        if w.1 is None && !crate::type_file::spec_needs_escape(fs[i as int].0@) {
            let rest = field_annotations(fs, i + 1);
            let head = crate::output::prepend(
                crate::output::doc_block(fs[i as int].1.doc, Seq::empty(), Seq::empty()),
                crate::output::line_with(
                    crate::signature::type_sig(fs[i as int].1.ty),
                    "--- @field "@ + fs[i as int].0@ + " "@,
                    Seq::empty(),
                ),
            );
            lemma_then_ok(head, rest);
            assert(ends_line(head.0));
            lemma_ends_line_concat(head.0, rest.0);
        }
    }
}

/// The local table of a class, when it can be written, ends with `}` and a newline.
proof fn lemma_class_table_ends_line(name: Seq<char>, c: crate::typed::TypedClassBuilder)
    ensures
        class_table(name, c).1 is None ==> ends_line(class_table(name, c).0),
{
    reveal(class_table);
    reveal_strlit("}\n");
    let w = class_table(name, c);
    if w.1 is None {
        let last = emit("}\n"@);
        let m = then(crate::output::class_meta(name, c), last);
        let t3 = then(crate::output::function_entries(c.methods@, 0, "  "@, Some(name), true), m);
        let t2 = then(crate::output::function_entries(c.functions@, 0, "  "@, None, true), t3);
        let t1 = then(crate::output::field_entries(c.fields@, 0), t2);
        let t0 = then(crate::output::field_entries(c.static_fields@, 0), t1);
        lemma_then_ok(crate::output::field_entries(c.static_fields@, 0), t1);
        lemma_then_ok(crate::output::field_entries(c.fields@, 0), t2);
        lemma_then_ok(crate::output::function_entries(c.functions@, 0, "  "@, None, true), t3);
        lemma_then_ok(crate::output::function_entries(c.methods@, 0, "  "@, Some(name), true), m);
        lemma_then_ok(crate::output::class_meta(name, c), last);
        assert(ends_line(last.0));
        assert(ends_line(m.0));
        assert(ends_line(t3.0));
        assert(ends_line(t2.0));
        assert(ends_line(t1.0));
        assert(ends_line(t0.0));
        assert(w.0 == "local _Class_"@ + name + " = {\n"@ + t0.0);
    }
}

/// Every entry that can be written ends its last line with a newline.
pub proof fn lemma_entry_ends_line(e: DefinitionEntry)
    ensures
        entry_text(e).1 is None ==> ends_line(entry_text(e).0),
{
    reveal_strlit("\n");
    reveal_strlit("}\n");
    if entry_text(e).1 is None {
        match e.ty {
            Type::Value(ty) => {
                reveal(value_text);
                reveal_strlit(" = nil\n");
                let last = emit(e.name@ + " = nil\n"@);
                let first = crate::output::line_with(type_sig(*ty), "--- @type "@, Seq::empty());
                lemma_then_ok(first, last);
                assert(ends_line(last.0));
                lemma_ends_line_concat(first.0, last.0);
                assert(ends_line(entry_text(e).0));
            },
            Type::Class(c) => {
                reveal(class_text);
                reveal(class_table);
                let name = e.name@;
                let doc = crate::docs::opt_string_text(e.doc);
                let fa = field_annotations(c.static_fields@, 0);
                let fb = field_annotations(c.fields@, 0);
                let tail: Written = if crate::output::class_has_table(*c) {
                    class_table(name, *c)
                } else {
                    emit(Seq::empty())
                };
                lemma_then_ok(fa, then(fb, tail));
                lemma_then_ok(fb, tail);
                lemma_field_annotations_lines(c.static_fields@, 0);
                lemma_field_annotations_lines(c.fields@, 0);
                if crate::output::class_has_table(*c) {
                    lemma_class_table_ends_line(name, *c);
                }
                let head = crate::output::docs_block(
                    seq![doc, crate::docs::opt_string_text(c.type_doc)],
                    Seq::empty(),
                    Seq::empty(),
                ) + "--- @class "@ + name + "\n"@;
                lemma_ends_line_concat(fb.0, tail.0);
                lemma_ends_line_concat(fa.0, fb.0 + tail.0);
                lemma_ends_line_concat(head, fa.0 + (fb.0 + tail.0));
                assert(entry_text(e).0 == head + (fa.0 + (fb.0 + tail.0)));
                assert(ends_line(entry_text(e).0));
            },
            Type::Enum(_, _) => {
                reveal(enum_text);
                assert(ends_line(entry_text(e).0));
            },
            Type::Alias(_) => {
                reveal(alias_text);
                assert(ends_line(entry_text(e).0));
            },
            Type::Function { .. } => {
                reveal(function_text);
                assert(ends_line(entry_text(e).0));
            },
            Type::Module(m) => {
                reveal(module_entry_text);
                assert(ends_line(entry_text(e).0));
            },
            _ => {},
        }
    }
}

/// The segment of an entry that can be written ends with an empty line.
pub proof fn lemma_segment_ends_blank(e: DefinitionEntry)
    ensures
        entry_text(e).1 is None ==> segment(e).len() >= 2 && segment(e).skip(segment(e).len() - 2)
            == "\n\n"@,
{
    reveal_strlit("\n");
    reveal_strlit("\n\n");
    lemma_entry_ends_line(e);
    if entry_text(e).1 is None {
        assert(segment(e).skip(segment(e).len() - 2) =~= "\n\n"@);
    }
}

proof fn lemma_entries_segments(es: Seq<DefinitionEntry>, i: nat)
    requires
        i <= es.len(),
        forall|k: int| i <= k < es.len() ==> (#[trigger] entry_text(es[k])).1 is None,
    ensures
        entries_text(es, i) == emit(es.skip(i as int).map_values(|e: DefinitionEntry| segment(e)).flatten()),
    decreases es.len() - i,
{
    let m = es.skip(i as int).map_values(|e: DefinitionEntry| segment(e));
    if i < es.len() {
        lemma_entries_segments(es, i + 1);
        assert(m.drop_first() =~= es.skip((i + 1) as int).map_values(|e: DefinitionEntry| segment(e)));
        assert(m.first() == segment(es[i as int]));
        assert(entry_text(es[i as int]).1 is None);
        assert(entries_text(es, i).0 =~= segment(es[i as int]) + entries_text(es, i + 1).0);
    } else {
        assert(m =~= Seq::<Seq<char>>::empty());
    }
}

/// A file whose entries can all be written is the `--- @meta` line and an empty line, then
/// the segment of each entry in order: the entry's text, which depends on that entry alone,
/// and an empty line.
pub proof fn lemma_file_segments(d: Definition)
    ensures
        (forall|k: int| 0 <= k < d.entries@.len() ==> (#[trigger] entry_text(d.entries@[k])).1 is None)
            ==> definition_text(d) == emit(
            "--- @meta\n\n"@ + d.entries@.map_values(|e: DefinitionEntry| segment(e)).flatten(),
        ),
        forall|k: int|
            0 <= k < d.entries@.len() && (#[trigger] entry_text(d.entries@[k])).1 is None ==> segment(
                d.entries@[k],
            ).len() >= 2 && segment(d.entries@[k]).skip(segment(d.entries@[k]).len() - 2) == "\n\n"@,
{
    if forall|k: int| 0 <= k < d.entries@.len() ==> (#[trigger] entry_text(d.entries@[k])).1 is None {
        lemma_entries_segments(d.entries@, 0);
        assert(d.entries@.skip(0) =~= d.entries@);
    }
    assert forall|k: int|
        0 <= k < d.entries@.len() && (#[trigger] entry_text(d.entries@[k])).1 is None implies segment(
        d.entries@[k],
    ).len() >= 2 && segment(d.entries@[k]).skip(segment(d.entries@[k]).len() - 2) == "\n\n"@ by {
        lemma_segment_ends_blank(d.entries@[k]);
    }
}

/// The `--- @field` annotation of a field whose name needs no escaping, after its
/// documentation.
pub open spec fn field_line(f: (String, TypedField)) -> Seq<char> {
    doc_block(f.1.doc, Seq::empty(), Seq::empty()) + "--- @field "@ + f.0@ + " "@ + type_sig(f.1.ty)->Ok_0
        + "\n"@
}

/// The table entry of a field whose name needs escaping, after its documentation.
pub open spec fn field_table_entry(f: (String, TypedField)) -> Seq<char> {
    doc_block(f.1.doc, "  "@, "  "@) + "  --- @type "@ + type_sig(f.1.ty)->Ok_0 + "\n"@ + "  [\""@ + f.0@
        + "\"] = nil,\n"@
}

/// The text of a class: its documentation and `--- @class` line, the `--- @field`
/// annotations of the static fields and then of the other fields, and the local table only
/// when the class has something to hold; the table opens with `local _Class_{name} = {`.
pub proof fn lemma_class_layout(name: Seq<char>, doc: Option<Seq<char>>, c: TypedClassBuilder)
    ensures
        class_text(name, doc, c) == prepend(
            docs_block(seq![doc, opt_string_text(c.type_doc)], Seq::empty(), Seq::empty())
                + "--- @class "@ + name + "\n"@,
            then(
                field_annotations(c.static_fields@, 0),
                then(
                    field_annotations(c.fields@, 0),
                    if class_has_table(c) {
                        class_table(name, c)
                    } else {
                        emit(Seq::empty())
                    },
                ),
            ),
        ),
        starts_with(class_table(name, c).0, "local _Class_"@ + name + " = {\n"@),
{
    reveal(class_text);
    reveal(class_table);
    let p = "local _Class_"@ + name + " = {\n"@;
    assert((p + class_table(name, c).0.skip(p.len() as int)).take(p.len() as int) =~= p);
    assert(class_table(name, c).0 =~= p + class_table(name, c).0.skip(p.len() as int));
}

proof fn lemma_field_annotations_ok(fs: Seq<(String, TypedField)>, i: nat)
    requires
        forall|j: int| i <= j < fs.len() ==> (#[trigger] type_sig(fs[j].1.ty)) is Ok,
    ensures
        field_annotations(fs, i).1 is None,
    decreases fs.len() - i,
{
    reveal(field_annotations);
    if i < fs.len() {
        lemma_field_annotations_ok(fs, i + 1);
        assert(type_sig(fs[i as int].1.ty) is Ok);
    }
}

proof fn lemma_field_entries_ok(fs: Seq<(String, TypedField)>, i: nat)
    requires
        forall|j: int| i <= j < fs.len() ==> (#[trigger] type_sig(fs[j].1.ty)) is Ok,
    ensures
        field_entries(fs, i).1 is None,
    decreases fs.len() - i,
{
    reveal(field_entries);
    if i < fs.len() {
        lemma_field_entries_ok(fs, i + 1);
        assert(type_sig(fs[i as int].1.ty) is Ok);
    }
}

/// A field whose name needs no escaping gets its `--- @field {name} {signature}` line,
/// after its documentation, among the annotations.
pub proof fn lemma_plain_field_line(fs: Seq<(String, TypedField)>, i: nat, k: int)
    requires
        i <= k < fs.len(),
        !spec_needs_escape(fs[k].0@),
        forall|j: int| i <= j < fs.len() ==> (#[trigger] type_sig(fs[j].1.ty)) is Ok,
    ensures
        field_annotations(fs, i).1 is None,
        exists|a: Seq<char>, b: Seq<char>| field_annotations(fs, i).0 == a + field_line(fs[k]) + b,
    decreases k - i,
{
    reveal(field_annotations);
    reveal_strlit("");
    lemma_field_annotations_ok(fs, i);
    lemma_field_annotations_ok(fs, i + 1);
    let rest = field_annotations(fs, i + 1).0;
    if k == i {
        assert(field_annotations(fs, i).0 =~= Seq::<char>::empty() + field_line(fs[k]) + rest);
    } else {
        lemma_plain_field_line(fs, i + 1, k);
        let (a, b) = choose|a: Seq<char>, b: Seq<char>| rest == a + field_line(fs[k]) + b;
        let head = field_annotations(fs, i).0.take(field_annotations(fs, i).0.len() - rest.len());
        assert(field_annotations(fs, i).0 =~= head + rest);
        assert(field_annotations(fs, i).0 =~= (head + a) + field_line(fs[k]) + b);
    }
}

/// A field whose name needs escaping gets its `["{name}"] = nil,` entry, after a
/// `--- @type {signature}` line and its documentation, in the local table.
pub proof fn lemma_escaped_field_entry(fs: Seq<(String, TypedField)>, i: nat, k: int)
    requires
        i <= k < fs.len(),
        spec_needs_escape(fs[k].0@),
        forall|j: int| i <= j < fs.len() ==> (#[trigger] type_sig(fs[j].1.ty)) is Ok,
    ensures
        field_entries(fs, i).1 is None,
        exists|a: Seq<char>, b: Seq<char>| field_entries(fs, i).0 == a + field_table_entry(fs[k]) + b,
    decreases k - i,
{
    reveal(field_entries);
    reveal_strlit("");
    lemma_field_entries_ok(fs, i);
    lemma_field_entries_ok(fs, i + 1);
    let rest = field_entries(fs, i + 1).0;
    if k == i {
        assert(field_entries(fs, i).0 =~= Seq::<char>::empty() + field_table_entry(fs[k]) + rest);
    } else {
        lemma_escaped_field_entry(fs, i + 1, k);
        let (a, b) = choose|a: Seq<char>, b: Seq<char>| rest == a + field_table_entry(fs[k]) + b;
        let head = field_entries(fs, i).0.take(field_entries(fs, i).0.len() - rest.len());
        assert(field_entries(fs, i).0 =~= head + rest);
        assert(field_entries(fs, i).0 =~= (head + a) + field_table_entry(fs[k]) + b);
    }
}

proof fn lemma_annotations_shift(fs: Seq<(String, TypedField)>, k: int, j: nat)
    requires
        0 <= k <= j,
        k < fs.len(),
    ensures
        field_annotations(fs.remove(k), j) == field_annotations(fs, j + 1),
    decreases fs.len() - j,
{
    reveal(field_annotations);
    if j + 1 < fs.len() {
        lemma_annotations_shift(fs, k, j + 1);
        assert(fs.remove(k)[j as int] == fs[(j + 1) as int]);
    }
}

proof fn lemma_entries_shift(fs: Seq<(String, TypedField)>, k: int, j: nat)
    requires
        0 <= k <= j,
        k < fs.len(),
    ensures
        field_entries(fs.remove(k), j) == field_entries(fs, j + 1),
    decreases fs.len() - j,
{
    reveal(field_entries);
    if j + 1 < fs.len() {
        lemma_entries_shift(fs, k, j + 1);
        assert(fs.remove(k)[j as int] == fs[(j + 1) as int]);
    }
}

/// A field whose name needs escaping gets no `--- @field` annotation: the annotations are
/// the same without it.
pub proof fn lemma_escaped_field_not_annotated(fs: Seq<(String, TypedField)>, k: int, i: nat)
    requires
        i <= k < fs.len(),
        spec_needs_escape(fs[k].0@),
    ensures
        field_annotations(fs.remove(k), i) == field_annotations(fs, i),
    decreases k - i,
{
    reveal(field_annotations);
    if i == k {
        lemma_annotations_shift(fs, k, i);
    } else {
        lemma_escaped_field_not_annotated(fs, k, i + 1);
        assert(fs.remove(k)[i as int] == fs[i as int]);
    }
}

/// A field whose name needs no escaping gets no entry in the local table: the table
/// entries are the same without it.
pub proof fn lemma_plain_field_not_in_table(fs: Seq<(String, TypedField)>, k: int, i: nat)
    requires
        i <= k < fs.len(),
        !spec_needs_escape(fs[k].0@),
    ensures
        field_entries(fs.remove(k), i) == field_entries(fs, i),
    decreases k - i,
{
    reveal(field_entries);
    if i == k {
        lemma_entries_shift(fs, k, i);
    } else {
        lemma_plain_field_not_in_table(fs, k, i + 1);
        assert(fs.remove(k)[i as int] == fs[i as int]);
    }
}

/// `a`, when not empty, and `b` both start with `p`, so `a + b` does.
proof fn lemma_starts_with_concat(a: Seq<char>, b: Seq<char>, p: Seq<char>)
    requires
        starts_with(a, p) || a.len() == 0,
        starts_with(b, p),
    ensures
        starts_with(a + b, p),
{
    if a.len() == 0 {
        assert(a + b =~= b);
    } else {
        assert((a + b).take(p.len() as int) =~= a.take(p.len() as int));
    }
}

/// A documentation block starts with its indentation, or is empty.
proof fn lemma_doc_block_indent(doc: Option<String>, ind: Seq<char>, sep: Seq<char>)
    ensures
        starts_with(doc_block(doc, ind, sep), ind) || doc_block(doc, ind, sep).len() == 0,
{
    let t = doc_block(doc, ind, sep);
    if t.len() > 0 {
        let rest = t.skip(ind.len() as int);
        assert(t =~= ind + rest);
        assert(t.take(ind.len() as int) =~= ind);
    }
}

/// `p + t` starts with `p`.
proof fn lemma_starts_with_prefix(p: Seq<char>, t: Seq<char>)
    ensures
        starts_with(p + t, p),
{
    assert((p + t).take(p.len() as int) =~= p);
}

/// A table entry of a function that can be written starts with the entry indentation and
/// ends with a newline.
proof fn lemma_function_entry_shape(
    name: Seq<char>,
    f: TypedFunction,
    indent: Seq<char>,
    class: Option<Seq<char>>,
    escape: bool,
)
    ensures
        function_entry(name, f, indent, class, escape).1 is None ==> starts_with(
            function_entry(name, f, indent, class, escape).0,
            indent,
        ) && ends_line(function_entry(name, f, indent, class, escape).0),
{
    reveal(function_entry);
    reveal_strlit("\n");
    let w = function_entry(name, f, indent, class, escape);
    if w.1 is None {
        let d = doc_block(f.doc, indent, indent);
        let rest = w.0.skip(d.len() as int);
        assert(w.0 =~= d + rest);
        lemma_starts_with_prefix(indent, rest.skip(indent.len() as int));
        assert(rest =~= indent + rest.skip(indent.len() as int));
        lemma_doc_block_indent(f.doc, indent, indent);
        lemma_starts_with_concat(d, rest, indent);
    }
}

/// The table entries of functions that can all be written end with a newline, or are
/// empty when there are none.
proof fn lemma_function_entries_end(
    fs: Seq<(String, TypedFunction)>,
    i: nat,
    indent: Seq<char>,
    class: Option<Seq<char>>,
    escape: bool,
)
    ensures
        function_entries(fs, i, indent, class, escape).1 is None ==> (if i < fs.len() {
            ends_line(function_entries(fs, i, indent, class, escape).0)
        } else {
            function_entries(fs, i, indent, class, escape).0.len() == 0
        }),
    decreases fs.len() - i,
{
    reveal(function_entries);
    reveal_strlit("");
    if i < fs.len() {
        lemma_function_entries_end(fs, i + 1, indent, class, escape);
        let a = function_entry(fs[i as int].0@, fs[i as int].1, indent, class, escape);
        let b = function_entries(fs, i + 1, indent, class, escape);
        if then(a, b).1 is None {
            lemma_then_ok(a, b);
            lemma_function_entry_shape(fs[i as int].0@, fs[i as int].1, indent, class, escape);
            lemma_ends_line_concat(a.0, b.0);
        }
    }
}

/// One field of a module that can be written starts with its indentation (two spaces past
/// the table's, four for a meta field) and ends with a newline.
proof fn lemma_module_field_shape(name: Seq<char>, f: TypedField, off: Seq<char>, meta: bool)
    ensures
        module_field(name, f, off, meta).1 is None ==> starts_with(
            module_field(name, f, off, meta).0,
            if meta {
                off + "    "@
            } else {
                off + "  "@
            },
        ) && ends_line(module_field(name, f, off, meta).0),
{
    lemma_module_field(name, f, off, meta);
    reveal_strlit(",\n");
    reveal_strlit(" = nil,\n");
    reveal_strlit("\n");
    let ind = if meta {
        off + "    "@
    } else {
        off + "  "@
    };
    let w = module_field(name, f, off, meta);
    if w.1 is None {
        let d = doc_block(f.doc, ind, off + "  "@);
        let rest = w.0.skip(d.len() as int);
        assert(w.0 =~= d + rest);
        match f.ty {
            Type::Module(sub) => {
                let inner = then(module_text(*sub, off + "  "@), emit(",\n"@));
                lemma_then_ok(module_text(*sub, off + "  "@), emit(",\n"@));
                assert(rest =~= ind + (name + " = "@ + inner.0));
            },
            other => {
                let sig = type_sig(other)->Ok_0;
                assert(rest =~= ind + ("--- @type "@ + sig + "\n"@ + ind + name + " = nil,\n"@));
            },
        }
        assert(rest =~= ind + rest.skip(ind.len() as int));
        lemma_starts_with_prefix(ind, rest.skip(ind.len() as int));
        lemma_doc_block_indent(f.doc, ind, off + "  "@);
        if d.len() > 0 {
            assert(d.take(ind.len() as int) == ind);
        }
        lemma_starts_with_concat(d, rest, ind);
    }
}

proof fn lemma_module_fields_end(fs: Seq<(String, TypedField)>, i: nat, off: Seq<char>, meta: bool)
    ensures
        module_fields(fs, i, off, meta).1 is None ==> (if i < fs.len() {
            ends_line(module_fields(fs, i, off, meta).0)
        } else {
            module_fields(fs, i, off, meta).0.len() == 0
        }),
    decreases fs.len() - i,
{
    lemma_module_fields(fs, i, off, meta);
    reveal_strlit("");
    if i < fs.len() {
        lemma_module_fields_end(fs, i + 1, off, meta);
        let a = module_field(fs[i as int].0@, fs[i as int].1, off, meta);
        let b = module_fields(fs, i + 1, off, meta);
        if then(a, b).1 is None {
            lemma_then_ok(a, b);
            lemma_module_field_shape(fs[i as int].0@, fs[i as int].1, off, meta);
            lemma_ends_line_concat(a.0, b.0);
        }
    }
}

/// A nested module starts with the entry indentation, two spaces past the table's, and,
/// when it can be written, ends with a newline.
proof fn lemma_nested_module_shape(name: Seq<char>, n: TypedModuleBuilder, off: Seq<char>)
    ensures
        starts_with(nested_module(name, n, off).0, off + "  "@),
        nested_module(name, n, off).1 is None ==> ends_line(nested_module(name, n, off).0),
{
    lemma_nested_module(name, n, off);
    reveal_strlit(",\n");
    let ind = off + "  "@;
    let d = doc_block(n.doc, ind, ind);
    let inner = then(module_text(n, ind), emit(",\n"@));
    let w = nested_module(name, n, off);
    assert(w.0 =~= d + (ind + (name + " = "@ + inner.0)));
    lemma_starts_with_prefix(ind, name + " = "@ + inner.0);
    lemma_doc_block_indent(n.doc, ind, ind);
    lemma_starts_with_concat(d, ind + (name + " = "@ + inner.0), ind);
    if w.1 is None {
        lemma_then_ok(module_text(n, ind), emit(",\n"@));
    }
}

proof fn lemma_nested_modules_end(ns: Seq<(String, TypedModuleBuilder)>, i: nat, off: Seq<char>)
    ensures
        nested_modules(ns, i, off).1 is None ==> (if i < ns.len() {
            ends_line(nested_modules(ns, i, off).0)
        } else {
            nested_modules(ns, i, off).0.len() == 0
        }),
    decreases ns.len() - i,
{
    lemma_nested_modules(ns, i, off);
    reveal_strlit("");
    if i < ns.len() {
        lemma_nested_modules_end(ns, i + 1, off);
        let a = nested_module(ns[i as int].0@, ns[i as int].1, off);
        let b = nested_modules(ns, i + 1, off);
        if then(a, b).1 is None {
            lemma_then_ok(a, b);
            lemma_nested_module_shape(ns[i as int].0@, ns[i as int].1, off);
            lemma_ends_line_concat(a.0, b.0);
        }
    }
}

/// A module writes a `__metatable` block exactly when it has meta fields, meta functions or
/// meta methods. The block opens with `__metatable = {` two spaces past the table's
/// indentation and, when it can be written, closes there with `},`.
pub proof fn lemma_module_meta_block(m: TypedModuleBuilder, off: Seq<char>)
    ensures
        m.spec_is_meta_empty() <==> module_meta(m, off).0.len() == 0,
        m.spec_is_meta_empty() ==> module_meta(m, off) == emit(Seq::empty()),
        !m.spec_is_meta_empty() ==> starts_with(module_meta(m, off).0, off + "  __metatable = {\n"@),
        !m.spec_is_meta_empty() && module_meta(m, off).1 is None ==> {
            let t = module_meta(m, off).0;
            let close = off + "  },\n"@;
            t.len() >= close.len() && t.skip(t.len() - close.len()) == close
        },
{
    lemma_module_meta(m, off);
    reveal_strlit("");
    reveal_strlit("  __metatable = {\n");
    reveal_strlit("  ");
    reveal_strlit("__metatable = {\n");
    reveal_strlit("  },\n");
    reveal_strlit("},\n");
    if !m.spec_is_meta_empty() {
        let head = off + "  "@ + "__metatable = {\n"@;
        assert(head =~= off + "  __metatable = {\n"@);
        let close = emit(off + "  "@ + "},\n"@);
        let ms = function_entries(m.meta_methods@, 0, off + "    "@, Some("table"@), false);
        let fs = function_entries(m.meta_functions@, 0, off + "    "@, None, false);
        let mf = module_fields(m.meta_fields@, 0, off, true);
        let t2 = then(ms, close);
        let t1 = then(fs, t2);
        let t0 = then(mf, t1);
        let t = module_meta(m, off).0;
        assert(t == head + t0.0);
        lemma_starts_with_prefix(head, t0.0);
        if module_meta(m, off).1 is None {
            lemma_then_ok(mf, t1);
            lemma_then_ok(fs, t2);
            lemma_then_ok(ms, close);
            let c = off + "  },\n"@;
            assert(close.0 =~= c);
            assert(t =~= (head + mf.0 + fs.0 + ms.0) + c);
            assert(t.skip(t.len() - c.len()) =~= c);
        }
    }
}

/// A module table is `{}` when the module is empty. Otherwise its first line is `{`, and,
/// when it can be written, its last line is the closing `}` at the table's indentation
/// `off`, with no newline after it. Every entry in between starts two spaces further in
/// (meta entries four; see `lemma_module_entry_indent`).
pub proof fn lemma_module_shape(m: TypedModuleBuilder, off: Seq<char>)
    ensures
        m.spec_is_empty() ==> module_text(m, off) == emit("{}"@),
        !m.spec_is_empty() ==> starts_with(module_text(m, off).0, "{\n"@),
        !m.spec_is_empty() && module_text(m, off).1 is None ==> {
            let t = module_text(m, off).0;
            let last = "\n"@ + off + "}"@;
            t.len() >= last.len() && t.skip(t.len() - last.len()) == last
        },
{
    lemma_module_text(m, off);
    reveal_strlit("");
    reveal_strlit("{\n");
    reveal_strlit("\n");
    reveal_strlit("}");
    if !m.spec_is_empty() {
        let close = emit(off + "}"@);
        let meta = module_meta(m, off);
        let ms = function_entries(m.methods@, 0, off + "  "@, Some("table"@), false);
        let fs = function_entries(m.functions@, 0, off + "  "@, None, false);
        let ns = nested_modules(m.nested_modules@, 0, off);
        let mf = module_fields(m.fields@, 0, off, false);
        let t4 = then(meta, close);
        let t3 = then(ms, t4);
        let t2 = then(fs, t3);
        let t1 = then(ns, t2);
        let t0 = then(mf, t1);
        let t = module_text(m, off).0;
        assert(t == "{\n"@ + t0.0);
        lemma_starts_with_prefix("{\n"@, t0.0);
        if module_text(m, off).1 is None {
            lemma_then_ok(mf, t1);
            lemma_then_ok(ns, t2);
            lemma_then_ok(fs, t3);
            lemma_then_ok(ms, t4);
            lemma_then_ok(meta, close);
            lemma_module_fields_end(m.fields@, 0, off, false);
            lemma_nested_modules_end(m.nested_modules@, 0, off);
            lemma_function_entries_end(m.functions@, 0, off + "  "@, None, false);
            lemma_function_entries_end(m.methods@, 0, off + "  "@, Some("table"@), false);
            lemma_module_meta_block(m, off);
            if !m.spec_is_meta_empty() {
                let c = off + "  },\n"@;
                reveal_strlit("  },\n");
                assert(c.len() >= 1 && c[c.len() - 1] == '\n');
                let k = meta.0.len() - c.len();
                assert(meta.0.skip(k) == c);
                assert(meta.0.skip(k)[c.len() - 1] == meta.0[meta.0.len() - 1]);
                assert(ends_line(meta.0));
            }
            let body = mf.0 + ns.0 + fs.0 + ms.0 + meta.0;
            lemma_ends_line_concat(mf.0, ns.0);
            lemma_ends_line_concat(mf.0 + ns.0, fs.0);
            lemma_ends_line_concat(mf.0 + ns.0 + fs.0, ms.0);
            lemma_ends_line_concat(mf.0 + ns.0 + fs.0 + ms.0, meta.0);
            assert(ends_line(body));
            let whole = "{\n"@ + body;
            assert(t =~= whole + (off + "}"@));
            let last = "\n"@ + off + "}"@;
            assert(t.skip(t.len() - last.len()) =~= last);
        }
    } else {
        assert(m.fields@.len() == 0);
    }
}

/// Text that starts with `p` still does with more after it.
proof fn lemma_starts_with_extend(a: Seq<char>, b: Seq<char>, p: Seq<char>)
    requires
        starts_with(a, p),
    ensures
        starts_with(a + b, p),
{
    assert((a + b).take(p.len() as int) =~= a.take(p.len() as int));
}

/// Lines joined by a separator start with the first line.
proof fn lemma_join_starts(ls: Seq<Seq<char>>, sep: Seq<char>)
    requires
        ls.len() >= 1,
    ensures
        starts_with(join(ls, sep), ls[0]),
    decreases ls.len(),
{
    if ls.len() == 1 {
        assert(join(ls, sep).take(ls[0].len() as int) =~= ls[0]);
    } else {
        lemma_join_starts(ls.drop_last(), sep);
        lemma_starts_with_extend(join(ls.drop_last(), sep), sep + ls.last(), ls[0]);
        assert(join(ls.drop_last(), sep) + sep + ls.last() =~= join(ls.drop_last(), sep) + (sep + ls.last()));
    }
}

/// Every entry of a module table starts two spaces past the table's indentation `off`: its
/// fields, nested modules, functions and methods; the entries of its meta table start four
/// spaces past it.
pub proof fn lemma_module_entry_indent(m: TypedModuleBuilder, off: Seq<char>)
    ensures
        forall|k: int|
            0 <= k < m.fields@.len() && (#[trigger] module_field(m.fields@[k].0@, m.fields@[k].1, off, false)).1
                is None ==> starts_with(
                module_field(m.fields@[k].0@, m.fields@[k].1, off, false).0,
                off + "  "@,
            ),
        forall|k: int|
            0 <= k < m.nested_modules@.len() ==> starts_with(
                (#[trigger] nested_module(m.nested_modules@[k].0@, m.nested_modules@[k].1, off)).0,
                off + "  "@,
            ),
        forall|k: int|
            0 <= k < m.functions@.len() && (#[trigger] function_entry(
                m.functions@[k].0@,
                m.functions@[k].1,
                off + "  "@,
                None,
                false,
            )).1 is None ==> starts_with(
                function_entry(m.functions@[k].0@, m.functions@[k].1, off + "  "@, None, false).0,
                off + "  "@,
            ),
        forall|k: int|
            0 <= k < m.methods@.len() && (#[trigger] function_entry(
                m.methods@[k].0@,
                m.methods@[k].1,
                off + "  "@,
                Some("table"@),
                false,
            )).1 is None ==> starts_with(
                function_entry(m.methods@[k].0@, m.methods@[k].1, off + "  "@, Some("table"@), false).0,
                off + "  "@,
            ),
        forall|k: int|
            0 <= k < m.meta_fields@.len() && (#[trigger] module_field(
                m.meta_fields@[k].0@,
                m.meta_fields@[k].1,
                off,
                true,
            )).1 is None ==> starts_with(
                module_field(m.meta_fields@[k].0@, m.meta_fields@[k].1, off, true).0,
                off + "    "@,
            ),
        forall|k: int|
            0 <= k < m.meta_functions@.len() && (#[trigger] function_entry(
                m.meta_functions@[k].0@,
                m.meta_functions@[k].1,
                off + "    "@,
                None,
                false,
            )).1 is None ==> starts_with(
                function_entry(m.meta_functions@[k].0@, m.meta_functions@[k].1, off + "    "@, None, false).0,
                off + "    "@,
            ),
        forall|k: int|
            0 <= k < m.meta_methods@.len() && (#[trigger] function_entry(
                m.meta_methods@[k].0@,
                m.meta_methods@[k].1,
                off + "    "@,
                Some("table"@),
                false,
            )).1 is None ==> starts_with(
                function_entry(
                    m.meta_methods@[k].0@,
                    m.meta_methods@[k].1,
                    off + "    "@,
                    Some("table"@),
                    false,
                ).0,
                off + "    "@,
            ),
{
    assert forall|k: int| 0 <= k < m.fields@.len() implies (#[trigger] module_field(
        m.fields@[k].0@,
        m.fields@[k].1,
        off,
        false,
    )).1 is None ==> starts_with(module_field(m.fields@[k].0@, m.fields@[k].1, off, false).0, off + "  "@) by {
        lemma_module_field_shape(m.fields@[k].0@, m.fields@[k].1, off, false);
    }
    assert forall|k: int| 0 <= k < m.nested_modules@.len() implies starts_with(
        (#[trigger] nested_module(m.nested_modules@[k].0@, m.nested_modules@[k].1, off)).0,
        off + "  "@,
    ) by {
        lemma_nested_module_shape(m.nested_modules@[k].0@, m.nested_modules@[k].1, off);
    }
    assert forall|k: int| 0 <= k < m.functions@.len() implies (#[trigger] function_entry(
        m.functions@[k].0@,
        m.functions@[k].1,
        off + "  "@,
        None,
        false,
    )).1 is None ==> starts_with(
        function_entry(m.functions@[k].0@, m.functions@[k].1, off + "  "@, None, false).0,
        off + "  "@,
    ) by {
        lemma_function_entry_shape(m.functions@[k].0@, m.functions@[k].1, off + "  "@, None, false);
    }
    assert forall|k: int| 0 <= k < m.methods@.len() implies (#[trigger] function_entry(
        m.methods@[k].0@,
        m.methods@[k].1,
        off + "  "@,
        Some("table"@),
        false,
    )).1 is None ==> starts_with(
        function_entry(m.methods@[k].0@, m.methods@[k].1, off + "  "@, Some("table"@), false).0,
        off + "  "@,
    ) by {
        lemma_function_entry_shape(m.methods@[k].0@, m.methods@[k].1, off + "  "@, Some("table"@), false);
    }
    assert forall|k: int| 0 <= k < m.meta_fields@.len() implies (#[trigger] module_field(
        m.meta_fields@[k].0@,
        m.meta_fields@[k].1,
        off,
        true,
    )).1 is None ==> starts_with(
        module_field(m.meta_fields@[k].0@, m.meta_fields@[k].1, off, true).0,
        off + "    "@,
    ) by {
        lemma_module_field_shape(m.meta_fields@[k].0@, m.meta_fields@[k].1, off, true);
    }
    assert forall|k: int| 0 <= k < m.meta_functions@.len() implies (#[trigger] function_entry(
        m.meta_functions@[k].0@,
        m.meta_functions@[k].1,
        off + "    "@,
        None,
        false,
    )).1 is None ==> starts_with(
        function_entry(m.meta_functions@[k].0@, m.meta_functions@[k].1, off + "    "@, None, false).0,
        off + "    "@,
    ) by {
        lemma_function_entry_shape(m.meta_functions@[k].0@, m.meta_functions@[k].1, off + "    "@, None, false);
    }
    assert forall|k: int| 0 <= k < m.meta_methods@.len() implies (#[trigger] function_entry(
        m.meta_methods@[k].0@,
        m.meta_methods@[k].1,
        off + "    "@,
        Some("table"@),
        false,
    )).1 is None ==> starts_with(
        function_entry(m.meta_methods@[k].0@, m.meta_methods@[k].1, off + "    "@, Some("table"@), false).0,
        off + "    "@,
    ) by {
        lemma_function_entry_shape(
            m.meta_methods@[k].0@,
            m.meta_methods@[k].1,
            off + "    "@,
            Some("table"@),
            false,
        );
    }
}

/// A method of a module is declared with `self` of the class `table`: its table entry is
/// its documentation, then its declaration lines at the entry's indentation, the first of
/// them `--- @param self table`, the last ending with a comma.
pub proof fn lemma_module_method_self(name: Seq<char>, f: TypedFunction, ind: Seq<char>)
    requires
        method_sig(name, "table"@, f.params@, f.results@, true) is Ok,
    ensures
        ({
            let ls = method_sig(name, "table"@, f.params@, f.results@, true)->Ok_0;
            &&& ls[0] == "--- @param self table"@
            &&& function_entry(name, f, ind, Some("table"@), false) == emit(
                doc_block(f.doc, ind, ind) + ind + join(ls, "\n"@ + ind) + ","@ + "\n"@,
            )
            &&& starts_with(join(ls, "\n"@ + ind), "--- @param self table"@)
        }),
{
    reveal(function_entry);
    reveal_strlit("--- @param self ");
    reveal_strlit("table");
    reveal_strlit("--- @param self table");
    lemma_method_signature_lines(name, "table"@, f.params@, f.results@, true);
    let ls = method_sig(name, "table"@, f.params@, f.results@, true)->Ok_0;
    assert(ls[0] =~= "--- @param self table"@);
    lemma_join_starts(ls, "\n"@ + ind);
    let w = function_entry(name, f, ind, Some("table"@), false);
    assert(w.0 =~= doc_block(f.doc, ind, ind) + ind + join(ls, "\n"@ + ind) + ","@ + "\n"@);
}

} // verus!
