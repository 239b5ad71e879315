//! What each kind of top-level entry writes, stated from its parts: the documentation
//! comment, the annotations and the table entries that must appear in its text.
use vstd::prelude::*;

use crate::docs::opt_string_text;
use crate::output::{
    class_meta,
    class_meta_fields,
    class_table,
    class_text,
    doc_block,
    entry_text,
    field_annotations,
    field_entries,
    function_entries,
    function_entry,
    then,
    Written,
};
use crate::docs::docs_lines;
use crate::laws::{doc_piece, lemma_line_count};
use crate::layout_laws::{
    field_line,
    field_table_entry,
    lemma_escaped_field_entry,
    lemma_plain_field_line,
    starts_with,
};
use crate::error::DefinitionError;
use crate::signature::{
    function_sig,
    header,
    method_sig,
    param_names,
    return_sigs,
    table_items,
    tuple_items,
    type_sig,
    type_sigs,
};
use crate::text::{decimal, join};
use crate::type_file::{escaped_key, spec_needs_escape};
use crate::typed::{
    kind_of,
    DefinitionEntry,
    Param,
    Return,
    Type,
    TypedClassBuilder,
    TypedField,
    TypedFunction,
    TypedModuleBuilder,
};

verus! {

/// `t` holds `p` somewhere.
pub open spec fn contains(t: Seq<char>, p: Seq<char>) -> bool {
    exists|a: Seq<char>, b: Seq<char>| t == a + p + b
}

/// The table entry of a function: its documentation, then its declaration lines, each at
/// `indent`, the last one ending with a comma.
pub open spec fn listed(indent: Seq<char>, doc: Option<String>, lines: Seq<Seq<char>>) -> Seq<char> {
    doc_block(doc, indent, indent) + indent + join(lines, "\n"@ + indent) + ","@ + "\n"@
}

/// The entry of a meta field in a class's metatable.
pub open spec fn meta_field_entry(f: (String, TypedField)) -> Seq<char> {
    doc_block(f.1.doc, "    "@, "    "@) + "--- @type "@ + type_sig(f.1.ty)->Ok_0 + "\n"@ + f.0@
        + " = nil,\n"@
}

/// Every field of the class has a type signature and every function and method of it can
/// be declared (a method as one of the class `name`).
pub open spec fn class_writable(name: Seq<char>, c: TypedClassBuilder) -> bool {
    &&& forall|j: int| 0 <= j < c.static_fields@.len() ==> (#[trigger] type_sig(c.static_fields@[j].1.ty)) is Ok
    &&& forall|j: int| 0 <= j < c.fields@.len() ==> (#[trigger] type_sig(c.fields@[j].1.ty)) is Ok
    &&& forall|j: int| 0 <= j < c.meta_fields@.len() ==> (#[trigger] type_sig(c.meta_fields@[j].1.ty)) is Ok
    &&& forall|j: int|
        0 <= j < c.functions@.len() ==> (#[trigger] function_sig(
            escaped_key(c.functions@[j].0@),
            c.functions@[j].1.params@,
            c.functions@[j].1.results@,
            true,
        )) is Ok
    &&& forall|j: int|
        0 <= j < c.meta_functions@.len() ==> (#[trigger] function_sig(
            escaped_key(c.meta_functions@[j].0@),
            c.meta_functions@[j].1.params@,
            c.meta_functions@[j].1.results@,
            true,
        )) is Ok
    &&& forall|j: int|
        0 <= j < c.methods@.len() ==> (#[trigger] method_sig(
            escaped_key(c.methods@[j].0@),
            name,
            c.methods@[j].1.params@,
            c.methods@[j].1.results@,
            true,
        )) is Ok
    &&& forall|j: int|
        0 <= j < c.meta_methods@.len() ==> (#[trigger] method_sig(
            escaped_key(c.meta_methods@[j].0@),
            name,
            c.meta_methods@[j].1.params@,
            c.meta_methods@[j].1.results@,
            true,
        )) is Ok
}

proof fn lemma_contains_whole(p: Seq<char>)
    ensures
        contains(p, p),
{
    assert(p =~= Seq::<char>::empty() + p + Seq::<char>::empty());
}

proof fn lemma_contains_trans(t: Seq<char>, x: Seq<char>, p: Seq<char>)
    requires
        contains(t, x),
        contains(x, p),
    ensures
        contains(t, p),
{
    let (a, b) = choose|a: Seq<char>, b: Seq<char>| t == a + x + b;
    let (c, d) = choose|c: Seq<char>, d: Seq<char>| x == c + p + d;
    assert(t =~= (a + c) + p + (d + b));
}

proof fn lemma_contains_parts(a: Seq<char>, b: Seq<char>)
    ensures
        contains(a + b, a),
        contains(a + b, b),
{
    assert(a + b =~= Seq::<char>::empty() + a + b);
    assert(a + b =~= a + b + Seq::<char>::empty());
}

/// A step that writes `a` and then `b` without failure holds the text of both.
proof fn lemma_then_parts(a: Written, b: Written)
    requires
        a.1 is None,
        b.1 is None,
    ensures
        then(a, b).1 is None,
        then(a, b).0 == a.0 + b.0,
        contains(then(a, b).0, a.0),
        contains(then(a, b).0, b.0),
{
    lemma_contains_parts(a.0, b.0);
}

proof fn lemma_function_entries_listed(
    fs: Seq<(String, TypedFunction)>,
    i: nat,
    indent: Seq<char>,
    class: Option<Seq<char>>,
)
    requires
        i <= fs.len(),
        forall|j: int|
            i <= j < fs.len() ==> (#[trigger] crate::output::declaration(
                escaped_key(fs[j].0@),
                fs[j].1,
                class,
            )) is Ok,
    ensures
        function_entries(fs, i, indent, class, true).1 is None,
        forall|k: int|
            i <= k < fs.len() ==> contains(
                function_entries(fs, i, indent, class, true).0,
                #[trigger] listed(
                    indent,
                    fs[k].1.doc,
                    crate::output::declaration(escaped_key(fs[k].0@), fs[k].1, class)->Ok_0,
                ),
            ),
    decreases fs.len() - i,
{
    reveal(function_entries);
    reveal(function_entry);
    if i < fs.len() {
        lemma_function_entries_listed(fs, i + 1, indent, class);
        let e = function_entry(fs[i as int].0@, fs[i as int].1, indent, class, true);
        let rest = function_entries(fs, i + 1, indent, class, true);
        assert(crate::output::declaration(escaped_key(fs[i as int].0@), fs[i as int].1, class) is Ok);
        let here = listed(
            indent,
            fs[i as int].1.doc,
            crate::output::declaration(escaped_key(fs[i as int].0@), fs[i as int].1, class)->Ok_0,
        );
        assert(e.0 =~= here);
        assert(e.1 is None);
        lemma_then_parts(e, rest);
        assert forall|k: int| i <= k < fs.len() implies contains(
            function_entries(fs, i, indent, class, true).0,
            #[trigger] listed(
                indent,
                fs[k].1.doc,
                crate::output::declaration(escaped_key(fs[k].0@), fs[k].1, class)->Ok_0,
            ),
        ) by {
            if k == i {
                lemma_contains_whole(here);
                lemma_contains_trans(function_entries(fs, i, indent, class, true).0, e.0, here);
            } else {
                lemma_contains_trans(
                    function_entries(fs, i, indent, class, true).0,
                    rest.0,
                    listed(
                        indent,
                        fs[k].1.doc,
                        crate::output::declaration(escaped_key(fs[k].0@), fs[k].1, class)->Ok_0,
                    ),
                );
            }
        }
    }
}

proof fn lemma_meta_fields_listed(fs: Seq<(String, TypedField)>, i: nat)
    requires
        i <= fs.len(),
        forall|j: int| i <= j < fs.len() ==> (#[trigger] type_sig(fs[j].1.ty)) is Ok,
    ensures
        class_meta_fields(fs, i).1 is None,
        forall|k: int| i <= k < fs.len() ==> contains(class_meta_fields(fs, i).0, #[trigger] meta_field_entry(fs[k])),
    decreases fs.len() - i,
{
    reveal(class_meta_fields);
    if i < fs.len() {
        lemma_meta_fields_listed(fs, i + 1);
        assert(type_sig(fs[i as int].1.ty) is Ok);
        let rest = class_meta_fields(fs, i + 1);
        let here = meta_field_entry(fs[i as int]);
        let t = class_meta_fields(fs, i).0;
        assert(t =~= here + rest.0);
        lemma_contains_parts(here, rest.0);
        assert forall|k: int| i <= k < fs.len() implies contains(t, #[trigger] meta_field_entry(fs[k])) by {
            if k == i {
                lemma_contains_whole(here);
                lemma_contains_trans(t, here, here);
            } else {
                lemma_contains_trans(t, rest.0, meta_field_entry(fs[k]));
            }
        }
    }
}

proof fn lemma_field_annotations_all(fs: Seq<(String, TypedField)>)
    requires
        forall|j: int| 0 <= j < fs.len() ==> (#[trigger] type_sig(fs[j].1.ty)) is Ok,
    ensures
        field_annotations(fs, 0).1 is None,
        forall|k: int|
            0 <= k < fs.len() && !spec_needs_escape(fs[k].0@) ==> contains(
                field_annotations(fs, 0).0,
                #[trigger] field_line(fs[k]),
            ),
{
    reveal(field_annotations);
    if fs.len() > 0 {
        lemma_plain_or_not(fs, 0);
    }
    assert forall|k: int| 0 <= k < fs.len() && !spec_needs_escape(fs[k].0@) implies contains(
        field_annotations(fs, 0).0,
        #[trigger] field_line(fs[k]),
    ) by {
        lemma_plain_field_line(fs, 0, k);
    }
}

proof fn lemma_plain_or_not(fs: Seq<(String, TypedField)>, i: nat)
    requires
        i <= fs.len(),
        forall|j: int| 0 <= j < fs.len() ==> (#[trigger] type_sig(fs[j].1.ty)) is Ok,
    ensures
        field_annotations(fs, i).1 is None,
        field_entries(fs, i).1 is None,
    decreases fs.len() - i,
{
    reveal(field_annotations);
    reveal(field_entries);
    if i < fs.len() {
        lemma_plain_or_not(fs, i + 1);
        assert(type_sig(fs[i as int].1.ty) is Ok);
    }
}

proof fn lemma_field_entries_all(fs: Seq<(String, TypedField)>)
    requires
        forall|j: int| 0 <= j < fs.len() ==> (#[trigger] type_sig(fs[j].1.ty)) is Ok,
    ensures
        field_entries(fs, 0).1 is None,
        forall|k: int|
            0 <= k < fs.len() && spec_needs_escape(fs[k].0@) ==> contains(
                field_entries(fs, 0).0,
                #[trigger] field_table_entry(fs[k]),
            ),
{
    lemma_plain_or_not(fs, 0);
    assert forall|k: int| 0 <= k < fs.len() && spec_needs_escape(fs[k].0@) implies contains(
        field_entries(fs, 0).0,
        #[trigger] field_table_entry(fs[k]),
    ) by {
        lemma_escaped_field_entry(fs, 0, k);
    }
}

/// The documentation comment written for the given comment lines: the lines joined with
/// newlines and a final newline, or nothing when there is no line.
pub open spec fn comment_text(ls: Seq<Seq<char>>) -> Seq<char> {
    if ls.len() > 0 {
        join(ls, "\n"@) + "\n"@
    } else {
        Seq::empty()
    }
}

/// The comment block of an entry's documentation and a second documentation text is the
/// comment lines of the first, then of the second.
pub proof fn lemma_doc_pair(a: Option<String>, b: Option<String>)
    ensures
        crate::output::docs_block(seq![opt_string_text(a), opt_string_text(b)], Seq::empty(), Seq::empty())
            == comment_text(doc_piece(opt_string_text(a)) + doc_piece(opt_string_text(b))),
        doc_block(a, Seq::empty(), Seq::empty()) == comment_text(doc_piece(opt_string_text(a))),
{
    reveal_strlit("\n");
    let x = opt_string_text(a);
    let y = opt_string_text(b);
    let two = seq![x, y];
    assert(two.drop_last() =~= seq![x]);
    assert(seq![x].drop_last() =~= Seq::<Option<Seq<char>>>::empty());
    assert(seq![x].last() == x);
    assert(two.last() == y);
    assert(docs_lines(Seq::<Option<Seq<char>>>::empty()) =~= Seq::<Seq<char>>::empty());
    assert(docs_lines(seq![x]) =~= Seq::<Seq<char>>::empty() + doc_piece(x));
    assert(docs_lines(seq![x]) =~= doc_piece(x));
    assert(docs_lines(two) =~= doc_piece(x) + doc_piece(y));
    if let Some(s) = x {
        lemma_line_count(s);
        assert(two[0] is Some);
        assert(seq![x][0] is Some);
    }
    if let Some(s) = y {
        lemma_line_count(s);
        assert(two[1] is Some);
    }
    if x is None && y is None {
        assert forall|i: int| 0 <= i < two.len() implies #[trigger] two[i] is None by {}
    }
    if x is None {
        assert forall|i: int| 0 <= i < seq![x].len() implies #[trigger] seq![x][i] is None by {}
    }
}

/// A class whose fields all have type signatures and whose functions and methods can all be
/// declared is written in full: its documentation comment (the entry's, then the class's)
/// and `--- @class {name}` line first; a `--- @field` line for every field whose name needs
/// no escaping; and, in the local table `local _Class_{name} = {`, an entry for every field
/// whose name needs escaping, every function and every method (declared with `self` of the
/// class), and, in its `__metatable` block, every meta field, meta function and meta method.
#[verifier::rlimit(100)]
#[verifier::spinoff_prover]
pub proof fn lemma_class_entry(name: String, doc: Option<String>, c: TypedClassBuilder)
    requires
        class_writable(name@, c),
    ensures
        ({
            let e = DefinitionEntry { name, ty: Type::Class(Box::new(c)), doc };
            let t = entry_text(e).0;
            &&& entry_text(e).1 is None
            &&& starts_with(
                t,
                comment_text(doc_piece(opt_string_text(doc)) + doc_piece(opt_string_text(c.type_doc)))
                    + "--- @class "@ + name@ + "\n"@,
            )
            &&& forall|k: int|
                0 <= k < c.static_fields@.len() && !spec_needs_escape(c.static_fields@[k].0@) ==> contains(
                    t,
                    #[trigger] field_line(c.static_fields@[k]),
                )
            &&& forall|k: int|
                0 <= k < c.fields@.len() && !spec_needs_escape(c.fields@[k].0@) ==> contains(
                    t,
                    #[trigger] field_line(c.fields@[k]),
                )
            &&& forall|k: int|
                0 <= k < c.static_fields@.len() && spec_needs_escape(c.static_fields@[k].0@) ==> contains(
                    t,
                    #[trigger] field_table_entry(c.static_fields@[k]),
                )
            &&& forall|k: int|
                0 <= k < c.fields@.len() && spec_needs_escape(c.fields@[k].0@) ==> contains(
                    t,
                    #[trigger] field_table_entry(c.fields@[k]),
                )
            &&& forall|k: int|
                0 <= k < c.functions@.len() ==> contains(
                    t,
                    #[trigger] listed(
                        "  "@,
                        c.functions@[k].1.doc,
                        function_sig(
                            escaped_key(c.functions@[k].0@),
                            c.functions@[k].1.params@,
                            c.functions@[k].1.results@,
                            true,
                        )->Ok_0,
                    ),
                )
            &&& forall|k: int|
                0 <= k < c.methods@.len() ==> contains(
                    t,
                    #[trigger] listed(
                        "  "@,
                        c.methods@[k].1.doc,
                        method_sig(
                            escaped_key(c.methods@[k].0@),
                            name@,
                            c.methods@[k].1.params@,
                            c.methods@[k].1.results@,
                            true,
                        )->Ok_0,
                    ),
                )
            &&& forall|k: int|
                0 <= k < c.meta_fields@.len() ==> contains(t, #[trigger] meta_field_entry(c.meta_fields@[k]))
            &&& forall|k: int|
                0 <= k < c.meta_functions@.len() ==> contains(
                    t,
                    #[trigger] listed(
                        "    "@,
                        c.meta_functions@[k].1.doc,
                        function_sig(
                            escaped_key(c.meta_functions@[k].0@),
                            c.meta_functions@[k].1.params@,
                            c.meta_functions@[k].1.results@,
                            true,
                        )->Ok_0,
                    ),
                )
            &&& forall|k: int|
                0 <= k < c.meta_methods@.len() ==> contains(
                    t,
                    #[trigger] listed(
                        "    "@,
                        c.meta_methods@[k].1.doc,
                        method_sig(
                            escaped_key(c.meta_methods@[k].0@),
                            name@,
                            c.meta_methods@[k].1.params@,
                            c.meta_methods@[k].1.results@,
                            true,
                        )->Ok_0,
                    ),
                )
            &&& (c.functions@.len() > 0 || c.methods@.len() > 0 || !c.spec_is_meta_empty()) ==> contains(
                t,
                "local _Class_"@ + name@ + " = {\n"@,
            )
            &&& !c.spec_is_meta_empty() ==> contains(t, "  __metatable = {\n"@)
        }),
{
    reveal(class_text);
    reveal(class_table);
    reveal(class_meta);
    let n = name@;
    let e = DefinitionEntry { name, ty: Type::Class(Box::new(c)), doc };
    let t = entry_text(e).0;
    assert(entry_text(e) == class_text(n, opt_string_text(doc), c));
    // The parts.
    lemma_field_annotations_all(c.static_fields@);
    lemma_field_annotations_all(c.fields@);
    lemma_field_entries_all(c.static_fields@);
    lemma_field_entries_all(c.fields@);
    lemma_meta_fields_listed(c.meta_fields@, 0);
    assert forall|j: int| 0 <= j < c.functions@.len() implies (#[trigger] crate::output::declaration(
        escaped_key(c.functions@[j].0@),
        c.functions@[j].1,
        None,
    )) is Ok by {
        assert(function_sig(
            escaped_key(c.functions@[j].0@),
            c.functions@[j].1.params@,
            c.functions@[j].1.results@,
            true,
        ) is Ok);
    }
    assert forall|j: int| 0 <= j < c.meta_functions@.len() implies (#[trigger] crate::output::declaration(
        escaped_key(c.meta_functions@[j].0@),
        c.meta_functions@[j].1,
        None,
    )) is Ok by {
        assert(function_sig(
            escaped_key(c.meta_functions@[j].0@),
            c.meta_functions@[j].1.params@,
            c.meta_functions@[j].1.results@,
            true,
        ) is Ok);
    }
    assert forall|j: int| 0 <= j < c.methods@.len() implies (#[trigger] crate::output::declaration(
        escaped_key(c.methods@[j].0@),
        c.methods@[j].1,
        Some(n),
    )) is Ok by {
        assert(method_sig(
            escaped_key(c.methods@[j].0@),
            n,
            c.methods@[j].1.params@,
            c.methods@[j].1.results@,
            true,
        ) is Ok);
    }
    assert forall|j: int| 0 <= j < c.meta_methods@.len() implies (#[trigger] crate::output::declaration(
        escaped_key(c.meta_methods@[j].0@),
        c.meta_methods@[j].1,
        Some(n),
    )) is Ok by {
        assert(method_sig(
            escaped_key(c.meta_methods@[j].0@),
            n,
            c.meta_methods@[j].1.params@,
            c.meta_methods@[j].1.results@,
            true,
        ) is Ok);
    }
    lemma_function_entries_listed(c.functions@, 0, "  "@, None);
    lemma_function_entries_listed(c.methods@, 0, "  "@, Some(n));
    lemma_function_entries_listed(c.meta_functions@, 0, "    "@, None);
    lemma_function_entries_listed(c.meta_methods@, 0, "    "@, Some(n));
    let fa_s = field_annotations(c.static_fields@, 0);
    let fa_f = field_annotations(c.fields@, 0);
    let fe_s = field_entries(c.static_fields@, 0);
    let fe_f = field_entries(c.fields@, 0);
    let fns = function_entries(c.functions@, 0, "  "@, None, true);
    let mts = function_entries(c.methods@, 0, "  "@, Some(n), true);
    let cmf = class_meta_fields(c.meta_fields@, 0);
    let mfn = function_entries(c.meta_functions@, 0, "    "@, None, true);
    let mmt = function_entries(c.meta_methods@, 0, "    "@, Some(n), true);
    // The metatable.
    let m3 = then(mmt, crate::output::emit("  }\n"@));
    lemma_then_parts(mmt, crate::output::emit("  }\n"@));
    let m2 = then(mfn, m3);
    lemma_then_parts(mfn, m3);
    let m1 = then(cmf, m2);
    lemma_then_parts(cmf, m2);
    let meta = class_meta(n, c);
    let mhead = "  __metatable = {\n"@;
    if !c.spec_is_meta_empty() {
        assert(meta.0 == mhead + m1.0);
        lemma_contains_parts(mhead, m1.0);
        lemma_contains_trans(meta.0, m1.0, m2.0);
        lemma_contains_trans(meta.0, m2.0, m3.0);
        lemma_contains_trans(meta.0, m1.0, cmf.0);
        lemma_contains_trans(meta.0, m2.0, mfn.0);
        lemma_contains_trans(meta.0, m3.0, mmt.0);
    }
    assert(meta.1 is None);
    // The local table.
    let t5 = then(meta, crate::output::emit("}\n"@));
    lemma_then_parts(meta, crate::output::emit("}\n"@));
    let t4 = then(mts, t5);
    lemma_then_parts(mts, t5);
    let t3 = then(fns, t4);
    lemma_then_parts(fns, t4);
    let t2 = then(fe_f, t3);
    lemma_then_parts(fe_f, t3);
    let t1 = then(fe_s, t2);
    lemma_then_parts(fe_s, t2);
    let table = class_table(n, c);
    let thead = "local _Class_"@ + n + " = {\n"@;
    assert(table.0 == thead + t1.0);
    lemma_contains_parts(thead, t1.0);
    lemma_contains_trans(table.0, t1.0, t2.0);
    lemma_contains_trans(table.0, t2.0, t3.0);
    lemma_contains_trans(table.0, t3.0, t4.0);
    lemma_contains_trans(table.0, t4.0, t5.0);
    lemma_contains_trans(table.0, t1.0, fe_s.0);
    lemma_contains_trans(table.0, t2.0, fe_f.0);
    lemma_contains_trans(table.0, t3.0, fns.0);
    lemma_contains_trans(table.0, t4.0, mts.0);
    lemma_contains_trans(table.0, t5.0, meta.0);
    // The whole class.
    let tail: Written = if crate::output::class_has_table(c) {
        table
    } else {
        crate::output::emit(Seq::empty())
    };
    let w2 = then(fa_f, tail);
    lemma_then_parts(fa_f, tail);
    let w1 = then(fa_s, w2);
    lemma_then_parts(fa_s, w2);
    let head = crate::output::docs_block(
        seq![opt_string_text(doc), opt_string_text(c.type_doc)],
        Seq::empty(),
        Seq::empty(),
    ) + "--- @class "@ + n + "\n"@;
    assert(t == head + w1.0);
    lemma_doc_pair(doc, c.type_doc);
    assert(t.take(head.len() as int) =~= head);
    lemma_contains_parts(head, w1.0);
    lemma_contains_trans(t, w1.0, w2.0);
    lemma_contains_trans(t, w1.0, fa_s.0);
    lemma_contains_trans(t, w2.0, fa_f.0);
    lemma_contains_trans(t, w2.0, tail.0);
    let has = crate::output::class_has_table(c);
    if has {
        lemma_contains_trans(t, table.0, t1.0);
        lemma_contains_trans(t, table.0, fe_s.0);
        lemma_contains_trans(t, table.0, fe_f.0);
        lemma_contains_trans(t, table.0, fns.0);
        lemma_contains_trans(t, table.0, mts.0);
        lemma_contains_trans(t, table.0, meta.0);
        lemma_contains_parts(thead, t1.0);
        lemma_contains_trans(t, table.0, thead);
        if !c.spec_is_meta_empty() {
            lemma_contains_trans(t, meta.0, cmf.0);
            lemma_contains_trans(t, meta.0, mfn.0);
            lemma_contains_trans(t, meta.0, mmt.0);
            lemma_contains_parts(mhead, m1.0);
            lemma_contains_trans(t, meta.0, mhead);
        }
    }
    assert forall|k: int|
        0 <= k < c.static_fields@.len() && spec_needs_escape(c.static_fields@[k].0@) implies contains(
        t,
        #[trigger] field_table_entry(c.static_fields@[k]),
    ) by {
        assert(crate::output::has_escaped_field(c.static_fields@));
        lemma_contains_trans(t, fe_s.0, field_table_entry(c.static_fields@[k]));
    }
    assert forall|k: int|
        0 <= k < c.fields@.len() && spec_needs_escape(c.fields@[k].0@) implies contains(
        t,
        #[trigger] field_table_entry(c.fields@[k]),
    ) by {
        assert(crate::output::has_escaped_field(c.fields@));
        lemma_contains_trans(t, fe_f.0, field_table_entry(c.fields@[k]));
    }
    assert forall|k: int|
        0 <= k < c.static_fields@.len() && !spec_needs_escape(c.static_fields@[k].0@) implies contains(
        t,
        #[trigger] field_line(c.static_fields@[k]),
    ) by {
        lemma_contains_trans(t, fa_s.0, field_line(c.static_fields@[k]));
    }
    assert forall|k: int|
        0 <= k < c.fields@.len() && !spec_needs_escape(c.fields@[k].0@) implies contains(
        t,
        #[trigger] field_line(c.fields@[k]),
    ) by {
        lemma_contains_trans(t, fa_f.0, field_line(c.fields@[k]));
    }
    assert forall|k: int| 0 <= k < c.functions@.len() implies contains(
        t,
        #[trigger] listed(
            "  "@,
            c.functions@[k].1.doc,
            function_sig(
                escaped_key(c.functions@[k].0@),
                c.functions@[k].1.params@,
                c.functions@[k].1.results@,
                true,
            )->Ok_0,
        ),
    ) by {
        let p = listed(
            "  "@,
            c.functions@[k].1.doc,
            crate::output::declaration(escaped_key(c.functions@[k].0@), c.functions@[k].1, None)->Ok_0,
        );
        assert(contains(fns.0, p));
        lemma_contains_trans(t, fns.0, p);
    }
    assert forall|k: int| 0 <= k < c.methods@.len() implies contains(
        t,
        #[trigger] listed(
            "  "@,
            c.methods@[k].1.doc,
            method_sig(
                escaped_key(c.methods@[k].0@),
                n,
                c.methods@[k].1.params@,
                c.methods@[k].1.results@,
                true,
            )->Ok_0,
        ),
    ) by {
        let p = listed(
            "  "@,
            c.methods@[k].1.doc,
            crate::output::declaration(escaped_key(c.methods@[k].0@), c.methods@[k].1, Some(n))->Ok_0,
        );
        assert(contains(mts.0, p));
        lemma_contains_trans(t, mts.0, p);
    }
    assert forall|k: int| 0 <= k < c.meta_fields@.len() implies contains(
        t,
        #[trigger] meta_field_entry(c.meta_fields@[k]),
    ) by {
        lemma_contains_trans(t, cmf.0, meta_field_entry(c.meta_fields@[k]));
    }
    assert forall|k: int| 0 <= k < c.meta_functions@.len() implies contains(
        t,
        #[trigger] listed(
            "    "@,
            c.meta_functions@[k].1.doc,
            function_sig(
                escaped_key(c.meta_functions@[k].0@),
                c.meta_functions@[k].1.params@,
                c.meta_functions@[k].1.results@,
                true,
            )->Ok_0,
        ),
    ) by {
        let p = listed(
            "    "@,
            c.meta_functions@[k].1.doc,
            crate::output::declaration(
                escaped_key(c.meta_functions@[k].0@),
                c.meta_functions@[k].1,
                None,
            )->Ok_0,
        );
        assert(contains(mfn.0, p));
        lemma_contains_trans(t, mfn.0, p);
    }
    assert forall|k: int| 0 <= k < c.meta_methods@.len() implies contains(
        t,
        #[trigger] listed(
            "    "@,
            c.meta_methods@[k].1.doc,
            method_sig(
                escaped_key(c.meta_methods@[k].0@),
                n,
                c.meta_methods@[k].1.params@,
                c.meta_methods@[k].1.results@,
                true,
            )->Ok_0,
        ),
    ) by {
        let p = listed(
            "    "@,
            c.meta_methods@[k].1.doc,
            crate::output::declaration(
                escaped_key(c.meta_methods@[k].0@),
                c.meta_methods@[k].1,
                Some(n),
            )->Ok_0,
        );
        assert(contains(mmt.0, p));
        lemma_contains_trans(t, mmt.0, p);
    }
}

/// The signatures of `ts[i..]`, in order, once each is known.
pub open spec fn known_sigs(ts: Seq<Type>, i: int) -> Seq<Seq<char>> {
    Seq::new((ts.len() - i) as nat, |k: int| type_sig(ts[i + k])->Ok_0)
}

/// The signatures of the returned types `rs[i..]`, in order, once each is known.
pub open spec fn known_result_sigs(rs: Seq<Return>, i: int) -> Seq<Seq<char>> {
    Seq::new((rs.len() - i) as nat, |k: int| type_sig(rs[i + k].ty)->Ok_0)
}

proof fn lemma_type_sigs_known(ts: Seq<Type>, i: nat)
    requires
        i <= ts.len(),
        forall|k: int| i <= k < ts.len() ==> (#[trigger] type_sig(ts[k])) is Ok,
    ensures
        type_sigs(ts, i) == Ok::<Seq<Seq<char>>, DefinitionError>(known_sigs(ts, i as int)),
    decreases ts.len() - i,
{
    if i < ts.len() {
        lemma_type_sigs_known(ts, i + 1);
        assert(type_sig(ts[i as int]) is Ok);
        assert(seq![type_sig(ts[i as int])->Ok_0] + known_sigs(ts, (i + 1) as int) =~= known_sigs(ts, i as int));
    } else {
        assert(known_sigs(ts, i as int) =~= Seq::<Seq<char>>::empty());
    }
}

proof fn lemma_return_sigs_known(rs: Seq<Return>, i: nat)
    requires
        i <= rs.len(),
        forall|k: int| i <= k < rs.len() ==> (#[trigger] type_sig(rs[k].ty)) is Ok,
    ensures
        return_sigs(rs, i) == Ok::<Seq<Seq<char>>, DefinitionError>(known_result_sigs(rs, i as int)),
    decreases rs.len() - i,
{
    if i < rs.len() {
        lemma_return_sigs_known(rs, i + 1);
        assert(type_sig(rs[i as int].ty) is Ok);
        assert(seq![type_sig(rs[i as int].ty)->Ok_0] + known_result_sigs(rs, (i + 1) as int) =~= known_result_sigs(
            rs,
            i as int,
        ));
    } else {
        assert(known_result_sigs(rs, i as int) =~= Seq::<Seq<char>>::empty());
    }
}

/// The signature of a function type is `fun(` and the parameter names joined with `, `,
/// then `)`; only when it returns something, `: ` and the signatures of the returned types
/// joined with `, ` follow.
pub proof fn lemma_function_type_signature(params: Vec<Param>, results: Vec<Return>)
    ensures
        results@.len() == 0 ==> type_sig(Type::Function { params, results }) == Ok::<
            Seq<char>,
            DefinitionError,
        >("fun("@ + join(param_names(params@), ", "@) + ")"@),
        results@.len() > 0 && (forall|k: int| 0 <= k < results@.len() ==> (#[trigger] type_sig(results@[k].ty)) is Ok)
            ==> type_sig(Type::Function { params, results }) == Ok::<Seq<char>, DefinitionError>(
            "fun("@ + join(param_names(params@), ", "@) + ")"@ + ": "@ + join(
                known_result_sigs(results@, 0),
                ", "@,
            ),
        ),
{
    if results@.len() == 0 {
        assert("fun("@ + join(param_names(params@), ", "@) + ")"@ + Seq::<char>::empty() =~= "fun("@ + join(
            param_names(params@),
            ", "@,
        ) + ")"@);
    }
    if forall|k: int| 0 <= k < results@.len() ==> (#[trigger] type_sig(results@[k].ty)) is Ok {
        lemma_return_sigs_known(results@, 0);
        let a = "fun("@ + join(param_names(params@), ", "@) + ")"@;
        let r = join(known_result_sigs(results@, 0), ", "@);
        assert(a + (": "@ + r) =~= a + ": "@ + r);
    }
}

/// An alias is written as its documentation comment, then `--- @alias {name} {signature}`;
/// when its type has no signature, only the documentation comment is written before the
/// error.
pub proof fn lemma_alias_entry(name: String, doc: Option<String>, ty: Type)
    ensures
        ({
            let w = entry_text(DefinitionEntry { name, ty: Type::Alias(Box::new(ty)), doc });
            let d = comment_text(doc_piece(opt_string_text(doc)));
            match type_sig(ty) {
                Ok(s) => w == (d + "--- @alias "@ + name@ + " "@ + s + "\n"@, None::<DefinitionError>),
                Err(e) => w == (d, Some(e)),
            }
        }),
{
    reveal(crate::output::alias_text);
    lemma_doc_pair(doc, None);
    let d = comment_text(doc_piece(opt_string_text(doc)));
    if let Ok(s) = type_sig(ty) {
        assert(d + ("--- @alias "@ + name@ + " "@ + s + Seq::<char>::empty() + "\n"@) =~= d + "--- @alias "@
            + name@ + " "@ + s + "\n"@);
    } else {
        assert(d + Seq::<char>::empty() =~= d);
    }
}

/// A global value is written as its documentation comment, `--- @type {signature}` and
/// `{name} = nil`; when its type has no signature, only the documentation comment is written
/// before the error.
pub proof fn lemma_value_written(name: String, doc: Option<String>, ty: Type)
    ensures
        ({
            let w = entry_text(DefinitionEntry { name, ty: Type::Value(Box::new(ty)), doc });
            let d = comment_text(doc_piece(opt_string_text(doc)));
            match type_sig(ty) {
                Ok(s) => w == (d + "--- @type "@ + s + "\n"@ + name@ + " = nil\n"@, None::<DefinitionError>),
                Err(e) => w == (d, Some(e)),
            }
        }),
{
    reveal(crate::output::value_text);
    lemma_doc_pair(doc, None);
    let d = comment_text(doc_piece(opt_string_text(doc)));
    if let Ok(s) = type_sig(ty) {
        assert(d + (("--- @type "@ + s + Seq::<char>::empty() + "\n"@) + (name@ + " = nil\n"@)) =~= d
            + "--- @type "@ + s + "\n"@ + name@ + " = nil\n"@);
    } else {
        assert(d + Seq::<char>::empty() =~= d);
    }
}

/// An enumeration is written as its documentation comment, then `--- @alias` of the
/// enumeration's name with the signature of each alternative, in order, one per line after
/// `---  | `.
pub proof fn lemma_enum_entry(name: String, doc: Option<String>, enum_name: String, types: Vec<Type>)
    requires
        forall|k: int| 0 <= k < types@.len() ==> (#[trigger] type_sig(types@[k])) is Ok,
    ensures
        entry_text(DefinitionEntry { name, ty: Type::Enum(enum_name, types), doc }) == (
            comment_text(doc_piece(opt_string_text(doc))) + "--- @alias "@ + enum_name@ + " "@ + join(
                known_sigs(types@, 0),
                "\n---  | "@,
            ) + "\n"@,
            None::<DefinitionError>,
        ),
{
    reveal(crate::output::enum_text);
    lemma_doc_pair(doc, None);
    lemma_type_sigs_known(types@, 0);
    let d = comment_text(doc_piece(opt_string_text(doc)));
    assert(d + ("--- @alias "@ + enum_name@ + " "@ + join(known_sigs(types@, 0), "\n---  | "@) + "\n"@) =~= d
        + "--- @alias "@ + enum_name@ + " "@ + join(known_sigs(types@, 0), "\n---  | "@) + "\n"@);
}

/// A global function is written as its documentation comment, then its declaration lines
/// (`function {name}(...) end` last, the name escaped when it needs it); when it cannot be
/// declared, only the documentation comment is written before the error.
pub proof fn lemma_function_entry(name: String, doc: Option<String>, params: Vec<Param>, results: Vec<Return>)
    ensures
        ({
            let w = entry_text(DefinitionEntry { name, ty: Type::Function { params, results }, doc });
            let d = comment_text(doc_piece(opt_string_text(doc)));
            match function_sig(escaped_key(name@), params@, results@, false) {
                Ok(ls) => w == (d + join(ls, "\n"@) + "\n"@, None::<DefinitionError>),
                Err(e) => w == (d, Some(e)),
            }
        }),
{
    reveal(crate::output::function_text);
    lemma_doc_pair(doc, None);
    let d = comment_text(doc_piece(opt_string_text(doc)));
    if let Ok(ls) = function_sig(escaped_key(name@), params@, results@, false) {
        assert(d + (Seq::<char>::empty() + join(ls, "\n"@ + Seq::<char>::empty()) + Seq::<char>::empty()
            + "\n"@) =~= d + join(ls, "\n"@) + "\n"@);
        assert("\n"@ + Seq::<char>::empty() =~= "\n"@);
    } else {
        assert(d + Seq::<char>::empty() =~= d);
    }
}

/// A global module is written as the documentation comment of the entry and then of the
/// module, then `{name} = ` and the module's table, then a newline.
pub proof fn lemma_module_entry(name: String, doc: Option<String>, m: TypedModuleBuilder)
    ensures
        ({
            let w = entry_text(DefinitionEntry { name, ty: Type::Module(Box::new(m)), doc });
            let head = comment_text(doc_piece(opt_string_text(doc)) + doc_piece(opt_string_text(m.doc)))
                + name@ + " = "@;
            &&& starts_with(w.0, head)
            &&& w.1 is None ==> w.0 == head + crate::output::module_text(m, Seq::empty()).0 + "\n"@
            &&& w.1 == crate::output::module_text(m, Seq::empty()).1
        }),
{
    reveal(crate::output::module_entry_text);
    lemma_doc_pair(doc, m.doc);
    let w = entry_text(DefinitionEntry { name, ty: Type::Module(Box::new(m)), doc });
    let head = comment_text(doc_piece(opt_string_text(doc)) + doc_piece(opt_string_text(m.doc))) + name@
        + " = "@;
    assert(w.0.take(head.len() as int) =~= head);
}

proof fn lemma_function_entries_present(
    fs: Seq<(String, TypedFunction)>,
    i: nat,
    indent: Seq<char>,
    class: Option<Seq<char>>,
    escape: bool,
)
    requires
        i <= fs.len(),
        function_entries(fs, i, indent, class, escape).1 is None,
    ensures
        forall|k: int|
            i <= k < fs.len() ==> (#[trigger] crate::output::declaration(
                crate::output::entry_name(fs[k].0@, escape),
                fs[k].1,
                class,
            )) is Ok && contains(
                function_entries(fs, i, indent, class, escape).0,
                listed(
                    indent,
                    fs[k].1.doc,
                    crate::output::declaration(crate::output::entry_name(fs[k].0@, escape), fs[k].1, class)->Ok_0,
                ),
            ),
    decreases fs.len() - i,
{
    reveal(function_entries);
    reveal(function_entry);
    if i < fs.len() {
        let e = function_entry(fs[i as int].0@, fs[i as int].1, indent, class, escape);
        let rest = function_entries(fs, i + 1, indent, class, escape);
        let t = function_entries(fs, i, indent, class, escape).0;
        assert(e.1 is None);
        lemma_function_entries_present(fs, i + 1, indent, class, escape);
        let dcl = crate::output::declaration(crate::output::entry_name(fs[i as int].0@, escape), fs[i as int].1, class);
        assert(dcl is Ok);
        assert(e.0 =~= listed(indent, fs[i as int].1.doc, dcl->Ok_0));
        lemma_then_parts(e, rest);
        assert forall|k: int| i <= k < fs.len() implies (#[trigger] crate::output::declaration(
            crate::output::entry_name(fs[k].0@, escape),
            fs[k].1,
            class,
        )) is Ok && contains(
            t,
            listed(
                indent,
                fs[k].1.doc,
                crate::output::declaration(crate::output::entry_name(fs[k].0@, escape), fs[k].1, class)->Ok_0,
            ),
        ) by {
            if k == i {
                lemma_contains_whole(e.0);
                lemma_contains_trans(t, e.0, e.0);
            } else {
                lemma_contains_trans(
                    t,
                    rest.0,
                    listed(
                        indent,
                        fs[k].1.doc,
                        crate::output::declaration(crate::output::entry_name(fs[k].0@, escape), fs[k].1, class)->Ok_0,
                    ),
                );
            }
        }
    }
}

proof fn lemma_module_fields_present(fs: Seq<(String, TypedField)>, i: nat, off: Seq<char>, meta: bool)
    requires
        i <= fs.len(),
        crate::output::module_fields(fs, i, off, meta).1 is None,
    ensures
        forall|k: int|
            i <= k < fs.len() ==> (#[trigger] crate::output::module_field(fs[k].0@, fs[k].1, off, meta)).1 is None
                && contains(
                crate::output::module_fields(fs, i, off, meta).0,
                crate::output::module_field(fs[k].0@, fs[k].1, off, meta).0,
            ),
    decreases fs.len() - i,
{
    crate::output::lemma_module_fields(fs, i, off, meta);
    if i < fs.len() {
        let e = crate::output::module_field(fs[i as int].0@, fs[i as int].1, off, meta);
        let rest = crate::output::module_fields(fs, i + 1, off, meta);
        let t = crate::output::module_fields(fs, i, off, meta).0;
        assert(e.1 is None);
        lemma_module_fields_present(fs, i + 1, off, meta);
        lemma_then_parts(e, rest);
        assert forall|k: int| i <= k < fs.len() implies (#[trigger] crate::output::module_field(
            fs[k].0@,
            fs[k].1,
            off,
            meta,
        )).1 is None && contains(t, crate::output::module_field(fs[k].0@, fs[k].1, off, meta).0) by {
            if k == i {
                lemma_contains_whole(e.0);
                lemma_contains_trans(t, e.0, e.0);
            } else {
                lemma_contains_trans(t, rest.0, crate::output::module_field(fs[k].0@, fs[k].1, off, meta).0);
            }
        }
    }
}

proof fn lemma_nested_modules_present(ns: Seq<(String, TypedModuleBuilder)>, i: nat, off: Seq<char>)
    requires
        i <= ns.len(),
        crate::output::nested_modules(ns, i, off).1 is None,
    ensures
        forall|k: int|
            i <= k < ns.len() ==> (#[trigger] crate::output::nested_module(ns[k].0@, ns[k].1, off)).1 is None
                && contains(
                crate::output::nested_modules(ns, i, off).0,
                crate::output::nested_module(ns[k].0@, ns[k].1, off).0,
            ),
    decreases ns.len() - i,
{
    crate::output::lemma_nested_modules(ns, i, off);
    if i < ns.len() {
        let e = crate::output::nested_module(ns[i as int].0@, ns[i as int].1, off);
        let rest = crate::output::nested_modules(ns, i + 1, off);
        let t = crate::output::nested_modules(ns, i, off).0;
        assert(e.1 is None);
        lemma_nested_modules_present(ns, i + 1, off);
        lemma_then_parts(e, rest);
        assert forall|k: int| i <= k < ns.len() implies (#[trigger] crate::output::nested_module(
            ns[k].0@,
            ns[k].1,
            off,
        )).1 is None && contains(t, crate::output::nested_module(ns[k].0@, ns[k].1, off).0) by {
            if k == i {
                lemma_contains_whole(e.0);
                lemma_contains_trans(t, e.0, e.0);
            } else {
                lemma_contains_trans(t, rest.0, crate::output::nested_module(ns[k].0@, ns[k].1, off).0);
            }
        }
    }
}

/// The table entry a field of a module is written as, at indentation `ind` (its
/// documentation's further lines at `sep`): a nested table `{name} = {...}` for a module,
/// `--- @type {signature}` and `{name} = nil,` otherwise.
pub open spec fn module_field_start(
    name: Seq<char>,
    f: TypedField,
    ind: Seq<char>,
    sep: Seq<char>,
) -> Seq<char> {
    match f.ty {
        Type::Module(_) => doc_block(f.doc, ind, sep) + ind + name + " = {"@,
        other => doc_block(f.doc, ind, sep) + ind + "--- @type "@ + type_sig(other)->Ok_0 + "\n"@ + ind + name
            + " = nil,\n"@,
    }
}

/// Text that opens a table after `name = ` holds `name = {`.
proof fn lemma_open_brace(d: Seq<char>, ind: Seq<char>, name: Seq<char>, inner: Seq<char>, tail: Seq<char>)
    requires
        inner.len() >= 1,
        inner[0] == '{',
    ensures
        contains(d + (ind + (name + " = "@ + (inner + tail))), d + ind + name + " = {"@),
{
    reveal_strlit(" = {");
    reveal_strlit(" = ");
    let p = d + ind + name + " = {"@;
    let rest = inner.skip(1) + tail;
    assert(d + (ind + (name + " = "@ + (inner + tail))) =~= p + rest);
    lemma_contains_parts(p, rest);
}

proof fn lemma_module_field_start(name: Seq<char>, f: TypedField, off: Seq<char>, meta: bool)
    requires
        crate::output::module_field(name, f, off, meta).1 is None,
    ensures
        contains(
            crate::output::module_field(name, f, off, meta).0,
            module_field_start(name, f, if meta { off + "    "@ } else { off + "  "@ }, off + "  "@),
        ),
{
    crate::output::lemma_module_field(name, f, off, meta);
    reveal_strlit(" = {");
    reveal_strlit("{}");
    reveal_strlit("{\n");
    let ind = if meta {
        off + "    "@
    } else {
        off + "  "@
    };
    let t = crate::output::module_field(name, f, off, meta).0;
    let d = doc_block(f.doc, ind, off + "  "@);
    match f.ty {
        Type::Module(sub) => {
            let inner = crate::output::module_text(*sub, off + "  "@);
            lemma_then_parts(inner, crate::output::emit(",\n"@));
            crate::output::lemma_module_text(*sub, off + "  "@);
            assert(inner.0.len() >= 1 && inner.0[0] == '{');
            assert(t == d + (ind + (name + " = "@ + (inner.0 + ",\n"@))));
            lemma_open_brace(d, ind, name, inner.0, ",\n"@);
        },
        other => {
            let p = module_field_start(name, f, ind, off + "  "@);
            assert(t =~= p);
            lemma_contains_whole(p);
        },
    }
}

/// A nested module is written as its documentation, then `{name} = {` and its table.
proof fn lemma_nested_module_start(name: Seq<char>, n: TypedModuleBuilder, off: Seq<char>)
    requires
        crate::output::nested_module(name, n, off).1 is None,
    ensures
        contains(
            crate::output::nested_module(name, n, off).0,
            doc_block(n.doc, off + "  "@, off + "  "@) + (off + "  "@) + name + " = {"@,
        ),
{
    let ind = off + "  "@;
    crate::output::lemma_nested_module(name, n, off);
    let inner = crate::output::module_text(n, ind);
    crate::output::lemma_module_text(n, ind);
    reveal_strlit("{}");
    reveal_strlit("{\n");
    reveal_strlit(" = {");
    reveal_strlit(" = ");
    lemma_then_parts(inner, crate::output::emit(",\n"@));
    assert(inner.0.len() >= 1 && inner.0[0] == '{');
    let d = doc_block(n.doc, ind, ind);
    let e = crate::output::nested_module(name, n, off).0;
    assert(e =~= d + (ind + (name + " = "@ + (inner.0 + ",\n"@))));
    lemma_open_brace(d, ind, name, inner.0, ",\n"@);
}

/// A module table that can be written holds an entry for every field (a nested table for a
/// field that is a module), every nested module, every function and every method (declared
/// with `self` of the class `table`), two spaces past the table's indentation `off`; and,
/// when the module has meta entries, a `__metatable` block holding every meta field, meta
/// function and meta method four spaces past it.
#[verifier::rlimit(100)]
#[verifier::spinoff_prover]
pub proof fn lemma_module_contents(m: TypedModuleBuilder, off: Seq<char>)
    requires
        crate::output::module_text(m, off).1 is None,
    ensures
        ({
            let t = crate::output::module_text(m, off).0;
            let ind = off + "  "@;
            let ind4 = off + "    "@;
            &&& forall|k: int|
                0 <= k < m.fields@.len() ==> contains(
                    t,
                    #[trigger] module_field_start(m.fields@[k].0@, m.fields@[k].1, ind, ind),
                )
            &&& forall|k: int|
                0 <= k < m.nested_modules@.len() ==> contains(
                    t,
                    doc_block((#[trigger] m.nested_modules@[k]).1.doc, ind, ind) + ind + m.nested_modules@[k].0@
                        + " = {"@,
                )
            &&& forall|k: int|
                0 <= k < m.functions@.len() ==> (#[trigger] function_sig(
                    m.functions@[k].0@,
                    m.functions@[k].1.params@,
                    m.functions@[k].1.results@,
                    true,
                )) is Ok && contains(
                    t,
                    listed(
                        ind,
                        m.functions@[k].1.doc,
                        function_sig(
                            m.functions@[k].0@,
                            m.functions@[k].1.params@,
                            m.functions@[k].1.results@,
                            true,
                        )->Ok_0,
                    ),
                )
            &&& forall|k: int|
                0 <= k < m.methods@.len() ==> (#[trigger] method_sig(
                    m.methods@[k].0@,
                    "table"@,
                    m.methods@[k].1.params@,
                    m.methods@[k].1.results@,
                    true,
                )) is Ok && contains(
                    t,
                    listed(
                        ind,
                        m.methods@[k].1.doc,
                        method_sig(
                            m.methods@[k].0@,
                            "table"@,
                            m.methods@[k].1.params@,
                            m.methods@[k].1.results@,
                            true,
                        )->Ok_0,
                    ),
                )
            &&& !m.spec_is_meta_empty() ==> contains(t, ind + "__metatable = {\n"@)
            &&& forall|k: int|
                0 <= k < m.meta_fields@.len() ==> contains(
                    t,
                    #[trigger] module_field_start(m.meta_fields@[k].0@, m.meta_fields@[k].1, ind4, ind),
                )
            &&& forall|k: int|
                0 <= k < m.meta_functions@.len() ==> (#[trigger] function_sig(
                    m.meta_functions@[k].0@,
                    m.meta_functions@[k].1.params@,
                    m.meta_functions@[k].1.results@,
                    true,
                )) is Ok && contains(
                    t,
                    listed(
                        ind4,
                        m.meta_functions@[k].1.doc,
                        function_sig(
                            m.meta_functions@[k].0@,
                            m.meta_functions@[k].1.params@,
                            m.meta_functions@[k].1.results@,
                            true,
                        )->Ok_0,
                    ),
                )
            &&& forall|k: int|
                0 <= k < m.meta_methods@.len() ==> (#[trigger] method_sig(
                    m.meta_methods@[k].0@,
                    "table"@,
                    m.meta_methods@[k].1.params@,
                    m.meta_methods@[k].1.results@,
                    true,
                )) is Ok && contains(
                    t,
                    listed(
                        ind4,
                        m.meta_methods@[k].1.doc,
                        method_sig(
                            m.meta_methods@[k].0@,
                            "table"@,
                            m.meta_methods@[k].1.params@,
                            m.meta_methods@[k].1.results@,
                            true,
                        )->Ok_0,
                    ),
                )
        }),
{
    crate::output::lemma_module_text(m, off);
    crate::output::lemma_module_meta(m, off);
    let t = crate::output::module_text(m, off).0;
    let ind = off + "  "@;
    let ind4 = off + "    "@;
    let close = crate::output::emit(off + "}"@);
    let meta = crate::output::module_meta(m, off);
    let ms = function_entries(m.methods@, 0, ind, Some("table"@), false);
    let fs = function_entries(m.functions@, 0, ind, None, false);
    let ns = crate::output::nested_modules(m.nested_modules@, 0, off);
    let mf = crate::output::module_fields(m.fields@, 0, off, false);
    let t4 = then(meta, close);
    let t3 = then(ms, t4);
    let t2 = then(fs, t3);
    let t1 = then(ns, t2);
    let t0 = then(mf, t1);
    if m.spec_is_empty() {
        assert(m.fields@.len() == 0);
        assert(m.nested_modules@.len() == 0);
        assert(m.functions@.len() == 0);
        assert(m.methods@.len() == 0);
        assert(m.meta_fields@.len() == 0);
        assert(m.meta_functions@.len() == 0);
        assert(m.meta_methods@.len() == 0);
        return;
    }
    assert(t == "{\n"@ + t0.0);
    assert(mf.1 is None);
    assert(ns.1 is None);
    assert(fs.1 is None);
    assert(ms.1 is None);
    assert(meta.1 is None);
    lemma_then_parts(meta, close);
    lemma_then_parts(ms, t4);
    lemma_then_parts(fs, t3);
    lemma_then_parts(ns, t2);
    lemma_then_parts(mf, t1);
    lemma_contains_parts("{\n"@, t0.0);
    lemma_contains_trans(t, t0.0, t1.0);
    lemma_contains_trans(t, t1.0, t2.0);
    lemma_contains_trans(t, t2.0, t3.0);
    lemma_contains_trans(t, t3.0, t4.0);
    lemma_contains_trans(t, t0.0, mf.0);
    lemma_contains_trans(t, t1.0, ns.0);
    lemma_contains_trans(t, t2.0, fs.0);
    lemma_contains_trans(t, t3.0, ms.0);
    lemma_contains_trans(t, t4.0, meta.0);
    lemma_module_fields_present(m.fields@, 0, off, false);
    lemma_nested_modules_present(m.nested_modules@, 0, off);
    lemma_function_entries_present(m.functions@, 0, ind, None, false);
    lemma_function_entries_present(m.methods@, 0, ind, Some("table"@), false);
    assert forall|k: int| 0 <= k < m.fields@.len() implies contains(
        t,
        #[trigger] module_field_start(m.fields@[k].0@, m.fields@[k].1, ind, ind),
    ) by {
        let e = crate::output::module_field(m.fields@[k].0@, m.fields@[k].1, off, false);
        lemma_module_field_start(m.fields@[k].0@, m.fields@[k].1, off, false);
        lemma_contains_trans(t, mf.0, e.0);
        lemma_contains_trans(t, e.0, module_field_start(m.fields@[k].0@, m.fields@[k].1, ind, ind));
    }
    assert forall|k: int| 0 <= k < m.nested_modules@.len() implies contains(
        t,
        doc_block((#[trigger] m.nested_modules@[k]).1.doc, ind, ind) + ind + m.nested_modules@[k].0@ + " = {"@,
    ) by {
        let (nm, n) = m.nested_modules@[k];
        let e = crate::output::nested_module(nm@, n, off);
        lemma_nested_module_start(nm@, n, off);
        lemma_contains_trans(t, ns.0, e.0);
        lemma_contains_trans(t, e.0, doc_block(n.doc, ind, ind) + ind + nm@ + " = {"@);
    }
    assert forall|k: int| 0 <= k < m.functions@.len() implies (#[trigger] function_sig(
        m.functions@[k].0@,
        m.functions@[k].1.params@,
        m.functions@[k].1.results@,
        true,
    )) is Ok && contains(
        t,
        listed(
            ind,
            m.functions@[k].1.doc,
            function_sig(
                m.functions@[k].0@,
                m.functions@[k].1.params@,
                m.functions@[k].1.results@,
                true,
            )->Ok_0,
        ),
    ) by {
        let d = crate::output::declaration(crate::output::entry_name(m.functions@[k].0@, false), m.functions@[k].1, None);
        assert(d is Ok);
        lemma_contains_trans(t, fs.0, listed(ind, m.functions@[k].1.doc, d->Ok_0));
    }
    assert forall|k: int| 0 <= k < m.methods@.len() implies (#[trigger] method_sig(
        m.methods@[k].0@,
        "table"@,
        m.methods@[k].1.params@,
        m.methods@[k].1.results@,
        true,
    )) is Ok && contains(
        t,
        listed(
            ind,
            m.methods@[k].1.doc,
            method_sig(
                m.methods@[k].0@,
                "table"@,
                m.methods@[k].1.params@,
                m.methods@[k].1.results@,
                true,
            )->Ok_0,
        ),
    ) by {
        let d = crate::output::declaration(
            crate::output::entry_name(m.methods@[k].0@, false),
            m.methods@[k].1,
            Some("table"@),
        );
        assert(d is Ok);
        lemma_contains_trans(t, ms.0, listed(ind, m.methods@[k].1.doc, d->Ok_0));
    }
    if !m.spec_is_meta_empty() {
        let cl = crate::output::emit(off + "  "@ + "},\n"@);
        let mms = function_entries(m.meta_methods@, 0, ind4, Some("table"@), false);
        let mfs = function_entries(m.meta_functions@, 0, ind4, None, false);
        let mmf = crate::output::module_fields(m.meta_fields@, 0, off, true);
        let u2 = then(mms, cl);
        let u1 = then(mfs, u2);
        let u0 = then(mmf, u1);
        let head = off + "  "@ + "__metatable = {\n"@;
        assert(meta.0 == head + u0.0);
        assert(head =~= ind + "__metatable = {\n"@);
        assert(mmf.1 is None);
        assert(mfs.1 is None);
        assert(mms.1 is None);
        lemma_then_parts(mms, cl);
        lemma_then_parts(mfs, u2);
        lemma_then_parts(mmf, u1);
        lemma_contains_parts(head, u0.0);
        lemma_contains_trans(t, meta.0, head);
        lemma_contains_trans(t, meta.0, u0.0);
        lemma_contains_trans(t, u0.0, u1.0);
        lemma_contains_trans(t, u1.0, u2.0);
        lemma_contains_trans(t, u0.0, mmf.0);
        lemma_contains_trans(t, u1.0, mfs.0);
        lemma_contains_trans(t, u2.0, mms.0);
        lemma_module_fields_present(m.meta_fields@, 0, off, true);
        lemma_function_entries_present(m.meta_functions@, 0, ind4, None, false);
        lemma_function_entries_present(m.meta_methods@, 0, ind4, Some("table"@), false);
        assert forall|k: int| 0 <= k < m.meta_fields@.len() implies contains(
            t,
            #[trigger] module_field_start(m.meta_fields@[k].0@, m.meta_fields@[k].1, ind4, ind),
        ) by {
            let e = crate::output::module_field(m.meta_fields@[k].0@, m.meta_fields@[k].1, off, true);
            lemma_module_field_start(m.meta_fields@[k].0@, m.meta_fields@[k].1, off, true);
            lemma_contains_trans(t, mmf.0, e.0);
            lemma_contains_trans(t, e.0, module_field_start(m.meta_fields@[k].0@, m.meta_fields@[k].1, ind4, ind));
        }
        assert forall|k: int| 0 <= k < m.meta_functions@.len() implies (#[trigger] function_sig(
            m.meta_functions@[k].0@,
            m.meta_functions@[k].1.params@,
            m.meta_functions@[k].1.results@,
            true,
        )) is Ok && contains(
            t,
            listed(
                ind4,
                m.meta_functions@[k].1.doc,
                function_sig(
                    m.meta_functions@[k].0@,
                    m.meta_functions@[k].1.params@,
                    m.meta_functions@[k].1.results@,
                    true,
                )->Ok_0,
            ),
        ) by {
            let d = crate::output::declaration(
                crate::output::entry_name(m.meta_functions@[k].0@, false),
                m.meta_functions@[k].1,
                None,
            );
            assert(d is Ok);
            lemma_contains_trans(t, mfs.0, listed(ind4, m.meta_functions@[k].1.doc, d->Ok_0));
        }
        assert forall|k: int| 0 <= k < m.meta_methods@.len() implies (#[trigger] method_sig(
            m.meta_methods@[k].0@,
            "table"@,
            m.meta_methods@[k].1.params@,
            m.meta_methods@[k].1.results@,
            true,
        )) is Ok && contains(
            t,
            listed(
                ind4,
                m.meta_methods@[k].1.doc,
                method_sig(
                    m.meta_methods@[k].0@,
                    "table"@,
                    m.meta_methods@[k].1.params@,
                    m.meta_methods@[k].1.results@,
                    true,
                )->Ok_0,
            ),
        ) by {
            let d = crate::output::declaration(
                crate::output::entry_name(m.meta_methods@[k].0@, false),
                m.meta_methods@[k].1,
                Some("table"@),
            );
            assert(d is Ok);
            lemma_contains_trans(t, mms.0, listed(ind4, m.meta_methods@[k].1.doc, d->Ok_0));
        }
    } else {
        assert(m.meta_fields@.len() == 0);
        assert(m.meta_functions@.len() == 0);
        assert(m.meta_methods@.len() == 0);
    }
}

/// The items `[k]: signature` of a tuple from its `i`-th element on, counted from 1.
pub open spec fn numbered_items(ts: Seq<Type>, i: int) -> Seq<Seq<char>> {
    Seq::new((ts.len() - i) as nat, |k: int| "["@ + decimal((i + k + 1) as nat) + "]: "@ + type_sig(ts[i + k])->Ok_0)
}

/// The items `key: signature` of a table from its `i`-th entry on.
pub open spec fn keyed_items(es: Seq<(String, Type)>, i: int) -> Seq<Seq<char>> {
    Seq::new((es.len() - i) as nat, |k: int| es[i + k].0@ + ": "@ + type_sig(es[i + k].1)->Ok_0)
}

proof fn lemma_tuple_items_known(ts: Seq<Type>, i: nat)
    requires
        i <= ts.len(),
        forall|k: int| i <= k < ts.len() ==> (#[trigger] type_sig(ts[k])) is Ok,
    ensures
        tuple_items(ts, i) == Ok::<Seq<Seq<char>>, DefinitionError>(numbered_items(ts, i as int)),
    decreases ts.len() - i,
{
    if i < ts.len() {
        lemma_tuple_items_known(ts, i + 1);
        assert(type_sig(ts[i as int]) is Ok);
        assert(seq!["["@ + decimal(i + 1) + "]: "@ + type_sig(ts[i as int])->Ok_0] + numbered_items(ts, (i + 1) as int)
            =~= numbered_items(ts, i as int));
    } else {
        assert(numbered_items(ts, i as int) =~= Seq::<Seq<char>>::empty());
    }
}

proof fn lemma_table_items_known(es: Seq<(String, Type)>, i: nat)
    requires
        i <= es.len(),
        forall|k: int| i <= k < es.len() ==> (#[trigger] type_sig(es[k].1)) is Ok,
    ensures
        table_items(es, i) == Ok::<Seq<Seq<char>>, DefinitionError>(keyed_items(es, i as int)),
    decreases es.len() - i,
{
    if i < es.len() {
        lemma_table_items_known(es, i + 1);
        assert(type_sig(es[i as int].1) is Ok);
        assert(seq![es[i as int].0@ + ": "@ + type_sig(es[i as int].1)->Ok_0] + keyed_items(es, (i + 1) as int)
            =~= keyed_items(es, i as int));
    } else {
        assert(keyed_items(es, i as int) =~= Seq::<Seq<char>>::empty());
    }
}

/// How each kind of type is written as a signature, once the signatures of its parts are
/// known: a named type and an enumeration by their names; a tuple as `{ [1]: a, [2]: b }`
/// (its items counted from 1); a variadic as `...a`; an array as `{ [integer]: a }`; a map as
/// `{ [k]: v }`; a union as `a | b`; a table as `{ x: a, y: b }`.
pub proof fn lemma_signature_forms(t: Type)
    ensures
        match t {
            Type::Single(n) => type_sig(t) == Ok::<Seq<char>, DefinitionError>(n@),
            Type::Enum(n, _) => type_sig(t) == Ok::<Seq<char>, DefinitionError>(n@),
            Type::Tuple(ts) => (forall|k: int| 0 <= k < ts@.len() ==> (#[trigger] type_sig(ts@[k])) is Ok)
                ==> type_sig(t) == Ok::<Seq<char>, DefinitionError>(
                "{ "@ + join(numbered_items(ts@, 0), ", "@) + " }"@,
            ),
            Type::Variadic(inner) => type_sig(*inner) is Ok ==> type_sig(t) == Ok::<Seq<char>, DefinitionError>(
                "..."@ + type_sig(*inner)->Ok_0,
            ),
            Type::Array(inner) => type_sig(*inner) is Ok ==> type_sig(t) == Ok::<Seq<char>, DefinitionError>(
                "{ [integer]: "@ + type_sig(*inner)->Ok_0 + " }"@,
            ),
            Type::MapOf(k, v) => type_sig(*k) is Ok && type_sig(*v) is Ok ==> type_sig(t) == Ok::<
                Seq<char>,
                DefinitionError,
            >("{ ["@ + type_sig(*k)->Ok_0 + "]: "@ + type_sig(*v)->Ok_0 + " }"@),
            Type::Union(ts) => (forall|k: int| 0 <= k < ts@.len() ==> (#[trigger] type_sig(ts@[k])) is Ok)
                ==> type_sig(t) == Ok::<Seq<char>, DefinitionError>(join(known_sigs(ts@, 0), " | "@)),
            Type::Table(es) => (forall|k: int| 0 <= k < es@.len() ==> (#[trigger] type_sig(es@[k].1)) is Ok)
                ==> type_sig(t) == Ok::<Seq<char>, DefinitionError>(
                "{ "@ + join(keyed_items(es@, 0), ", "@) + " }"@,
            ),
            _ => true,
        },
{
    match t {
        Type::Tuple(ts) => {
            if forall|k: int| 0 <= k < ts@.len() ==> (#[trigger] type_sig(ts@[k])) is Ok {
                lemma_tuple_items_known(ts@, 0);
            }
        },
        Type::Union(ts) => {
            if forall|k: int| 0 <= k < ts@.len() ==> (#[trigger] type_sig(ts@[k])) is Ok {
                lemma_type_sigs_known(ts@, 0);
            }
        },
        Type::Table(es) => {
            if forall|k: int| 0 <= k < es@.len() ==> (#[trigger] type_sig(es@[k].1)) is Ok {
                lemma_table_items_known(es@, 0);
            }
        },
        _ => {},
    }
}

/// The declaring line of a function: `name = function(a, b) end` when it is assigned in a
/// table, `function name(a, b) end` otherwise; a method takes `self` before the parameters.
pub proof fn lemma_header_forms(name: Seq<char>, ps: Seq<Param>, assign: bool, method: bool)
    ensures
        ({
            let names = join(param_names(ps), ", "@);
            let args = if !method {
                names
            } else if ps.len() == 0 {
                "self"@
            } else {
                "self, "@ + names
            };
            header(name, ps, assign, method) == if assign {
                name + " = function("@ + args + ") end"@
            } else {
                "function "@ + name + "("@ + args + ") end"@
            }
        }),
{
    reveal_strlit(" = function(");
    reveal_strlit(" = ");
    reveal_strlit("function");
    reveal_strlit("function ");
    reveal_strlit("(");
    reveal_strlit(" ");
    reveal_strlit("self");
    reveal_strlit("self, ");
    reveal_strlit(") end");
    let names = join(param_names(ps), ", "@);
    if ps.len() == 0 {
        assert(param_names(ps) =~= Seq::<Seq<char>>::empty());
        assert(names =~= Seq::<char>::empty());
    }
    let h = header(name, ps, assign, method);
    let args = if !method {
        names
    } else if ps.len() == 0 {
        "self"@
    } else {
        "self, "@ + names
    };
    if assign {
        assert(h =~= name + " = function("@ + args + ") end"@);
    } else {
        assert(h =~= "function "@ + name + "("@ + args + ") end"@);
    }
}

/// Only values, classes, enumerations, aliases, functions and modules can stand at the top
/// of a file: any other entry writes nothing and fails with the invalid root type of its
/// kind.
pub proof fn lemma_invalid_root(e: DefinitionEntry)
    requires
        !(e.ty is Value || e.ty is Class || e.ty is Enum || e.ty is Alias || e.ty is Function || e.ty is Module),
    ensures
        entry_text(e) == (Seq::<char>::empty(), Some(DefinitionError::InvalidRootType(kind_of(e.ty)))),
{
}

} // verus!
