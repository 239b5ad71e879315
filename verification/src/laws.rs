//! Properties of rendered definition files that hold for every input.
use vstd::prelude::*;

use crate::docs::{accumulated, comment_lines, docs_lines};
use crate::output::{definition_text, entries_text, entry_text, value_text, doc_block, emit};
use crate::signature::{
    doc_text,
    param_name,
    function_sig,
    header,
    method_sig,
    param_lines,
    return_lines,
    return_sigs,
    table_items,
    tuple_items,
    type_sig,
    type_sigs,
};
use crate::text::{decimal, digit, join, lines_of};
use crate::type_file::{escaped_key, spec_needs_escape};
use crate::error::DefinitionError;
use crate::typed::{kind_of, Definition, DefinitionEntry, Param, Return, Type, TypeKind};

verus! {

/// Joining `p` with one more part appends the separator and the part.
proof fn lemma_join_push(p: Seq<Seq<char>>, sep: Seq<char>, x: Seq<char>)
    requires
        p.len() >= 1,
    ensures
        join(p.push(x), sep) == join(p, sep) + sep + x,
{
    assert(p.push(x).drop_last() =~= p);
}

/// Extending the last part of `p` by `c` extends the joined text by `c`.
proof fn lemma_join_extend_last(p: Seq<Seq<char>>, sep: Seq<char>, c: char)
    requires
        p.len() >= 1,
    ensures
        join(p.update(p.len() - 1, p.last().push(c)), sep) == join(p, sep).push(c),
{
    let q = p.update(p.len() - 1, p.last().push(c));
    if p.len() == 1 {
        assert(q[0] == p[0].push(c));
    } else {
        assert(q.drop_last() =~= p.drop_last());
        assert(join(q, sep) == join(p.drop_last(), sep) + sep + p.last().push(c));
        assert(join(p.drop_last(), sep) + sep + p.last().push(c) =~= (join(p.drop_last(), sep) + sep
            + p.last()).push(c));
    }
}

/// No line of a text holds a newline, and joining the lines with newlines gives the text back.
pub proof fn lemma_lines_roundtrip(s: Seq<char>)
    ensures
        join(lines_of(s), "\n"@) == s,
        lines_of(s).len() >= 1,
        forall|i: int, j: int|
            0 <= i < lines_of(s).len() && 0 <= j < lines_of(s)[i].len() ==> #[trigger] lines_of(
                s,
            )[i][j] != '\n',
    decreases s.len(),
{
    reveal_strlit("\n");
    if s.len() == 0 {
        assert(lines_of(s) =~= seq![Seq::<char>::empty()]);
    } else {
        let init = lines_of(s.drop_last());
        lemma_lines_roundtrip(s.drop_last());
        if s.last() == '\n' {
            lemma_join_push(init, "\n"@, Seq::empty());
            assert(join(init, "\n"@) + "\n"@ + Seq::<char>::empty() =~= s);
            assert forall|i: int, j: int|
                0 <= i < lines_of(s).len() && 0 <= j < lines_of(s)[i].len() implies #[trigger] lines_of(
                s,
            )[i][j] != '\n' by {
                if i < init.len() {
                    assert(lines_of(s)[i] == init[i]);
                }
            }
        } else {
            lemma_join_extend_last(init, "\n"@, s.last());
            assert(join(init, "\n"@).push(s.last()) =~= s);
            assert forall|i: int, j: int|
                0 <= i < lines_of(s).len() && 0 <= j < lines_of(s)[i].len() implies #[trigger] lines_of(
                s,
            )[i][j] != '\n' by {
                if i < init.len() - 1 {
                    assert(lines_of(s)[i] == init[i]);
                } else {
                    assert(lines_of(s)[i] == init.last().push(s.last()));
                    if j < init.last().len() {
                        assert(lines_of(s)[i][j] == init[init.len() - 1][j]);
                    }
                }
            }
        }
    }
}

/// A single documentation text is written as one `--- ` comment line per line of the text,
/// and the lines, joined with newlines, give the text back.
pub proof fn lemma_doc_comment(doc: Seq<char>)
    ensures
        accumulated(seq![Some(doc)]) == Some(comment_lines(doc)),
        comment_lines(doc).len() == lines_of(doc).len(),
        forall|i: int| 0 <= i < lines_of(doc).len() ==> #[trigger] comment_lines(doc)[i] == "--- "@ + lines_of(doc)[i],
        join(lines_of(doc), "\n"@) == doc,
{
    lemma_lines_roundtrip(doc);
    let docs = seq![Some(doc)];
    assert(docs[0] is Some);
    assert(docs.drop_last() =~= Seq::<Option<Seq<char>>>::empty());
    assert(docs.last() == Some(doc));
    assert(docs_lines(docs.drop_last()) =~= Seq::<Seq<char>>::empty());
    assert(docs_lines(docs) =~= comment_lines(doc));
}

/// The comment lines of one optional documentation text.
pub open spec fn doc_piece(d: Option<Seq<char>>) -> Seq<Seq<char>> {
    match d {
        Some(s) => comment_lines(s),
        None => Seq::empty(),
    }
}

/// How many newline characters `s` holds.
pub open spec fn newline_count(s: Seq<char>) -> nat
    decreases s.len(),
{
    if s.len() == 0 {
        0
    } else {
        newline_count(s.drop_last()) + if s.last() == '\n' {
            1nat
        } else {
            0nat
        }
    }
}

/// The number of lines of the present texts: one more than the newlines of each.
pub open spec fn doc_line_count(docs: Seq<Option<Seq<char>>>) -> nat
    decreases docs.len(),
{
    if docs.len() == 0 {
        0
    } else {
        doc_line_count(docs.drop_last()) + match docs.last() {
            Some(s) => newline_count(s) + 1,
            None => 0,
        }
    }
}

/// The present documentation texts, in order.
pub open spec fn present_texts(docs: Seq<Option<Seq<char>>>) -> Seq<Seq<char>>
    decreases docs.len(),
{
    if docs.len() == 0 {
        Seq::empty()
    } else {
        match docs.last() {
            Some(s) => present_texts(docs.drop_last()).push(s),
            None => present_texts(docs.drop_last()),
        }
    }
}

/// A text has one line more than it has newlines.
pub proof fn lemma_line_count(s: Seq<char>)
    ensures
        lines_of(s).len() == newline_count(s) + 1,
    decreases s.len(),
{
    if s.len() > 0 {
        lemma_line_count(s.drop_last());
    }
}

/// Joining `a` and then `b` is joining each and putting the separator between.
proof fn lemma_join_concat(a: Seq<Seq<char>>, b: Seq<Seq<char>>, sep: Seq<char>)
    requires
        a.len() >= 1,
        b.len() >= 1,
    ensures
        join(a + b, sep) == join(a, sep) + sep + join(b, sep),
    decreases b.len(),
{
    if b.len() == 1 {
        assert(a + b =~= a.push(b[0]));
        lemma_join_push(a, sep, b[0]);
    } else {
        lemma_join_concat(a, b.drop_last(), sep);
        assert(a + b =~= (a + b.drop_last()).push(b.last()));
        lemma_join_push(a + b.drop_last(), sep, b.last());
        assert(join(b, sep) == join(b.drop_last(), sep) + sep + b.last());
        assert(join(a, sep) + sep + join(b.drop_last(), sep) + sep + b.last() =~= join(a, sep) + sep
            + (join(b.drop_last(), sep) + sep + b.last()));
    }
}

/// The documentation lines are those of each present text in turn, each prefixed with
/// `--- `; there are as many as the present texts have lines, one more than their newlines
/// each.
pub proof fn lemma_docs_flattened(docs: Seq<Option<Seq<char>>>)
    ensures
        docs_lines(docs) == docs.map_values(|d: Option<Seq<char>>| doc_piece(d)).flatten(),
        docs_lines(docs).len() == doc_line_count(docs),
    decreases docs.len(),
{
    let pieces = docs.map_values(|d: Option<Seq<char>>| doc_piece(d));
    pieces.lemma_flatten_and_flatten_alt_are_equivalent();
    if docs.len() > 0 {
        lemma_docs_flattened(docs.drop_last());
        let init = docs.drop_last().map_values(|d: Option<Seq<char>>| doc_piece(d));
        assert(pieces.drop_last() =~= init);
        init.lemma_flatten_and_flatten_alt_are_equivalent();
        assert(pieces.flatten_alt() == init.flatten_alt() + pieces.last());
        if let Some(s) = docs.last() {
            lemma_line_count(s);
        }
    }
}

/// Every documentation line starts with `--- ` and holds no newline; with the prefixes
/// taken off and the lines joined with newlines, they give back the present texts joined
/// with newlines.
pub proof fn lemma_docs_roundtrip(docs: Seq<Option<Seq<char>>>)
    ensures
        forall|i: int| 0 <= i < docs_lines(docs).len() ==> (#[trigger] docs_lines(docs)[i]).take(4) == "--- "@,
        forall|i: int, j: int|
            0 <= i < docs_lines(docs).len() && 0 <= j < docs_lines(docs)[i].len() ==> #[trigger] docs_lines(
                docs,
            )[i][j] != '\n',
        join(docs_lines(docs).map_values(|l: Seq<char>| l.skip(4)), "\n"@) == join(present_texts(docs), "\n"@),
        docs_lines(docs).len() == 0 <==> present_texts(docs).len() == 0,
    decreases docs.len(),
{
    reveal_strlit("--- ");
    reveal_strlit("\n");
    if docs.len() > 0 {
        let init = docs.drop_last();
        lemma_docs_roundtrip(init);
        let l = docs_lines(init);
        match docs.last() {
            None => {
                assert(docs_lines(docs) =~= l);
            },
            Some(s) => {
                lemma_lines_roundtrip(s);
                let c = comment_lines(s);
                assert(docs_lines(docs) == l + c);
                let all = l + c;
                assert forall|i: int| 0 <= i < all.len() implies (#[trigger] all[i]).take(4) == "--- "@ by {
                    if i >= l.len() {
                        assert(all[i] == "--- "@ + lines_of(s)[i - l.len()]);
                        assert(all[i].take(4) =~= "--- "@);
                    }
                }
                assert forall|i: int, j: int| 0 <= i < all.len() && 0 <= j < all[i].len() implies #[trigger] all[i][j]
                    != '\n' by {
                    if i >= l.len() {
                        let line = lines_of(s)[i - l.len()];
                        assert(all[i] == "--- "@ + line);
                        if j >= 4 {
                            assert(all[i][j] == line[j - 4]);
                        }
                    } else {
                        assert(all[i] == l[i]);
                    }
                }
                let strip = |x: Seq<char>| x.skip(4);
                let sc = c.map_values(strip);
                assert(sc =~= lines_of(s)) by {
                    assert forall|i: int| 0 <= i < sc.len() implies sc[i] == lines_of(s)[i] by {
                        assert(c[i] == "--- "@ + lines_of(s)[i]);
                        assert(c[i].skip(4) =~= lines_of(s)[i]);
                    }
                }
                assert(all.map_values(strip) =~= l.map_values(strip) + sc);
                assert(present_texts(docs) == present_texts(init).push(s));
                if l.len() == 0 {
                    assert(l.map_values(strip) + sc =~= sc);
                    assert(present_texts(docs) =~= seq![s]);
                } else {
                    lemma_join_concat(l.map_values(strip), sc, "\n"@);
                    lemma_join_push(present_texts(init), "\n"@, s);
                }
            },
        }
    }
}

/// No documentation is written when no text is present.
pub proof fn lemma_no_docs(docs: Seq<Option<Seq<char>>>)
    requires
        forall|i: int| 0 <= i < docs.len() ==> #[trigger] docs[i] is None,
    ensures
        accumulated(docs) is None,
{
}

/// The `--- @param` line of the `i`-th parameter, once its type signature is known.
pub open spec fn param_line(p: Param, i: int) -> Seq<char> {
    "--- @param "@ + param_name(p, i) + " "@ + type_sig(p.ty)->Ok_0 + " "@ + doc_text(p.doc)
}

/// The `--- @return` line of a returned value, once its type signature is known.
pub open spec fn return_line(r: Return) -> Seq<char> {
    "--- @return "@ + type_sig(r.ty)->Ok_0 + " "@ + doc_text(r.doc)
}

proof fn lemma_param_lines(ps: Seq<Param>, i: nat)
    requires
        i <= ps.len(),
    ensures
        param_lines(ps, i) is Ok <==> forall|k: int| i <= k < ps.len() ==> #[trigger] type_sig(ps[k].ty) is Ok,
        param_lines(ps, i) matches Ok(ls) ==> ls.len() == ps.len() - i && forall|k: int|
            i <= k < ps.len() ==> ls[k - i] == #[trigger] param_line(ps[k], k),
        forall|k: int|
            i <= k < ps.len() && type_sig(ps[k].ty) is Err && (forall|j: int|
                i <= j < k ==> #[trigger] type_sig(ps[j].ty) is Ok) ==> param_lines(ps, i)
                == Err::<Seq<Seq<char>>, DefinitionError>(#[trigger] type_sig(ps[k].ty)->Err_0),
    decreases ps.len() - i,
{
    if i < ps.len() {
        lemma_param_lines(ps, i + 1);
        if param_lines(ps, i) is Ok {
            assert(type_sig(ps[i as int].ty) is Ok);
            assert(param_lines(ps, i + 1) is Ok);
            assert forall|k: int| i <= k < ps.len() implies #[trigger] type_sig(ps[k].ty) is Ok by {
                if k > i {
                    assert(i + 1 <= k);
                }
            }
            let ls = param_lines(ps, i)->Ok_0;
            let rest = param_lines(ps, i + 1)->Ok_0;
            assert(ls == seq![param_line(ps[i as int], i as int)] + rest);
            assert forall|k: int| i <= k < ps.len() implies ls[k - i] == #[trigger] param_line(ps[k], k) by {
                if k > i {
                    assert(ls[k - i] == rest[k - (i + 1)]);
                }
            }
        }
        assert forall|k: int|
            i <= k < ps.len() && type_sig(ps[k].ty) is Err && (forall|j: int|
                i <= j < k ==> #[trigger] type_sig(ps[j].ty) is Ok) implies param_lines(ps, i)
            == Err::<Seq<Seq<char>>, DefinitionError>(#[trigger] type_sig(ps[k].ty)->Err_0) by {
            if k > i {
                assert(type_sig(ps[i as int].ty) is Ok);
            }
        }
    }
}

proof fn lemma_return_lines(rs: Seq<Return>, i: nat)
    requires
        i <= rs.len(),
    ensures
        return_lines(rs, i) is Ok <==> forall|k: int| i <= k < rs.len() ==> #[trigger] type_sig(rs[k].ty) is Ok,
        return_lines(rs, i) matches Ok(ls) ==> ls.len() == rs.len() - i && forall|k: int|
            i <= k < rs.len() ==> ls[k - i] == #[trigger] return_line(rs[k]),
        forall|k: int|
            i <= k < rs.len() && type_sig(rs[k].ty) is Err && (forall|j: int|
                i <= j < k ==> #[trigger] type_sig(rs[j].ty) is Ok) ==> return_lines(rs, i)
                == Err::<Seq<Seq<char>>, DefinitionError>(#[trigger] type_sig(rs[k].ty)->Err_0),
    decreases rs.len() - i,
{
    if i < rs.len() {
        lemma_return_lines(rs, i + 1);
        if return_lines(rs, i) is Ok {
            assert(type_sig(rs[i as int].ty) is Ok);
            let ls = return_lines(rs, i)->Ok_0;
            let rest = return_lines(rs, i + 1)->Ok_0;
            assert(ls == seq![return_line(rs[i as int])] + rest);
            assert forall|k: int| i <= k < rs.len() implies ls[k - i] == #[trigger] return_line(rs[k]) by {
                if k > i {
                    assert(ls[k - i] == rest[k - (i + 1)]);
                }
            }
        }
        assert forall|k: int|
            i <= k < rs.len() && type_sig(rs[k].ty) is Err && (forall|j: int|
                i <= j < k ==> #[trigger] type_sig(rs[j].ty) is Ok) implies return_lines(rs, i)
            == Err::<Seq<Seq<char>>, DefinitionError>(#[trigger] type_sig(rs[k].ty)->Err_0) by {
            if k > i {
                assert(type_sig(rs[i as int].ty) is Ok);
            }
        }
    }
}

/// A function declaration has one `--- @param` line per parameter (an unnamed one is called
/// `param{i}`), one `--- @return` line per returned value and the header last; it can be
/// written exactly when every parameter and every returned value has a type signature.
/// Otherwise the error is that of the first type without one, parameters before returned
/// values.
pub proof fn lemma_function_signature_lines(
    name: Seq<char>,
    ps: Seq<Param>,
    rs: Seq<Return>,
    assign: bool,
)
    ensures
        function_sig(name, ps, rs, assign) is Ok <==> (forall|k: int|
            0 <= k < ps.len() ==> #[trigger] type_sig(ps[k].ty) is Ok) && (forall|k: int|
            0 <= k < rs.len() ==> #[trigger] type_sig(rs[k].ty) is Ok),
        function_sig(name, ps, rs, assign) matches Ok(ls) ==> {
            &&& ls.len() == ps.len() + rs.len() + 1
            &&& forall|k: int| 0 <= k < ps.len() ==> ls[k] == #[trigger] param_line(ps[k], k)
            &&& forall|k: int| 0 <= k < rs.len() ==> ls[ps.len() + k] == #[trigger] return_line(rs[k])
            &&& ls.last() == header(name, ps, assign, false)
        },
        forall|k: int|
            0 <= k < ps.len() && type_sig(ps[k].ty) is Err && (forall|j: int|
                0 <= j < k ==> #[trigger] type_sig(ps[j].ty) is Ok) ==> function_sig(name, ps, rs, assign)
                == Err::<Seq<Seq<char>>, DefinitionError>(#[trigger] type_sig(ps[k].ty)->Err_0),
        forall|k: int|
            0 <= k < rs.len() && type_sig(rs[k].ty) is Err && (forall|j: int|
                0 <= j < ps.len() ==> #[trigger] type_sig(ps[j].ty) is Ok) && (forall|j: int|
                0 <= j < k ==> #[trigger] type_sig(rs[j].ty) is Ok) ==> function_sig(name, ps, rs, assign)
                == Err::<Seq<Seq<char>>, DefinitionError>(#[trigger] type_sig(rs[k].ty)->Err_0),
{
    lemma_param_lines(ps, 0);
    lemma_return_lines(rs, 0);
    if function_sig(name, ps, rs, assign) is Ok {
        let pl = param_lines(ps, 0)->Ok_0;
        let rl = return_lines(rs, 0)->Ok_0;
        let ls = function_sig(name, ps, rs, assign)->Ok_0;
        assert(ls == (pl + rl).push(header(name, ps, assign, false)));
        assert forall|k: int| 0 <= k < ps.len() implies ls[k] == #[trigger] param_line(ps[k], k) by {
            assert(pl[k - 0] == param_line(ps[k], k));
        }
        assert forall|k: int| 0 <= k < rs.len() implies ls[ps.len() + k] == #[trigger] return_line(rs[k]) by {
            assert(rl[k - 0] == return_line(rs[k]));
        }
    }
    assert forall|k: int|
        0 <= k < rs.len() && type_sig(rs[k].ty) is Err && (forall|j: int|
            0 <= j < ps.len() ==> #[trigger] type_sig(ps[j].ty) is Ok) && (forall|j: int|
            0 <= j < k ==> #[trigger] type_sig(rs[j].ty) is Ok) implies function_sig(name, ps, rs, assign)
        == Err::<Seq<Seq<char>>, DefinitionError>(#[trigger] type_sig(rs[k].ty)->Err_0) by {
        assert(param_lines(ps, 0) is Ok);
    }
}

/// A method declaration has the `self` annotation first, then one line per parameter and
/// per returned value, and the header last.
pub proof fn lemma_method_signature_lines(
    name: Seq<char>,
    class: Seq<char>,
    ps: Seq<Param>,
    rs: Seq<Return>,
    assign: bool,
)
    ensures
        method_sig(name, class, ps, rs, assign) is Ok <==> function_sig(name, ps, rs, assign) is Ok,
        method_sig(name, class, ps, rs, assign) matches Ok(ls) ==> ls.len() == ps.len() + rs.len() + 2
            && ls[0] == "--- @param self "@ + class && ls.last() == header(name, ps, assign, true),
{
    lemma_param_lines(ps, 0);
    lemma_return_lines(rs, 0);
}

/// Every definition file starts with the `--- @meta` line and an empty line, even when
/// rendering stops early.
pub proof fn lemma_file_header(d: Definition)
    ensures
        definition_text(d).0.len() >= 11,
        definition_text(d).0.subrange(0, 11) == "--- @meta\n\n"@,
{
    reveal_strlit("--- @meta\n\n");
    let t = definition_text(d).0;
    assert(t.subrange(0, 11) =~= "--- @meta\n\n"@);
}

proof fn lemma_entries_outcome(es: Seq<DefinitionEntry>, i: nat)
    requires
        i <= es.len(),
    ensures
        entries_text(es, i).1 is None <==> forall|k: int| i <= k < es.len() ==> #[trigger] entry_text(es[k]).1 is None,
        forall|k: int|
            i <= k < es.len() && entry_text(es[k]).1 is Some && (forall|j: int|
                i <= j < k ==> #[trigger] entry_text(es[j]).1 is None) ==> entries_text(es, i).1
                == #[trigger] entry_text(es[k]).1,
    decreases es.len() - i,
{
    if i < es.len() {
        lemma_entries_outcome(es, i + 1);
        assert forall|k: int|
            i <= k < es.len() && entry_text(es[k]).1 is Some && (forall|j: int|
                i <= j < k ==> #[trigger] entry_text(es[j]).1 is None) implies entries_text(es, i).1
            == #[trigger] entry_text(es[k]).1 by {
            if k > i {
                assert(entry_text(es[i as int]).1 is None);
            }
        }
    }
}

/// A definition file is written to the end exactly when every entry can be written; when
/// one cannot, writing stops with the error of the first entry that cannot.
pub proof fn lemma_file_outcome(d: Definition)
    ensures
        definition_text(d).1 is None <==> forall|k: int|
            0 <= k < d.entries@.len() ==> #[trigger] entry_text(d.entries@[k]).1 is None,
        forall|k: int|
            0 <= k < d.entries@.len() && entry_text(d.entries@[k]).1 is Some && (forall|j: int|
                0 <= j < k ==> #[trigger] entry_text(d.entries@[j]).1 is None) ==> definition_text(d).1
                == #[trigger] entry_text(d.entries@[k]).1,
{
    lemma_entries_outcome(d.entries@, 0);
}

/// An exposed value is written as `name = nil` with a `--- @type` annotation of its type
/// above it (after its documentation).
pub proof fn lemma_value_entry(name: String, doc: Option<String>, ty: Type)
    requires
        type_sig(ty) is Ok,
    ensures
        value_text(name@, doc, ty) == emit(
            doc_block(doc, Seq::empty(), Seq::empty()) + ("--- @type "@ + type_sig(ty)->Ok_0
                + "\n"@) + (name@ + " = nil\n"@),
        ),
{
    reveal(value_text);
    let s = type_sig(ty)->Ok_0;
    assert("--- @type "@ + s + Seq::<char>::empty() =~= "--- @type "@ + s);
    assert(doc_block(doc, Seq::empty(), Seq::empty()) + (("--- @type "@ + s + Seq::<char>::empty()
        + "\n"@) + (name@ + " = nil\n"@)) =~= doc_block(doc, Seq::empty(), Seq::empty()) + (
    "--- @type "@ + s + "\n"@) + (name@ + " = nil\n"@));
}

/// The kinds of type that have no type signature: values, aliases, classes and modules.
pub open spec fn without_signature(k: TypeKind) -> bool {
    k == TypeKind::Value || k == TypeKind::Alias || k == TypeKind::Class || k == TypeKind::Module
}

/// The error met when a type signature cannot be written: it names a kind of type that has
/// no signature.
pub open spec fn signature_error(e: DefinitionError) -> bool {
    match e {
        DefinitionError::InvalidTypeSignature(k) => without_signature(k),
        DefinitionError::InvalidRootType(_) => false,
    }
}

/// Values, aliases, classes and modules have no type signature, and every other type has
/// one unless a value, an alias, a class or a module stands inside it: when a signature
/// cannot be written, the error names the kind of such a type.
pub proof fn lemma_signature_error(t: Type)
    ensures
        without_signature(kind_of(t)) ==> type_sig(t) == Err::<Seq<char>, DefinitionError>(
            DefinitionError::InvalidTypeSignature(kind_of(t)),
        ),
        type_sig(t) matches Err(e) ==> signature_error(e),
    decreases t, 0int,
{
    match t {
        Type::Tuple(types) => lemma_tuple_items_error(types@, 0),
        Type::Variadic(inner) => lemma_signature_error(*inner),
        Type::Array(inner) => lemma_signature_error(*inner),
        Type::MapOf(key, value) => {
            lemma_signature_error(*key);
            lemma_signature_error(*value);
        },
        Type::Function { params, results } => lemma_return_sigs_error(results@, 0),
        Type::Union(types) => lemma_type_sigs_error(types@, 0),
        Type::Table(entries) => lemma_table_items_error(entries@, 0),
        _ => {},
    }
}

proof fn lemma_type_sigs_error(ts: Seq<Type>, i: nat)
    ensures
        type_sigs(ts, i) matches Err(e) ==> signature_error(e),
    decreases ts, ts.len() - i,
{
    if i < ts.len() {
        lemma_signature_error(ts[i as int]);
        lemma_type_sigs_error(ts, i + 1);
    }
}

proof fn lemma_tuple_items_error(ts: Seq<Type>, i: nat)
    ensures
        tuple_items(ts, i) matches Err(e) ==> signature_error(e),
    decreases ts, ts.len() - i,
{
    if i < ts.len() {
        lemma_signature_error(ts[i as int]);
        lemma_tuple_items_error(ts, i + 1);
    }
}

proof fn lemma_table_items_error(es: Seq<(String, Type)>, i: nat)
    ensures
        table_items(es, i) matches Err(e) ==> signature_error(e),
    decreases es, es.len() - i,
{
    if i < es.len() {
        lemma_signature_error(es[i as int].1);
        lemma_table_items_error(es, i + 1);
    }
}

proof fn lemma_return_sigs_error(rs: Seq<Return>, i: nat)
    ensures
        return_sigs(rs, i) matches Err(e) ==> signature_error(e),
    decreases rs, rs.len() - i,
{
    if i < rs.len() {
        lemma_signature_error(rs[i as int].ty);
        lemma_return_sigs_error(rs, i + 1);
    }
}

/// Whether a type signature can be written for `t`: no value, alias, class or module occurs
/// in it at any depth. The parameters of a function type count only by name, so their types
/// do not matter.
pub open spec fn has_signature(t: Type) -> bool
    decreases t,
{
    match t {
        Type::Single(_) => true,
        Type::Enum(_, _) => true,
        Type::Tuple(ts) => forall|k: int| 0 <= k < ts@.len() ==> has_signature(#[trigger] ts@[k]),
        Type::Union(ts) => forall|k: int| 0 <= k < ts@.len() ==> has_signature(#[trigger] ts@[k]),
        Type::Array(inner) => has_signature(*inner),
        Type::Variadic(inner) => has_signature(*inner),
        Type::MapOf(key, value) => has_signature(*key) && has_signature(*value),
        Type::Table(es) => forall|k: int| 0 <= k < es@.len() ==> has_signature(#[trigger] es@[k].1),
        Type::Function { params, results } => forall|k: int|
            0 <= k < results@.len() ==> has_signature(#[trigger] results@[k].ty),
        _ => false,
    }
}

/// A type signature is written exactly when no value, alias, class or module occurs in the
/// type (parameter types of function types aside).
pub proof fn lemma_signature_success(t: Type)
    ensures
        type_sig(t) is Ok <==> has_signature(t),
    decreases t, 0int,
{
    match t {
        Type::Tuple(types) => lemma_tuple_items_ok(types@, 0),
        Type::Variadic(inner) => lemma_signature_success(*inner),
        Type::Array(inner) => lemma_signature_success(*inner),
        Type::MapOf(key, value) => {
            lemma_signature_success(*key);
            lemma_signature_success(*value);
        },
        Type::Function { params, results } => lemma_return_sigs_ok(results@, 0),
        Type::Union(types) => lemma_type_sigs_ok(types@, 0),
        Type::Table(entries) => lemma_table_items_ok(entries@, 0),
        _ => {},
    }
}

proof fn lemma_type_sigs_ok(ts: Seq<Type>, i: nat)
    requires
        i <= ts.len(),
    ensures
        type_sigs(ts, i) is Ok <==> forall|k: int| i <= k < ts.len() ==> has_signature(#[trigger] ts[k]),
    decreases ts, ts.len() - i,
{
    if i < ts.len() {
        lemma_signature_success(ts[i as int]);
        lemma_type_sigs_ok(ts, i + 1);
        assert((forall|k: int| i <= k < ts.len() ==> has_signature(#[trigger] ts[k])) <==> (has_signature(ts[i as int])
            && forall|k: int| i + 1 <= k < ts.len() ==> has_signature(#[trigger] ts[k])));
    }
}

proof fn lemma_tuple_items_ok(ts: Seq<Type>, i: nat)
    requires
        i <= ts.len(),
    ensures
        tuple_items(ts, i) is Ok <==> forall|k: int| i <= k < ts.len() ==> has_signature(#[trigger] ts[k]),
    decreases ts, ts.len() - i,
{
    if i < ts.len() {
        lemma_signature_success(ts[i as int]);
        lemma_tuple_items_ok(ts, i + 1);
        assert((forall|k: int| i <= k < ts.len() ==> has_signature(#[trigger] ts[k])) <==> (has_signature(ts[i as int])
            && forall|k: int| i + 1 <= k < ts.len() ==> has_signature(#[trigger] ts[k])));
    }
}

proof fn lemma_table_items_ok(es: Seq<(String, Type)>, i: nat)
    requires
        i <= es.len(),
    ensures
        table_items(es, i) is Ok <==> forall|k: int| i <= k < es.len() ==> has_signature(#[trigger] es[k].1),
    decreases es, es.len() - i,
{
    if i < es.len() {
        lemma_signature_success(es[i as int].1);
        lemma_table_items_ok(es, i + 1);
        assert((forall|k: int| i <= k < es.len() ==> has_signature(#[trigger] es[k].1)) <==> (has_signature(es[i as int].1)
            && forall|k: int| i + 1 <= k < es.len() ==> has_signature(#[trigger] es[k].1)));
    }
}

proof fn lemma_return_sigs_ok(rs: Seq<Return>, i: nat)
    requires
        i <= rs.len(),
    ensures
        return_sigs(rs, i) is Ok <==> forall|k: int| i <= k < rs.len() ==> has_signature(#[trigger] rs[k].ty),
    decreases rs, rs.len() - i,
{
    if i < rs.len() {
        lemma_signature_success(rs[i as int].ty);
        lemma_return_sigs_ok(rs, i + 1);
        assert((forall|k: int| i <= k < rs.len() ==> has_signature(#[trigger] rs[k].ty)) <==> (has_signature(rs[i as int].ty)
            && forall|k: int| i + 1 <= k < rs.len() ==> has_signature(#[trigger] rs[k].ty)));
    }
}

/// The value of a decimal digit character, or -1 for any other character.
pub open spec fn digit_value(c: char) -> int {
    if '0' <= c && c <= '9' {
        c as int - '0' as int
    } else {
        -1
    }
}

/// The number that a string of decimal digits denotes.
pub open spec fn decimal_value(s: Seq<char>) -> int
    decreases s.len(),
{
    if s.len() == 0 {
        0
    } else {
        decimal_value(s.drop_last()) * 10 + digit_value(s.last())
    }
}

/// Indices are printed in decimal: only digits, no leading zero, and reading the digits
/// back gives the number.
pub proof fn lemma_decimal_roundtrip(n: nat)
    ensures
        decimal_value(decimal(n)) == n,
        decimal(n).len() >= 1,
        forall|i: int| 0 <= i < decimal(n).len() ==> 0 <= #[trigger] digit_value(decimal(n)[i]) <= 9,
        n > 0 ==> decimal(n)[0] != '0',
    decreases n,
{
    if n < 10 {
        assert(digit_value(digit(n as int)) == n);
        assert(decimal(n) =~= seq![digit(n as int)]);
        assert(decimal(n).drop_last() =~= Seq::<char>::empty());
        assert(decimal_value(Seq::<char>::empty()) == 0);
        assert(decimal(n).last() == digit(n as int));
        assert(decimal_value(decimal(n)) == decimal_value(decimal(n).drop_last()) * 10 + digit_value(decimal(n).last()));
    } else {
        let q = n / 10;
        let r = n % 10;
        lemma_decimal_roundtrip(q);
        let d = decimal(q);
        assert(decimal(n) == d.push(digit(r as int)));
        assert(decimal(n).drop_last() =~= d);
        assert(digit_value(digit(r as int)) == r);
        assert(q * 10 + r == n) by (nonlinear_arith)
            requires
                q == n / 10,
                r == n % 10,
        ;
        assert forall|i: int| 0 <= i < decimal(n).len() implies 0 <= #[trigger] digit_value(decimal(n)[i]) <= 9 by {
            if i < d.len() {
                assert(decimal(n)[i] == d[i]);
            }
        }
        assert(q > 0) by (nonlinear_arith)
            requires
                q == n / 10,
                n >= 10,
        ;
        assert(decimal(n)[0] == d[0]);
        assert(decimal(n).last() == digit(r as int));
        assert(decimal_value(decimal(n)) == decimal_value(d) * 10 + digit_value(digit(r as int)));
    }
}

/// A key is written as it is exactly when it needs no escaping.
pub proof fn lemma_escape_key(key: Seq<char>)
    ensures
        escaped_key(key) == key <==> !spec_needs_escape(key),
{
    reveal_strlit("[\"");
    reveal_strlit("\"]");
    if spec_needs_escape(key) {
        assert(escaped_key(key).len() == key.len() + 4);
    }
}

} // verus!
