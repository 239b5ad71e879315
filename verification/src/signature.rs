//! Type signatures and function signatures in the annotation syntax of the Lua language server.
use vstd::prelude::*;

use crate::error::DefinitionError;
use crate::text::{decimal, decimal_string, join, join_strings};
use crate::type_file::DefinitionWriter;
use crate::typed::{kind_of, Param, Return, Type};

verus! {

/// The text held by a rendering result.
pub open spec fn result_text(r: Result<String, DefinitionError>) -> Result<Seq<char>, DefinitionError> {
    match r {
        Ok(s) => Ok(s@),
        Err(e) => Err(e),
    }
}

/// The lines held by a rendering result.
pub open spec fn result_lines(r: Result<Vec<String>, DefinitionError>) -> Result<
    Seq<Seq<char>>,
    DefinitionError,
> {
    match r {
        Ok(v) => Ok(v.deep_view()),
        Err(e) => Err(e),
    }
}

/// `prefix` followed by the lines of `r`, or the error of `r`.
pub open spec fn after(prefix: Seq<Seq<char>>, r: Result<Seq<Seq<char>>, DefinitionError>) -> Result<
    Seq<Seq<char>>,
    DefinitionError,
> {
    match r {
        Ok(rest) => Ok(prefix + rest),
        Err(e) => Err(e),
    }
}

/// The name under which the `i`-th parameter is written: its own, or `param{i}`.
pub open spec fn param_name(p: Param, i: int) -> Seq<char> {
    match p.name {
        Some(n) => n@,
        None => "param"@ + decimal(i as nat),
    }
}

/// The names of all parameters, in order.
pub open spec fn param_names(ps: Seq<Param>) -> Seq<Seq<char>> {
    Seq::new(ps.len(), |i: int| param_name(ps[i], i))
}

/// A documentation text, empty when there is none.
pub open spec fn doc_text(d: Option<String>) -> Seq<char> {
    match d {
        Some(s) => s@,
        None => Seq::empty(),
    }
}

/// The type signature of `t`: how the language server writes the type.
/// Values, aliases, classes and modules have none.
pub open spec fn type_sig(t: Type) -> Result<Seq<char>, DefinitionError>
    decreases t, 0int,
{
    match t {
        Type::Enum(name, _) => Ok(name@),
        Type::Single(value) => Ok(value@),
        Type::Tuple(types) => match tuple_items(types@, 0) {
            Ok(items) => Ok("{ "@ + join(items, ", "@) + " }"@),
            Err(e) => Err(e),
        },
        Type::Variadic(inner) => match type_sig(*inner) {
            Ok(s) => Ok("..."@ + s),
            Err(e) => Err(e),
        },
        Type::Array(inner) => match type_sig(*inner) {
            Ok(s) => Ok("{ [integer]: "@ + s + " }"@),
            Err(e) => Err(e),
        },
        Type::MapOf(key, value) => match type_sig(*key) {
            Ok(k) => match type_sig(*value) {
                Ok(v) => Ok("{ ["@ + k + "]: "@ + v + " }"@),
                Err(e) => Err(e),
            },
            Err(e) => Err(e),
        },
        Type::Function { params, results } => match return_sigs(results@, 0) {
            Ok(rs) => Ok(
                "fun("@ + join(param_names(params@), ", "@) + ")"@ + if results@.len() == 0 {
                    Seq::empty()
                } else {
                    ": "@ + join(rs, ", "@)
                },
            ),
            Err(e) => Err(e),
        },
        Type::Union(types) => match type_sigs(types@, 0) {
            Ok(sigs) => Ok(join(sigs, " | "@)),
            Err(e) => Err(e),
        },
        Type::Table(entries) => match table_items(entries@, 0) {
            Ok(items) => Ok("{ "@ + join(items, ", "@) + " }"@),
            Err(e) => Err(e),
        },
        _ => Err(DefinitionError::InvalidTypeSignature(kind_of(t))),
    }
}

/// The signatures of `ts[i..]`, or the first error among them.
pub open spec fn type_sigs(ts: Seq<Type>, i: nat) -> Result<Seq<Seq<char>>, DefinitionError>
    decreases ts, ts.len() - i,
{
    if i >= ts.len() {
        Ok(Seq::empty())
    } else {
        match type_sig(ts[i as int]) {
            Ok(s) => after(seq![s], type_sigs(ts, i + 1)),
            Err(e) => Err(e),
        }
    }
}

/// The entries `[k]: signature` of a tuple, counted from 1, from `ts[i]` on.
pub open spec fn tuple_items(ts: Seq<Type>, i: nat) -> Result<Seq<Seq<char>>, DefinitionError>
    decreases ts, ts.len() - i,
{
    if i >= ts.len() {
        Ok(Seq::empty())
    } else {
        match type_sig(ts[i as int]) {
            Ok(s) => after(seq!["["@ + decimal(i + 1) + "]: "@ + s], tuple_items(ts, i + 1)),
            Err(e) => Err(e),
        }
    }
}

/// The entries `key: signature` of a table, from `es[i]` on.
pub open spec fn table_items(es: Seq<(String, Type)>, i: nat) -> Result<
    Seq<Seq<char>>,
    DefinitionError,
>
    decreases es, es.len() - i,
{
    if i >= es.len() {
        Ok(Seq::empty())
    } else {
        match type_sig(es[i as int].1) {
            Ok(s) => after(seq![es[i as int].0@ + ": "@ + s], table_items(es, i + 1)),
            Err(e) => Err(e),
        }
    }
}

/// The signatures of the returned types `rs[i..]`.
pub open spec fn return_sigs(rs: Seq<Return>, i: nat) -> Result<Seq<Seq<char>>, DefinitionError>
    decreases rs, rs.len() - i,
{
    if i >= rs.len() {
        Ok(Seq::empty())
    } else {
        match type_sig(rs[i as int].ty) {
            Ok(s) => after(seq![s], return_sigs(rs, i + 1)),
            Err(e) => Err(e),
        }
    }
}

/// The `--- @param` annotations of `ps[i..]`.
pub open spec fn param_lines(ps: Seq<Param>, i: nat) -> Result<Seq<Seq<char>>, DefinitionError>
    decreases ps.len() - i,
{
    if i >= ps.len() {
        Ok(Seq::empty())
    } else {
        match type_sig(ps[i as int].ty) {
            Ok(s) => after(
                seq![
                    "--- @param "@ + param_name(ps[i as int], i as int) + " "@ + s + " "@ + doc_text(
                        ps[i as int].doc,
                    ),
                ],
                param_lines(ps, i + 1),
            ),
            Err(e) => Err(e),
        }
    }
}

/// The `--- @return` annotations of `rs[i..]`.
pub open spec fn return_lines(rs: Seq<Return>, i: nat) -> Result<Seq<Seq<char>>, DefinitionError>
    decreases rs.len() - i,
{
    if i >= rs.len() {
        Ok(Seq::empty())
    } else {
        match type_sig(rs[i as int].ty) {
            Ok(s) => after(
                seq!["--- @return "@ + s + " "@ + doc_text(rs[i as int].doc)],
                return_lines(rs, i + 1),
            ),
            Err(e) => Err(e),
        }
    }
}

/// The annotations of all parameters and then of all returned values.
pub open spec fn annotation_lines(ps: Seq<Param>, rs: Seq<Return>) -> Result<
    Seq<Seq<char>>,
    DefinitionError,
> {
    match param_lines(ps, 0) {
        Ok(pl) => after(pl, return_lines(rs, 0)),
        Err(e) => Err(e),
    }
}

/// The line that declares the function: `name = function(a, b) end` when assigned,
/// `function name(a, b) end` otherwise; a method takes `self` first.
pub open spec fn header(name: Seq<char>, ps: Seq<Param>, assign: bool, method: bool) -> Seq<char> {
    (if assign {
        name + " = "@
    } else {
        Seq::empty()
    }) + "function"@ + (if assign {
        Seq::empty()
    } else {
        " "@ + name
    }) + "("@ + (if !method {
        Seq::empty()
    } else if ps.len() == 0 {
        "self"@
    } else {
        "self, "@
    }) + join(param_names(ps), ", "@) + ") end"@
}

/// The lines that declare a function: its annotations, then its header.
pub open spec fn function_sig(name: Seq<char>, ps: Seq<Param>, rs: Seq<Return>, assign: bool) -> Result<
    Seq<Seq<char>>,
    DefinitionError,
> {
    match annotation_lines(ps, rs) {
        Ok(ls) => Ok(ls.push(header(name, ps, assign, false))),
        Err(e) => Err(e),
    }
}

/// The lines that declare a method of `class`: the annotation of `self`, those of
/// the parameters and returned values, then its header.
pub open spec fn method_sig(
    name: Seq<char>,
    class: Seq<char>,
    ps: Seq<Param>,
    rs: Seq<Return>,
    assign: bool,
) -> Result<Seq<Seq<char>>, DefinitionError> {
    match annotation_lines(ps, rs) {
        Ok(ls) => Ok(
            (seq!["--- @param self "@ + class] + ls).push(header(name, ps, assign, true)),
        ),
        Err(e) => Err(e),
    }
}

fn concat3(a: &str, b: &str, c: &str) -> (r: String)
    ensures
        r@ == a@ + b@ + c@,
{
    let mut r = String::from_str(a);
    r.append(b);
    r.append(c);
    r
}

fn param_name_string(p: &Param, i: usize) -> (r: String)
    ensures
        r@ == param_name(*p, i as int),
{
    match &p.name {
        Some(n) => n.clone(),
        None => {
            let mut s = String::from_str("param");
            s.append(decimal_string(i).as_str());
            s
        },
    }
}

fn param_names_vec(ps: &Vec<Param>) -> (r: Vec<String>)
    ensures
        r.deep_view() == param_names(ps@),
{
    let mut r: Vec<String> = Vec::new();
    let mut i: usize = 0;
    while i < ps.len()
        invariant
            i <= ps.len(),
            r.deep_view() =~= param_names(ps@).take(i as int),
        decreases ps.len() - i,
    {
        let ghost before = r.deep_view();
        let name = param_name_string(&ps[i], i);
        r.push(name);
        proof {
            assert(r.deep_view() =~= before.push(name@));
        }
        i = i + 1;
    }
    proof {
        assert(param_names(ps@).take(ps.len() as int) =~= param_names(ps@));
    }
    r
}

fn doc_string(d: &Option<String>) -> (r: String)
    ensures
        r@ == doc_text(*d),
{
    match d {
        Some(s) => s.clone(),
        None => String::new(),
    }
}

impl DefinitionWriter<'_> {
    /// The type signature of `ty`, as the language server writes it.
    pub fn type_signature(ty: &Type) -> (r: Result<String, DefinitionError>)
        ensures
            result_text(r) == type_sig(*ty),
        decreases ty,
    {
        match ty {
            Type::Enum(name, _) => Ok(name.clone()),
            Type::Single(value) => Ok(value.clone()),
            Type::Tuple(types) => {
                let mut items: Vec<String> = Vec::new();
                let mut i: usize = 0;
                while i < types.len()
                    invariant
                        *ty == Type::Tuple(*types),
                        i <= types.len(),
                        tuple_items(types@, 0) == after(items.deep_view(), tuple_items(types@, i as nat)),
                    decreases types.len() - i,
                {
                    let s = match Self::type_signature(&types[i]) {
                        Ok(s) => s,
                        Err(e) => return Err(e),
                    };
                    let n = decimal_string(i + 1);
                    let mut item = concat3("[", n.as_str(), "]: ");
                    item.append(s.as_str());
                    let ghost before = items.deep_view();
                    items.push(item);
                    proof {
                        assert(items.deep_view() =~= before + seq![item@]);
                        let rest = tuple_items(types@, (i + 1) as nat);
                        if let Ok(r) = rest {
                            assert(before + (seq![item@] + r) =~= before + seq![item@] + r);
                        }
                    }
                    i = i + 1;
                }
                let r = concat3("{ ", join_strings(&items, ", ").as_str(), " }");
                proof {
                    assert(items.deep_view() + Seq::<Seq<char>>::empty() =~= items.deep_view());
                }
                Ok(r)
            },
            Type::Variadic(inner) => match Self::type_signature(inner) {
                Ok(s) => {
                    let mut r = String::from_str("...");
                    r.append(s.as_str());
                    Ok(r)
                },
                Err(e) => Err(e),
            },
            Type::Array(inner) => match Self::type_signature(inner) {
                Ok(s) => Ok(concat3("{ [integer]: ", s.as_str(), " }")),
                Err(e) => Err(e),
            },
            Type::MapOf(key, value) => match Self::type_signature(key) {
                Ok(k) => match Self::type_signature(value) {
                    Ok(v) => {
                        let mut r = concat3("{ [", k.as_str(), "]: ");
                        r.append(v.as_str());
                        r.append(" }");
                        proof {
                            assert(r@ =~= "{ ["@ + k@ + "]: "@ + v@ + " }"@);
                        }
                        Ok(r)
                    },
                    Err(e) => Err(e),
                },
                Err(e) => Err(e),
            },
            Type::Function { params, results } => {
                let mut sigs: Vec<String> = Vec::new();
                let mut i: usize = 0;
                while i < results.len()
                    invariant
                        *ty == (Type::Function { params: *params, results: *results }),
                        i <= results.len(),
                        return_sigs(results@, 0) == after(sigs.deep_view(), return_sigs(results@, i as nat)),
                    decreases results.len() - i,
                {
                    let s = match Self::type_signature(&results[i].ty) {
                        Ok(s) => s,
                        Err(e) => return Err(e),
                    };
                    let ghost before = sigs.deep_view();
                    sigs.push(s);
                    proof {
                        assert(sigs.deep_view() =~= before + seq![s@]);
                        let rest = return_sigs(results@, (i + 1) as nat);
                        if let Ok(r) = rest {
                            assert(before + (seq![s@] + r) =~= before + seq![s@] + r);
                        }
                    }
                    i = i + 1;
                }
                let names = param_names_vec(params);
                let mut r = concat3("fun(", join_strings(&names, ", ").as_str(), ")");
                let ghost head = r@;
                if results.len() != 0 {
                    r.append(": ");
                    let joined = join_strings(&sigs, ", ");
                    r.append(joined.as_str());
                    proof {
                        assert(r@ =~= head + (": "@ + joined@));
                    }
                } else {
                    proof {
                        assert(r@ =~= head + Seq::<char>::empty());
                    }
                }
                proof {
                    assert(sigs.deep_view() + Seq::<Seq<char>>::empty() =~= sigs.deep_view());
                }
                Ok(r)
            },
            Type::Union(types) => {
                let mut sigs: Vec<String> = Vec::new();
                let mut i: usize = 0;
                while i < types.len()
                    invariant
                        *ty == Type::Union(*types),
                        i <= types.len(),
                        type_sigs(types@, 0) == after(sigs.deep_view(), type_sigs(types@, i as nat)),
                    decreases types.len() - i,
                {
                    let s = match Self::type_signature(&types[i]) {
                        Ok(s) => s,
                        Err(e) => return Err(e),
                    };
                    let ghost before = sigs.deep_view();
                    sigs.push(s);
                    proof {
                        assert(sigs.deep_view() =~= before + seq![s@]);
                        let rest = type_sigs(types@, (i + 1) as nat);
                        if let Ok(r) = rest {
                            assert(before + (seq![s@] + r) =~= before + seq![s@] + r);
                        }
                    }
                    i = i + 1;
                }
                proof {
                    assert(sigs.deep_view() + Seq::<Seq<char>>::empty() =~= sigs.deep_view());
                }
                Ok(join_strings(&sigs, " | "))
            },
            Type::Table(entries) => {
                let mut items: Vec<String> = Vec::new();
                let mut i: usize = 0;
                while i < entries.len()
                    invariant
                        *ty == Type::Table(*entries),
                        i <= entries.len(),
                        table_items(entries@, 0) == after(items.deep_view(), table_items(entries@, i as nat)),
                    decreases entries.len() - i,
                {
                    let s = match Self::type_signature(&entries[i].1) {
                        Ok(s) => s,
                        Err(e) => return Err(e),
                    };
                    let item = concat3(entries[i].0.as_str(), ": ", s.as_str());
                    let ghost before = items.deep_view();
                    items.push(item);
                    proof {
                        assert(items.deep_view() =~= before + seq![item@]);
                        let rest = table_items(entries@, (i + 1) as nat);
                        if let Ok(r) = rest {
                            assert(before + (seq![item@] + r) =~= before + seq![item@] + r);
                        }
                    }
                    i = i + 1;
                }
                proof {
                    assert(items.deep_view() + Seq::<Seq<char>>::empty() =~= items.deep_view());
                }
                Ok(concat3("{ ", join_strings(&items, ", ").as_str(), " }"))
            },
            _ => Err(DefinitionError::InvalidTypeSignature(ty.kind())),
        }
    }
}


fn header_line(name: &str, params: &Vec<Param>, assign: bool, method: bool) -> (r: String)
    ensures
        r@ == header(name@, params@, assign, method),
{
    let mut r = String::new();
    if assign {
        r.append(name);
        r.append(" = ");
    }
    let ghost a = r@;
    r.append("function");
    if !assign {
        r.append(" ");
        r.append(name);
    }
    let ghost b = r@;
    r.append("(");
    if method {
        if params.len() == 0 {
            r.append("self");
        } else {
            r.append("self, ");
        }
    }
    let ghost c = r@;
    let names = param_names_vec(params);
    r.append(join_strings(&names, ", ").as_str());
    r.append(") end");
    proof {
        let sa = if assign { name@ + " = "@ } else { Seq::empty() };
        let sb = if assign { Seq::empty() } else { " "@ + name@ };
        let sc = if !method { Seq::empty() } else if params@.len() == 0 { "self"@ } else { "self, "@ };
        assert(a =~= sa);
        assert(b =~= sa + "function"@ + sb);
        assert(c =~= sa + "function"@ + sb + "("@ + sc);
    }
    r
}

impl DefinitionWriter<'_> {
    /// Appends to `lines` the annotations of the parameters and then of the returned values.
    fn annotations(params: &Vec<Param>, results: &Vec<Return>, lines: &mut Vec<String>) -> (r: Result<
        (),
        DefinitionError,
    >)
        ensures
            match annotation_lines(params@, results@) {
                Ok(ls) => r is Ok && final(lines).deep_view() == old(lines).deep_view() + ls,
                Err(e) => r == Err::<(), DefinitionError>(e),
            },
    {
        let ghost start = lines.deep_view();
        let mut i: usize = 0;
        proof {
            assert(start + Seq::<Seq<char>>::empty() =~= start);
        }
        while i < params.len()
            invariant
                i <= params.len(),
                after(start, param_lines(params@, 0)) == after(
                    lines.deep_view(),
                    param_lines(params@, i as nat),
                ),
            decreases params.len() - i,
        {
            let p = &params[i];
            let s = match Self::type_signature(&p.ty) {
                Ok(s) => s,
                Err(e) => return Err(e),
            };
            let name = param_name_string(p, i);
            let mut line = concat3("--- @param ", name.as_str(), " ");
            line.append(s.as_str());
            line.append(" ");
            line.append(doc_string(&p.doc).as_str());
            let ghost before = lines.deep_view();
            lines.push(line);
            proof {
                assert(lines.deep_view() =~= before + seq![line@]);
                if let Ok(rest) = param_lines(params@, (i + 1) as nat) {
                    assert(before + (seq![line@] + rest) =~= before + seq![line@] + rest);
                }
            }
            i = i + 1;
        }
        let ghost mid = lines.deep_view();
        let mut j: usize = 0;
        proof {
            if let Ok(pl) = param_lines(params@, 0) {
                assert(mid =~= start + pl);
                if let Ok(rl) = return_lines(results@, 0) {
                    assert(start + (pl + rl) =~= mid + rl);
                }
            }
        }
        while j < results.len()
            invariant
                j <= results.len(),
                param_lines(params@, 0) is Ok,
                after(start, annotation_lines(params@, results@)) == after(
                    lines.deep_view(),
                    return_lines(results@, j as nat),
                ),
            decreases results.len() - j,
        {
            let rt = &results[j];
            let s = match Self::type_signature(&rt.ty) {
                Ok(s) => s,
                Err(e) => return Err(e),
            };
            let mut line = String::from_str("--- @return ");
            line.append(s.as_str());
            line.append(" ");
            line.append(doc_string(&rt.doc).as_str());
            let ghost before = lines.deep_view();
            lines.push(line);
            proof {
                assert(lines.deep_view() =~= before + seq![line@]);
                if let Ok(rest) = return_lines(results@, (j + 1) as nat) {
                    assert(before + (seq![line@] + rest) =~= before + seq![line@] + rest);
                }
            }
            j = j + 1;
        }
        proof {
            assert(lines.deep_view() + Seq::<Seq<char>>::empty() =~= lines.deep_view());
        }
        Ok(())
    }

    /// The lines that declare a function named `name`: one `--- @param` line per
    /// parameter, one `--- @return` line per returned value, then the header.
    pub fn function_signature(
        name: &str,
        params: &Vec<Param>,
        results: &Vec<Return>,
        assign: bool,
    ) -> (r: Result<Vec<String>, DefinitionError>)
        ensures
            result_lines(r) == function_sig(name@, params@, results@, assign),
    {
        let mut lines: Vec<String> = Vec::new();
        match Self::annotations(params, results, &mut lines) {
            Ok(()) => {},
            Err(e) => return Err(e),
        }
        let ghost before = lines.deep_view();
        let h = header_line(name, params, assign, false);
        lines.push(h);
        proof {
            assert(lines.deep_view() =~= before.push(h@));
            assert(Seq::<Seq<char>>::empty() + before =~= before);
        }
        Ok(lines)
    }

    /// The lines that declare a method named `name` of `class`: the `self` parameter,
    /// one `--- @param` line per parameter, one `--- @return` line per returned value,
    /// then the header.
    pub fn method_signature(
        name: &str,
        class: &str,
        params: &Vec<Param>,
        results: &Vec<Return>,
        assign: bool,
    ) -> (r: Result<Vec<String>, DefinitionError>)
        ensures
            result_lines(r) == method_sig(name@, class@, params@, results@, assign),
    {
        let mut lines: Vec<String> = Vec::new();
        let mut self_line = String::from_str("--- @param self ");
        self_line.append(class);
        lines.push(self_line);
        let ghost first = lines.deep_view();
        proof {
            assert(first =~= seq!["--- @param self "@ + class@]);
        }
        match Self::annotations(params, results, &mut lines) {
            Ok(()) => {},
            Err(e) => return Err(e),
        }
        let ghost before = lines.deep_view();
        let h = header_line(name, params, assign, true);
        lines.push(h);
        proof {
            assert(lines.deep_view() =~= before.push(h@));
        }
        Ok(lines)
    }

    /// The signatures of `types`, in order, or the first error among them.
    pub fn type_signatures(types: &Vec<Type>) -> (r: Result<Vec<String>, DefinitionError>)
        ensures
            result_lines(r) == type_sigs(types@, 0),
    {
        let mut sigs: Vec<String> = Vec::new();
        let mut i: usize = 0;
        while i < types.len()
            invariant
                i <= types.len(),
                type_sigs(types@, 0) == after(sigs.deep_view(), type_sigs(types@, i as nat)),
            decreases types.len() - i,
        {
            let s = match Self::type_signature(&types[i]) {
                Ok(s) => s,
                Err(e) => return Err(e),
            };
            let ghost before = sigs.deep_view();
            sigs.push(s);
            proof {
                assert(sigs.deep_view() =~= before + seq![s@]);
                let rest = type_sigs(types@, (i + 1) as nat);
                if let Ok(r) = rest {
                    assert(before + (seq![s@] + r) =~= before + seq![s@] + r);
                }
            }
            i = i + 1;
        }
        proof {
            assert(sigs.deep_view() + Seq::<Seq<char>>::empty() =~= sigs.deep_view());
        }
        Ok(sigs)
    }
}

} // verus!
