//! Documentation comments: every line of a documentation text becomes a `--- ` comment line.
use vstd::prelude::*;

use crate::text::{lines_of, split_newlines};
use crate::type_file::DefinitionWriter;

verus! {

/// The text of an optional documentation string.
pub open spec fn opt_text(d: Option<&str>) -> Option<Seq<char>> {
    match d {
        Some(s) => Some(s@),
        None => None,
    }
}

/// The text of an optional owned documentation string.
pub open spec fn opt_string_text(d: Option<String>) -> Option<Seq<char>> {
    match d {
        Some(s) => Some(s@),
        None => None,
    }
}

/// One comment line `--- {line}` per line of `doc`.
pub open spec fn comment_lines(doc: Seq<char>) -> Seq<Seq<char>> {
    lines_of(doc).map_values(|l: Seq<char>| "--- "@ + l)
}

/// The comment lines of all present documentation texts, in order.
pub open spec fn docs_lines(docs: Seq<Option<Seq<char>>>) -> Seq<Seq<char>>
    decreases docs.len(),
{
    if docs.len() == 0 {
        Seq::empty()
    } else {
        docs_lines(docs.drop_last()) + match docs.last() {
            Some(d) => comment_lines(d),
            None => Seq::empty(),
        }
    }
}

/// The comment lines of the present documentation texts, or nothing when none is present.
pub open spec fn accumulated(docs: Seq<Option<Seq<char>>>) -> Option<Seq<Seq<char>>> {
    if forall|i: int| 0 <= i < docs.len() ==> #[trigger] docs[i] is None {
        None
    } else {
        Some(docs_lines(docs))
    }
}

/// Borrows the text of an optional documentation string.
pub fn doc_ref(d: &Option<String>) -> (r: Option<&str>)
    ensures
        opt_text(r) == opt_string_text(*d),
{
    match d {
        Some(s) => Some(s.as_str()),
        None => None,
    }
}

impl DefinitionWriter<'_> {
    /// The comment lines of the present documentation texts (`--- ` before every line of
    /// each), or `None` when none is present.
    pub fn accumulate_docs(docs: &[Option<&str>]) -> (r: Option<Vec<String>>)
        ensures
            match accumulated(docs@.map_values(|d: Option<&str>| opt_text(d))) {
                None => r is None,
                Some(ls) => r is Some && r->0.deep_view() == ls,
            },
    {
        let ghost texts = docs@.map_values(|d: Option<&str>| opt_text(d));
        let mut lines: Vec<String> = Vec::new();
        let mut any = false;
        let mut i: usize = 0;
        proof {
            assert(texts.take(0) =~= Seq::<Option<Seq<char>>>::empty());
        }
        while i < docs.len()
            invariant
                i <= docs@.len(),
                texts == docs@.map_values(|d: Option<&str>| opt_text(d)),
                lines.deep_view() =~= docs_lines(texts.take(i as int)),
                any == exists|j: int| 0 <= j < i && #[trigger] texts[j] is Some,
            decreases docs.len() - i,
        {
            proof {
                assert(texts.take(i + 1).drop_last() =~= texts.take(i as int));
            }
            match docs[i] {
                Some(d) => {
                    any = true;
                    let pieces = split_newlines(d);
                    let ghost base = lines.deep_view();
                    let mut k: usize = 0;
                    while k < pieces.len()
                        invariant
                            k <= pieces.len(),
                            pieces.deep_view() == lines_of(d@),
                            lines.deep_view() =~= base + comment_lines(d@).take(k as int),
                        decreases pieces.len() - k,
                    {
                        let mut line = String::from_str("--- ");
                        line.append(pieces[k].as_str());
                        let ghost before = lines.deep_view();
                        lines.push(line);
                        proof {
                            assert(pieces.deep_view()[k as int] == pieces[k as int]@);
                            assert(lines.deep_view() =~= before.push(line@));
                            assert(comment_lines(d@).take(k + 1) =~= comment_lines(d@).take(
                                k as int,
                            ).push(line@));
                        }
                        k = k + 1;
                    }
                    proof {
                        assert(comment_lines(d@).take(k as int) =~= comment_lines(d@));
                        assert(texts[i as int] == Some(d@));
                    }
                },
                None => {
                    proof {
                        assert(texts[i as int] is None);
                        assert(lines.deep_view() =~= lines.deep_view() + Seq::<Seq<char>>::empty());
                    }
                },
            }
            i = i + 1;
        }
        proof {
            assert(texts.take(docs.len() as int) =~= texts);
        }
        if any {
            Some(lines)
        } else {
            None
        }
    }
}

} // verus!
