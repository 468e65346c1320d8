//! What to offer for completion at a cursor, from the text of its line.
//!
//! On a line that is blank before the cursor, declarations are offered. After a `:`,
//! `?`, `[]` or `[string]`, on a line without a comment, types are offered: the
//! builtin ones and every type the document defines, each name once.

use vstd::prelude::*;
use crate::symbols::{category, category_of, first_of_key, is_first, text_of, Category};
use crate::tree::{text, DocView, Document};

verus! {

pub open spec fn is_blank_byte(b: u8) -> bool {
    b == 32u8 || (9u8 <= b && b <= 13u8)
}

/// `s` without its trailing blanks.
pub open spec fn trim_end(s: Seq<u8>) -> Seq<u8>
    decreases s.len(),
{
    if s.len() > 0 && is_blank_byte(s.last()) {
        trim_end(s.drop_last())
    } else {
        s
    }
}

pub open spec fn ends_with(s: Seq<u8>, t: Seq<u8>) -> bool {
    s.len() >= t.len() && s.subrange(s.len() - t.len(), s.len() as int) == t
}

/// The text before the cursor ends where a type is expected.
pub open spec fn expects_type(before: Seq<u8>) -> bool {
    let t = trim_end(before);
    ends_with(t, seq![58u8]) || ends_with(t, seq![63u8]) || ends_with(t, seq![91u8, 93u8])
        || ends_with(t, seq![91u8, 115u8, 116u8, 114u8, 105u8, 110u8, 103u8, 93u8])
}

/// The names of the document's type definitions among the first `k` nodes, each
/// once, in the order of first definition.
pub open spec fn type_names_upto(d: DocView, k: int) -> Seq<Seq<u8>>
    decreases k,
{
    if k <= 0 {
        Seq::empty()
    } else if category(d, k - 1) == Some(Category::TypeDef) && is_first(d, k - 1) {
        type_names_upto(d, k - 1).push(text(d, k - 1))
    } else {
        type_names_upto(d, k - 1)
    }
}

/// What completion offers: the declaration keywords, the builtin types, and the
/// names of the document's own types.
pub struct CompletionPlan {
    pub declarations: bool,
    pub builtin_types: bool,
    pub type_names: Vec<Vec<u8>>,
}

fn trimmed_len(s: &Vec<u8>, len: usize) -> (r: usize)
    requires
        len <= s@.len(),
    ensures
        r <= len,
        s@.subrange(0, r as int) == trim_end(s@.subrange(0, len as int)),
{
    let mut k = len;
    while k > 0 && (s[k - 1] == 32u8 || (9u8 <= s[k - 1] && s[k - 1] <= 13u8))
        invariant
            k <= len <= s@.len(),
            trim_end(s@.subrange(0, k as int)) == trim_end(s@.subrange(0, len as int)),
        decreases k,
    {
        assert(s@.subrange(0, k as int).drop_last() =~= s@.subrange(0, k - 1));
        k = k - 1;
    }
    k
}

fn ends_with_at(s: &Vec<u8>, len: usize, t: &Vec<u8>) -> (r: bool)
    requires
        len <= s@.len(),
    ensures
        r == ends_with(s@.subrange(0, len as int), t@),
{
    if t.len() > len {
        return false;
    }
    let base = len - t.len();
    let mut k: usize = 0;
    while k < t.len()
        invariant
            base + t@.len() == len <= s@.len(),
            k <= t@.len(),
            forall|m: int| 0 <= m < k ==> #[trigger] t@[m] == s@[base + m],
        decreases t@.len() - k,
    {
        if s[base + k] != t[k] {
            assert(s@.subrange(0, len as int).subrange(base as int, len as int)[k as int]
                != t@[k as int]);
            return false;
        }
        k = k + 1;
    }
    assert(s@.subrange(0, len as int).subrange(base as int, len as int) =~= t@);
    true
}

/// Completion at a cursor that has `before` bytes of `line` before it.
pub fn completion(doc: &Document, line: &Vec<u8>, before: usize) -> (r: CompletionPlan)
    requires
        before <= line@.len(),
    ensures
        ({
            let prefix = line@.subrange(0, before as int);
            &&& r.declarations == (trim_end(prefix).len() == 0)
            &&& r.builtin_types == (!line@.contains(35u8) && expects_type(prefix))
            &&& r.type_names@.map_values(|v: Vec<u8>| v@) == if r.builtin_types {
                type_names_upto(doc@, doc@.nodes.len() as int)
            } else {
                Seq::empty()
            }
        }),
{
    let ghost prefix = line@.subrange(0, before as int);
    let t = trimmed_len(line, before);
    assert(trim_end(prefix) == line@.subrange(0, t as int));
    assert(line@.subrange(0, t as int) =~= line@.subrange(0, before as int).subrange(0, t as int));
    let mut comment = false;
    let mut k: usize = 0;
    while k < line.len()
        invariant
            k <= line@.len(),
            comment <==> exists|m: int| 0 <= m < k && line@[m] == 35u8,
        decreases line@.len() - k,
    {
        if line[k] == 35u8 {
            comment = true;
        }
        k = k + 1;
    }
    let colon: Vec<u8> = vec![58u8];
    let question: Vec<u8> = vec![63u8];
    let array: Vec<u8> = vec![91u8, 93u8];
    let dict: Vec<u8> = vec![91u8, 115u8, 116u8, 114u8, 105u8, 110u8, 103u8, 93u8];
    let types = !comment && (ends_with_at(line, t, &colon) || ends_with_at(line, t, &question)
        || ends_with_at(line, t, &array) || ends_with_at(line, t, &dict));
    proof {
        assert(colon@ =~= seq![58u8]);
        assert(question@ =~= seq![63u8]);
        assert(array@ =~= seq![91u8, 93u8]);
        assert(dict@ =~= seq![91u8, 115u8, 116u8, 114u8, 105u8, 110u8, 103u8, 93u8]);
        assert(line@.contains(35u8) <==> comment);
    }
    let mut names: Vec<Vec<u8>> = Vec::new();
    if types {
        let ghost d = doc@;
        let n = doc.len();
        let mut j: usize = 0;
        while j < n
            invariant
                d == doc@,
                n == d.nodes.len(),
                j <= n,
                names@.map_values(|v: Vec<u8>| v@) == type_names_upto(d, j as int),
            decreases n - j,
        {
            match category_of(doc, j) {
                Some(Category::TypeDef) => {
                    if first_of_key(doc, j, Category::TypeDef) {
                        names.push(text_of(doc, j));
                    }
                },
                _ => {},
            }
            proof {
                assert(names@.map_values(|v: Vec<u8>| v@) =~= type_names_upto(d, j + 1));
            }
            j = j + 1;
        }
    } else {
        assert(names@.map_values(|v: Vec<u8>| v@) =~= Seq::<Seq<u8>>::empty());
    }
    CompletionPlan { declarations: t == 0, builtin_types: types, type_names: names }
}

} // verus!
