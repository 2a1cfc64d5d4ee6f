//! The `depends:` and `requires:` modifiers, found by regular expressions.

use vstd::prelude::*;
use crate::text::{char_index, char_index_vec, has_char, lemma_char_index_bounds, string_of, trim, trim_vec, vec_range};
use crate::parser::blocks::opt_view;
use crate::parser::patterns::{regex_group, regex_first_group};
use crate::parser::block_parsers::tagged::mods_view;
use crate::parser::block_parsers::typed::{append_str, append_vec};

verus! {

/// The pattern of a `depends` list: `depends:` and comma-separated names.
pub open spec fn depends_pattern() -> Seq<char> {
    "depends:([a-zA-Z0-9_-]+(?:,[a-zA-Z0-9_-]+)*)"@
}

/// The pattern of a `requires` list.
pub open spec fn requires_pattern() -> Seq<char> {
    "requires:([a-zA-Z0-9_-]+(?:,[a-zA-Z0-9_-]+)*)"@
}

/// `s.split(c)`.
pub open spec fn split_char(s: Seq<char>, c: char) -> Seq<Seq<char>>
    decreases s.len(),
{
    match char_index(s, c, 0) {
        Some(i) => {
            proof {
                lemma_char_index_bounds(s, c, 0);
            }
            seq![s.take(i)] + split_char(s.skip(i + 1), c)
        },
        None => seq![s],
    }
}

/// The entries for one item `d` of a list of kind `kind`: `(kind:d, d)`.
pub open spec fn item_entries(kind: Seq<char>, items: Seq<Seq<char>>) -> Seq<(Seq<char>, Seq<char>)> {
    items.map_values(|d: Seq<char>| (kind + ":"@ + trim(d), trim(d)))
}

/// The modifiers for a captured list `cap` of kind `kind`: the whole list
/// under `kind`, and when it holds a comma, one `kind:item` entry per item.
pub open spec fn list_entries(kind: Seq<char>, cap: Option<Seq<char>>) -> Seq<(Seq<char>, Seq<char>)> {
    match cap {
        None => seq![],
        Some(v) => if has_char(v, ',') {
            seq![(kind, v)] + item_entries(kind, split_char(v, ','))
        } else {
            seq![(kind, v)]
        },
    }
}

/// The `depends` and `requires` modifiers of `text`.
pub open spec fn dependencies(text: Seq<char>) -> Seq<(Seq<char>, Seq<char>)> {
    list_entries("depends"@, regex_group(depends_pattern(), text, 1))
        + list_entries("requires"@, regex_group(requires_pattern(), text, 1))
}

/// `s.split(c).collect()`.
pub fn split_char_vec(s: &Vec<char>, c: char) -> (r: Vec<Vec<char>>)
    ensures
        crate::text::views(r@) == split_char(s@, c),
{
    let n = s.len();
    let mut r: Vec<Vec<char>> = Vec::new();
    let mut start: usize = 0;
    proof {
        assert(s@.skip(0) =~= s@);
        assert(crate::text::views(r@) =~= Seq::<Seq<char>>::empty());
    }
    loop
        invariant
            n == s@.len(),
            start <= n,
            split_char(s@, c) == crate::text::views(r@) + split_char(s@.skip(start as int), c),
        decreases n - start,
    {
        let ghost rest = s@.skip(start as int);
        match char_index_vec(s, c, start) {
            Some(i) => {
                proof {
                    lemma_char_index_bounds(s@, c, start as int);
                    lemma_char_index_shift(s@, c, start as int);
                    lemma_char_index_bounds(rest, c, 0);
                    assert(rest.take(i - start) =~= s@.subrange(start as int, i as int));
                    assert(rest.skip(i - start + 1) =~= s@.skip(i + 1));
                }
                let part = vec_range(s, start, i);
                let ghost old_r = r@;
                r.push(part);
                proof {
                    assert(crate::text::views(r@) =~= crate::text::views(old_r).push(part@));
                    assert(crate::text::views(r@) + split_char(s@.skip(i + 1), c) =~= crate::text::views(
                        old_r,
                    ) + split_char(rest, c));
                }
                start = i + 1;
            },
            None => {
                proof {
                    lemma_char_index_shift(s@, c, start as int);
                    assert(rest =~= s@.subrange(start as int, n as int));
                }
                let part = vec_range(s, start, n);
                let ghost old_r = r@;
                r.push(part);
                proof {
                    assert(crate::text::views(r@) =~= crate::text::views(old_r) + split_char(rest, c));
                }
                return r;
            },
        }
    }
}

proof fn lemma_char_index_shift(s: Seq<char>, c: char, start: int)
    requires
        0 <= start <= s.len(),
    ensures
        match char_index(s, c, start) {
            Some(i) => char_index(s.skip(start), c, 0) == Some(i - start),
            None => char_index(s.skip(start), c, 0) is None,
        },
{
    lemma_char_index_shift_from(s, c, start, start);
}

proof fn lemma_char_index_shift_from(s: Seq<char>, c: char, start: int, from: int)
    requires
        0 <= start <= from <= s.len(),
    ensures
        match char_index(s, c, from) {
            Some(i) => char_index(s.skip(start), c, from - start) == Some(i - start),
            None => char_index(s.skip(start), c, from - start) is None,
        },
    decreases s.len() - from,
{
    if from < s.len() {
        assert(s.skip(start)[from - start] == s[from]);
        if s[from] != c {
            lemma_char_index_shift_from(s, c, start, from + 1);
        }
    }
}

/// The entries of a captured list of kind `kind`.
fn list_entries_exec(kind: &str, cap: Option<String>) -> (r: Vec<(String, String)>)
    ensures
        mods_view(r@) == list_entries(kind@, opt_view(cap)),
{
    let mut r: Vec<(String, String)> = Vec::new();
    match cap {
        None => {
            proof {
                assert(mods_view(r@) =~= Seq::<(Seq<char>, Seq<char>)>::empty());
            }
            r
        },
        Some(v) => {
            let vv = crate::text::chars_of(v.as_str());
            r.push((kind.to_owned(), v.clone()));
            match char_index_vec(&vv, ',', 0) {
                None => {
                    proof {
                        assert(mods_view(r@) =~= seq![(kind@, v@)]);
                    }
                    r
                },
                Some(_) => {
                    let items = split_char_vec(&vv, ',');
                    let ghost its = split_char(v@, ',');
                    let mut j: usize = 0;
                    while j < items.len()
                        invariant
                            crate::text::views(items@) == its,
                            j <= items@.len(),
                            mods_view(r@) == seq![(kind@, v@)] + item_entries(kind@, its.take(j as int)),
                        decreases items.len() - j,
                    {
                        let d = trim_vec(&items[j]);
                        let mut key: Vec<char> = Vec::new();
                        append_str(&mut key, kind);
                        append_str(&mut key, ":");
                        append_vec(&mut key, &d);
                        let ghost old_r = r@;
                        r.push((string_of(&key), string_of(&d)));
                        proof {
                            assert(items@[j as int]@ == its[j as int]);
                            assert(its.take(j + 1) =~= its.take(j as int).push(its[j as int]));
                            assert(item_entries(kind@, its.take(j + 1)) =~= item_entries(kind@, its.take(j as int)).push(
                                (kind@ + ":"@ + trim(its[j as int]), trim(its[j as int])),
                            ));
                            assert(mods_view(r@) =~= mods_view(old_r).push((key@, d@)));
                        }
                        j = j + 1;
                    }
                    proof {
                        assert(its.take(items@.len() as int) =~= its);
                    }
                    r
                },
            }
        },
    }
}

/// The `depends` and `requires` modifiers of `modifier_text`: each list
/// under its own key, and for a list with several names one `depends:name`
/// (or `requires:name`) entry per name.
pub fn extract_dependencies(modifier_text: &str) -> (r: Vec<(String, String)>)
    ensures
        mods_view(r@) == dependencies(modifier_text@),
{
    let d = regex_first_group("depends:([a-zA-Z0-9_-]+(?:,[a-zA-Z0-9_-]+)*)", modifier_text, 1);
    let q = regex_first_group("requires:([a-zA-Z0-9_-]+(?:,[a-zA-Z0-9_-]+)*)", modifier_text, 1);
    let mut r = list_entries_exec("depends", d);
    let r2 = list_entries_exec("requires", q);
    let ghost r1 = r@;
    let mut i: usize = 0;
    while i < r2.len()
        invariant
            i <= r2@.len(),
            mods_view(r@) == mods_view(r1) + mods_view(r2@.take(i as int)),
        decreases r2.len() - i,
    {
        let ghost old_r = r@;
        r.push((r2[i].0.clone(), r2[i].1.clone()));
        proof {
            assert(mods_view(r@) =~= mods_view(old_r).push((r2@[i as int].0@, r2@[i as int].1@)));
            assert(mods_view(r2@.take(i + 1)) =~= mods_view(r2@.take(i as int)).push((r2@[i as int].0@, r2@[i as int].1@)));
            assert(mods_view(r@) =~= mods_view(r1) + mods_view(r2@.take(i + 1)));
        }
        i = i + 1;
    }
    proof {
        assert(r2@.take(r2@.len() as int) =~= r2@);
    }
    r
}

} // verus!
