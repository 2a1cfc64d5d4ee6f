//! Extraction of variable references from block content.

use vstd::prelude::*;
use crate::text::{find_in, find, char_index, contains, chars_of, find_str_in, char_index_vec, string_of_range, lemma_find_in, lemma_char_index_bounds};
use crate::parser::patterns::{regex_all_groups, regex_each_group, opt_views};

verus! {

/// The pattern of a reference marker: `__META_REFERENCE__` and a name.
pub open spec fn marker_pattern() -> Seq<char> {
    "__META_REFERENCE__([a-zA-Z0-9_-]+)"@
}

/// The texts of the present entries, in order.
pub open spec fn somes(s: Seq<Option<Seq<char>>>) -> Seq<Seq<char>>
    decreases s.len(),
{
    if s.len() == 0 {
        seq![]
    } else {
        let rest = somes(s.drop_last());
        match s.last() {
            Some(t) => rest.push(t),
            None => rest,
        }
    }
}

/// The target of one reference tag: the text between `target="` and the
/// next `"`.
pub open spec fn tag_target(tag: Seq<char>) -> Seq<Seq<char>> {
    match find(tag, "target=\""@) {
        Some(ts) => match char_index(tag, '"', ts + 8) {
            Some(ve) => seq![tag.subrange(ts + 8, ve)],
            None => seq![],
        },
        None => seq![],
    }
}

/// The targets of the `<meta:reference .../>` tags of `content` from
/// `start` on, in order; the scan stops at a tag that is not closed by
/// `/>`.
pub open spec fn xml_references(content: Seq<char>, start: int) -> Seq<Seq<char>>
    decreases content.len() - start,
{
    if start < 0 || start > content.len() {
        seq![]
    } else {
        match find_in(content, "<meta:reference"@, start, content.len() as int) {
            None => seq![],
            Some(a) => match find_in(content, "/>"@, a, content.len() as int) {
                None => seq![],
                Some(e) => {
                    if e + 2 <= start || e + 2 > content.len() {
                        seq![]
                    } else {
                        tag_target(content.subrange(a, e + 2)) + xml_references(content, e + 2)
                    }
                },
            },
        }
    }
}

/// The names of the `${name}` references of `content` from `start` on, in
/// order: the text between `${` and the next `}`, where it is not empty; the
/// scan stops at a `${` with no `}` after it.
pub open spec fn dollar_references(content: Seq<char>, start: int) -> Seq<Seq<char>>
    decreases content.len() - start,
{
    if start < 0 || start > content.len() {
        seq![]
    } else {
        match find_in(content, "${"@, start, content.len() as int) {
            None => seq![],
            Some(a) => match char_index(content, '}', a + 2) {
                None => seq![],
                Some(e) => {
                    if e < a + 2 || e + 1 <= start || e + 1 > content.len() {
                        seq![]
                    } else if e == a + 2 {
                        dollar_references(content, e + 1)
                    } else {
                        seq![content.subrange(a + 2, e)] + dollar_references(content, e + 1)
                    }
                },
            },
        }
    }
}

/// The variables that `content` refers to: the names of its reference
/// markers, then the targets of its reference tags, then the names of its
/// `${name}` references.
pub open spec fn variable_references(content: Seq<char>) -> Seq<Seq<char>> {
    if !contains(content, "<meta:reference"@) && !contains(content, "__META_REFERENCE__"@)
        && !contains(content, "${"@) {
        seq![]
    } else {
        somes(regex_all_groups(marker_pattern(), content, 1)) + xml_references(content, 0)
            + dollar_references(content, 0)
    }
}

/// The views of a list of strings.
pub open spec fn string_views(v: Seq<String>) -> Seq<Seq<char>> {
    v.map_values(|s: String| s@)
}

/// The target of one reference tag, if it has one.
fn tag_target_exec(tag: &Vec<char>) -> (r: Option<String>)
    ensures
        match r {
            Some(t) => tag_target(tag@) == seq![t@],
            None => tag_target(tag@) == Seq::<Seq<char>>::empty(),
        },
{
    let n = tag.len();
    match find_str_in(tag, "target=\"", 0, n) {
        Some(ts) => {
            proof {
                lemma_find_in(tag@, "target=\""@, 0, n as int);
                reveal_strlit("target=\"");
            }
            let vs = ts + 8;
            match char_index_vec(tag, '"', vs) {
                Some(ve) => {
                    proof {
                        lemma_char_index_bounds(tag@, '"', vs as int);
                    }
                    Some(string_of_range(tag, vs, ve))
                },
                None => None,
            }
        },
        None => None,
    }
}

/// The variables that `content` refers to: the names in its reference
/// markers (`__META_REFERENCE__name`), then the targets of its reference
/// tags (`<meta:reference target="name"/>`), then the names of its `${name}`
/// references, each in order.
pub fn extract_variable_references(content: &str) -> (r: Vec<String>)
    ensures
        string_views(r@) == variable_references(content@),
{
    let v = chars_of(content);
    let n = v.len();
    let mut refs: Vec<String> = Vec::new();
    let has_tag = find_str_in(&v, "<meta:reference", 0, n).is_some();
    let has_marker = find_str_in(&v, "__META_REFERENCE__", 0, n).is_some();
    let has_dollar = find_str_in(&v, "${", 0, n).is_some();
    if !has_tag && !has_marker && !has_dollar {
        proof {
            assert(string_views(refs@) =~= Seq::<Seq<char>>::empty());
        }
        return refs;
    }
    let groups = regex_each_group("__META_REFERENCE__([a-zA-Z0-9_-]+)", content, 1);
    let ghost gv = opt_views(groups@);
    let mut i: usize = 0;
    proof {
        assert(gv.take(0) =~= Seq::<Option<Seq<char>>>::empty());
        assert(string_views(refs@) =~= somes(gv.take(0)));
    }
    while i < groups.len()
        invariant
            i <= groups@.len(),
            gv == opt_views(groups@),
            string_views(refs@) == somes(gv.take(i as int)),
        decreases groups.len() - i,
    {
        proof {
            assert(gv.take(i as int + 1).drop_last() =~= gv.take(i as int));
        }
        let ghost before = refs@;
        match &groups[i] {
            Some(name) => {
                refs.push(name.clone());
                proof {
                    assert(string_views(refs@) =~= string_views(before).push(name@));
                }
            },
            None => {},
        }
        i = i + 1;
    }
    proof {
        assert(gv.take(groups@.len() as int) =~= gv);
    }
    let ghost markers = refs@;
    let mut start: usize = 0;
    proof {
        assert(string_views(refs@) =~= string_views(markers) + Seq::<Seq<char>>::empty());
    }
    loop
        invariant
            n == v@.len(),
            v@ == content@,
            start <= n,
            string_views(refs@) + xml_references(v@, start as int) == string_views(markers) + xml_references(v@, 0),
        ensures
            string_views(refs@) == string_views(markers) + xml_references(v@, 0),
        decreases n - start,
    {
        let a = match find_str_in(&v, "<meta:reference", start, n) {
            Some(a) => a,
            None => {
                proof {
                    assert(xml_references(v@, start as int) =~= Seq::<Seq<char>>::empty());
                    assert(string_views(refs@) + Seq::<Seq<char>>::empty() =~= string_views(refs@));
                }
                break;
            },
        };
        proof {
            lemma_find_in(v@, "<meta:reference"@, start as int, n as int);
        }
        let e = match find_str_in(&v, "/>", a, n) {
            Some(e) => e,
            None => {
                proof {
                    assert(xml_references(v@, start as int) =~= Seq::<Seq<char>>::empty());
                    assert(string_views(refs@) + Seq::<Seq<char>>::empty() =~= string_views(refs@));
                }
                break;
            },
        };
        proof {
            lemma_find_in(v@, "/>"@, a as int, n as int);
            reveal_strlit("/>");
        }
        let ghost before = refs@;
        let tag = crate::text::vec_range(&v, a, e + 2);
        match tag_target_exec(&tag) {
            Some(t) => {
                refs.push(t);
            },
            None => {},
        }
        proof {
            assert(string_views(refs@) =~= string_views(before) + tag_target(v@.subrange(a as int, e + 2)));
            assert(string_views(before) + xml_references(v@, start as int)
                =~= string_views(refs@) + xml_references(v@, e + 2));
        }
        start = e + 2;
    }
    let ghost tagged = refs@;
    let mut start: usize = 0;
    proof {
        assert(string_views(refs@) =~= string_views(tagged) + Seq::<Seq<char>>::empty());
    }
    loop
        invariant
            n == v@.len(),
            v@ == content@,
            start <= n,
            string_views(refs@) + dollar_references(v@, start as int) == string_views(tagged) + dollar_references(v@, 0),
        ensures
            string_views(refs@) == string_views(tagged) + dollar_references(v@, 0),
        decreases n - start,
    {
        let a = match find_str_in(&v, "${", start, n) {
            Some(a) => a,
            None => {
                proof {
                    assert(dollar_references(v@, start as int) =~= Seq::<Seq<char>>::empty());
                    assert(string_views(refs@) + Seq::<Seq<char>>::empty() =~= string_views(refs@));
                }
                break;
            },
        };
        proof {
            lemma_find_in(v@, "${"@, start as int, n as int);
            reveal_strlit("${");
        }
        let e = match char_index_vec(&v, '}', a + 2) {
            Some(e) => e,
            None => {
                proof {
                    assert(dollar_references(v@, start as int) =~= Seq::<Seq<char>>::empty());
                    assert(string_views(refs@) + Seq::<Seq<char>>::empty() =~= string_views(refs@));
                }
                break;
            },
        };
        proof {
            lemma_char_index_bounds(v@, '}', a + 2);
        }
        let ghost before = refs@;
        if e > a + 2 {
            refs.push(string_of_range(&v, a + 2, e));
            proof {
                assert(string_views(refs@) =~= string_views(before) + seq![v@.subrange(a + 2, e as int)]);
            }
        }
        proof {
            assert(string_views(before) + dollar_references(v@, start as int)
                =~= string_views(refs@) + dollar_references(v@, e + 1));
        }
        start = e + 1;
    }
    proof {
        assert(string_views(markers) + xml_references(v@, 0) + dollar_references(v@, 0)
            =~= string_views(refs@));
    }
    refs
}

} // verus!
