//! The block type and its modifiers.

pub mod code_exec;

use vstd::prelude::*;
use crate::text::{chars_of, str_is};

verus! {

/// A block of a document: its type, optional name, modifiers in the order
/// they were added, content and nested child blocks.
#[derive(Debug)]
pub struct Block {
    pub block_type: String,
    pub name: Option<String>,
    pub modifiers: Vec<(String, String)>,
    pub content: String,
    pub children: Vec<Block>,
}

/// The mathematical value of a block.
pub struct BlockModel {
    pub block_type: Seq<char>,
    pub name: Option<Seq<char>>,
    pub modifiers: Seq<(Seq<char>, Seq<char>)>,
    pub content: Seq<char>,
    pub children: Seq<BlockModel>,
}

/// The view of an optional string.
pub open spec fn opt_view(o: Option<String>) -> Option<Seq<char>> {
    match o {
        Some(s) => Some(s@),
        None => None,
    }
}

/// The view of an optional string reference.
pub open spec fn opt_ref_view(o: Option<&String>) -> Option<Seq<char>> {
    match o {
        Some(s) => Some(s@),
        None => None,
    }
}

/// The view of an optional string slice.
pub open spec fn opt_str_view(o: Option<&str>) -> Option<Seq<char>> {
    match o {
        Some(s) => Some(s@),
        None => None,
    }
}

/// The view of a list of key/value pairs.
pub open spec fn pairs_view(v: Seq<(String, String)>) -> Seq<(Seq<char>, Seq<char>)> {
    v.map_values(|p: (String, String)| (p.0@, p.1@))
}

/// The mathematical value of `b`, children included.
pub open spec fn block_model(b: Block) -> BlockModel
    decreases b,
{
    BlockModel {
        block_type: b.block_type@,
        name: opt_view(b.name),
        modifiers: pairs_view(b.modifiers@),
        content: b.content@,
        children: Seq::new(
            b.children@.len(),
            |i: int| if 0 <= i < b.children@.len() { block_model(b.children@[i]) } else { arbitrary() },
        ),
    }
}

impl View for Block {
    type V = BlockModel;

    open spec fn view(&self) -> BlockModel {
        block_model(*self)
    }
}

/// A fresh block: the given type, name and content, no modifiers and no children.
pub open spec fn new_block(block_type: Seq<char>, name: Option<Seq<char>>, content: Seq<char>) -> BlockModel {
    BlockModel {
        block_type,
        name,
        modifiers: seq![],
        content,
        children: seq![],
    }
}

/// `m` with the modifier `(key, value)` appended.
pub open spec fn with_modifier(m: BlockModel, key: Seq<char>, value: Seq<char>) -> BlockModel {
    BlockModel { modifiers: m.modifiers.push((key, value)), ..m }
}

/// The index of the first modifier named `key`.
pub open spec fn first_key_index(mods: Seq<(Seq<char>, Seq<char>)>, key: Seq<char>, from: int) -> Option<int>
    decreases mods.len() - from,
{
    if from < 0 || from >= mods.len() {
        None
    } else if mods[from].0 == key {
        Some(from)
    } else {
        first_key_index(mods, key, from + 1)
    }
}

/// Whether some modifier is named `key`.
pub open spec fn has_key(mods: Seq<(Seq<char>, Seq<char>)>, key: Seq<char>) -> bool {
    exists|i: int| 0 <= i < mods.len() && #[trigger] mods[i].0 == key
}

/// The value of the first modifier named `key`.
pub open spec fn lookup(mods: Seq<(Seq<char>, Seq<char>)>, key: Seq<char>) -> Option<Seq<char>> {
    match first_key_index(mods, key, 0) {
        Some(i) => Some(mods[i].1),
        None => None,
    }
}

/// `c.to_lowercase()` is the lowercase ASCII character `w`: `c` is `w` or
/// its capital.
pub open spec fn lowers_to(c: char, w: char) -> bool {
    c == w || ('a' <= w && w <= 'z' && (c as u32) + 32 == (w as u32))
}

/// `s.to_lowercase() == w` for a lowercase ASCII word `w` without `k`: the
/// only other characters that lower to ASCII are the ASCII capitals, and
/// U+212A (Kelvin sign), which lowers to `k`. The words compared in this
/// library are `true`, `yes` and `1`.
pub open spec fn lower_equals(s: Seq<char>, w: Seq<char>) -> bool {
    s.len() == w.len() && forall|i: int| 0 <= i < s.len() ==> lowers_to(#[trigger] s[i], w[i])
}

/// A truthy modifier value: `true`, `yes` or `1`, ignoring case.
pub open spec fn is_truthy(s: Seq<char>) -> bool {
    lower_equals(s, "true"@) || lower_equals(s, "yes"@) || lower_equals(s, "1"@)
}

pub proof fn lemma_first_key_index(mods: Seq<(Seq<char>, Seq<char>)>, key: Seq<char>, from: int)
    requires
        0 <= from,
    ensures
        first_key_index(mods, key, from) matches Some(i) ==> from <= i < mods.len() && mods[i].0 == key
            && forall|j: int| from <= j < i ==> mods[j].0 != key,
        first_key_index(mods, key, from) is None ==> forall|j: int| from <= j < mods.len() ==> mods[j].0 != key,
    decreases mods.len() - from,
{
    if from < mods.len() && mods[from].0 != key {
        lemma_first_key_index(mods, key, from + 1);
    }
}

fn lowers_to_exec(c: char, w: char) -> (r: bool)
    ensures
        r == lowers_to(c, w),
{
    c == w || ('a' <= w && w <= 'z' && (c as u32) + 32 == (w as u32))
}

pub fn lower_equals_exec(s: &Vec<char>, w: &str) -> (r: bool)
    ensures
        r == lower_equals(s@, w@),
{
    let wv = chars_of(w);
    if s.len() != wv.len() {
        return false;
    }
    let mut i: usize = 0;
    while i < s.len()
        invariant
            s@.len() == wv@.len(),
            wv@ == w@,
            i <= s@.len(),
            forall|k: int| 0 <= k < i ==> lowers_to(#[trigger] s@[k], wv@[k]),
        decreases s.len() - i,
    {
        if !lowers_to_exec(s[i], wv[i]) {
            return false;
        }
        i = i + 1;
    }
    true
}

/// Whether `s` is truthy: `true`, `yes` or `1`, ignoring case.
pub fn is_truthy_exec(s: &str) -> (r: bool)
    ensures
        r == is_truthy(s@),
{
    let v = chars_of(s);
    lower_equals_exec(&v, "true") || lower_equals_exec(&v, "yes") || lower_equals_exec(&v, "1")
}

/// A copy of a list of key/value pairs.
pub fn copy_pairs(v: &Vec<(String, String)>) -> (r: Vec<(String, String)>)
    ensures
        pairs_view(r@) == pairs_view(v@),
{
    let mut r: Vec<(String, String)> = Vec::new();
    let mut i: usize = 0;
    while i < v.len()
        invariant
            i <= v@.len(),
            r@.len() == i,
            forall|k: int| 0 <= k < i ==> (#[trigger] r@[k]).0@ == v@[k].0@ && r@[k].1@ == v@[k].1@,
        decreases v.len() - i,
    {
        r.push((v[i].0.clone(), v[i].1.clone()));
        i = i + 1;
    }
    proof {
        assert(pairs_view(r@) =~= pairs_view(v@));
    }
    r
}

impl Clone for Block {
    fn clone(&self) -> (r: Self)
        ensures
            r@ == self@,
    {
        self.copy()
    }
}

impl Block {
    /// A deep copy of the block.
    pub fn copy(&self) -> (r: Block)
        ensures
            r@ == self@,
        decreases self,
    {
        let n = self.children.len();
        let mut children: Vec<Block> = Vec::new();
        let mut i: usize = 0;
        while i < n
            invariant
                n == self.children@.len(),
                i <= n,
                children@.len() == i,
                forall|k: int| 0 <= k < i ==> #[trigger] children@[k]@ == self.children@[k]@,
            decreases n - i,
        {
            proof {
                assert(decreases_to!(self => self.children));
                assert(decreases_to!(self.children => self.children@));
                assert(decreases_to!(self.children@ => self.children@[i as int]));
            }
            let c = self.children[i].copy();
            children.push(c);
            i = i + 1;
        }
        let r = Block {
            block_type: self.block_type.clone(),
            name: match &self.name {
                Some(s) => Some(s.clone()),
                None => None,
            },
            modifiers: copy_pairs(&self.modifiers),
            content: self.content.clone(),
            children,
        };
        proof {
            assert forall|k: int| 0 <= k < n implies #[trigger] r@.children[k] == self@.children[k] by {
                assert(r@.children[k] == r.children@[k]@);
                assert(self@.children[k] == self.children@[k]@);
            }
            assert(r@.children =~= self@.children);
        }
        r
    }

    /// A new block with the given type, name and content.
    pub fn new(block_type: &str, name: Option<&str>, content: &str) -> (r: Self)
        ensures
            r@ == new_block(block_type@, opt_str_view(name), content@),
    {
        let name = match name {
            Some(n) => Some(n.to_owned()),
            None => None,
        };
        let r = Block {
            block_type: block_type.to_owned(),
            name,
            modifiers: Vec::new(),
            content: content.to_owned(),
            children: Vec::new(),
        };
        proof {
            assert(r@.modifiers =~= Seq::<(Seq<char>, Seq<char>)>::empty());
            assert(r@.children =~= Seq::<BlockModel>::empty());
        }
        r
    }

    /// Adds the modifier `key` with `value` after the existing ones.
    pub fn add_modifier(&mut self, key: &str, value: &str)
        ensures
            final(self)@ == with_modifier(old(self)@, key@, value@),
    {
        self.modifiers.push((key.to_owned(), value.to_owned()));
        proof {
            assert(pairs_view(self.modifiers@) =~= pairs_view(old(self).modifiers@).push((key@, value@)));
            assert(self@.children =~= old(self)@.children);
        }
    }

    /// Whether a modifier named `key` is present.
    pub fn has_modifier(&self, key: &str) -> (r: bool)
        ensures
            r == has_key(self@.modifiers, key@),
    {
        let n = self.modifiers.len();
        let mut i: usize = 0;
        while i < n
            invariant
                n == self.modifiers@.len(),
                i <= n,
                forall|j: int| 0 <= j < i ==> #[trigger] self.modifiers@[j].0@ != key@,
            decreases n - i,
        {
            if str_is(self.modifiers[i].0.as_str(), key) {
                proof {
                    assert(self@.modifiers[i as int].0 == key@);
                }
                return true;
            }
            i = i + 1;
        }
        proof {
            assert forall|j: int| 0 <= j < self@.modifiers.len() implies #[trigger] self@.modifiers[j].0 != key@ by {
                assert(self@.modifiers[j].0 == self.modifiers@[j].0@);
            }
        }
        false
    }

    /// The value of the first modifier named `key`.
    pub fn get_modifier(&self, key: &str) -> (r: Option<&String>)
        ensures
            opt_ref_view(r) == lookup(self@.modifiers, key@),
    {
        let n = self.modifiers.len();
        let mut i: usize = 0;
        proof {
            lemma_first_key_index(self@.modifiers, key@, 0);
        }
        while i < n
            invariant
                n == self.modifiers@.len(),
                i <= n,
                forall|j: int| 0 <= j < i ==> #[trigger] self.modifiers@[j].0@ != key@,
                first_key_index(self@.modifiers, key@, 0) == first_key_index(self@.modifiers, key@, i as int),
            decreases n - i,
        {
            if str_is(self.modifiers[i].0.as_str(), key) {
                return Some(&self.modifiers[i].1);
            }
            i = i + 1;
        }
        None
    }

    /// Whether the modifier `key` is present with a value of `true`, `yes` or
    /// `1`, ignoring case.
    pub fn is_modifier_true(&self, key: &str) -> (r: bool)
        ensures
            r == (lookup(self@.modifiers, key@) matches Some(v) && is_truthy(v)),
    {
        match self.get_modifier(key) {
            Some(v) => is_truthy_exec(v.as_str()),
            None => false,
        }
    }

    /// Appends `child` to the children.
    pub fn add_child(&mut self, child: Block)
        ensures
            final(self)@ == (BlockModel { children: old(self)@.children.push(child@), ..old(self)@ }),
    {
        self.children.push(child);
        proof {
            assert(self@.children =~= old(self)@.children.push(child@));
            assert(self@.modifiers =~= old(self)@.modifiers);
        }
    }
}

/// Where the first modifier named `key` is once `x` is appended.
proof fn lemma_first_key_index_push(mods: Seq<(Seq<char>, Seq<char>)>, x: (Seq<char>, Seq<char>), key: Seq<char>, from: int)
    requires
        0 <= from <= mods.len(),
    ensures
        first_key_index(mods.push(x), key, from) == (match first_key_index(mods, key, from) {
            Some(i) => Some(i),
            None => if x.0 == key {
                Some(mods.len() as int)
            } else {
                None
            },
        }),
    decreases mods.len() - from,
{
    if from < mods.len() {
        assert(mods.push(x)[from] == mods[from]);
        if mods[from].0 != key {
            lemma_first_key_index_push(mods, x, key, from + 1);
        }
    } else {
        assert(mods.push(x)[from] == x);
        if x.0 != key {
            assert(first_key_index(mods.push(x), key, from + 1) is None);
        }
    }
}

/// A modifier read after it is added: the block then has a modifier `key`,
/// and reading `key` gives `value` unless an earlier modifier of that name
/// comes first.
pub proof fn law_modifier_read_after_add(b: BlockModel, key: Seq<char>, value: Seq<char>)
    ensures
        has_key(with_modifier(b, key, value).modifiers, key),
        lookup(with_modifier(b, key, value).modifiers, key) == (if has_key(b.modifiers, key) {
            lookup(b.modifiers, key)
        } else {
            Some(value)
        }),
{
    let m = b.modifiers;
    let m2 = with_modifier(b, key, value).modifiers;
    assert(m2[m.len() as int].0 == key);
    lemma_first_key_index_push(m, (key, value), key, 0);
    lemma_first_key_index(m, key, 0);
    if has_key(m, key) {
        let i = choose|i: int| 0 <= i < m.len() && #[trigger] m[i].0 == key;
        assert(first_key_index(m, key, 0) is Some);
        let j = first_key_index(m, key, 0).unwrap();
        assert(m2[j] == m[j]);
    }
}

} // verus!
