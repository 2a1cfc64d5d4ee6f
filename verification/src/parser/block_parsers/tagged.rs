//! The shape shared by the bracket-syntax block parsers: an opening tag
//! `[type attr:value ...]`, the content, and a closing tag `[/type]`.

use vstd::prelude::*;
use crate::text::{chars_of, find, find_in, find_str_in, first_segment, has_char, lemma_find_in, lemma_rfind, opt_seq, rfind, rfind_str, second_segment, split_ws, split_ws_vec, starts_with, ends_with, trim, trim_matches, trim_matches_vec, trim_range, trim_vec, two_segments, vec_range, views, string_of, match_at, matches_at};
use crate::parser::blocks::{Block, BlockModel, new_block, pairs_view, opt_view};
use crate::parser::{ParserError, ParserErrorModel};

verus! {

/// The value of attribute `key` (such as `name:`) in the opening tag
/// `s[open..cb]`: the text after `key` up to the next space or the end of
/// the tag, trimmed.
pub open spec fn attr_value(s: Seq<char>, open: int, cb: int, key: Seq<char>) -> Option<Seq<char>> {
    match find_in(s, key, open, cb) {
        Some(p) => {
            let st = p + key.len();
            let en = match find_in(s, " "@, st, cb) {
                Some(e) => e,
                None => cb,
            };
            Some(trim(s.subrange(st, en)))
        },
        None => None,
    }
}

/// Which `key:value` tokens of an opening tag are passed over.
#[derive(Clone, Copy)]
pub enum SkipRule {
    /// None.
    Never,
    /// Tokens that start with `name:`.
    NamePrefix,
    /// Tokens whose key is `name`.
    NameKey,
    /// Tokens that start with `name:`, `depends:`, `requires:` or `format:`.
    KnownKeys,
}

/// How the quotes of a modifier value are removed.
#[derive(Clone, Copy)]
pub enum ValueRule {
    /// All leading and trailing `"` characters (`trim_matches('"')`).
    TrimQuotes,
    /// One enclosing pair, when the value starts and ends with `"`.
    StripPair,
}

/// How the `key:value` tokens of an opening tag become modifiers.
#[derive(Clone, Copy)]
pub struct ModStyle {
    pub skip: SkipRule,
    pub trim_parts: bool,
    pub value: ValueRule,
}

/// Whether token `t` is passed over.
pub open spec fn skipped(t: Seq<char>, skip: SkipRule) -> bool {
    match skip {
        SkipRule::Never => false,
        SkipRule::NamePrefix => starts_with(t, "name:"@),
        SkipRule::NameKey => first_segment(t, ':') == "name"@,
        SkipRule::KnownKeys => starts_with(t, "name:"@) || starts_with(t, "depends:"@) || starts_with(
            t,
            "requires:"@,
        ) || starts_with(t, "format:"@),
    }
}

/// `v` without one enclosing pair of quotes.
pub open spec fn strip_pair(v: Seq<char>) -> Seq<char> {
    if starts_with(v, "\""@) && ends_with(v, "\""@) {
        v.subrange(1, v.len() - 1)
    } else {
        v
    }
}

/// The key of token `t`.
pub open spec fn token_key(t: Seq<char>, style: ModStyle) -> Seq<char> {
    if style.trim_parts {
        trim(first_segment(t, ':'))
    } else {
        first_segment(t, ':')
    }
}

/// The value of token `t` before its quotes are removed.
pub open spec fn token_raw_value(t: Seq<char>, style: ModStyle) -> Seq<char> {
    if style.trim_parts {
        trim(second_segment(t, ':'))
    } else {
        second_segment(t, ':')
    }
}

/// The modifier that token `t` gives, if any.
pub open spec fn token_modifier(t: Seq<char>, style: ModStyle) -> Option<(Seq<char>, Seq<char>)> {
    if !has_char(t, ':') || skipped(t, style.skip) {
        None
    } else {
        let v = token_raw_value(t, style);
        Some(
            (
                token_key(t, style),
                match style.value {
                    ValueRule::TrimQuotes => trim_matches(v, '"'),
                    ValueRule::StripPair => strip_pair(v),
                },
            ),
        )
    }
}

/// A token whose value is a single `"`: removing the enclosing pair of
/// quotes from it would slice out of range, so such input is left out.
pub open spec fn token_panics(t: Seq<char>, style: ModStyle) -> bool {
    &&& has_char(t, ':')
    &&& !skipped(t, style.skip)
    &&& style.value == ValueRule::StripPair
    &&& token_raw_value(t, style) == "\""@
}

/// The modifiers that tokens `toks[i..]` give, in order.
pub open spec fn tokens_modifiers(toks: Seq<Seq<char>>, style: ModStyle, i: int) -> Seq<(Seq<char>, Seq<char>)>
    decreases toks.len() - i,
{
    if i < 0 || i >= toks.len() {
        seq![]
    } else {
        match token_modifier(toks[i], style) {
            Some(m) => seq![m] + tokens_modifiers(toks, style, i + 1),
            None => tokens_modifiers(toks, style, i + 1),
        }
    }
}

/// No token panics.
pub open spec fn tokens_safe(toks: Seq<Seq<char>>, style: ModStyle) -> bool {
    forall|i: int| 0 <= i < toks.len() ==> !token_panics(#[trigger] toks[i], style)
}

/// The modifiers of the whitespace-separated tokens of `text`.
pub open spec fn text_modifiers(text: Seq<char>, style: ModStyle) -> Seq<(Seq<char>, Seq<char>)> {
    tokens_modifiers(split_ws(trim(text)), style, 0)
}

/// `m` with the modifiers `mods` appended.
pub open spec fn with_modifiers(m: BlockModel, mods: Seq<(Seq<char>, Seq<char>)>) -> BlockModel {
    BlockModel { modifiers: m.modifiers + mods, ..m }
}

/// The view of a list of modifiers.
pub open spec fn mods_view(v: Seq<(String, String)>) -> Seq<(Seq<char>, Seq<char>)> {
    pairs_view(v)
}

pub proof fn lemma_strlit_no_bracket(p: Seq<char>)
    requires
        forall|j: int| 0 <= j < p.len() ==> p[j] != ']',
    ensures
        forall|s: Seq<char>, o: int|
            match_at(s, p, o) ==> (#[trigger] find_in(s, "]"@, o, s.len() as int) matches Some(cb)
                ==> o + p.len() <= cb),
{
    assert forall|s: Seq<char>, o: int|
        match_at(s, p, o) implies (#[trigger] find_in(s, "]"@, o, s.len() as int) matches Some(cb)
            ==> o + p.len() <= cb) by {
        reveal_strlit("]");
        lemma_find_in(s, "]"@, o, s.len() as int);
        if let Some(cb) = find_in(s, "]"@, o, s.len() as int) {
            if cb < o + p.len() {
                assert(s[cb + 0] == "]"@[0]);
                assert(s[o + (cb - o)] == p[cb - o]);
            }
        }
    }
}

/// The value of attribute `key` in the opening tag `v[open..cb]`.
pub fn attr_value_exec(v: &Vec<char>, open: usize, cb: usize, key: &str) -> (r: Option<Vec<char>>)
    requires
        open <= cb <= v@.len(),
    ensures
        opt_seq(r) == attr_value(v@, open as int, cb as int, key@),
{
    match find_str_in(v, key, open, cb) {
        None => None,
        Some(p) => {
            proof {
                lemma_find_in(v@, key@, open as int, cb as int);
            }
            let klen = chars_of(key).len();
            let st = p + klen;
            let en = match find_str_in(v, " ", st, cb) {
                Some(e) => e,
                None => cb,
            };
            proof {
                lemma_find_in(v@, " "@, st as int, cb as int);
            }
            let (a, b) = trim_range(v, st, en);
            Some(vec_range(v, a, b))
        },
    }
}

fn skipped_exec(t: &Vec<char>, skip: SkipRule) -> (r: bool)
    ensures
        r == skipped(t@, skip),
{
    match skip {
        SkipRule::Never => false,
        SkipRule::NamePrefix => matches_at(t, &chars_of("name:"), 0),
        SkipRule::KnownKeys => matches_at(t, &chars_of("name:"), 0) || matches_at(t, &chars_of("depends:"), 0)
            || matches_at(t, &chars_of("requires:"), 0) || matches_at(t, &chars_of("format:"), 0),
        SkipRule::NameKey => {
            match two_segments(t, ':') {
                Some((k, _)) => crate::text::chars_eq(&k, &chars_of("name")),
                None => {
                    proof {
                        assert(first_segment(t@, ':') == t@);
                    }
                    crate::text::chars_eq(t, &chars_of("name"))
                },
            }
        },
    }
}

fn strip_pair_exec(v: &Vec<char>) -> (r: Vec<char>)
    requires
        v@ != "\""@,
    ensures
        r@ == strip_pair(v@),
{
    let q = chars_of("\"");
    let n = v.len();
    proof {
        reveal_strlit("\"");
    }
    if matches_at(v, &q, 0) && n >= 1 && matches_at(v, &q, n - 1) {
        proof {
            if n < 2 {
                assert(q@[0] == '"');
                assert(v@[0int + 0int] == q@[0int]);
                assert(v@ =~= "\""@);
            }
        }
        vec_range(v, 1, n - 1)
    } else {
        proof {
            assert(v@.subrange(0, n as int) =~= v@);
        }
        vec_range(v, 0, n)
    }
}

/// The modifier that token `t` gives, if any.
pub fn token_modifier_exec(t: &Vec<char>, style: ModStyle) -> (r: Option<(String, String)>)
    requires
        !token_panics(t@, style),
    ensures
        match r {
            Some(m) => token_modifier(t@, style) == Some((m.0@, m.1@)),
            None => token_modifier(t@, style) is None,
        },
{
    match two_segments(t, ':') {
        None => None,
        Some((k, v)) => {
            if skipped_exec(t, style.skip) {
                return None;
            }
            let (key, raw) = if style.trim_parts {
                (trim_vec(&k), trim_vec(&v))
            } else {
                (k, v)
            };
            let value = match style.value {
                ValueRule::TrimQuotes => trim_matches_vec(&raw, '"'),
                ValueRule::StripPair => strip_pair_exec(&raw),
            };
            Some((string_of(&key), string_of(&value)))
        },
    }
}

/// The modifiers that the tokens `toks` give, in order.
pub fn tokens_modifiers_exec(toks: &Vec<Vec<char>>, style: ModStyle) -> (r: Vec<(String, String)>)
    requires
        tokens_safe(views(toks@), style),
    ensures
        mods_view(r@) == tokens_modifiers(views(toks@), style, 0),
{
    let ghost st = views(toks@);
    let mut r: Vec<(String, String)> = Vec::new();
    let mut i: usize = 0;
    while i < toks.len()
        invariant
            views(toks@) == st,
            tokens_safe(st, style),
            i <= toks@.len(),
            tokens_modifiers(st, style, 0) == mods_view(r@) + tokens_modifiers(st, style, i as int),
        decreases toks.len() - i,
    {
        proof {
            assert(toks@[i as int]@ == st[i as int]);
        }
        let m = token_modifier_exec(&toks[i], style);
        let ghost old_r = r@;
        match m {
            Some(p) => {
                r.push(p);
                proof {
                    assert(mods_view(r@) =~= mods_view(old_r).push((r@.last().0@, r@.last().1@)));
                }
            },
            None => {},
        }
        i = i + 1;
    }
    proof {
        assert(mods_view(r@) + tokens_modifiers(st, style, i as int) =~= mods_view(r@));
    }
    r
}

/// The modifiers of the whitespace-separated tokens of `v[lo..hi]`.
pub fn text_modifiers_exec(v: &Vec<char>, lo: usize, hi: usize, style: ModStyle) -> (r: Vec<(String, String)>)
    requires
        lo <= hi <= v@.len(),
        tokens_safe(split_ws(trim(v@.subrange(lo as int, hi as int))), style),
    ensures
        mods_view(r@) == text_modifiers(v@.subrange(lo as int, hi as int), style),
{
    let (a, b) = trim_range(v, lo, hi);
    let text = vec_range(v, a, b);
    let toks = split_ws_vec(&text);
    tokens_modifiers_exec(&toks, style)
}

/// Appends the modifiers `mods` to `b`.
pub fn add_modifiers(b: &mut Block, mods: &Vec<(String, String)>)
    ensures
        final(b)@ == with_modifiers(old(b)@, mods_view(mods@)),
{
    let mut i: usize = 0;
    while i < mods.len()
        invariant
            i <= mods@.len(),
            b@ == with_modifiers(old(b)@, mods_view(mods@.take(i as int))),
        decreases mods.len() - i,
    {
        b.add_modifier(mods[i].0.as_str(), mods[i].1.as_str());
        i = i + 1;
        proof {
            assert(mods_view(mods@.take(i as int)) =~= mods_view(mods@.take(i - 1)).push((mods@[i - 1].0@, mods@[i - 1].1@)));
            assert(old(b)@.modifiers + mods_view(mods@.take(i as int)) =~= old(b)@.modifiers + mods_view(mods@.take(i - 1)) + seq![(mods@[i - 1].0@, mods@[i - 1].1@)]);
        }
    }
    proof {
        assert(mods@.take(mods@.len() as int) =~= mods@);
    }
}

/// The block kinds whose opening tag is `[type ...]` and closing tag `[/type]`.
#[derive(Clone, Copy)]
pub enum TaggedKind {
    Question,
    Conditional,
    Error,
    Visualization,
    Preview,
    Data,
    Variable,
    Secret,
    Memory,
    Filename,
    Shell,
    Api,
    Template,
}

/// Whether a block kind takes a `name:` attribute.
#[derive(Clone, Copy)]
pub enum NameRule {
    /// The attribute is not read.
    Absent,
    /// The attribute is read when present.
    Optional,
    /// The attribute must be present.
    Required,
}

/// The block type of kind `k`.
pub open spec fn kind_type(k: TaggedKind) -> Seq<char> {
    match k {
        TaggedKind::Question => "question"@,
        TaggedKind::Conditional => "conditional"@,
        TaggedKind::Error => "error"@,
        TaggedKind::Visualization => "visualization"@,
        TaggedKind::Preview => "preview"@,
        TaggedKind::Data => "data"@,
        TaggedKind::Variable => "variable"@,
        TaggedKind::Secret => "secret"@,
        TaggedKind::Memory => "memory"@,
        TaggedKind::Filename => "filename"@,
        TaggedKind::Shell => "shell"@,
        TaggedKind::Api => "api"@,
        TaggedKind::Template => "template"@,
    }
}

/// The opening tag prefix of kind `k`.
pub open spec fn kind_open(k: TaggedKind) -> Seq<char> {
    match k {
        TaggedKind::Question => "[question"@,
        TaggedKind::Conditional => "[conditional"@,
        TaggedKind::Error => "[error"@,
        TaggedKind::Visualization => "[visualization"@,
        TaggedKind::Preview => "[preview"@,
        TaggedKind::Data => "[data"@,
        TaggedKind::Variable => "[variable"@,
        TaggedKind::Secret => "[secret"@,
        TaggedKind::Memory => "[memory"@,
        TaggedKind::Filename => "[filename"@,
        TaggedKind::Shell => "[shell"@,
        TaggedKind::Api => "[api"@,
        TaggedKind::Template => "[template"@,
    }
}

/// The closing tag of kind `k`.
pub open spec fn kind_close(k: TaggedKind) -> Seq<char> {
    match k {
        TaggedKind::Question => "[/question]"@,
        TaggedKind::Conditional => "[/conditional]"@,
        TaggedKind::Error => "[/error]"@,
        TaggedKind::Visualization => "[/visualization]"@,
        TaggedKind::Preview => "[/preview]"@,
        TaggedKind::Data => "[/data]"@,
        TaggedKind::Variable => "[/variable]"@,
        TaggedKind::Secret => "[/secret]"@,
        TaggedKind::Memory => "[/memory]"@,
        TaggedKind::Filename => "[/filename]"@,
        TaggedKind::Shell => "[/shell]"@,
        TaggedKind::Api => "[/api]"@,
        TaggedKind::Template => "[/template]"@,
    }
}

/// Whether kind `k` reads a name.
pub open spec fn kind_name_rule(k: TaggedKind) -> NameRule {
    match k {
        TaggedKind::Question => NameRule::Optional,
        TaggedKind::Conditional => NameRule::Absent,
        TaggedKind::Error => NameRule::Absent,
        TaggedKind::Visualization => NameRule::Optional,
        TaggedKind::Preview => NameRule::Absent,
        TaggedKind::Data => NameRule::Optional,
        TaggedKind::Variable => NameRule::Required,
        TaggedKind::Secret => NameRule::Required,
        TaggedKind::Memory => NameRule::Optional,
        TaggedKind::Filename => NameRule::Optional,
        TaggedKind::Shell => NameRule::Optional,
        TaggedKind::Api => NameRule::Optional,
        TaggedKind::Template => NameRule::Required,
    }
}

/// The message when the opening tag of kind `k` lacks its `]`.
pub open spec fn kind_format_error(k: TaggedKind) -> Seq<char> {
    match k {
        TaggedKind::Question => "Invalid question block format"@,
        TaggedKind::Conditional => "Invalid conditional block format"@,
        TaggedKind::Error => "Invalid error block format"@,
        TaggedKind::Visualization => "Invalid visualization block format"@,
        TaggedKind::Preview => "Invalid preview block format"@,
        TaggedKind::Data => "Invalid data block format"@,
        TaggedKind::Variable => "Invalid variable block format"@,
        TaggedKind::Secret => "Invalid secret block format"@,
        TaggedKind::Memory => "Invalid memory block format"@,
        TaggedKind::Filename => "Invalid filename block format"@,
        TaggedKind::Shell => "Invalid shell block format"@,
        TaggedKind::Api => "Invalid api block format"@,
        TaggedKind::Template => "Invalid template block format"@,
    }
}

/// The message when kind `k` requires a name and none is given.
pub open spec fn kind_name_error(k: TaggedKind) -> Seq<char> {
    match k {
        TaggedKind::Question => seq![],
        TaggedKind::Conditional => seq![],
        TaggedKind::Error => seq![],
        TaggedKind::Visualization => seq![],
        TaggedKind::Preview => seq![],
        TaggedKind::Data => seq![],
        TaggedKind::Variable => "Variable block requires a name"@,
        TaggedKind::Secret => "Secret block requires a name"@,
        TaggedKind::Memory => seq![],
        TaggedKind::Filename => seq![],
        TaggedKind::Shell => seq![],
        TaggedKind::Api => seq![],
        TaggedKind::Template => "Template block requires a name"@,
    }
}

/// The message when the tags of kind `k` are not found.
pub open spec fn kind_missing_error(k: TaggedKind) -> Seq<char> {
    match k {
        TaggedKind::Question => "Missing question block tags"@,
        TaggedKind::Conditional => "Missing conditional block tags"@,
        TaggedKind::Error => "Missing error block tags"@,
        TaggedKind::Visualization => "Missing visualization block tags"@,
        TaggedKind::Preview => "Missing preview block tags"@,
        TaggedKind::Data => "Missing data block tags"@,
        TaggedKind::Variable => "Missing variable block tags"@,
        TaggedKind::Secret => "Missing secret block tags"@,
        TaggedKind::Memory => "Missing memory block tags"@,
        TaggedKind::Filename => "Missing filename block tags"@,
        TaggedKind::Shell => "Missing shell block tags"@,
        TaggedKind::Api => "Missing api block tags"@,
        TaggedKind::Template => "Missing template block tags"@,
    }
}

/// The attribute (pattern, modifier key) that kind `k` copies into a modifier.
pub open spec fn kind_extra(k: TaggedKind) -> Option<(Seq<char>, Seq<char>)> {
    match k {
        TaggedKind::Question => Some(("model:"@, "model"@)),
        TaggedKind::Conditional => None,
        TaggedKind::Error => Some(("type:"@, "type"@)),
        TaggedKind::Visualization => None,
        TaggedKind::Preview => None,
        TaggedKind::Data => Some(("format:"@, "format"@)),
        TaggedKind::Variable => None,
        TaggedKind::Secret => Some(("env:"@, "env"@)),
        TaggedKind::Memory => None,
        TaggedKind::Filename => None,
        TaggedKind::Shell => None,
        TaggedKind::Api => None,
        TaggedKind::Template => None,
    }
}

/// How kind `k` turns the tokens of its opening tag into modifiers.
pub open spec fn kind_style(k: TaggedKind) -> Option<ModStyle> {
    match k {
        TaggedKind::Question => None,
        TaggedKind::Conditional => Some(ModStyle { skip: SkipRule::Never, trim_parts: false, value: ValueRule::StripPair }),
        TaggedKind::Error => None,
        TaggedKind::Visualization => Some(ModStyle { skip: SkipRule::NamePrefix, trim_parts: true, value: ValueRule::TrimQuotes }),
        TaggedKind::Preview => Some(ModStyle { skip: SkipRule::Never, trim_parts: true, value: ValueRule::TrimQuotes }),
        TaggedKind::Data => None,
        TaggedKind::Variable => Some(ModStyle { skip: SkipRule::NamePrefix, trim_parts: true, value: ValueRule::TrimQuotes }),
        TaggedKind::Secret => None,
        TaggedKind::Memory => Some(ModStyle { skip: SkipRule::NamePrefix, trim_parts: true, value: ValueRule::TrimQuotes }),
        TaggedKind::Filename => Some(ModStyle { skip: SkipRule::NamePrefix, trim_parts: true, value: ValueRule::TrimQuotes }),
        TaggedKind::Shell => Some(ModStyle { skip: SkipRule::NamePrefix, trim_parts: true, value: ValueRule::TrimQuotes }),
        TaggedKind::Api => Some(ModStyle { skip: SkipRule::NamePrefix, trim_parts: true, value: ValueRule::TrimQuotes }),
        TaggedKind::Template => Some(ModStyle { skip: SkipRule::NamePrefix, trim_parts: true, value: ValueRule::StripPair }),
    }
}

/// The result of parsing `s` as a block of kind `k`. When the opening or
/// closing tag is missing the parse fails.
pub open spec fn parse_tagged(s: Seq<char>, k: TaggedKind) -> Result<BlockModel, ParserErrorModel> {
    match (find(s, kind_open(k)), rfind(s, kind_close(k))) {
        (Some(o), Some(ct)) => match find_in(s, "]"@, o, s.len() as int) {
            None => Err(ParserErrorModel::ParseError(kind_format_error(k))),
            Some(cb) => {
                let name = attr_value(s, o, cb, "name:"@);
                if kind_name_rule(k) == NameRule::Required && name is None {
                    Err(ParserErrorModel::ParseError(kind_name_error(k)))
                } else {
                    let nm = if kind_name_rule(k) == NameRule::Absent {
                        None
                    } else {
                        name
                    };
                    let b = new_block(kind_type(k), nm, trim(s.subrange(cb + 1, ct)));
                    let b2 = match kind_extra(k) {
                        Some((pat, key)) => match attr_value(s, o, cb, pat) {
                            Some(v) => crate::parser::blocks::with_modifier(b, key, v),
                            None => b,
                        },
                        None => b,
                    };
                    match kind_style(k) {
                        Some(st) => Ok(
                            with_modifiers(b2, text_modifiers(s.subrange(o + kind_open(k).len(), cb), st)),
                        ),
                        None => Ok(b2),
                    }
                }
            },
        },
        _ => Err(ParserErrorModel::ParseError(kind_missing_error(k))),
    }
}

/// The inputs on which parsing a block of kind `k` does not slice out of
/// range: the closing tag does not come before the end of the opening tag,
/// and no modifier value is a lone `"` where one enclosing pair is removed.
pub open spec fn tagged_ok(s: Seq<char>, k: TaggedKind) -> bool {
    match (find(s, kind_open(k)), rfind(s, kind_close(k))) {
        (Some(o), Some(ct)) => match find_in(s, "]"@, o, s.len() as int) {
            Some(cb) => (kind_name_rule(k) == NameRule::Required && attr_value(s, o, cb, "name:"@) is None) || (
            cb + 1 <= ct && match kind_style(k) {
                Some(st) => tokens_safe(split_ws(trim(s.subrange(o + kind_open(k).len(), cb))), st),
                None => true,
            }),
            None => true,
        },
        _ => true,
    }
}

fn kind_type_str(k: TaggedKind) -> (r: &'static str)
    ensures
        r@ == kind_type(k),
{
    match k {
        TaggedKind::Question => "question",
        TaggedKind::Conditional => "conditional",
        TaggedKind::Error => "error",
        TaggedKind::Visualization => "visualization",
        TaggedKind::Preview => "preview",
        TaggedKind::Data => "data",
        TaggedKind::Variable => "variable",
        TaggedKind::Secret => "secret",
        TaggedKind::Memory => "memory",
        TaggedKind::Filename => "filename",
        TaggedKind::Shell => "shell",
        TaggedKind::Api => "api",
        TaggedKind::Template => "template",
    }
}

fn kind_open_str(k: TaggedKind) -> (r: &'static str)
    ensures
        r@ == kind_open(k),
{
    match k {
        TaggedKind::Question => "[question",
        TaggedKind::Conditional => "[conditional",
        TaggedKind::Error => "[error",
        TaggedKind::Visualization => "[visualization",
        TaggedKind::Preview => "[preview",
        TaggedKind::Data => "[data",
        TaggedKind::Variable => "[variable",
        TaggedKind::Secret => "[secret",
        TaggedKind::Memory => "[memory",
        TaggedKind::Filename => "[filename",
        TaggedKind::Shell => "[shell",
        TaggedKind::Api => "[api",
        TaggedKind::Template => "[template",
    }
}

fn kind_close_str(k: TaggedKind) -> (r: &'static str)
    ensures
        r@ == kind_close(k),
{
    match k {
        TaggedKind::Question => "[/question]",
        TaggedKind::Conditional => "[/conditional]",
        TaggedKind::Error => "[/error]",
        TaggedKind::Visualization => "[/visualization]",
        TaggedKind::Preview => "[/preview]",
        TaggedKind::Data => "[/data]",
        TaggedKind::Variable => "[/variable]",
        TaggedKind::Secret => "[/secret]",
        TaggedKind::Memory => "[/memory]",
        TaggedKind::Filename => "[/filename]",
        TaggedKind::Shell => "[/shell]",
        TaggedKind::Api => "[/api]",
        TaggedKind::Template => "[/template]",
    }
}

fn kind_name_rule_exec(k: TaggedKind) -> (r: NameRule)
    ensures
        r == kind_name_rule(k),
{
    match k {
        TaggedKind::Question => NameRule::Optional,
        TaggedKind::Conditional => NameRule::Absent,
        TaggedKind::Error => NameRule::Absent,
        TaggedKind::Visualization => NameRule::Optional,
        TaggedKind::Preview => NameRule::Absent,
        TaggedKind::Data => NameRule::Optional,
        TaggedKind::Variable => NameRule::Required,
        TaggedKind::Secret => NameRule::Required,
        TaggedKind::Memory => NameRule::Optional,
        TaggedKind::Filename => NameRule::Optional,
        TaggedKind::Shell => NameRule::Optional,
        TaggedKind::Api => NameRule::Optional,
        TaggedKind::Template => NameRule::Required,
    }
}

fn kind_format_error_str(k: TaggedKind) -> (r: &'static str)
    ensures
        r@ == kind_format_error(k),
{
    match k {
        TaggedKind::Question => "Invalid question block format",
        TaggedKind::Conditional => "Invalid conditional block format",
        TaggedKind::Error => "Invalid error block format",
        TaggedKind::Visualization => "Invalid visualization block format",
        TaggedKind::Preview => "Invalid preview block format",
        TaggedKind::Data => "Invalid data block format",
        TaggedKind::Variable => "Invalid variable block format",
        TaggedKind::Secret => "Invalid secret block format",
        TaggedKind::Memory => "Invalid memory block format",
        TaggedKind::Filename => "Invalid filename block format",
        TaggedKind::Shell => "Invalid shell block format",
        TaggedKind::Api => "Invalid api block format",
        TaggedKind::Template => "Invalid template block format",
    }
}

fn kind_name_error_str(k: TaggedKind) -> (r: &'static str)
    requires
        kind_name_rule(k) == NameRule::Required,
    ensures
        r@ == kind_name_error(k),
{
    match k {
        TaggedKind::Question => "",
        TaggedKind::Conditional => "",
        TaggedKind::Error => "",
        TaggedKind::Visualization => "",
        TaggedKind::Preview => "",
        TaggedKind::Data => "",
        TaggedKind::Variable => "Variable block requires a name",
        TaggedKind::Secret => "Secret block requires a name",
        TaggedKind::Memory => "",
        TaggedKind::Filename => "",
        TaggedKind::Shell => "",
        TaggedKind::Api => "",
        TaggedKind::Template => "Template block requires a name",
    }
}

fn kind_missing_error_str(k: TaggedKind) -> (r: &'static str)
    ensures
        r@ == kind_missing_error(k),
{
    match k {
        TaggedKind::Question => "Missing question block tags",
        TaggedKind::Conditional => "Missing conditional block tags",
        TaggedKind::Error => "Missing error block tags",
        TaggedKind::Visualization => "Missing visualization block tags",
        TaggedKind::Preview => "Missing preview block tags",
        TaggedKind::Data => "Missing data block tags",
        TaggedKind::Variable => "Missing variable block tags",
        TaggedKind::Secret => "Missing secret block tags",
        TaggedKind::Memory => "Missing memory block tags",
        TaggedKind::Filename => "Missing filename block tags",
        TaggedKind::Shell => "Missing shell block tags",
        TaggedKind::Api => "Missing api block tags",
        TaggedKind::Template => "Missing template block tags",
    }
}

fn kind_extra_exec(k: TaggedKind) -> (r: Option<(&'static str, &'static str)>)
    ensures
        match r {
            Some(p) => kind_extra(k) == Some((p.0@, p.1@)),
            None => kind_extra(k) is None,
        },
{
    match k {
        TaggedKind::Question => Some(("model:", "model")),
        TaggedKind::Conditional => None,
        TaggedKind::Error => Some(("type:", "type")),
        TaggedKind::Visualization => None,
        TaggedKind::Preview => None,
        TaggedKind::Data => Some(("format:", "format")),
        TaggedKind::Variable => None,
        TaggedKind::Secret => Some(("env:", "env")),
        TaggedKind::Memory => None,
        TaggedKind::Filename => None,
        TaggedKind::Shell => None,
        TaggedKind::Api => None,
        TaggedKind::Template => None,
    }
}

fn kind_style_exec(k: TaggedKind) -> (r: Option<ModStyle>)
    ensures
        r == kind_style(k),
{
    match k {
        TaggedKind::Question => None,
        TaggedKind::Conditional => Some(ModStyle { skip: SkipRule::Never, trim_parts: false, value: ValueRule::StripPair }),
        TaggedKind::Error => None,
        TaggedKind::Visualization => Some(ModStyle { skip: SkipRule::NamePrefix, trim_parts: true, value: ValueRule::TrimQuotes }),
        TaggedKind::Preview => Some(ModStyle { skip: SkipRule::Never, trim_parts: true, value: ValueRule::TrimQuotes }),
        TaggedKind::Data => None,
        TaggedKind::Variable => Some(ModStyle { skip: SkipRule::NamePrefix, trim_parts: true, value: ValueRule::TrimQuotes }),
        TaggedKind::Secret => None,
        TaggedKind::Memory => Some(ModStyle { skip: SkipRule::NamePrefix, trim_parts: true, value: ValueRule::TrimQuotes }),
        TaggedKind::Filename => Some(ModStyle { skip: SkipRule::NamePrefix, trim_parts: true, value: ValueRule::TrimQuotes }),
        TaggedKind::Shell => Some(ModStyle { skip: SkipRule::NamePrefix, trim_parts: true, value: ValueRule::TrimQuotes }),
        TaggedKind::Api => Some(ModStyle { skip: SkipRule::NamePrefix, trim_parts: true, value: ValueRule::TrimQuotes }),
        TaggedKind::Template => Some(ModStyle { skip: SkipRule::NamePrefix, trim_parts: true, value: ValueRule::StripPair }),
    }
}

proof fn lemma_open_no_bracket(k: TaggedKind)
    ensures
        forall|s: Seq<char>, o: int|
            match_at(s, kind_open(k), o) ==> (#[trigger] find_in(s, "]"@, o, s.len() as int) matches Some(cb)
                ==> o + kind_open(k).len() <= cb),
{
    match k {
        TaggedKind::Question => { reveal_strlit("[question"); },
        TaggedKind::Conditional => { reveal_strlit("[conditional"); },
        TaggedKind::Error => { reveal_strlit("[error"); },
        TaggedKind::Visualization => { reveal_strlit("[visualization"); },
        TaggedKind::Preview => { reveal_strlit("[preview"); },
        TaggedKind::Data => { reveal_strlit("[data"); },
        TaggedKind::Variable => { reveal_strlit("[variable"); },
        TaggedKind::Secret => { reveal_strlit("[secret"); },
        TaggedKind::Memory => { reveal_strlit("[memory"); },
        TaggedKind::Filename => { reveal_strlit("[filename"); },
        TaggedKind::Shell => { reveal_strlit("[shell"); },
        TaggedKind::Api => { reveal_strlit("[api"); },
        TaggedKind::Template => { reveal_strlit("[template"); },
    }
    lemma_strlit_no_bracket(kind_open(k));
}

/// A `String` for an optional character vector.
pub fn opt_string(o: &Option<Vec<char>>) -> (r: Option<String>)
    ensures
        opt_view(r) == opt_seq(*o),
{
    match o {
        Some(v) => Some(string_of(v)),
        None => None,
    }
}

/// Parses `input` as a block of kind `k`.
pub fn parse_tagged_block(input: &str, k: TaggedKind) -> (r: Result<Block, ParserError>)
    requires
        tagged_ok(input@, k),
    ensures
        crate::parser::result_view(r) == parse_tagged(input@, k),
{
    let v = chars_of(input);
    let n = v.len();
    let open = find_str_in(&v, kind_open_str(k), 0, n);
    let ct = rfind_str(&v, kind_close_str(k));
    proof {
        lemma_find_in(v@, kind_open(k), 0, n as int);
        lemma_rfind(v@, kind_close(k));
        lemma_open_no_bracket(k);
    }
    match (open, ct) {
        (Some(o), Some(ct)) => {
            match find_str_in(&v, "]", o, n) {
                None => Err(ParserError::ParseError(kind_format_error_str(k).to_owned())),
                Some(cb) => {
                    proof {
                        lemma_find_in(v@, "]"@, o as int, n as int);
                    }
                    let name = attr_value_exec(&v, o, cb, "name:");
                    let rule = kind_name_rule_exec(k);
                    if matches!(rule, NameRule::Required) && name.is_none() {
                        return Err(ParserError::ParseError(kind_name_error_str(k).to_owned()));
                    }
                    let nm: Option<Vec<char>> = if matches!(rule, NameRule::Absent) {
                        None
                    } else {
                        name
                    };
                    let (ca, cz) = trim_range(&v, cb + 1, ct);
                    let content = string_of(&vec_range(&v, ca, cz));
                    let name_s = opt_string(&nm);
                    let mut b = match &name_s {
                        Some(x) => Block::new(kind_type_str(k), Some(x.as_str()), content.as_str()),
                        None => Block::new(kind_type_str(k), None, content.as_str()),
                    };
                    match kind_extra_exec(k) {
                        Some((pat, key)) => {
                            match attr_value_exec(&v, o, cb, pat) {
                                Some(val) => {
                                    let vs = string_of(&val);
                                    b.add_modifier(key, vs.as_str());
                                },
                                None => {},
                            }
                        },
                        None => {},
                    }
                    match kind_style_exec(k) {
                        Some(st) => {
                            let olen = chars_of(kind_open_str(k)).len();
                            let mods = text_modifiers_exec(&v, o + olen, cb, st);
                            add_modifiers(&mut b, &mods);
                        },
                        None => {},
                    }
                    Ok(b)
                },
            }
        },
        _ => Err(ParserError::ParseError(kind_missing_error_str(k).to_owned())),
    }
}

} // verus!
