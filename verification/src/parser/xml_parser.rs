//! Parsing of XML documents (`<meta:document>` with `<meta:type>` block
//! elements) into blocks. The XML is tokenized by `quick_xml`; the blocks are
//! built from its events.

use vstd::prelude::*;
use crate::text::{
    char_index, chars_of, has_char, starts_with, trim, trim_vec, string_of, string_of_range, vec_range,
    matches_at, match_at, views, char_index_vec, lemma_char_index_bounds, first_segment, str_is,
};
use crate::parser::blocks::{Block, BlockModel, opt_view, pairs_view};
use crate::parser::{ParserError, ParserErrorModel, valid_block_type, is_valid_block_type};
use crate::parser::document_processor::blocks_view;
use crate::parser::block_parsers::typed::append_str;
use crate::parser::xml_source::{xml_event_at, event_source, next_event};

verus! {

/// An XML event with its names and text decoded.
pub enum XmlEvent {
    Start { name: String, attributes: Vec<Option<(String, String)>> },
    Empty { name: String, attributes: Vec<Option<(String, String)>> },
    End { name: String },
    Text { text: Option<String> },
    CData { text: String },
    Eof,
    Error { message: String },
    Other,
}

/// The mathematical value of an XML event.
pub enum XmlEventModel {
    Start(Seq<char>, Seq<Option<(Seq<char>, Seq<char>)>>),
    Empty(Seq<char>, Seq<Option<(Seq<char>, Seq<char>)>>),
    End(Seq<char>),
    Text(Option<Seq<char>>),
    CData(Seq<char>),
    Eof,
    Error(Seq<char>),
    Other,
}

/// The view of an attribute entry.
pub open spec fn attr_view(a: Option<(String, String)>) -> Option<(Seq<char>, Seq<char>)> {
    match a {
        Some(p) => Some((p.0@, p.1@)),
        None => None,
    }
}

impl View for XmlEvent {
    type V = XmlEventModel;

    open spec fn view(&self) -> XmlEventModel {
        match self {
            XmlEvent::Start { name, attributes } => XmlEventModel::Start(
                name@,
                attributes@.map_values(|a: Option<(String, String)>| attr_view(a)),
            ),
            XmlEvent::Empty { name, attributes } => XmlEventModel::Empty(
                name@,
                attributes@.map_values(|a: Option<(String, String)>| attr_view(a)),
            ),
            XmlEvent::End { name } => XmlEventModel::End(name@),
            XmlEvent::Text { text } => XmlEventModel::Text(opt_view(*text)),
            XmlEvent::CData { text } => XmlEventModel::CData(text@),
            XmlEvent::Eof => XmlEventModel::Eof,
            XmlEvent::Error { message } => XmlEventModel::Error(message@),
            XmlEvent::Other => XmlEventModel::Other,
        }
    }
}

/// The views of a sequence of events.
pub open spec fn events_view(evs: Seq<XmlEvent>) -> Seq<XmlEventModel> {
    evs.map_values(|e: XmlEvent| e@)
}

/// The state of block building: inside a document element or not, the
/// blocks opened but not closed with their text so far, and the finished
/// top-level blocks.
pub struct XmlState {
    pub in_doc: bool,
    pub stack: Seq<BlockModel>,
    pub contents: Seq<Seq<char>>,
    pub blocks: Seq<BlockModel>,
}

/// `s` with every leading copy of `p` removed (`trim_start_matches`).
pub open spec fn strip_all_prefix(s: Seq<char>, p: Seq<char>) -> Seq<char>
    decreases s.len(),
{
    if p.len() > 0 && starts_with(s, p) {
        strip_all_prefix(s.skip(p.len() as int), p)
    } else {
        s
    }
}

/// Whether an element name is the document element.
pub open spec fn is_doc(name: Seq<char>) -> bool {
    name == "meta:document"@ || name == "document"@
}

/// `s` after its first `c` (the second part of `splitn(2, c)`).
pub open spec fn after_first(s: Seq<char>, c: char) -> Seq<char> {
    match char_index(s, c, 0) {
        Some(i) => s.skip(i + 1),
        None => seq![],
    }
}

/// The name and modifiers of a block of type `bt` after reading one more
/// attribute. A `name` attribute, or a `name:value` key, sets the name; a
/// `type` attribute of a code block becomes `language`; a key `k:v` is
/// recorded under `k`; every other attribute is recorded as it is, with its
/// raw value.
pub open spec fn attr_step(
    bt: Seq<char>,
    acc: (Option<Seq<char>>, Seq<(Seq<char>, Seq<char>)>),
    a: Option<(Seq<char>, Seq<char>)>,
) -> (Option<Seq<char>>, Seq<(Seq<char>, Seq<char>)>) {
    match a {
        None => acc,
        Some((raw, value)) => if raw == "name"@ && value.len() > 0 {
            (Some(value), acc.1)
        } else {
            let key = if has_char(raw, ':') {
                first_segment(raw, ':')
            } else {
                raw
            };
            let actual = if has_char(raw, ':') {
                after_first(raw, ':')
            } else {
                value
            };
            if key == "name"@ {
                (Some(actual), acc.1)
            } else if key == "type"@ && bt == "code"@ {
                (acc.0, acc.1.push(("language"@, value)))
            } else {
                (acc.0, acc.1.push((key, value)))
            }
        },
    }
}

/// The name and modifiers of a block of type `bt` with attributes `attrs`.
pub open spec fn attrs_result(bt: Seq<char>, attrs: Seq<Option<(Seq<char>, Seq<char>)>>) -> (
    Option<Seq<char>>,
    Seq<(Seq<char>, Seq<char>)>,
)
    decreases attrs.len(),
{
    if attrs.len() == 0 {
        (None, seq![])
    } else {
        attr_step(bt, attrs_result(bt, attrs.drop_last()), attrs.last())
    }
}

/// The block that a start element of type `bt` opens.
pub open spec fn start_model(bt: Seq<char>, attrs: Seq<Option<(Seq<char>, Seq<char>)>>) -> BlockModel {
    let (nm, mods) = attrs_result(bt, attrs);
    BlockModel { block_type: bt, name: nm, modifiers: mods, content: seq![], children: seq![] }
}

/// The state after one event. A start element of a valid block type inside
/// the document opens a block; the matching end element closes the newest
/// open block with its text trimmed and adds it to its parent, or to the
/// top-level blocks; text and CDATA inside an open block add to its text.
pub open spec fn xml_step(st: XmlState, e: XmlEventModel) -> XmlState {
    match e {
        XmlEventModel::Start(name, attrs) => if is_doc(name) {
            XmlState { in_doc: true, ..st }
        } else if !st.in_doc {
            st
        } else {
            let bt = strip_all_prefix(name, "meta:"@);
            if valid_block_type(bt) {
                XmlState {
                    stack: st.stack.push(start_model(bt, attrs)),
                    contents: st.contents.push(seq![]),
                    ..st
                }
            } else {
                st
            }
        },
        XmlEventModel::End(name) => if is_doc(name) {
            XmlState { in_doc: false, ..st }
        } else {
            let bt = strip_all_prefix(name, "meta:"@);
            if st.in_doc && valid_block_type(bt) && st.stack.len() > 0 {
                let b = BlockModel { content: trim(st.contents.last()), ..st.stack.last() };
                let stack = st.stack.drop_last();
                let contents = st.contents.drop_last();
                if stack.len() > 0 {
                    XmlState {
                        stack: stack.update(
                            stack.len() - 1,
                            BlockModel { children: stack.last().children.push(b), ..stack.last() },
                        ),
                        contents,
                        ..st
                    }
                } else {
                    XmlState { stack, contents, blocks: st.blocks.push(b), ..st }
                }
            } else {
                st
            }
        },
        XmlEventModel::Text(t) => if st.in_doc && st.stack.len() > 0 && t is Some {
            XmlState {
                contents: st.contents.update(st.contents.len() - 1, st.contents.last() + t.unwrap()),
                ..st
            }
        } else {
            st
        },
        XmlEventModel::CData(t) => if st.in_doc && st.stack.len() > 0 {
            XmlState { contents: st.contents.update(st.contents.len() - 1, st.contents.last() + t), ..st }
        } else {
            st
        },
        _ => st,
    }
}

/// The outcome once the events are read: the top-level blocks, or an error
/// when there are none.
pub open spec fn xml_finish(st: XmlState) -> Result<Seq<BlockModel>, ParserErrorModel> {
    if st.blocks.len() == 0 {
        Err(ParserErrorModel::ParseError("No valid blocks found in XML document"@))
    } else {
        Ok(st.blocks)
    }
}

/// The outcome of the events `evs[i..]` from state `st`: they are read up
/// to the first end-of-input or error event; an error event fails.
pub open spec fn run_xml(evs: Seq<XmlEventModel>, i: int, st: XmlState) -> Result<Seq<BlockModel>, ParserErrorModel>
    decreases evs.len() - i,
{
    if i < 0 || i >= evs.len() {
        xml_finish(st)
    } else {
        match evs[i] {
            XmlEventModel::Eof => xml_finish(st),
            XmlEventModel::Error(m) => Err(ParserErrorModel::ParseError("XML parsing error: "@ + m)),
            e => run_xml(evs, i + 1, xml_step(st, e)),
        }
    }
}

/// The initial state: outside the document, nothing open.
pub open spec fn xml_init() -> XmlState {
    XmlState { in_doc: false, stack: seq![], contents: seq![], blocks: seq![] }
}

/// The blocks that the events `evs` describe.
pub open spec fn blocks_from_events(evs: Seq<XmlEventModel>) -> Result<Seq<BlockModel>, ParserErrorModel> {
    run_xml(evs, 0, xml_init())
}

/// The value of a parse result of several blocks.
pub open spec fn blocks_result_view(r: Result<Vec<Block>, ParserError>) -> Result<Seq<BlockModel>, ParserErrorModel> {
    match r {
        Ok(bs) => Ok(blocks_view(bs@)),
        Err(e) => Err(e@),
    }
}

/// The state that the building loop holds, as a value.
pub open spec fn state_of(in_doc: bool, stack: Seq<Block>, contents: Seq<Vec<char>>, blocks: Seq<Block>) -> XmlState {
    XmlState { in_doc, stack: blocks_view(stack), contents: views(contents), blocks: blocks_view(blocks) }
}

/// The views of the attributes of a start element.
pub open spec fn attrs_view(attrs: Seq<Option<(String, String)>>) -> Seq<Option<(Seq<char>, Seq<char>)>> {
    attrs.map_values(|a: Option<(String, String)>| attr_view(a))
}

/// `s` with every leading copy of `p` removed.
fn strip_all_prefix_vec(s: &Vec<char>, p: &Vec<char>) -> (r: Vec<char>)
    ensures
        r@ == strip_all_prefix(s@, p@),
{
    let n = s.len();
    if p.len() == 0 {
        proof {
            assert(s@.subrange(0, n as int) =~= s@);
        }
        return vec_range(s, 0, n);
    }
    let mut i: usize = 0;
    proof {
        assert(s@.skip(0) =~= s@);
    }
    while matches_at(s, p, i)
        invariant
            n == s@.len(),
            p@.len() > 0,
            i <= n,
            strip_all_prefix(s@, p@) == strip_all_prefix(s@.skip(i as int), p@),
        decreases n - i,
    {
        proof {
            let t = s@.skip(i as int);
            assert forall|j: int| 0 <= j < p@.len() implies #[trigger] t[0 + j] == p@[j] by {
                assert(t[j] == s@[i + j]);
            }
            assert(starts_with(t, p@));
            assert(t.skip(p@.len() as int) =~= s@.skip(i + p@.len()));
        }
        i = i + p.len();
    }
    proof {
        let t = s@.skip(i as int);
        if starts_with(t, p@) {
            assert forall|j: int| 0 <= j < p@.len() implies #[trigger] s@[i + j] == p@[j] by {
                assert(t[0 + j] == p@[j]);
            }
            assert(match_at(s@, p@, i as int));
        }
        assert(s@.subrange(i as int, n as int) =~= t);
    }
    vec_range(s, i, n)
}

/// Whether `name` is the document element.
fn is_doc_exec(name: &str) -> (r: bool)
    ensures
        r == is_doc(name@),
{
    str_is(name, "meta:document") || str_is(name, "document")
}

/// The block that a start element of type `bt` with the attributes `attrs`
/// opens, with no content and no children yet.
fn start_block(bt: String, attrs: &Vec<Option<(String, String)>>) -> (r: Block)
    ensures
        r@ == start_model(bt@, attrs_view(attrs@)),
{
    let ghost av = attrs_view(attrs@);
    let is_code = str_is(bt.as_str(), "code");
    let mut name: Option<String> = None;
    let mut mods: Vec<(String, String)> = Vec::new();
    let mut i: usize = 0;
    proof {
        assert(av.take(0) =~= Seq::<Option<(Seq<char>, Seq<char>)>>::empty());
        assert(pairs_view(mods@) =~= Seq::<(Seq<char>, Seq<char>)>::empty());
    }
    while i < attrs.len()
        invariant
            av == attrs_view(attrs@),
            i <= attrs@.len(),
            is_code == (bt@ == "code"@),
            (opt_view(name), pairs_view(mods@)) == attrs_result(bt@, av.take(i as int)),
        decreases attrs.len() - i,
    {
        proof {
            assert(av.take(i as int + 1).drop_last() =~= av.take(i as int));
            assert(av.take(i as int + 1).last() == attr_view(attrs@[i as int]));
        }
        let ghost old_mods = mods@;
        match &attrs[i] {
            None => {},
            Some(pair) => {
                let raw = &pair.0;
                let value = &pair.1;
                let rv = chars_of(raw.as_str());
                let vv = chars_of(value.as_str());
                if str_is(raw.as_str(), "name") && vv.len() > 0 {
                    name = Some(value.clone());
                } else {
                    let n = rv.len();
                    let (key, actual) = match char_index_vec(&rv, ':', 0) {
                        Some(c) => {
                            proof {
                                lemma_char_index_bounds(rv@, ':', 0);
                                assert(rv@.subrange(0, c as int) =~= rv@.take(c as int));
                                assert(rv@.subrange(c as int + 1, n as int) =~= rv@.skip(c as int + 1));
                            }
                            (string_of_range(&rv, 0, c), string_of_range(&rv, c + 1, n))
                        },
                        None => (raw.clone(), value.clone()),
                    };
                    if str_is(key.as_str(), "name") {
                        name = Some(actual);
                    } else if is_code && str_is(key.as_str(), "type") {
                        mods.push(("language".to_owned(), value.clone()));
                        proof {
                            assert(pairs_view(mods@) =~= pairs_view(old_mods).push(("language"@, value@)));
                        }
                    } else {
                        mods.push((key, value.clone()));
                        proof {
                            assert(pairs_view(mods@) =~= pairs_view(old_mods).push((key@, value@)));
                        }
                    }
                }
            },
        }
        i = i + 1;
    }
    proof {
        assert(av.take(attrs@.len() as int) =~= av);
    }
    let r = Block { block_type: bt, name, modifiers: mods, content: String::new(), children: Vec::new() };
    proof {
        assert(r@.children =~= Seq::<BlockModel>::empty());
    }
    r
}

/// Builds the blocks that the XML events `evs` describe: the events are
/// read up to the first end-of-input or error event. Elements named
/// `meta:document` or `document` delimit the document; inside it, every
/// element whose name, without its `meta:` prefixes, is a valid block type
/// opens a block that its end element closes, with its text trimmed, as a
/// child of the enclosing block or as a top-level block. Attributes give the
/// name and the modifiers. An error event fails with its message; no
/// top-level block fails too.
pub fn blocks_from_xml_events(evs: &Vec<XmlEvent>) -> (r: Result<Vec<Block>, ParserError>)
    ensures
        blocks_result_view(r) == blocks_from_events(events_view(evs@)),
{
    let ghost ev = events_view(evs@);
    let meta = chars_of("meta:");
    let mut in_doc = false;
    let mut stack: Vec<Block> = Vec::new();
    let mut contents: Vec<Vec<char>> = Vec::new();
    let mut blocks: Vec<Block> = Vec::new();
    let mut i: usize = 0;
    proof {
        assert(blocks_view(stack@) =~= Seq::<BlockModel>::empty());
        assert(views(contents@) =~= Seq::<Seq<char>>::empty());
        assert(state_of(in_doc, stack@, contents@, blocks@) == xml_init());
    }
    while i < evs.len()
        invariant
            ev == events_view(evs@),
            meta@ == "meta:"@,
            i <= evs@.len(),
            stack@.len() == contents@.len(),
            blocks_from_events(ev) == run_xml(ev, i as int, state_of(in_doc, stack@, contents@, blocks@)),
        decreases evs.len() - i,
    {
        let ghost st = state_of(in_doc, stack@, contents@, blocks@);
        proof {
            assert(ev[i as int] == evs@[i as int]@);
        }
        match &evs[i] {
            XmlEvent::Eof => {
                return finish_blocks(blocks, Ghost(st));
            },
            XmlEvent::Error { message } => {
                let mut m = chars_of("XML parsing error: ");
                append_str(&mut m, message.as_str());
                return Err(ParserError::ParseError(string_of(&m)));
            },
            XmlEvent::Start { name, attributes } => {
                if is_doc_exec(name.as_str()) {
                    in_doc = true;
                } else if in_doc {
                    let bt = string_of(&strip_all_prefix_vec(&chars_of(name.as_str()), &meta));
                    if is_valid_block_type(bt.as_str()) {
                        let b = start_block(bt, attributes);
                        stack.push(b);
                        contents.push(Vec::new());
                    }
                }
            },
            XmlEvent::End { name } => {
                if is_doc_exec(name.as_str()) {
                    in_doc = false;
                } else {
                    let bt = string_of(&strip_all_prefix_vec(&chars_of(name.as_str()), &meta));
                    if in_doc && is_valid_block_type(bt.as_str()) && stack.len() > 0 {
                        let mut b = stack.pop().unwrap();
                        let c = contents.pop().unwrap();
                        b.content = string_of(&trim_vec(&c));
                        if stack.len() > 0 {
                            let mut parent = stack.pop().unwrap();
                            parent.add_child(b);
                            stack.push(parent);
                        } else {
                            blocks.push(b);
                        }
                    }
                }
            },
            XmlEvent::Text { text } => {
                if in_doc && stack.len() > 0 {
                    match text {
                        Some(t) => {
                            let mut last = contents.pop().unwrap();
                            append_str(&mut last, t.as_str());
                            contents.push(last);
                        },
                        None => {},
                    }
                }
            },
            XmlEvent::CData { text } => {
                if in_doc && stack.len() > 0 {
                    let mut last = contents.pop().unwrap();
                    append_str(&mut last, text.as_str());
                    contents.push(last);
                }
            },
            XmlEvent::Empty { .. } => {},
            XmlEvent::Other => {},
        }
        proof {
            let nx = xml_step(st, ev[i as int]);
            assert(blocks_view(stack@) =~= nx.stack);
            assert(views(contents@) =~= nx.contents);
            assert(blocks_view(blocks@) =~= nx.blocks);
            assert(state_of(in_doc, stack@, contents@, blocks@) == nx);
        }
        i = i + 1;
    }
    finish_blocks(blocks, Ghost(state_of(in_doc, stack@, contents@, blocks@)))
}

/// The outcome once every event is read: the top-level blocks, or an error
/// when there are none.
fn finish_blocks(blocks: Vec<Block>, Ghost(st): Ghost<XmlState>) -> (r: Result<Vec<Block>, ParserError>)
    requires
        st.blocks == blocks_view(blocks@),
    ensures
        blocks_result_view(r) == xml_finish(st),
{
    if blocks.len() == 0 {
        Err(ParserError::ParseError("No valid blocks found in XML document".to_owned()))
    } else {
        Ok(blocks)
    }
}

/// The events that a reader yields for `input` from the `k`-th on, up to and
/// including the first end-of-input or error event, and at most `left + 1`
/// of them.
pub open spec fn read_events(input: Seq<char>, k: nat, left: nat) -> Seq<XmlEventModel>
    decreases left,
{
    let e = xml_event_at(input, k);
    if e is Eof || e is Error || left == 0 {
        seq![e]
    } else {
        seq![e] + read_events(input, k + 1, (left - 1) as nat)
    }
}

/// The events that a reader yields for `input`, up to and including the first
/// end-of-input or error event, and at most one more than the input has
/// bytes. The bound is never reached first: the reader makes every other
/// event from bytes that it then passes, up to and including a `<` or `>`
/// (`read_until_open` and `read_until_close` in quick-xml 0.28,
/// src/reader/mod.rs), so it runs out of input within that many reads.
pub open spec fn xml_events_of(input: Seq<char>) -> Seq<XmlEventModel> {
    read_events(input, 0, vstd::utf8::encode_utf8(input).len())
}

proof fn lemma_read_events_step(input: Seq<char>, k: nat, left: nat)
    requires
        left > 0,
        !(xml_event_at(input, k) is Eof),
        !(xml_event_at(input, k) is Error),
    ensures
        read_events(input, k, left) == seq![xml_event_at(input, k)] + read_events(input, k + 1, (left - 1) as nat),
{
}

/// Reads the events of `input` with `quick_xml`, whitespace around text
/// trimmed, up to and including the first end-of-input or error event.
fn xml_events(input: &str) -> (r: Vec<XmlEvent>)
    ensures
        events_view(r@) == xml_events_of(input@),
{
    let mut src = event_source(input);
    let mut evs: Vec<XmlEvent> = Vec::new();
    let n = input.as_bytes().len();
    let mut remaining: usize = n;
    let ghost total = xml_events_of(input@);
    assert(events_view(evs@) + read_events(input@, 0, n as nat) =~= total);
    loop
        invariant_except_break
            src.input() == input@,
            src.count() == evs@.len(),
            n == vstd::utf8::encode_utf8(input@).len(),
            remaining <= n,
            evs@.len() + remaining == n,
            total == xml_events_of(input@),
            events_view(evs@) + read_events(input@, evs@.len() as nat, remaining as nat) == total,
        ensures
            events_view(evs@) == total,
        decreases remaining,
    {
        let ghost k = evs@.len() as nat;
        let ghost old_evs = evs@;
        let e = next_event(&mut src);
        let stop = matches!(e, XmlEvent::Eof) || matches!(e, XmlEvent::Error { .. });
        evs.push(e);
        proof {
            assert(events_view(evs@) =~= events_view(old_evs).push(e@));
        }
        if stop || remaining == 0 {
            proof {
                assert(read_events(input@, k, remaining as nat) =~= seq![e@]);
                assert(events_view(old_evs) + seq![e@] =~= events_view(evs@));
            }
            break;
        }
        proof {
            lemma_read_events_step(input@, k, remaining as nat);
            assert(events_view(old_evs) + (seq![e@] + read_events(input@, k + 1, (remaining - 1) as nat))
                =~= events_view(evs@) + read_events(input@, k + 1, (remaining - 1) as nat));
        }
        remaining = remaining - 1;
    }
    evs
}

/// Parses an XML document: `quick_xml` reads `input` into events, with
/// whitespace around text trimmed, and the blocks are built from them as
/// `blocks_from_xml_events` does.
pub fn parse_xml_document(input: &str) -> (r: Result<Vec<Block>, ParserError>)
    ensures
        blocks_result_view(r) == blocks_from_events(xml_events_of(input@)),
{
    let evs = xml_events(input);
    blocks_from_xml_events(&evs)
}

/// A block of a valid type whose nested blocks are all of valid types.
pub open spec fn tree_valid(b: BlockModel) -> bool
    decreases b,
{
    valid_block_type(b.block_type) && forall|i: int| 0 <= i < b.children.len() ==> tree_valid(#[trigger] b.children[i])
}

/// The open blocks are of valid types with valid nested blocks, and so are
/// the finished ones.
spec fn state_valid(st: XmlState) -> bool {
    &&& forall|i: int| 0 <= i < st.stack.len() ==> #[trigger] tree_valid(st.stack[i])
    &&& forall|i: int| 0 <= i < st.blocks.len() ==> #[trigger] tree_valid(st.blocks[i])
}

proof fn lemma_step_valid(st: XmlState, e: XmlEventModel)
    requires
        state_valid(st),
    ensures
        state_valid(xml_step(st, e)),
{
    let nx = xml_step(st, e);
    match e {
        XmlEventModel::Start(name, attrs) => {
            if !is_doc(name) && st.in_doc {
                let bt = strip_all_prefix(name, "meta:"@);
                if valid_block_type(bt) {
                    let b = start_model(bt, attrs);
                    assert(b.children.len() == 0);
                    assert(tree_valid(b));
                    assert forall|i: int| 0 <= i < nx.stack.len() implies #[trigger] tree_valid(nx.stack[i]) by {
                        if i < st.stack.len() {
                            assert(nx.stack[i] == st.stack[i]);
                        }
                    }
                }
            }
        },
        XmlEventModel::End(name) => {
            if !is_doc(name) {
                let bt = strip_all_prefix(name, "meta:"@);
                if st.in_doc && valid_block_type(bt) && st.stack.len() > 0 {
                    let top = st.stack.last();
                    let b = BlockModel { content: trim(st.contents.last()), ..top };
                    assert(tree_valid(top));
                    assert(b.children == top.children);
                    assert(tree_valid(b));
                    let stack = st.stack.drop_last();
                    if stack.len() > 0 {
                        let parent = stack.last();
                        let np = BlockModel { children: parent.children.push(b), ..parent };
                        assert(parent == st.stack[st.stack.len() - 2]);
                        assert(tree_valid(parent));
                        assert forall|j: int| 0 <= j < np.children.len() implies #[trigger] tree_valid(np.children[j]) by {
                            if j < parent.children.len() {
                                assert(np.children[j] == parent.children[j]);
                                assert(tree_valid(parent.children[j]));
                            } else {
                                assert(np.children[j] == b);
                            }
                        }
                        assert(tree_valid(np));
                        assert forall|i: int| 0 <= i < nx.stack.len() implies #[trigger] tree_valid(nx.stack[i]) by {
                            if i < stack.len() - 1 {
                                assert(nx.stack[i] == st.stack[i]);
                            }
                        }
                    } else {
                        assert forall|i: int| 0 <= i < nx.blocks.len() implies #[trigger] tree_valid(nx.blocks[i]) by {
                            if i < st.blocks.len() {
                                assert(nx.blocks[i] == st.blocks[i]);
                            }
                        }
                    }
                }
            }
        },
        _ => {},
    }
}

proof fn lemma_run_valid(evs: Seq<XmlEventModel>, i: int, st: XmlState)
    requires
        state_valid(st),
    ensures
        run_xml(evs, i, st) matches Ok(bs) ==> forall|k: int| 0 <= k < bs.len() ==> #[trigger] tree_valid(bs[k]),
    decreases evs.len() - i,
{
    if 0 <= i < evs.len() {
        match evs[i] {
            XmlEventModel::Eof => {},
            XmlEventModel::Error(_) => {},
            e => {
                lemma_step_valid(st, e);
                lemma_run_valid(evs, i + 1, xml_step(st, e));
            },
        }
    }
}

/// Every block that XML events describe, and every block nested in it, has
/// a valid block type.
pub proof fn law_xml_blocks_have_valid_types(evs: Seq<XmlEventModel>)
    ensures
        blocks_from_events(evs) matches Ok(bs) ==> forall|k: int| 0 <= k < bs.len() ==> #[trigger] tree_valid(bs[k]),
{
    lemma_run_valid(evs, 0, xml_init());
}

} // verus!
