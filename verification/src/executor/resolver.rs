//! Resolution of `<meta:reference target="..."/>` elements in content, on
//! the XML tree that `xmltree` reads.

use vstd::prelude::*;
use xmltree::{Element, XMLNode};
use crate::text::{
    concat_str, contains, ends_with, ends_with_str, str_is, starts_with, starts_with_str, chars_of, find_str_in,
    replace_all, replace_all_vec, string_of, string_of_range, find_in, char_index, char_index_vec, lemma_find_in,
    lemma_char_index_bounds, law_replace_absent, match_at,
};
use crate::text_map::{TextMap, text_view, has_entry};
use crate::parser::blocks::{Block, BlockModel, opt_view, pairs_view, lookup, first_key_index, lemma_first_key_index, copy_pairs};
use crate::executor::error::{ExecutorError, ExecutorErrorModel};
use crate::executor::state::ExecutorState;
use crate::parser::block_parsers::typed::append_str;

verus! {

#[verifier::external_type_specification]
#[verifier::external_body]
pub struct ExXmlElement(Element);

#[verifier::external_type_specification]
#[verifier::external_body]
pub struct ExXmlNode(XMLNode);

/// An XML element as plain values: its prefix, namespace, the namespace
/// declarations in scope (prefix and URI, in the order of their prefixes),
/// its local name, its attributes (name and value) and its children.
pub struct RefElement {
    pub prefix: Option<String>,
    pub namespace: Option<String>,
    pub namespaces: Option<Vec<(String, String)>>,
    pub name: String,
    pub attributes: Vec<(String, String)>,
    pub children: Vec<RefNode>,
}

/// A node of an XML tree.
pub enum RefNode {
    Element(RefElement),
    Text(String),
    Comment(String),
    CData(String),
    ProcessingInstruction(String, Option<String>),
}

/// The mathematical value of an element; an attribute that occurs twice
/// counts with its first value.
pub struct RefElementModel {
    pub prefix: Option<Seq<char>>,
    pub namespace: Option<Seq<char>>,
    pub namespaces: Option<Seq<(Seq<char>, Seq<char>)>>,
    pub name: Seq<char>,
    pub attributes: Map<Seq<char>, Seq<char>>,
    pub children: Seq<RefNodeModel>,
}

/// The mathematical value of a node.
pub enum RefNodeModel {
    Element(RefElementModel),
    Text(Seq<char>),
    Comment(Seq<char>),
    CData(Seq<char>),
    ProcessingInstruction(Seq<char>, Option<Seq<char>>),
}

/// The attributes as a map from name to the first value given for it.
pub open spec fn attribute_map(ps: Seq<(Seq<char>, Seq<char>)>) -> Map<Seq<char>, Seq<char>> {
    Map::new(|k: Seq<char>| lookup(ps, k) is Some, |k: Seq<char>| lookup(ps, k)->0)
}

/// The view of optional namespace declarations.
pub open spec fn namespaces_view(ns: Option<Vec<(String, String)>>) -> Option<Seq<(Seq<char>, Seq<char>)>> {
    match ns {
        Some(v) => Some(pairs_view(v@)),
        None => None,
    }
}

/// The value of an element.
pub open spec fn element_model(e: RefElement) -> RefElementModel
    decreases e,
{
    RefElementModel {
        prefix: opt_view(e.prefix),
        namespace: opt_view(e.namespace),
        namespaces: namespaces_view(e.namespaces),
        name: e.name@,
        attributes: attribute_map(pairs_view(e.attributes@)),
        children: Seq::new(
            e.children@.len(),
            |i: int| if 0 <= i < e.children@.len() { node_model(e.children@[i]) } else { RefNodeModel::Text(Seq::empty()) },
        ),
    }
}

/// The value of a node.
pub open spec fn node_model(n: RefNode) -> RefNodeModel
    decreases n,
{
    match n {
        RefNode::Element(e) => RefNodeModel::Element(element_model(e)),
        RefNode::Text(t) => RefNodeModel::Text(t@),
        RefNode::Comment(t) => RefNodeModel::Comment(t@),
        RefNode::CData(t) => RefNodeModel::CData(t@),
        RefNode::ProcessingInstruction(a, d) => RefNodeModel::ProcessingInstruction(a@, opt_view(d)),
    }
}

/// The values of a list of nodes.
pub open spec fn nodes_view(s: Seq<RefNode>) -> Seq<RefNodeModel> {
    s.map_values(|n: RefNode| node_model(n))
}

/// The `target` attribute of an element.
pub open spec fn target_of(e: RefElementModel) -> Option<Seq<char>> {
    if e.attributes.contains_key("target"@) {
        Some(e.attributes["target"@])
    } else {
        None
    }
}

/// No name occurs twice among the attributes.
pub open spec fn keys_distinct(ps: Seq<(Seq<char>, Seq<char>)>) -> bool {
    forall|i: int, j: int| 0 <= i < j < ps.len() ==> (#[trigger] ps[i]).0 != (#[trigger] ps[j]).0
}

/// No attribute name occurs twice on the element or on an element in it.
pub open spec fn distinct_attributes(e: RefElement) -> bool
    decreases e,
{
    &&& keys_distinct(pairs_view(e.attributes@))
    &&& forall|i: int| 0 <= i < e.children@.len() ==> node_distinct_attributes(#[trigger] e.children@[i])
}

/// No attribute name occurs twice on an element under the node.
pub open spec fn node_distinct_attributes(n: RefNode) -> bool
    decreases n,
{
    match n {
        RefNode::Element(c) => distinct_attributes(c),
        _ => true,
    }
}

/// The element, and every element in it, has at most one attribute.
pub open spec fn few_attributes(e: RefElement) -> bool
    decreases e,
{
    &&& e.attributes@.len() <= 1
    &&& forall|i: int| 0 <= i < e.children@.len() ==> node_few_attributes(#[trigger] e.children@[i])
}

/// Every element under the node has at most one attribute.
pub open spec fn node_few_attributes(n: RefNode) -> bool
    decreases n,
{
    match n {
        RefNode::Element(c) => few_attributes(c),
        _ => true,
    }
}

/// The element, and every element in it, has at most one attribute.
pub open spec fn single_attributes(e: RefElementModel) -> bool
    decreases e,
{
    &&& forall|a: Seq<char>, b: Seq<char>| #[trigger] e.attributes.contains_key(a) && #[trigger] e.attributes.contains_key(b) ==> a == b
    &&& forall|i: int| 0 <= i < e.children.len() ==> node_single_attributes(#[trigger] e.children[i])
}

/// Every element under the node has at most one attribute.
pub open spec fn node_single_attributes(n: RefNodeModel) -> bool
    decreases n,
{
    match n {
        RefNodeModel::Element(c) => single_attributes(c),
        _ => true,
    }
}

/// An element whose attribute names are distinct and which has at most one
/// attribute in its value has at most one attribute.
proof fn lemma_few_attributes(e: RefElement)
    requires
        distinct_attributes(e),
        single_attributes(element_model(e)),
    ensures
        few_attributes(e),
    decreases e,
{
    let ps = pairs_view(e.attributes@);
    let m = element_model(e);
    if e.attributes@.len() >= 2 {
        assert(ps[0].0 != ps[1].0);
        lemma_first_key_index(ps, ps[0].0, 0);
        lemma_first_key_index(ps, ps[1].0, 0);
        assert(m.attributes.contains_key(ps[0].0));
        assert(m.attributes.contains_key(ps[1].0));
    }
    assert forall|i: int| 0 <= i < e.children@.len() implies node_few_attributes(#[trigger] e.children@[i]) by {
        assert(node_distinct_attributes(e.children@[i]));
        assert(m.children[i] == node_model(e.children@[i]));
        assert(node_single_attributes(m.children[i]));
        match e.children@[i] {
            RefNode::Element(c) => {
                assert(decreases_to!(e => e.children));
                assert(decreases_to!(e.children => e.children@));
                assert(decreases_to!(e.children@ => e.children@[i]));
                lemma_few_attributes(c);
            },
            _ => {},
        }
    }
}

/// The text that `xmltree` writes for an element, or the text of the error
/// it reports.
pub uninterp spec fn written_text(e: RefElementModel) -> Result<Seq<char>, Seq<char>>;

/// What writing each element child gives, as named by `written_text`.
pub open spec fn written_all(children: Seq<RefNodeModel>) -> Seq<Result<Seq<char>, Seq<char>>> {
    Seq::new(children.len(), |i: int| match children[i] {
        RefNodeModel::Element(c) => written_text(c),
        _ => Ok(Seq::empty()),
    })
}

/// What `xmltree` reads from `xml`: the root element, or the text of the
/// error that it reports.
pub uninterp spec fn parsed_tree(xml: Seq<char>) -> Result<RefElementModel, Seq<char>>;

/// The value of a parse result.
pub open spec fn tree_result_model(r: Result<RefElement, String>) -> Result<RefElementModel, Seq<char>> {
    match r {
        Ok(e) => Ok(element_model(e)),
        Err(m) => Err(m@),
    }
}

/// `Element::parse(xml.as_bytes())`, with the element read into a
/// `RefElement`: the result is as named by `parsed_tree`; an error is given
/// by its `Display` text. `xmltree` keeps the attributes of an element in a
/// map, so no name occurs twice among them.
#[verifier::external_body]
fn parse_tree(xml: &str) -> (r: Result<RefElement, String>)
    ensures
        tree_result_model(r) == parsed_tree(xml@),
        r matches Ok(e) ==> distinct_attributes(e),
{
    match Element::parse(xml.as_bytes()) {
        Ok(e) => Ok(element_tree(e)),
        Err(e) => Err(format!("{}", e)),
    }
}

/// An `xmltree` element as a `RefElement`, field by field.
#[verifier::external_body]
fn element_tree(e: Element) -> RefElement {
    RefElement {
        prefix: e.prefix,
        namespace: e.namespace,
        namespaces: e.namespaces.map(|ns| ns.0.into_iter().collect()),
        name: e.name,
        attributes: e.attributes.into_iter().collect(),
        children: e.children.into_iter().map(node_tree).collect(),
    }
}

/// An `xmltree` node as a `RefNode`, variant by variant.
#[verifier::external_body]
fn node_tree(n: XMLNode) -> RefNode {
    match n {
        XMLNode::Element(e) => RefNode::Element(element_tree(e)),
        XMLNode::Text(t) => RefNode::Text(t),
        XMLNode::Comment(t) => RefNode::Comment(t),
        XMLNode::CData(t) => RefNode::CData(t),
        XMLNode::ProcessingInstruction(a, d) => RefNode::ProcessingInstruction(a, d),
    }
}

/// A `RefElement` as an `xmltree` element, field by field.
#[verifier::external_body]
fn tree_element(e: &RefElement) -> Element {
    Element {
        prefix: e.prefix.clone(),
        namespace: e.namespace.clone(),
        namespaces: e.namespaces.as_ref().map(|ns| xmltree::Namespace(ns.iter().cloned().collect())),
        name: e.name.clone(),
        attributes: e.attributes.iter().cloned().collect(),
        children: e.children.iter().map(tree_node).collect(),
    }
}

/// A `RefNode` as an `xmltree` node, variant by variant.
#[verifier::external_body]
fn tree_node(n: &RefNode) -> XMLNode {
    match n {
        RefNode::Element(e) => XMLNode::Element(tree_element(e)),
        RefNode::Text(t) => XMLNode::Text(t.clone()),
        RefNode::Comment(t) => XMLNode::Comment(t.clone()),
        RefNode::CData(t) => XMLNode::CData(t.clone()),
        RefNode::ProcessingInstruction(a, d) => XMLNode::ProcessingInstruction(a.clone(), d.clone()),
    }
}

/// `Element::write` of the element into a buffer, read as UTF-8 with
/// invalid sequences replaced (`String::from_utf8_lossy`); an error is given
/// by its `Display` text. `xmltree` keeps attributes in a `HashMap` and
/// writes them in the order in which that map is walked, which each process
/// seeds anew; so the outcome is named by `written_text` only where no
/// element has more than one attribute, and nothing is stated otherwise.
#[verifier::external_body]
fn write_tree(e: &RefElement) -> (r: Result<String, String>)
    ensures
        few_attributes(*e) ==> write_view(r) == written_text(element_model(*e)),
{
    let mut buffer = Vec::new();
    match tree_element(e).write(&mut buffer) {
        Ok(()) => Ok(String::from_utf8_lossy(&buffer).to_string()),
        Err(err) => Err(format!("{}", err)),
    }
}

/// The first value given for the attribute `key`.
pub fn attribute_value(attributes: &Vec<(String, String)>, key: &str) -> (r: Option<String>)
    ensures
        opt_view(r) == lookup(pairs_view(attributes@), key@),
{
    let ghost ps = pairs_view(attributes@);
    let n = attributes.len();
    let mut i: usize = 0;
    proof {
        lemma_first_key_index(ps, key@, 0);
    }
    while i < n
        invariant
            n == attributes@.len(),
            i <= n,
            ps == pairs_view(attributes@),
            forall|j: int| 0 <= j < i ==> #[trigger] ps[j].0 != key@,
            first_key_index(ps, key@, 0) == first_key_index(ps, key@, i as int),
        decreases n - i,
    {
        if str_is(attributes[i].0.as_str(), key) {
            return Some(attributes[i].1.clone());
        }
        i = i + 1;
    }
    None
}

/// An optional string copied.
fn copy_opt(o: &Option<String>) -> (r: Option<String>)
    ensures
        opt_view(r) == opt_view(*o),
{
    match o {
        Some(t) => Some(t.clone()),
        None => None,
    }
}

/// The element with `children` in place of its own children.
fn with_children(e: &RefElement, children: Vec<RefNode>) -> (r: RefElement)
    ensures
        r.children@ == children@,
        element_model(r).prefix == element_model(*e).prefix,
        element_model(r).namespace == element_model(*e).namespace,
        element_model(r).namespaces == element_model(*e).namespaces,
        element_model(r).name == element_model(*e).name,
        element_model(r).attributes == element_model(*e).attributes,
        pairs_view(r.attributes@) == pairs_view(e.attributes@),
{
    RefElement {
        prefix: copy_opt(&e.prefix),
        namespace: copy_opt(&e.namespace),
        namespaces: match &e.namespaces {
            Some(v) => Some(copy_pairs(v)),
            None => None,
        },
        name: e.name.clone(),
        attributes: copy_pairs(&e.attributes),
        children,
    }
}

/// A copy of a node that is not an element.
fn copy_leaf(n: &RefNode) -> (r: RefNode)
    requires
        !(*n is Element),
    ensures
        node_model(r) == node_model(*n),
        !(r is Element),
        r is Text <==> *n is Text,
{
    match n {
        RefNode::Text(t) => RefNode::Text(t.clone()),
        RefNode::Comment(t) => RefNode::Comment(t.clone()),
        RefNode::CData(t) => RefNode::CData(t.clone()),
        RefNode::ProcessingInstruction(a, d) => RefNode::ProcessingInstruction(a.clone(), copy_opt(d)),
        RefNode::Element(_) => RefNode::Text(String::new()),
    }
}

/// Whether an element is a reference: named `meta:reference`, or with a
/// name that ends with `:reference`.
pub open spec fn is_reference_name(n: Seq<char>) -> bool {
    n == "meta:reference"@ || ends_with(n, ":reference"@)
}

/// The text that a reference to `t` becomes: the output `t`, or a
/// placeholder that names `t`.
pub open spec fn resolved_text(t: Seq<char>, outputs: Map<Seq<char>, Seq<char>>) -> Seq<char> {
    if outputs.contains_key(t) {
        outputs[t]
    } else {
        "UNRESOLVED_REFERENCE:"@ + t
    }
}

/// A processed child element in its parent: a reference element holding
/// just one text is replaced by that text.
pub open spec fn lifted(c: RefElementModel) -> RefNodeModel {
    if is_reference_name(c.name) && c.children.len() == 1 && c.children[0] is Text {
        c.children[0]
    } else {
        RefNodeModel::Element(c)
    }
}

/// The element `e` with its references resolved: a reference with a target
/// holds just the text it resolves to; in any other element the children
/// are processed in turn.
pub open spec fn processed(e: RefElementModel, outputs: Map<Seq<char>, Seq<char>>) -> RefElementModel
    decreases e,
{
    if is_reference_name(e.name) {
        match target_of(e) {
            Some(t) => RefElementModel { children: seq![RefNodeModel::Text(resolved_text(t, outputs))], ..e },
            None => e,
        }
    } else {
        RefElementModel {
            children: Seq::new(
                e.children.len(),
                |i: int| if 0 <= i < e.children.len() {
                    processed_node(e.children[i], outputs)
                } else {
                    RefNodeModel::Text(Seq::empty())
                },
            ),
            ..e
        }
    }
}

/// A node with its references resolved.
pub open spec fn processed_node(n: RefNodeModel, outputs: Map<Seq<char>, Seq<char>>) -> RefNodeModel
    decreases n,
{
    match n {
        RefNodeModel::Element(c) => lifted(processed(c, outputs)),
        _ => n,
    }
}

/// The element with every child element flattened in turn and, where it
/// is then a reference holding just one text, replaced by that text.
pub open spec fn flattened(e: RefElementModel) -> RefElementModel
    decreases e,
{
    RefElementModel {
        children: Seq::new(
            e.children.len(),
            |i: int| if 0 <= i < e.children.len() {
                flattened_node(e.children[i])
            } else {
                RefNodeModel::Text(Seq::empty())
            },
        ),
        ..e
    }
}

/// A node with its references flattened.
pub open spec fn flattened_node(n: RefNodeModel) -> RefNodeModel
    decreases n,
{
    match n {
        RefNodeModel::Element(c) => lifted(flattened(c)),
        _ => n,
    }
}

/// Resolves references in content with the outputs of an executor state.
pub struct ReferenceResolver<'a> {
    state: &'a ExecutorState,
    debug_enabled: bool,
}

/// Whether content may hold references.
pub open spec fn may_hold_references(s: Seq<char>) -> bool {
    contains(s, "<meta:reference"@) || contains(s, ":reference"@)
}

/// The document that content is read in: a root element that declares the
/// `meta` namespace.
pub open spec fn wrapped(content: Seq<char>) -> Seq<char> {
    "<root xmlns:meta=\"https://example.com/meta-language\">"@ + content + "</root>"@
}

/// The content with the quotes of `echo` commands escaped.
pub open spec fn echo_escaped(xml: Seq<char>) -> Seq<char> {
    replace_all(replace_all(xml, "echo \""@, "echo &quot;"@), "echo '"@, "echo &apos;"@)
}

impl<'a> ReferenceResolver<'a> {
    /// A resolver over the outputs of `state`; `debug_enabled` tells whether
    /// `LLM_DEBUG` is set, which also makes parsing retry with the quotes of
    /// `echo` commands escaped.
    pub fn new(state: &'a ExecutorState, debug_enabled: bool) -> (r: Self)
        ensures
            r.state() == state,
            r.debug() == debug_enabled,
    {
        ReferenceResolver { state, debug_enabled }
    }

    /// The state whose outputs references resolve to.
    pub closed spec fn state(&self) -> &'a ExecutorState {
        self.state
    }

    /// Whether `LLM_DEBUG` is set.
    pub closed spec fn debug(&self) -> bool {
        self.debug_enabled
    }

    /// Resolves the references of an element in place, as `process_tree`
    /// states.
    pub fn process_element_references(&self, element: &mut RefElement) -> (r: Result<(), ExecutorError>)
        ensures
            r is Ok,
            element_model(*final(element)) == processed(element_model(*old(element)), text_view(self.state().outputs@)),
    {
        let resolved = process_tree(element, &self.state.outputs);
        *element = resolved;
        Ok(())
    }

    /// Reads `xml`, retrying in debug mode with the quotes of `echo` commands
    /// escaped; an error quotes what `xmltree` reported.
    fn parse_xml(&self, xml: &str) -> (r: Result<RefElement, ExecutorError>)
        ensures
            match r {
                Ok(e) => parsed_tree(xml@) == Ok::<RefElementModel, Seq<char>>(element_model(e))
                    || parsed_tree(echo_escaped(xml@)) == Ok::<RefElementModel, Seq<char>>(element_model(e)),
                Err(e) => parsed_tree(xml@) matches Err(m) && e@ == ExecutorErrorModel::XmlParsingError("XML parse error: "@ + m),
            },
            parsed_tree(xml@) matches Ok(t) ==> (r matches Ok(e) && element_model(e) == t),
            !self.debug() && parsed_tree(xml@) is Err ==> r is Err,
            self.debug() && parsed_tree(xml@) is Err ==> (parsed_tree(echo_escaped(xml@)) matches Ok(t)
                ==> (r matches Ok(e) && element_model(e) == t)),
            r matches Ok(e) ==> distinct_attributes(e),
    {
        match parse_tree(xml) {
            Ok(root) => Ok(root),
            Err(e) => {
                if self.debug_enabled {
                    let v = chars_of(xml);
                    let n = v.len();
                    let f1 = find_str_in(&v, "echo \"", 0, n);
                    let f2 = find_str_in(&v, "echo '", 0, n);
                    proof {
                        reveal_strlit("echo \"");
                        reveal_strlit("echo '");
                        if f1.is_none() && f2.is_none() {
                            lemma_find_in(v@, "echo \""@, 0, n as int);
                            lemma_find_in(v@, "echo '"@, 0, n as int);
                            law_replace_absent(v@, "echo \""@, "echo &quot;"@);
                            law_replace_absent(v@, "echo '"@, "echo &apos;"@);
                            assert(echo_escaped(xml@) == xml@);
                        }
                    }
                    if f1.is_some() || f2.is_some() {
                        let p1 = chars_of("echo \"");
                        let r1 = chars_of("echo &quot;");
                        let p2 = chars_of("echo '");
                        let r2 = chars_of("echo &apos;");
                        proof {
                            reveal_strlit("echo \"");
                            reveal_strlit("echo '");
                        }
                        let fixed = replace_all_vec(&replace_all_vec(&v, &p1, &r1), &p2, &r2);
                        let fs = string_of(&fixed);
                        proof {
                            assert(fs@ == echo_escaped(xml@));
                        }
                        match parse_tree(fs.as_str()) {
                            Ok(root) => {
                                return Ok(root);
                            },
                            Err(_) => {},
                        }
                    }
                }
                Err(ExecutorError::XmlParsingError(concat_str("XML parse error: ", e.as_str())))
            },
        }
    }

    /// One pass of reference resolution over `content`: first each
    /// `${name}` whose name has an output is replaced by that output
    /// (`substitute_variables`); text that then cannot hold references comes
    /// back as it is, with nothing left to do; otherwise it is read as XML
    /// inside a root element, its references are resolved, and the children
    /// of the root are joined as `join_pass` states, each element child
    /// written by `xmltree` (as `written_text` names it where no element has
    /// more than one attribute); the flag tells whether the result may hold
    /// references still, for another pass. In debug mode, text that does not
    /// read as XML is read again with the quotes of `echo` commands escaped,
    /// and the pass goes on with that where it reads.
    pub fn process_content_pass(&self, content: &str) -> (r: Result<(String, bool), ExecutorError>)
        ensures
            ({
                let s = substituted(content@, text_view(self.state().outputs@), 0);
                &&& !may_hold_references(s) ==> (r matches Ok(p) && p.0@ == s && !p.1)
                &&& may_hold_references(s) ==> (parsed_tree(wrapped(s)) matches Ok(root)
                    ==> pass_of(processed(root, text_view(self.state().outputs@)), pass_view(r)))
                &&& may_hold_references(s) ==> (parsed_tree(wrapped(s)) matches Ok(root)
                    ==> (children_single(processed(root, text_view(self.state().outputs@)).children)
                    ==> pass_view(r) == pass_outcome(
                        processed(root, text_view(self.state().outputs@)).children,
                        written_all(processed(root, text_view(self.state().outputs@)).children),
                    )))
                &&& may_hold_references(s) && self.debug() && parsed_tree(wrapped(s)) is Err
                    ==> (parsed_tree(echo_escaped(wrapped(s))) matches Ok(root)
                    ==> pass_of(processed(root, text_view(self.state().outputs@)), pass_view(r)))
                &&& may_hold_references(s) ==> (parsed_tree(wrapped(s)) matches Err(m)
                    ==> pass_view(r) == Err::<(Seq<char>, bool), ExecutorErrorModel>(ExecutorErrorModel::XmlParsingError("XML parse error: "@ + m))
                    || (self.debug() && retried_pass(wrapped(s), text_view(self.state().outputs@), pass_view(r))))
            }),
    {
        let sub = substitute_variables(content, &self.state.outputs);
        let content = sub.as_str();
        let cv = chars_of(content);
        let cn = cv.len();
        let has_tag = find_str_in(&cv, "<meta:reference", 0, cn).is_some();
        let has_ref = find_str_in(&cv, ":reference", 0, cn).is_some();
        if !has_tag && !has_ref {
            return Ok((content.to_owned(), false));
        }
        let mut xml = chars_of("<root xmlns:meta=\"https://example.com/meta-language\">");
        append_str(&mut xml, content);
        append_str(&mut xml, "</root>");
        let xs = string_of(&xml);
        proof {
            assert(xs@ == wrapped(content@));
        }
        let root = match self.parse_xml(xs.as_str()) {
            Ok(root) => root,
            Err(e) => {
                return Err(e);
            },
        };
        let processed_root = process_tree(&root, &self.state.outputs);
        let ghost pm = element_model(processed_root);
        let n = processed_root.children.len();
        let mut writes: Vec<Result<String, String>> = Vec::new();
        let mut i: usize = 0;
        while i < n
            invariant
                n == processed_root.children@.len(),
                i <= n,
                writes@.len() == i,
                pm == element_model(processed_root),
                distinct_attributes(processed_root),
                children_single(pm.children) ==> forall|k: int| 0 <= k < i
                    ==> #[trigger] write_view(writes@[k]) == written_all(pm.children)[k],
            decreases n - i,
        {
            proof {
                assert(pm.children[i as int] == node_model(processed_root.children@[i as int]));
                assert(node_distinct_attributes(processed_root.children@[i as int]));
            }
            match &processed_root.children[i] {
                RefNode::Element(e) => {
                    proof {
                        if children_single(pm.children) {
                            assert(node_single_attributes(pm.children[i as int]));
                            lemma_few_attributes(*e);
                        }
                    }
                    writes.push(write_tree(e));
                },
                _ => writes.push(Ok(String::new())),
            }
            i = i + 1;
        }
        let r = join_pass(&processed_root.children, &writes);
        proof {
            assert(nodes_view(processed_root.children@) =~= pm.children);
            assert(pass_outcome(pm.children, writes_view(writes@)) == pass_view(r));
            if children_single(pm.children) {
                assert(writes_view(writes@) =~= written_all(pm.children));
            }
        }
        r
    }
}

/// Every element among the nodes, and every element in them, has at most
/// one attribute.
pub open spec fn children_single(ch: Seq<RefNodeModel>) -> bool {
    forall|i: int| 0 <= i < ch.len() ==> node_single_attributes(#[trigger] ch[i])
}

/// The outcome of writing an element: its text, or the error's text.
pub open spec fn write_view(w: Result<String, String>) -> Result<Seq<char>, Seq<char>> {
    match w {
        Ok(t) => Ok(t@),
        Err(m) => Err(m@),
    }
}

/// The outcomes of writing elements.
pub open spec fn writes_view(ws: Seq<Result<String, String>>) -> Seq<Result<Seq<char>, Seq<char>>> {
    ws.map_values(|w: Result<String, String>| write_view(w))
}

/// The text that the first `i` children give, where writing child `k`, if
/// it is an element, gave `writes[k]`: texts as they are, elements as
/// written, other nodes as nothing; the first element whose writing failed
/// gives its error instead.
pub open spec fn pass_upto(children: Seq<RefNodeModel>, writes: Seq<Result<Seq<char>, Seq<char>>>, i: int) -> Result<Seq<char>, Seq<char>>
    decreases i,
{
    if i <= 0 {
        Ok(Seq::empty())
    } else {
        match pass_upto(children, writes, i - 1) {
            Err(w) => Err(w),
            Ok(t) => match children[i - 1] {
                RefNodeModel::Element(_) => match writes[i - 1] {
                    Ok(x) => Ok(t + x),
                    Err(w) => Err(w),
                },
                RefNodeModel::Text(x) => Ok(t + x),
                _ => Ok(t),
            },
        }
    }
}

/// The outcome of a pass over the children of the root, given what writing
/// each element child gave: the joined text with whether it may hold
/// references still, or the error of the first element that could not be
/// written.
pub open spec fn pass_outcome(children: Seq<RefNodeModel>, writes: Seq<Result<Seq<char>, Seq<char>>>) -> Result<(Seq<char>, bool), ExecutorErrorModel> {
    match pass_upto(children, writes, children.len() as int) {
        Ok(t) => Ok((t, may_hold_references(t))),
        Err(w) => Err(ExecutorErrorModel::XmlParsingError("Failed to write element: "@ + w)),
    }
}

/// The outcome of a pass over the children of `root`, for some outcome of
/// writing each of its element children.
pub open spec fn pass_of(root: RefElementModel, outcome: Result<(Seq<char>, bool), ExecutorErrorModel>) -> bool {
    exists|ws: Seq<Result<Seq<char>, Seq<char>>>| ws.len() == root.children.len() && #[trigger] pass_outcome(root.children, ws) == outcome
}

/// The outcome of a pass over the document read again with the quotes of
/// `echo` commands escaped, where that reading succeeds.
pub open spec fn retried_pass(xml: Seq<char>, outputs: Map<Seq<char>, Seq<char>>, outcome: Result<(Seq<char>, bool), ExecutorErrorModel>) -> bool {
    match parsed_tree(echo_escaped(xml)) {
        Ok(root) => pass_of(processed(root, outputs), outcome),
        Err(_) => false,
    }
}

/// The value of the outcome of a pass.
pub open spec fn pass_view(r: Result<(String, bool), ExecutorError>) -> Result<(Seq<char>, bool), ExecutorErrorModel> {
    match r {
        Ok(p) => Ok((p.0@, p.1)),
        Err(e) => Err(e@),
    }
}

proof fn lemma_pass_err(children: Seq<RefNodeModel>, writes: Seq<Result<Seq<char>, Seq<char>>>, i: int, j: int)
    requires
        0 <= i <= j,
        pass_upto(children, writes, i) is Err,
    ensures
        pass_upto(children, writes, j) == pass_upto(children, writes, i),
    decreases j - i,
{
    if i < j {
        lemma_pass_err(children, writes, i, j - 1);
    }
}

/// Joins the children of the root after one pass, where `writes[k]` is what
/// writing child `k` gave if it is an element: the outcome is as
/// `pass_outcome` states.
pub fn join_pass(children: &Vec<RefNode>, writes: &Vec<Result<String, String>>) -> (r: Result<(String, bool), ExecutorError>)
    requires
        writes@.len() == children@.len(),
    ensures
        pass_view(r) == pass_outcome(nodes_view(children@), writes_view(writes@)),
{
    let ghost ch = nodes_view(children@);
    let ghost wv = writes_view(writes@);
    let n = children.len();
    let mut result: Vec<char> = Vec::new();
    let mut i: usize = 0;
    while i < n
        invariant
            n == children@.len(),
            n == writes@.len(),
            i <= n,
            ch == nodes_view(children@),
            wv == writes_view(writes@),
            pass_upto(ch, wv, i as int) == Ok::<Seq<char>, Seq<char>>(result@),
        decreases n - i,
    {
        let ghost before = result@;
        match &children[i] {
            RefNode::Element(_) => match &writes[i] {
                Ok(text) => append_str(&mut result, text.as_str()),
                Err(w) => {
                    proof {
                        assert(pass_upto(ch, wv, i as int + 1) == Err::<Seq<char>, Seq<char>>(w@));
                        lemma_pass_err(ch, wv, i as int + 1, n as int);
                    }
                    return Err(ExecutorError::XmlParsingError(concat_str("Failed to write element: ", w.as_str())));
                },
            },
            RefNode::Text(t) => append_str(&mut result, t.as_str()),
            _ => {},
        }
        proof {
            assert(pass_upto(ch, wv, i as int + 1) == Ok::<Seq<char>, Seq<char>>(result@));
        }
        i = i + 1;
    }
    let rn = result.len();
    let more = find_str_in(&result, "<meta:reference", 0, rn).is_some() || find_str_in(&result, ":reference", 0, rn).is_some();
    Ok((string_of(&result), more))
}

/// `content` from `start` on with each `${name}` whose name has an output
/// replaced by that output; other text, `${name}` without an output, and a
/// `${` with no `}` after it stay as they are.
pub open spec fn substituted(content: Seq<char>, outputs: Map<Seq<char>, Seq<char>>, start: int) -> Seq<char>
    decreases content.len() - start,
{
    if start < 0 || start > content.len() {
        seq![]
    } else {
        match find_in(content, "${"@, start, content.len() as int) {
            None => content.subrange(start, content.len() as int),
            Some(a) => match char_index(content, '}', a + 2) {
                None => content.subrange(start, content.len() as int),
                Some(e) => {
                    if a < start || e < a + 2 || e + 1 > content.len() {
                        content.subrange(start, content.len() as int)
                    } else {
                        let name = content.subrange(a + 2, e);
                        content.subrange(start, a) + (if outputs.contains_key(name) {
                            outputs[name]
                        } else {
                            content.subrange(a, e + 1)
                        }) + substituted(content, outputs, e + 1)
                    }
                },
            },
        }
    }
}

/// Text without `${` is left as it is by variable substitution.
pub proof fn law_substitution_without_variables(content: Seq<char>, outputs: Map<Seq<char>, Seq<char>>)
    requires
        !contains(content, "${"@),
    ensures
        substituted(content, outputs, 0) == content,
{
    assert(content.subrange(0, content.len() as int) =~= content);
}

proof fn lemma_find_shift(x: Seq<char>, q: Seq<char>, p: Seq<char>, lo: int)
    requires
        0 <= lo,
    ensures
        find_in(x + q, p, x.len() + lo, (x + q).len() as int) == (match find_in(q, p, lo, q.len() as int) {
            Some(i) => Some(i + x.len()),
            None => None::<int>,
        }),
    decreases q.len() - lo,
{
    let u = x + q;
    if lo + p.len() <= q.len() {
        assert(match_at(u, p, x.len() + lo) == match_at(q, p, lo)) by {
            if match_at(q, p, lo) {
                assert forall|j: int| 0 <= j < p.len() implies #[trigger] u[x.len() + lo + j] == p[j] by {
                    assert(u[x.len() + lo + j] == q[lo + j]);
                }
            }
            if match_at(u, p, x.len() + lo) {
                assert forall|j: int| 0 <= j < p.len() implies #[trigger] q[lo + j] == p[j] by {
                    assert(u[x.len() + lo + j] == q[lo + j]);
                }
            }
        }
        if !match_at(q, p, lo) {
            assert(lo < q.len());
            lemma_find_shift(x, q, p, lo + 1);
        }
    }
}

proof fn lemma_char_shift(x: Seq<char>, q: Seq<char>, c: char, lo: int)
    requires
        0 <= lo,
    ensures
        char_index(x + q, c, x.len() + lo) == (match char_index(q, c, lo) {
            Some(i) => Some(i + x.len()),
            None => None::<int>,
        }),
    decreases q.len() - lo,
{
    if lo < q.len() {
        assert((x + q)[x.len() + lo] == q[lo]);
        lemma_char_shift(x, q, c, lo + 1);
    }
}

/// Substitution over text after a prefix goes as over that text alone.
proof fn lemma_substituted_shift(x: Seq<char>, q: Seq<char>, outputs: Map<Seq<char>, Seq<char>>, st: int)
    requires
        0 <= st <= q.len(),
    ensures
        substituted(x + q, outputs, x.len() + st) == substituted(q, outputs, st),
    decreases q.len() - st,
{
    let u = x + q;
    let k = x.len() as int;
    reveal_strlit("${");
    lemma_find_shift(x, q, "${"@, st);
    lemma_find_in(q, "${"@, st, q.len() as int);
    match find_in(q, "${"@, st, q.len() as int) {
        None => {
            assert(u.subrange(k + st, u.len() as int) =~= q.subrange(st, q.len() as int));
        },
        Some(a) => {
            lemma_char_shift(x, q, '}', a + 2);
            lemma_char_index_bounds(q, '}', a + 2);
            match char_index(q, '}', a + 2) {
                None => {
                    assert(u.subrange(k + st, u.len() as int) =~= q.subrange(st, q.len() as int));
                },
                Some(e) => {
                    if a < st || e < a + 2 || e + 1 > q.len() {
                        assert(u.subrange(k + st, u.len() as int) =~= q.subrange(st, q.len() as int));
                    } else {
                        assert(u.subrange(k + st, k + a) =~= q.subrange(st, a));
                        assert(u.subrange(k + a + 2, k + e) =~= q.subrange(a + 2, e));
                        assert(u.subrange(k + a, k + e + 1) =~= q.subrange(a, e + 1));
                        lemma_substituted_shift(x, q, outputs, e + 1);
                    }
                },
            }
        },
    }
}

proof fn lemma_char_first(s: Seq<char>, c: char, from: int, e: int)
    requires
        0 <= from <= e < s.len(),
        s[e] == c,
        forall|j: int| from <= j < e ==> #[trigger] s[j] != c,
    ensures
        char_index(s, c, from) == Some(e),
    decreases e - from,
{
    if from < e {
        lemma_char_first(s, c, from + 1, e);
    }
}

/// Each `${name}` is substituted on its own: in text `p`, `${n}`, `q`,
/// where `p` holds no `${` and the name `n` no `}`, the result is the
/// substitution of `p`, then the output of `n` where it has one (else
/// `${n}` as it stands), then the substitution of `q`, whatever `q`
/// holds.
pub proof fn law_substitution_piecewise(p: Seq<char>, n: Seq<char>, q: Seq<char>, outputs: Map<Seq<char>, Seq<char>>)
    requires
        !contains(p, "${"@),
        forall|i: int| 0 <= i < n.len() ==> #[trigger] n[i] != '}',
    ensures
        outputs.contains_key(n) ==> substituted(p + "${"@ + n + "}"@ + q, outputs, 0)
            == substituted(p, outputs, 0) + outputs[n] + substituted(q, outputs, 0),
        !outputs.contains_key(n) ==> substituted(p + "${"@ + n + "}"@ + q, outputs, 0)
            == substituted(p, outputs, 0) + ("${"@ + n + "}"@) + substituted(q, outputs, 0),
{
    reveal_strlit("${");
    reveal_strlit("}");
    law_substitution_without_variables(p, outputs);
    let x = p + "${"@ + n + "}"@;
    let c = x + q;
    assert(p + "${"@ + n + "}"@ + q == c);
    let a = p.len() as int;
    let e = a + 2 + n.len();
    assert(c[a] == '$' && c[a + 1] == '{' && c[e] == '}');
    lemma_find_in(p, "${"@, 0, p.len() as int);
    assert(match_at(c, "${"@, a));
    assert forall|j: int| 0 <= j < a implies !match_at(c, "${"@, j) by {
        if match_at(c, "${"@, j) {
            if j + 1 < a {
                assert(c[j] == p[j] && c[j + 1] == p[j + 1]);
                assert(match_at(p, "${"@, j));
            } else {
                assert(c[j + 1] == '$');
            }
        }
    }
    lemma_find_in(c, "${"@, 0, c.len() as int);
    assert(find_in(c, "${"@, 0, c.len() as int) == Some(a));
    assert forall|j: int| a + 2 <= j < e implies #[trigger] c[j] != '}' by {
        assert(c[j] == n[j - a - 2]);
    }
    lemma_char_first(c, '}', a + 2, e);
    assert(c.subrange(a + 2, e) =~= n);
    assert(c.subrange(0, a) =~= p);
    assert(c.subrange(a, e + 1) =~= "${"@ + n + "}"@);
    lemma_substituted_shift(x, q, outputs, 0);
    assert(x.len() == e + 1);
}

/// Replaces each `${name}` of `content` whose name has an output in
/// `outputs` by that output, as `substituted` states.
pub fn substitute_variables(content: &str, outputs: &TextMap<String>) -> (r: String)
    ensures
        r@ == substituted(content@, text_view(outputs@), 0),
{
    let ghost om = text_view(outputs@);
    let v = chars_of(content);
    let n = v.len();
    let mut result: Vec<char> = Vec::new();
    let mut start: usize = 0;
    proof {
        assert(result@ + substituted(v@, om, 0) =~= substituted(v@, om, 0));
    }
    loop
        invariant_except_break
            n == v@.len(),
            v@ == content@,
            start <= n,
            om == text_view(outputs@),
            result@ + substituted(v@, om, start as int) == substituted(v@, om, 0),
        ensures
            result@ == substituted(v@, om, 0),
        decreases n - start,
    {
        let a = match find_str_in(&v, "${", start, n) {
            Some(a) => a,
            None => {
                let ghost before = result@;
                let rest = string_of_range(&v, start, n);
                append_str(&mut result, rest.as_str());
                proof {
                    assert(substituted(v@, om, start as int) == v@.subrange(start as int, n as int));
                }
                break;
            },
        };
        proof {
            lemma_find_in(v@, "${"@, start as int, n as int);
            reveal_strlit("${");
        }
        let e = match char_index_vec(&v, '}', a + 2) {
            Some(e) => e,
            None => {
                let ghost before = result@;
                let rest = string_of_range(&v, start, n);
                append_str(&mut result, rest.as_str());
                proof {
                    assert(substituted(v@, om, start as int) == v@.subrange(start as int, n as int));
                }
                break;
            },
        };
        proof {
            lemma_char_index_bounds(v@, '}', a + 2);
        }
        let ghost before = result@;
        let head = string_of_range(&v, start, a);
        append_str(&mut result, head.as_str());
        let name = string_of_range(&v, a + 2, e);
        match outputs.get(name.as_str()) {
            Some(value) => {
                append_str(&mut result, value.as_str());
            },
            None => {
                let raw = string_of_range(&v, a, e + 1);
                append_str(&mut result, raw.as_str());
            },
        }
        proof {
            let piece = if om.contains_key(name@) { om[name@] } else { v@.subrange(a as int, e + 1) };
            assert(result@ == before + v@.subrange(start as int, a as int) + piece);
            assert(substituted(v@, om, start as int) == v@.subrange(start as int, a as int) + piece + substituted(v@, om, e + 1));
            assert(before + (v@.subrange(start as int, a as int) + piece + substituted(v@, om, e + 1))
                =~= result@ + substituted(v@, om, e + 1));
        }
        start = e + 1;
    }
    string_of(&result)
}

/// Whether the name is that of a reference element.
fn is_reference_exec(name: &str) -> (r: bool)
    ensures
        r == is_reference_name(name@),
{
    str_is(name, "meta:reference") || ends_with_str(name, ":reference")
}

/// The element with its references resolved against `outputs`.
pub fn process_tree(e: &RefElement, outputs: &TextMap<String>) -> (r: RefElement)
    ensures
        element_model(r) == processed(element_model(*e), text_view(outputs@)),
        distinct_attributes(*e) ==> distinct_attributes(r),
    decreases e,
{
    let ghost om = text_view(outputs@);
    let ghost em = element_model(*e);
    if is_reference_exec(e.name.as_str()) {
        match attribute_value(&e.attributes, "target") {
            Some(t) => {
                let text = match outputs.get(t.as_str()) {
                    Some(v) => v.clone(),
                    None => concat_str("UNRESOLVED_REFERENCE:", t.as_str()),
                };
                let mut children: Vec<RefNode> = Vec::new();
                children.push(RefNode::Text(text));
                let r = with_children(e, children);
                proof {
                    assert(node_distinct_attributes(r.children@[0]));
                    assert(target_of(em) == Some(t@));
                    assert(element_model(r).children =~= seq![RefNodeModel::Text(resolved_text(t@, om))]);
                }
                r
            },
            None => {
                proof {
                    assert(target_of(em) is None);
                }
                copy_tree(e)
            },
        }
    } else {
        let n = e.children.len();
        let mut children: Vec<RefNode> = Vec::new();
        let mut i: usize = 0;
        while i < n
            invariant
                n == e.children@.len(),
                i <= n,
                children@.len() == i,
                om == text_view(outputs@),
                em == element_model(*e),
                !is_reference_name(em.name),
                forall|k: int| 0 <= k < i ==> node_model(#[trigger] children@[k]) == processed_node(em.children[k], om),
                distinct_attributes(*e) ==> forall|k: int| 0 <= k < i ==> node_distinct_attributes(#[trigger] children@[k]),
            decreases n - i,
        {
            proof {
                assert(em.children[i as int] == node_model(e.children@[i as int]));
            }
            let c = match &e.children[i] {
                RefNode::Element(ce) => {
                    proof {
                        assert(decreases_to!(e => e.children));
                        assert(decreases_to!(e.children => e.children@));
                        assert(decreases_to!(e.children@ => e.children@[i as int]));
                    }
                    proof {
                        if distinct_attributes(*e) {
                            assert(node_distinct_attributes(e.children@[i as int]));
                        }
                    }
                    let pc = process_tree(ce, outputs);
                    let ghost pm = element_model(pc);
                    if is_reference_exec(pc.name.as_str()) && pc.children.len() == 1 && matches!(pc.children[0], RefNode::Text(_)) {
                        match &pc.children[0] {
                            RefNode::Text(t) => {
                                proof {
                                    assert(pm.children[0] == node_model(pc.children@[0]));
                                }
                                RefNode::Text(t.clone())
                            },
                            _ => RefNode::Element(pc),
                        }
                    } else {
                        proof {
                            if pc.children@.len() == 1 {
                                assert(pm.children[0] == node_model(pc.children@[0]));
                            }
                        }
                        RefNode::Element(pc)
                    }
                },
                RefNode::Text(t) => RefNode::Text(t.clone()),
                _ => copy_leaf(&e.children[i]),
            };
            children.push(c);
            i = i + 1;
        }
        let r = with_children(e, children);
        proof {
            assert forall|k: int| 0 <= k < n implies #[trigger] element_model(r).children[k] == processed(em, om).children[k] by {
                assert(element_model(r).children[k] == node_model(r.children@[k]));
            }
            assert(element_model(r).children =~= processed(em, om).children);
        }
        r
    }
}

/// A copy of the element.
fn copy_tree(e: &RefElement) -> (r: RefElement)
    ensures
        element_model(r) == element_model(*e),
        distinct_attributes(*e) ==> distinct_attributes(r),
    decreases e,
{
    let n = e.children.len();
    let mut children: Vec<RefNode> = Vec::new();
    let mut i: usize = 0;
    while i < n
        invariant
            n == e.children@.len(),
            i <= n,
            children@.len() == i,
            forall|k: int| 0 <= k < i ==> node_model(#[trigger] children@[k]) == node_model(e.children@[k]),
            distinct_attributes(*e) ==> forall|k: int| 0 <= k < i ==> node_distinct_attributes(#[trigger] children@[k]),
        decreases n - i,
    {
        let c = match &e.children[i] {
            RefNode::Element(ce) => {
                proof {
                    assert(decreases_to!(e => e.children));
                    assert(decreases_to!(e.children => e.children@));
                    assert(decreases_to!(e.children@ => e.children@[i as int]));
                    if distinct_attributes(*e) {
                        assert(node_distinct_attributes(e.children@[i as int]));
                    }
                }
                RefNode::Element(copy_tree(ce))
            },
            RefNode::Text(t) => RefNode::Text(t.clone()),
            _ => copy_leaf(&e.children[i]),
        };
        children.push(c);
        i = i + 1;
    }
    let r = with_children(e, children);
    proof {
        assert forall|k: int| 0 <= k < n implies #[trigger] element_model(r).children[k] == element_model(*e).children[k] by {
            assert(element_model(r).children[k] == node_model(r.children@[k]));
            assert(element_model(*e).children[k] == node_model(e.children@[k]));
        }
        assert(element_model(r).children =~= element_model(*e).children);
    }
    r
}

/// Whether no element of the tree is a reference.
pub open spec fn reference_free(e: RefElementModel) -> bool
    decreases e,
{
    !is_reference_name(e.name) && forall|i: int| 0 <= i < e.children.len() ==> node_reference_free(#[trigger] e.children[i])
}

/// Whether no element under the node is a reference.
pub open spec fn node_reference_free(n: RefNodeModel) -> bool
    decreases n,
{
    match n {
        RefNodeModel::Element(c) => reference_free(c),
        _ => true,
    }
}

/// Content without references stays as it is: resolving references in a
/// tree none of whose elements is a reference gives the same tree.
pub proof fn law_resolution_without_references(e: RefElementModel, outputs: Map<Seq<char>, Seq<char>>)
    requires
        reference_free(e),
    ensures
        processed(e, outputs) == e,
    decreases e,
{
    let p = processed(e, outputs);
    assert forall|i: int| 0 <= i < e.children.len() implies #[trigger] p.children[i] == e.children[i] by {
        let c = e.children[i];
        assert(node_reference_free(c));
        match c {
            RefNodeModel::Element(ce) => {
                law_resolution_without_references(ce, outputs);
                assert(!is_reference_name(ce.name));
            },
            _ => {},
        }
    }
    assert(p.children =~= e.children);
}

/// Replaces, in place and at every depth, each reference element that holds
/// just one text by that text, as `flatten_tree` states.
pub fn flatten_references(element: &mut RefElement)
    ensures
        element_model(*final(element)) == flattened(element_model(*old(element))),
{
    let flat = flatten_tree(element);
    *element = flat;
}

/// The element with its reference elements that hold just one text
/// replaced by that text, at every depth.
pub fn flatten_tree(e: &RefElement) -> (r: RefElement)
    ensures
        element_model(r) == flattened(element_model(*e)),
    decreases e,
{
    let ghost em = element_model(*e);
    let n = e.children.len();
    let mut children: Vec<RefNode> = Vec::new();
    let mut i: usize = 0;
    while i < n
        invariant
            n == e.children@.len(),
            i <= n,
            children@.len() == i,
            em == element_model(*e),
            forall|k: int| 0 <= k < i ==> node_model(#[trigger] children@[k]) == flattened_node(em.children[k]),
        decreases n - i,
    {
        proof {
            assert(em.children[i as int] == node_model(e.children@[i as int]));
        }
        let c = match &e.children[i] {
            RefNode::Element(ce) => {
                proof {
                    assert(decreases_to!(e => e.children));
                    assert(decreases_to!(e.children => e.children@));
                    assert(decreases_to!(e.children@ => e.children@[i as int]));
                }
                let fc = flatten_tree(ce);
                let ghost fm = element_model(fc);
                if is_reference_exec(fc.name.as_str()) && fc.children.len() == 1 && matches!(fc.children[0], RefNode::Text(_)) {
                    match &fc.children[0] {
                        RefNode::Text(t) => {
                            proof {
                                assert(fm.children[0] == node_model(fc.children@[0]));
                            }
                            RefNode::Text(t.clone())
                        },
                        _ => RefNode::Element(fc),
                    }
                } else {
                    proof {
                        if fc.children@.len() == 1 {
                            assert(fm.children[0] == node_model(fc.children@[0]));
                        }
                    }
                    RefNode::Element(fc)
                }
            },
            RefNode::Text(t) => RefNode::Text(t.clone()),
            _ => copy_leaf(&e.children[i]),
        };
        children.push(c);
        i = i + 1;
    }
    let r = with_children(e, children);
    proof {
        assert forall|k: int| 0 <= k < n implies #[trigger] element_model(r).children[k] == flattened(em).children[k] by {
            assert(element_model(r).children[k] == node_model(r.children@[k]));
        }
        assert(element_model(r).children =~= flattened(em).children);
    }
    r
}

/// Whether `s` holds a reference tag.
fn holds_reference_tag(s: &str) -> (r: bool)
    ensures
        r == contains(s@, "<meta:reference"@),
{
    let v = chars_of(s);
    let n = v.len();
    find_str_in(&v, "<meta:reference", 0, n).is_some()
}

/// The names as text.
pub open spec fn names_view(names: Seq<String>) -> Seq<Seq<char>> {
    names.map_values(|s: String| s@)
}

/// The blocks of `after` are those of `before`, each with at most its
/// content changed, and content without a reference tag unchanged; blocks
/// not named in `names` are unchanged.
pub open spec fn blocks_kept(before: Map<Seq<char>, Block>, after: Map<Seq<char>, Block>, names: Seq<Seq<char>>) -> bool {
    &&& after.dom() == before.dom()
    &&& forall|k: Seq<char>| #[trigger] after.contains_key(k) ==> after[k]@ == BlockModel { content: after[k].content@, ..before[k]@ }
    &&& forall|k: Seq<char>| #[trigger] after.contains_key(k) && !contains(before[k].content@, "<meta:reference"@)
        ==> after[k].content@ == before[k].content@
    &&& forall|k: Seq<char>| #[trigger] after.contains_key(k) && !names.contains(k) ==> after[k] == before[k]
}

/// The outputs of `after` are those of `before` for every name not in
/// `names`.
pub open spec fn outputs_kept(before: Map<Seq<char>, String>, after: Map<Seq<char>, String>, names: Seq<Seq<char>>) -> bool {
    forall|k: Seq<char>| !names.contains(k) ==> (#[trigger] after.contains_key(k) <==> before.contains_key(k))
        && (before.contains_key(k) ==> after[k] == before[k])
}

/// Some call of `resolve` gave the text `x`.
pub open spec fn gave_text<F: Fn(&str) -> Result<String, ExecutorError>>(resolve: &F, x: Seq<char>) -> bool {
    exists|s: &str, t: String| #[trigger] resolve.ensures((s,), Ok::<String, ExecutorError>(t)) && t@ == x
}

/// `resolve` was called on the text `x` and gave a text.
pub open spec fn resolved_from<F: Fn(&str) -> Result<String, ExecutorError>>(resolve: &F, x: Seq<char>) -> bool {
    exists|s: &str, t: String| s@ == x && #[trigger] resolve.ensures((s,), Ok::<String, ExecutorError>(t))
}

/// Some call of `resolve` gave the error `e`.
pub open spec fn gave_error<F: Fn(&str) -> Result<String, ExecutorError>>(resolve: &F, e: ExecutorError) -> bool {
    exists|s: &str| #[trigger] resolve.ensures((s,), Err::<String, ExecutorError>(e))
}

/// Every block whose content differs between `before` and `after` took a
/// text that `resolve` gave.
pub open spec fn changes_resolved<F: Fn(&str) -> Result<String, ExecutorError>>(
    resolve: &F,
    before: Map<Seq<char>, Block>,
    after: Map<Seq<char>, Block>,
) -> bool {
    forall|k: Seq<char>| #[trigger] after.contains_key(k) && after[k].content@ != before[k].content@
        ==> gave_text(resolve, after[k].content@)
}

/// Every block whose content differs between `before` and `after` had its
/// content in `before` resolved.
pub open spec fn changes_from_resolved<F: Fn(&str) -> Result<String, ExecutorError>>(
    resolve: &F,
    before: Map<Seq<char>, Block>,
    after: Map<Seq<char>, Block>,
) -> bool {
    forall|k: Seq<char>| #[trigger] after.contains_key(k) && after[k].content@ != before[k].content@
        ==> resolved_from(resolve, before[k].content@)
}

/// Every named block whose content in `before` held a reference tag had
/// that content resolved.
pub open spec fn tagged_resolved<F: Fn(&str) -> Result<String, ExecutorError>>(
    resolve: &F,
    before: Map<Seq<char>, Block>,
    names: Seq<Seq<char>>,
) -> bool {
    forall|k: Seq<char>| #[trigger] names.contains(k) && before.contains_key(k) && contains(before[k].content@, "<meta:reference"@)
        ==> resolved_from(resolve, before[k].content@)
}

/// No named block's content holds a reference tag.
pub open spec fn none_tagged(before: Map<Seq<char>, Block>, names: Seq<Seq<char>>) -> bool {
    forall|k: Seq<char>| #[trigger] names.contains(k) && before.contains_key(k) ==> !contains(before[k].content@, "<meta:reference"@)
}

/// The output of every named block of `before` is its content in `after`.
pub open spec fn outputs_recorded(
    before: Map<Seq<char>, Block>,
    after: Map<Seq<char>, Block>,
    outputs: Map<Seq<char>, String>,
    names: Seq<Seq<char>>,
) -> bool {
    forall|k: Seq<char>| #[trigger] names.contains(k) && before.contains_key(k)
        ==> outputs.contains_key(k) && outputs[k]@ == after[k].content@
}

/// A phase over the named blocks done, from blocks `b0` and outputs `o0`
/// to `b1` and `o1`: only contents changed, and only to texts that `resolve`
/// gave; each named block with a reference tag had its content resolved;
/// each named block's output is its content; other outputs are kept.
pub open spec fn phase_done<F: Fn(&str) -> Result<String, ExecutorError>>(
    resolve: &F,
    b0: Map<Seq<char>, Block>,
    o0: Map<Seq<char>, String>,
    b1: Map<Seq<char>, Block>,
    o1: Map<Seq<char>, String>,
    names: Seq<Seq<char>>,
) -> bool {
    &&& blocks_kept(b0, b1, names)
    &&& outputs_kept(o0, o1, names)
    &&& changes_resolved(resolve, b0, b1)
    &&& tagged_resolved(resolve, b0, names)
    &&& outputs_recorded(b0, b1, o1, names)
}

/// Resolves references in the named blocks with `resolve`, in up to five
/// passes, then records each named block's content as its output. In a
/// pass, each named block whose content holds `<meta:reference` has it
/// resolved; where that changes the content, the block takes the new
/// content and its output is set to it; the passes stop after one that
/// changes nothing. An error of `resolve` ends the work and is returned.
pub fn process_blocks<F: Fn(&str) -> Result<String, ExecutorError>>(
    resolve: &F,
    blocks: &mut TextMap<Block>,
    outputs: &mut TextMap<String>,
    block_names: &[String],
) -> (r: Result<(), ExecutorError>)
    requires
        forall|s: &str| #[trigger] resolve.requires((s,)),
    ensures
        blocks_kept(old(blocks)@, final(blocks)@, names_view(block_names@)),
        outputs_kept(old(outputs)@, final(outputs)@, names_view(block_names@)),
        changes_resolved(resolve, old(blocks)@, final(blocks)@),
        r is Ok ==> phase_done(resolve, old(blocks)@, old(outputs)@, final(blocks)@, final(outputs)@, names_view(block_names@)),
        r matches Err(e) ==> gave_error(resolve, e),
        none_tagged(old(blocks)@, names_view(block_names@)) ==> r is Ok && final(blocks)@ == old(blocks)@,
{
    let ghost names = names_view(block_names@);
    let ghost b0 = blocks@;
    let ghost o0 = outputs@;
    let ghost quiet = none_tagged(b0, names);
    let n = block_names.len();
    let mut pass: usize = 0;
    let ghost mut done_one = false;
    while pass < 5
        invariant
            n == block_names@.len(),
            names == names_view(block_names@),
            forall|s: &str| #[trigger] resolve.requires((s,)),
            blocks_kept(b0, blocks@, names),
            outputs_kept(o0, outputs@, names),
            changes_resolved(resolve, b0, blocks@),
            changes_from_resolved(resolve, b0, blocks@),
            done_one ==> tagged_resolved(resolve, b0, names),
            pass >= 1 ==> done_one,
            quiet == none_tagged(b0, names),
            quiet ==> blocks@ == b0,
            b0 == old(blocks)@,
            o0 == old(outputs)@,
        ensures
            done_one,
            blocks_kept(b0, blocks@, names),
            outputs_kept(o0, outputs@, names),
            changes_resolved(resolve, b0, blocks@),
            tagged_resolved(resolve, b0, names),
            quiet ==> blocks@ == b0,
        decreases 5 - pass,
    {
        let mut any_replaced = false;
        let mut j: usize = 0;
        while j < n
            invariant
                n == block_names@.len(),
                j <= n,
                names == names_view(block_names@),
                forall|s: &str| #[trigger] resolve.requires((s,)),
                blocks_kept(b0, blocks@, names),
                outputs_kept(o0, outputs@, names),
                changes_resolved(resolve, b0, blocks@),
                changes_from_resolved(resolve, b0, blocks@),
                forall|k: int| 0 <= k < j && b0.contains_key(#[trigger] names[k])
                    && contains(b0[names[k]].content@, "<meta:reference"@)
                    ==> resolved_from(resolve, b0[names[k]].content@),
                quiet == none_tagged(b0, names),
                quiet ==> blocks@ == b0,
                b0 == old(blocks)@,
                o0 == old(outputs)@,
            decreases n - j,
        {
            let name = &block_names[j];
            proof {
                assert(names[j as int] == name@);
                assert(names.contains(name@));
            }
            let content = match blocks.get(name.as_str()) {
                Some(block) => {
                    if !holds_reference_tag(block.content.as_str()) {
                        proof {
                            if b0.contains_key(name@) && contains(b0[name@].content@, "<meta:reference"@) {
                                assert(blocks@[name@].content@ != b0[name@].content@);
                            }
                        }
                        j = j + 1;
                        continue;
                    }
                    block.content.clone()
                },
                None => {
                    j = j + 1;
                    continue;
                },
            };
            proof {
                assert(!quiet);
            }
            let cs = content.as_str();
            let res = resolve(cs);
            let ghost gres = res;
            proof {
                assert(resolve.ensures((cs,), gres));
            }
            let processed = match res {
                Ok(p) => p,
                Err(e) => {
                    proof {
                        assert(resolve.ensures((cs,), Err::<String, ExecutorError>(e)));
                    }
                    return Err(e);
                },
            };
            proof {
                assert(resolve.ensures((cs,), Ok::<String, ExecutorError>(processed)));
                assert(resolved_from(resolve, content@));
                assert(gave_text(resolve, processed@));
            }
            if !str_is(processed.as_str(), cs) {
                match blocks.get(name.as_str()) {
                    Some(block) => {
                        let ghost before = blocks@;
                        let mut updated = block.copy();
                        updated.content = processed.clone();
                        proof {
                            assert(updated@ == BlockModel { content: processed@, ..block@ });
                            assert(contains(block.content@, "<meta:reference"@));
                        }
                        blocks.insert(name.clone(), updated);
                        proof {
                            assert(blocks@ == before.insert(name@, updated));
                            assert forall|k: Seq<char>| #[trigger] blocks@.contains_key(k) implies blocks@[k]@
                                == BlockModel { content: blocks@[k].content@, ..b0[k]@ } by {
                                if k != name@ {
                                    assert(before.contains_key(k));
                                }
                            }
                            assert forall|k: Seq<char>| #[trigger] blocks@.contains_key(k) && blocks@[k].content@ != b0[k].content@
                                implies gave_text(resolve, blocks@[k].content@) by {
                                if k != name@ {
                                    assert(before.contains_key(k));
                                }
                            }
                            assert forall|k: Seq<char>| #[trigger] blocks@.contains_key(k) && blocks@[k].content@ != b0[k].content@
                                implies resolved_from(resolve, b0[k].content@) by {
                                if k != name@ {
                                    assert(before.contains_key(k));
                                } else if before[k].content@ != b0[k].content@ {
                                    assert(before.contains_key(k));
                                }
                            }
                            assert(blocks@.dom() =~= b0.dom());
                        }
                    },
                    None => {},
                }
                outputs.insert(name.clone(), processed);
                any_replaced = true;
            }
            proof {
                if b0.contains_key(name@) && contains(b0[name@].content@, "<meta:reference"@) {
                    if blocks@[name@].content@ != b0[name@].content@ {
                        assert(blocks@.contains_key(name@));
                    }
                }
            }
            j = j + 1;
        }
        proof {
            assert forall|k: Seq<char>| #[trigger] names.contains(k) && b0.contains_key(k)
                && contains(b0[k].content@, "<meta:reference"@) implies resolved_from(resolve, b0[k].content@) by {
                let idx = choose|idx: int| 0 <= idx < names.len() && names[idx] == k;
                assert(b0.contains_key(names[idx]));
            }
            done_one = true;
        }
        if !any_replaced {
            break;
        }
        pass = pass + 1;
    }
    let ghost b1 = blocks@;
    let ghost o1 = outputs@;
    let mut j: usize = 0;
    while j < n
        invariant
            n == block_names@.len(),
            j <= n,
            names == names_view(block_names@),
            blocks@ == b1,
            blocks_kept(b0, blocks@, names),
            outputs_kept(o0, outputs@, names),
            b0 == old(blocks)@,
            o0 == old(outputs)@,
            forall|i: int| 0 <= i < j && b0.contains_key(#[trigger] names[i])
                ==> outputs@.contains_key(names[i]) && outputs@[names[i]]@ == blocks@[names[i]].content@,
        decreases n - j,
    {
        let name = &block_names[j];
        proof {
            assert(names[j as int] == name@);
        }
        match blocks.get(name.as_str()) {
            Some(block) => {
                outputs.insert(name.clone(), block.content.clone());
            },
            None => {},
        }
        j = j + 1;
    }
    proof {
        assert forall|k: Seq<char>| #[trigger] names.contains(k) && b0.contains_key(k)
            implies outputs@.contains_key(k) && outputs@[k]@ == blocks@[k].content@ by {
            let idx = choose|idx: int| 0 <= idx < names.len() && names[idx] == k;
            assert(b0.contains_key(names[idx]));
        }
    }
    Ok(())
}

/// Whether a block type is that of a data block: `data` or `data:` and a
/// subtype.
pub open spec fn is_data_type(t: Seq<char>) -> bool {
    t == "data"@ || starts_with(t, "data:"@)
}

proof fn lemma_blocks_kept_chain(a: Map<Seq<char>, Block>, b: Map<Seq<char>, Block>, c: Map<Seq<char>, Block>, n1: Seq<Seq<char>>, n2: Seq<Seq<char>>, all: Seq<Seq<char>>)
    requires
        blocks_kept(a, b, n1),
        blocks_kept(b, c, n2),
        forall|k: Seq<char>| a.contains_key(k) ==> #[trigger] all.contains(k),
    ensures
        blocks_kept(a, c, all),
{
    assert forall|k: Seq<char>| #[trigger] c.contains_key(k) implies c[k]@ == BlockModel { content: c[k].content@, ..a[k]@ } by {
        assert(b.contains_key(k));
    }
    assert forall|k: Seq<char>| #[trigger] c.contains_key(k) && !contains(a[k].content@, "<meta:reference"@)
        implies c[k].content@ == a[k].content@ by {
        assert(b.contains_key(k));
    }
    assert forall|k: Seq<char>| #[trigger] c.contains_key(k) && !all.contains(k) implies c[k] == a[k] by {
        assert(a.contains_key(k));
    }
}

/// The names of the first `i` entries whose block is a data block (`data`
/// true) or is not (`data` false), in order.
pub open spec fn phase_names(ps: Seq<(String, Block)>, data: bool, i: int) -> Seq<Seq<char>>
    decreases i,
{
    if i <= 0 {
        seq![]
    } else {
        let rest = phase_names(ps, data, i - 1);
        if is_data_type(ps[i - 1].1.block_type@) == data {
            rest.push(ps[i - 1].0@)
        } else {
            rest
        }
    }
}

/// The three phases done in order, from `b0`, `o0` to `b3`, `o3`: the data
/// blocks, then the other blocks, then all of them.
pub open spec fn phases_done<F: Fn(&str) -> Result<String, ExecutorError>>(
    resolve: &F,
    b0: Map<Seq<char>, Block>,
    o0: Map<Seq<char>, String>,
    b3: Map<Seq<char>, Block>,
    o3: Map<Seq<char>, String>,
    data: Seq<Seq<char>>,
    others: Seq<Seq<char>>,
    all: Seq<Seq<char>>,
) -> bool {
    exists|b1: Map<Seq<char>, Block>, o1: Map<Seq<char>, String>, b2: Map<Seq<char>, Block>, o2: Map<Seq<char>, String>|
        #![trigger phase_done(resolve, b0, o0, b1, o1, data), phase_done(resolve, b1, o1, b2, o2, others)]
        phase_done(resolve, b0, o0, b1, o1, data) && phase_done(resolve, b1, o1, b2, o2, others)
            && phase_done(resolve, b2, o2, b3, o3, all)
}

proof fn lemma_changes_chain<F: Fn(&str) -> Result<String, ExecutorError>>(
    resolve: &F,
    a: Map<Seq<char>, Block>,
    b: Map<Seq<char>, Block>,
    c: Map<Seq<char>, Block>,
)
    requires
        changes_resolved(resolve, a, b),
        changes_resolved(resolve, b, c),
        b.dom() == c.dom(),
    ensures
        changes_resolved(resolve, a, c),
{
    assert forall|k: Seq<char>| #[trigger] c.contains_key(k) && c[k].content@ != a[k].content@
        implies gave_text(resolve, c[k].content@) by {
        assert(b.contains_key(k));
    }
}

/// Resolves references in every block with `resolve`: first in the data
/// blocks (of type `data` or `data:` and a subtype), then in the others,
/// then in all of them once more, each phase as `process_blocks` states.
/// Afterwards the output of every block is its content.
pub fn process_references<F: Fn(&str) -> Result<String, ExecutorError>>(
    resolve: &F,
    blocks: &mut TextMap<Block>,
    outputs: &mut TextMap<String>,
) -> (r: Result<(), ExecutorError>)
    requires
        forall|s: &str| #[trigger] resolve.requires((s,)),
    ensures
        blocks_kept(old(blocks)@, final(blocks)@, old(blocks).key_seq()),
        forall|k: Seq<char>| !old(blocks)@.contains_key(k) ==> (#[trigger] final(outputs)@.contains_key(k) <==> old(outputs)@.contains_key(k))
            && (old(outputs)@.contains_key(k) ==> final(outputs)@[k] == old(outputs)@[k]),
        changes_resolved(resolve, old(blocks)@, final(blocks)@),
        r matches Err(e) ==> gave_error(resolve, e),
        none_tagged(old(blocks)@, old(blocks).key_seq()) ==> r is Ok && final(blocks)@ == old(blocks)@,
        r is Ok ==> tagged_resolved(resolve, old(blocks)@, old(blocks).key_seq()),
        r is Ok ==> forall|k: Seq<char>| #[trigger] old(blocks)@.contains_key(k)
            ==> final(outputs)@.contains_key(k) && final(outputs)@[k]@ == final(blocks)@[k].content@,
        r is Ok ==> phases_done(
            resolve,
            old(blocks)@,
            old(outputs)@,
            final(blocks)@,
            final(outputs)@,
            phase_names(old(blocks).pairs(), true, old(blocks).pairs().len() as int),
            phase_names(old(blocks).pairs(), false, old(blocks).pairs().len() as int),
            old(blocks).key_seq(),
        ),
{
    let ghost b0 = blocks@;
    let ghost o0 = outputs@;
    let ghost keys = blocks.key_seq();
    let ghost ps = blocks.pairs();
    let mut all: Vec<String> = Vec::new();
    let mut data: Vec<String> = Vec::new();
    let mut others: Vec<String> = Vec::new();
    let n = blocks.len();
    let mut i: usize = 0;
    while i < n
        invariant
            n == blocks.pairs().len(),
            i <= n,
            blocks@ == b0,
            keys == blocks.key_seq(),
            ps == blocks.pairs(),
            names_view(all@) == keys.take(i as int),
            names_view(data@) == phase_names(ps, true, i as int),
            names_view(others@) == phase_names(ps, false, i as int),
            forall|j: int| 0 <= j < data@.len() ==> b0.contains_key(#[trigger] data@[j]@)
                && is_data_type(b0[data@[j]@].block_type@),
            forall|j: int| 0 <= j < others@.len() ==> b0.contains_key(#[trigger] others@[j]@)
                && !is_data_type(b0[others@[j]@].block_type@),
            forall|j: int| 0 <= j < i ==> b0.contains_key(#[trigger] ps[j].0@) && b0[ps[j].0@] == ps[j].1,
            forall|j: int| 0 <= j < i && is_data_type(#[trigger] ps[j].1.block_type@) ==> names_view(data@).contains(ps[j].0@),
            forall|j: int| 0 <= j < i && !is_data_type(#[trigger] ps[j].1.block_type@) ==> names_view(others@).contains(ps[j].0@),
        decreases n - i,
    {
        let (name, block) = blocks.entry(i);
        let ghost old_all = all@;
        let ghost old_data = data@;
        let ghost old_others = others@;
        all.push(name.clone());
        proof {
            assert(keys[i as int] == name@);
            assert(names_view(all@) =~= names_view(old_all).push(name@));
            assert(keys.take(i as int + 1) =~= keys.take(i as int).push(keys[i as int]));
            assert(ps[i as int].0 == *name && ps[i as int].1 == *block);
        }
        if str_is(block.block_type.as_str(), "data") || starts_with_str(block.block_type.as_str(), "data:") {
            data.push(name.clone());
            proof {
                assert(names_view(data@) =~= names_view(old_data).push(name@));
                assert(names_view(others@) =~= names_view(old_others));
                assert forall|j: int| 0 <= j < i as int + 1 && is_data_type(#[trigger] ps[j].1.block_type@)
                    implies names_view(data@).contains(ps[j].0@) by {
                    if j == i {
                        assert(names_view(data@)[data@.len() - 1] == name@);
                    } else {
                        assert(names_view(old_data).contains(ps[j].0@));
                        let w = choose|w: int| 0 <= w < names_view(old_data).len() && names_view(old_data)[w] == ps[j].0@;
                        assert(names_view(data@)[w] == ps[j].0@);
                    }
                }
            }
        } else {
            others.push(name.clone());
            proof {
                assert(names_view(others@) =~= names_view(old_others).push(name@));
                assert(names_view(data@) =~= names_view(old_data));
                assert forall|j: int| 0 <= j < i as int + 1 && !is_data_type(#[trigger] ps[j].1.block_type@)
                    implies names_view(others@).contains(ps[j].0@) by {
                    if j == i {
                        assert(names_view(others@)[others@.len() - 1] == name@);
                    } else {
                        assert(names_view(old_others).contains(ps[j].0@));
                        let w = choose|w: int| 0 <= w < names_view(old_others).len() && names_view(old_others)[w] == ps[j].0@;
                        assert(names_view(others@)[w] == ps[j].0@);
                    }
                }
            }
        }
        proof {
            assert(names_view(all@) =~= keys.take(i as int + 1));
        }
        i = i + 1;
    }
    let ghost dn = names_view(data@);
    let ghost on = names_view(others@);
    proof {
        assert(keys.take(n as int) =~= keys);
        assert forall|k: Seq<char>| b0.contains_key(k) implies #[trigger] names_view(all@).contains(k)
            && (is_data_type(b0[k].block_type@) ==> dn.contains(k))
            && (!is_data_type(b0[k].block_type@) ==> on.contains(k)) by {
            assert(has_entry(blocks.pairs(), k));
            let j = choose|j: int| 0 <= j < blocks.pairs().len() && (#[trigger] blocks.pairs()[j]).0@ == k;
            assert(keys[j] == k);
            assert(b0[ps[j].0@] == ps[j].1);
            if is_data_type(ps[j].1.block_type@) {
                assert(dn.contains(ps[j].0@));
            } else {
                assert(on.contains(ps[j].0@));
            }
        }
        assert forall|k: Seq<char>| #[trigger] dn.contains(k) implies b0.contains_key(k) && is_data_type(b0[k].block_type@) by {
            let j = choose|j: int| 0 <= j < dn.len() && dn[j] == k;
            assert(data@[j]@ == k);
        }
        assert forall|k: Seq<char>| #[trigger] on.contains(k) implies b0.contains_key(k) && !is_data_type(b0[k].block_type@) by {
            let j = choose|j: int| 0 <= j < on.len() && on[j] == k;
            assert(others@[j]@ == k);
        }
    }
    let ghost all_names = names_view(all@);
    proof {
        assert(all_names =~= keys);
    }
    let ghost quiet = none_tagged(b0, keys);
    proof {
        if quiet {
            assert forall|k: Seq<char>| #[trigger] dn.contains(k) && b0.contains_key(k)
                implies !contains(b0[k].content@, "<meta:reference"@) by {
                assert(all_names.contains(k));
            }
        }
    }
    match process_blocks(resolve, blocks, outputs, data.as_slice()) {
        Ok(()) => {},
        Err(e) => {
            return Err(e);
        },
    }
    let ghost b1 = blocks@;
    let ghost o1 = outputs@;
    proof {
        if quiet {
            assert forall|k: Seq<char>| #[trigger] on.contains(k) && b1.contains_key(k)
                implies !contains(b1[k].content@, "<meta:reference"@) by {
                assert(all_names.contains(k));
            }
        }
    }
    match process_blocks(resolve, blocks, outputs, others.as_slice()) {
        Ok(()) => {},
        Err(e) => {
            proof {
                lemma_changes_chain(resolve, b0, b1, blocks@);
                lemma_blocks_kept_chain(b0, b1, blocks@, dn, on, all_names);
            }
            return Err(e);
        },
    }
    let ghost b2 = blocks@;
    let ghost o2 = outputs@;
    proof {
        lemma_blocks_kept_chain(b0, b1, b2, dn, on, all_names);
        lemma_changes_chain(resolve, b0, b1, b2);
        if quiet {
            assert forall|k: Seq<char>| #[trigger] all_names.contains(k) && b2.contains_key(k)
                implies !contains(b2[k].content@, "<meta:reference"@) by {
            }
        }
    }
    let r = process_blocks(resolve, blocks, outputs, all.as_slice());
    proof {
        lemma_changes_chain(resolve, b0, b2, blocks@);
        assert forall|k: Seq<char>| #[trigger] blocks@.contains_key(k) && !all_names.contains(k) implies blocks@[k] == b0[k] by {
            assert(b0.contains_key(k));
        }
        assert(blocks_kept(b0, blocks@, all_names));
        if r is Ok {
            assert(phase_done(resolve, b0, o0, b1, o1, dn));
            assert(phase_done(resolve, b1, o1, b2, o2, on));
            assert(phase_done(resolve, b2, o2, blocks@, outputs@, all_names));
            assert forall|k: Seq<char>| #[trigger] all_names.contains(k) && b0.contains_key(k)
                && contains(b0[k].content@, "<meta:reference"@) implies resolved_from(resolve, b0[k].content@) by {
                if is_data_type(b0[k].block_type@) {
                    assert(dn.contains(k));
                } else {
                    assert(on.contains(k));
                    assert(b1.contains_key(k));
                    if dn.contains(k) {
                        assert(is_data_type(b0[k].block_type@));
                    }
                    assert(b1[k] == b0[k]);
                }
            }
        }
    }
    r
}

} // verus!
