//! A markup document as a tree of elements, and the token stream that a
//! reader of markup hands over.

use crate::error::{fulfils, CLIError, CLIErrorView};
use vstd::prelude::*;
use xml::reader::{EventReader, ParserConfig, XmlEvent};

verus! {

/// A name with a value, as written inside an opening tag.
#[derive(Debug, PartialEq, Eq)]
pub struct Attribute {
    pub name: String,
    pub value: String,
}

/// What an element can hold: another element or a run of text.
#[derive(Debug, PartialEq, Eq)]
pub enum Node {
    Element(Element),
    Text(String),
}

/// An element: its tag name, its attributes in the order written, and what
/// stands between its tags, in document order.
#[derive(Debug, PartialEq, Eq)]
pub struct Element {
    pub name: String,
    pub attributes: Vec<Attribute>,
    pub children: Vec<Node>,
}

/// One step of a document as a reader hands it over.
#[derive(Debug, PartialEq, Eq)]
pub enum Token {
    /// An opening tag.
    Open { name: String, attributes: Vec<Attribute> },
    /// A closing tag.
    Close,
    /// A run of text.
    Text(String),
    /// Anything that is no part of the element tree, such as the document
    /// declaration or a processing instruction.
    Other,
}

/// The mathematical value of an [`Attribute`].
pub struct AttributeView {
    pub name: Seq<char>,
    pub value: Seq<char>,
}

/// The mathematical value of a [`Node`].
pub enum NodeView {
    Element(ElementView),
    Text(Seq<char>),
}

/// The mathematical value of an [`Element`].
pub struct ElementView {
    pub name: Seq<char>,
    pub attributes: Seq<AttributeView>,
    pub children: Seq<NodeView>,
}

/// The mathematical value of a [`Token`].
pub enum TokenView {
    Open { name: Seq<char>, attributes: Seq<AttributeView> },
    Close,
    Text(Seq<char>),
    Other,
}

impl DeepView for Attribute {
    type V = AttributeView;

    open spec fn deep_view(&self) -> AttributeView {
        AttributeView { name: self.name@, value: self.value@ }
    }
}

impl View for Attribute {
    type V = AttributeView;

    open spec fn view(&self) -> AttributeView {
        self.deep_view()
    }
}

/// The mathematical value of an element, children included.
pub open spec fn element_view(element: Element) -> ElementView
    decreases element,
{
    ElementView {
        name: element.name@,
        attributes: element.attributes.deep_view(),
        children: Seq::new(
            element.children@.len(),
            |i: int|
                if 0 <= i < element.children@.len() {
                    node_view(element.children@[i])
                } else {
                    NodeView::Text(Seq::empty())
                },
        ),
    }
}

/// The mathematical value of a node.
pub open spec fn node_view(node: Node) -> NodeView
    decreases node,
{
    match node {
        Node::Element(element) => NodeView::Element(element_view(element)),
        Node::Text(text) => NodeView::Text(text@),
    }
}

impl DeepView for Element {
    type V = ElementView;

    open spec fn deep_view(&self) -> ElementView {
        element_view(*self)
    }
}

impl View for Element {
    type V = ElementView;

    open spec fn view(&self) -> ElementView {
        self.deep_view()
    }
}

impl DeepView for Node {
    type V = NodeView;

    open spec fn deep_view(&self) -> NodeView {
        node_view(*self)
    }
}

impl View for Node {
    type V = NodeView;

    open spec fn view(&self) -> NodeView {
        self.deep_view()
    }
}

impl DeepView for Token {
    type V = TokenView;

    open spec fn deep_view(&self) -> TokenView {
        match self {
            Token::Open { name, attributes } => TokenView::Open {
                name: name@,
                attributes: attributes.deep_view(),
            },
            Token::Close => TokenView::Close,
            Token::Text(text) => TokenView::Text(text@),
            Token::Other => TokenView::Other,
        }
    }
}

impl View for Token {
    type V = TokenView;

    open spec fn view(&self) -> TokenView {
        self.deep_view()
    }
}

/// The tokens that a node is written as.
pub open spec fn node_tokens(node: NodeView) -> Seq<TokenView>
    decreases node, 0nat,
{
    match node {
        NodeView::Element(element) => element_tokens(element),
        NodeView::Text(text) => seq![TokenView::Text(text)],
    }
}

/// The tokens that a run of nodes is written as, one node after another.
pub open spec fn nodes_tokens(nodes: Seq<NodeView>) -> Seq<TokenView>
    decreases nodes, 1nat,
{
    if nodes.len() == 0 {
        Seq::empty()
    } else {
        nodes_tokens(nodes.drop_last()) + node_tokens(nodes.last())
    }
}

/// An element's opening tag and what it holds, without its closing tag.
pub open spec fn opened_tokens(element: ElementView) -> Seq<TokenView>
    decreases element, 2nat,
{
    seq![TokenView::Open { name: element.name, attributes: element.attributes }] + nodes_tokens(
        element.children,
    )
}

/// The tokens that an element is written as: its opening tag, what it
/// holds, and its closing tag.
pub open spec fn element_tokens(element: ElementView) -> Seq<TokenView>
    decreases element, 3nat,
{
    opened_tokens(element).push(TokenView::Close)
}

/// The tokens that belong to the element tree, in order.
pub open spec fn significant(tokens: Seq<TokenView>) -> Seq<TokenView>
    decreases tokens.len(),
{
    if tokens.len() == 0 {
        Seq::empty()
    } else if tokens.last() is Other {
        significant(tokens.drop_last())
    } else {
        significant(tokens.drop_last()).push(tokens.last())
    }
}

/// The tokens are those of the document `document`, with nothing before or
/// after it but what is no part of the tree.
pub open spec fn spells(tokens: Seq<TokenView>, document: ElementView) -> bool {
    significant(tokens) == element_tokens(document)
}

/// The tokens are those of some document.
pub open spec fn well_formed(tokens: Seq<TokenView>) -> bool {
    exists|document: ElementView| spells(tokens, document)
}

/// The document that the tokens spell, if they spell one.
pub open spec fn document_of(tokens: Seq<TokenView>) -> Option<ElementView> {
    if well_formed(tokens) {
        Some(choose|document: ElementView| spells(tokens, document))
    } else {
        None
    }
}

/// The diagnostic for tokens that are not those of one document.
pub const NOT_A_DOCUMENT: &'static str = "the markup is not a single element with matching tags";

/// The mathematical value of the outcome of reading: the tokens in
/// document order, or the reader's complaint.
pub open spec fn read_view(read: Result<Vec<Token>, String>) -> Result<
    Seq<TokenView>,
    Seq<char>,
> {
    match read {
        Ok(tokens) => Ok(tokens.deep_view()),
        Err(complaint) => Err(complaint@),
    }
}

/// The document, or the diagnostic, that the outcome of reading stands
/// for: the reader's complaint, or the document that the tokens spell, or
/// the finding that they spell none.
pub open spec fn document_read(
    read: Result<Seq<TokenView>, Seq<char>>,
) -> Result<ElementView, Seq<char>> {
    match read {
        Ok(tokens) => match document_of(tokens) {
            Some(document) => Ok(document),
            None => Err(NOT_A_DOCUMENT@),
        },
        Err(complaint) => Err(complaint),
    }
}

/// What a token adds to the nesting depth.
pub open spec fn weight(token: TokenView) -> int {
    match token {
        TokenView::Open { .. } => 1,
        TokenView::Close => -1,
        _ => 0,
    }
}

/// The nesting depth after a run of tokens: the opening tags less the
/// closing tags.
pub open spec fn depth(tokens: Seq<TokenView>) -> int
    decreases tokens.len(),
{
    if tokens.len() == 0 {
        0
    } else {
        depth(tokens.drop_last()) + weight(tokens.last())
    }
}

/// The tokens of the elements that are open, outermost first, each with
/// what it holds so far.
pub open spec fn pending_tokens(open: Seq<ElementView>) -> Seq<TokenView>
    decreases open.len(),
{
    if open.len() == 0 {
        Seq::empty()
    } else {
        pending_tokens(open.drop_last()) + opened_tokens(open.last())
    }
}

/// The depth after two runs of tokens is the sum of their depths.
pub proof fn lemma_depth_add(a: Seq<TokenView>, b: Seq<TokenView>)
    ensures
        depth(a + b) == depth(a) + depth(b),
    decreases b.len(),
{
    if b.len() == 0 {
        assert(a + b =~= a);
    } else {
        assert((a + b).drop_last() =~= a + b.drop_last());
        lemma_depth_add(a, b.drop_last());
    }
}

/// Dropping what is no part of the tree goes token by token.
pub proof fn lemma_significant_add(a: Seq<TokenView>, b: Seq<TokenView>)
    ensures
        significant(a + b) == significant(a) + significant(b),
    decreases b.len(),
{
    if b.len() == 0 {
        assert(a + b =~= a);
        assert(significant(a) + significant(b) =~= significant(a));
    } else {
        assert((a + b).drop_last() =~= a + b.drop_last());
        lemma_significant_add(a, b.drop_last());
        assert(significant(a + b) =~= significant(a) + significant(b));
    }
}

/// The tokens of a node return to the depth they start from and never go
/// below it.
pub proof fn lemma_node_balanced(node: NodeView)
    ensures
        node_tokens(node).len() >= 1,
        depth(node_tokens(node)) == 0,
        forall|k: int|
            0 <= k <= node_tokens(node).len() ==> depth(#[trigger] node_tokens(node).take(k))
                >= 0,
    decreases node, 0nat,
{
    let tokens = node_tokens(node);
    match node {
        NodeView::Element(element) => {
            lemma_element_balanced(element);
            assert forall|k: int| 0 <= k <= tokens.len() implies depth(#[trigger] tokens.take(k))
                >= 0 by {
                if k == 0 {
                    assert(tokens.take(0) =~= Seq::<TokenView>::empty());
                } else if k == tokens.len() {
                    assert(tokens.take(k) =~= tokens);
                }
            }
        },
        NodeView::Text(_) => {
            assert(tokens.drop_last() =~= Seq::<TokenView>::empty());
            assert(depth(Seq::<TokenView>::empty()) == 0);
            assert(depth(tokens) == 0);
            assert forall|k: int| 0 <= k <= tokens.len() implies depth(#[trigger] tokens.take(k))
                >= 0 by {
                if k == 0 {
                    assert(tokens.take(0) =~= Seq::<TokenView>::empty());
                } else {
                    assert(tokens.take(k) =~= tokens);
                }
            }
        },
    }
}

/// The tokens of a run of nodes return to the depth they start from and
/// never go below it.
pub proof fn lemma_nodes_balanced(nodes: Seq<NodeView>)
    ensures
        depth(nodes_tokens(nodes)) == 0,
        forall|k: int|
            0 <= k <= nodes_tokens(nodes).len() ==> depth(#[trigger] nodes_tokens(nodes).take(k))
                >= 0,
    decreases nodes, 1nat,
{
    let tokens = nodes_tokens(nodes);
    if nodes.len() == 0 {
        assert forall|k: int| 0 <= k <= tokens.len() implies depth(#[trigger] tokens.take(k))
            >= 0 by {
            assert(tokens.take(k) =~= Seq::<TokenView>::empty());
        }
    } else {
        let before = nodes_tokens(nodes.drop_last());
        let last = node_tokens(nodes.last());
        lemma_nodes_balanced(nodes.drop_last());
        lemma_node_balanced(nodes.last());
        lemma_depth_add(before, last);
        assert forall|k: int| 0 <= k <= tokens.len() implies depth(#[trigger] tokens.take(k))
            >= 0 by {
            if k <= before.len() {
                assert(tokens.take(k) =~= before.take(k));
            } else {
                assert(tokens.take(k) =~= before + last.take(k - before.len()));
                lemma_depth_add(before, last.take(k - before.len()));
            }
        }
    }
}

/// The tokens of an element begin with its opening tag, stay inside it
/// until the last token, and end at the depth they start from.
pub proof fn lemma_element_balanced(element: ElementView)
    ensures
        element_tokens(element).len() >= 2,
        element_tokens(element)[0] is Open,
        depth(opened_tokens(element)) == 1,
        depth(element_tokens(element)) == 0,
        forall|k: int|
            0 < k < element_tokens(element).len() ==> depth(
                #[trigger] element_tokens(element).take(k),
            ) >= 1,
    decreases element, 2nat,
{
    let first = seq![TokenView::Open { name: element.name, attributes: element.attributes }];
    let body = nodes_tokens(element.children);
    let tokens = element_tokens(element);
    lemma_nodes_balanced(element.children);
    assert(first.drop_last() =~= Seq::<TokenView>::empty());
    assert(depth(Seq::<TokenView>::empty()) == 0);
    assert(depth(first) == 1);
    lemma_depth_add(first, body);
    assert(tokens.drop_last() =~= first + body);
    assert forall|k: int| 0 < k < tokens.len() implies depth(#[trigger] tokens.take(k)) >= 1 by {
        assert(tokens.take(k) =~= first + body.take(k - 1));
        lemma_depth_add(first, body.take(k - 1));
    }
}

/// With `n` elements open, the depth is `n`.
pub proof fn lemma_pending_depth(open: Seq<ElementView>)
    ensures
        depth(pending_tokens(open)) == open.len(),
    decreases open.len(),
{
    if open.len() > 0 {
        lemma_pending_depth(open.drop_last());
        lemma_element_balanced(open.last());
        lemma_depth_add(pending_tokens(open.drop_last()), opened_tokens(open.last()));
    }
}

/// No element's tokens end with the tokens of another element and have
/// more before them.
proof fn lemma_no_proper_suffix(before: Seq<TokenView>, x: ElementView, y: ElementView)
    requires
        before + element_tokens(x) == element_tokens(y),
    ensures
        before.len() == 0,
{
    lemma_element_balanced(x);
    lemma_element_balanced(y);
    if before.len() > 0 {
        lemma_depth_add(before, element_tokens(x));
        assert(element_tokens(y).take(before.len() as int) =~= before);
    }
}

/// Elements that are written as the same tokens have the same name and
/// attributes, and hold what is written as the same tokens.
proof fn lemma_element_tokens_parts(x: ElementView, y: ElementView)
    requires
        element_tokens(x) == element_tokens(y),
    ensures
        x.name == y.name,
        x.attributes == y.attributes,
        nodes_tokens(x.children) == nodes_tokens(y.children),
{
    let written = element_tokens(x);
    let x_open = TokenView::Open { name: x.name, attributes: x.attributes };
    let y_open = TokenView::Open { name: y.name, attributes: y.attributes };
    assert(seq![x_open][0] == x_open);
    assert(seq![y_open][0] == y_open);
    assert(opened_tokens(x)[0] == x_open);
    assert(opened_tokens(y)[0] == y_open);
    assert(element_tokens(x)[0] == x_open);
    assert(element_tokens(y)[0] == y_open);
    assert(x_open == y_open);
    assert(nodes_tokens(x.children) =~= written.subrange(1, written.len() - 1));
    assert(nodes_tokens(y.children) =~= written.subrange(1, written.len() - 1));
}

/// Two runs of tokens that end alike and are alike as a whole begin alike.
proof fn lemma_same_end(a: Seq<TokenView>, b: Seq<TokenView>, end: Seq<TokenView>)
    requires
        a + end == b + end,
    ensures
        a == b,
{
    assert(a =~= (a + end).take(a.len() as int));
    assert(b =~= (b + end).take(b.len() as int));
}

/// Where two runs of nodes are written as the same tokens, their last
/// nodes are written as the same tokens, and so is what comes before.
proof fn lemma_last_node_tokens(xs: Seq<NodeView>, ys: Seq<NodeView>)
    requires
        xs.len() > 0,
        ys.len() > 0,
        nodes_tokens(xs) == nodes_tokens(ys),
    ensures
        node_tokens(xs.last()) == node_tokens(ys.last()),
        nodes_tokens(xs.drop_last()) == nodes_tokens(ys.drop_last()),
{
    let tokens = nodes_tokens(xs);
    let x_before = nodes_tokens(xs.drop_last());
    let x_last = node_tokens(xs.last());
    let y_before = nodes_tokens(ys.drop_last());
    let y_last = node_tokens(ys.last());
    lemma_node_balanced(xs.last());
    lemma_node_balanced(ys.last());
    assert(tokens == x_before + x_last);
    assert(tokens == y_before + y_last);
    assert(tokens.last() == x_last.last());
    assert(tokens.last() == y_last.last());
    match (xs.last(), ys.last()) {
        (NodeView::Text(_), NodeView::Text(_)) => {
            assert(x_last =~= y_last);
        },
        (NodeView::Element(x), NodeView::Element(y)) => {
            if x_last.len() <= y_last.len() {
                let k = y_last.len() - x_last.len();
                assert(y_last.skip(k) =~= x_last) by {
                    assert(tokens.skip(tokens.len() - x_last.len()) =~= x_last);
                    assert(tokens.skip(tokens.len() - y_last.len()) =~= y_last);
                }
                assert(y_last.take(k) + x_last =~= y_last);
                lemma_no_proper_suffix(y_last.take(k), x, y);
                assert(x_last =~= y_last);
            } else {
                let k = x_last.len() - y_last.len();
                assert(x_last.skip(k) =~= y_last) by {
                    assert(tokens.skip(tokens.len() - x_last.len()) =~= x_last);
                    assert(tokens.skip(tokens.len() - y_last.len()) =~= y_last);
                }
                assert(x_last.take(k) + y_last =~= x_last);
                lemma_no_proper_suffix(x_last.take(k), y, x);
            }
        },
        (NodeView::Text(_), NodeView::Element(y)) => {
            lemma_element_balanced(y);
        },
        (NodeView::Element(x), NodeView::Text(_)) => {
            lemma_element_balanced(x);
        },
    }
    lemma_same_end(x_before, y_before, x_last);
}

/// Two runs of nodes that are written as the same tokens are the same run.
pub proof fn lemma_nodes_tokens_injective(xs: Seq<NodeView>, ys: Seq<NodeView>)
    requires
        nodes_tokens(xs) == nodes_tokens(ys),
    ensures
        xs == ys,
    decreases nodes_tokens(xs).len(),
{
    if xs.len() == 0 || ys.len() == 0 {
        if xs.len() > 0 {
            lemma_node_balanced(xs.last());
        }
        if ys.len() > 0 {
            lemma_node_balanced(ys.last());
        }
        assert(xs =~= ys);
    } else {
        lemma_last_node_tokens(xs, ys);
        lemma_node_balanced(xs.last());
        match (xs.last(), ys.last()) {
            (NodeView::Element(x), NodeView::Element(y)) => {
                lemma_element_tokens_parts(x, y);
                lemma_element_balanced(x);
                lemma_nodes_tokens_injective(x.children, y.children);
            },
            (NodeView::Text(_), NodeView::Text(_)) => {
                assert(node_tokens(xs.last())[0] == node_tokens(ys.last())[0]);
            },
            (NodeView::Text(_), NodeView::Element(y)) => {
                lemma_element_balanced(y);
            },
            (NodeView::Element(x), NodeView::Text(_)) => {
                lemma_element_balanced(x);
            },
        }
        assert(xs.last() == ys.last());
        lemma_nodes_tokens_injective(xs.drop_last(), ys.drop_last());
        assert(xs =~= xs.drop_last().push(xs.last()));
        assert(ys =~= ys.drop_last().push(ys.last()));
    }
}

/// A run of tokens spells at most one document.
pub proof fn lemma_spelling_unique(tokens: Seq<TokenView>, a: ElementView, b: ElementView)
    requires
        spells(tokens, a),
        spells(tokens, b),
    ensures
        a == b,
{
    lemma_element_tokens_parts(a, b);
    lemma_nodes_tokens_injective(a.children, b.children);
}

/// No document begins with a closing tag or with text.
proof fn lemma_bad_start(tokens: Seq<TokenView>, at: int)
    requires
        0 <= at < tokens.len(),
        significant(tokens.take(at)).len() == 0,
        tokens[at] is Close || tokens[at] is Text,
    ensures
        !well_formed(tokens),
{
    let head = tokens.take(at + 1);
    assert(head.drop_last() =~= tokens.take(at));
    assert(head + tokens.skip(at + 1) =~= tokens);
    lemma_significant_add(head, tokens.skip(at + 1));
    assert(significant(tokens)[0] == tokens[at]);
    assert forall|document: ElementView| !spells(tokens, document) by {
        lemma_element_balanced(document);
    }
}

/// Nothing of the tree follows the closing tag of the outermost element.
proof fn lemma_after_root(tokens: Seq<TokenView>, at: int, root: ElementView)
    requires
        0 <= at < tokens.len(),
        significant(tokens.take(at)) == element_tokens(root),
        !(tokens[at] is Other),
    ensures
        !well_formed(tokens),
{
    let head = tokens.take(at + 1);
    let whole = significant(tokens);
    let first = element_tokens(root);
    assert(head.drop_last() =~= tokens.take(at));
    assert(head + tokens.skip(at + 1) =~= tokens);
    lemma_significant_add(head, tokens.skip(at + 1));
    lemma_element_balanced(root);
    assert(whole.take(first.len() as int) =~= first);
    assert forall|document: ElementView| !spells(tokens, document) by {
        lemma_element_balanced(document);
    }
}

/// No document ends while an element is open, and none is empty.
proof fn lemma_unclosed(tokens: Seq<TokenView>, open: Seq<ElementView>)
    requires
        significant(tokens) == pending_tokens(open),
    ensures
        !well_formed(tokens),
{
    lemma_pending_depth(open);
    assert forall|document: ElementView| !spells(tokens, document) by {
        lemma_element_balanced(document);
    }
}

/// The failure reported for tokens that are not those of one document.
fn not_a_document() -> (error: CLIError)
    ensures
        error@ == CLIErrorView::InvalidCBL(NOT_A_DOCUMENT@),
{
    CLIError::InvalidCBL(String::from_str(NOT_A_DOCUMENT))
}

/// Adds a node to the innermost open element, if an element is open.
fn append_child(open: &mut Vec<Element>, node: Node) -> (done: bool)
    ensures
        done == (old(open)@.len() > 0),
        final(open)@.len() == old(open)@.len(),
        done ==> pending_tokens(final(open).deep_view()) == pending_tokens(
            old(open).deep_view(),
        ) + node_tokens(node@),
        !done ==> final(open)@ == old(open)@,
{
    let ghost before = open.deep_view();
    match open.pop() {
        Some(mut innermost) => {
            let ghost outer = open.deep_view();
            let ghost old_innermost = innermost@;
            innermost.children.push(node);
            proof {
                assert(outer =~= before.drop_last());
                assert(old_innermost == before.last());
                assert(innermost@.children =~= old_innermost.children.push(node@));
                assert(innermost@.children.drop_last() =~= old_innermost.children);
                assert(opened_tokens(innermost@) =~= opened_tokens(old_innermost) + node_tokens(
                    node@,
                ));
            }
            open.push(innermost);
            proof {
                let after = open.deep_view();
                assert(after.drop_last() =~= outer);
                assert(after.last() == innermost@);
                assert(pending_tokens(after) =~= pending_tokens(before) + node_tokens(node@));
            }
            true
        },
        None => false,
    }
}

/// Builds the document that a run of tokens spells.
///
/// Succeeds exactly when the tokens, apart from those that are no part of
/// the tree, are one element with matching tags.
#[verifier::loop_isolation(false)]
pub fn build_document(tokens: Vec<Token>) -> (outcome: Result<Element, CLIError>)
    ensures
        fulfils(outcome, document_read(Ok(tokens.deep_view()))),
        outcome matches Ok(document) ==> spells(tokens.deep_view(), document@),
        outcome is Err ==> !well_formed(tokens.deep_view()),
{
    let ghost all = tokens@;
    let ghost views = tokens.deep_view();
    let mut open: Vec<Element> = Vec::new();
    let mut root: Option<Element> = None;
    assert(views.take(0) =~= Seq::<TokenView>::empty());
    assert(open.deep_view() =~= Seq::<ElementView>::empty());
    for token in it: tokens
        invariant
            it.seq() == all,
            views.len() == all.len(),
            forall|i: int| 0 <= i < all.len() ==> views[i] == (#[trigger] all[i]).deep_view(),
            match root {
                None => pending_tokens(open.deep_view()) == significant(
                    views.take(it.index() as int),
                ),
                Some(document) => open@.len() == 0 && element_tokens(document@) == significant(
                    views.take(it.index() as int),
                ),
            },
    {
        let ghost at = it.index() as int;
        let ghost seen = significant(views.take(at));
        let ghost current = views[at];
        let ghost was_open = open.deep_view();
        proof {
            assert(current == token.deep_view());
            assert(views.take(at + 1).drop_last() =~= views.take(at));
            assert(views.take(at + 1).last() == current);
        }
        match token {
            Token::Other => {},
            Token::Open { name, attributes } => {
                if root.is_some() {
                    proof {
                        lemma_after_root(views, at, root->Some_0@);
                    }
                    return Err(not_a_document());
                }
                let element = Element { name, attributes, children: Vec::new() };
                proof {
                    assert(element@.children =~= Seq::<NodeView>::empty());
                    assert(opened_tokens(element@) =~= seq![current]);
                }
                open.push(element);
                proof {
                    let now_open = open.deep_view();
                    assert(now_open.drop_last() =~= was_open);
                    assert(now_open.last() == element@);
                    assert(pending_tokens(now_open) =~= seen.push(current));
                }
            },
            Token::Text(text) => {
                let node = Node::Text(text);
                if !append_child(&mut open, node) {
                    proof {
                        match root {
                            Some(document) => {
                                lemma_after_root(views, at, document@);
                            },
                            None => {
                                assert(was_open =~= Seq::<ElementView>::empty());
                                lemma_bad_start(views, at);
                            },
                        }
                    }
                    return Err(not_a_document());
                }
                proof {
                    assert(pending_tokens(open.deep_view()) =~= seen.push(current));
                }
            },
            Token::Close => {
                match open.pop() {
                    None => {
                        proof {
                            match root {
                                Some(document) => {
                                    lemma_after_root(views, at, document@);
                                },
                                None => {
                                    assert(was_open =~= Seq::<ElementView>::empty());
                                    lemma_bad_start(views, at);
                                },
                            }
                        }
                        return Err(not_a_document());
                    },
                    Some(closed) => {
                        let ghost outer = open.deep_view();
                        proof {
                            assert(outer =~= was_open.drop_last());
                            assert(closed@ == was_open.last());
                        }
                        if open.len() == 0 {
                            proof {
                                assert(was_open.drop_last() =~= Seq::<ElementView>::empty());
                                assert(pending_tokens(was_open.drop_last()) =~= Seq::<
                                    TokenView,
                                >::empty());
                                assert(pending_tokens(was_open) =~= opened_tokens(closed@));
                            }
                            root = Some(closed);
                        } else {
                            let ghost closed_view = closed@;
                            let appended = append_child(&mut open, Node::Element(closed));
                            proof {
                                assert(appended);
                                assert(pending_tokens(open.deep_view()) =~= pending_tokens(outer)
                                    + element_tokens(closed_view));
                                assert(pending_tokens(open.deep_view()) =~= seen.push(current));
                            }
                        }
                    },
                }
            },
        }
    }
    proof {
        assert(views.take(all.len() as int) =~= views);
    }
    match root {
        Some(document) => {
            proof {
                lemma_spelling_unique(views, document@, document_of(views)->Some_0);
            }
            Ok(document)
        },
        None => {
            proof {
                lemma_unclosed(views, open.deep_view());
            }
            Err(not_a_document())
        },
    }
}

/// What reading a byte string as XML gives: its tokens in document order,
/// or the reader's complaint.
pub uninterp spec fn xml_tokens(data: Seq<u8>) -> Result<Seq<TokenView>, Seq<char>>;

/// Reads a byte string as XML.
///
/// Calls `xml::reader::EventReader::new_with_config` on the bytes and walks
/// the reader's `Events` to their end, which comes with the end of the
/// document or with the first error. The reader is set to trim text, to
/// hand over whitespace and CDATA as text, to join adjacent text and to
/// leave comments out. An element's start becomes `Open` with its local
/// name and attributes, its end `Close`, text `Text`, all else `Other`.
/// What is claimed without proof: the outcome depends on the bytes alone,
/// so that it can be given the name `xml_tokens`. Nothing is claimed about
/// what it is for given bytes.
#[verifier::external_body]
fn read_tokens(data: &[u8]) -> (outcome: Result<Vec<Token>, String>)
    ensures
        read_view(outcome) == xml_tokens(data@),
{
    let config = ParserConfig::new().trim_whitespace(true).whitespace_to_characters(true)
        .cdata_to_characters(true).ignore_comments(true).coalesce_characters(true);
    let mut tokens = Vec::new();
    for event in EventReader::new_with_config(data, config) {
        tokens.push(match event.map_err(|error| error.to_string())? {
            XmlEvent::StartElement { name, attributes, .. } => Token::Open {
                name: name.local_name,
                attributes: attributes.into_iter().map(|a| Attribute { name: a.name.local_name, value: a.value }).collect(),
            },
            XmlEvent::EndElement { .. } => Token::Close,
            XmlEvent::Characters(text) => Token::Text(text),
            _ => Token::Other,
        });
    }
    Ok(tokens)
}

/// Turns the outcome of reading into a document.
///
/// Hands on the reader's complaint as it is, and otherwise builds the
/// document that the tokens spell.
pub fn document_from(read: Result<Vec<Token>, String>) -> (outcome: Result<Element, CLIError>)
    ensures
        fulfils(outcome, document_read(read_view(read))),
{
    match read {
        Ok(tokens) => build_document(tokens),
        Err(complaint) => Err(CLIError::InvalidCBL(complaint)),
    }
}

/// Reads a byte string as one XML document.
///
/// Fails with the reader's complaint where the bytes are not XML.
pub fn read_document(data: &[u8]) -> (outcome: Result<Element, CLIError>)
    ensures
        fulfils(outcome, document_read(xml_tokens(data@))),
        xml_tokens(data@) matches Err(complaint) ==> outcome matches Err(error) && error@
            == CLIErrorView::InvalidCBL(complaint),
{
    document_from(read_tokens(data))
}

} // verus!
