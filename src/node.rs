//! The element tree (tags, attributes, children) and its HTML rendering.

use vstd::prelude::*;
use vstd::string::StringExecFns;

verus! {

broadcast use vstd::string::group_string_axioms, vstd::std_specs::vec::group_vec_axioms, vstd::seq::group_seq_axioms;

/// The element kinds a node can have.
#[derive(Clone, Copy, PartialEq, Eq, Structural, Debug)]
pub enum Tag {
    Div,
    H1,
    H2,
    H3,
    H4,
    Hr,
    Ol,
    Ul,
    Li,
    P,
    Code,
}

/// A child of an element: literal text or a nested element.
pub enum Content {
    InnerText(String),
    InnerContent(Node),
}

/// The ordered class names of an element.
pub struct ClassList(pub Vec<String>);

/// An element with its tag, its id (empty when absent), its class names and its children.
pub struct Node {
    pub content: Vec<Content>,
    pub tag_name: Tag,
    pub class_list: ClassList,
    pub id: String,
}

/// An ordered sequence of top-level elements.
pub struct NodeList(pub Vec<Node>);

/// Mathematical model of a child.
pub enum ContentView {
    Text(Seq<char>),
    Element(NodeView),
}

/// Mathematical model of an element.
pub struct NodeView {
    pub tag: Tag,
    pub id: Seq<char>,
    pub classes: Seq<Seq<char>>,
    pub children: Seq<ContentView>,
}

/// The class names of a list, as text.
pub open spec fn class_names(cl: ClassList) -> Seq<Seq<char>> {
    cl.0@.map_values(|s: String| s@)
}

/// The model of an element.
pub open spec fn node_view(n: Node) -> NodeView
    decreases n,
{
    NodeView {
        tag: n.tag_name,
        id: n.id@,
        classes: class_names(n.class_list),
        children: contents_view(n.content@),
    }
}

/// The models of a sequence of children, in order.
pub open spec fn contents_view(cs: Seq<Content>) -> Seq<ContentView>
    decreases cs,
{
    if cs.len() == 0 {
        Seq::empty()
    } else {
        contents_view(cs.subrange(0, cs.len() - 1)).push(content_view(cs[cs.len() - 1]))
    }
}

/// The model of a child.
pub open spec fn content_view(c: Content) -> ContentView
    decreases c,
{
    match c {
        Content::InnerText(s) => ContentView::Text(s@),
        Content::InnerContent(n) => ContentView::Element(node_view(n)),
    }
}

/// The models of children correspond one to one with the children.
pub proof fn lemma_contents_view(cs: Seq<Content>)
    ensures
        contents_view(cs).len() == cs.len(),
        forall|i: int| 0 <= i < cs.len() ==> #[trigger] contents_view(cs)[i] == content_view(cs[i]),
    decreases cs.len(),
{
    if cs.len() > 0 {
        lemma_contents_view(cs.subrange(0, cs.len() - 1));
    }
}

impl View for Node {
    type V = NodeView;

    open spec fn view(&self) -> NodeView {
        node_view(*self)
    }
}

impl View for Content {
    type V = ContentView;

    open spec fn view(&self) -> ContentView {
        content_view(*self)
    }
}

impl View for ClassList {
    type V = Seq<Seq<char>>;

    open spec fn view(&self) -> Seq<Seq<char>> {
        class_names(*self)
    }
}

impl View for NodeList {
    type V = Seq<NodeView>;

    open spec fn view(&self) -> Seq<NodeView> {
        self.0@.map_values(|n: Node| node_view(n))
    }
}

/// The lowercase keyword of a tag.
pub open spec fn tag_text(t: Tag) -> Seq<char> {
    match t {
        Tag::Div => "div"@,
        Tag::H1 => "h1"@,
        Tag::H2 => "h2"@,
        Tag::H3 => "h3"@,
        Tag::H4 => "h4"@,
        Tag::Hr => "hr"@,
        Tag::Ol => "ol"@,
        Tag::Ul => "ul"@,
        Tag::Li => "li"@,
        Tag::P => "p"@,
        Tag::Code => "code"@,
    }
}

/// The items of `items` joined by `sep`, in order.
pub open spec fn join(items: Seq<Seq<char>>, sep: Seq<char>) -> Seq<char>
    decreases items.len(),
{
    if items.len() == 0 {
        Seq::empty()
    } else if items.len() == 1 {
        items[0]
    } else {
        join(items.drop_last(), sep) + sep + items.last()
    }
}

/// ` label="value"`, or nothing when the value is empty.
pub open spec fn attr_text(label: Seq<char>, value: Seq<char>) -> Seq<char> {
    if value.len() == 0 {
        Seq::empty()
    } else {
        " "@ + label + "=\""@ + value + "\""@
    }
}

/// The attribute part of an opening tag: the id first, then the classes.
pub open spec fn attrs_text(id: Seq<char>, classes: Seq<Seq<char>>) -> Seq<char> {
    attr_text("id"@, id) + attr_text("class"@, join(classes, " "@))
}

/// The HTML text of an element.
pub open spec fn node_html(n: NodeView) -> Seq<char>
    decreases n,
{
    "<"@ + tag_text(n.tag) + attrs_text(n.id, n.classes) + ">"@ + children_html(n.children)
        + "</"@ + tag_text(n.tag) + ">"@
}

/// The HTML text of a sequence of children: their texts concatenated.
pub open spec fn children_html(cs: Seq<ContentView>) -> Seq<char>
    decreases cs,
{
    if cs.len() == 0 {
        Seq::empty()
    } else {
        children_html(cs.subrange(0, cs.len() - 1)) + content_html(cs[cs.len() - 1])
    }
}

/// The HTML text of a child: text verbatim, an element rendered recursively.
pub open spec fn content_html(c: ContentView) -> Seq<char>
    decreases c,
{
    match c {
        ContentView::Text(s) => s,
        ContentView::Element(n) => node_html(n),
    }
}

/// The HTML text of a document: its elements rendered and joined by newlines.
pub open spec fn document_html(nodes: Seq<NodeView>) -> Seq<char> {
    join(nodes.map_values(|n: NodeView| node_html(n)), "\n"@)
}

impl Tag {
    /// The lowercase keyword of this tag.
    pub fn render(&self) -> (r: String)
        ensures
            r@ == tag_text(*self),
    {
        match self {
            Tag::Div => String::from_str("div"),
            Tag::H1 => String::from_str("h1"),
            Tag::H2 => String::from_str("h2"),
            Tag::H3 => String::from_str("h3"),
            Tag::H4 => String::from_str("h4"),
            Tag::Hr => String::from_str("hr"),
            Tag::Ol => String::from_str("ol"),
            Tag::Ul => String::from_str("ul"),
            Tag::Li => String::from_str("li"),
            Tag::P => String::from_str("p"),
            Tag::Code => String::from_str("code"),
        }
    }
}

/// Appends the items of `items` to `out`, separated by `sep`.
fn append_joined(out: &mut String, items: &Vec<String>, sep: &str)
    ensures
        final(out)@ == old(out)@ + join(items@.map_values(|s: String| s@), sep@),
{
    let ghost start = out@;
    let ghost views = items@.map_values(|s: String| s@);
    let mut i: usize = 0;
    while i < items.len()
        invariant
            i <= items.len(),
            views == items@.map_values(|s: String| s@),
            out@ == start + join(views.subrange(0, i as int), sep@),
        decreases items.len() - i,
    {
        if i > 0 {
            out.append(sep);
        }
        out.append(items[i].as_str());
        proof {
            let prev = views.subrange(0, i as int);
            let next = views.subrange(0, i + 1);
            assert(next.drop_last() =~= prev);
        }
        i = i + 1;
    }
    assert(views.subrange(0, i as int) =~= views);
}

/// ` label="value"`, or an empty string when `attr_value` is empty.
fn optional_attr(attr_label: &str, attr_value: &str) -> (r: String)
    ensures
        r@ == attr_text(attr_label@, attr_value@),
{
    let mut r = String::new();
    if attr_value.is_empty() {
        return r;
    }
    r.append(" ");
    r.append(attr_label);
    r.append("=\"");
    r.append(attr_value);
    r.append("\"");
    r
}

impl ClassList {
    /// The class names joined by single spaces.
    pub fn render(&self) -> (r: String)
        ensures
            r@ == join(self@, " "@),
    {
        let mut r = String::new();
        append_joined(&mut r, &self.0, " ");
        r
    }
}

impl Content {
    /// The HTML text of this child.
    pub fn render(&self) -> (r: String)
        ensures
            r@ == content_html(self@),
        decreases self,
    {
        match self {
            Content::InnerText(text) => text.clone(),
            Content::InnerContent(node) => node.render(),
        }
    }
}

impl Node {
    /// The HTML text of this element: `<tag attrs>children</tag>`.
    pub fn render(&self) -> (r: String)
        ensures
            r@ == node_html(self@),
        decreases self,
    {
        let tag = self.tag_name.render();
        let class_text = self.class_list.render();
        let mut r = String::new();
        r.append("<");
        r.append(tag.as_str());
        let id_attr = optional_attr("id", self.id.as_str());
        r.append(id_attr.as_str());
        let class_attr = optional_attr("class", class_text.as_str());
        r.append(class_attr.as_str());
        r.append(">");
        let ghost head = r@;
        let ghost children = self@.children;
        proof {
            lemma_contents_view(self.content@);
        }
        let mut i: usize = 0;
        while i < self.content.len()
            invariant
                i <= self.content.len(),
                children == contents_view(self.content@),
                children.len() == self.content@.len(),
                r@ == head + children_html(children.subrange(0, i as int)),
            decreases self.content.len() - i,
        {
            proof {
                assert(decreases_to!(self.content => self.content[i as int]));
            }
            let child = self.content[i].render();
            proof {
                lemma_contents_view(self.content@);
            }
            assert(child@ == content_html(children[i as int]));
            r.append(child.as_str());
            proof {
                assert(children.subrange(0, i + 1).subrange(0, i as int) =~= children.subrange(0, i as int));
            }
            i = i + 1;
        }
        assert(children.subrange(0, i as int) =~= children);
        r.append("</");
        r.append(tag.as_str());
        r.append(">");
        r
    }
}

/// Rendering has no hidden state: two documents with the same elements render
/// to the same text, so rendering one document twice gives identical text.
pub proof fn lemma_render_repeatable(a: NodeList, b: NodeList)
    requires
        a@ == b@,
    ensures
        document_html(a@) == document_html(b@),
{
}

impl NodeList {
    /// The HTML text of the document: each element rendered, joined by newlines.
    pub fn render(&self) -> (r: String)
        ensures
            r@ == document_html(self@),
    {
        let ghost htmls = self@.map_values(|n: NodeView| node_html(n));
        let mut r = String::new();
        let mut i: usize = 0;
        while i < self.0.len()
            invariant
                i <= self.0.len(),
                htmls == self@.map_values(|n: NodeView| node_html(n)),
                htmls.len() == self.0@.len(),
                r@ == join(htmls.subrange(0, i as int), "\n"@),
            decreases self.0.len() - i,
        {
            if i > 0 {
                r.append("\n");
            }
            let text = self.0[i].render();
            r.append(text.as_str());
            proof {
                assert(htmls.subrange(0, i + 1).drop_last() =~= htmls.subrange(0, i as int));
            }
            i = i + 1;
        }
        assert(htmls.subrange(0, i as int) =~= htmls);
        r
    }
}

} // verus!
