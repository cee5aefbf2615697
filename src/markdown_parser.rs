//! Classification of single Markdown lines, and the document built from them.

use vstd::prelude::*;
use vstd::string::StringExecFns;
use crate::chars::{char_vec, is_white, is_white_space, string_of, vec_of};
use crate::node::{ClassList, Content, Node, NodeList, NodeView, ContentView, Tag, document_html, join, lemma_contents_view};

verus! {

broadcast use vstd::string::group_string_axioms, vstd::std_specs::vec::group_vec_axioms, vstd::seq::group_seq_axioms;

/// The kind of a classified line.
#[derive(Clone, Copy, PartialEq, Eq, Structural, Debug)]
pub enum MarkDownLineType {
    H1,
    H2,
    H3,
    H4,
    Li,
    NoTag,
    EmptyLine,
}

/// The indentation of a line: a level of four whitespace characters each, or
/// `Blank` for a line with no text at all.
#[derive(Clone, Copy, PartialEq, Eq, Structural, Debug)]
pub enum Indent {
    Level(usize),
    Blank,
}

/// A classified line: its indentation, its kind and its text without the marker.
#[derive(Debug)]
pub struct MarkdownLine {
    pub indent: Indent,
    pub line_type: MarkDownLineType,
    pub content: String,
}

/// Mathematical model of a classified line.
pub struct LineView {
    pub indent: Indent,
    pub kind: MarkDownLineType,
    pub content: Seq<char>,
}

impl View for MarkdownLine {
    type V = LineView;

    open spec fn view(&self) -> LineView {
        LineView { indent: self.indent, kind: self.line_type, content: self.content@ }
    }
}

/// The first index at or after `i` whose character is not whitespace, or the length.
pub open spec fn skip_white(s: Seq<char>, i: int) -> int
    decreases s.len() - i,
{
    if 0 <= i < s.len() && is_white(s[i]) {
        skip_white(s, i + 1)
    } else {
        i
    }
}

/// The end of `s[..j]` once the whitespace at its end is dropped.
pub open spec fn skip_white_back(s: Seq<char>, j: int) -> int
    decreases j,
{
    if 0 < j <= s.len() && is_white(s[j - 1]) {
        skip_white_back(s, j - 1)
    } else {
        j
    }
}

/// The first index at or after `i` whose character is not `#`, or the length.
pub open spec fn skip_hashes(s: Seq<char>, i: int) -> int
    decreases s.len() - i,
{
    if 0 <= i < s.len() && s[i] == '#' {
        skip_hashes(s, i + 1)
    } else {
        i
    }
}

/// The position of the first character that is not whitespace (the length if none).
pub open spec fn text_start(s: Seq<char>) -> int {
    skip_white(s, 0)
}

/// The indentation of a line: the position of its first non-whitespace
/// character divided by four, or `Blank` when there is none.
pub open spec fn indent_of(s: Seq<char>) -> Indent {
    if text_start(s) >= s.len() {
        Indent::Blank
    } else {
        Indent::Level((text_start(s) / 4) as usize)
    }
}

/// The line without its leading and trailing whitespace (empty when the
/// line is all whitespace).
pub open spec fn trimmed(s: Seq<char>) -> Seq<char> {
    if text_start(s) >= s.len() {
        Seq::empty()
    } else {
        s.subrange(text_start(s), skip_white_back(s, s.len() as int))
    }
}

/// The heading kind for a marker of `len` characters (`#` marks and one space).
pub open spec fn header_kind(len: int) -> MarkDownLineType {
    if len == 2 {
        MarkDownLineType::H1
    } else if len == 3 {
        MarkDownLineType::H2
    } else if len == 4 {
        MarkDownLineType::H3
    } else if len == 5 {
        MarkDownLineType::H4
    } else {
        MarkDownLineType::NoTag
    }
}

/// The kind of a trimmed, unindented line, from its leading marker.
pub open spec fn marker_kind(t: Seq<char>) -> MarkDownLineType {
    let k = skip_hashes(t, 0);
    if 1 <= k <= 4 {
        if k + 1 < t.len() && t[k] == ' ' {
            header_kind(k + 1)
        } else {
            MarkDownLineType::NoTag
        }
    } else if k == 0 && t.len() > 2 && t[0] == '-' && t[1] == ' ' {
        MarkDownLineType::Li
    } else {
        MarkDownLineType::NoTag
    }
}

/// The kind of a line taken at the indentation `indent`: blank, a paragraph
/// when indented, otherwise the kind its leading marker gives.
pub open spec fn tag_at(s: Seq<char>, indent: Indent) -> MarkDownLineType {
    match indent {
        Indent::Blank => MarkDownLineType::EmptyLine,
        Indent::Level(n) => if n > 0 {
            MarkDownLineType::NoTag
        } else {
            marker_kind(trimmed(s))
        },
    }
}

/// The kind of a line, at its own indentation.
pub open spec fn line_kind(s: Seq<char>) -> MarkDownLineType {
    tag_at(s, indent_of(s))
}

/// Whether a kind is recognised by a leading marker (a heading or a list item).
pub open spec fn is_marker_kind(kind: MarkDownLineType) -> bool {
    kind != MarkDownLineType::NoTag && kind != MarkDownLineType::EmptyLine
}

/// The number of characters of the marker that a kind strips.
pub open spec fn marker_len(kind: MarkDownLineType) -> int {
    match kind {
        MarkDownLineType::H1 => 2,
        MarkDownLineType::H2 => 3,
        MarkDownLineType::H3 => 4,
        MarkDownLineType::H4 => 5,
        MarkDownLineType::Li => 2,
        _ => 0,
    }
}

/// The content of a line of the given kind: empty for a blank line, the line
/// itself for a paragraph, otherwise the text after the leading whitespace
/// and the marker.
pub open spec fn content_as(s: Seq<char>, kind: MarkDownLineType) -> Seq<char> {
    match kind {
        MarkDownLineType::EmptyLine => Seq::empty(),
        MarkDownLineType::NoTag => s,
        _ => s.subrange(text_start(s) + marker_len(kind), s.len() as int),
    }
}

/// The content of a line, for the kind it has.
pub open spec fn line_content(s: Seq<char>) -> Seq<char> {
    content_as(s, line_kind(s))
}

/// A line classified.
pub open spec fn classify(s: Seq<char>) -> LineView {
    LineView { indent: indent_of(s), kind: line_kind(s), content: line_content(s) }
}

proof fn lemma_skip_white_bounds(s: Seq<char>, i: int)
    requires
        0 <= i <= s.len(),
    ensures
        i <= skip_white(s, i) <= s.len(),
        skip_white(s, i) < s.len() ==> !is_white(s[skip_white(s, i)]),
    decreases s.len() - i,
{
    if i < s.len() && is_white(s[i]) {
        lemma_skip_white_bounds(s, i + 1);
    }
}

proof fn lemma_skip_white_back_bounds(s: Seq<char>, j: int, p: int)
    requires
        0 <= p < j <= s.len(),
        !is_white(s[p]),
    ensures
        p < skip_white_back(s, j) <= j,
    decreases j,
{
    if is_white(s[j - 1]) {
        lemma_skip_white_back_bounds(s, j - 1, p);
    }
}

proof fn lemma_skip_hashes_bounds(s: Seq<char>, i: int)
    requires
        0 <= i <= s.len(),
    ensures
        i <= skip_hashes(s, i) <= s.len(),
    decreases s.len() - i,
{
    if i < s.len() && s[i] == '#' {
        lemma_skip_hashes_bounds(s, i + 1);
    }
}

/// The position of the first non-whitespace character of `cs`, or its length.
fn first_text(cs: &Vec<char>) -> (r: usize)
    ensures
        r == text_start(cs@),
        r <= cs@.len(),
{
    let mut i: usize = 0;
    while i < cs.len() && is_white_space(cs[i])
        invariant
            i <= cs@.len(),
            skip_white(cs@, i as int) == text_start(cs@),
        decreases cs.len() - i,
    {
        i = i + 1;
    }
    i
}

/// The end of `cs` once trailing whitespace is dropped.
fn last_text_end(cs: &Vec<char>) -> (r: usize)
    ensures
        r == skip_white_back(cs@, cs@.len() as int),
{
    let mut j: usize = cs.len();
    while j > 0 && is_white_space(cs[j - 1])
        invariant
            j <= cs@.len(),
            skip_white_back(cs@, j as int) == skip_white_back(cs@, cs@.len() as int),
        decreases j,
    {
        j = j - 1;
    }
    j
}

/// The indentation of the line `cs`.
fn indent_of_chars(cs: &Vec<char>) -> (r: Indent)
    ensures
        r == indent_of(cs@),
{
    let p = first_text(cs);
    if p >= cs.len() {
        Indent::Blank
    } else {
        Indent::Level(p / 4)
    }
}

/// The kind of a trimmed, unindented line.
fn marker_kind_of(t: &Vec<char>) -> (r: MarkDownLineType)
    ensures
        r == marker_kind(t@),
{
    let mut k: usize = 0;
    while k < t.len() && t[k] == '#'
        invariant
            k <= t@.len(),
            skip_hashes(t@, k as int) == skip_hashes(t@, 0),
        decreases t.len() - k,
    {
        k = k + 1;
    }
    if 1 <= k && k <= 4 {
        if k + 1 < t.len() && t[k] == ' ' {
            MarkdownLine::get_header_tag(k + 1)
        } else {
            MarkDownLineType::NoTag
        }
    } else if k == 0 && t.len() > 2 && t[0] == '-' && t[1] == ' ' {
        MarkDownLineType::Li
    } else {
        MarkDownLineType::NoTag
    }
}

/// The kind of the line `cs` taken at the indentation `indent`.
fn kind_of_chars(cs: &Vec<char>, indent: Indent) -> (r: MarkDownLineType)
    ensures
        r == tag_at(cs@, indent),
{
    match indent {
        Indent::Blank => MarkDownLineType::EmptyLine,
        Indent::Level(n) => {
            if n > 0 {
                MarkDownLineType::NoTag
            } else {
                let p = first_text(cs);
                if p >= cs.len() {
                    let t: Vec<char> = Vec::new();
                    assert(t@ =~= trimmed(cs@));
                    return marker_kind_of(&t);
                }
                let q = last_text_end(cs);
                proof {
                    lemma_skip_white_bounds(cs@, 0);
                    lemma_skip_white_back_bounds(cs@, cs@.len() as int, p as int);
                }
                let t = vec_of(cs, p, q);
                marker_kind_of(&t)
            }
        },
    }
}

/// The content of the line `cs` as a line of kind `line_type` at the
/// indentation `indent`.
fn content_of_chars(cs: &Vec<char>, line_type: MarkDownLineType, indent: Indent) -> (r: String)
    requires
        is_marker_kind(line_type) ==> tag_at(cs@, indent) == line_type,
    ensures
        r@ == content_as(cs@, line_type),
{
    match line_type {
        MarkDownLineType::EmptyLine => String::new(),
        MarkDownLineType::NoTag => string_of(cs, 0, cs.len()),
        _ => {
            let p = first_text(cs);
            let ghost t = trimmed(cs@);
            proof {
                lemma_skip_white_bounds(cs@, 0);
                if p >= cs.len() {
                    assert(t =~= Seq::<char>::empty());
                    assert(skip_hashes(t, 0) == 0);
                }
                lemma_skip_white_back_bounds(cs@, cs@.len() as int, p as int);
                lemma_skip_hashes_bounds(t, 0);
            }
            let skip: usize = match line_type {
                MarkDownLineType::H1 => 2,
                MarkDownLineType::H2 => 3,
                MarkDownLineType::H3 => 4,
                MarkDownLineType::H4 => 5,
                _ => 2,
            };
            assert(skip == marker_len(line_type));
            assert(p + skip < t.len() + p);
            string_of(cs, p + skip, cs.len())
        },
    }
}

/// The lines of `s`, split at each newline character. Every line is kept,
/// empty ones included, so that there is one more line than there are newlines.
pub open spec fn split_lines(s: Seq<char>) -> Seq<Seq<char>>
    decreases s.len(),
{
    if s.len() == 0 {
        seq![Seq::empty()]
    } else {
        let prev = split_lines(s.drop_last());
        if s.last() == '\n' {
            prev.push(Seq::empty())
        } else {
            prev.update(prev.len() - 1, prev.last().push(s.last()))
        }
    }
}

/// Splitting drops nothing: there is at least one line, and joining the lines
/// with newlines gives the text back.
pub proof fn lemma_split_lines_rejoin(s: Seq<char>)
    ensures
        split_lines(s).len() >= 1,
        join(split_lines(s), "\n"@) == s,
    decreases s.len(),
{
    if s.len() > 0 {
        reveal_strlit("\n");
        let prev = split_lines(s.drop_last());
        lemma_split_lines_rejoin(s.drop_last());
        let lines = split_lines(s);
        if s.last() == '\n' {
            assert(lines.drop_last() =~= prev);
            assert(join(lines, "\n"@) == join(prev, "\n"@) + "\n"@ + Seq::<char>::empty());
            assert(join(lines, "\n"@) =~= s);
        } else if prev.len() == 1 {
            assert(join(lines, "\n"@) =~= s);
        } else {
            assert(lines.drop_last() =~= prev.drop_last());
            assert(join(lines, "\n"@) == join(prev.drop_last(), "\n"@) + "\n"@ + prev.last().push(
                s.last(),
            ));
            assert(join(prev, "\n"@) == join(prev.drop_last(), "\n"@) + "\n"@ + prev.last());
            assert(join(prev.drop_last(), "\n"@) + "\n"@ + prev.last().push(s.last()) =~= (join(
                prev.drop_last(),
                "\n"@,
            ) + "\n"@ + prev.last()).push(s.last()));
            assert(s.drop_last().push(s.last()) =~= s);
        }
    }
}

/// The lines of `cs`, as `split_lines` gives them.
fn split_chars(cs: &Vec<char>) -> (r: Vec<Vec<char>>)
    ensures
        r@.map_values(|l: Vec<char>| l@) == split_lines(cs@),
{
    let mut done: Vec<Vec<char>> = Vec::new();
    let mut current: Vec<char> = Vec::new();
    let mut i: usize = 0;
    while i < cs.len()
        invariant
            i <= cs@.len(),
            split_lines(cs@.subrange(0, i as int)) == done@.map_values(|l: Vec<char>| l@).push(
                current@,
            ),
        decreases cs.len() - i,
    {
        let ghost before = done@.map_values(|l: Vec<char>| l@);
        let ghost prefix = cs@.subrange(0, i + 1);
        assert(prefix.drop_last() =~= cs@.subrange(0, i as int));
        if cs[i] == '\n' {
            done.push(current);
            current = Vec::new();
            assert(done@.map_values(|l: Vec<char>| l@) =~= before.push(
                done@[done@.len() - 1]@,
            ));
            assert(split_lines(prefix) =~= done@.map_values(|l: Vec<char>| l@).push(current@));
        } else {
            current.push(cs[i]);
            assert(split_lines(prefix) =~= before.push(current@));
        }
        i = i + 1;
    }
    assert(cs@.subrange(0, i as int) =~= cs@);
    done.push(current);
    assert(done@.map_values(|l: Vec<char>| l@) =~= split_lines(cs@));
    done
}

/// A line is classified on its own text alone: wherever two documents hold the
/// same line, at any positions, that line is classified the same way in both.
pub proof fn lemma_classify_per_line(x: Seq<char>, y: Seq<char>, i: int, j: int)
    requires
        0 <= i < split_lines(x).len(),
        0 <= j < split_lines(y).len(),
        split_lines(x)[i] == split_lines(y)[j],
    ensures
        split_lines(x).map_values(|l: Seq<char>| classify(l))[i] == split_lines(y).map_values(
            |l: Seq<char>| classify(l),
        )[j],
{
}

/// Whether a line holds any character that is not whitespace.
pub open spec fn has_text(l: Seq<char>) -> bool {
    text_start(l) < l.len()
}

/// The lines of `input` that hold some text, each without its leading and
/// trailing whitespace.
pub fn split_by_newline(input: String) -> (r: Vec<String>)
    ensures
        r@.map_values(|s: String| s@) == split_lines(input@).filter(|l: Seq<char>| has_text(l)).map_values(
            |l: Seq<char>| trimmed(l),
        ),
{
    let cs = char_vec(input.as_str());
    let parts = split_chars(&cs);
    let ghost views = parts@.map_values(|l: Vec<char>| l@);
    let ghost pred = |l: Seq<char>| has_text(l);
    let mut r: Vec<String> = Vec::new();
    let mut i: usize = 0;
    while i < parts.len()
        invariant
            i <= parts@.len(),
            views == parts@.map_values(|l: Vec<char>| l@),
            views == split_lines(input@),
            pred == (|l: Seq<char>| has_text(l)),
            r@.map_values(|s: String| s@) == views.subrange(0, i as int).filter(pred).map_values(
                |l: Seq<char>| trimmed(l),
            ),
        decreases parts.len() - i,
    {
        let ghost before = r@;
        let ghost line = views[i as int];
        assert(line == parts@[i as int]@);
        proof {
            reveal(Seq::filter);
            assert(views.subrange(0, i + 1).drop_last() =~= views.subrange(0, i as int));
        }
        let p = first_text(&parts[i]);
        if p < parts[i].len() {
            let q = last_text_end(&parts[i]);
            proof {
                lemma_skip_white_bounds(line, 0);
                lemma_skip_white_back_bounds(line, line.len() as int, p as int);
            }
            let t = string_of(&parts[i], p, q);
            r.push(t);
            assert(r@.map_values(|s: String| s@) =~= before.map_values(|s: String| s@).push(
                trimmed(line),
            ));
        }
        i = i + 1;
    }
    assert(views.subrange(0, i as int) =~= views);
    r
}

/// An element with one class and one text child.
pub open spec fn text_node(tag: Tag, class: Seq<char>, text: Seq<char>) -> NodeView {
    NodeView { tag, id: Seq::empty(), classes: seq![class], children: seq![ContentView::Text(text)] }
}

/// The element that a line of the given kind and content becomes.
pub open spec fn line_node(kind: MarkDownLineType, content: Seq<char>) -> NodeView {
    match kind {
        MarkDownLineType::H1 => NodeView {
            tag: Tag::Div,
            id: Seq::empty(),
            classes: seq!["md-h1-container"@],
            children: seq![
                ContentView::Element(text_node(Tag::H1, "md-h1"@, content)),
                ContentView::Element(text_node(Tag::Hr, "md-hr"@, Seq::empty())),
            ],
        },
        MarkDownLineType::H2 => text_node(Tag::H2, "md-h2"@, content),
        MarkDownLineType::H3 => text_node(Tag::H3, "md-h3"@, content),
        MarkDownLineType::H4 => text_node(Tag::H4, "md-h4"@, content),
        MarkDownLineType::Li => text_node(Tag::Li, "md-li"@, content),
        MarkDownLineType::NoTag => text_node(Tag::P, "md-p"@, content),
        MarkDownLineType::EmptyLine => text_node(Tag::Div, "md-empty-line"@, Seq::empty()),
    }
}

/// The document that a text becomes: one element per line, in order.
pub open spec fn document(text: Seq<char>) -> Seq<NodeView> {
    split_lines(text).map_values(|l: Seq<char>| line_node(line_kind(l), line_content(l)))
}

/// An element with one class and one text child.
fn text_element(tag: Tag, class: &str, text: String) -> (r: Node)
    ensures
        r@ == text_node(tag, class@, text@),
{
    let r = Node {
        class_list: ClassList(vec![String::from_str(class)]),
        content: vec![Content::InnerText(text)],
        id: String::new(),
        tag_name: tag,
    };
    assert(r@.classes =~= seq![class@]);
    assert(r@.children =~= seq![ContentView::Text(text@)]);
    r
}

/// The line `cs` classified.
fn classify_chars(cs: &Vec<char>) -> (r: MarkdownLine)
    ensures
        r@ == classify(cs@),
{
    let indent = indent_of_chars(cs);
    let line_type = kind_of_chars(cs, indent);
    let content = content_of_chars(cs, line_type, indent);
    MarkdownLine { indent, line_type, content }
}

impl MarkdownLine {
    /// The heading kind for a marker of `first_non_tag_char_pos` characters
    /// (`#` marks followed by one space): `H1` to `H4` for 2 to 5, else `NoTag`.
    pub fn get_header_tag(first_non_tag_char_pos: usize) -> (r: MarkDownLineType)
        ensures
            r == header_kind(first_non_tag_char_pos as int),
    {
        match first_non_tag_char_pos {
            2 => MarkDownLineType::H1,
            3 => MarkDownLineType::H2,
            4 => MarkDownLineType::H3,
            5 => MarkDownLineType::H4,
            _ => MarkDownLineType::NoTag,
        }
    }

    /// The indentation of `line`.
    pub fn get_indent(line: String) -> (r: Indent)
        ensures
            r == indent_of(line@),
    {
        let cs = char_vec(line.as_str());
        indent_of_chars(&cs)
    }

    /// The kind of `line` taken at the indentation `indent`: `EmptyLine`
    /// when blank, `NoTag` when indented, otherwise from its leading marker.
    pub fn get_tag(line: String, indent: Indent) -> (r: MarkDownLineType)
        ensures
            r == tag_at(line@, indent),
    {
        let cs = char_vec(line.as_str());
        kind_of_chars(&cs, indent)
    }

    /// The content of `line` as a line of kind `line_type`. A heading or a
    /// list item is only ever found by its marker at indentation 0, so such a
    /// kind must be the one `get_tag` gives for `line` at `indent`.
    pub fn get_content(line: String, line_type: &MarkDownLineType, indent: Indent) -> (r: String)
        requires
            is_marker_kind(*line_type) ==> tag_at(line@, indent) == *line_type,
        ensures
            r@ == content_as(line@, *line_type),
    {
        let cs = char_vec(line.as_str());
        content_of_chars(&cs, *line_type, indent)
    }

    /// The element for a classified line.
    pub fn assign_node(md_line: MarkdownLine) -> (r: Node)
        ensures
            r@ == line_node(md_line@.kind, md_line@.content),
    {
        match md_line.line_type {
            MarkDownLineType::H1 => {
                let heading = text_element(Tag::H1, "md-h1", md_line.content);
                let rule = text_element(Tag::Hr, "md-hr", String::new());
                let ghost children = seq![ContentView::Element(heading@), ContentView::Element(rule@)];
                let r = Node {
                    class_list: ClassList(vec![String::from_str("md-h1-container")]),
                    content: vec![Content::InnerContent(heading), Content::InnerContent(rule)],
                    id: String::new(),
                    tag_name: Tag::Div,
                };
                assert(r@.classes =~= seq!["md-h1-container"@]);
                proof {
                    lemma_contents_view(r.content@);
                }
                assert(r@.children =~= children);
                r
            },
            MarkDownLineType::H2 => text_element(Tag::H2, "md-h2", md_line.content),
            MarkDownLineType::H3 => text_element(Tag::H3, "md-h3", md_line.content),
            MarkDownLineType::H4 => text_element(Tag::H4, "md-h4", md_line.content),
            MarkDownLineType::Li => text_element(Tag::Li, "md-li", md_line.content),
            MarkDownLineType::NoTag => text_element(Tag::P, "md-p", md_line.content),
            MarkDownLineType::EmptyLine => text_element(Tag::Div, "md-empty-line", String::new()),
        }
    }

    /// Every line of `lines` classified, in order, one per line.
    pub fn get_md_lines(lines: String) -> (r: Vec<MarkdownLine>)
        ensures
            r@.map_values(|m: MarkdownLine| m@) == split_lines(lines@).map_values(
                |l: Seq<char>| classify(l),
            ),
    {
        let cs = char_vec(lines.as_str());
        let parts = split_chars(&cs);
        let ghost views = parts@.map_values(|l: Vec<char>| l@);
        let mut r: Vec<MarkdownLine> = Vec::new();
        let mut i: usize = 0;
        while i < parts.len()
            invariant
                i <= parts@.len(),
                views == parts@.map_values(|l: Vec<char>| l@),
                views == split_lines(lines@),
                r@.len() == i,
                r@.map_values(|m: MarkdownLine| m@) == views.subrange(0, i as int).map_values(
                    |l: Seq<char>| classify(l),
                ),
            decreases parts.len() - i,
        {
            let ghost before = r@.map_values(|m: MarkdownLine| m@);
            let md_line = classify_chars(&parts[i]);
            assert(views[i as int] == parts@[i as int]@);
            let ghost old_r = r@;
            r.push(md_line);
            assert forall|j: int| 0 <= j < i + 1 implies #[trigger] r@[j]@ == classify(views[j]) by {
                if j < i {
                    assert(old_r[j] == r@[j]);
                    assert(before[j] == old_r[j]@);
                }
            }
            assert(r@.map_values(|m: MarkdownLine| m@) =~= views.subrange(0, i + 1).map_values(
                |l: Seq<char>| classify(l),
            ));
            i = i + 1;
        }
        assert(views.subrange(0, i as int) =~= views);
        r
    }

    /// The document for `lines`: one element per line, in order.
    pub fn create_node_list(lines: String) -> (r: NodeList)
        ensures
            r@ == document(lines@),
    {
        let cs = char_vec(lines.as_str());
        let parts = split_chars(&cs);
        let ghost views = parts@.map_values(|l: Vec<char>| l@);
        let mut node_vec: Vec<Node> = Vec::new();
        let mut i: usize = 0;
        while i < parts.len()
            invariant
                i <= parts@.len(),
                views == parts@.map_values(|l: Vec<char>| l@),
                views == split_lines(lines@),
                node_vec@.len() == i,
                node_vec@.map_values(|n: Node| n@) == views.subrange(0, i as int).map_values(
                    |l: Seq<char>| line_node(line_kind(l), line_content(l)),
                ),
            decreases parts.len() - i,
        {
            let md_line = classify_chars(&parts[i]);
            assert(views[i as int] == parts@[i as int]@);
            let node = MarkdownLine::assign_node(md_line);
            let ghost before = node_vec@;
            node_vec.push(node);
            assert forall|j: int| 0 <= j < i + 1 implies #[trigger] node_vec@[j]@ == line_node(
                line_kind(views[j]),
                line_content(views[j]),
            ) by {
                if j < i {
                    assert(before[j] == node_vec@[j]);
                    assert(before.map_values(|n: Node| n@)[j] == before[j]@);
                }
            }
            assert(node_vec@.map_values(|n: Node| n@) =~= views.subrange(0, i + 1).map_values(
                |l: Seq<char>| line_node(line_kind(l), line_content(l)),
            ));
            i = i + 1;
        }
        assert(views.subrange(0, i as int) =~= views);
        let r = NodeList(node_vec);
        assert(r@ =~= document(lines@));
        r
    }

    /// The HTML text for `lines`: each line's element rendered, joined by newlines.
    pub fn parse_markdown_to_html(lines: String) -> (r: String)
        ensures
            r@ == document_html(document(lines@)),
    {
        MarkdownLine::create_node_list(lines).render()
    }

    /// Classifies one line: its indentation, its kind and its content.
    pub fn parse(line: String) -> (r: MarkdownLine)
        ensures
            r@ == classify(line@),
    {
        let cs = char_vec(line.as_str());
        classify_chars(&cs)
    }
}

} // verus!
