use markdown_html::chars::is_white_space;
use markdown_html::markdown_parser::{split_by_newline, Indent, MarkDownLineType, MarkdownLine};

fn md_test_file_1() -> String {
    "# My Header\n\n## My Other Header\n\n- item1\n- item2".to_string()
}

#[test]
fn t_split_by_newline() {
    let split_by_line_md = "1\n\n  22  \n\t\n333\n".to_string();
    assert_eq!(split_by_newline(split_by_line_md), vec!["1", "22", "333"]);
}

#[test]
fn get_indent() {
    let line = "hello".to_string();
    let indent = MarkdownLine::get_indent(line);
    assert_eq!(indent, Indent::Level(0));
    let line = "  hello".to_string();
    let indent = MarkdownLine::get_indent(line);
    assert_eq!(indent, Indent::Level(0));
    let line = "   hello".to_string();
    let indent = MarkdownLine::get_indent(line);
    assert_eq!(indent, Indent::Level(0));
    let line = "".to_string();
    let indent = MarkdownLine::get_indent(line);
    assert_eq!(indent, Indent::Blank);
}

#[test]
fn get_tag() {
    let cases = [
        ("hello", MarkDownLineType::NoTag),
        (" hello", MarkDownLineType::NoTag),
        ("#hello", MarkDownLineType::NoTag),
        ("# hello", MarkDownLineType::H1),
        ("## hello", MarkDownLineType::H2),
        ("#### hello", MarkDownLineType::H4),
        ("##### hello", MarkDownLineType::NoTag),
        ("- ", MarkDownLineType::NoTag),
        ("- bullet", MarkDownLineType::Li),
        ("-- bullet", MarkDownLineType::NoTag),
        ("--- bullet", MarkDownLineType::NoTag),
        ("- my bullet", MarkDownLineType::Li),
    ];
    for (line, expected) in cases {
        let tag = MarkdownLine::get_tag(line.to_string(), Indent::Level(0));
        assert_eq!(tag, expected, "{:?}", line);
    }
}

#[test]
fn get_content() {
    let line = "# header".to_string();
    let line_type = MarkDownLineType::H1;
    let content = MarkdownLine::get_content(line, &line_type, Indent::Level(0));
    assert_eq!(content, "header");

    let line = "## header".to_string();
    let line_type = MarkDownLineType::H2;
    let content = MarkdownLine::get_content(line, &line_type, Indent::Level(0));
    assert_eq!(content, "header");
}

#[test]
fn parse() {
    let md_line = MarkdownLine::parse("hey this is a line".to_string());
    assert_eq!(md_line.content, "hey this is a line".to_string());
    assert_eq!(md_line.indent, Indent::Level(0));
    assert_eq!(md_line.line_type, MarkDownLineType::NoTag);

    let md_line = MarkdownLine::parse("#hey this is a line".to_string());
    assert_eq!(md_line.content, "#hey this is a line".to_string());
    assert_eq!(md_line.indent, Indent::Level(0));
    assert_eq!(md_line.line_type, MarkDownLineType::NoTag);

    let md_line = MarkdownLine::parse("# hey this is a line".to_string());
    assert_eq!(md_line.content, "hey this is a line".to_string());
    assert_eq!(md_line.indent, Indent::Level(0));
    assert_eq!(md_line.line_type, MarkDownLineType::H1);

    let md_line = MarkdownLine::parse("## hey this is a line".to_string());
    assert_eq!(md_line.content, "hey this is a line".to_string());
    assert_eq!(md_line.indent, Indent::Level(0));
    assert_eq!(md_line.line_type, MarkDownLineType::H2);

    let md_line = MarkdownLine::parse("".to_string());
    assert_eq!(md_line.content, "".to_string());
    assert_eq!(md_line.indent, Indent::Blank);
    assert_eq!(md_line.line_type, MarkDownLineType::EmptyLine);

    let md_line = MarkdownLine::parse("- mybullet".to_string());
    assert_eq!(md_line.content, "mybullet".to_string());
    assert_eq!(md_line.indent, Indent::Level(0));
    assert_eq!(md_line.line_type, MarkDownLineType::Li);
}

#[test]
fn get_md_lines() {
    let md_lines = MarkdownLine::get_md_lines(md_test_file_1());
    assert_eq!(md_lines.len(), 6);

    let expected = [
        ("My Header", MarkDownLineType::H1),
        ("", MarkDownLineType::EmptyLine),
        ("My Other Header", MarkDownLineType::H2),
        ("", MarkDownLineType::EmptyLine),
        ("item1", MarkDownLineType::Li),
        ("item2", MarkDownLineType::Li),
    ];
    for (md_line, (content, kind)) in md_lines.iter().zip(expected) {
        assert_eq!(md_line.content, content);
        assert_eq!(md_line.line_type, kind);
    }
}

#[test]
fn test_markdown_parser() {
    let val = MarkdownLine::parse_markdown_to_html(md_test_file_1());
    let expected = "<div class=\"md-h1-container\"><h1 class=\"md-h1\">My Header</h1><hr class=\"md-hr\"></hr></div>\n\
<div class=\"md-empty-line\"></div>\n\
<h2 class=\"md-h2\">My Other Header</h2>\n\
<div class=\"md-empty-line\"></div>\n\
<li class=\"md-li\">item1</li>\n\
<li class=\"md-li\">item2</li>";
    assert_eq!(val, expected)
}

#[test]
fn blank_lines_have_no_indent() {
    assert_eq!(MarkdownLine::get_indent("".to_string()), Indent::Blank);
    assert_eq!(MarkdownLine::get_indent("   ".to_string()), Indent::Blank);
    assert_eq!(MarkdownLine::get_indent(" \t \u{3000}".to_string()), Indent::Blank);
}

#[test]
fn indent_counts_four_characters_per_level() {
    assert_eq!(MarkdownLine::get_indent("hello".to_string()), Indent::Level(0));
    assert_eq!(MarkdownLine::get_indent("    hello".to_string()), Indent::Level(1));
    assert_eq!(MarkdownLine::get_indent("   hello".to_string()), Indent::Level(0));
    assert_eq!(MarkdownLine::get_indent("        x".to_string()), Indent::Level(2));
    assert_eq!(MarkdownLine::get_indent("\t\t\t\tx".to_string()), Indent::Level(1));
}

#[test]
fn indent_counts_characters_not_bytes() {
    assert_eq!(
        MarkdownLine::get_indent("\u{3000}\u{3000}\u{3000}\u{3000}x".to_string()),
        Indent::Level(1)
    );
    assert_eq!(MarkdownLine::get_indent("\u{A0}\u{A0}\u{A0}x".to_string()), Indent::Level(0));
}

fn expect_line(line: &str, kind: MarkDownLineType, content: &str) {
    let md_line = MarkdownLine::parse(line.to_string());
    assert_eq!(md_line.line_type, kind, "{:?}", line);
    assert_eq!(md_line.content, content, "{:?}", line);
}

#[test]
fn headings_by_level() {
    expect_line("# x", MarkDownLineType::H1, "x");
    expect_line("## x", MarkDownLineType::H2, "x");
    expect_line("### x", MarkDownLineType::H3, "x");
    expect_line("#### x", MarkDownLineType::H4, "x");
    expect_line("##### x", MarkDownLineType::NoTag, "##### x");
}

#[test]
fn list_items() {
    expect_line("- x", MarkDownLineType::Li, "x");
    expect_line("-- x", MarkDownLineType::NoTag, "-- x");
    expect_line("- ", MarkDownLineType::NoTag, "- ");
    expect_line("-x", MarkDownLineType::NoTag, "-x");
}

#[test]
fn empty_line_is_blank() {
    let md_line = MarkdownLine::parse("".to_string());
    assert_eq!(md_line.line_type, MarkDownLineType::EmptyLine);
    assert_eq!(md_line.content, "");
    assert_eq!(md_line.indent, Indent::Blank);
    expect_line(" \t ", MarkDownLineType::EmptyLine, "");
}

#[test]
fn malformed_markers_fall_back_to_paragraph() {
    expect_line("#", MarkDownLineType::NoTag, "#");
    expect_line("# ", MarkDownLineType::NoTag, "# ");
    expect_line("#   ", MarkDownLineType::NoTag, "#   ");
    expect_line("#\tx", MarkDownLineType::NoTag, "#\tx");
    expect_line("#-x", MarkDownLineType::NoTag, "#-x");
    expect_line("just text", MarkDownLineType::NoTag, "just text");
}

#[test]
fn indented_lines_are_paragraphs() {
    expect_line("    # x", MarkDownLineType::NoTag, "    # x");
    expect_line("    - x", MarkDownLineType::NoTag, "    - x");
    let md_line = MarkdownLine::parse("    - x".to_string());
    assert_eq!(md_line.indent, Indent::Level(1));
}

#[test]
fn marker_after_short_indent_and_trailing_text() {
    expect_line(" # x", MarkDownLineType::H1, "x");
    expect_line("   - item", MarkDownLineType::Li, "item");
    expect_line("# x  ", MarkDownLineType::H1, "x  ");
    expect_line("#  x", MarkDownLineType::H1, " x");
}

#[test]
fn content_keeps_multibyte_characters() {
    expect_line("# héllo wörld", MarkDownLineType::H1, "héllo wörld");
    expect_line("- ünïcode ✓", MarkDownLineType::Li, "ünïcode ✓");
    expect_line("ünïcode", MarkDownLineType::NoTag, "ünïcode");
}

#[test]
fn header_tag_by_marker_length() {
    assert_eq!(MarkdownLine::get_header_tag(1), MarkDownLineType::NoTag);
    assert_eq!(MarkdownLine::get_header_tag(2), MarkDownLineType::H1);
    assert_eq!(MarkdownLine::get_header_tag(3), MarkDownLineType::H2);
    assert_eq!(MarkdownLine::get_header_tag(4), MarkDownLineType::H3);
    assert_eq!(MarkdownLine::get_header_tag(5), MarkDownLineType::H4);
    assert_eq!(MarkdownLine::get_header_tag(6), MarkDownLineType::NoTag);
}

#[test]
fn classification_ignores_other_lines() {
    let alone = MarkdownLine::parse("## title".to_string());
    let lines = MarkdownLine::get_md_lines("- a\n\n## title\n# b".to_string());
    assert_eq!(lines[2].line_type, alone.line_type);
    assert_eq!(lines[2].content, alone.content);
    assert_eq!(lines[2].indent, alone.indent);
    let again = MarkdownLine::parse("## title".to_string());
    assert_eq!(again.content, alone.content);
    assert_eq!(again.line_type, alone.line_type);
}

#[test]
fn single_unclassified_line() {
    assert_eq!(
        MarkdownLine::parse_markdown_to_html("just text".to_string()),
        "<p class=\"md-p\">just text</p>"
    );
}

#[test]
fn every_line_is_kept() {
    let lines = MarkdownLine::get_md_lines("a\n\n".to_string());
    assert_eq!(lines.len(), 3);
    assert_eq!(MarkdownLine::get_md_lines("".to_string()).len(), 1);
    assert_eq!(
        MarkdownLine::parse_markdown_to_html("".to_string()),
        "<div class=\"md-empty-line\"></div>"
    );
}

#[test]
fn builder_table() {
    let html = MarkdownLine::parse_markdown_to_html("### c\n#### d\n   \nx".to_string());
    assert_eq!(
        html,
        "<h3 class=\"md-h3\">c</h3>\n<h4 class=\"md-h4\">d</h4>\n<div class=\"md-empty-line\"></div>\n<p class=\"md-p\">x</p>"
    );
    let nodes = MarkdownLine::create_node_list("- a\n- b".to_string());
    assert_eq!(nodes.0.len(), 2);
    assert_eq!(nodes.render(), "<li class=\"md-li\">a</li>\n<li class=\"md-li\">b</li>");
}

#[test]
fn assign_node_for_heading() {
    let md_line = MarkdownLine::parse("# Top".to_string());
    let node = MarkdownLine::assign_node(md_line);
    assert_eq!(
        node.render(),
        "<div class=\"md-h1-container\"><h1 class=\"md-h1\">Top</h1><hr class=\"md-hr\"></hr></div>"
    );
}

#[test]
fn whitespace_predicate_matches_std() {
    for code in 0u32..=0x10FFFF {
        if let Some(c) = char::from_u32(code) {
            assert_eq!(is_white_space(c), c.is_whitespace(), "U+{:04X}", code);
        }
    }
}

#[test]
fn split_by_newline_drops_blank_lines() {
    assert_eq!(split_by_newline("".to_string()), Vec::<String>::new());
    assert_eq!(split_by_newline(" a b \n".to_string()), vec!["a b"]);
}

#[test]
fn get_tag_at_given_indent() {
    assert_eq!(MarkdownLine::get_tag("hello".to_string(), Indent::Level(2)), MarkDownLineType::NoTag);
    assert_eq!(MarkdownLine::get_tag("# x".to_string(), Indent::Level(1)), MarkDownLineType::NoTag);
    assert_eq!(MarkdownLine::get_tag("# x".to_string(), Indent::Blank), MarkDownLineType::EmptyLine);
    assert_eq!(MarkdownLine::get_tag("    # x".to_string(), Indent::Level(0)), MarkDownLineType::H1);
    assert_eq!(MarkdownLine::get_tag("\t- x".to_string(), Indent::Level(0)), MarkDownLineType::Li);
    assert_eq!(MarkdownLine::get_tag("   ".to_string(), Indent::Level(0)), MarkDownLineType::NoTag);
    assert_eq!(MarkdownLine::get_tag("| x".to_string(), Indent::Level(0)), MarkDownLineType::NoTag);
    assert_eq!(MarkdownLine::get_tag("^ x".to_string(), Indent::Level(0)), MarkDownLineType::NoTag);
}

#[test]
fn get_content_for_given_kind() {
    let content = MarkdownLine::get_content("# x".to_string(), &MarkDownLineType::NoTag, Indent::Level(0));
    assert_eq!(content, "# x");
    let content = MarkdownLine::get_content("#hello".to_string(), &MarkDownLineType::NoTag, Indent::Level(3));
    assert_eq!(content, "#hello");
    let content = MarkdownLine::get_content("\t# x".to_string(), &MarkDownLineType::H1, Indent::Level(0));
    assert_eq!(content, "x");
    let content = MarkdownLine::get_content("      ### ü".to_string(), &MarkDownLineType::H3, Indent::Level(0));
    assert_eq!(content, "ü");
    let content = MarkdownLine::get_content("anything".to_string(), &MarkDownLineType::EmptyLine, Indent::Blank);
    assert_eq!(content, "");
}
