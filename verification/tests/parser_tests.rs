use kaffe::parser::parse_blockquote;
use kaffe::parser::parse_code;
use kaffe::parser::parse_code_block;
use kaffe::parser::parse_emphasis;
use kaffe::parser::parse_heading;
use kaffe::parser::parse_image;
use kaffe::parser::parse_import;
use kaffe::parser::parse_link;
use kaffe::parser::parse_list;
use kaffe::parser::parse_list_item;
use kaffe::parser::parse_markdown;
use kaffe::parser::parse_named_import;
use kaffe::parser::parse_default_import;
use kaffe::parser::parse_paragraph;
use kaffe::parser::parse_react_component;
use kaffe::parser::parse_strong;
use kaffe::parser::parse_text;
use kaffe::parser::ASTNode;
use kaffe::parser::ImportType;

#[test]
fn empty_document_parses_to_nothing() {
    let nodes = parse_markdown("").unwrap();
    assert!(nodes.is_empty());
}

#[test]
fn whitespace_only_document_parses_to_nothing() {
    let nodes = parse_markdown(" \t\n\n  \n").unwrap();
    assert!(nodes.is_empty());
}

#[test]
fn heading_line() {
    let (node, next) = parse_heading("## Title\nrest\n", 0).unwrap();
    assert_eq!(node, ASTNode::Heading(2, String::from("Title")));
    assert_eq!(next, 9);
}

#[test]
fn heading_content_is_trimmed() {
    let nodes = parse_markdown("#  x \n\n").unwrap();
    assert_eq!(nodes, vec![ASTNode::Heading(1, String::from("x"))]);
}

#[test]
fn heading_requires_one_space() {
    assert!(parse_heading("#Title\n", 0).is_none());
}

#[test]
fn heading_level_is_marker_run_length() {
    let nodes = parse_markdown("####### deep\n\n").unwrap();
    assert_eq!(nodes, vec![ASTNode::Heading(7, String::from("deep"))]);
}

#[test]
fn default_import_with_semicolon() {
    let (node, next) = parse_import("import Foo from \"./Foo\";", 0).unwrap();
    assert_eq!(
        node,
        ASTNode::Import(ImportType::Default(
            String::from("Foo"),
            String::from("./Foo")
        ))
    );
    assert_eq!(next, 24);
}

#[test]
fn named_import_with_spaces() {
    let (node, _) = parse_import("import { A, B } from \"./x\";", 0).unwrap();
    assert_eq!(
        node,
        ASTNode::Import(ImportType::Named(String::from("A, B"), String::from("./x")))
    );
}

#[test]
fn named_import_without_space_before_from() {
    let (node, _) = parse_import("import {A,B}from \"x\"", 0).unwrap();
    assert_eq!(
        node,
        ASTNode::Import(ImportType::Named(String::from("A,B"), String::from("x")))
    );
}

#[test]
fn import_requires_whitespace_after_keyword() {
    assert!(parse_import("importFoo from \"x\"", 0).is_none());
}

#[test]
fn link_at_top_level() {
    let (node, next) = parse_link("[text](url)", 0).unwrap();
    assert_eq!(
        node,
        ASTNode::Link(String::from("text"), String::from("url"))
    );
    assert_eq!(next, 11);
}

#[test]
fn link_needs_nonempty_text() {
    assert!(parse_link("[](url)", 0).is_none());
}

#[test]
fn link_url_may_be_empty() {
    let (node, _) = parse_link("[a]()", 0).unwrap();
    assert_eq!(node, ASTNode::Link(String::from("a"), String::from("")));
}

#[test]
fn image_reference() {
    let (node, _) = parse_image("![alt](pic.png)", 0).unwrap();
    assert_eq!(
        node,
        ASTNode::Image(String::from("alt"), String::from("pic.png"))
    );
}

#[test]
fn inline_code_kept_verbatim() {
    let (node, next) = parse_code("` x `", 0).unwrap();
    assert_eq!(node, ASTNode::Code(String::from(" x ")));
    assert_eq!(next, 5);
}

#[test]
fn emphasis_and_strong() {
    let (node, _) = parse_emphasis("*word*", 0).unwrap();
    assert_eq!(node, ASTNode::Emphasis(String::from("word")));
    let (node, next) = parse_strong("**bold**", 0).unwrap();
    assert_eq!(node, ASTNode::Strong(String::from("bold")));
    assert_eq!(next, 8);
}

#[test]
fn blockquote_line() {
    let (node, next) = parse_blockquote("> quoted\nx", 0).unwrap();
    assert_eq!(node, ASTNode::BlockQuote(String::from("quoted")));
    assert_eq!(next, 9);
}

#[test]
fn fenced_code_block_with_language() {
    let (node, next) = parse_code_block("```js\ncode\n```", 0).unwrap();
    assert_eq!(
        node,
        ASTNode::CodeBlock(String::from("code"), String::from("js"))
    );
    assert_eq!(next, 14);
}

#[test]
fn fenced_code_block_without_language() {
    let (node, _) = parse_code_block("```\nbody\n```\n", 0).unwrap();
    assert_eq!(node, ASTNode::CodeBlock(String::from("body"), String::from("")));
}

#[test]
fn unterminated_fence_is_a_parse_failure() {
    let err = parse_markdown("```js\ncode\n").unwrap_err();
    assert_eq!(err.position, 6);
    assert_eq!(err.remainder, "code\n");
}

#[test]
fn unterminated_fence_without_newline_is_a_parse_failure() {
    assert!(parse_markdown("```js\ncode").is_err());
}

#[test]
fn unterminated_fence_before_blank_line_is_a_parse_failure() {
    assert!(parse_markdown("```js\n\n").is_err());
}

#[test]
fn list_items_in_order() {
    let (node, next) = parse_list("- a\n- b\n- c", 0).unwrap();
    assert_eq!(
        node,
        ASTNode::List(vec![
            String::from("a"),
            String::from("b"),
            String::from("c")
        ])
    );
    assert_eq!(next, 11);
}

#[test]
fn list_accepts_star_markers_and_indentation() {
    let (node, _) = parse_list("* a\n  * b\n", 0).unwrap();
    assert_eq!(
        node,
        ASTNode::List(vec![String::from("a"), String::from("b")])
    );
}

#[test]
fn list_item_leaves_the_line_break() {
    let (item, next) = parse_list_item("- a\n- b", 0).unwrap();
    assert_eq!(item, "a");
    assert_eq!(next, 3);
}

#[test]
fn paragraph_up_to_blank_line() {
    let (node, next) = parse_paragraph("hello world\n\nbye\n", 0).unwrap();
    assert_eq!(node, ASTNode::Paragraph(String::from("hello world")));
    assert_eq!(next, 13);
}

#[test]
fn paragraph_needs_a_blank_line() {
    assert!(parse_paragraph("hello world\n", 0).is_none());
}

#[test]
fn paragraph_redispatches_a_complete_fence() {
    let (node, _) = parse_paragraph("```js\ncode\n```\n\nmore\n", 0).unwrap();
    assert_eq!(
        node,
        ASTNode::CodeBlock(String::from("code"), String::from("js"))
    );
}

#[test]
fn text_line_needs_following_content() {
    let (node, next) = parse_text("abc\nrest\n", 0).unwrap();
    assert_eq!(node, ASTNode::Text(String::from("abc")));
    assert_eq!(next, 4);
    assert!(parse_text("abc\n", 0).is_none());
}

#[test]
fn self_closing_component() {
    let (node, next) = parse_react_component("<Foo />", 0).unwrap();
    assert_eq!(node, ASTNode::ReactComponent(String::from("Foo")));
    assert_eq!(next, 7);
}

#[test]
fn component_with_children_discards_content() {
    let (node, next) = parse_react_component("<Card>anything <b>here</b></Card>", 0).unwrap();
    assert_eq!(node, ASTNode::ReactComponent(String::from("Card")));
    assert_eq!(next, 33);
}

#[test]
fn nested_same_name_component_stops_at_first_closing_tag() {
    let (node, next) = parse_react_component("<A>x<A>y</A>z</A>", 0).unwrap();
    assert_eq!(node, ASTNode::ReactComponent(String::from("A")));
    assert_eq!(next, 12);
}

#[test]
fn unmatched_closing_tag_is_a_parse_failure() {
    let err = parse_markdown("</Foo>\n").unwrap_err();
    assert_eq!(err.position, 0);
    assert_eq!(err.remainder, "</Foo>\n");
}

#[test]
fn mixed_document_in_source_order() {
    let doc = "# Title\n\nSome intro\n\n- one\n- two\n\n```rs\nlet x = 1;\n```\n";
    let nodes = parse_markdown(doc).unwrap();
    assert_eq!(
        nodes,
        vec![
            ASTNode::Heading(1, String::from("Title")),
            ASTNode::Paragraph(String::from("Some intro")),
            ASTNode::List(vec![String::from("one"), String::from("two")]),
            ASTNode::CodeBlock(String::from("let x = 1;"), String::from("rs")),
        ]
    );
}

#[test]
fn inline_markup_inside_a_paragraph_stays_literal() {
    let nodes = parse_markdown("some *emphatic* text\n\n# end\n").unwrap();
    assert_eq!(
        nodes[0],
        ASTNode::Paragraph(String::from("some *emphatic* text"))
    );
}

#[test]
fn carriage_return_line_endings_in_lists() {
    let (node, next) = parse_list("- a\r\n- b\r\n", 0).unwrap();
    assert_eq!(
        node,
        ASTNode::List(vec![String::from("a"), String::from("b")])
    );
    assert_eq!(next, 10);
}

#[test]
fn heading_content_sheds_a_carriage_return() {
    let (node, _) = parse_heading("# a\r\nnext\n", 0).unwrap();
    assert_eq!(node, ASTNode::Heading(1, String::from("a")));
}

#[test]
fn empty_inline_code() {
    let nodes = parse_markdown("``").unwrap();
    assert_eq!(nodes, vec![ASTNode::Code(String::from(""))]);
}

#[test]
fn named_import_with_empty_braces() {
    let (node, _) = parse_import("import {} from \"x\"", 0).unwrap();
    assert_eq!(
        node,
        ASTNode::Import(ImportType::Named(String::from(""), String::from("x")))
    );
}

#[test]
fn list_item_without_text_fails() {
    assert!(parse_list_item("- ", 0).is_none());
}

#[test]
fn empty_list_item_line_is_kept() {
    let (node, _) = parse_list("- \n- b\n", 0).unwrap();
    assert_eq!(
        node,
        ASTNode::List(vec![String::from(""), String::from("b")])
    );
}

#[test]
fn list_crosses_blank_lines() {
    let (node, _) = parse_list("- a\n\n- b\n", 0).unwrap();
    assert_eq!(
        node,
        ASTNode::List(vec![String::from("a"), String::from("b")])
    );
}

#[test]
fn fence_before_a_blank_line_reads_as_a_paragraph() {
    // With a blank line after it, an unterminated fence is swallowed by the
    // paragraph recognizer and the rest of the document still parses: the
    // whole-document rejection holds only while no recognizer can absorb
    // the fence line.
    let nodes = parse_markdown("```js\ncode\n\n- a\n- b").unwrap();
    assert_eq!(
        nodes,
        vec![
            ASTNode::Paragraph(String::from("```js\ncode")),
            ASTNode::List(vec![String::from("a"), String::from("b")]),
        ]
    );
}

#[test]
fn named_form_directly() {
    let (it, next) = parse_named_import("{ A } from \"m\"", 0).unwrap();
    assert_eq!(it, ImportType::Named(String::from("A"), String::from("m")));
    assert_eq!(next, 14);
}

#[test]
fn default_form_directly() {
    let (it, next) = parse_default_import("Foo from \"m\"", 0).unwrap();
    assert_eq!(it, ImportType::Default(String::from("Foo"), String::from("m")));
    assert_eq!(next, 12);
}

#[test]
fn marker_run_length_wraps_as_a_byte() {
    let mut doc = "#".repeat(256);
    doc.push_str(" x\nrest\n");
    let (node, _) = parse_heading(&doc, 0).unwrap();
    assert_eq!(node, ASTNode::Heading(0, String::from("x")));
}
