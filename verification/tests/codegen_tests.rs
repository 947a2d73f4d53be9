use kaffe::parser::generate_html;
use kaffe::parser::parse_markdown;
use kaffe::parser::ASTNode;
use kaffe::parser::ImportType;

fn compile(doc: &str) -> (String, Vec<String>, Vec<String>) {
    let nodes = parse_markdown(doc).unwrap();
    generate_html(&nodes)
}

#[test]
fn default_import_artifacts() {
    let (html, imports, components) = compile("import Foo from \"./Foo\";");
    assert_eq!(html, "");
    assert_eq!(imports, vec![String::from("import Foo from './Foo';")]);
    assert_eq!(components, vec![String::from("Foo")]);
}

#[test]
fn named_import_artifacts() {
    let (_, imports, components) = compile("import { A, B } from \"./x\";");
    assert_eq!(imports, vec![String::from("import { A, B } from './x';")]);
    assert_eq!(components, vec![String::from("A"), String::from("B")]);
}

#[test]
fn component_tags_are_deduplicated() {
    let (html, imports, components) = compile("<Foo />\n\n<Foo />\n");
    assert_eq!(components, vec![String::from("Foo")]);
    assert_eq!(imports, Vec::<String>::new());
    assert_eq!(html, "<Foo></Foo>\n<Foo></Foo>\n");
}

#[test]
fn import_bindings_are_not_deduplicated() {
    let doc = "import X from \"./a\";\nimport X from \"./a\";";
    let (_, imports, components) = compile(doc);
    assert_eq!(imports.len(), 2);
    assert_eq!(components, vec![String::from("X"), String::from("X")]);
}

#[test]
fn component_tag_already_imported_is_not_appended_again() {
    let doc = "import Foo from \"./Foo\";\n<Foo />\n";
    let (html, _, components) = compile(doc);
    assert_eq!(components, vec![String::from("Foo")]);
    assert_eq!(html, "<Foo></Foo>\n");
}

#[test]
fn fenced_block_rendering() {
    let (html, _, _) = compile("```js\ncode\n```");
    assert_eq!(html, "<pre><code class=\"language-js\">code</code></pre>\n");
}

#[test]
fn fenced_block_body_is_trimmed_of_blank_lines() {
    let (html, _, _) = compile("```js\n\ncode\n\n```");
    assert_eq!(html, "<pre><code class=\"language-js\">code</code></pre>\n");
}

#[test]
fn unordered_list_rendering() {
    let (html, _, _) = compile("- a\n- b\n- c");
    assert_eq!(html, "<ul>\n  <li>a</li>\n  <li>b</li>\n  <li>c</li>\n</ul>\n");
}

#[test]
fn heading_sequence_rendering() {
    let (html, imports, components) = compile("# Hello\n\n## World\n\n");
    assert_eq!(html, "<h1>Hello</h1>\n<h2>World</h2>\n");
    assert!(imports.is_empty());
    assert!(components.is_empty());
}

#[test]
fn heading_level_above_nine_renders_in_decimal() {
    let nodes = vec![ASTNode::Heading(12, String::from("deep"))];
    let (html, _, _) = generate_html(&nodes);
    assert_eq!(html, "<h12>deep</h12>\n");
}

#[test]
fn paragraph_and_text_rendering() {
    let (html, _, _) = compile("first block\n\nsecond line\n# end\n");
    assert_eq!(html, "<p>first block</p>\nsecond line\n<h1>end</h1>\n");
}

#[test]
fn link_and_image_rendering() {
    let nodes = vec![
        ASTNode::Link(String::from("text"), String::from("url")),
        ASTNode::Image(String::from("alt"), String::from("pic")),
    ];
    let (html, _, _) = generate_html(&nodes);
    assert_eq!(html, "<a href=\"url\">text</a><img src=\"pic\" alt=\"alt\">");
}

#[test]
fn inline_rendering() {
    let nodes = vec![
        ASTNode::Strong(String::from("b")),
        ASTNode::Emphasis(String::from("i")),
        ASTNode::Code(String::from("c")),
        ASTNode::BlockQuote(String::from("q")),
    ];
    let (html, _, _) = generate_html(&nodes);
    assert_eq!(
        html,
        "<strong>b</strong><em>i</em><code>c</code><blockquote>q</blockquote>\n"
    );
}

#[test]
fn whitespace_nodes_render_nothing() {
    let nodes = vec![ASTNode::Whitespace(String::from("  \n"))];
    let (html, imports, components) = generate_html(&nodes);
    assert_eq!(html, "");
    assert!(imports.is_empty());
    assert!(components.is_empty());
}

#[test]
fn no_html_escaping_is_performed() {
    let nodes = vec![ASTNode::Paragraph(String::from("<script>alert(1)</script>"))];
    let (html, _, _) = generate_html(&nodes);
    assert_eq!(html, "<p><script>alert(1)</script></p>\n");
}

#[test]
fn named_import_binding_pieces_are_trimmed() {
    let nodes = vec![ASTNode::Import(ImportType::Named(
        String::from("A ,  B,C"),
        String::from("./m"),
    ))];
    let (_, imports, components) = generate_html(&nodes);
    assert_eq!(imports, vec![String::from("import { A ,  B,C } from './m';")]);
    assert_eq!(
        components,
        vec![String::from("A"), String::from("B"), String::from("C")]
    );
}
