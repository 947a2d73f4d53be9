//! The document grammar: node types, the recognizers, the dispatcher, and
//! the code generator.

use vstd::prelude::*;

use crate::codegen::empty_out;
use crate::codegen::gen_node;
use crate::codegen::sp_gen_from;
use crate::codegen::sp_gen_step;
use crate::codegen::sp_generate;
use crate::codegen::GenOut;
use crate::grammar::sp_alt;
use crate::grammar::sp_blockquote;
use crate::grammar::sp_code;
use crate::grammar::sp_code_block;
use crate::grammar::sp_component;
use crate::grammar::sp_default_import;
use crate::grammar::sp_emphasis;
use crate::grammar::sp_heading;
use crate::grammar::sp_image;
use crate::grammar::sp_import;
use crate::grammar::sp_link;
use crate::grammar::sp_list;
use crate::grammar::sp_list_item;
use crate::grammar::sp_list_items;
use crate::grammar::sp_named_import;
use crate::grammar::sp_paragraph;
use crate::grammar::sp_paren;
use crate::grammar::sp_parse;
use crate::grammar::sp_parse_loop;
use crate::grammar::sp_quoted;
use crate::grammar::sp_strong;
use crate::grammar::sp_text;
use crate::text::char_at;
use crate::text::char_len;
use crate::text::copy_range;
use crate::text::copy_trimmed;
use crate::text::doc_end;
use crate::text::find_from;
use crate::text::hash_run_from;
use crate::text::alnum_run_from;
use crate::text::is_ws;
use crate::text::match_at;
use crate::text::matches_at;
use crate::text::nl_run_from;
use crate::text::skip_ws_from;
use crate::text::space_run_from;
use vstd::string::StringExecFns;

verus! {

/// A node of the parsed document tree, in source order.
#[derive(Debug, PartialEq, Eq)]
pub enum ASTNode {
    Import(ImportType),
    Link(String, String),
    Heading(u8, String),
    ReactComponent(String),
    Paragraph(String),
    Text(String),
    Strong(String),
    Emphasis(String),
    Code(String),
    CodeBlock(String, String),
    Image(String, String),
    List(Vec<String>),
    BlockQuote(String),
    Whitespace(String),
}

/// An import declaration: either a named form (`{ bindings }`) or a default
/// form (a single binding), each with a source path.
#[derive(Debug, PartialEq, Eq)]
pub enum ImportType {
    Named(String, String),
    Default(String, String),
}

/// The mathematical model of an import declaration.
pub enum Import {
    Named(Seq<char>, Seq<char>),
    Default(Seq<char>, Seq<char>),
}

/// The mathematical model of a document node: the same shape as [`ASTNode`],
/// with every text payload a sequence of characters.
pub enum Node {
    Import(Import),
    Link(Seq<char>, Seq<char>),
    Heading(u8, Seq<char>),
    ReactComponent(Seq<char>),
    Paragraph(Seq<char>),
    Text(Seq<char>),
    Strong(Seq<char>),
    Emphasis(Seq<char>),
    Code(Seq<char>),
    CodeBlock(Seq<char>, Seq<char>),
    Image(Seq<char>, Seq<char>),
    List(Seq<Seq<char>>),
    BlockQuote(Seq<char>),
    Whitespace(Seq<char>),
}

impl View for ImportType {
    type V = Import;

    open spec fn view(&self) -> Import {
        match self {
            ImportType::Named(c, p) => Import::Named(c@, p@),
            ImportType::Default(c, p) => Import::Default(c@, p@),
        }
    }
}

impl View for ASTNode {
    type V = Node;

    open spec fn view(&self) -> Node {
        match self {
            ASTNode::Import(i) => Node::Import(i@),
            ASTNode::Link(t, u) => Node::Link(t@, u@),
            ASTNode::Heading(l, t) => Node::Heading(*l, t@),
            ASTNode::ReactComponent(n) => Node::ReactComponent(n@),
            ASTNode::Paragraph(t) => Node::Paragraph(t@),
            ASTNode::Text(t) => Node::Text(t@),
            ASTNode::Strong(t) => Node::Strong(t@),
            ASTNode::Emphasis(t) => Node::Emphasis(t@),
            ASTNode::Code(t) => Node::Code(t@),
            ASTNode::CodeBlock(c, l) => Node::CodeBlock(c@, l@),
            ASTNode::Image(a, u) => Node::Image(a@, u@),
            ASTNode::List(items) => Node::List(items.deep_view()),
            ASTNode::BlockQuote(t) => Node::BlockQuote(t@),
            ASTNode::Whitespace(t) => Node::Whitespace(t@),
        }
    }
}

impl DeepView for ASTNode {
    type V = Node;

    open spec fn deep_view(&self) -> Node {
        self.view()
    }
}

/// A double-quoted path, with no escape handling.
fn parse_quoted(s: &str, pos: usize) -> (r: Option<(String, usize)>)
    requires
        pos <= s@.len(),
    ensures
        match r {
            Some((path, q)) => sp_quoted(s@, pos as int) == Some((path@, q as int)) && pos < q
                <= s@.len(),
            None => sp_quoted(s@, pos as int) is None,
        },
{
    proof {
        reveal_strlit("\"");
    }
    let n = char_len(s);
    if pos < n && char_at(s, pos) == '"' {
        match find_from(s, pos + 1, "\"") {
            Some(j) => {
                let path = copy_range(s, pos + 1, j);
                Some((path, j + 1))
            },
            None => None,
        }
    } else {
        None
    }
}

/// The named import form: the bindings between `{` and `}`, trimmed, and
/// the quoted source path.
pub fn parse_named_import(s: &str, pos: usize) -> (r: Option<(ImportType, usize)>)
    requires
        pos <= s@.len(),
    ensures
        match r {
            Some((it, q)) => sp_named_import(s@, pos as int) == Some((it@, q as int)) && pos < q
                <= s@.len(),
            None => sp_named_import(s@, pos as int) is None,
        },
{
    proof {
        reveal_strlit("}");
        reveal_strlit("from");
    }
    let n = char_len(s);
    if pos < n && char_at(s, pos) == '{' {
        match find_from(s, pos + 1, "}") {
            Some(j) => {
                let binding = copy_trimmed(s, pos + 1, j);
                let p = skip_ws_from(s, j + 1);
                if match_at(s, p, "from") {
                    let q = skip_ws_from(s, p + 4);
                    match parse_quoted(s, q) {
                        Some((path, e)) => Some((ImportType::Named(binding, path), e)),
                        None => None,
                    }
                } else {
                    None
                }
            },
            None => None,
        }
    } else {
        None
    }
}

/// The default import form: the binding up to the literal ` from`, trimmed,
/// and the quoted source path.
pub fn parse_default_import(s: &str, pos: usize) -> (r: Option<(ImportType, usize)>)
    requires
        pos <= s@.len(),
    ensures
        match r {
            Some((it, q)) => sp_default_import(s@, pos as int) == Some((it@, q as int)) && pos < q
                <= s@.len(),
            None => sp_default_import(s@, pos as int) is None,
        },
{
    proof {
        reveal_strlit(" from");
        assert(" from"@.len() == 5);
    }
    let n = char_len(s);
    match find_from(s, pos, " from") {
        Some(i) => {
            let binding = copy_trimmed(s, pos, i);
            let q = skip_ws_from(s, i + 5);
            match parse_quoted(s, q) {
                Some((path, e)) => Some((ImportType::Default(binding, path), e)),
                None => None,
            }
        },
        None => None,
    }
}

/// An import declaration; the named form is tried before the default form.
pub fn parse_import(s: &str, pos: usize) -> (r: Option<(ASTNode, usize)>)
    requires
        pos <= s@.len(),
    ensures
        match r {
            Some((node, q)) => sp_import(s@, pos as int) == Some((node@, q as int)) && pos < q
                <= s@.len(),
            None => sp_import(s@, pos as int) is None,
        },
{
    proof {
        reveal_strlit("import");
        assert("import"@.len() == 6);
    }
    let n = char_len(s);
    if match_at(s, pos, "import") {
        let p1 = pos + 6;
        if p1 < n && is_ws(char_at(s, p1)) {
            let p2 = skip_ws_from(s, p1);
            let form = match parse_named_import(s, p2) {
                Some(r) => Some(r),
                None => parse_default_import(s, p2),
            };
            match form {
                Some((it, p3)) => {
                    let e = if p3 < n && char_at(s, p3) == ';' {
                        p3 + 1
                    } else {
                        p3
                    };
                    Some((ASTNode::Import(it), e))
                },
                None => None,
            }
        } else {
            None
        }
    } else {
        None
    }
}

/// `[` + one or more characters other than `]` + `]`.
fn parse_bracketed(s: &str, pos: usize) -> (r: Option<(String, usize)>)
    requires
        pos <= s@.len(),
    ensures
        match r {
            Some((t, q)) => crate::grammar::sp_bracketed(s@, pos as int) == Some((t@, q as int))
                && pos < q <= s@.len(),
            None => crate::grammar::sp_bracketed(s@, pos as int) is None,
        },
{
    proof {
        reveal_strlit("]");
    }
    let n = char_len(s);
    if pos < n && char_at(s, pos) == '[' {
        match find_from(s, pos + 1, "]") {
            Some(j) => {
                if j > pos + 1 {
                    Some((copy_range(s, pos + 1, j), j + 1))
                } else {
                    None
                }
            },
            None => None,
        }
    } else {
        None
    }
}

/// `(` + text up to the next `)` + `)`.
fn parse_paren(s: &str, pos: usize) -> (r: Option<(String, usize)>)
    requires
        pos <= s@.len(),
    ensures
        match r {
            Some((t, q)) => sp_paren(s@, pos as int) == Some((t@, q as int)) && pos < q <= s@.len(),
            None => sp_paren(s@, pos as int) is None,
        },
{
    proof {
        reveal_strlit(")");
    }
    let n = char_len(s);
    if pos < n && char_at(s, pos) == '(' {
        match find_from(s, pos + 1, ")") {
            Some(j) => Some((copy_range(s, pos + 1, j), j + 1)),
            None => None,
        }
    } else {
        None
    }
}

/// A link: `[text](url)`.
pub fn parse_link(s: &str, pos: usize) -> (r: Option<(ASTNode, usize)>)
    requires
        pos <= s@.len(),
    ensures
        match r {
            Some((node, q)) => sp_link(s@, pos as int) == Some((node@, q as int)) && pos < q
                <= s@.len(),
            None => sp_link(s@, pos as int) is None,
        },
{
    match parse_bracketed(s, pos) {
        Some((text, p)) => match parse_paren(s, p) {
            Some((url, e)) => Some((ASTNode::Link(text, url), e)),
            None => None,
        },
        None => None,
    }
}

/// An image: `![alt](url)`.
pub fn parse_image(s: &str, pos: usize) -> (r: Option<(ASTNode, usize)>)
    requires
        pos <= s@.len(),
    ensures
        match r {
            Some((node, q)) => sp_image(s@, pos as int) == Some((node@, q as int)) && pos < q
                <= s@.len(),
            None => sp_image(s@, pos as int) is None,
        },
{
    let n = char_len(s);
    if pos < n && char_at(s, pos) == '!' {
        match parse_bracketed(s, pos + 1) {
            Some((alt, p)) => match parse_paren(s, p) {
                Some((url, e)) => Some((ASTNode::Image(alt, url), e)),
                None => None,
            },
            None => None,
        }
    } else {
        None
    }
}

/// Inline code between backticks; the content is kept verbatim.
pub fn parse_code(s: &str, pos: usize) -> (r: Option<(ASTNode, usize)>)
    requires
        pos <= s@.len(),
    ensures
        match r {
            Some((node, q)) => sp_code(s@, pos as int) == Some((node@, q as int)) && pos < q
                <= s@.len(),
            None => sp_code(s@, pos as int) is None,
        },
{
    proof {
        reveal_strlit("`");
    }
    let n = char_len(s);
    if pos < n && char_at(s, pos) == '`' {
        match find_from(s, pos + 1, "`") {
            Some(j) => Some((ASTNode::Code(copy_range(s, pos + 1, j)), j + 1)),
            None => None,
        }
    } else {
        None
    }
}

/// Emphasis between single asterisks; the content is kept verbatim.
pub fn parse_emphasis(s: &str, pos: usize) -> (r: Option<(ASTNode, usize)>)
    requires
        pos <= s@.len(),
    ensures
        match r {
            Some((node, q)) => sp_emphasis(s@, pos as int) == Some((node@, q as int)) && pos < q
                <= s@.len(),
            None => sp_emphasis(s@, pos as int) is None,
        },
{
    proof {
        reveal_strlit("*");
    }
    let n = char_len(s);
    if pos < n && char_at(s, pos) == '*' {
        match find_from(s, pos + 1, "*") {
            Some(j) => Some((ASTNode::Emphasis(copy_range(s, pos + 1, j)), j + 1)),
            None => None,
        }
    } else {
        None
    }
}

/// Strong emphasis between double asterisks.
pub fn parse_strong(s: &str, pos: usize) -> (r: Option<(ASTNode, usize)>)
    requires
        pos <= s@.len(),
    ensures
        match r {
            Some((node, q)) => sp_strong(s@, pos as int) == Some((node@, q as int)) && pos < q
                <= s@.len(),
            None => sp_strong(s@, pos as int) is None,
        },
{
    proof {
        reveal_strlit("**");
        assert("**"@.len() == 2);
    }
    // Counting the characters bounds every position used below.
    let _n: usize = char_len(s);
    if match_at(s, pos, "**") {
        match find_from(s, pos + 2, "**") {
            Some(j) => Some((ASTNode::Strong(copy_range(s, pos + 2, j)), j + 2)),
            None => None,
        }
    } else {
        None
    }
}

/// A blockquote: `>` + optional space + the rest of the line, trimmed.
pub fn parse_blockquote(s: &str, pos: usize) -> (r: Option<(ASTNode, usize)>)
    requires
        pos <= s@.len(),
    ensures
        match r {
            Some((node, q)) => sp_blockquote(s@, pos as int) == Some((node@, q as int)) && pos < q
                <= s@.len(),
            None => sp_blockquote(s@, pos as int) is None,
        },
{
    proof {
        reveal_strlit("\n");
    }
    let n = char_len(s);
    if pos < n && char_at(s, pos) == '>' {
        let p = space_run_from(s, pos + 1);
        match find_from(s, p, "\n") {
            Some(j) => Some((ASTNode::BlockQuote(copy_trimmed(s, p, j)), j + 1)),
            None => None,
        }
    } else {
        None
    }
}

/// A heading: the marker run gives the level, the rest of the line the
/// trimmed content.
pub fn parse_heading(s: &str, pos: usize) -> (r: Option<(ASTNode, usize)>)
    requires
        pos <= s@.len(),
    ensures
        match r {
            Some((node, q)) => sp_heading(s@, pos as int) == Some((node@, q as int)) && pos < q
                <= s@.len(),
            None => sp_heading(s@, pos as int) is None,
        },
{
    proof {
        reveal_strlit("\n");
    }
    let m = hash_run_from(s, pos);
    let n = char_len(s);
    if m > pos && m < n && char_at(s, m) == ' ' {
        match find_from(s, m + 1, "\n") {
            Some(j) => {
                let content = copy_trimmed(s, m + 1, j);
                let level: u8 = ((m - pos) % 256) as u8;
                Some((ASTNode::Heading(level, content), j + 1))
            },
            None => None,
        }
    } else {
        None
    }
}

/// A fenced code block: language tag and body, each trimmed of surrounding
/// whitespace.
pub fn parse_code_block(s: &str, pos: usize) -> (r: Option<(ASTNode, usize)>)
    requires
        pos <= s@.len(),
    ensures
        match r {
            Some((node, q)) => sp_code_block(s@, pos as int) == Some((node@, q as int)) && pos < q
                <= s@.len(),
            None => sp_code_block(s@, pos as int) is None,
        },
{
    proof {
        reveal_strlit("```");
        assert("```"@.len() == 3);
    }
    let n = char_len(s);
    if match_at(s, pos, "```") {
        let p = pos + 3;
        let le = alnum_run_from(s, p);
        let lang = copy_range(s, p, le);
        let b = if le < n && char_at(s, le) == '\n' {
            le + 1
        } else {
            le
        };
        match find_from(s, b, "```") {
            Some(j) => {
                let code = copy_trimmed(s, b, j);
                let e0 = j + 3;
                let e = if e0 < n && char_at(s, e0) == '\n' {
                    e0 + 1
                } else {
                    e0
                };
                Some((ASTNode::CodeBlock(code, lang), e))
            },
            None => None,
        }
    } else {
        None
    }
}

/// A component tag: a nonempty alphanumeric name, self-closing or with its
/// content discarded up to the first matching closing tag.
pub fn parse_react_component(s: &str, pos: usize) -> (r: Option<(ASTNode, usize)>)
    requires
        pos <= s@.len(),
    ensures
        match r {
            Some((node, q)) => sp_component(s@, pos as int) == Some((node@, q as int)) && pos < q
                <= s@.len(),
            None => sp_component(s@, pos as int) is None,
        },
{
    proof {
        reveal_strlit("/>");
        assert("/>"@.len() == 2);
    }
    let n = char_len(s);
    if pos < n && char_at(s, pos) == '<' {
        let ne = alnum_run_from(s, pos + 1);
        if ne > pos + 1 {
            let name = copy_range(s, pos + 1, ne);
            let p = skip_ws_from(s, ne);
            if match_at(s, p, "/>") {
                Some((ASTNode::ReactComponent(name), p + 2))
            } else if p < n && char_at(s, p) == '>' {
                let mut closing = String::from_str("</");
                closing.append(name.as_str());
                closing.append(">");
                proof {
                    assert(closing@ == "</"@ + name@ + ">"@);
                }
                let clen = char_len(closing.as_str());
                match find_from(s, p + 1, closing.as_str()) {
                    Some(j) => Some((ASTNode::ReactComponent(name), j + clen)),
                    None => None,
                }
            } else {
                None
            }
        } else {
            None
        }
    } else {
        None
    }
}

/// One list item: its trimmed text, and the position where the next item
/// (or the rest of the document) begins.
pub fn parse_list_item(s: &str, pos: usize) -> (r: Option<(String, usize)>)
    requires
        pos <= s@.len(),
    ensures
        match r {
            Some((item, q)) => sp_list_item(s@, pos as int) == Some((item@, q as int)) && pos < q
                <= s@.len(),
            None => sp_list_item(s@, pos as int) is None,
        },
{
    proof {
        reveal_strlit("- ");
        reveal_strlit("* ");
        reveal_strlit("\n");
        assert("- "@.len() == 2);
        assert("* "@.len() == 2);
    }
    let n = char_len(s);
    let p = nl_run_from(s, pos);
    let p2 = space_run_from(s, p);
    let dash = match_at(s, p2, "- ");
    if dash || match_at(s, p2, "* ") {
        let p3 = p2 + 2;
        match find_from(s, p3, "\n") {
            Some(j) => {
                proof {
                    crate::grammar::lemma_list_item_consumes(s@, pos as int);
                }
                Some((copy_trimmed(s, p3, j), j))
            },
            None => {
                if p3 < n {
                    Some((copy_trimmed(s, p3, n), n))
                } else {
                    None
                }
            },
        }
    } else {
        None
    }
}

/// The items of a list: one or more in sequence.
fn parse_list_items(s: &str, pos: usize) -> (r: Option<(Vec<String>, usize)>)
    requires
        pos <= s@.len(),
    ensures
        match r {
            Some((items, q)) => sp_list_items(s@, pos as int) == Some((items.deep_view(), q as int))
                && pos < q <= s@.len(),
            None => sp_list_items(s@, pos as int) is None,
        },
    decreases s@.len() - pos,
{
    match parse_list_item(s, pos) {
        Some((item, q)) => {
            let ghost item_view = item@;
            match parse_list_items(s, q) {
                Some((mut items, r)) => {
                    let ghost rest_view = items.deep_view();
                    items.insert(0, item);
                    proof {
                        assert(items.deep_view() =~= seq![item_view] + rest_view);
                    }
                    Some((items, r))
                },
                None => {
                    let mut items: Vec<String> = Vec::new();
                    items.push(item);
                    proof {
                        assert(items.deep_view() =~= seq![item_view]);
                    }
                    Some((items, q))
                },
            }
        },
        None => None,
    }
}

/// A list: one or more marker-led items, with surrounding line breaks
/// consumed; the items appear in source order.
pub fn parse_list(s: &str, pos: usize) -> (r: Option<(ASTNode, usize)>)
    requires
        pos <= s@.len(),
    ensures
        match r {
            Some((node, q)) => sp_list(s@, pos as int) == Some((node@, q as int)) && pos < q
                <= s@.len(),
            None => sp_list(s@, pos as int) is None,
        },
{
    let p = nl_run_from(s, pos);
    match parse_list_items(s, p) {
        Some((items, q)) => {
            let e = nl_run_from(s, q);
            Some((ASTNode::List(items), e))
        },
        None => None,
    }
}

/// A paragraph: text up to the first blank line; content that reads as a
/// fenced code block or a list is handed to that recognizer instead.
pub fn parse_paragraph(s: &str, pos: usize) -> (r: Option<(ASTNode, usize)>)
    requires
        pos <= s@.len(),
    ensures
        match r {
            Some((node, q)) => sp_paragraph(s@, pos as int) == Some((node@, q as int)) && pos < q
                <= s@.len(),
            None => sp_paragraph(s@, pos as int) is None,
        },
{
    proof {
        reveal_strlit("\n\n");
        reveal_strlit("```");
        reveal_strlit("- ");
        reveal_strlit("* ");
        assert("\n\n"@.len() == 2);
        assert("```"@.len() == 3);
    }
    // Counting the characters bounds every position used below.
    let _n: usize = char_len(s);
    match find_from(s, pos, "\n\n") {
        Some(b) => {
            let t = doc_end(s);
            if b + 2 <= t {
                let content = copy_range(s, pos, b);
                let cs = content.as_str();
                let clen = char_len(cs);
                let e = b + 2;
                let fence_start = match_at(cs, 0, "```");
                let fence_end = if clen >= 3 {
                    match_at(cs, clen - 3, "```")
                } else {
                    false
                };
                proof {
                    assert(crate::text::ends_with(content@, "```"@) == (clen >= 3 && matches_at(
                        content@,
                        clen - 3,
                        "```"@,
                    )));
                }
                if fence_start && fence_end {
                    match parse_code_block(cs, 0) {
                        Some((node, _)) => Some((node, e)),
                        None => None,
                    }
                } else if match_at(cs, 0, "- ") || match_at(cs, 0, "* ") {
                    match parse_list(cs, 0) {
                        Some((node, _)) => Some((node, e)),
                        None => None,
                    }
                } else {
                    Some((ASTNode::Paragraph(copy_trimmed(s, pos, b)), e))
                }
            } else {
                None
            }
        },
        None => None,
    }
}

/// The fallback: one line of plain text, trimmed; it matches only while
/// content remains after the line.
pub fn parse_text(s: &str, pos: usize) -> (r: Option<(ASTNode, usize)>)
    requires
        pos <= s@.len(),
    ensures
        match r {
            Some((node, q)) => sp_text(s@, pos as int) == Some((node@, q as int)) && pos < q
                <= s@.len(),
            None => sp_text(s@, pos as int) is None,
        },
{
    proof {
        reveal_strlit("\n");
    }
    match find_from(s, pos, "\n") {
        Some(j) => {
            let t = doc_end(s);
            if j < t {
                Some((ASTNode::Text(copy_trimmed(s, pos, j)), j + 1))
            } else {
                None
            }
        },
        None => None,
    }
}

/// One attempt at the current position: the recognizers in their fixed
/// priority order, the first success winning; a failed attempt consumes
/// nothing.
pub fn parse_alt(s: &str, pos: usize) -> (r: Option<(ASTNode, usize)>)
    requires
        pos <= s@.len(),
    ensures
        match r {
            Some((node, q)) => sp_alt(s@, pos as int) == Some((node@, q as int)) && pos < q
                <= s@.len(),
            None => sp_alt(s@, pos as int) is None,
        },
{
    if let Some(r) = parse_import(s, pos) {
        return Some(r);
    }
    if let Some(r) = parse_link(s, pos) {
        return Some(r);
    }
    if let Some(r) = parse_code_block(s, pos) {
        return Some(r);
    }
    if let Some(r) = parse_heading(s, pos) {
        return Some(r);
    }
    if let Some(r) = parse_react_component(s, pos) {
        return Some(r);
    }
    if let Some(r) = parse_list(s, pos) {
        return Some(r);
    }
    if let Some(r) = parse_paragraph(s, pos) {
        return Some(r);
    }
    if let Some(r) = parse_text(s, pos) {
        return Some(r);
    }
    if let Some(r) = parse_code(s, pos) {
        return Some(r);
    }
    if let Some(r) = parse_emphasis(s, pos) {
        return Some(r);
    }
    if let Some(r) = parse_strong(s, pos) {
        return Some(r);
    }
    if let Some(r) = parse_image(s, pos) {
        return Some(r);
    }
    if let Some(r) = parse_blockquote(s, pos) {
        return Some(r);
    }
    None
}

/// The parse error: the position at which every recognizer failed, and the
/// unconsumed remainder of the document from that position on.
#[derive(Debug)]
pub struct ParseFailure {
    pub position: usize,
    pub remainder: String,
}

/// Parses a whole document into its node sequence.
///
/// Whitespace is skipped before each attempt, and attempts repeat until the
/// input is exhausted. A position where no recognizer succeeds rejects the
/// whole document: there is no partial result.
pub fn parse_markdown(input: &str) -> (r: Result<Vec<ASTNode>, ParseFailure>)
    ensures
        match r {
            Ok(nodes) => sp_parse(input@) == Ok::<Seq<Node>, int>(nodes.deep_view()),
            Err(pf) => {
                &&& sp_parse(input@) == Err::<Seq<Node>, int>(pf.position as int)
                &&& pf.position <= input@.len()
                &&& pf.remainder@ == input@.subrange(pf.position as int, input@.len() as int)
            },
        },
{
    let n = char_len(input);
    let mut nodes: Vec<ASTNode> = Vec::new();
    let mut pos: usize = 0;
    loop
        invariant
            pos <= n,
            n == input@.len(),
            sp_parse(input@) == (match sp_parse_loop(input@, pos as int) {
                Ok(rest) => Ok::<Seq<Node>, int>(nodes.deep_view() + rest),
                Err(e) => Err::<Seq<Node>, int>(e),
            }),
        decreases n - pos,
    {
        let p = skip_ws_from(input, pos);
        if p == n {
            proof {
                assert(sp_parse_loop(input@, pos as int) == Ok::<Seq<Node>, int>(
                    Seq::<Node>::empty(),
                ));
                assert(nodes.deep_view() + Seq::<Node>::empty() =~= nodes.deep_view());
            }
            return Ok(nodes);
        }
        match parse_alt(input, p) {
            Some((node, q)) => {
                let ghost old_dv = nodes.deep_view();
                let ghost node_view = node@;
                nodes.push(node);
                proof {
                    assert(nodes.deep_view() =~= old_dv + seq![node_view]);
                    assert(sp_parse_loop(input@, pos as int) == (match sp_parse_loop(
                        input@,
                        q as int,
                    ) {
                        Ok(rest) => Ok::<Seq<Node>, int>(seq![node_view] + rest),
                        Err(e) => Err::<Seq<Node>, int>(e),
                    }));
                    match sp_parse_loop(input@, q as int) {
                        Ok(rest) => {
                            assert(old_dv + (seq![node_view] + rest) =~= (old_dv + seq![node_view])
                                + rest);
                        },
                        Err(e) => {},
                    }
                }
                pos = q;
            },
            None => {
                let remainder = copy_range(input, p, n);
                proof {
                    assert(sp_parse_loop(input@, pos as int) == Err::<Seq<Node>, int>(p as int));
                }
                return Err(ParseFailure { position: p, remainder });
            },
        }
    }
}

/// Generates the artifact triple from a node sequence: the HTML fragment,
/// the import declarations in source order, and the component bindings,
/// import-derived ones kept as written and tag-derived ones deduplicated.
pub fn generate_html(ast: &Vec<ASTNode>) -> (r: (String, Vec<String>, Vec<String>))
    ensures
        r.0@ == sp_generate(ast.deep_view()).html,
        r.1.deep_view() == sp_generate(ast.deep_view()).imports,
        r.2.deep_view() == sp_generate(ast.deep_view()).components,
{
    let ghost all = ast.deep_view();
    let mut html = String::new();
    let mut imports: Vec<String> = Vec::new();
    let mut components: Vec<String> = Vec::new();
    let n = ast.len();
    let mut i: usize = 0;
    proof {
        assert(imports.deep_view() =~= Seq::<Seq<char>>::empty());
        assert(components.deep_view() =~= Seq::<Seq<char>>::empty());
        assert(all.subrange(0, all.len() as int) =~= all);
        assert((GenOut {
            html: html@,
            imports: imports.deep_view(),
            components: components.deep_view(),
        }) == empty_out());
    }
    while i < n
        invariant
            i <= n,
            n == ast.len(),
            all == ast.deep_view(),
            sp_generate(all) == sp_gen_from(
                all.subrange(i as int, all.len() as int),
                (GenOut {
                    html: html@,
                    imports: imports.deep_view(),
                    components: components.deep_view(),
                }),
            ),
        decreases n - i,
    {
        let node = &ast[i];
        let ghost accb = (GenOut {
            html: html@,
            imports: imports.deep_view(),
            components: components.deep_view(),
        });
        gen_node(&mut html, &mut imports, &mut components, node);
        proof {
            let rest = all.subrange(i as int, all.len() as int);
            assert(rest[0] == all[i as int]);
            assert(rest.drop_first() =~= all.subrange(i + 1, all.len() as int));
            assert(node@ == all[i as int]);
            assert((GenOut {
                html: html@,
                imports: imports.deep_view(),
                components: components.deep_view(),
            }) == sp_gen_step(accb, all[i as int]));
        }
        i = i + 1;
    }
    proof {
        assert(all.subrange(n as int, all.len() as int) =~= Seq::<Node>::empty());
    }
    (html, imports, components)
}

} // verus!
