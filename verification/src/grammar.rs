//! The grammar itself, stated mathematically: one recognizer per construct,
//! an alternation that tries them in a fixed priority order, and the
//! dispatcher that repeats skip-whitespace-then-recognize until the input is
//! exhausted or no recognizer matches.
//!
//! Every recognizer takes the whole document and a position; on success it
//! yields the node and the position just after what was consumed, and on
//! failure it consumes nothing. The priority order — import, link, fenced
//! code block, heading, component tag, list, paragraph, plain text, inline
//! code, emphasis, strong, image, blockquote — is part of the grammar's
//! contract: reordering it changes what a document means.

use vstd::prelude::*;

use crate::parser::Import;
use crate::parser::Node;
use crate::text::alnum_pred;
use crate::text::ends_with;
use crate::text::find_at;
use crate::text::hash_pred;
use crate::text::last_non_ws;
use crate::text::lemma_find_at;
use crate::text::lemma_nl_run_end;
use crate::text::lemma_run_end;
use crate::text::matches_at;
use crate::text::nl_run_end;
use crate::text::run_end;
use crate::text::skip_ws;
use crate::text::space_pred;
use crate::text::starts_with;
use crate::text::trim;
use crate::text::ws_char;
use crate::text::ws_pred;

verus! {

/// A double-quoted path: `"` + text up to the next `"` + `"`.
pub open spec fn sp_quoted(s: Seq<char>, pos: int) -> Option<(Seq<char>, int)> {
    if 0 <= pos < s.len() && s[pos] == '"' {
        match find_at(s, pos + 1, "\""@) {
            Some(j) => Some((s.subrange(pos + 1, j), j + 1)),
            None => None,
        }
    } else {
        None
    }
}

/// The named import form: `{` bindings `}` + `from` + a quoted path.
pub open spec fn sp_named_import(s: Seq<char>, pos: int) -> Option<(Import, int)> {
    if 0 <= pos < s.len() && s[pos] == '{' {
        match find_at(s, pos + 1, "}"@) {
            Some(j) => {
                let binding = trim(s.subrange(pos + 1, j));
                let p = skip_ws(s, j + 1);
                if matches_at(s, p, "from"@) {
                    let q = skip_ws(s, p + "from"@.len());
                    match sp_quoted(s, q) {
                        Some((path, e)) => Some((Import::Named(binding, path), e)),
                        None => None,
                    }
                } else {
                    None
                }
            },
            None => None,
        }
    } else {
        None
    }
}

/// The default import form: text up to the literal ` from` + a quoted path.
pub open spec fn sp_default_import(s: Seq<char>, pos: int) -> Option<(Import, int)> {
    match find_at(s, pos, " from"@) {
        Some(i) => {
            let binding = trim(s.subrange(pos, i));
            let q = skip_ws(s, i + " from"@.len());
            match sp_quoted(s, q) {
                Some((path, e)) => Some((Import::Default(binding, path), e)),
                None => None,
            }
        },
        None => None,
    }
}

/// An import declaration: `import` + whitespace + a named or default form +
/// an optional trailing `;`. The named form is tried first, so that a
/// braced binding list is never mistaken for a default binding.
pub open spec fn sp_import(s: Seq<char>, pos: int) -> Option<(Node, int)> {
    if matches_at(s, pos, "import"@) {
        let p1 = pos + "import"@.len();
        if p1 < s.len() && ws_char(s[p1]) {
            let p2 = skip_ws(s, p1);
            let form = if sp_named_import(s, p2) is Some {
                sp_named_import(s, p2)
            } else {
                sp_default_import(s, p2)
            };
            match form {
                Some((it, p3)) => {
                    let e = if p3 < s.len() && s[p3] == ';' {
                        p3 + 1
                    } else {
                        p3
                    };
                    Some((Node::Import(it), e))
                },
                None => None,
            }
        } else {
            None
        }
    } else {
        None
    }
}

/// `[` + one or more characters other than `]` + `]`.
pub open spec fn sp_bracketed(s: Seq<char>, pos: int) -> Option<(Seq<char>, int)> {
    if 0 <= pos < s.len() && s[pos] == '[' {
        match find_at(s, pos + 1, "]"@) {
            Some(j) => if j > pos + 1 {
                Some((s.subrange(pos + 1, j), j + 1))
            } else {
                None
            },
            None => None,
        }
    } else {
        None
    }
}

/// `(` + text up to the next `)` + `)`.
pub open spec fn sp_paren(s: Seq<char>, pos: int) -> Option<(Seq<char>, int)> {
    if 0 <= pos < s.len() && s[pos] == '(' {
        match find_at(s, pos + 1, ")"@) {
            Some(j) => Some((s.subrange(pos + 1, j), j + 1)),
            None => None,
        }
    } else {
        None
    }
}

/// A link: `[text](url)`.
pub open spec fn sp_link(s: Seq<char>, pos: int) -> Option<(Node, int)> {
    match sp_bracketed(s, pos) {
        Some((text, p)) => match sp_paren(s, p) {
            Some((url, e)) => Some((Node::Link(text, url), e)),
            None => None,
        },
        None => None,
    }
}

/// An image: `![alt](url)`.
pub open spec fn sp_image(s: Seq<char>, pos: int) -> Option<(Node, int)> {
    if 0 <= pos < s.len() && s[pos] == '!' {
        match sp_bracketed(s, pos + 1) {
            Some((alt, p)) => match sp_paren(s, p) {
                Some((url, e)) => Some((Node::Image(alt, url), e)),
                None => None,
            },
            None => None,
        }
    } else {
        None
    }
}

/// A fenced code block: the fence + an optional language tag + an optional
/// line break + the body up to the next fence + the fence + an optional
/// line break. Body and language are trimmed independently.
pub open spec fn sp_code_block(s: Seq<char>, pos: int) -> Option<(Node, int)> {
    if matches_at(s, pos, "```"@) {
        let p = pos + "```"@.len();
        let le = run_end(s, p, alnum_pred());
        let lang = s.subrange(p, le);
        let b = if le < s.len() && s[le] == '\n' {
            le + 1
        } else {
            le
        };
        match find_at(s, b, "```"@) {
            Some(j) => {
                let e0 = j + "```"@.len();
                let e = if e0 < s.len() && s[e0] == '\n' {
                    e0 + 1
                } else {
                    e0
                };
                Some((Node::CodeBlock(trim(s.subrange(b, j)), lang), e))
            },
            None => None,
        }
    } else {
        None
    }
}

/// A heading: a run of `#` (its length is the level) + one space + the rest
/// of the line, trimmed; the line break is consumed.
pub open spec fn sp_heading(s: Seq<char>, pos: int) -> Option<(Node, int)> {
    let m = run_end(s, pos, hash_pred());
    if m > pos && m < s.len() && s[m] == ' ' {
        match find_at(s, m + 1, "\n"@) {
            Some(j) => Some(
                (Node::Heading(((m - pos) % 256) as u8, trim(s.subrange(m + 1, j))), j + 1),
            ),
            None => None,
        }
    } else {
        None
    }
}

/// A component tag: `<` + a nonempty alphanumeric name + either `/>`, or
/// `>` followed by anything up to the first occurrence of the matching
/// closing tag. Enclosed content is discarded, not parsed; for same-named
/// nested tags the first closing tag found wins, deliberately.
pub open spec fn sp_component(s: Seq<char>, pos: int) -> Option<(Node, int)> {
    if 0 <= pos < s.len() && s[pos] == '<' {
        let ne = run_end(s, pos + 1, alnum_pred());
        if ne > pos + 1 {
            let name = s.subrange(pos + 1, ne);
            let p = skip_ws(s, ne);
            if matches_at(s, p, "/>"@) {
                Some((Node::ReactComponent(name), p + "/>"@.len()))
            } else if p < s.len() && s[p] == '>' {
                let closing = "</"@ + name + ">"@;
                match find_at(s, p + 1, closing) {
                    Some(j) => Some((Node::ReactComponent(name), j + closing.len())),
                    None => None,
                }
            } else {
                None
            }
        } else {
            None
        }
    } else {
        None
    }
}

/// One list item: leading line breaks + optional horizontal space + a
/// `- ` or `* ` marker + the item text, taken to the end of the line (the
/// line break is left for the next item) or to the end of the input.
pub open spec fn sp_list_item(s: Seq<char>, pos: int) -> Option<(Seq<char>, int)> {
    let p = nl_run_end(s, pos);
    let p2 = run_end(s, p, space_pred());
    if matches_at(s, p2, "- "@) || matches_at(s, p2, "* "@) {
        let p3 = if matches_at(s, p2, "- "@) {
            p2 + "- "@.len()
        } else {
            p2 + "* "@.len()
        };
        match find_at(s, p3, "\n"@) {
            Some(j) => Some((trim(s.subrange(p3, j)), j)),
            None => if p3 < s.len() {
                Some((trim(s.subrange(p3, s.len() as int)), s.len() as int))
            } else {
                None
            },
        }
    } else {
        None
    }
}

pub proof fn lemma_list_item_consumes(s: Seq<char>, pos: int)
    requires
        0 <= pos <= s.len(),
    ensures
        match sp_list_item(s, pos) {
            Some((item, q)) => pos < q <= s.len(),
            None => true,
        },
{
    reveal_strlit("- ");
    reveal_strlit("* ");
    reveal_strlit("\n");
    lemma_nl_run_end(s, pos);
    let p = nl_run_end(s, pos);
    lemma_run_end(s, p, space_pred());
    let p2 = run_end(s, p, space_pred());
    if matches_at(s, p2, "- "@) || matches_at(s, p2, "* "@) {
        let p3 = p2 + 2;
        lemma_find_at(s, p3, "\n"@);
    }
}

/// The items of a list: one or more list items in sequence.
pub open spec fn sp_list_items(s: Seq<char>, pos: int) -> Option<(Seq<Seq<char>>, int)>
    decreases s.len() - pos,
    when 0 <= pos <= s.len()
{
    match sp_list_item(s, pos) {
        Some((item, q)) => {
            proof {
                lemma_list_item_consumes(s, pos);
            }
            match sp_list_items(s, q) {
                Some((rest, r)) => Some((seq![item] + rest, r)),
                None => Some((seq![item], q)),
            }
        },
        None => None,
    }
}

pub proof fn lemma_list_items_consume(s: Seq<char>, pos: int)
    requires
        0 <= pos <= s.len(),
    ensures
        match sp_list_items(s, pos) {
            Some((items, q)) => pos < q <= s.len() && items.len() > 0,
            None => true,
        },
    decreases s.len() - pos,
{
    lemma_list_item_consumes(s, pos);
    match sp_list_item(s, pos) {
        Some((item, q)) => {
            lemma_list_items_consume(s, q);
        },
        None => {},
    }
}

/// A list: leading line breaks, one or more items, trailing line breaks.
pub open spec fn sp_list(s: Seq<char>, pos: int) -> Option<(Node, int)> {
    let p = nl_run_end(s, pos);
    match sp_list_items(s, p) {
        Some((items, q)) => Some((Node::List(items), nl_run_end(s, q))),
        None => None,
    }
}

/// A paragraph: text up to the first blank line that still has content
/// after it. Content that itself reads as a fenced code block or as a list
/// is re-dispatched to that recognizer; otherwise the trimmed content is
/// the paragraph.
pub open spec fn sp_paragraph(s: Seq<char>, pos: int) -> Option<(Node, int)> {
    match find_at(s, pos, "\n\n"@) {
        Some(b) => if b + "\n\n"@.len() <= last_non_ws(s) {
            let content = s.subrange(pos, b);
            let e = b + "\n\n"@.len();
            if starts_with(content, "```"@) && ends_with(content, "```"@) {
                match sp_code_block(content, 0) {
                    Some((n, _)) => Some((n, e)),
                    None => None,
                }
            } else if starts_with(content, "- "@) || starts_with(content, "* "@) {
                match sp_list(content, 0) {
                    Some((n, _)) => Some((n, e)),
                    None => None,
                }
            } else {
                Some((Node::Paragraph(trim(content)), e))
            }
        } else {
            None
        },
        None => None,
    }
}

/// A plain text line: the fallback. It matches only a line that ends in a
/// line break with further content after it; the trailing-whitespace region
/// of the document never reads as text.
pub open spec fn sp_text(s: Seq<char>, pos: int) -> Option<(Node, int)> {
    match find_at(s, pos, "\n"@) {
        Some(j) => if j < last_non_ws(s) {
            Some((Node::Text(trim(s.subrange(pos, j))), j + 1))
        } else {
            None
        },
        None => None,
    }
}

/// Inline code: `` ` `` + text up to the next `` ` `` + `` ` ``.
pub open spec fn sp_code(s: Seq<char>, pos: int) -> Option<(Node, int)> {
    if 0 <= pos < s.len() && s[pos] == '`' {
        match find_at(s, pos + 1, "`"@) {
            Some(j) => Some((Node::Code(s.subrange(pos + 1, j)), j + 1)),
            None => None,
        }
    } else {
        None
    }
}

/// Emphasis: `*` + text up to the next `*` + `*`.
pub open spec fn sp_emphasis(s: Seq<char>, pos: int) -> Option<(Node, int)> {
    if 0 <= pos < s.len() && s[pos] == '*' {
        match find_at(s, pos + 1, "*"@) {
            Some(j) => Some((Node::Emphasis(s.subrange(pos + 1, j)), j + 1)),
            None => None,
        }
    } else {
        None
    }
}

/// Strong emphasis: `**` + text up to the next `**` + `**`.
pub open spec fn sp_strong(s: Seq<char>, pos: int) -> Option<(Node, int)> {
    if matches_at(s, pos, "**"@) {
        let p = pos + "**"@.len();
        match find_at(s, p, "**"@) {
            Some(j) => Some((Node::Strong(s.subrange(p, j)), j + "**"@.len())),
            None => None,
        }
    } else {
        None
    }
}

/// A blockquote: `>` + optional horizontal space + the rest of the line.
pub open spec fn sp_blockquote(s: Seq<char>, pos: int) -> Option<(Node, int)> {
    if 0 <= pos < s.len() && s[pos] == '>' {
        let p = run_end(s, pos + 1, space_pred());
        match find_at(s, p, "\n"@) {
            Some(j) => Some((Node::BlockQuote(trim(s.subrange(p, j))), j + 1)),
            None => None,
        }
    } else {
        None
    }
}

pub open spec fn orelse(a: Option<(Node, int)>, b: Option<(Node, int)>) -> Option<(Node, int)> {
    if a is Some {
        a
    } else {
        b
    }
}

/// One attempt at the current position: the recognizers in priority order,
/// the first success winning.
pub open spec fn sp_alt(s: Seq<char>, pos: int) -> Option<(Node, int)> {
    orelse(
        sp_import(s, pos),
        orelse(
            sp_link(s, pos),
            orelse(
                sp_code_block(s, pos),
                orelse(
                    sp_heading(s, pos),
                    orelse(
                        sp_component(s, pos),
                        orelse(
                            sp_list(s, pos),
                            orelse(
                                sp_paragraph(s, pos),
                                orelse(
                                    sp_text(s, pos),
                                    orelse(
                                        sp_code(s, pos),
                                        orelse(
                                            sp_emphasis(s, pos),
                                            orelse(
                                                sp_strong(s, pos),
                                                orelse(sp_image(s, pos), sp_blockquote(s, pos)),
                                            ),
                                        ),
                                    ),
                                ),
                            ),
                        ),
                    ),
                ),
            ),
        ),
    )
}

pub proof fn lemma_quoted_consumes(s: Seq<char>, pos: int)
    requires
        0 <= pos <= s.len(),
    ensures
        match sp_quoted(s, pos) {
            Some((path, e)) => pos < e <= s.len(),
            None => true,
        },
{
    reveal_strlit("\"");
    if 0 <= pos < s.len() && s[pos] == '"' {
        lemma_find_at(s, pos + 1, "\""@);
    }
}

pub proof fn lemma_named_import_consumes(s: Seq<char>, pos: int)
    requires
        0 <= pos <= s.len(),
    ensures
        match sp_named_import(s, pos) {
            Some((it, e)) => pos < e <= s.len(),
            None => true,
        },
{
    reveal_strlit("}");
    reveal_strlit("from");
    if 0 <= pos < s.len() && s[pos] == '{' {
        lemma_find_at(s, pos + 1, "}"@);
        match find_at(s, pos + 1, "}"@) {
            Some(j) => {
                lemma_run_end(s, j + 1, ws_pred());
                let p = skip_ws(s, j + 1);
                if matches_at(s, p, "from"@) {
                    lemma_run_end(s, p + 4, ws_pred());
                    let q = skip_ws(s, p + 4);
                    lemma_quoted_consumes(s, q);
                }
            },
            None => {},
        }
    }
}

pub proof fn lemma_default_import_consumes(s: Seq<char>, pos: int)
    requires
        0 <= pos <= s.len(),
    ensures
        match sp_default_import(s, pos) {
            Some((it, e)) => pos < e <= s.len(),
            None => true,
        },
{
    reveal_strlit(" from");
    lemma_find_at(s, pos, " from"@);
    match find_at(s, pos, " from"@) {
        Some(i) => {
            lemma_run_end(s, i + 5, ws_pred());
            let q = skip_ws(s, i + 5);
            lemma_quoted_consumes(s, q);
        },
        None => {},
    }
}

pub proof fn lemma_import_consumes(s: Seq<char>, pos: int)
    requires
        0 <= pos <= s.len(),
    ensures
        match sp_import(s, pos) {
            Some((n, e)) => pos < e <= s.len(),
            None => true,
        },
{
    reveal_strlit("import");
    if matches_at(s, pos, "import"@) {
        let p1 = pos + 6;
        if p1 < s.len() && ws_char(s[p1]) {
            lemma_run_end(s, p1, ws_pred());
            let p2 = skip_ws(s, p1);
            lemma_named_import_consumes(s, p2);
            lemma_default_import_consumes(s, p2);
        }
    }
}

pub proof fn lemma_bracketed_consumes(s: Seq<char>, pos: int)
    requires
        0 <= pos <= s.len(),
    ensures
        match sp_bracketed(s, pos) {
            Some((t, e)) => pos + 1 < e <= s.len(),
            None => true,
        },
{
    reveal_strlit("]");
    if 0 <= pos < s.len() && s[pos] == '[' {
        lemma_find_at(s, pos + 1, "]"@);
    }
}

pub proof fn lemma_paren_consumes(s: Seq<char>, pos: int)
    requires
        0 <= pos <= s.len(),
    ensures
        match sp_paren(s, pos) {
            Some((t, e)) => pos < e <= s.len(),
            None => true,
        },
{
    reveal_strlit(")");
    if 0 <= pos < s.len() && s[pos] == '(' {
        lemma_find_at(s, pos + 1, ")"@);
    }
}

pub proof fn lemma_link_consumes(s: Seq<char>, pos: int)
    requires
        0 <= pos <= s.len(),
    ensures
        match sp_link(s, pos) {
            Some((n, e)) => pos < e <= s.len(),
            None => true,
        },
{
    lemma_bracketed_consumes(s, pos);
    match sp_bracketed(s, pos) {
        Some((t, p)) => {
            lemma_paren_consumes(s, p);
        },
        None => {},
    }
}

pub proof fn lemma_image_consumes(s: Seq<char>, pos: int)
    requires
        0 <= pos <= s.len(),
    ensures
        match sp_image(s, pos) {
            Some((n, e)) => pos < e <= s.len(),
            None => true,
        },
{
    if 0 <= pos < s.len() && s[pos] == '!' {
        lemma_bracketed_consumes(s, pos + 1);
        match sp_bracketed(s, pos + 1) {
            Some((t, p)) => {
                lemma_paren_consumes(s, p);
            },
            None => {},
        }
    }
}

pub proof fn lemma_code_block_consumes(s: Seq<char>, pos: int)
    requires
        0 <= pos <= s.len(),
    ensures
        match sp_code_block(s, pos) {
            Some((n, e)) => pos < e <= s.len(),
            None => true,
        },
{
    reveal_strlit("```");
    if matches_at(s, pos, "```"@) {
        let p = pos + 3;
        lemma_run_end(s, p, alnum_pred());
        let le = run_end(s, p, alnum_pred());
        let b = if le < s.len() && s[le] == '\n' {
            le + 1
        } else {
            le
        };
        lemma_find_at(s, b, "```"@);
    }
}

pub proof fn lemma_heading_consumes(s: Seq<char>, pos: int)
    requires
        0 <= pos <= s.len(),
    ensures
        match sp_heading(s, pos) {
            Some((n, e)) => pos < e <= s.len(),
            None => true,
        },
{
    reveal_strlit("\n");
    lemma_run_end(s, pos, hash_pred());
    let m = run_end(s, pos, hash_pred());
    if m > pos && m < s.len() && s[m] == ' ' {
        lemma_find_at(s, m + 1, "\n"@);
    }
}

pub proof fn lemma_component_consumes(s: Seq<char>, pos: int)
    requires
        0 <= pos <= s.len(),
    ensures
        match sp_component(s, pos) {
            Some((n, e)) => pos < e <= s.len(),
            None => true,
        },
{
    reveal_strlit("/>");
    if 0 <= pos < s.len() && s[pos] == '<' {
        lemma_run_end(s, pos + 1, alnum_pred());
        let ne = run_end(s, pos + 1, alnum_pred());
        if ne > pos + 1 {
            let name = s.subrange(pos + 1, ne);
            lemma_run_end(s, ne, ws_pred());
            let p = skip_ws(s, ne);
            if matches_at(s, p, "/>"@) {
            } else if p < s.len() && s[p] == '>' {
                let closing = "</"@ + name + ">"@;
                lemma_find_at(s, p + 1, closing);
            }
        }
    }
}

pub proof fn lemma_list_consumes(s: Seq<char>, pos: int)
    requires
        0 <= pos <= s.len(),
    ensures
        match sp_list(s, pos) {
            Some((n, e)) => pos < e <= s.len(),
            None => true,
        },
{
    lemma_nl_run_end(s, pos);
    let p = nl_run_end(s, pos);
    lemma_list_items_consume(s, p);
    match sp_list_items(s, p) {
        Some((items, q)) => {
            lemma_nl_run_end(s, q);
        },
        None => {},
    }
}

pub proof fn lemma_paragraph_consumes(s: Seq<char>, pos: int)
    requires
        0 <= pos <= s.len(),
    ensures
        match sp_paragraph(s, pos) {
            Some((n, e)) => pos < e <= s.len(),
            None => true,
        },
{
    reveal_strlit("\n\n");
    lemma_find_at(s, pos, "\n\n"@);
    crate::text::lemma_last_non_ws(s);
}

pub proof fn lemma_text_consumes(s: Seq<char>, pos: int)
    requires
        0 <= pos <= s.len(),
    ensures
        match sp_text(s, pos) {
            Some((n, e)) => pos < e <= s.len(),
            None => true,
        },
{
    reveal_strlit("\n");
    lemma_find_at(s, pos, "\n"@);
    crate::text::lemma_last_non_ws(s);
}

pub proof fn lemma_code_consumes(s: Seq<char>, pos: int)
    requires
        0 <= pos <= s.len(),
    ensures
        match sp_code(s, pos) {
            Some((n, e)) => pos < e <= s.len(),
            None => true,
        },
{
    reveal_strlit("`");
    if 0 <= pos < s.len() && s[pos] == '`' {
        lemma_find_at(s, pos + 1, "`"@);
    }
}

pub proof fn lemma_emphasis_consumes(s: Seq<char>, pos: int)
    requires
        0 <= pos <= s.len(),
    ensures
        match sp_emphasis(s, pos) {
            Some((n, e)) => pos < e <= s.len(),
            None => true,
        },
{
    reveal_strlit("*");
    if 0 <= pos < s.len() && s[pos] == '*' {
        lemma_find_at(s, pos + 1, "*"@);
    }
}

pub proof fn lemma_strong_consumes(s: Seq<char>, pos: int)
    requires
        0 <= pos <= s.len(),
    ensures
        match sp_strong(s, pos) {
            Some((n, e)) => pos < e <= s.len(),
            None => true,
        },
{
    reveal_strlit("**");
    if matches_at(s, pos, "**"@) {
        lemma_find_at(s, pos + 2, "**"@);
    }
}

pub proof fn lemma_blockquote_consumes(s: Seq<char>, pos: int)
    requires
        0 <= pos <= s.len(),
    ensures
        match sp_blockquote(s, pos) {
            Some((n, e)) => pos < e <= s.len(),
            None => true,
        },
{
    reveal_strlit("\n");
    if 0 <= pos < s.len() && s[pos] == '>' {
        lemma_run_end(s, pos + 1, space_pred());
        let p = run_end(s, pos + 1, space_pred());
        lemma_find_at(s, p, "\n"@);
    }
}

/// A successful attempt always consumes at least one character and never
/// runs past the end of the input.
pub proof fn lemma_alt_consumes(s: Seq<char>, pos: int)
    requires
        0 <= pos <= s.len(),
    ensures
        match sp_alt(s, pos) {
            Some((n, e)) => pos < e <= s.len(),
            None => true,
        },
{
    lemma_import_consumes(s, pos);
    lemma_link_consumes(s, pos);
    lemma_code_block_consumes(s, pos);
    lemma_heading_consumes(s, pos);
    lemma_component_consumes(s, pos);
    lemma_list_consumes(s, pos);
    lemma_paragraph_consumes(s, pos);
    lemma_text_consumes(s, pos);
    lemma_code_consumes(s, pos);
    lemma_emphasis_consumes(s, pos);
    lemma_strong_consumes(s, pos);
    lemma_image_consumes(s, pos);
    lemma_blockquote_consumes(s, pos);
}

/// The dispatcher: skip whitespace, then try the alternation; repeat until
/// the input is exhausted. When no recognizer matches, the whole document
/// is rejected with the stuck position — there is no partial result.
pub open spec fn sp_parse_loop(s: Seq<char>, pos: int) -> Result<Seq<Node>, int>
    decreases s.len() - pos,
    when 0 <= pos <= s.len()
{
    let p = skip_ws(s, pos);
    if p >= s.len() {
        Ok(Seq::empty())
    } else {
        match sp_alt(s, p) {
            Some((node, q)) => {
                proof {
                    lemma_run_end(s, pos, ws_pred());
                    lemma_alt_consumes(s, p);
                }
                match sp_parse_loop(s, q) {
                    Ok(rest) => Ok(seq![node] + rest),
                    Err(e) => Err(e),
                }
            },
            None => Err(p),
        }
    }
}

/// What a whole document means: the node sequence it parses to, or the
/// position where parsing got stuck.
pub open spec fn sp_parse(s: Seq<char>) -> Result<Seq<Node>, int> {
    sp_parse_loop(s, 0)
}

} // verus!
