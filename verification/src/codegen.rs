//! The code generator: a pure mapping from the parsed node sequence to an
//! HTML fragment, the list of import declarations, and the list of
//! referenced component bindings.
//!
//! Component-tag references are deduplicated against everything already in
//! the binding list; import-derived bindings are appended unconditionally.
//! That asymmetry is part of the generator's contract.

use vstd::prelude::*;

use crate::parser::ASTNode;
use crate::parser::Import;
use crate::parser::ImportType;
use crate::parser::Node;
use crate::text::find_at;
use crate::text::lemma_find_at;
use crate::text::trim;
use vstd::string::StringExecFns;

verus! {

/// The artifact triple being built: the HTML fragment, the import
/// declarations, and the component bindings, in order.
pub struct GenOut {
    pub html: Seq<char>,
    pub imports: Seq<Seq<char>>,
    pub components: Seq<Seq<char>>,
}

/// The empty artifact triple.
pub open spec fn empty_out() -> GenOut {
    GenOut { html: Seq::empty(), imports: Seq::empty(), components: Seq::empty() }
}

/// The decimal digit `d` as a character.
pub open spec fn digit_char(d: int) -> char {
    if d == 0 {
        '0'
    } else if d == 1 {
        '1'
    } else if d == 2 {
        '2'
    } else if d == 3 {
        '3'
    } else if d == 4 {
        '4'
    } else if d == 5 {
        '5'
    } else if d == 6 {
        '6'
    } else if d == 7 {
        '7'
    } else if d == 8 {
        '8'
    } else {
        '9'
    }
}

/// The decimal rendering of a nonnegative number.
pub open spec fn sp_dec(n: int) -> Seq<char>
    decreases n,
    when 0 <= n
{
    if n < 10 {
        seq![digit_char(n)]
    } else {
        sp_dec(n / 10) + seq![digit_char(n % 10)]
    }
}

/// The comma-separated pieces of `s` from `pos` on, each trimmed. A string
/// without a comma is a single piece; an empty string is one empty piece.
pub open spec fn sp_split_from(s: Seq<char>, pos: int) -> Seq<Seq<char>>
    decreases s.len() - pos,
    when 0 <= pos <= s.len()
{
    match find_at(s, pos, ","@) {
        Some(j) => {
            proof {
                reveal_strlit(",");
                lemma_find_at(s, pos, ","@);
            }
            seq![trim(s.subrange(pos, j))] + sp_split_from(s, j + 1)
        },
        None => seq![trim(s.subrange(pos, s.len() as int))],
    }
}

/// The comma-separated pieces of `s`, each trimmed.
pub open spec fn sp_split_commas(s: Seq<char>) -> Seq<Seq<char>> {
    sp_split_from(s, 0)
}

/// The list-item lines of an unordered list, in order.
pub open spec fn sp_list_html(items: Seq<Seq<char>>) -> Seq<char>
    decreases items.len(),
{
    if items.len() == 0 {
        Seq::empty()
    } else {
        "  <li>"@ + items[0] + "</li>\n"@ + sp_list_html(items.drop_first())
    }
}

/// What one node adds to the artifact triple.
pub open spec fn sp_gen_step(acc: GenOut, node: Node) -> GenOut {
    match node {
        Node::Import(it) => match it {
            Import::Named(c, p) => GenOut {
                html: acc.html,
                imports: acc.imports + seq!["import { "@ + c + " } from '"@ + p + "';"@],
                components: acc.components + sp_split_commas(c),
            },
            Import::Default(c, p) => GenOut {
                html: acc.html,
                imports: acc.imports + seq!["import "@ + c + " from '"@ + p + "';"@],
                components: acc.components + seq![c],
            },
        },
        Node::Heading(l, t) => GenOut {
            html: acc.html + "<h"@ + sp_dec(l as int) + ">"@ + t + "</h"@ + sp_dec(l as int)
                + ">\n"@,
            imports: acc.imports,
            components: acc.components,
        },
        Node::Paragraph(t) => GenOut {
            html: acc.html + "<p>"@ + t + "</p>\n"@,
            imports: acc.imports,
            components: acc.components,
        },
        Node::CodeBlock(c, l) => GenOut {
            html: acc.html + "<pre><code class=\"language-"@ + l + "\">"@ + c + "</code></pre>\n"@,
            imports: acc.imports,
            components: acc.components,
        },
        Node::Text(t) => GenOut {
            html: acc.html + t + "\n"@,
            imports: acc.imports,
            components: acc.components,
        },
        Node::Strong(t) => GenOut {
            html: acc.html + "<strong>"@ + t + "</strong>"@,
            imports: acc.imports,
            components: acc.components,
        },
        Node::Emphasis(t) => GenOut {
            html: acc.html + "<em>"@ + t + "</em>"@,
            imports: acc.imports,
            components: acc.components,
        },
        Node::Code(t) => GenOut {
            html: acc.html + "<code>"@ + t + "</code>"@,
            imports: acc.imports,
            components: acc.components,
        },
        Node::Link(t, u) => GenOut {
            html: acc.html + "<a href=\""@ + u + "\">"@ + t + "</a>"@,
            imports: acc.imports,
            components: acc.components,
        },
        Node::Image(a, u) => GenOut {
            html: acc.html + "<img src=\""@ + u + "\" alt=\""@ + a + "\">"@,
            imports: acc.imports,
            components: acc.components,
        },
        Node::List(items) => GenOut {
            html: acc.html + "<ul>\n"@ + sp_list_html(items) + "</ul>\n"@,
            imports: acc.imports,
            components: acc.components,
        },
        Node::BlockQuote(t) => GenOut {
            html: acc.html + "<blockquote>"@ + t + "</blockquote>\n"@,
            imports: acc.imports,
            components: acc.components,
        },
        Node::ReactComponent(name) => GenOut {
            html: acc.html + "<"@ + name + "></"@ + name + ">\n"@,
            imports: acc.imports,
            components: if acc.components.contains(name) {
                acc.components
            } else {
                acc.components.push(name)
            },
        },
        Node::Whitespace(_) => acc,
    }
}

/// The artifact triple after generating every node, left to right.
pub open spec fn sp_gen_from(nodes: Seq<Node>, acc: GenOut) -> GenOut
    decreases nodes.len(),
{
    if nodes.len() == 0 {
        acc
    } else {
        sp_gen_from(nodes.drop_first(), sp_gen_step(acc, nodes[0]))
    }
}

/// The artifact triple of a node sequence.
pub open spec fn sp_generate(nodes: Seq<Node>) -> GenOut {
    sp_gen_from(nodes, empty_out())
}

fn digit_str(d: u8) -> (r: &'static str)
    requires
        d < 10,
    ensures
        r@ == seq![digit_char(d as int)],
{
    if d == 0 {
        proof {
            reveal_strlit("0");
            assert("0"@ =~= seq![digit_char(0)]);
        }
        "0"
    } else if d == 1 {
        proof {
            reveal_strlit("1");
            assert("1"@ =~= seq![digit_char(1)]);
        }
        "1"
    } else if d == 2 {
        proof {
            reveal_strlit("2");
            assert("2"@ =~= seq![digit_char(2)]);
        }
        "2"
    } else if d == 3 {
        proof {
            reveal_strlit("3");
            assert("3"@ =~= seq![digit_char(3)]);
        }
        "3"
    } else if d == 4 {
        proof {
            reveal_strlit("4");
            assert("4"@ =~= seq![digit_char(4)]);
        }
        "4"
    } else if d == 5 {
        proof {
            reveal_strlit("5");
            assert("5"@ =~= seq![digit_char(5)]);
        }
        "5"
    } else if d == 6 {
        proof {
            reveal_strlit("6");
            assert("6"@ =~= seq![digit_char(6)]);
        }
        "6"
    } else if d == 7 {
        proof {
            reveal_strlit("7");
            assert("7"@ =~= seq![digit_char(7)]);
        }
        "7"
    } else if d == 8 {
        proof {
            reveal_strlit("8");
            assert("8"@ =~= seq![digit_char(8)]);
        }
        "8"
    } else {
        proof {
            reveal_strlit("9");
            assert("9"@ =~= seq![digit_char(9)]);
        }
        "9"
    }
}

/// Appends the decimal rendering of `n` to `out`.
fn append_u8_dec(out: &mut String, n: u8)
    ensures
        final(out)@ == old(out)@ + sp_dec(n as int),
{
    let ghost base = old(out)@;
    if n >= 100 {
        out.append(digit_str(n / 100));
        out.append(digit_str((n / 10) % 10));
        out.append(digit_str(n % 10));
        proof {
            reveal_with_fuel(sp_dec, 4);
            vstd::arithmetic::div_mod::lemma_div_denominator(n as int, 10, 10);
            assert(n as int / 10 >= 10);
            assert(n as int / 100 < 10);
            assert(sp_dec(n as int / 100) == seq![digit_char(n as int / 100)]);
            assert(sp_dec(n as int / 10) == sp_dec(n as int / 100) + seq![
                digit_char((n as int / 10) % 10),
            ]);
            assert(sp_dec(n as int) == sp_dec(n as int / 10) + seq![digit_char(n as int % 10)]);
            assert(out@ == ((base + seq![digit_char(n as int / 100)]) + seq![
                digit_char((n as int / 10) % 10),
            ]) + seq![digit_char(n as int % 10)]);
            assert(sp_dec(n as int) == (seq![digit_char(n as int / 100)] + seq![
                digit_char((n as int / 10) % 10),
            ]) + seq![digit_char(n as int % 10)]);
            assert(((base + seq![digit_char(n as int / 100)]) + seq![
                digit_char((n as int / 10) % 10),
            ]) + seq![digit_char(n as int % 10)] =~= base + ((seq![digit_char(n as int / 100)]
                + seq![digit_char((n as int / 10) % 10)]) + seq![digit_char(n as int % 10)]));
            assert(out@ == base + sp_dec(n as int));
        }
    } else if n >= 10 {
        out.append(digit_str(n / 10));
        out.append(digit_str(n % 10));
        proof {
            reveal_with_fuel(sp_dec, 3);
            assert(n as int / 10 < 10);
            assert(sp_dec(n as int / 10) == seq![digit_char(n as int / 10)]);
            assert(sp_dec(n as int) == sp_dec(n as int / 10) + seq![digit_char(n as int % 10)]);
            assert(out@ =~= base + sp_dec(n as int));
        }
    } else {
        out.append(digit_str(n));
        proof {
            assert(out@ =~= base + sp_dec(n as int));
        }
    }
}

/// Splits on commas and trims each piece, as an import's binding list is
/// turned into individual bindings.
pub fn split_commas_trimmed(s: &str) -> (r: Vec<String>)
    ensures
        r.deep_view() == sp_split_commas(s@),
{
    let n = crate::text::char_len(s);
    let mut pieces: Vec<String> = Vec::new();
    let mut pos: usize = 0;
    proof {
        assert(pieces.deep_view() + sp_split_from(s@, 0) =~= sp_split_from(s@, 0));
    }
    loop
        invariant
            pos <= n,
            n == s@.len(),
            sp_split_commas(s@) == pieces.deep_view() + sp_split_from(s@, pos as int),
        decreases n - pos,
    {
        proof {
            reveal_strlit(",");
        }
        let ghost old_dv = pieces.deep_view();
        match crate::text::find_from(s, pos, ",") {
            Some(j) => {
                let piece = crate::text::copy_trimmed(s, pos, j);
                let ghost piece_view = piece@;
                pieces.push(piece);
                proof {
                    assert(sp_split_from(s@, pos as int) == seq![piece_view] + sp_split_from(
                        s@,
                        j + 1,
                    ));
                    assert(pieces.deep_view() =~= old_dv + seq![piece_view]);
                    assert((old_dv + seq![piece_view]) + sp_split_from(s@, j + 1) =~= old_dv + (
                    seq![piece_view] + sp_split_from(s@, j + 1)));
                }
                pos = j + 1;
            },
            None => {
                let piece = crate::text::copy_trimmed(s, pos, n);
                let ghost piece_view = piece@;
                pieces.push(piece);
                proof {
                    assert(sp_split_from(s@, pos as int) == seq![piece_view]);
                    assert(pieces.deep_view() =~= old_dv + seq![piece_view]);
                }
                return pieces;
            },
        }
    }
}

/// Whether `x` already occurs among the collected bindings.
fn contains_str(v: &Vec<String>, x: &String) -> (b: bool)
    ensures
        b == v.deep_view().contains(x@),
{
    let n = v.len();
    let mut i: usize = 0;
    while i < n
        invariant
            i <= n,
            n == v.len(),
            forall|k: int| 0 <= k < i ==> v.deep_view()[k] != x@,
        decreases n - i,
    {
        if v[i].eq(x) {
            proof {
                assert(v.deep_view().contains(x@)) by {
                    assert(v.deep_view()[i as int] == x@);
                }
            }
            return true;
        }
        i = i + 1;
    }
    proof {
        assert(!v.deep_view().contains(x@)) by {
            if v.deep_view().contains(x@) {
                let k = choose|k: int| 0 <= k < v.deep_view().len() && v.deep_view()[k] == x@;
                assert(v.deep_view()[k] != x@);
            }
        }
    }
    false
}

/// Splitting a list of items splits its rendering.
proof fn lemma_list_html_concat(a: Seq<Seq<char>>, b: Seq<Seq<char>>)
    ensures
        sp_list_html(a + b) == sp_list_html(a) + sp_list_html(b),
    decreases a.len(),
{
    if a.len() == 0 {
        assert(a + b =~= b);
        assert(sp_list_html(a) + sp_list_html(b) =~= sp_list_html(b));
    } else {
        lemma_list_html_concat(a.drop_first(), b);
        assert((a + b).drop_first() =~= a.drop_first() + b);
        assert((a + b)[0] == a[0]);
        assert(sp_list_html(a + b) =~= sp_list_html(a) + sp_list_html(b));
    }
}

/// Renders one node into the artifact triple being built.
pub(crate) fn gen_node(
    html: &mut String,
    imports: &mut Vec<String>,
    components: &mut Vec<String>,
    node: &ASTNode,
)
    ensures
        final(html)@ == sp_gen_step(
            (GenOut {
                html: old(html)@,
                imports: old(imports).deep_view(),
                components: old(components).deep_view(),
            }),
            node@,
        ).html,
        final(imports).deep_view() == sp_gen_step(
            (GenOut {
                html: old(html)@,
                imports: old(imports).deep_view(),
                components: old(components).deep_view(),
            }),
            node@,
        ).imports,
        final(components).deep_view() == sp_gen_step(
            (GenOut {
                html: old(html)@,
                imports: old(imports).deep_view(),
                components: old(components).deep_view(),
            }),
            node@,
        ).components,
{
    let ghost acc0 = (GenOut {
        html: old(html)@,
        imports: old(imports).deep_view(),
        components: old(components).deep_view(),
    });
    let ghost g = sp_gen_step(acc0, node@);
    match node {
        ASTNode::Import(it) => {
            match it {
                ImportType::Named(c, p) => {
                    let mut line = String::from_str("import { ");
                    line.append(c.as_str());
                    line.append(" } from '");
                    line.append(p.as_str());
                    line.append("';");
                    let ghost line_view = line@;
                    imports.push(line);
                    let mut split = split_commas_trimmed(c.as_str());
                    let ghost split_dv = split.deep_view();
                    components.append(&mut split);
                    proof {
                        assert(line_view =~= "import { "@ + c@ + " } from '"@ + p@ + "';"@);
                        assert(imports.deep_view() =~= acc0.imports + seq![line_view]);
                        assert(components.deep_view() =~= acc0.components + split_dv);
                    }
                },
                ImportType::Default(c, p) => {
                    let mut line = String::from_str("import ");
                    line.append(c.as_str());
                    line.append(" from '");
                    line.append(p.as_str());
                    line.append("';");
                    let ghost line_view = line@;
                    imports.push(line);
                    components.push(c.clone());
                    proof {
                        assert(line_view =~= "import "@ + c@ + " from '"@ + p@ + "';"@);
                        assert(imports.deep_view() =~= acc0.imports + seq![line_view]);
                        assert(components.deep_view() =~= acc0.components + seq![c@]);
                    }
                },
            }
        },
        ASTNode::Heading(l, t) => {
            html.append("<h");
            append_u8_dec(html, *l);
            html.append(">");
            html.append(t.as_str());
            html.append("</h");
            append_u8_dec(html, *l);
            html.append(">\n");
            proof {
                assert(html@ =~= g.html);
            }
        },
        ASTNode::Paragraph(t) => {
            html.append("<p>");
            html.append(t.as_str());
            html.append("</p>\n");
            proof {
                assert(html@ =~= g.html);
            }
        },
        ASTNode::CodeBlock(c, l) => {
            html.append("<pre><code class=\"language-");
            html.append(l.as_str());
            html.append("\">");
            html.append(c.as_str());
            html.append("</code></pre>\n");
            proof {
                assert(html@ =~= g.html);
            }
        },
        ASTNode::Text(t) => {
            html.append(t.as_str());
            html.append("\n");
            proof {
                assert(html@ =~= g.html);
            }
        },
        ASTNode::Strong(t) => {
            html.append("<strong>");
            html.append(t.as_str());
            html.append("</strong>");
            proof {
                assert(html@ =~= g.html);
            }
        },
        ASTNode::Emphasis(t) => {
            html.append("<em>");
            html.append(t.as_str());
            html.append("</em>");
            proof {
                assert(html@ =~= g.html);
            }
        },
        ASTNode::Code(t) => {
            html.append("<code>");
            html.append(t.as_str());
            html.append("</code>");
            proof {
                assert(html@ =~= g.html);
            }
        },
        ASTNode::Link(t, u) => {
            html.append("<a href=\"");
            html.append(u.as_str());
            html.append("\">");
            html.append(t.as_str());
            html.append("</a>");
            proof {
                assert(html@ =~= g.html);
            }
        },
        ASTNode::Image(a, u) => {
            html.append("<img src=\"");
            html.append(u.as_str());
            html.append("\" alt=\"");
            html.append(a.as_str());
            html.append("\">");
            proof {
                assert(html@ =~= g.html);
            }
        },
        ASTNode::List(items) => {
            let ghost h0 = html@;
            let ghost items_dv = items.deep_view();
            html.append("<ul>\n");
            let n2 = items.len();
            let mut k: usize = 0;
            proof {
                assert(items_dv.subrange(0, 0) =~= Seq::<Seq<char>>::empty());
                assert(html@ =~= h0 + "<ul>\n"@ + sp_list_html(items_dv.subrange(0, 0)));
            }
            while k < n2
                invariant
                    k <= n2,
                    n2 == items.len(),
                    items_dv == items.deep_view(),
                    html@ == h0 + "<ul>\n"@ + sp_list_html(items_dv.subrange(0, k as int)),
                decreases n2 - k,
            {
                html.append("  <li>");
                html.append(items[k].as_str());
                html.append("</li>\n");
                proof {
                    lemma_list_html_concat(
                        items_dv.subrange(0, k as int),
                        seq![items_dv[k as int]],
                    );
                    assert(items_dv.subrange(0, k as int) + seq![items_dv[k as int]]
                        =~= items_dv.subrange(0, k + 1));
                    reveal_with_fuel(sp_list_html, 3);
                    assert(seq![items_dv[k as int]].drop_first() =~= Seq::<Seq<char>>::empty());
                    assert(sp_list_html(Seq::<Seq<char>>::empty()) == Seq::<char>::empty());
                    assert(sp_list_html(seq![items_dv[k as int]]) =~= "  <li>"@
                        + items_dv[k as int] + "</li>\n"@);
                    assert(html@ =~= h0 + "<ul>\n"@ + sp_list_html(items_dv.subrange(0, k + 1)));
                }
                k = k + 1;
            }
            html.append("</ul>\n");
            proof {
                assert(items_dv.subrange(0, n2 as int) =~= items_dv);
                assert(html@ =~= g.html);
            }
        },
        ASTNode::BlockQuote(t) => {
            html.append("<blockquote>");
            html.append(t.as_str());
            html.append("</blockquote>\n");
            proof {
                assert(html@ =~= g.html);
            }
        },
        ASTNode::ReactComponent(name) => {
            let fresh = !contains_str(components, name);
            html.append("<");
            html.append(name.as_str());
            html.append("></");
            html.append(name.as_str());
            html.append(">\n");
            if fresh {
                components.push(name.clone());
                proof {
                    assert(components.deep_view() =~= acc0.components.push(name@));
                }
            }
            proof {
                assert(html@ =~= g.html);
            }
        },
        ASTNode::Whitespace(_) => {},
    }
}

} // verus!
