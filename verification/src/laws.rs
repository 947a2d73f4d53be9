//! Global laws of the grammar and the generator, proved once for every
//! input: what a document of heading lines compiles to, that a document
//! opening a code fence it never closes is rejected whole, and how the
//! binding list treats duplicates.

use vstd::prelude::*;

use crate::codegen::empty_out;
use crate::codegen::sp_dec;
use crate::codegen::sp_gen_from;
use crate::codegen::sp_gen_step;
use crate::codegen::sp_generate;
use crate::codegen::GenOut;
use crate::grammar::sp_alt;
use crate::grammar::sp_blockquote;
use crate::grammar::sp_code;
use crate::grammar::sp_code_block;
use crate::grammar::sp_component;
use crate::grammar::sp_emphasis;
use crate::grammar::sp_heading;
use crate::grammar::sp_image;
use crate::grammar::sp_import;
use crate::grammar::sp_link;
use crate::grammar::sp_list;
use crate::grammar::sp_paragraph;
use crate::grammar::sp_parse;
use crate::grammar::sp_parse_loop;
use crate::grammar::sp_strong;
use crate::grammar::sp_text;
use crate::parser::Import;
use crate::parser::Node;
use crate::text::alnum_char;
use crate::text::find_at;
use crate::text::hash_pred;
use crate::text::last_non_ws;
use crate::text::lemma_find_at;
use crate::text::lemma_find_at_is;
use crate::text::lemma_find_at_none;
use crate::text::lemma_last_non_ws;
use crate::text::lemma_last_non_ws_agrees;
use crate::text::lemma_run_end;
use crate::text::lemma_run_end_agrees;
use crate::text::matches_at;
use crate::text::nl_run_end;
use crate::text::run_end;
use crate::text::skip_ws;
use crate::text::space_pred;
use crate::text::trim;
use crate::text::ws_char;
use crate::text::ws_pred;

verus! {

/// If a pattern occurs at a position, the character there is the pattern's
/// first character.
proof fn lemma_matches_first(s: Seq<char>, p: int, pat: Seq<char>)
    requires
        matches_at(s, p, pat),
        pat.len() > 0,
    ensures
        s[p] == pat[0],
{
    assert(s.subrange(p, p + pat.len())[0] == s[p]);
}

/// A sequence without leading or trailing whitespace is its own trim.
proof fn lemma_trim_identity(t: Seq<char>)
    requires
        t.len() == 0 || (!ws_char(t[0]) && !ws_char(t[t.len() - 1])),
    ensures
        trim(t) == t,
{
    lemma_run_end_agrees(t, 0, ws_pred(), 0);
    lemma_last_non_ws_agrees(t, t.len() as int);
    assert(trim(t) =~= t);
}

/// At a position that starts an ordinary text character — no marker, no
/// keyword start, no delimiter — and from which no line break precedes the
/// trailing-whitespace region, every recognizer fails.
proof fn lemma_alt_none_plain(s: Seq<char>, p: int)
    requires
        0 <= p < s.len(),
        !ws_char(s[p]),
        s[p] != 'i' && s[p] != '[' && s[p] != '`' && s[p] != '#' && s[p] != '<',
        s[p] != '-' && s[p] != '*' && s[p] != '!' && s[p] != '>',
        forall|k: int| p <= k < last_non_ws(s) ==> s[k] != '\n',
    ensures
        sp_alt(s, p) is None,
{
    reveal_strlit("import");
    reveal_strlit("```");
    reveal_strlit("- ");
    reveal_strlit("* ");
    reveal_strlit("**");
    reveal_strlit("\n");
    reveal_strlit("\n\n");
    lemma_last_non_ws(s);
    let t = last_non_ws(s);
    assert(sp_import(s, p) is None) by {
        if matches_at(s, p, "import"@) {
            lemma_matches_first(s, p, "import"@);
        }
    }
    assert(sp_link(s, p) is None);
    assert(sp_code_block(s, p) is None) by {
        if matches_at(s, p, "```"@) {
            lemma_matches_first(s, p, "```"@);
        }
    }
    assert(sp_heading(s, p) is None) by {
        assert(run_end(s, p, hash_pred()) == p);
    }
    assert(sp_component(s, p) is None);
    assert(sp_list(s, p) is None) by {
        assert(nl_run_end(s, p) == p);
        assert(run_end(s, p, space_pred()) == p);
        if matches_at(s, p, "- "@) {
            lemma_matches_first(s, p, "- "@);
        }
        if matches_at(s, p, "* "@) {
            lemma_matches_first(s, p, "* "@);
        }
    }
    assert(sp_paragraph(s, p) is None) by {
        lemma_find_at(s, p, "\n\n"@);
        match find_at(s, p, "\n\n"@) {
            Some(b) => {
                lemma_matches_first(s, b, "\n\n"@);
                assert(s[b] == '\n');
                assert(b >= t);
            },
            None => {},
        }
    }
    assert(sp_text(s, p) is None) by {
        lemma_find_at(s, p, "\n"@);
        match find_at(s, p, "\n"@) {
            Some(j) => {
                lemma_matches_first(s, j, "\n"@);
                assert(s[j] == '\n');
                assert(j >= t);
            },
            None => {},
        }
    }
    assert(sp_code(s, p) is None);
    assert(sp_emphasis(s, p) is None);
    assert(sp_strong(s, p) is None) by {
        if matches_at(s, p, "**"@) {
            lemma_matches_first(s, p, "**"@);
        }
    }
    assert(sp_image(s, p) is None);
    assert(sp_blockquote(s, p) is None);
}

/// One line of ordinary content: nonempty, starting with a character that
/// opens no construct, and free of line breaks and backticks.
pub open spec fn plain_line_ok(line: Seq<char>) -> bool {
    &&& line.len() > 0
    &&& !ws_char(line[0])
    &&& line[0] != 'i' && line[0] != '[' && line[0] != '#' && line[0] != '<'
    &&& line[0] != '-' && line[0] != '*' && line[0] != '!' && line[0] != '>'
    &&& (forall|i: int| 0 <= i < line.len() ==> #[trigger] line[i] != '\n' && line[i] != '`')
}

/// The given lines, each terminated by a line break.
pub open spec fn plain_lines(ls: Seq<Seq<char>>) -> Seq<char>
    decreases ls.len(),
{
    if ls.len() == 0 {
        Seq::empty()
    } else {
        ls[0] + seq!['\n'] + plain_lines(ls.drop_first())
    }
}

proof fn lemma_body_shape(ls: Seq<Seq<char>>, last: Seq<char>)
    requires
        forall|i: int| 0 <= i < ls.len() ==> plain_line_ok(#[trigger] ls[i]),
        plain_line_ok(last),
    ensures
        ({
            let b = plain_lines(ls) + last;
            &&& b.len() >= 1
            &&& !ws_char(b[0])
            &&& b[0] != 'i' && b[0] != '[' && b[0] != '#' && b[0] != '<'
            &&& b[0] != '-' && b[0] != '*' && b[0] != '!' && b[0] != '>'
            &&& (forall|o: int| 0 <= o < b.len() ==> #[trigger] b[o] != '`')
            &&& (forall|o: int|
                0 <= o < b.len() && #[trigger] b[o] == '\n' ==> o + 1 < b.len() && !ws_char(
                    b[o + 1],
                ))
        }),
    decreases ls.len(),
{
    let b = plain_lines(ls) + last;
    if ls.len() == 0 {
        assert(b =~= last);
    } else {
        let line = ls[0];
        let rest = ls.drop_first();
        assert forall|i: int| 0 <= i < rest.len() implies plain_line_ok(#[trigger] rest[i]) by {
            assert(rest[i] == ls[i + 1]);
        }
        lemma_body_shape(rest, last);
        let b2 = plain_lines(rest) + last;
        assert(b =~= line + seq!['\n'] + b2);
        assert forall|o: int| 0 <= o < b.len() implies #[trigger] b[o] != '`' by {
            if o < line.len() {
                assert(b[o] == line[o]);
            } else if o == line.len() {
                assert(b[o] == '\n');
            } else {
                assert(b[o] == b2[o - line.len() - 1]);
            }
        }
        assert forall|o: int| 0 <= o < b.len() && #[trigger] b[o] == '\n' implies o + 1 < b.len()
            && !ws_char(b[o + 1]) by {
            if o < line.len() {
                assert(b[o] == line[o]);
                assert(false);
            } else if o == line.len() {
                assert(b[o + 1] == b2[0]);
            } else {
                assert(b[o] == b2[o - line.len() - 1]);
                assert(b[o + 1] == b2[o - line.len()]);
            }
        }
    }
}

/// Once the dispatcher stands at ordinary content lines followed only by
/// whitespace, it absorbs the lines one by one as plain text and then gets
/// stuck: the parse always ends in rejection.
#[verifier::rlimit(80)]
proof fn lemma_parse_stuck_after_plain(s: Seq<char>, pos: int, ls: Seq<Seq<char>>, last: Seq<char>)
    requires
        0 <= pos <= s.len(),
        forall|i: int| 0 <= i < ls.len() ==> plain_line_ok(#[trigger] ls[i]),
        plain_line_ok(last),
        pos + (plain_lines(ls) + last).len() <= s.len(),
        s.subrange(pos, pos + (plain_lines(ls) + last).len()) == plain_lines(ls) + last,
        forall|k: int| pos + (plain_lines(ls) + last).len() <= k < s.len() ==> ws_char(
            #[trigger] s[k],
        ),
    ensures
        sp_parse_loop(s, pos) is Err,
    decreases ls.len(),
{
    reveal_strlit("import");
    reveal_strlit("```");
    reveal_strlit("- ");
    reveal_strlit("* ");
    reveal_strlit("\n");
    reveal_strlit("\n\n");
    let body = plain_lines(ls) + last;
    lemma_body_shape(ls, last);
    assert forall|k: int| pos <= k < pos + body.len() implies #[trigger] s[k] == body[k - pos] by {
        assert(s.subrange(pos, pos + body.len())[k - pos] == s[k]);
    }
    lemma_last_non_ws(s);
    let t = last_non_ws(s);
    assert(t <= pos + body.len()) by {
        if t > pos + body.len() {
            assert(ws_char(s[t - 1]));
        }
    }
    if ls.len() == 0 {
        assert(body =~= last);
        assert(s[pos] == last[0]);
        assert(skip_ws(s, pos) == pos);
        assert forall|k: int| pos <= k < t implies s[k] != '\n' by {
            assert(s[k] == body[k - pos]);
        }
        lemma_alt_none_plain(s, pos);
        assert(sp_parse_loop(s, pos) == Err::<Seq<Node>, int>(pos));
    } else {
        let line = ls[0];
        let rest = ls.drop_first();
        assert forall|i: int| 0 <= i < rest.len() implies plain_line_ok(#[trigger] rest[i]) by {
            assert(rest[i] == ls[i + 1]);
        }
        lemma_body_shape(rest, last);
        let body2 = plain_lines(rest) + last;
        assert(plain_lines(ls) == line + seq!['\n'] + plain_lines(rest));
        assert(body =~= line + seq!['\n'] + body2);
        let le = pos + line.len();
        let ns = le + 1;
        assert forall|k: int| pos <= k < le implies #[trigger] s[k] == line[k - pos] by {
            assert(body[k - pos] == line[k - pos]);
        }
        assert(s[le] == '\n') by {
            assert(body[line.len() as int] == '\n');
        }
        assert(s[ns] == body2[0]) by {
            assert(body[line.len() as int + 1] == body2[0]);
        }
        assert(t >= ns + 1) by {
            if t <= ns {
                assert(ws_char(s[ns]));
            }
        }
        assert(skip_ws(s, pos) == pos);
        // Everything ahead of plain text in priority order fails here.
        assert(sp_import(s, pos) is None) by {
            if matches_at(s, pos, "import"@) {
                lemma_matches_first(s, pos, "import"@);
            }
        }
        assert(sp_link(s, pos) is None);
        assert(sp_code_block(s, pos) is None) by {
            if matches_at(s, pos, "```"@) {
                lemma_matches_first(s, pos, "```"@);
            }
        }
        assert(sp_heading(s, pos) is None) by {
            assert(run_end(s, pos, hash_pred()) == pos);
        }
        assert(sp_component(s, pos) is None);
        assert(sp_list(s, pos) is None) by {
            assert(nl_run_end(s, pos) == pos);
            assert(run_end(s, pos, space_pred()) == pos);
            if matches_at(s, pos, "- "@) {
                lemma_matches_first(s, pos, "- "@);
            }
            if matches_at(s, pos, "* "@) {
                lemma_matches_first(s, pos, "* "@);
            }
        }
        assert(sp_paragraph(s, pos) is None) by {
            lemma_find_at(s, pos, "\n\n"@);
            match find_at(s, pos, "\n\n"@) {
                Some(b) => {
                    lemma_matches_first(s, b, "\n\n"@);
                    assert(s.subrange(b, b + 2)[1] == s[b + 1]);
                    assert(s[b] == '\n' && s[b + 1] == '\n');
                    if b < pos + body.len() {
                        assert(body[b - pos] == '\n');
                        assert(s[b + 1] == body[b - pos + 1]);
                        assert(false);
                    }
                    assert(b >= t);
                },
                None => {},
            }
        }
        // Plain text absorbs the first line, line break included.
        assert(sp_text(s, pos) == Some((Node::Text(trim(s.subrange(pos, le))), ns))) by {
            assert(matches_at(s, le, "\n"@)) by {
                assert(s.subrange(le, le + 1) =~= "\n"@);
            }
            assert forall|k: int| pos <= k < le implies !matches_at(s, k, "\n"@) by {
                if matches_at(s, k, "\n"@) {
                    lemma_matches_first(s, k, "\n"@);
                }
            }
            lemma_find_at_is(s, pos, "\n"@, le);
            assert(le < t);
        }
        assert(sp_alt(s, pos) == Some((Node::Text(trim(s.subrange(pos, le))), ns)));
        // The remaining lines put the dispatcher in the same position.
        assert(s.subrange(ns, ns + body2.len()) =~= body2) by {
            assert forall|k: int| ns <= k < ns + body2.len() implies #[trigger] s[k] == body2[k
                - ns] by {
                assert(body[k - pos] == body2[k - pos - line.len() - 1]);
            }
        }
        lemma_parse_stuck_after_plain(s, ns, rest, last);
        assert(sp_parse_loop(s, pos) is Err);
    }
}

/// Law: a document that opens a fenced code block and never closes the
/// fence is rejected as a whole — there is never a partial tree. The
/// document here is an opening fence with its language tag, any number of
/// lines of ordinary content, and trailing whitespace; nothing after the
/// opening fence holds a backtick, so no closing fence exists.
pub proof fn lemma_unterminated_fence(
    lang: Seq<char>,
    ls: Seq<Seq<char>>,
    last: Seq<char>,
    tail: Seq<char>,
)
    requires
        forall|i: int| 0 <= i < lang.len() ==> alnum_char(#[trigger] lang[i]),
        forall|i: int| 0 <= i < ls.len() ==> plain_line_ok(#[trigger] ls[i]),
        plain_line_ok(last),
        forall|i: int| 0 <= i < tail.len() ==> ws_char(#[trigger] tail[i]),
    ensures
        sp_parse("```"@ + lang + seq!['\n'] + plain_lines(ls) + last + tail) is Err,
{
    reveal_strlit("```");
    reveal_strlit("\n");
    reveal_strlit("\n\n");
    reveal_strlit("import");
    reveal_strlit("- ");
    reveal_strlit("* ");
    let s = "```"@ + lang + seq!['\n'] + plain_lines(ls) + last + tail;
    let body = plain_lines(ls) + last;
    lemma_body_shape(ls, last);
    let ll = lang.len() as int;
    let l1 = 3 + ll;
    let bs = l1 + 1;
    let ts = bs + body.len() as int;
    assert(s.len() == ts + tail.len());
    assert(alnum_char('\n') == false);
    assert(ws_char('`') == false);
    assert forall|k: int| 0 <= k < 3 implies s[k] == '`' by {
        assert(s[k] == "```"@[k]);
    }
    assert forall|k: int| 3 <= k < l1 implies s[k] == lang[k - 3] by {}
    assert(s[l1] == '\n');
    assert forall|k: int| bs <= k < ts implies #[trigger] s[k] == body[k - bs] by {}
    assert forall|k: int| ts <= k < s.len() implies ws_char(#[trigger] s[k]) by {
        assert(s[k] == tail[k - ts]);
    }
    lemma_last_non_ws(s);
    let t = last_non_ws(s);
    assert(t <= ts) by {
        if t > ts {
            assert(ws_char(s[t - 1]));
        }
    }
    assert(t > bs) by {
        if t <= bs {
            assert(ws_char(s[bs]));
        }
    }
    // The first attempt reads the fence line as plain text.
    assert(skip_ws(s, 0) == 0);
    assert(sp_import(s, 0) is None) by {
        if matches_at(s, 0, "import"@) {
            lemma_matches_first(s, 0, "import"@);
        }
    }
    assert(sp_link(s, 0) is None);
    assert(matches_at(s, 0, "```"@)) by {
        assert(s.subrange(0, 3) =~= "```"@);
    }
    assert(sp_code_block(s, 0) is None) by {
        lemma_run_end_agrees(s, 3, crate::text::alnum_pred(), l1);
        assert forall|k: int| bs <= k implies !matches_at(s, k, "```"@) by {
            if matches_at(s, k, "```"@) {
                lemma_matches_first(s, k, "```"@);
                assert(s[k] == '`');
                assert(k < s.len());
            }
        }
        lemma_find_at_none(s, bs, "```"@);
    }
    assert(sp_heading(s, 0) is None) by {
        assert(run_end(s, 0, hash_pred()) == 0);
    }
    assert(sp_component(s, 0) is None);
    assert(sp_list(s, 0) is None) by {
        assert(nl_run_end(s, 0) == 0);
        assert(run_end(s, 0, space_pred()) == 0);
        if matches_at(s, 0, "- "@) {
            lemma_matches_first(s, 0, "- "@);
        }
        if matches_at(s, 0, "* "@) {
            lemma_matches_first(s, 0, "* "@);
        }
    }
    assert(sp_paragraph(s, 0) is None) by {
        lemma_find_at(s, 0, "\n\n"@);
        match find_at(s, 0, "\n\n"@) {
            Some(b) => {
                lemma_matches_first(s, b, "\n\n"@);
                assert(s.subrange(b, b + 2)[1] == s[b + 1]);
                assert(s[b] == '\n' && s[b + 1] == '\n');
                if b == l1 {
                    assert(s[b + 1] == body[0]);
                    assert(false);
                }
                if bs <= b && b < ts {
                    assert(body[b - bs] == '\n');
                    assert(s[b + 1] == body[b - bs + 1]);
                    assert(false);
                }
                assert(b >= t);
            },
            None => {},
        }
    }
    assert(sp_text(s, 0) == Some((Node::Text(trim(s.subrange(0, l1))), bs))) by {
        assert(matches_at(s, l1, "\n"@)) by {
            assert(s.subrange(l1, l1 + 1) =~= "\n"@);
        }
        assert forall|k: int| 0 <= k < l1 implies !matches_at(s, k, "\n"@) by {
            if matches_at(s, k, "\n"@) {
                lemma_matches_first(s, k, "\n"@);
            }
        }
        lemma_find_at_is(s, 0, "\n"@, l1);
        assert(l1 < t);
    }
    assert(sp_alt(s, 0) == Some((Node::Text(trim(s.subrange(0, l1))), bs)));
    // From the content on, the dispatcher absorbs lines and then rejects.
    assert(s.subrange(bs, bs + body.len()) =~= body);
    lemma_parse_stuck_after_plain(s, bs, ls, last);
    assert(sp_parse_loop(s, 0) is Err);
}

/// A run of `l` heading marker characters.
pub open spec fn marker(l: int) -> Seq<char>
    decreases l,
    when l >= 0
{
    if l <= 0 {
        Seq::empty()
    } else {
        marker(l - 1).push('#')
    }
}

proof fn lemma_marker(l: int)
    requires
        l >= 0,
    ensures
        marker(l).len() == l,
        forall|i: int| 0 <= i < l ==> marker(l)[i] == '#',
    decreases l,
{
    if l > 0 {
        lemma_marker(l - 1);
    }
}

/// A well-formed heading for the heading-document law: a level between one
/// and six, and a one-line text with no surrounding whitespace.
pub open spec fn heading_ok(h: (u8, Seq<char>)) -> bool {
    &&& 1 <= h.0 <= 6
    &&& (forall|i: int| 0 <= i < h.1.len() ==> #[trigger] h.1[i] != '\n' && h.1[i] != '\r')
    &&& (h.1.len() == 0 || (!ws_char(h.1[0]) && !ws_char(h.1[h.1.len() - 1])))
}

/// The source text of one heading line, blank-line terminated: the marker
/// run, one space, the text, and a blank line.
pub open spec fn heading_line(h: (u8, Seq<char>)) -> Seq<char> {
    marker(h.0 as int) + seq![' '] + h.1 + seq!['\n', '\n']
}

/// A document made of heading lines.
pub open spec fn heading_doc(hs: Seq<(u8, Seq<char>)>) -> Seq<char>
    decreases hs.len(),
{
    if hs.len() == 0 {
        Seq::empty()
    } else {
        heading_line(hs[0]) + heading_doc(hs.drop_first())
    }
}

/// The nodes such a document parses to: one heading per line, in order.
pub open spec fn heading_nodes(hs: Seq<(u8, Seq<char>)>) -> Seq<Node> {
    Seq::new(hs.len(), |i: int| Node::Heading(hs[i].0, hs[i].1))
}

/// The element one heading renders to.
pub open spec fn heading_html(h: (u8, Seq<char>)) -> Seq<char> {
    "<h"@ + sp_dec(h.0 as int) + ">"@ + h.1 + "</h"@ + sp_dec(h.0 as int) + ">\n"@
}

/// The fragment a sequence of headings renders to, in source order.
pub open spec fn headings_html(hs: Seq<(u8, Seq<char>)>) -> Seq<char>
    decreases hs.len(),
{
    if hs.len() == 0 {
        Seq::empty()
    } else {
        heading_html(hs[0]) + headings_html(hs.drop_first())
    }
}

#[verifier::rlimit(80)]
proof fn lemma_parse_heading_doc_from(s: Seq<char>, pos: int, hs: Seq<(u8, Seq<char>)>)
    requires
        0 <= pos <= s.len(),
        s.subrange(pos, s.len() as int) == heading_doc(hs),
        forall|i: int| 0 <= i < hs.len() ==> heading_ok(#[trigger] hs[i]),
    ensures
        sp_parse_loop(s, pos) == Ok::<Seq<Node>, int>(heading_nodes(hs)),
    decreases hs.len(),
{
    reveal_strlit("import");
    reveal_strlit("```");
    reveal_strlit("\n");
    if hs.len() == 0 {
        assert(s.len() == pos);
        assert(skip_ws(s, pos) == pos);
        assert(heading_nodes(hs) =~= Seq::<Node>::empty());
    } else {
        let h = hs[0];
        assert(heading_ok(h));
        let lvl = h.0 as int;
        let txt = h.1;
        let tlen = txt.len() as int;
        let bl = lvl + 1 + tlen + 2;
        lemma_marker(lvl);
        let rest = hs.drop_first();
        let rest_doc = heading_doc(rest);
        assert(heading_doc(hs) == heading_line(h) + rest_doc);
        assert(heading_line(h).len() == bl);
        assert(s.len() - pos == bl + rest_doc.len()) by {
            assert(s.subrange(pos, s.len() as int).len() == s.len() - pos);
        }
        assert forall|k: int| pos <= k < pos + bl implies #[trigger] s[k] == heading_line(h)[k
            - pos] by {
            assert(s.subrange(pos, s.len() as int)[k - pos] == s[k]);
            assert((heading_line(h) + rest_doc)[k - pos] == heading_line(h)[k - pos]);
        }
        assert forall|k: int| pos <= k < pos + lvl implies #[trigger] s[k] == '#' by {
            assert(heading_line(h)[k - pos] == marker(lvl)[k - pos]);
        }
        assert(s[pos + lvl] == ' ') by {
            assert(heading_line(h)[lvl] == ' ');
        }
        assert forall|k: int| pos + lvl + 1 <= k < pos + lvl + 1 + tlen implies #[trigger] s[k]
            == txt[k - (pos + lvl + 1)] by {
            assert(heading_line(h)[k - pos] == txt[k - pos - lvl - 1]);
        }
        assert(s[pos + bl - 2] == '\n') by {
            assert(heading_line(h)[bl - 2] == '\n');
        }
        assert(s[pos + bl - 1] == '\n') by {
            assert(heading_line(h)[bl - 1] == '\n');
        }
        // Whitespace skipping stops right at the marker.
        assert(skip_ws(s, pos) == pos);
        // The recognizers ahead of the heading in priority order all fail.
        assert(sp_import(s, pos) is None) by {
            if matches_at(s, pos, "import"@) {
                lemma_matches_first(s, pos, "import"@);
            }
        }
        assert(sp_link(s, pos) is None);
        assert(sp_code_block(s, pos) is None) by {
            if matches_at(s, pos, "```"@) {
                lemma_matches_first(s, pos, "```"@);
            }
        }
        // The heading recognizer consumes the line.
        let m = pos + lvl;
        lemma_run_end_agrees(s, pos, hash_pred(), m);
        let j = m + 1 + tlen;
        assert(matches_at(s, j, "\n"@)) by {
            assert(s.subrange(j, j + 1) =~= "\n"@);
        }
        assert forall|k: int| m + 1 <= k < j implies !matches_at(s, k, "\n"@) by {
            if matches_at(s, k, "\n"@) {
                lemma_matches_first(s, k, "\n"@);
                assert(s[k] == txt[k - (m + 1)]);
            }
        }
        lemma_find_at_is(s, m + 1, "\n"@, j);
        assert(s.subrange(m + 1, j) =~= txt);
        lemma_trim_identity(txt);
        assert(((m - pos) % 256) as u8 == h.0);
        let node = Node::Heading(h.0, txt);
        assert(sp_heading(s, pos) == Some((node, j + 1)));
        assert(sp_alt(s, pos) == Some((node, j + 1)));
        let e = j + 1;
        assert(e == pos + bl - 1);
        // After the heading, the blank line is skipped to the next block.
        assert(skip_ws(s, e) == pos + bl) by {
            if rest.len() == 0 {
                assert(rest_doc.len() == 0);
                lemma_run_end_agrees(s, e, ws_pred(), pos + bl);
            } else {
                assert(heading_ok(hs[1]));
                assert(rest[0] == hs[1]);
                assert(heading_doc(rest) == heading_line(rest[0]) + heading_doc(rest.drop_first()));
                lemma_marker(hs[1].0 as int);
                assert(rest_doc[0] == '#') by {
                    assert(heading_line(rest[0])[0] == marker(hs[1].0 as int)[0]);
                }
                assert(s[pos + bl] == '#') by {
                    assert(s.subrange(pos, s.len() as int)[bl] == s[pos + bl]);
                    assert((heading_line(h) + rest_doc)[bl] == rest_doc[0]);
                }
                lemma_run_end_agrees(s, e, ws_pred(), pos + bl);
            }
        }
        assert(skip_ws(s, pos + bl) == pos + bl) by {
            if rest.len() == 0 {
                assert(pos + bl == s.len());
            } else {
                lemma_run_end(s, pos + bl, ws_pred());
            }
        }
        // The rest of the document is again a heading document.
        assert(s.subrange(pos + bl, s.len() as int) =~= rest_doc) by {
            assert forall|k: int| pos + bl <= k < s.len() implies #[trigger] s[k] == rest_doc[k
                - pos - bl] by {
                assert(s.subrange(pos, s.len() as int)[k - pos] == s[k]);
                assert((heading_line(h) + rest_doc)[k - pos] == rest_doc[k - pos - bl]);
            }
        }
        assert forall|i: int| 0 <= i < rest.len() implies heading_ok(#[trigger] rest[i]) by {
            assert(rest[i] == hs[i + 1]);
        }
        lemma_parse_heading_doc_from(s, pos + bl, rest);
        assert(sp_parse_loop(s, e) == sp_parse_loop(s, pos + bl));
        assert(sp_parse_loop(s, pos) == Ok::<Seq<Node>, int>(
            seq![node] + heading_nodes(rest),
        ));
        assert(seq![node] + heading_nodes(rest) =~= heading_nodes(hs)) by {
            assert forall|i: int| 0 <= i < hs.len() implies (seq![node] + heading_nodes(rest))[i]
                == heading_nodes(hs)[i] by {
                if i > 0 {
                    assert(rest[i - 1] == hs[i]);
                }
            }
        }
    }
}

proof fn lemma_generate_headings_from(hs: Seq<(u8, Seq<char>)>, acc: GenOut)
    ensures
        sp_gen_from(heading_nodes(hs), acc) == (GenOut {
            html: acc.html + headings_html(hs),
            imports: acc.imports,
            components: acc.components,
        }),
    decreases hs.len(),
{
    let nodes = heading_nodes(hs);
    if hs.len() == 0 {
        assert(nodes =~= Seq::<Node>::empty());
        assert(acc.html + headings_html(hs) =~= acc.html);
    } else {
        assert(nodes[0] == Node::Heading(hs[0].0, hs[0].1));
        let acc1 = sp_gen_step(acc, nodes[0]);
        assert(acc1.html =~= acc.html + heading_html(hs[0]));
        assert(nodes.drop_first() =~= heading_nodes(hs.drop_first())) by {
            assert forall|i: int| 0 <= i < hs.len() - 1 implies nodes.drop_first()[i]
                == heading_nodes(hs.drop_first())[i] by {
                assert(nodes.drop_first()[i] == nodes[i + 1]);
                assert(hs.drop_first()[i] == hs[i + 1]);
            }
        }
        lemma_generate_headings_from(hs.drop_first(), acc1);
        assert((acc.html + heading_html(hs[0])) + headings_html(hs.drop_first()) =~= acc.html
            + headings_html(hs));
    }
}

/// Law: a document of well-formed heading lines, blank-line separated,
/// parses to exactly one heading node per line in source order, each level
/// the length of its marker run; generating from those nodes yields one
/// heading element per line in the same order, and no import declarations
/// and no component bindings.
pub proof fn lemma_heading_document(hs: Seq<(u8, Seq<char>)>)
    requires
        forall|i: int| 0 <= i < hs.len() ==> heading_ok(#[trigger] hs[i]),
    ensures
        sp_parse(heading_doc(hs)) == Ok::<Seq<Node>, int>(heading_nodes(hs)),
        sp_generate(heading_nodes(hs)).html == headings_html(hs),
        sp_generate(heading_nodes(hs)).imports == Seq::<Seq<char>>::empty(),
        sp_generate(heading_nodes(hs)).components == Seq::<Seq<char>>::empty(),
{
    let doc = heading_doc(hs);
    assert(doc.subrange(0, doc.len() as int) =~= doc);
    lemma_parse_heading_doc_from(doc, 0, hs);
    lemma_generate_headings_from(hs, empty_out());
    assert(empty_out().html + headings_html(hs) =~= headings_html(hs));
}

/// Whether a node sequence carries no import declarations.
pub open spec fn no_imports(nodes: Seq<Node>) -> bool {
    forall|i: int| 0 <= i < nodes.len() ==> !(#[trigger] nodes[i] is Import)
}

/// Whether every entry of a binding list occurs exactly once.
pub open spec fn distinct_entries(s: Seq<Seq<char>>) -> bool {
    forall|i: int, j: int| 0 <= i < j < s.len() ==> s[i] != s[j]
}

proof fn lemma_dedup_from(nodes: Seq<Node>, acc: GenOut)
    requires
        no_imports(nodes),
        distinct_entries(acc.components),
    ensures
        distinct_entries(sp_gen_from(nodes, acc).components),
    decreases nodes.len(),
{
    if nodes.len() > 0 {
        let acc1 = sp_gen_step(acc, nodes[0]);
        assert(distinct_entries(acc1.components)) by {
            match nodes[0] {
                Node::ReactComponent(name) => {
                    if !acc.components.contains(name) {
                        let c1 = acc.components.push(name);
                        assert forall|i: int, j: int| 0 <= i < j < c1.len() implies c1[i] != c1[j] by {
                            if j == c1.len() - 1 {
                                if acc.components[i] == name {
                                    assert(acc.components.contains(name));
                                }
                            }
                        }
                    }
                },
                _ => {},
            }
        }
        assert(no_imports(nodes.drop_first())) by {
            assert forall|i: int| 0 <= i < nodes.drop_first().len() implies !(#[trigger] nodes.drop_first()[i] is Import) by {
                assert(nodes.drop_first()[i] == nodes[i + 1]);
            }
        }
        lemma_dedup_from(nodes.drop_first(), acc1);
    }
}

/// Law: component-tag references are deduplicated. In a document whose
/// nodes carry no import declarations, the generated binding list holds
/// no entry twice — a component referenced many times appears once.
pub proof fn lemma_component_bindings_distinct(nodes: Seq<Node>)
    requires
        no_imports(nodes),
    ensures
        distinct_entries(sp_generate(nodes).components),
{
    lemma_dedup_from(nodes, empty_out());
}

/// Law: import-derived bindings are never deduplicated. Two default
/// imports of the same binding put it in the binding list twice — the
/// asymmetry with component tags is deliberate.
pub proof fn lemma_import_bindings_kept(c: Seq<char>, p: Seq<char>)
    ensures
        sp_generate(seq![Node::Import(Import::Default(c, p)), Node::Import(Import::Default(c, p))]).components
            == seq![c, c],
{
    let n = Node::Import(Import::Default(c, p));
    let nodes = seq![n, n];
    let acc1 = sp_gen_step(empty_out(), n);
    let acc2 = sp_gen_step(acc1, n);
    assert(nodes.drop_first() =~= seq![n]);
    assert(seq![n].drop_first() =~= Seq::<Node>::empty());
    assert(sp_gen_from(nodes, empty_out()) == sp_gen_from(seq![n], acc1));
    assert(sp_gen_from(seq![n], acc1) == sp_gen_from(Seq::<Node>::empty(), acc2));
    assert(acc2.components =~= seq![c, c]);
}

} // verus!
