//! Character-sequence primitives the grammar is built from: character
//! classes, runs, literal matching, first-occurrence search, and trimming.

use vstd::prelude::*;
use vstd::string::StrSliceExecFns;
use vstd::string::StringExecFns;

verus! {

/// The whitespace characters the dispatcher skips and `trim` removes.
pub open spec fn ws_char(c: char) -> bool {
    c == ' ' || c == '\t' || c == '\r' || c == '\n'
}

/// Horizontal space: what may precede a list marker or follow a quote mark.
pub open spec fn space_char(c: char) -> bool {
    c == ' ' || c == '\t'
}

/// ASCII letters and digits: component names and code-fence language tags.
pub open spec fn alnum_char(c: char) -> bool {
    ('a' as u32 <= c as u32 && c as u32 <= 'z' as u32) || ('A' as u32 <= c as u32 && c as u32
        <= 'Z' as u32) || ('0' as u32 <= c as u32 && c as u32 <= '9' as u32)
}

/// The heading marker character.
pub open spec fn hash_char(c: char) -> bool {
    c == '#'
}

pub open spec fn ws_pred() -> spec_fn(char) -> bool {
    |c: char| ws_char(c)
}

pub open spec fn space_pred() -> spec_fn(char) -> bool {
    |c: char| space_char(c)
}

pub open spec fn alnum_pred() -> spec_fn(char) -> bool {
    |c: char| alnum_char(c)
}

pub open spec fn hash_pred() -> spec_fn(char) -> bool {
    |c: char| hash_char(c)
}

/// The end of the run of characters satisfying `pred` that starts at `i`.
pub open spec fn run_end(s: Seq<char>, i: int, pred: spec_fn(char) -> bool) -> int
    decreases s.len() - i,
    when 0 <= i <= s.len()
{
    if i == s.len() {
        i
    } else if pred(s[i]) {
        run_end(s, i + 1, pred)
    } else {
        i
    }
}

/// The position of the first character at or after `i` that is not whitespace.
pub open spec fn skip_ws(s: Seq<char>, i: int) -> int {
    run_end(s, i, ws_pred())
}

pub proof fn lemma_run_end(s: Seq<char>, i: int, pred: spec_fn(char) -> bool)
    requires
        0 <= i <= s.len(),
    ensures
        i <= run_end(s, i, pred) <= s.len(),
        forall|k: int| i <= k < run_end(s, i, pred) ==> pred(#[trigger] s[k]),
        run_end(s, i, pred) == s.len() || !pred(s[run_end(s, i, pred)]),
    decreases s.len() - i,
{
    if i < s.len() && pred(s[i]) {
        lemma_run_end(s, i + 1, pred);
    }
}

/// A position with the run-end properties is the run end.
pub proof fn lemma_run_end_agrees(s: Seq<char>, i: int, pred: spec_fn(char) -> bool, r: int)
    requires
        0 <= i <= r <= s.len(),
        forall|k: int| i <= k < r ==> pred(#[trigger] s[k]),
        r == s.len() || !pred(s[r]),
    ensures
        run_end(s, i, pred) == r,
{
    lemma_run_end(s, i, pred);
    let r0 = run_end(s, i, pred);
    if r0 < r {
        assert(pred(s[r0]));
        assert(false);
    }
    if r < r0 {
        assert(pred(s[r]));
        assert(false);
    }
}

/// Whether `pat` occurs in `s` starting exactly at position `i`.
pub open spec fn matches_at(s: Seq<char>, i: int, pat: Seq<char>) -> bool {
    0 <= i && i + pat.len() <= s.len() && s.subrange(i, i + pat.len()) == pat
}

/// The position of the first occurrence of `pat` in `s` at or after `i`.
pub open spec fn find_at(s: Seq<char>, i: int, pat: Seq<char>) -> Option<int>
    decreases s.len() - i,
    when 0 <= i <= s.len() && pat.len() > 0
{
    if i + pat.len() > s.len() {
        None
    } else if matches_at(s, i, pat) {
        Some(i)
    } else {
        find_at(s, i + 1, pat)
    }
}

pub proof fn lemma_find_at(s: Seq<char>, i: int, pat: Seq<char>)
    requires
        0 <= i <= s.len(),
        pat.len() > 0,
    ensures
        match find_at(s, i, pat) {
            Some(j) => i <= j && j + pat.len() <= s.len() && matches_at(s, j, pat) && forall|
                k: int,
            | i <= k < j ==> !matches_at(s, k, pat),
            None => forall|k: int| i <= k ==> !matches_at(s, k, pat),
        },
    decreases s.len() - i,
{
    if i + pat.len() > s.len() {
        assert forall|k: int| i <= k implies !matches_at(s, k, pat) by {
            assert(k + pat.len() > s.len());
        }
    } else if matches_at(s, i, pat) {
    } else {
        lemma_find_at(s, i + 1, pat);
    }
}

/// If `pat` occurs at `j` and nowhere earlier, the search finds `j`.
pub proof fn lemma_find_at_is(s: Seq<char>, i: int, pat: Seq<char>, j: int)
    requires
        0 <= i <= j,
        pat.len() > 0,
        matches_at(s, j, pat),
        forall|k: int| i <= k < j ==> !matches_at(s, k, pat),
    ensures
        find_at(s, i, pat) == Some(j),
{
    lemma_find_at(s, i, pat);
    match find_at(s, i, pat) {
        Some(j0) => {
            if j0 < j {
                assert(!matches_at(s, j0, pat));
                assert(false);
            }
            if j < j0 {
                assert(!matches_at(s, j, pat));
                assert(false);
            }
        },
        None => {
            assert(!matches_at(s, j, pat));
            assert(false);
        },
    }
}

/// If `pat` occurs nowhere at or after `i`, the search fails.
pub proof fn lemma_find_at_none(s: Seq<char>, i: int, pat: Seq<char>)
    requires
        0 <= i <= s.len(),
        pat.len() > 0,
        forall|k: int| i <= k ==> !matches_at(s, k, pat),
    ensures
        find_at(s, i, pat) is None,
{
    lemma_find_at(s, i, pat);
    match find_at(s, i, pat) {
        Some(j0) => {
            assert(!matches_at(s, j0, pat));
            assert(false);
        },
        None => {},
    }
}

/// The position after the last non-whitespace character of `s` (0 when `s`
/// is all whitespace): the boundary where trailing whitespace begins.
pub open spec fn last_non_ws(s: Seq<char>) -> int
    decreases s.len(),
{
    if s.len() == 0 {
        0
    } else if ws_char(s[s.len() - 1]) {
        last_non_ws(s.drop_last())
    } else {
        s.len() as int
    }
}

pub proof fn lemma_last_non_ws(s: Seq<char>)
    ensures
        0 <= last_non_ws(s) <= s.len(),
        forall|k: int| last_non_ws(s) <= k < s.len() ==> ws_char(#[trigger] s[k]),
        last_non_ws(s) == 0 || !ws_char(s[last_non_ws(s) - 1]),
    decreases s.len(),
{
    if s.len() > 0 && ws_char(s[s.len() - 1]) {
        lemma_last_non_ws(s.drop_last());
        assert forall|k: int| last_non_ws(s) <= k < s.len() implies ws_char(#[trigger] s[k]) by {
            if k < s.len() - 1 {
                assert(s.drop_last()[k] == s[k]);
            }
        }
        if last_non_ws(s) != 0 {
            assert(s.drop_last()[last_non_ws(s) - 1] == s[last_non_ws(s) - 1]);
        }
    }
}

pub proof fn lemma_last_non_ws_agrees(s: Seq<char>, t: int)
    requires
        0 <= t <= s.len(),
        forall|k: int| t <= k < s.len() ==> ws_char(#[trigger] s[k]),
        t == 0 || !ws_char(s[t - 1]),
    ensures
        last_non_ws(s) == t,
{
    lemma_last_non_ws(s);
    let t0 = last_non_ws(s);
    if t0 < t {
        assert(ws_char(s[t - 1]));
        assert(false);
    }
    if t < t0 {
        assert(ws_char(s[t0 - 1]));
        assert(false);
    }
}

/// The end of the run of line breaks (`\n` or `\r\n`) starting at `i`.
pub open spec fn nl_run_end(s: Seq<char>, i: int) -> int
    decreases s.len() - i,
    when 0 <= i <= s.len()
{
    if i == s.len() {
        i
    } else if s[i] == '\n' {
        nl_run_end(s, i + 1)
    } else if s[i] == '\r' && i + 1 < s.len() && s[i + 1] == '\n' {
        nl_run_end(s, i + 2)
    } else {
        i
    }
}

pub proof fn lemma_nl_run_end(s: Seq<char>, i: int)
    requires
        0 <= i <= s.len(),
    ensures
        i <= nl_run_end(s, i) <= s.len(),
    decreases s.len() - i,
{
    if i < s.len() {
        if s[i] == '\n' {
            lemma_nl_run_end(s, i + 1);
        } else if s[i] == '\r' && i + 1 < s.len() && s[i + 1] == '\n' {
            lemma_nl_run_end(s, i + 2);
        }
    }
}

/// Whether `t` begins with `pat`.
pub open spec fn starts_with(t: Seq<char>, pat: Seq<char>) -> bool {
    matches_at(t, 0, pat)
}

/// Whether `t` ends with `pat`.
pub open spec fn ends_with(t: Seq<char>, pat: Seq<char>) -> bool {
    pat.len() <= t.len() && t.subrange(t.len() - pat.len(), t.len() as int) == pat
}

/// `s` with leading and trailing whitespace removed.
pub open spec fn trim(s: Seq<char>) -> Seq<char> {
    let a = skip_ws(s, 0);
    let b = last_non_ws(s);
    if a <= b {
        s.subrange(a, b)
    } else {
        Seq::empty()
    }
}

/// The length of `s` in characters.
pub fn char_len(s: &str) -> (n: usize)
    ensures
        n == s@.len(),
{
    s.unicode_len()
}

/// The character of `s` at position `i`.
pub fn char_at(s: &str, i: usize) -> (c: char)
    requires
        i < s@.len(),
    ensures
        c == s@[i as int],
{
    s.get_char(i)
}

pub fn is_ws(c: char) -> (b: bool)
    ensures
        b == ws_char(c),
{
    c == ' ' || c == '\t' || c == '\r' || c == '\n'
}

pub fn is_space(c: char) -> (b: bool)
    ensures
        b == space_char(c),
{
    c == ' ' || c == '\t'
}

pub fn is_alnum(c: char) -> (b: bool)
    ensures
        b == alnum_char(c),
{
    let u = c as u32;
    ('a' as u32 <= u && u <= 'z' as u32) || ('A' as u32 <= u && u <= 'Z' as u32) || ('0' as u32 <= u
        && u <= '9' as u32)
}

/// Skips whitespace starting at `pos`.
pub fn skip_ws_from(s: &str, pos: usize) -> (r: usize)
    requires
        pos <= s@.len(),
    ensures
        r as int == skip_ws(s@, pos as int),
        pos <= r <= s@.len(),
{
    let n = s.unicode_len();
    let mut i: usize = pos;
    while i < n && is_ws(char_at(s, i))
        invariant
            pos <= i <= n,
            n == s@.len(),
            run_end(s@, pos as int, ws_pred()) == run_end(s@, i as int, ws_pred()),
        decreases n - i,
    {
        i = i + 1;
    }
    i
}

/// The end of the run of `#` characters starting at `pos`.
pub fn hash_run_from(s: &str, pos: usize) -> (r: usize)
    requires
        pos <= s@.len(),
    ensures
        r as int == run_end(s@, pos as int, hash_pred()),
        pos <= r <= s@.len(),
{
    let n = s.unicode_len();
    let mut i: usize = pos;
    while i < n && char_at(s, i) == '#'
        invariant
            pos <= i <= n,
            n == s@.len(),
            run_end(s@, pos as int, hash_pred()) == run_end(s@, i as int, hash_pred()),
        decreases n - i,
    {
        i = i + 1;
    }
    i
}

/// The end of the run of ASCII letters and digits starting at `pos`.
pub fn alnum_run_from(s: &str, pos: usize) -> (r: usize)
    requires
        pos <= s@.len(),
    ensures
        r as int == run_end(s@, pos as int, alnum_pred()),
        pos <= r <= s@.len(),
{
    let n = s.unicode_len();
    let mut i: usize = pos;
    while i < n && is_alnum(char_at(s, i))
        invariant
            pos <= i <= n,
            n == s@.len(),
            run_end(s@, pos as int, alnum_pred()) == run_end(s@, i as int, alnum_pred()),
        decreases n - i,
    {
        i = i + 1;
    }
    i
}

/// The end of the run of spaces and tabs starting at `pos`.
pub fn space_run_from(s: &str, pos: usize) -> (r: usize)
    requires
        pos <= s@.len(),
    ensures
        r as int == run_end(s@, pos as int, space_pred()),
        pos <= r <= s@.len(),
{
    let n = s.unicode_len();
    let mut i: usize = pos;
    while i < n && is_space(char_at(s, i))
        invariant
            pos <= i <= n,
            n == s@.len(),
            run_end(s@, pos as int, space_pred()) == run_end(s@, i as int, space_pred()),
        decreases n - i,
    {
        i = i + 1;
    }
    i
}

/// Whether `pat` occurs in `s` starting exactly at `pos`.
pub fn match_at(s: &str, pos: usize, pat: &str) -> (b: bool)
    requires
        pos <= s@.len(),
    ensures
        b == matches_at(s@, pos as int, pat@),
{
    let n = s.unicode_len();
    let m = pat.unicode_len();
    if m > n - pos {
        proof {
            assert(pos + pat@.len() > s@.len());
        }
        return false;
    }
    let mut j: usize = 0;
    while j < m
        invariant
            0 <= j <= m,
            m == pat@.len(),
            n == s@.len(),
            pos + m <= n,
            forall|k: int| 0 <= k < j ==> s@[pos + k] == pat@[k],
        decreases m - j,
    {
        if char_at(s, pos + j) != char_at(pat, j) {
            proof {
                assert(s@.subrange(pos as int, pos + m) != pat@) by {
                    assert(s@.subrange(pos as int, pos + m)[j as int] == s@[pos + j]);
                }
            }
            return false;
        }
        j = j + 1;
    }
    proof {
        assert(s@.subrange(pos as int, pos + m) =~= pat@);
    }
    true
}

/// The first occurrence of `pat` in `s` at or after `pos`.
pub fn find_from(s: &str, pos: usize, pat: &str) -> (r: Option<usize>)
    requires
        pos <= s@.len(),
        pat@.len() > 0,
    ensures
        match r {
            Some(j) => find_at(s@, pos as int, pat@) == Some(j as int) && pos <= j && j + pat@.len()
                <= s@.len(),
            None => find_at(s@, pos as int, pat@) is None,
        },
{
    let n = s.unicode_len();
    let m = pat.unicode_len();
    let mut i: usize = pos;
    loop
        invariant
            pos <= i <= n,
            n == s@.len(),
            m == pat@.len(),
            m > 0,
            find_at(s@, pos as int, pat@) == find_at(s@, i as int, pat@),
        decreases n - i,
    {
        if m > n - i {
            proof {
                assert(i + pat@.len() > s@.len());
            }
            return None;
        }
        if match_at(s, i, pat) {
            proof {
                lemma_find_at(s@, i as int, pat@);
            }
            return Some(i);
        }
        i = i + 1;
    }
}

/// The end of the run of line breaks starting at `pos`.
pub fn nl_run_from(s: &str, pos: usize) -> (r: usize)
    requires
        pos <= s@.len(),
    ensures
        r as int == nl_run_end(s@, pos as int),
        pos <= r <= s@.len(),
{
    let n = s.unicode_len();
    let mut i: usize = pos;
    loop
        invariant
            pos <= i <= n,
            n == s@.len(),
            nl_run_end(s@, pos as int) == nl_run_end(s@, i as int),
        ensures
            i as int == nl_run_end(s@, pos as int),
            pos <= i <= s@.len(),
        decreases n - i,
    {
        if i < n {
            let c = char_at(s, i);
            if c == '\n' {
                i = i + 1;
            } else if c == '\r' && i + 1 < n && char_at(s, i + 1) == '\n' {
                i = i + 2;
            } else {
                break ;
            }
        } else {
            break ;
        }
    }
    i
}

/// The boundary where the trailing whitespace of `s` begins.
pub fn doc_end(s: &str) -> (t: usize)
    ensures
        t as int == last_non_ws(s@),
        t <= s@.len(),
{
    let n = s.unicode_len();
    let mut j: usize = n;
    while j > 0 && is_ws(char_at(s, j - 1))
        invariant
            0 <= j <= n,
            n == s@.len(),
            forall|k: int| j <= k < n ==> ws_char(#[trigger] s@[k]),
        decreases j,
    {
        j = j - 1;
    }
    proof {
        lemma_last_non_ws_agrees(s@, j as int);
    }
    j
}

/// A copy of `s[from..to]`.
pub fn copy_range(s: &str, from: usize, to: usize) -> (r: String)
    requires
        from <= to <= s@.len(),
    ensures
        r@ == s@.subrange(from as int, to as int),
{
    let sub = s.substring_char(from, to);
    String::from_str(sub)
}

/// A copy of `s[from..to]` with leading and trailing whitespace removed.
pub fn copy_trimmed(s: &str, from: usize, to: usize) -> (r: String)
    requires
        from <= to <= s@.len(),
    ensures
        r@ == trim(s@.subrange(from as int, to as int)),
{
    let ghost sub = s@.subrange(from as int, to as int);
    let mut a: usize = from;
    while a < to && is_ws(char_at(s, a))
        invariant
            from <= a <= to <= s@.len(),
            forall|k: int| from <= k < a ==> ws_char(#[trigger] s@[k]),
        decreases to - a,
    {
        a = a + 1;
    }
    if a == to {
        proof {
            assert forall|k: int| 0 <= k < sub.len() implies ws_char(#[trigger] sub[k]) by {
                assert(sub[k] == s@[from + k]);
            }
            lemma_run_end_agrees(sub, 0, ws_pred(), sub.len() as int);
            lemma_last_non_ws_agrees(sub, 0);
            assert(trim(sub) =~= Seq::<char>::empty());
        }
        return String::new();
    }
    let mut b: usize = to;
    while b > a + 1 && is_ws(char_at(s, b - 1))
        invariant
            from <= a < b <= to <= s@.len(),
            forall|k: int| b <= k < to ==> ws_char(#[trigger] s@[k]),
        decreases b,
    {
        b = b - 1;
    }
    proof {
        assert forall|k: int| 0 <= k < a - from implies ws_pred()(sub[k]) by {
            assert(sub[k] == s@[from + k]);
        }
        assert(sub[a - from] == s@[a as int]);
        lemma_run_end_agrees(sub, 0, ws_pred(), a - from);
        assert forall|k: int| b - from <= k < sub.len() implies ws_char(#[trigger] sub[k]) by {
            assert(sub[k] == s@[from + k]);
        }
        assert(sub[b - from - 1] == s@[b - 1]);
        lemma_last_non_ws_agrees(sub, b - from);
    }
    let r = copy_range(s, a, b);
    proof {
        assert(r@ =~= trim(sub));
    }
    r
}

} // verus!
