//! Rewriting the values of a KeyValues localization file.
//!
//! A line holds a pair when its trimmed text, searched from the left, has a
//! quoted key followed (after optional white space) by a quoted value, where
//! a quoted string is `"` then any run of characters other than `"` and `\`
//! or of `\` followed by any character but a newline, then `"`.
use vstd::prelude::*;
use vstd::string::*;
use crate::kvmap::KeyValues;
use crate::text::{
    count_lead_ws, indent, is_whitespace, is_ws, lead_ws, lemma_lead_ws, lemma_lead_ws_unique,
    lemma_trail_ws_unique, push_char, push_range, replace_all,
    replace_all_exec, starts_with, string_of, to_chars, trim, trim_chars,
};

verus! {

/// Where the quoted string whose body starts at `q` closes: the index just
/// after its closing quote.
pub open spec fn quoted_close(t: Seq<char>, q: int) -> Option<int>
    decreases t.len() - q,
{
    if q < 0 || q >= t.len() {
        None
    } else if t[q] == '"' {
        Some(q + 1)
    } else if t[q] == '\\' {
        if q + 1 < t.len() && t[q + 1] != '\n' {
            quoted_close(t, q + 2)
        } else {
            None
        }
    } else {
        quoted_close(t, q + 1)
    }
}

/// The end of the quoted string that opens at `p`, if one does.
pub open spec fn quoted_end(t: Seq<char>, p: int) -> Option<int> {
    if 0 <= p < t.len() && t[p] == '"' {
        quoted_close(t, p + 1)
    } else {
        None
    }
}

/// The first index at or after `i` that does not hold white space.
pub open spec fn skip_ws(t: Seq<char>, i: int) -> int
    decreases t.len() - i,
{
    if 0 <= i < t.len() && is_ws(t[i]) {
        skip_ws(t, i + 1)
    } else {
        i
    }
}

/// A quoted key, optional white space and a quoted value start at `p`.
pub open spec fn pair_at(t: Seq<char>, p: int) -> bool {
    match quoted_end(t, p) {
        Some(e) => quoted_end(t, skip_ws(t, e)) is Some,
        None => false,
    }
}

/// The span of the quoted key of the leftmost pair at or after `p`.
pub open spec fn key_span_from(t: Seq<char>, p: int) -> Option<(int, int)>
    decreases t.len() - p,
{
    if p < 0 || p >= t.len() {
        None
    } else if pair_at(t, p) {
        Some((p, quoted_end(t, p)->0))
    } else {
        key_span_from(t, p + 1)
    }
}

/// The span, quotes included, of the key of the leftmost pair in `t`.
pub open spec fn key_span(t: Seq<char>) -> Option<(int, int)> {
    key_span_from(t, 0)
}

/// The key as looked up: the text between the quotes with each `\"` read as `"`.
pub open spec fn unescape_key(s: Seq<char>) -> Seq<char> {
    replace_all(s, seq!['\\', '"'], seq!['"'])
}

/// A value as written: each `"` written as `\"`.
pub open spec fn escape_value(s: Seq<char>) -> Seq<char> {
    replace_all(s, seq!['"'], seq!['\\', '"'])
}

/// A line whose trimmed text starts with `//`.
pub open spec fn is_comment(t: Seq<char>) -> bool {
    starts_with(t, seq!['/', '/'])
}

/// What a line becomes: when its pair's key has a replacement, the line's
/// indentation, `"`, the quoted key, `" "`, the escaped replacement and `"`;
/// otherwise the line itself.
pub open spec fn rewritten_line(line: Seq<char>, repl: Map<Seq<char>, Seq<char>>) -> Seq<char> {
    let t = trim(line);
    if t.len() > 0 && !is_comment(t) {
        match key_span(t) {
            Some((p, e)) => {
                let k = unescape_key(t.subrange(p + 1, e - 1));
                if repl.contains_key(k) {
                    indent(line) + seq!['"'] + t.subrange(p, e) + seq!['"', ' ', '"']
                        + escape_value(repl[k]) + seq!['"']
                } else {
                    line
                }
            },
            None => line,
        }
    } else {
        line
    }
}

/// The index of the first newline at or after `i`, or the length of `s`.
pub open spec fn next_newline(s: Seq<char>, i: int) -> int
    decreases s.len() - i,
{
    if 0 <= i < s.len() {
        if s[i] == '\n' {
            i
        } else {
            next_newline(s, i + 1)
        }
    } else {
        s.len() as int
    }
}

/// A line without the carriage return of its `\r\n` ending.
pub open spec fn strip_cr(l: Seq<char>) -> Seq<char> {
    if l.len() > 0 && l.last() == '\r' {
        l.drop_last()
    } else {
        l
    }
}

pub proof fn lemma_next_newline(s: Seq<char>, i: int)
    requires
        0 <= i <= s.len(),
    ensures
        i <= next_newline(s, i) <= s.len(),
        next_newline(s, i) < s.len() ==> s[next_newline(s, i)] == '\n',
        forall|k: int| i <= k < next_newline(s, i) ==> s[k] != '\n',
    decreases s.len() - i,
{
    if i < s.len() && s[i] != '\n' {
        lemma_next_newline(s, i + 1);
    }
}

/// The lines of `s` from index `i` on (`str::lines`): split at each `\n`, a
/// `\r` just before a `\n` dropped, no empty line after a final `\n`.
pub open spec fn lines_from(s: Seq<char>, i: int) -> Seq<Seq<char>>
    decreases s.len() - i,
{
    if 0 <= i < s.len() {
        let j = next_newline(s, i);
        proof {
            lemma_next_newline(s, i);
        }
        if j < s.len() {
            seq![strip_cr(s.subrange(i, j))] + lines_from(s, j + 1)
        } else {
            seq![s.subrange(i, s.len() as int)]
        }
    } else {
        Seq::empty()
    }
}

/// The lines of `s`.
pub open spec fn text_lines(s: Seq<char>) -> Seq<Seq<char>> {
    lines_from(s, 0)
}

/// Each line rewritten and ended by a newline.
pub open spec fn render(lines: Seq<Seq<char>>, repl: Map<Seq<char>, Seq<char>>) -> Seq<char>
    decreases lines.len(),
{
    if lines.len() == 0 {
        Seq::empty()
    } else {
        rewritten_line(lines[0], repl) + seq!['\n'] + render(lines.drop_first(), repl)
    }
}

/// The whole text after rewriting: unchanged when there are no replacements.
pub open spec fn replaced_text(s: Seq<char>, repl: Map<Seq<char>, Seq<char>>) -> Seq<char> {
    if repl.is_empty() {
        s
    } else {
        render(text_lines(s), repl)
    }
}

pub proof fn lemma_quoted_close(t: Seq<char>, q: int)
    ensures
        quoted_close(t, q) matches Some(e) ==> q < e <= t.len() && t[e - 1] == '"',
    decreases t.len() - q,
{
    if 0 <= q < t.len() && t[q] != '"' {
        if t[q] == '\\' {
            if q + 1 < t.len() && t[q + 1] != '\n' {
                lemma_quoted_close(t, q + 2);
            }
        } else {
            lemma_quoted_close(t, q + 1);
        }
    }
}

/// A key span is a quoted string inside `t`.
pub proof fn lemma_key_span_from(t: Seq<char>, p: int)
    ensures
        key_span_from(t, p) matches Some((a, e)) ==> {
            &&& p <= a
            &&& 0 <= a
            &&& a + 2 <= e <= t.len()
            &&& quoted_end(t, a) == Some(e)
            &&& pair_at(t, a)
        },
    decreases t.len() - p,
{
    if 0 <= p < t.len() {
        if pair_at(t, p) {
            lemma_quoted_close(t, p + 1);
        } else {
            lemma_key_span_from(t, p + 1);
        }
    }
}

/// The end of the quoted string whose body starts at `q`.
fn find_quoted_close(t: &Vec<char>, q: usize) -> (r: Option<usize>)
    ensures
        match r {
            Some(e) => quoted_close(t@, q as int) == Some(e as int),
            None => quoted_close(t@, q as int) is None,
        },
{
    let mut i = q;
    while i < t.len()
        invariant
            q <= i,
            quoted_close(t@, i as int) == quoted_close(t@, q as int),
        decreases t.len() - i,
    {
        if t[i] == '"' {
            return Some(i + 1);
        } else if t[i] == '\\' {
            if i + 1 < t.len() && t[i + 1] != '\n' {
                i = i + 2;
            } else {
                return None;
            }
        } else {
            i = i + 1;
        }
    }
    None
}

/// The end of the quoted string that opens at `p`.
fn find_quoted_end(t: &Vec<char>, p: usize) -> (r: Option<usize>)
    ensures
        match r {
            Some(e) => quoted_end(t@, p as int) == Some(e as int),
            None => quoted_end(t@, p as int) is None,
        },
{
    if p < t.len() && t[p] == '"' {
        find_quoted_close(t, p + 1)
    } else {
        None
    }
}

/// The first index at or after `i` that does not hold white space.
fn find_skip_ws(t: &Vec<char>, i: usize) -> (r: usize)
    ensures
        r == skip_ws(t@, i as int),
{
    let mut k = i;
    while k < t.len() && is_whitespace(t[k])
        invariant
            i <= k,
            skip_ws(t@, k as int) == skip_ws(t@, i as int),
        decreases t.len() - k,
    {
        k = k + 1;
    }
    k
}

/// Whether a pair starts at `p`.
fn is_pair_at(t: &Vec<char>, p: usize) -> (r: Option<usize>)
    ensures
        match r {
            Some(e) => pair_at(t@, p as int) && quoted_end(t@, p as int) == Some(e as int),
            None => !pair_at(t@, p as int),
        },
{
    match find_quoted_end(t, p) {
        Some(e) => {
            let k = find_skip_ws(t, e);
            match find_quoted_end(t, k) {
                Some(_) => Some(e),
                None => None,
            }
        },
        None => None,
    }
}

/// The span of the key of the leftmost pair in `t`.
pub fn find_key_span(t: &Vec<char>) -> (r: Option<(usize, usize)>)
    ensures
        match r {
            Some((p, e)) => key_span(t@) == Some((p as int, e as int)),
            None => key_span(t@) is None,
        },
{
    let mut p: usize = 0;
    while p < t.len()
        invariant
            key_span_from(t@, p as int) == key_span(t@),
        decreases t.len() - p,
    {
        match is_pair_at(t, p) {
            Some(e) => {
                return Some((p, e));
            },
            None => {},
        }
        p = p + 1;
    }
    None
}

/// The characters `v[from..to]`.
fn sub_chars(v: &Vec<char>, from: usize, to: usize) -> (r: Vec<char>)
    requires
        from <= to <= v.len(),
    ensures
        r@ == v@.subrange(from as int, to as int),
{
    let mut r: Vec<char> = Vec::new();
    let mut i = from;
    while i < to
        invariant
            from <= i <= to <= v.len(),
            r@ == v@.subrange(from as int, i as int),
        decreases to - i,
    {
        r.push(v[i]);
        i = i + 1;
        assert(r@ == v@.subrange(from as int, i as int));
    }
    r
}

/// One line of the file after rewriting.
pub fn rewrite_line(line: &Vec<char>, replacements: &KeyValues) -> (out: String)
    ensures
        out@ == rewritten_line(line@, replacements@),
{
    let t = trim_chars(line);
    let comment = t.len() >= 2 && t[0] == '/' && t[1] == '/';
    proof {
        if t@.len() >= 2 {
            assert(t@.subrange(0, 2) =~= seq![t@[0], t@[1]]);
        }
        assert(comment == is_comment(t@));
    }
    if t.len() > 0 && !comment {
        if let Some((p, e)) = find_key_span(&t) {
            proof {
                lemma_key_span_from(t@, 0);
            }
            let inner = sub_chars(&t, p + 1, e - 1);
            let bs_quote = vec!['\\', '"'];
            let quote = vec!['"'];
            assert(bs_quote@ =~= seq!['\\', '"']);
            assert(quote@ =~= seq!['"']);
            let key = replace_all_exec(&inner, &bs_quote, &quote);
            assert(key@ == unescape_key(t@.subrange(p + 1, e - 1)));
            if let Some(v) = replacements.get(key.as_str()) {
                let ind = count_lead_ws(line);
                proof {
                    lemma_lead_ws(line@);
                }
                let mut out = string_of(line, 0, ind);
                push_char(&mut out, '"');
                push_range(&mut out, &t, p, e);
                push_char(&mut out, '"');
                push_char(&mut out, ' ');
                push_char(&mut out, '"');
                let vc = to_chars(v.as_str());
                let esc = replace_all_exec(&vc, &quote, &bs_quote);
                assert(esc@ == escape_value(replacements@[key@]));
                out.append(esc.as_str());
                push_char(&mut out, '"');
                assert(line@.subrange(0, ind as int) == indent(line@));
                assert(out@ =~= rewritten_line(line@, replacements@));
                return out;
            }
        }
    }
    assert(line@.subrange(0, line@.len() as int) == line@);
    string_of(line, 0, line.len())
}

/// The index of the first newline at or after `i`, or the length of `s`.
fn find_newline(s: &Vec<char>, i: usize) -> (j: usize)
    requires
        i <= s.len(),
    ensures
        j == next_newline(s@, i as int),
{
    let mut j = i;
    while j < s.len() && s[j] != '\n'
        invariant
            i <= j <= s.len(),
            next_newline(s@, j as int) == next_newline(s@, i as int),
        decreases s.len() - j,
    {
        j = j + 1;
    }
    assert(next_newline(s@, j as int) == j);
    j
}

/// Rewrites the value of every pair whose key has a replacement, line by line;
/// the result ends each line with a newline. Without replacements the text is
/// returned unchanged.
pub fn replace_kv_pairs(original: &str, replacements: &KeyValues) -> (result: String)
    ensures
        result@ == replaced_text(original@, replacements@),
{
    if replacements.is_empty() {
        return String::from_str(original);
    }
    let s = to_chars(original);
    let mut result = String::new();
    let mut i: usize = 0;
    while i < s.len()
        invariant
            0 <= i <= s.len(),
            s@ == original@,
            result@ + render(lines_from(s@, i as int), replacements@) == render(
                text_lines(s@),
                replacements@,
            ),
        decreases s.len() - i,
    {
        let j = find_newline(&s, i);
        proof {
            lemma_next_newline(s@, i as int);
        }
        let end = if j < s.len() && j > i && s[j - 1] == '\r' {
            j - 1
        } else {
            j
        };
        let line = sub_chars(&s, i, end);
        let ghost ls = lines_from(s@, i as int);
        proof {
            if j < s.len() {
                assert(line@ == strip_cr(s@.subrange(i as int, j as int)));
            } else {
                assert(line@ == s@.subrange(i as int, s@.len() as int));
            }
            assert(ls[0] == line@);
            assert(ls.drop_first() == lines_from(s@, if j < s.len() {
                j + 1
            } else {
                s.len() as int
            }));
        }
        let rl = rewrite_line(&line, replacements);
        result.append(rl.as_str());
        push_char(&mut result, '\n');
        i = if j < s.len() {
            j + 1
        } else {
            s.len()
        };
    }
    result
}


/// Law: without replacements the text is returned as it is.
pub proof fn law_no_replacements(s: Seq<char>)
    ensures
        replaced_text(s, Map::empty()) == s,
{
}

/// Law: a line whose text, white space aside, starts with `//` is a comment
/// and is never changed, whatever the replacements.
pub proof fn law_comment_line_kept(line: Seq<char>, repl: Map<Seq<char>, Seq<char>>)
    requires
        starts_with(trim(line), seq!['/', '/']),
    ensures
        rewritten_line(line, repl) == line,
{
}

/// Law: every comment line of a text comes out of the rewrite as it went in,
/// in its place, followed by a newline.
pub proof fn law_comment_lines_kept_in_text(s: Seq<char>, repl: Map<Seq<char>, Seq<char>>, i: int)
    requires
        0 <= i < text_lines(s).len(),
        starts_with(trim(text_lines(s)[i]), seq!['/', '/']),
        !repl.is_empty(),
    ensures
        exists|a: Seq<char>, b: Seq<char>|
            replaced_text(s, repl) == a + text_lines(s)[i] + seq!['\n'] + b,
{
    let ls = text_lines(s);
    lemma_render_split(ls, repl, i);
    law_comment_line_kept(ls[i], repl);
}

/// The rendering of a list of lines, split around its `i`-th line.
proof fn lemma_render_split(ls: Seq<Seq<char>>, repl: Map<Seq<char>, Seq<char>>, i: int)
    requires
        0 <= i < ls.len(),
    ensures
        render(ls, repl) == render(ls.take(i), repl) + rewritten_line(ls[i], repl) + seq!['\n']
            + render(ls.skip(i + 1), repl),
    decreases i,
{
    if i == 0 {
        assert(ls.take(0) =~= Seq::<Seq<char>>::empty());
        assert(ls.drop_first() =~= ls.skip(1));
    } else {
        lemma_render_split(ls.drop_first(), repl, i - 1);
        assert(ls.drop_first().take(i - 1) =~= ls.take(i).drop_first());
        assert(ls.drop_first().skip(i) =~= ls.skip(i + 1));
        assert(ls.take(i)[0] == ls[0]);
        assert(ls.drop_first()[i - 1] == ls[i]);
    }
}

/// Inside a quoted string a quote only ever follows a backslash.
pub proof fn lemma_quoted_close_shape(t: Seq<char>, q: int)
    requires
        0 <= q,
    ensures
        quoted_close(t, q) matches Some(e) ==> {
            &&& q < e <= t.len()
            &&& t[e - 1] == '"'
            &&& forall|j: int| q <= j < e - 1 && #[trigger] t[j] == '"' ==> j > q && t[j - 1] == '\\'
        },
    decreases t.len() - q,
{
    if 0 <= q < t.len() && t[q] != '"' {
        if t[q] == '\\' {
            if q + 1 < t.len() && t[q + 1] != '\n' {
                lemma_quoted_close_shape(t, q + 2);
            }
        } else {
            lemma_quoted_close_shape(t, q + 1);
        }
    }
}

/// A quoted string closes the same way wherever its characters stand.
pub proof fn lemma_quoted_close_copy(a: Seq<char>, i: int, b: Seq<char>, j: int)
    requires
        0 <= i,
        0 <= j,
        quoted_close(a, i) is Some,
        j + (quoted_close(a, i)->0 - i) <= b.len(),
        b.subrange(j, j + (quoted_close(a, i)->0 - i)) == a.subrange(i, quoted_close(a, i)->0),
    ensures
        quoted_close(b, j) == Some(j + (quoted_close(a, i)->0 - i)),
    decreases a.len() - i,
{
    let e = quoted_close(a, i)->0;
    lemma_quoted_close(a, i);
    assert(b[j] == b.subrange(j, j + (e - i))[0]);
    assert(a[i] == a.subrange(i, e)[0]);
    if a[i] == '"' {
    } else if a[i] == '\\' {
        lemma_quoted_close(a, i + 2);
        assert(b[j + 1] == b.subrange(j, j + (e - i))[1]);
        assert(a[i + 1] == a.subrange(i, e)[1]);
        assert(b.subrange(j + 2, j + 2 + (e - i - 2)) =~= a.subrange(i + 2, e)) by {
            assert forall|k: int| 0 <= k < e - i - 2 implies #[trigger] b.subrange(
                j + 2,
                j + 2 + (e - i - 2),
            )[k] == a.subrange(i + 2, e)[k] by {
                assert(b.subrange(j, j + (e - i))[k + 2] == a.subrange(i, e)[k + 2]);
            }
        }
        lemma_quoted_close_copy(a, i + 2, b, j + 2);
    } else {
        lemma_quoted_close(a, i + 1);
        assert(b.subrange(j + 1, j + 1 + (e - i - 1)) =~= a.subrange(i + 1, e)) by {
            assert forall|k: int| 0 <= k < e - i - 1 implies #[trigger] b.subrange(
                j + 1,
                j + 1 + (e - i - 1),
            )[k] == a.subrange(i + 1, e)[k] by {
                assert(b.subrange(j, j + (e - i))[k + 1] == a.subrange(i, e)[k + 1]);
            }
        }
        lemma_quoted_close_copy(a, i + 1, b, j + 1);
    }
}

/// Skipping white space passes over a run of white space.
pub proof fn lemma_skip_ws_over(t: Seq<char>, i: int, m: int)
    requires
        0 <= i,
        0 <= m,
        i + m <= t.len(),
        forall|j: int| i <= j < i + m ==> is_ws(#[trigger] t[j]),
    ensures
        skip_ws(t, i) == skip_ws(t, i + m),
    decreases m,
{
    if m > 0 {
        lemma_skip_ws_over(t, i + 1, m - 1);
    }
}

/// The key of a line's pair is not a non-empty run of white space.
pub open spec fn key_not_blank(line: Seq<char>) -> bool {
    match key_span(trim(line)) {
        Some((p, e)) => {
            let k = trim(line).subrange(p + 1, e - 1);
            k.len() == 0 || lead_ws(k) < k.len()
        },
        None => true,
    }
}

/// A line made of white space and then text that opens and closes with a
/// quote trims to that text.
proof fn lemma_trim_indented(ind: Seq<char>, tp: Seq<char>)
    requires
        forall|j: int| 0 <= j < ind.len() ==> is_ws(#[trigger] ind[j]),
        tp.len() > 0,
        tp[0] == '"',
        tp.last() == '"',
    ensures
        trim(ind + tp) == tp,
        indent(ind + tp) == ind,
{
    let lp = ind + tp;
    assert forall|j: int| 0 <= j < ind.len() implies is_ws(#[trigger] lp[j]) by {
        assert(lp[j] == ind[j]);
    }
    assert(lp[ind.len() as int] == '"');
    lemma_lead_ws_unique(lp, ind.len() as int);
    assert(lp[lp.len() - 1] == '"');
    lemma_trail_ws_unique(lp, 0);
    assert(trim(lp) =~= tp);
    assert(indent(lp) =~= ind);
}

/// The text a pair is rewritten to: quote, key, `" "`, value, quote.
pub open spec fn rewritten_pair(key: Seq<char>, ev: Seq<char>) -> Seq<char> {
    seq!['"'] + key + seq!['"', ' ', '"'] + ev + seq!['"']
}

/// In a rewritten pair, a quoted value follows the key.
proof fn lemma_rewritten_value(key: Seq<char>, ev: Seq<char>)
    requires
        key.len() >= 2,
    ensures
        quoted_end(rewritten_pair(key, ev), 1) == Some(1 + key.len() as int) ==> pair_at(
            rewritten_pair(key, ev),
            1,
        ),
{
    let tp = rewritten_pair(key, ev);
    let n = key.len() as int;
    assert(tp[1 + n] == '"');
    assert(tp[2 + n] == ' ');
    assert(tp[3 + n] == '"');
    assert(quoted_close(tp, 3 + n) == Some(4 + n));
    assert(quoted_close(tp, 2 + n) == Some(4 + n));
    assert(quoted_end(tp, 1 + n) is Some);
    assert(skip_ws(tp, 1 + n) == 1 + n);
}

/// The pair of a rewritten line has the same key as the pair it came from.
proof fn lemma_rewritten_key_span(t: Seq<char>, ev: Seq<char>)
    requires
        key_span(t) is Some,
        ({
            let (p, e) = key_span(t)->0;
            let kin = t.subrange(p + 1, e - 1);
            kin.len() == 0 || lead_ws(kin) < kin.len()
        }),
    ensures
        ({
            let (p, e) = key_span(t)->0;
            let tp = rewritten_pair(t.subrange(p, e), ev);
            key_span(tp) matches Some((a, b)) && tp.subrange(a, b) == t.subrange(p, e)
                && tp.subrange(a + 1, b - 1) == t.subrange(p + 1, e - 1)
        }),
{
    let (p, e) = key_span(t)->0;
    lemma_key_span_from(t, 0);
    lemma_quoted_close_shape(t, p + 1);
    let key = t.subrange(p, e);
    let kin = t.subrange(p + 1, e - 1);
    let tp = rewritten_pair(key, ev);
    let n = key.len() as int;
    assert(tp[0] == '"');
    assert forall|j: int| 0 <= j < n implies #[trigger] tp[1 + j] == key[j] by {}
    assert(key[0] == '"');
    assert(key[n - 1] == '"');
    assert(tp[1] == '"');
    assert(quoted_close(tp, 1) == Some(2int));
    lemma_rewritten_value(key, ev);
    if kin.len() == 0 {
        assert(tp[2] == '"');
        assert(skip_ws(tp, 2) == 2);
        assert(tp[3] == '"');
        assert(quoted_close(tp, 3) == Some(4int));
        assert(pair_at(tp, 0));
        assert(key_span(tp) == Some((0int, 2int)));
        assert(tp.subrange(0, 2) =~= key);
        assert(tp.subrange(1, 1) =~= kin);
    } else {
        let m = lead_ws(kin) as int;
        lemma_lead_ws(kin);
        assert forall|j: int| 2 <= j < 2 + m implies is_ws(#[trigger] tp[j]) by {
            assert(tp[j] == kin[j - 2]);
        }
        lemma_skip_ws_over(tp, 2, m);
        assert(tp[2 + m] == kin[m]);
        assert(skip_ws(tp, 2 + m) == 2 + m);
        assert(t[p + 1 + m] == kin[m]);
        if kin[m] == '"' {
            assert(t[p + m] == '\\');
            assert(t[p + m] == kin[m - 1]);
        }
        assert(!pair_at(tp, 0));
        assert(tp.subrange(2, 2 + (e - (p + 1))) =~= t.subrange(p + 1, e));
        lemma_quoted_close_copy(t, p + 1, tp, 2);
        assert(quoted_end(tp, 1) == Some(1 + n));
        assert(key_span_from(tp, 1) == Some((1int, 1 + n)));
        assert(key_span(tp) == Some((1int, 1 + n)));
        assert(tp.subrange(1, 1 + n) =~= key);
        assert(tp.subrange(2, n) =~= kin);
    }
}

/// Law: rewriting a line a second time changes nothing, unless the key of
/// its pair is a non-empty run of white space.
pub proof fn law_rewrite_line_idempotent(line: Seq<char>, repl: Map<Seq<char>, Seq<char>>)
    requires
        key_not_blank(line),
    ensures
        rewritten_line(rewritten_line(line, repl), repl) == rewritten_line(line, repl),
{
    let t = trim(line);
    if t.len() > 0 && !is_comment(t) && key_span(t) is Some {
        let (p, e) = key_span(t)->0;
        let kk = unescape_key(t.subrange(p + 1, e - 1));
        if repl.contains_key(kk) {
            lemma_key_span_from(t, 0);
            let key = t.subrange(p, e);
            let ind = indent(line);
            let ev = escape_value(repl[kk]);
            let tp = rewritten_pair(key, ev);
            let lp = ind + tp;
            assert(lp =~= rewritten_line(line, repl));
            lemma_lead_ws(line);
            assert forall|j: int| 0 <= j < ind.len() implies is_ws(#[trigger] ind[j]) by {
                assert(ind[j] == line[j]);
            }
            lemma_trim_indented(ind, tp);
            assert(!is_comment(tp)) by {
                assert(tp.subrange(0, 2)[0] == '"');
            }
            lemma_rewritten_key_span(t, ev);
            let (a, b) = key_span(tp)->0;
            assert(rewritten_line(lp, repl) =~= ind + seq!['"'] + key + seq!['"', ' ', '"'] + ev
                + seq!['"']);
        }
    }
}


/// Lines joined, each ended by a newline.
pub open spec fn join_lines(ms: Seq<Seq<char>>) -> Seq<char>
    decreases ms.len(),
{
    if ms.len() == 0 {
        Seq::empty()
    } else {
        ms[0] + seq!['\n'] + join_lines(ms.drop_first())
    }
}

/// A line that splitting text gives back as it is: no newline in it and no
/// carriage return at its end.
pub open spec fn plain_line(m: Seq<char>) -> bool {
    &&& forall|j: int| 0 <= j < m.len() ==> #[trigger] m[j] != '\n'
    &&& !(m.len() > 0 && m.last() == '\r')
}

proof fn lemma_next_newline_shift(x: Seq<char>, i: int, k: int)
    requires
        0 <= i <= x.len(),
        0 <= k,
    ensures
        next_newline(x, i + k) == i + next_newline(x.skip(i), k),
    decreases x.len() - i - k,
{
    if i + k < x.len() {
        assert(x.skip(i)[k] == x[i + k]);
        if x[i + k] != '\n' {
            lemma_next_newline_shift(x, i, k + 1);
        }
    }
}

/// The lines from index `i` are the lines of the text from `i` on.
proof fn lemma_lines_from_skip(x: Seq<char>, i: int)
    requires
        0 <= i <= x.len(),
    ensures
        lines_from(x, i) == lines_from(x.skip(i), 0),
    decreases x.len() - i,
{
    let y = x.skip(i);
    if i < x.len() {
        lemma_next_newline_shift(x, i, 0);
        lemma_next_newline(x, i);
        let j = next_newline(x, i);
        assert(y.subrange(0, j - i) =~= x.subrange(i, j));
        if j < x.len() {
            lemma_lines_from_skip(x, j + 1);
            lemma_lines_from_skip(y, j - i + 1);
            assert(y.skip(j - i + 1) =~= x.skip(j + 1));
        } else {
            assert(y.subrange(0, y.len() as int) =~= x.subrange(i, x.len() as int));
        }
    } else {
        assert(y.len() == 0);
    }
}

/// Splitting joined plain lines gives them back.
pub proof fn lemma_lines_of_join(ms: Seq<Seq<char>>)
    requires
        forall|i: int| 0 <= i < ms.len() ==> plain_line(#[trigger] ms[i]),
    ensures
        text_lines(join_lines(ms)) == ms,
    decreases ms.len(),
{
    if ms.len() > 0 {
        let m = ms[0];
        let x = join_lines(ms);
        let rest = join_lines(ms.drop_first());
        assert(plain_line(m));
        assert forall|i: int| 0 <= i < ms.drop_first().len() implies plain_line(
            #[trigger] ms.drop_first()[i],
        ) by {
            assert(ms.drop_first()[i] == ms[i + 1]);
        }
        lemma_lines_of_join(ms.drop_first());
        let n = m.len() as int;
        assert forall|k: int| 0 <= k < n implies #[trigger] x[k] != '\n' by {
            assert(x[k] == m[k]);
        }
        assert(x[n] == '\n');
        lemma_next_newline(x, 0);
        if next_newline(x, 0) < n {
            assert(x[next_newline(x, 0)] != '\n');
        }
        assert(next_newline(x, 0) == n);
        assert(x.subrange(0, n) =~= m);
        assert(strip_cr(x.subrange(0, n)) == m);
        lemma_lines_from_skip(x, n + 1);
        assert(x.skip(n + 1) =~= rest);
        assert(text_lines(x) =~= seq![m] + ms.drop_first());
    }
}

/// The rewritten lines of `ls`.
pub open spec fn rewrite_all(ls: Seq<Seq<char>>, repl: Map<Seq<char>, Seq<char>>) -> Seq<Seq<char>> {
    ls.map_values(|l: Seq<char>| rewritten_line(l, repl))
}

proof fn lemma_render_join(ls: Seq<Seq<char>>, repl: Map<Seq<char>, Seq<char>>)
    ensures
        render(ls, repl) == join_lines(rewrite_all(ls, repl)),
    decreases ls.len(),
{
    if ls.len() > 0 {
        lemma_render_join(ls.drop_first(), repl);
        assert(rewrite_all(ls, repl).drop_first() =~= rewrite_all(ls.drop_first(), repl));
    }
}

/// The lines of a text never hold a newline.
proof fn lemma_lines_have_no_newline(x: Seq<char>, i: int)
    requires
        0 <= i <= x.len(),
    ensures
        forall|a: int, j: int|
            0 <= a < lines_from(x, i).len() && 0 <= j < lines_from(x, i)[a].len() ==> #[trigger] lines_from(
                x,
                i,
            )[a][j] != '\n',
    decreases x.len() - i,
{
    if i < x.len() {
        lemma_next_newline(x, i);
        let j = next_newline(x, i);
        if j < x.len() {
            lemma_lines_have_no_newline(x, j + 1);
            let ls = lines_from(x, i);
            assert forall|a: int, k: int| 0 <= a < ls.len() && 0 <= k < ls[a].len() implies #[trigger] ls[a][k]
                != '\n' by {
                if a == 0 {
                    assert(ls[0][k] == x[i + k]);
                } else {
                    assert(ls[a] == lines_from(x, j + 1)[a - 1]);
                }
            }
        } else {
            let ls = lines_from(x, i);
            assert forall|a: int, k: int| 0 <= a < ls.len() && 0 <= k < ls[a].len() implies #[trigger] ls[a][k]
                != '\n' by {
                assert(ls[0][k] == x[i + k]);
            }
        }
    }
}

proof fn lemma_replace_all_no_newline(s: Seq<char>, p: Seq<char>, r: Seq<char>)
    requires
        p.len() > 0,
        forall|j: int| 0 <= j < s.len() ==> #[trigger] s[j] != '\n',
        forall|j: int| 0 <= j < r.len() ==> #[trigger] r[j] != '\n',
    ensures
        forall|j: int| 0 <= j < replace_all(s, p, r).len() ==> #[trigger] replace_all(s, p, r)[j]
            != '\n',
    decreases s.len(),
{
    if s.len() > 0 {
        if crate::text::starts_with(s, p) {
            assert forall|j: int| 0 <= j < s.skip(p.len() as int).len() implies #[trigger] s.skip(
                p.len() as int,
            )[j] != '\n' by {
                assert(s.skip(p.len() as int)[j] == s[j + p.len()]);
            }
            lemma_replace_all_no_newline(s.skip(p.len() as int), p, r);
            let sub = replace_all(s.skip(p.len() as int), p, r);
            let out = replace_all(s, p, r);
            assert(out == r + sub);
            assert forall|j: int| 0 <= j < out.len() implies #[trigger] out[j] != '\n' by {
                if j < r.len() {
                    assert(out[j] == r[j]);
                } else {
                    assert(out[j] == sub[j - r.len()]);
                }
            }
        } else {
            assert forall|j: int| 0 <= j < s.drop_first().len() implies #[trigger] s.drop_first()[j]
                != '\n' by {
                assert(s.drop_first()[j] == s[j + 1]);
            }
            lemma_replace_all_no_newline(s.drop_first(), p, r);
            let sub = replace_all(s.drop_first(), p, r);
            let out = replace_all(s, p, r);
            assert(out == seq![s[0]] + sub);
            assert forall|j: int| 0 <= j < out.len() implies #[trigger] out[j] != '\n' by {
                if j > 0 {
                    assert(out[j] == sub[j - 1]);
                }
            }
        }
    }
}

/// A plain line whose replacement values hold no newline is rewritten to a plain line.
proof fn lemma_rewritten_plain(line: Seq<char>, repl: Map<Seq<char>, Seq<char>>)
    requires
        plain_line(line),
        forall|k: Seq<char>, j: int|
            repl.contains_key(k) && 0 <= j < repl[k].len() ==> #[trigger] repl[k][j] != '\n',
    ensures
        plain_line(rewritten_line(line, repl)),
{
    let t = trim(line);
    if t.len() > 0 && !is_comment(t) && key_span(t) is Some {
        let (p, e) = key_span(t)->0;
        let kk = unescape_key(t.subrange(p + 1, e - 1));
        if repl.contains_key(kk) {
            lemma_key_span_from(t, 0);
            lemma_lead_ws(line);
            crate::text::lemma_trail_ws(line);
            let v = repl[kk];
            assert forall|j: int| 0 <= j < v.len() implies #[trigger] v[j] != '\n' by {
                assert(repl[kk][j] != '\n');
            }
            lemma_replace_all_no_newline(v, seq!['"'], seq!['\\', '"']);
            let ev = escape_value(v);
            let r = rewritten_line(line, repl);
            let ind = indent(line);
            let key = t.subrange(p, e);
            assert(r =~= ind + seq!['"'] + key + seq!['"', ' ', '"'] + ev + seq!['"']);
            assert forall|j: int| 0 <= j < r.len() implies #[trigger] r[j] != '\n' by {
                let a = ind.len() as int;
                let b = a + 1 + key.len();
                if j < a {
                    assert(r[j] == line[j]);
                } else if a < j < b {
                    assert(r[j] == key[j - a - 1]);
                    assert(key[j - a - 1] == t[p + j - a - 1]);
                    assert(t[p + j - a - 1] == line[lead_ws(line) + p + j - a - 1]);
                } else if b + 3 <= j < b + 3 + ev.len() {
                    assert(r[j] == ev[j - b - 3]);
                }
            }
        }
    }
}

/// Law: rewriting the text a second time changes nothing, when no line's
/// key is a non-empty run of white space, no line ends with a carriage
/// return once split, and no replacement holds a newline.
pub proof fn law_replace_idempotent(s: Seq<char>, repl: Map<Seq<char>, Seq<char>>)
    requires
        forall|i: int|
            0 <= i < text_lines(s).len() ==> key_not_blank(#[trigger] text_lines(s)[i]) && !(
            text_lines(s)[i].len() > 0 && text_lines(s)[i].last() == '\r'),
        forall|k: Seq<char>, j: int|
            repl.contains_key(k) && 0 <= j < repl[k].len() ==> #[trigger] repl[k][j] != '\n',
    ensures
        replaced_text(replaced_text(s, repl), repl) == replaced_text(s, repl),
{
    if !repl.is_empty() {
        let ls = text_lines(s);
        let ms = rewrite_all(ls, repl);
        lemma_lines_have_no_newline(s, 0);
        assert forall|i: int| 0 <= i < ms.len() implies plain_line(#[trigger] ms[i]) by {
            assert(plain_line(ls[i])) by {
                assert forall|j: int| 0 <= j < ls[i].len() implies #[trigger] ls[i][j] != '\n' by {
                    assert(lines_from(s, 0)[i][j] != '\n');
                }
            }
            lemma_rewritten_plain(ls[i], repl);
        }
        lemma_render_join(ls, repl);
        lemma_lines_of_join(ms);
        lemma_render_join(ms, repl);
        assert(rewrite_all(ms, repl) =~= ms) by {
            assert forall|i: int| 0 <= i < ms.len() implies #[trigger] rewrite_all(ms, repl)[i]
                == ms[i] by {
                law_rewrite_line_idempotent(ls[i], repl);
            }
        }
    }
}

} // verus!
