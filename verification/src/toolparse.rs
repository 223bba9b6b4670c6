//! The tool-invocation grammar: one inline tagged region carrying a tool
//! name and a JSON parameter object. The primary parse reads the
//! parameters as a flat JSON object of string members; when that fails,
//! three permissive fallback shapes recognize the known read, write and
//! shell calls on the same region. Only the first tagged region of a
//! turn is honored.

use vstd::prelude::*;

use crate::persist::{lemma_parse_string_body_shrinks, parse_string};
use crate::tools::{ToolCall, ToolCallView};

verus! {

/// Whitespace accepted by the grammar.
pub open spec fn is_space(c: char) -> bool {
    c == ' ' || c == '\t' || c == '\n' || c == '\r'
}

/// The end of the whitespace run starting at `i`.
pub open spec fn space_end(s: Seq<char>, i: int) -> int
    decreases s.len() - i,
    when 0 <= i <= s.len()
{
    if i < s.len() && is_space(s[i]) {
        space_end(s, i + 1)
    } else {
        i
    }
}

/// The end of the quote-free run starting at `i`.
pub open spec fn nonquote_end(s: Seq<char>, i: int) -> int
    decreases s.len() - i,
    when 0 <= i <= s.len()
{
    if i < s.len() && s[i] != '"' {
        nonquote_end(s, i + 1)
    } else {
        i
    }
}

/// The first position of `c` at or after `i`; the length when absent.
pub open spec fn char_pos(s: Seq<char>, i: int, c: char) -> int
    decreases s.len() - i,
    when 0 <= i <= s.len()
{
    if i < s.len() && s[i] != c {
        char_pos(s, i + 1, c)
    } else {
        i
    }
}

/// An expected literal starting at `i`, giving the position after it.
pub open spec fn match_lit_at(s: Seq<char>, i: int, lit: Seq<char>) -> Option<int> {
    if 0 <= i && i + lit.len() <= s.len() && s.subrange(i, i + lit.len() as int) == lit {
        Some(i + lit.len() as int)
    } else {
        None
    }
}

/// One or more whitespace characters starting at `i`.
pub open spec fn spaces1(s: Seq<char>, i: int) -> Option<int> {
    if 0 <= i && i < s.len() && is_space(s[i]) {
        Some(space_end(s, i))
    } else {
        None
    }
}

/// Where the pieces of a matched tagged region stand in the text.
pub struct EnvelopeIdx {
    pub name_start: int,
    pub name_end: int,
    pub params_start: int,
    pub params_end: int,
    pub end: int,
}

/// A tagged region starting exactly at `i`:
/// `<use_tool name="NAME" params={...} />`, with flexible whitespace, an
/// optional closing slash, and the parameter region running to the first
/// closing brace.
pub open spec fn match_envelope_at(s: Seq<char>, i: int) -> Option<EnvelopeIdx> {
    match match_lit_at(s, i, "<use_tool"@) {
        None => None,
        Some(a) => match spaces1(s, a) {
            None => None,
            Some(b) => match match_lit_at(s, b, "name=\""@) {
                None => None,
                Some(c) => {
                    let ne = nonquote_end(s, c);
                    if ne == c || ne >= s.len() {
                        None
                    } else {
                        match spaces1(s, ne + 1) {
                            None => None,
                            Some(d) => match match_lit_at(s, d, "params="@) {
                                None => None,
                                Some(f) => {
                                    if f < s.len() && s[f] == '{' {
                                        let g = char_pos(s, f + 1, '}');
                                        if g >= s.len() {
                                            None
                                        } else {
                                            let h = space_end(s, g + 1);
                                            let h2 = if h < s.len() && s[h] == '/' {
                                                h + 1
                                            } else {
                                                h
                                            };
                                            if h2 < s.len() && s[h2] == '>' {
                                                Some(
                                                    (EnvelopeIdx {
                                                        name_start: c,
                                                        name_end: ne,
                                                        params_start: f,
                                                        params_end: g + 1,
                                                        end: h2 + 1,
                                                    }),
                                                )
                                            } else {
                                                None
                                            }
                                        }
                                    } else {
                                        None
                                    }
                                },
                            },
                        }
                    }
                },
            },
        },
    }
}

/// The first tagged region starting at or after `i`.
pub open spec fn find_envelope(s: Seq<char>, i: int) -> Option<EnvelopeIdx>
    decreases s.len() - i,
    when 0 <= i <= s.len()
{
    if i >= s.len() {
        None
    } else {
        match match_envelope_at(s, i) {
            Some(e) => Some(e),
            None => find_envelope(s, i + 1),
        }
    }
}

/// A JSON string token starting at `i`, giving the decoded text and the
/// position after the closing quote.
pub open spec fn jstr_at(p: Seq<char>, i: int) -> Option<(Seq<char>, int)> {
    if 0 <= i <= p.len() {
        match parse_string(p.skip(i)) {
            Some((t, r)) => if r.len() <= p.len() - i {
                Some((t, p.len() - r.len()))
            } else {
                None
            },
            None => None,
        }
    } else {
        None
    }
}

/// The whitespace run ends within bounds.
pub proof fn lemma_space_end_bounds(s: Seq<char>, i: int)
    requires
        0 <= i <= s.len(),
    ensures
        i <= space_end(s, i) <= s.len(),
    decreases s.len() - i,
{
    if i < s.len() && is_space(s[i]) {
        lemma_space_end_bounds(s, i + 1);
    }
}

/// A consumed string token is strictly shorter than its input.
pub proof fn lemma_parse_string_shrinks(s: Seq<char>)
    ensures
        match parse_string(s) {
            Some((t, r)) => r.len() < s.len(),
            None => true,
        },
{
    if s.len() >= 1 && s[0] == '"' {
        lemma_parse_string_body_shrinks(s.skip(1));
    }
}

/// A string token starting at `i` ends strictly after `i`, within
/// bounds.
pub proof fn lemma_jstr_at_bounds(p: Seq<char>, i: int)
    requires
        0 <= i <= p.len(),
    ensures
        match jstr_at(p, i) {
            Some((t, j)) => i < j <= p.len(),
            None => true,
        },
{
    lemma_parse_string_shrinks(p.skip(i));
}

/// The members of a flat JSON object of string values, read from `i`:
/// `"key": "value"` pairs separated by commas, closed by the final
/// brace.
pub open spec fn parse_pairs_at(
    p: Seq<char>,
    i: int,
    acc: Seq<(Seq<char>, Seq<char>)>,
) -> Option<Seq<(Seq<char>, Seq<char>)>>
    decreases p.len() - i,
    when 0 <= i <= p.len()
    via parse_pairs_at_dec
{
    match jstr_at(p, i) {
        None => None,
        Some((key, j1)) => {
            let j2 = space_end(p, j1);
            if j2 < p.len() && p[j2] == ':' {
                let j3 = space_end(p, j2 + 1);
                match jstr_at(p, j3) {
                    None => None,
                    Some((value, j4)) => {
                        let j5 = space_end(p, j4);
                        if j5 < p.len() && p[j5] == ',' {
                            let j6 = space_end(p, j5 + 1);
                            parse_pairs_at(p, j6, acc.push((key, value)))
                        } else if j5 == p.len() - 1 && p[j5] == '}' {
                            Some(acc.push((key, value)))
                        } else {
                            None
                        }
                    },
                }
            } else {
                None
            }
        },
    }
}

#[via_fn]
proof fn parse_pairs_at_dec(p: Seq<char>, i: int, acc: Seq<(Seq<char>, Seq<char>)>) {
    lemma_jstr_at_bounds(p, i);
    match jstr_at(p, i) {
        None => {},
        Some((key, j1)) => {
            lemma_space_end_bounds(p, j1);
            let j2 = space_end(p, j1);
            if j2 < p.len() && p[j2] == ':' {
                lemma_space_end_bounds(p, j2 + 1);
                let j3 = space_end(p, j2 + 1);
                lemma_jstr_at_bounds(p, j3);
                match jstr_at(p, j3) {
                    None => {},
                    Some((value, j4)) => {
                        lemma_space_end_bounds(p, j4);
                        let j5 = space_end(p, j4);
                        if j5 < p.len() && p[j5] == ',' {
                            lemma_space_end_bounds(p, j5 + 1);
                        }
                    },
                }
            }
        },
    }
}

/// A whole parameter region as a flat JSON object: braces around
/// comma-separated string pairs.
pub open spec fn parse_obj(p: Seq<char>) -> Option<Seq<(Seq<char>, Seq<char>)>> {
    if p.len() >= 2 && p[0] == '{' && p[p.len() - 1] == '}' {
        let j = space_end(p, 1);
        if j == p.len() - 1 {
            Some(Seq::empty())
        } else {
            parse_pairs_at(p, j, Seq::empty())
        }
    } else {
        None
    }
}

/// The value bound to `key`; with duplicate keys the last binding wins,
/// as in a JSON object.
pub open spec fn lookup_param(pairs: Seq<(Seq<char>, Seq<char>)>, key: Seq<char>) -> Option<
    Seq<char>,
>
    decreases pairs.len(),
{
    if pairs.len() == 0 {
        None
    } else if pairs.last().0 == key {
        Some(pairs.last().1)
    } else {
        lookup_param(pairs.drop_last(), key)
    }
}

/// A raw quoted capture at `i`: characters other than quotes, between
/// quotes, possibly empty when allowed.
pub open spec fn raw_str_at(p: Seq<char>, i: int, allow_empty: bool) -> Option<(Seq<char>, int)> {
    if 0 <= i && i < p.len() && p[i] == '"' {
        let e = nonquote_end(p, i + 1);
        if e < p.len() && (allow_empty || e > i + 1) {
            Some((p.subrange(i + 1, e), e + 1))
        } else {
            None
        }
    } else {
        None
    }
}

/// The permissive read shape: `{ "path": "..." }`.
pub open spec fn read_params(p: Seq<char>) -> Option<Seq<char>> {
    if p.len() >= 1 && p[0] == '{' {
        let j1 = space_end(p, 1);
        match match_lit_at(p, j1, "\"path\":"@) {
            None => None,
            Some(j2) => {
                let j3 = space_end(p, j2);
                match raw_str_at(p, j3, false) {
                    None => None,
                    Some((path, j4)) => {
                        let j5 = space_end(p, j4);
                        if j5 == p.len() - 1 && p[j5] == '}' {
                            Some(path)
                        } else {
                            None
                        }
                    },
                }
            },
        }
    } else {
        None
    }
}

/// The permissive write shape: `{ "path": "...", "content": "..." }`,
/// with possibly empty content.
pub open spec fn write_params(p: Seq<char>) -> Option<(Seq<char>, Seq<char>)> {
    if p.len() >= 1 && p[0] == '{' {
        let j1 = space_end(p, 1);
        match match_lit_at(p, j1, "\"path\":"@) {
            None => None,
            Some(j2) => {
                let j3 = space_end(p, j2);
                match raw_str_at(p, j3, false) {
                    None => None,
                    Some((path, j4)) => {
                        let j5 = space_end(p, j4);
                        if j5 < p.len() && p[j5] == ',' {
                            let j6 = space_end(p, j5 + 1);
                            match match_lit_at(p, j6, "\"content\":"@) {
                                None => None,
                                Some(j7) => {
                                    let j8 = space_end(p, j7);
                                    match raw_str_at(p, j8, true) {
                                        None => None,
                                        Some((content, j9)) => {
                                            let j10 = space_end(p, j9);
                                            if j10 == p.len() - 1 && p[j10] == '}' {
                                                Some((path, content))
                                            } else {
                                                None
                                            }
                                        },
                                    }
                                },
                            }
                        } else {
                            None
                        }
                    },
                }
            },
        }
    } else {
        None
    }
}

/// The permissive shell shape: `{ "content": "..." }`.
pub open spec fn shell_params(p: Seq<char>) -> Option<Seq<char>> {
    if p.len() >= 1 && p[0] == '{' {
        let j1 = space_end(p, 1);
        match match_lit_at(p, j1, "\"content\":"@) {
            None => None,
            Some(j2) => {
                let j3 = space_end(p, j2);
                match raw_str_at(p, j3, false) {
                    None => None,
                    Some((content, j4)) => {
                        let j5 = space_end(p, j4);
                        if j5 == p.len() - 1 && p[j5] == '}' {
                            Some(content)
                        } else {
                            None
                        }
                    },
                }
            },
        }
    } else {
        None
    }
}

/// What the first tagged region of a turn asks for: the parameters read
/// as a flat JSON object, or failing that, whichever permissive shape
/// the named tool accepts.
pub open spec fn spec_parse_tool_use(s: Seq<char>) -> Option<ToolCallView> {
    match find_envelope(s, 0) {
        None => None,
        Some(e) => {
            let name = s.subrange(e.name_start, e.name_end);
            let params = s.subrange(e.params_start, e.params_end);
            match parse_obj(params) {
                Some(pairs) => Some(
                    (ToolCallView {
                        name,
                        path: lookup_param(pairs, "path"@),
                        content: lookup_param(pairs, "content"@),
                    }),
                ),
                None => {
                    if name == "filesystem.read"@ {
                        match read_params(params) {
                            Some(path) => Some(
                                (ToolCallView { name, path: Some(path), content: None }),
                            ),
                            None => None,
                        }
                    } else if name == "filesystem.write"@ {
                        match write_params(params) {
                            Some((path, content)) => Some(
                                (ToolCallView { name, path: Some(path), content: Some(content) }),
                            ),
                            None => None,
                        }
                    } else if name == "shell.run"@ {
                        match shell_params(params) {
                            Some(command) => Some(
                                (ToolCallView { name, path: None, content: Some(command) }),
                            ),
                            None => None,
                        }
                    } else {
                        None
                    }
                },
            }
        },
    }
}

// --- the executable parser ---

/// Whitespace accepted by the grammar.
fn is_space_char(c: char) -> (r: bool)
    ensures
        r == is_space(c),
{
    c == ' ' || c == '\t' || c == '\n' || c == '\r'
}

/// Scans to the end of the whitespace run starting at `i`.
fn e_space_end(v: &Vec<char>, i: usize) -> (r: usize)
    requires
        i <= v@.len(),
    ensures
        r == space_end(v@, i as int),
        i <= r <= v@.len(),
{
    let mut k = i;
    while k < v.len() && is_space_char(v[k])
        invariant
            i <= k <= v@.len(),
            space_end(v@, i as int) == space_end(v@, k as int),
        decreases v@.len() - k,
    {
        k += 1;
    }
    k
}

/// Scans to the end of the quote-free run starting at `i`.
fn e_nonquote_end(v: &Vec<char>, i: usize) -> (r: usize)
    requires
        i <= v@.len(),
    ensures
        r == nonquote_end(v@, i as int),
        i <= r <= v@.len(),
{
    let mut k = i;
    while k < v.len() && v[k] != '"'
        invariant
            i <= k <= v@.len(),
            nonquote_end(v@, i as int) == nonquote_end(v@, k as int),
        decreases v@.len() - k,
    {
        k += 1;
    }
    k
}

/// Scans to the first `c` at or after `i`.
fn e_char_pos(v: &Vec<char>, i: usize, c: char) -> (r: usize)
    requires
        i <= v@.len(),
    ensures
        r == char_pos(v@, i as int, c),
        i <= r <= v@.len(),
{
    let mut k = i;
    while k < v.len() && v[k] != c
        invariant
            i <= k <= v@.len(),
            char_pos(v@, i as int, c) == char_pos(v@, k as int, c),
        decreases v@.len() - k,
    {
        k += 1;
    }
    k
}

/// Matches an expected literal starting at `i`.
fn e_lit_at(v: &Vec<char>, i: usize, lit: &str) -> (r: Option<usize>)
    requires
        i <= v@.len(),
    ensures
        match r {
            Some(j) => match_lit_at(v@, i as int, lit@) == Some(j as int) && i <= j <= v@.len(),
            None => match_lit_at(v@, i as int, lit@) is None,
        },
{
    let m = lit.unicode_len();
    if m > v.len() - i {
        proof {
            assert(i + lit@.len() > v@.len());
        }
        return None;
    }
    let mut k: usize = 0;
    while k < m
        invariant
            k <= m,
            m == lit@.len(),
            i + m <= v@.len(),
            v@.len() <= usize::MAX,
            forall|t: int| 0 <= t < k ==> v@[i + t] == lit@[t],
        decreases m - k,
    {
        if v[i + k] != lit.get_char(k) {
            proof {
                assert(v@.subrange(i as int, i + lit@.len() as int)[k as int] != lit@[k as int]);
                assert(v@.subrange(i as int, i + lit@.len() as int) != lit@);
            }
            return None;
        }
        k += 1;
    }
    proof {
        assert(v@.subrange(i as int, i + lit@.len() as int) =~= lit@);
    }
    Some(i + m)
}

/// Reads a JSON string token starting at `i`.
fn e_jstr_at(v: &Vec<char>, i: usize) -> (r: Option<(String, usize)>)
    requires
        i <= v@.len(),
    ensures
        match r {
            Some((t, j)) => jstr_at(v@, i as int) == Some((t@, j as int)) && i < j <= v@.len(),
            None => jstr_at(v@, i as int) is None,
        },
{
    match crate::persist::p_string(v, i) {
        Some((t, j)) => {
            proof {
                assert(v@.skip(j as int).len() == v@.len() - j);
            }
            Some((t, j))
        },
        None => None,
    }
}

/// Reads a raw quoted capture starting at `i`.
fn e_raw_at(v: &Vec<char>, i: usize, allow_empty: bool) -> (r: Option<(String, usize)>)
    requires
        i <= v@.len(),
    ensures
        match r {
            Some((t, j)) => raw_str_at(v@, i as int, allow_empty) == Some((t@, j as int)) && i < j
                <= v@.len(),
            None => raw_str_at(v@, i as int, allow_empty) is None,
        },
{
    if i == v.len() || v[i] != '"' {
        return None;
    }
    let e = e_nonquote_end(v, i + 1);
    if e == v.len() {
        return None;
    }
    if !allow_empty && e == i + 1 {
        return None;
    }
    let mut t = String::new();
    let mut k = i + 1;
    while k < e
        invariant
            i + 1 <= k <= e,
            e <= v@.len(),
            t@ =~= v@.subrange(i + 1 as int, k as int),
        decreases e - k,
    {
        crate::strutil::push_char(&mut t, v[k]);
        proof {
            assert(t@ =~= v@.subrange(i + 1 as int, k + 1 as int));
        }
        k += 1;
    }
    Some((t, e + 1))
}

/// Matches a tagged region starting exactly at `i`.
fn e_envelope_at(v: &Vec<char>, i: usize) -> (r: Option<(usize, usize, usize, usize, usize)>)
    requires
        i <= v@.len(),
    ensures
        match r {
            Some((ns, ne, ps, pe, end)) => match_envelope_at(v@, i as int) == Some(
                (EnvelopeIdx {
                    name_start: ns as int,
                    name_end: ne as int,
                    params_start: ps as int,
                    params_end: pe as int,
                    end: end as int,
                }),
            ) && ns <= ne <= v@.len() && ps <= pe <= v@.len(),
            None => match_envelope_at(v@, i as int) is None,
        },
{
    let a = match e_lit_at(v, i, "<use_tool") {
        Some(a) => a,
        None => {
            return None;
        },
    };
    if a == v.len() || !is_space_char(v[a]) {
        return None;
    }
    let b = e_space_end(v, a);
    let c = match e_lit_at(v, b, "name=\"") {
        Some(c) => c,
        None => {
            return None;
        },
    };
    let ne = e_nonquote_end(v, c);
    if ne == c || ne == v.len() {
        return None;
    }
    if ne + 1 == v.len() || !is_space_char(v[ne + 1]) {
        return None;
    }
    let d = e_space_end(v, ne + 1);
    let f = match e_lit_at(v, d, "params=") {
        Some(f) => f,
        None => {
            return None;
        },
    };
    if f == v.len() || v[f] != '{' {
        return None;
    }
    let g = e_char_pos(v, f + 1, '}');
    if g == v.len() {
        return None;
    }
    let h = e_space_end(v, g + 1);
    let h2 = if h < v.len() && v[h] == '/' {
        h + 1
    } else {
        h
    };
    if h2 == v.len() || v[h2] != '>' {
        return None;
    }
    Some((c, ne, f, g + 1, h2 + 1))
}

/// Finds the first tagged region at or after `i`.
fn e_find_envelope(v: &Vec<char>) -> (r: Option<(usize, usize, usize, usize, usize)>)
    ensures
        match r {
            Some((ns, ne, ps, pe, end)) => find_envelope(v@, 0) == Some(
                (EnvelopeIdx {
                    name_start: ns as int,
                    name_end: ne as int,
                    params_start: ps as int,
                    params_end: pe as int,
                    end: end as int,
                }),
            ) && ns <= ne <= v@.len() && ps <= pe <= v@.len(),
            None => find_envelope(v@, 0) is None,
        },
{
    let n = v.len();
    let mut i: usize = 0;
    while i < n
        invariant
            i <= n,
            n == v@.len(),
            find_envelope(v@, 0) == find_envelope(v@, i as int),
        decreases n - i,
    {
        match e_envelope_at(v, i) {
            Some(e) => {
                return Some(e);
            },
            None => {},
        }
        i += 1;
    }
    None
}

/// Copies a region of the text.
fn sub_vec(v: &Vec<char>, lo: usize, hi: usize) -> (r: Vec<char>)
    requires
        lo <= hi <= v@.len(),
    ensures
        r@ == v@.subrange(lo as int, hi as int),
{
    let mut r: Vec<char> = Vec::new();
    let mut k = lo;
    while k < hi
        invariant
            lo <= k <= hi,
            hi <= v@.len(),
            r@ =~= v@.subrange(lo as int, k as int),
        decreases hi - k,
    {
        r.push(v[k]);
        proof {
            assert(r@ =~= v@.subrange(lo as int, k + 1 as int));
        }
        k += 1;
    }
    proof {
        assert(r@ =~= v@.subrange(lo as int, hi as int));
    }
    r
}

/// The views of parsed parameter pairs.
pub open spec fn pairs_view(s: Seq<(String, String)>) -> Seq<(Seq<char>, Seq<char>)> {
    s.map_values(|p: (String, String)| (p.0@, p.1@))
}

/// Reads the members of a flat JSON object from `i`.
fn e_parse_pairs(pv: &Vec<char>, i: usize, acc: Vec<(String, String)>) -> (r: Option<
    Vec<(String, String)>,
>)
    requires
        i <= pv@.len(),
    ensures
        match r {
            Some(ps) => parse_pairs_at(pv@, i as int, pairs_view(acc@)) == Some(pairs_view(ps@)),
            None => parse_pairs_at(pv@, i as int, pairs_view(acc@)) is None,
        },
    decreases pv@.len() - i,
{
    let (key, j1) = match e_jstr_at(pv, i) {
        Some(x) => x,
        None => {
            return None;
        },
    };
    let j2 = e_space_end(pv, j1);
    if j2 == pv.len() || pv[j2] != ':' {
        return None;
    }
    let j3 = e_space_end(pv, j2 + 1);
    let (value, j4) = match e_jstr_at(pv, j3) {
        Some(x) => x,
        None => {
            return None;
        },
    };
    let j5 = e_space_end(pv, j4);
    let ghost av = pairs_view(acc@);
    let ghost kv = key@;
    let ghost vv = value@;
    if j5 < pv.len() && pv[j5] == ',' {
        let j6 = e_space_end(pv, j5 + 1);
        let mut acc = acc;
        let ghost prev = acc@;
        acc.push((key, value));
        proof {
            assert forall|k: int| 0 <= k < acc@.len() implies pairs_view(acc@)[k] == av.push(
                (kv, vv),
            )[k] by {
                if k < prev.len() {
                    assert(acc@[k] == prev[k]);
                } else {
                    assert(acc@[k].0@ == kv && acc@[k].1@ == vv);
                }
            }
            assert(pairs_view(acc@) =~= av.push((kv, vv)));
        }
        e_parse_pairs(pv, j6, acc)
    } else if j5 == pv.len() - 1 && pv[j5] == '}' {
        let mut acc = acc;
        let ghost prev = acc@;
        acc.push((key, value));
        proof {
            assert forall|k: int| 0 <= k < acc@.len() implies pairs_view(acc@)[k] == av.push(
                (kv, vv),
            )[k] by {
                if k < prev.len() {
                    assert(acc@[k] == prev[k]);
                } else {
                    assert(acc@[k].0@ == kv && acc@[k].1@ == vv);
                }
            }
            assert(pairs_view(acc@) =~= av.push((kv, vv)));
        }
        Some(acc)
    } else {
        None
    }
}

/// Reads a whole parameter region as a flat JSON object.
fn e_parse_obj(pv: &Vec<char>) -> (r: Option<Vec<(String, String)>>)
    ensures
        match r {
            Some(ps) => parse_obj(pv@) == Some(pairs_view(ps@)),
            None => parse_obj(pv@) is None,
        },
{
    if pv.len() < 2 {
        return None;
    }
    if pv[0] != '{' || pv[pv.len() - 1] != '}' {
        return None;
    }
    let j = e_space_end(pv, 1);
    if j == pv.len() - 1 {
        let ps: Vec<(String, String)> = Vec::new();
        proof {
            assert(pairs_view(ps@) =~= Seq::<(Seq<char>, Seq<char>)>::empty());
        }
        return Some(ps);
    }
    let acc: Vec<(String, String)> = Vec::new();
    proof {
        assert(pairs_view(acc@) =~= Seq::<(Seq<char>, Seq<char>)>::empty());
    }
    e_parse_pairs(pv, j, acc)
}

/// Finds the value bound to `key`, latest binding first.
fn e_lookup(pairs: &Vec<(String, String)>, key: &str) -> (r: Option<String>)
    ensures
        match r {
            Some(value) => lookup_param(pairs_view(pairs@), key@) == Some(value@),
            None => lookup_param(pairs_view(pairs@), key@) is None,
        },
{
    let n = pairs.len();
    let mut i: usize = n;
    proof {
        assert(pairs_view(pairs@).subrange(0, n as int) =~= pairs_view(pairs@));
    }
    while i > 0
        invariant
            i <= n,
            n == pairs@.len(),
            lookup_param(pairs_view(pairs@), key@) == lookup_param(
                pairs_view(pairs@).subrange(0, i as int),
                key@,
            ),
        decreases i,
    {
        i -= 1;
        proof {
            assert(pairs_view(pairs@).subrange(0, i as int + 1).last() == pairs_view(pairs@)[
                i as int
            ]);
            assert(pairs_view(pairs@).subrange(0, i as int + 1).drop_last() =~= pairs_view(
                pairs@,
            ).subrange(0, i as int));
        }
        if crate::strutil::str_eq(pairs[i].0.as_str(), key) {
            return Some(pairs[i].1.clone());
        }
    }
    proof {
        assert(pairs_view(pairs@).subrange(0, 0) =~= Seq::<(Seq<char>, Seq<char>)>::empty());
    }
    None
}

/// Parses the first tool invocation of a model turn, if any: the
/// canonical grammar first, then the permissive fallback shapes.
pub fn parse_tool_use(output: &str) -> (r: Option<ToolCall>)
    ensures
        match r {
            Some(call) => spec_parse_tool_use(output@) == Some(call@),
            None => spec_parse_tool_use(output@) is None,
        },
{
    let v = crate::persist::to_char_vec(output);
    let (ns, ne, ps, pe, _end) = match e_find_envelope(&v) {
        Some(e) => e,
        None => {
            return None;
        },
    };
    let name_vec = sub_vec(&v, ns, ne);
    let mut name = String::new();
    let mut k: usize = 0;
    while k < name_vec.len()
        invariant
            k <= name_vec@.len(),
            name@ =~= name_vec@.subrange(0, k as int),
        decreases name_vec@.len() - k,
    {
        crate::strutil::push_char(&mut name, name_vec[k]);
        proof {
            assert(name@ =~= name_vec@.subrange(0, k + 1 as int));
        }
        k += 1;
    }
    proof {
        assert(name@ =~= v@.subrange(ns as int, ne as int));
    }
    let pv = sub_vec(&v, ps, pe);
    match e_parse_obj(&pv) {
        Some(pairs) => {
            let path = e_lookup(&pairs, "path");
            let content = e_lookup(&pairs, "content");
            Some(ToolCall { name, path, content })
        },
        None => {
            if crate::strutil::str_eq(name.as_str(), "filesystem.read") {
                match e_read_params(&pv) {
                    Some(path) => Some(ToolCall { name, path: Some(path), content: None }),
                    None => None,
                }
            } else if crate::strutil::str_eq(name.as_str(), "filesystem.write") {
                match e_write_params(&pv) {
                    Some((path, content)) => Some(
                        ToolCall { name, path: Some(path), content: Some(content) },
                    ),
                    None => None,
                }
            } else if crate::strutil::str_eq(name.as_str(), "shell.run") {
                match e_shell_params(&pv) {
                    Some(command) => Some(ToolCall { name, path: None, content: Some(command) }),
                    None => None,
                }
            } else {
                None
            }
        },
    }
}

/// Matches the permissive read shape.
fn e_read_params(pv: &Vec<char>) -> (r: Option<String>)
    ensures
        match r {
            Some(path) => read_params(pv@) == Some(path@),
            None => read_params(pv@) is None,
        },
{
    if pv.len() == 0 || pv[0] != '{' {
        return None;
    }
    let j1 = e_space_end(pv, 1);
    let j2 = match e_lit_at(pv, j1, "\"path\":") {
        Some(j) => j,
        None => {
            return None;
        },
    };
    let j3 = e_space_end(pv, j2);
    let (path, j4) = match e_raw_at(pv, j3, false) {
        Some(x) => x,
        None => {
            return None;
        },
    };
    let j5 = e_space_end(pv, j4);
    if j5 == pv.len() - 1 && pv[j5] == '}' {
        Some(path)
    } else {
        None
    }
}

/// Matches the permissive write shape.
fn e_write_params(pv: &Vec<char>) -> (r: Option<(String, String)>)
    ensures
        match r {
            Some((path, content)) => write_params(pv@) == Some((path@, content@)),
            None => write_params(pv@) is None,
        },
{
    if pv.len() == 0 || pv[0] != '{' {
        return None;
    }
    let j1 = e_space_end(pv, 1);
    let j2 = match e_lit_at(pv, j1, "\"path\":") {
        Some(j) => j,
        None => {
            return None;
        },
    };
    let j3 = e_space_end(pv, j2);
    let (path, j4) = match e_raw_at(pv, j3, false) {
        Some(x) => x,
        None => {
            return None;
        },
    };
    let j5 = e_space_end(pv, j4);
    if !(j5 < pv.len() && pv[j5] == ',') {
        return None;
    }
    let j6 = e_space_end(pv, j5 + 1);
    let j7 = match e_lit_at(pv, j6, "\"content\":") {
        Some(j) => j,
        None => {
            return None;
        },
    };
    let j8 = e_space_end(pv, j7);
    let (content, j9) = match e_raw_at(pv, j8, true) {
        Some(x) => x,
        None => {
            return None;
        },
    };
    let j10 = e_space_end(pv, j9);
    if j10 == pv.len() - 1 && pv[j10] == '}' {
        Some((path, content))
    } else {
        None
    }
}

/// Matches the permissive shell shape.
fn e_shell_params(pv: &Vec<char>) -> (r: Option<String>)
    ensures
        match r {
            Some(command) => shell_params(pv@) == Some(command@),
            None => shell_params(pv@) is None,
        },
{
    if pv.len() == 0 || pv[0] != '{' {
        return None;
    }
    let j1 = e_space_end(pv, 1);
    let j2 = match e_lit_at(pv, j1, "\"content\":") {
        Some(j) => j,
        None => {
            return None;
        },
    };
    let j3 = e_space_end(pv, j2);
    let (content, j4) = match e_raw_at(pv, j3, false) {
        Some(x) => x,
        None => {
            return None;
        },
    };
    let j5 = e_space_end(pv, j4);
    if j5 == pv.len() - 1 && pv[j5] == '}' {
        Some(content)
    } else {
        None
    }
}

} // verus!
