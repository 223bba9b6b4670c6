//! The file-name key under which a branch is persisted:
//! `<session>_<branch>.json`. Session and branch names may themselves
//! contain the separator, so both are escaped first — `%` as `%p` and
//! `_` as `%u` — which makes the encoding unambiguous: the separator is
//! the only underscore in the stem, and a round-trip law proves that
//! decoding an encoded name gives both parts back.

use vstd::prelude::*;

use crate::strutil::push_char;

verus! {

/// Escaping of one character of a name part.
pub open spec fn fname_escape_char(c: char) -> Seq<char> {
    if c == '%' {
        seq!['%', 'p']
    } else if c == '_' {
        seq!['%', 'u']
    } else {
        seq![c]
    }
}

/// Escaping of a whole name part: the result carries no underscore.
pub open spec fn fname_escape(s: Seq<char>) -> Seq<char>
    decreases s.len(),
{
    if s.len() == 0 {
        Seq::empty()
    } else {
        fname_escape_char(s[0]) + fname_escape(s.skip(1))
    }
}

/// The full persisted file name for one (session, branch) key.
pub open spec fn fname_of(session: Seq<char>, branch: Seq<char>) -> Seq<char> {
    fname_escape(session) + seq!['_'] + fname_escape(branch) + ".json"@
}

/// Decoding of an escaped name part.
pub open spec fn fname_unescape(s: Seq<char>) -> Option<Seq<char>>
    decreases s.len(),
{
    if s.len() == 0 {
        Some(Seq::empty())
    } else if s[0] == '%' {
        if s.len() >= 2 && (s[1] == 'p' || s[1] == 'u') {
            let c = if s[1] == 'p' {
                '%'
            } else {
                '_'
            };
            match fname_unescape(s.skip(2)) {
                Some(t) => Some(seq![c] + t),
                None => None,
            }
        } else {
            None
        }
    } else {
        match fname_unescape(s.skip(1)) {
            Some(t) => Some(seq![s[0]] + t),
            None => None,
        }
    }
}

/// The first underscore at or after `i`; the length when absent.
pub open spec fn underscore_pos(s: Seq<char>, i: int) -> int
    decreases s.len() - i,
    when 0 <= i <= s.len()
{
    if i < s.len() && s[i] != '_' {
        underscore_pos(s, i + 1)
    } else {
        i
    }
}

/// Splits a persisted file name back into its (session, branch) key: the
/// `.json` suffix is stripped, the stem is split at its first
/// underscore, and both parts are unescaped.
pub open spec fn parse_fname(s: Seq<char>) -> Option<(Seq<char>, Seq<char>)> {
    if s.len() >= 5 && s.subrange(s.len() - 5, s.len() as int) == ".json"@ {
        let core = s.subrange(0, s.len() - 5);
        let u = underscore_pos(core, 0);
        if u >= core.len() {
            None
        } else {
            match fname_unescape(core.subrange(0, u)) {
                None => None,
                Some(session) => match fname_unescape(core.subrange(u + 1, core.len() as int)) {
                    None => None,
                    Some(branch) => if underscore_pos(core, u + 1) >= core.len() {
                        Some((session, branch))
                    } else {
                        None
                    },
                },
            }
        }
    } else {
        None
    }
}

/// An escaped name part carries no underscore.
proof fn lemma_fname_escape_no_underscore(s: Seq<char>)
    ensures
        forall|k: int| 0 <= k < fname_escape(s).len() ==> #[trigger] fname_escape(s)[k] != '_',
    decreases s.len(),
{
    if s.len() > 0 {
        lemma_fname_escape_no_underscore(s.skip(1));
        assert forall|k: int| 0 <= k < fname_escape(s).len() implies #[trigger] fname_escape(s)[k]
            != '_' by {
            let head = fname_escape_char(s[0]);
            if k >= head.len() {
                assert(fname_escape(s)[k] == fname_escape(s.skip(1))[k - head.len()]);
            }
        }
    }
}

/// An underscore search over an underscore-free run reaches its end.
proof fn lemma_underscore_pos_run(s: Seq<char>, i: int, m: int)
    requires
        0 <= i <= m <= s.len(),
        forall|k: int| i <= k < m ==> #[trigger] s[k] != '_',
        m == s.len() || s[m] == '_',
    ensures
        underscore_pos(s, i) == m,
    decreases m - i,
{
    if i < m {
        lemma_underscore_pos_run(s, i + 1, m);
    }
}

/// Unescaping an escaped name part gives the part back.
proof fn lemma_fname_unescape_escape(s: Seq<char>)
    ensures
        fname_unescape(fname_escape(s)) == Some(s),
    decreases s.len(),
{
    if s.len() == 0 {
        assert(fname_escape(s) =~= Seq::<char>::empty());
    } else {
        let c = s[0];
        let e = fname_escape(s);
        lemma_fname_unescape_escape(s.skip(1));
        if c == '%' || c == '_' {
            assert(e[0] == '%');
            assert(e[1] == (if c == '%' {
                'p'
            } else {
                'u'
            }));
            assert(e.skip(2) =~= fname_escape(s.skip(1)));
            assert(seq![c] + s.skip(1) =~= s);
        } else {
            assert(e[0] == c);
            assert(e.skip(1) =~= fname_escape(s.skip(1)));
            assert(seq![c] + s.skip(1) =~= s);
        }
    }
}

/// The round trip: decoding an encoded file name gives both parts of the
/// key back, whatever characters they contain.
pub proof fn lemma_fname_round_trip(session: Seq<char>, branch: Seq<char>)
    ensures
        parse_fname(fname_of(session, branch)) == Some((session, branch)),
{
    let es = fname_escape(session);
    let eb = fname_escape(branch);
    let s = fname_of(session, branch);
    reveal_strlit(".json");
    assert(".json"@.len() == 5);
    assert(s.subrange(s.len() - 5, s.len() as int) =~= ".json"@);
    let core = s.subrange(0, s.len() - 5);
    assert(core =~= es + seq!['_'] + eb);
    lemma_fname_escape_no_underscore(session);
    lemma_fname_escape_no_underscore(branch);
    assert forall|k: int| 0 <= k < es.len() implies #[trigger] core[k] != '_' by {
        assert(core[k] == es[k]);
    }
    assert(core[es.len() as int] == '_');
    lemma_underscore_pos_run(core, 0, es.len() as int);
    let u = es.len() as int;
    assert(core.subrange(0, u) =~= es);
    assert(core.subrange(u + 1, core.len() as int) =~= eb);
    lemma_fname_unescape_escape(session);
    lemma_fname_unescape_escape(branch);
    assert forall|k: int| u + 1 <= k < core.len() implies #[trigger] core[k] != '_' by {
        assert(core[k] == eb[k - (u + 1)]);
    }
    lemma_underscore_pos_run(core, u + 1, core.len() as int);
}

/// Encodes one name part into a file name.
fn escape_part(out: &mut String, s: &str)
    ensures
        final(out)@ == old(out)@ + fname_escape(s@),
{
    let n = s.unicode_len();
    let mut i: usize = 0;
    proof {
        assert(out@ + fname_escape(s@.subrange(0, 0)) =~= out@);
    }
    while i < n
        invariant
            i <= n,
            n == s@.len(),
            out@ =~= old(out)@ + fname_escape(s@.subrange(0, i as int)),
        decreases n - i,
    {
        let c = s.get_char(i);
        if c == '%' {
            out.append("%p");
            proof {
                reveal_strlit("%p");
                assert("%p"@ =~= fname_escape_char(c));
            }
        } else if c == '_' {
            out.append("%u");
            proof {
                reveal_strlit("%u");
                assert("%u"@ =~= fname_escape_char(c));
            }
        } else {
            push_char(out, c);
        }
        proof {
            assert(s@.subrange(0, i as int).push(c) =~= s@.subrange(0, i as int + 1));
            lemma_fname_escape_push(s@.subrange(0, i as int), c);
            assert(out@ =~= old(out)@ + fname_escape(s@.subrange(0, i as int + 1)));
        }
        i += 1;
    }
    proof {
        assert(s@.subrange(0, n as int) =~= s@);
    }
}

/// Escaping distributes over appending one character.
proof fn lemma_fname_escape_push(a: Seq<char>, c: char)
    ensures
        fname_escape(a.push(c)) == fname_escape(a) + fname_escape_char(c),
    decreases a.len(),
{
    if a.len() == 0 {
        assert(a.push(c)[0] == c);
        assert(a.push(c).skip(1) =~= Seq::<char>::empty());
        assert(fname_escape(Seq::<char>::empty()) == Seq::<char>::empty());
        assert(fname_escape_char(c) + Seq::<char>::empty() =~= fname_escape_char(c));
        assert(Seq::<char>::empty() + fname_escape_char(c) =~= fname_escape_char(c));
    } else {
        assert(a.push(c)[0] == a[0]);
        assert(a.push(c).skip(1) =~= a.skip(1).push(c));
        lemma_fname_escape_push(a.skip(1), c);
        assert(fname_escape_char(a[0]) + (fname_escape(a.skip(1)) + fname_escape_char(c)) =~= (
        fname_escape_char(a[0]) + fname_escape(a.skip(1))) + fname_escape_char(c));
    }
}

/// The persisted file name for one (session, branch) key.
pub fn branch_file_name(session: &str, branch: &str) -> (r: String)
    ensures
        r@ == fname_of(session@, branch@),
{
    let mut out = String::new();
    escape_part(&mut out, session);
    out.append("_");
    escape_part(&mut out, branch);
    out.append(".json");
    proof {
        reveal_strlit("_");
        assert("_"@ =~= seq!['_']);
        assert(out@ =~= fname_of(session@, branch@));
    }
    out
}

/// Splits a persisted file name back into its (session, branch) key.
pub fn split_file_name(name: &str) -> (r: Option<(String, String)>)
    ensures
        match r {
            Some((session, branch)) => parse_fname(name@) == Some((session@, branch@)),
            None => parse_fname(name@) is None,
        },
{
    let v = crate::persist::to_char_vec(name);
    let n = v.len();
    if n < 5 {
        return None;
    }
    proof {
        reveal_strlit(".json");
        assert(".json"@.len() == 5);
    }
    match crate::persist::p_lit(&v, n - 5, ".json") {
        Some(_) => {
            proof {
                let tail = name@.skip(name@.len() - 5);
                assert(tail.subrange(0, 5) =~= name@.subrange(name@.len() - 5, name@.len() as int));
            }
        },
        None => {
            proof {
                let tail = name@.skip(name@.len() - 5);
                assert(tail.subrange(0, 5) =~= name@.subrange(name@.len() - 5, name@.len() as int));
            }
            return None;
        },
    }
    let core_len = n - 5;
    let ghost core = name@.subrange(0, name@.len() - 5);
    let mut u: usize = 0;
    while u < core_len && v[u] != '_'
        invariant
            u <= core_len,
            5 <= n,
            core_len == n - 5,
            core_len == core.len(),
            core == name@.subrange(0, name@.len() - 5),
            n == name@.len(),
            v@ == name@,
            underscore_pos(core, 0) == underscore_pos(core, u as int),
        decreases core_len - u,
    {
        proof {
            assert(core[u as int] == v@[u as int]);
        }
        u += 1;
    }
    proof {
        if u < core_len {
            assert(core[u as int] == v@[u as int]);
        }
        assert(underscore_pos(core, 0) == u);
    }
    if u == core_len {
        return None;
    }
    let session = match unescape_range(&v, 0, u) {
        Some(s) => s,
        None => {
            proof {
                assert(v@.subrange(0, u as int) =~= core.subrange(0, u as int));
            }
            return None;
        },
    };
    proof {
        assert(v@.subrange(0, u as int) =~= core.subrange(0, u as int));
    }
    let branch = match unescape_range(&v, u + 1, core_len) {
        Some(b) => b,
        None => {
            proof {
                assert(v@.subrange(u as int + 1, core_len as int) =~= core.subrange(
                    u as int + 1,
                    core.len() as int,
                ));
            }
            return None;
        },
    };
    proof {
        assert(v@.subrange(u as int + 1, core_len as int) =~= core.subrange(
            u as int + 1,
            core.len() as int,
        ));
    }
    let mut w: usize = u + 1;
    while w < core_len && v[w] != '_'
        invariant
            u + 1 <= w <= core_len,
            5 <= n,
            core_len == n - 5,
            core_len == core.len(),
            core == name@.subrange(0, name@.len() - 5),
            n == name@.len(),
            v@ == name@,
            underscore_pos(core, u as int + 1) == underscore_pos(core, w as int),
        decreases core_len - w,
    {
        proof {
            assert(core[w as int] == v@[w as int]);
        }
        w += 1;
    }
    if w < core_len {
        proof {
            assert(core[w as int] == v@[w as int]);
            assert(underscore_pos(core, u as int + 1) < core.len());
        }
        return None;
    }
    proof {
        assert(underscore_pos(core, u as int + 1) == core.len());
    }
    Some((session, branch))
}

/// Decodes the escaped characters of `v` between `lo` and `hi`.
fn unescape_range(v: &Vec<char>, lo: usize, hi: usize) -> (r: Option<String>)
    requires
        lo <= hi <= v@.len(),
    ensures
        match r {
            Some(s) => fname_unescape(v@.subrange(lo as int, hi as int)) == Some(s@),
            None => fname_unescape(v@.subrange(lo as int, hi as int)) is None,
        },
    decreases hi - lo,
{
    let ghost s = v@.subrange(lo as int, hi as int);
    if lo == hi {
        let out = String::new();
        proof {
            assert(s =~= Seq::<char>::empty());
        }
        return Some(out);
    }
    proof {
        assert(s[0] == v@[lo as int]);
    }
    let c = v[lo];
    if c == '%' {
        if lo + 1 < hi {
            let e = v[lo + 1];
            proof {
                assert(s[1] == v@[lo as int + 1]);
            }
            if e == 'p' || e == 'u' {
                proof {
                    assert(s.skip(2) =~= v@.subrange(lo as int + 2, hi as int));
                }
                match unescape_range(v, lo + 2, hi) {
                    Some(t) => {
                        let decoded = if e == 'p' {
                            '%'
                        } else {
                            '_'
                        };
                        let mut out = String::new();
                        push_char(&mut out, decoded);
                        out.append(t.as_str());
                        proof {
                            assert(out@ =~= seq![decoded] + t@);
                        }
                        Some(out)
                    },
                    None => None,
                }
            } else {
                None
            }
        } else {
            proof {
                assert(s.len() < 2);
            }
            None
        }
    } else {
        proof {
            assert(s.skip(1) =~= v@.subrange(lo as int + 1, hi as int));
        }
        match unescape_range(v, lo + 1, hi) {
            Some(t) => {
                let mut out = String::new();
                push_char(&mut out, c);
                out.append(t.as_str());
                proof {
                    assert(out@ =~= seq![s[0]] + t@);
                }
                Some(out)
            },
            None => None,
        }
    }
}

} // verus!
