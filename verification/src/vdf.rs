//! Reading the library folders that Steam lists in `libraryfolders.vdf`.

use vstd::prelude::*;
use vstd::string::*;
use crate::pathsyntax::chars_of;

verus! {

broadcast use vstd::string::group_string_axioms;

/// The key that introduces a library folder: `"path"`, quotes included.
pub open spec fn path_key() -> Seq<char> {
    seq!['"', 'p', 'a', 't', 'h', '"']
}

/// The index of the first occurrence of `pat` in `s`, if any.
pub open spec fn find_seq(s: Seq<char>, pat: Seq<char>) -> Option<int>
    decreases s.len(),
{
    if s.len() < pat.len() {
        None
    } else if s.take(pat.len() as int) == pat {
        Some(0)
    } else if s.len() == 0 {
        None
    } else {
        match find_seq(s.drop_first(), pat) {
            Some(i) => Some(i + 1),
            None => None,
        }
    }
}

/// `s` with each pair of backslashes, read from the left, replaced by one.
pub open spec fn unescape(s: Seq<char>) -> Seq<char>
    decreases s.len(),
{
    if s.len() == 0 {
        s
    } else if s.len() >= 2 && s[0] == '\\' && s[1] == '\\' {
        seq!['\\'] + unescape(s.skip(2))
    } else {
        seq![s[0]] + unescape(s.skip(1))
    }
}

/// `s` with each backslash doubled.
pub open spec fn escape(s: Seq<char>) -> Seq<char>
    decreases s.len(),
{
    if s.len() == 0 {
        s
    } else if s[0] == '\\' {
        seq!['\\', '\\'] + escape(s.skip(1))
    } else {
        seq![s[0]] + escape(s.skip(1))
    }
}

pub proof fn lemma_find_seq_bounds(s: Seq<char>, pat: Seq<char>)
    ensures
        find_seq(s, pat) matches Some(i) ==> 0 <= i && i + pat.len() <= s.len() && s.subrange(
            i,
            i + pat.len(),
        ) == pat,
    decreases s.len(),
{
    if s.len() >= pat.len() && s.take(pat.len() as int) != pat && s.len() > 0 {
        lemma_find_seq_bounds(s.drop_first(), pat);
        if let Some(i) = find_seq(s.drop_first(), pat) {
            assert(s.subrange(i + 1, i + 1 + pat.len()) =~= s.drop_first().subrange(i, i + pat.len()));
        }
    }
}

/// The library folders named in the text of a `libraryfolders.vdf` file:
/// after each `"path"` key, the next quoted string, with its doubled
/// backslashes undone. Reading stops where a key or a quote is missing.
pub open spec fn spec_parse_library_paths(s: Seq<char>) -> Seq<Seq<char>>
    decreases s.len(),
{
    match find_seq(s, path_key()) {
        None => seq![],
        Some(i) => {
            let r = s.skip(i + 6);
            match find_seq(r, seq!['"']) {
                None => seq![],
                Some(o) => {
                    let a = r.skip(o + 1);
                    match find_seq(a, seq!['"']) {
                        None => seq![],
                        Some(c) => {
                            proof {
                                lemma_find_seq_bounds(s, path_key());
                                lemma_find_seq_bounds(r, seq!['"']);
                                lemma_find_seq_bounds(a, seq!['"']);
                            }
                            seq![unescape(a.take(c))] + spec_parse_library_paths(a.skip(c + 1))
                        },
                    }
                },
            }
        },
    }
}

/// One library entry as Steam writes it: the key, then the folder in quotes
/// with its backslashes doubled.
pub open spec fn vdf_entry(p: Seq<char>) -> Seq<char> {
    path_key() + seq!['\t', '\t', '"'] + escape(p) + seq!['"', '\n']
}

/// A file that lists the folders `ps`, one entry per folder.
pub open spec fn render_library_paths(ps: Seq<Seq<char>>) -> Seq<char>
    decreases ps.len(),
{
    if ps.len() == 0 {
        seq![]
    } else {
        vdf_entry(ps[0]) + render_library_paths(ps.skip(1))
    }
}

/// Undoing the doubling of backslashes gives back the text.
pub proof fn law_unescape_escape(s: Seq<char>)
    ensures
        unescape(escape(s)) == s,
    decreases s.len(),
{
    if s.len() > 0 {
        law_unescape_escape(s.skip(1));
        let e = escape(s.skip(1));
        if s[0] == '\\' {
            let t = seq!['\\', '\\'] + e;
            assert(t.skip(2) =~= e);
            assert(seq!['\\'] + s.skip(1) =~= s);
        } else {
            let t = seq![s[0]] + e;
            assert(t.skip(1) =~= e);
            assert(seq![s[0]] + s.skip(1) =~= s);
        }
    }
}

proof fn lemma_escape_no_quote(s: Seq<char>)
    requires
        !s.contains('"'),
    ensures
        !escape(s).contains('"'),
    decreases s.len(),
{
    if s.len() > 0 {
        assert forall|i: int| 0 <= i < s.skip(1).len() implies s.skip(1)[i] != '"' by {
            assert(s.skip(1)[i] == s[i + 1]);
        }
        lemma_escape_no_quote(s.skip(1));
        let e = escape(s.skip(1));
        assert(s[0] != '"');
        if s[0] == '\\' {
            let t = seq!['\\', '\\'] + e;
            assert forall|i: int| 0 <= i < t.len() implies t[i] != '"' by {
                if i >= 2 {
                    assert(t[i] == e[i - 2]);
                }
            }
        } else {
            let t = seq![s[0]] + e;
            assert forall|i: int| 0 <= i < t.len() implies t[i] != '"' by {
                if i >= 1 {
                    assert(t[i] == e[i - 1]);
                }
            }
        }
    }
}

proof fn lemma_find_after_prefix(x: Seq<char>, r: Seq<char>, pat: Seq<char>)
    requires
        pat.len() > 0,
        pat[0] == '"',
        !x.contains('"'),
    ensures
        find_seq(x + r, pat) == match find_seq(r, pat) {
            Some(i) => Some(i + x.len()),
            None => None::<int>,
        },
    decreases x.len(),
{
    if x.len() == 0 {
        assert(x + r =~= r);
    } else {
        let s = x + r;
        if s.len() >= pat.len() {
            assert(s.take(pat.len() as int)[0] == x[0]);
            assert(s.take(pat.len() as int) != pat);
            assert(s.drop_first() =~= x.drop_first() + r);
            assert forall|i: int| 0 <= i < x.drop_first().len() implies x.drop_first()[i] != '"' by {
                assert(x.drop_first()[i] == x[i + 1]);
            }
            lemma_find_after_prefix(x.drop_first(), r, pat);
        } else {
            lemma_find_seq_bounds(r, pat);
        }
    }
}

proof fn lemma_parse_after_prefix(x: Seq<char>, r: Seq<char>)
    requires
        !x.contains('"'),
    ensures
        spec_parse_library_paths(x + r) == spec_parse_library_paths(r),
{
    lemma_find_after_prefix(x, r, path_key());
    lemma_find_seq_bounds(r, path_key());
    if let Some(i) = find_seq(r, path_key()) {
        assert((x + r).skip(i + x.len() + 6) =~= r.skip(i + 6));
    }
}

/// Reading a file that lists folders without double quotes in their names
/// gives back exactly those folders, in order.
pub proof fn law_parse_render(ps: Seq<Seq<char>>)
    requires
        forall|i: int| 0 <= i < ps.len() ==> !(#[trigger] ps[i]).contains('"'),
    ensures
        spec_parse_library_paths(render_library_paths(ps)) == ps,
    decreases ps.len(),
{
    if ps.len() > 0 {
        let p = ps[0];
        let rest = ps.skip(1);
        assert forall|i: int| 0 <= i < rest.len() implies !(#[trigger] rest[i]).contains('"') by {
            assert(rest[i] == ps[i + 1]);
        }
        law_parse_render(rest);
        let big_r = render_library_paths(rest);
        let e = escape(p);
        lemma_escape_no_quote(p);
        law_unescape_escape(p);
        let s = render_library_paths(ps);
        assert(s =~= path_key() + (seq!['\t', '\t', '"'] + e + seq!['"', '\n'] + big_r));
        assert(s.take(6) =~= path_key());
        assert(find_seq(s, path_key()) == Some(0int));
        let r = s.skip(6);
        assert(r =~= seq!['\t', '\t'] + (seq!['"'] + e + seq!['"', '\n'] + big_r));
        assert((seq!['"'] + e + seq!['"', '\n'] + big_r).take(1) =~= seq!['"']);
        assert(find_seq(seq!['"'] + e + seq!['"', '\n'] + big_r, seq!['"']) == Some(0int));
        assert(!seq!['\t', '\t'].contains('"')) by {
            assert(seq!['\t', '\t'][0] != '"');
            assert(seq!['\t', '\t'][1] != '"');
        }
        lemma_find_after_prefix(seq!['\t', '\t'], seq!['"'] + e + seq!['"', '\n'] + big_r, seq!['"']);
        assert(find_seq(r, seq!['"']) == Some(2int));
        let a = r.skip(3);
        assert(a =~= e + (seq!['"', '\n'] + big_r));
        assert((seq!['"', '\n'] + big_r).take(1) =~= seq!['"']);
        assert(find_seq(seq!['"', '\n'] + big_r, seq!['"']) == Some(0int));
        lemma_find_after_prefix(e, seq!['"', '\n'] + big_r, seq!['"']);
        assert(find_seq(a, seq!['"']) == Some(e.len() as int));
        assert(a.take(e.len() as int) =~= e);
        assert(a.skip(e.len() as int + 1) =~= seq!['\n'] + big_r);
        assert(!seq!['\n'].contains('"')) by {
            assert(seq!['\n'][0] != '"');
        }
        lemma_parse_after_prefix(seq!['\n'], big_r);
        assert(seq![p] + rest =~= ps);
    }
}

proof fn lemma_find_step(s: Seq<char>, pat: Seq<char>, j: int)
    requires
        0 <= j < s.len(),
        s.len() - j >= pat.len(),
        s.skip(j).take(pat.len() as int) != pat,
    ensures
        find_seq(s.skip(j), pat) == match find_seq(s.skip(j + 1), pat) {
            Some(i) => Some(i + 1),
            None => None::<int>,
        },
{
    assert(s.skip(j).drop_first() =~= s.skip(j + 1));
}

/// The first index at or after `from` where `cs` holds `"path"`.
fn find_path_key(cs: &Vec<char>, from: usize) -> (res: Option<usize>)
    requires
        from <= cs.len(),
    ensures
        match find_seq(cs@.skip(from as int), path_key()) {
            Some(i) => res == Some((i + from) as usize),
            None => res is None,
        },
{
    let n = cs.len();
    let mut j = from;
    while j < n
        invariant
            from <= j <= n,
            n == cs.len(),
            find_seq(cs@.skip(from as int), path_key()) == match find_seq(cs@.skip(j as int), path_key()) {
                Some(i) => Some(i + (j - from)),
                None => None::<int>,
            },
        decreases n - j,
    {
        if n - j < 6 {
            assert(cs@.skip(j as int).len() < 6);
            return None;
        }
        if cs[j] == '"' && cs[j + 1] == 'p' && cs[j + 2] == 'a' && cs[j + 3] == 't' && cs[j + 4] == 'h'
            && cs[j + 5] == '"' {
            assert(cs@.skip(j as int).take(6) =~= path_key());
            return Some(j);
        }
        assert(cs@.skip(j as int).take(6) != path_key()) by {
            let t = cs@.skip(j as int).take(6);
            if t == path_key() {
                assert(t[0] == cs@[j as int]);
                assert(t[1] == cs@[j + 1]);
                assert(t[2] == cs@[j + 2]);
                assert(t[3] == cs@[j + 3]);
                assert(t[4] == cs@[j + 4]);
                assert(t[5] == cs@[j + 5]);
            }
        }
        proof {
            lemma_find_step(cs@, path_key(), j as int);
        }
        j += 1;
    }
    assert(cs@.skip(j as int).len() == 0);
    None
}

/// The first index at or after `from` where `cs` holds a double quote.
fn find_quote(cs: &Vec<char>, from: usize) -> (res: Option<usize>)
    requires
        from <= cs.len(),
    ensures
        match find_seq(cs@.skip(from as int), seq!['"']) {
            Some(i) => res == Some((i + from) as usize),
            None => res is None,
        },
{
    let n = cs.len();
    let mut j = from;
    while j < n
        invariant
            from <= j <= n,
            n == cs.len(),
            find_seq(cs@.skip(from as int), seq!['"']) == match find_seq(cs@.skip(j as int), seq!['"']) {
                Some(i) => Some(i + (j - from)),
                None => None::<int>,
            },
        decreases n - j,
    {
        if cs[j] == '"' {
            assert(cs@.skip(j as int).take(1) =~= seq!['"']);
            return Some(j);
        }
        assert(cs@.skip(j as int).take(1) != seq!['"']) by {
            assert(cs@.skip(j as int).take(1)[0] == cs@[j as int]);
        }
        proof {
            lemma_find_step(cs@, seq!['"'], j as int);
        }
        j += 1;
    }
    assert(cs@.skip(j as int).len() == 0);
    None
}

/// The characters of `s` between `start` and `end` with doubled
/// backslashes undone.
fn unescape_range(s: &str, cs: &Vec<char>, start: usize, end: usize) -> (res: String)
    requires
        cs@ == s@,
        start <= end <= cs.len(),
    ensures
        res@ == unescape(cs@.subrange(start as int, end as int)),
{
    let mut acc = String::new();
    let mut seg = start;
    let mut k = start;
    while k < end
        invariant
            start <= seg <= k <= end <= cs.len(),
            cs@ == s@,
            acc@ + cs@.subrange(seg as int, k as int) + unescape(cs@.subrange(k as int, end as int))
                == unescape(cs@.subrange(start as int, end as int)),
        decreases end - k,
    {
        let ghost sub = cs@.subrange(k as int, end as int);
        if k + 1 < end && cs[k] == '\\' && cs[k + 1] == '\\' {
            assert(sub.skip(2) =~= cs@.subrange(k + 2, end as int));
            let piece = s.substring_char(seg, k + 1);
            let ghost old_acc = acc@;
            acc.append(piece);
            assert(cs@.subrange(seg as int, k + 1) =~= cs@.subrange(seg as int, k as int) + seq!['\\']);
            assert(acc@ + cs@.subrange(k + 2, k + 2) =~= old_acc + cs@.subrange(seg as int, k as int)
                + seq!['\\']);
            assert(old_acc + cs@.subrange(seg as int, k as int) + (seq!['\\'] + unescape(
                cs@.subrange(k + 2, end as int),
            )) =~= old_acc + cs@.subrange(seg as int, k as int) + seq!['\\'] + unescape(
                cs@.subrange(k + 2, end as int),
            ));
            k = k + 2;
            seg = k;
        } else {
            assert(sub.skip(1) =~= cs@.subrange(k + 1, end as int));
            assert(cs@.subrange(seg as int, k + 1) =~= cs@.subrange(seg as int, k as int) + seq![
                cs@[k as int],
            ]);
            assert(acc@ + cs@.subrange(seg as int, k as int) + (seq![cs@[k as int]] + unescape(
                cs@.subrange(k + 1, end as int),
            )) =~= acc@ + cs@.subrange(seg as int, k + 1) + unescape(
                cs@.subrange(k + 1, end as int),
            ));
            k = k + 1;
        }
    }
    assert(cs@.subrange(k as int, end as int).len() == 0);
    let ghost old_acc = acc@;
    let piece = s.substring_char(seg, end);
    acc.append(piece);
    assert(acc@ =~= old_acc + cs@.subrange(seg as int, k as int) + unescape(
        cs@.subrange(k as int, end as int),
    ));
    acc
}

/// The library folders named in the text of a `libraryfolders.vdf` file.
pub fn parse_library_paths(vdf: &str) -> (res: Vec<String>)
    ensures
        res.deep_view() == spec_parse_library_paths(vdf@),
{
    let cs = chars_of(vdf);
    let n = cs.len();
    let mut out: Vec<String> = Vec::new();
    let mut pos: usize = 0;
    assert(cs@.skip(0) =~= cs@);
    loop
        invariant
            pos <= n,
            n == cs.len(),
            cs@ == vdf@,
            out.deep_view() + spec_parse_library_paths(cs@.skip(pos as int)) == spec_parse_library_paths(
                vdf@,
            ),
        ensures
            out.deep_view() == spec_parse_library_paths(vdf@),
        decreases n - pos,
    {
        let ghost rest = cs@.skip(pos as int);
        let ghost o0 = out.deep_view();
        let i = match find_path_key(&cs, pos) {
            None => {
                assert(o0 + spec_parse_library_paths(rest) =~= o0);
                break ;
            },
            Some(i) => i,
        };
        proof {
            lemma_find_seq_bounds(rest, path_key());
        }
        let after = i + 6;
        assert(rest.skip((i - pos) + 6) =~= cs@.skip(after as int));
        let open_q = match find_quote(&cs, after) {
            None => {
                assert(o0 + spec_parse_library_paths(rest) =~= o0);
                break ;
            },
            Some(o) => o,
        };
        proof {
            lemma_find_seq_bounds(cs@.skip(after as int), seq!['"']);
        }
        let start = open_q + 1;
        assert(cs@.skip(after as int).skip((open_q - after) + 1) =~= cs@.skip(start as int));
        let close_q = match find_quote(&cs, start) {
            None => {
                assert(o0 + spec_parse_library_paths(rest) =~= o0);
                break ;
            },
            Some(c) => c,
        };
        proof {
            lemma_find_seq_bounds(cs@.skip(start as int), seq!['"']);
        }
        let ghost a = cs@.skip(start as int);
        assert(a.take(close_q - start) =~= cs@.subrange(start as int, close_q as int));
        assert(a.skip((close_q - start) + 1) =~= cs@.skip(close_q + 1));
        let p = unescape_range(vdf, &cs, start, close_q);
        out.push(p);
        assert(out.deep_view() =~= o0.push(p@));
        assert(o0 + spec_parse_library_paths(rest) =~= out.deep_view() + spec_parse_library_paths(
            cs@.skip(close_q + 1),
        ));
        pos = close_q + 1;
    }
    out
}

} // verus!
