//! The syntax of path strings on Unix and on Windows: components, joining,
//! the parent, and when two paths name the same place.
//!
//! On Unix only `/` separates. On Windows both `\` and `/` separate, except
//! after a verbatim prefix (`\\?\`), where only `\` does; a path may start
//! with a prefix: a drive (`C:`), a share (`\\server\share`), a device
//! (`\\.\name`) or one of the verbatim forms.

use vstd::prelude::*;
use vstd::string::*;

verus! {

broadcast use vstd::string::group_string_axioms;

/// The path syntax of the machine the paths belong to.
#[derive(Debug, Clone, Copy, PartialEq, Eq, Structural)]
pub enum PathStyle {
    Unix,
    Windows,
}

/// The kinds of Windows path prefixes.
#[derive(Debug, Clone, Copy, PartialEq, Eq, Structural)]
pub enum PrefixKind {
    /// `\\?\name`
    Verbatim,
    /// `\\?\UNC\server\share`
    VerbatimUnc,
    /// `\\?\C:`
    VerbatimDisk,
    /// `\\.\name`
    DeviceNs,
    /// `\\server\share`
    Unc,
    /// `C:`
    Disk,
}

/// A prefix by what it names: its kind and its one or two names (a drive
/// letter in upper case).
pub struct PrefixView {
    pub kind: PrefixKind,
    pub a: Seq<char>,
    pub b: Seq<char>,
}

/// The components of a path: its prefix, whether it has a root, and the
/// rest (where `.` stands for the current directory and `..` for the
/// parent).
pub struct PathComps {
    pub prefix: Option<PrefixView>,
    pub root: bool,
    pub body: Seq<Seq<char>>,
}

pub open spec fn is_verbatim(k: PrefixKind) -> bool {
    k == PrefixKind::Verbatim || k == PrefixKind::VerbatimUnc || k == PrefixKind::VerbatimDisk
}

/// A Windows separator; after a verbatim prefix only `\`.
pub open spec fn wsep(verbatim: bool, c: char) -> bool {
    c == '\\' || (!verbatim && c == '/')
}

/// A separator of the style.
pub open spec fn sep(style: PathStyle, verbatim: bool, c: char) -> bool {
    match style {
        PathStyle::Unix => c == '/',
        PathStyle::Windows => wsep(verbatim, c),
    }
}

/// The index of the first Windows separator in `s`, or its length.
pub open spec fn first_sep(s: Seq<char>, verbatim: bool) -> int
    decreases s.len(),
{
    if s.len() == 0 {
        0
    } else if wsep(verbatim, s[0]) {
        0
    } else {
        1 + first_sep(s.skip(1), verbatim)
    }
}

/// `s` up to its first separator.
pub open spec fn next_comp(s: Seq<char>, verbatim: bool) -> Seq<char> {
    s.take(first_sep(s, verbatim))
}

/// `s` after its first separator (empty without one).
pub open spec fn after_comp(s: Seq<char>, verbatim: bool) -> Seq<char> {
    if first_sep(s, verbatim) < s.len() {
        s.skip(first_sep(s, verbatim) + 1)
    } else {
        Seq::empty()
    }
}

pub open spec fn starts_with(s: Seq<char>, pre: Seq<char>) -> bool {
    s.len() >= pre.len() && s.take(pre.len() as int) == pre
}

pub open spec fn is_alpha(c: char) -> bool {
    ('a' <= c && c <= 'z') || ('A' <= c && c <= 'Z')
}

pub open spec fn upper(c: char) -> char {
    if 'a' <= c && c <= 'z' {
        ((c as u32) - 32) as char
    } else {
        c
    }
}

/// `s` starts with a drive: a letter and a colon.
pub open spec fn is_drive(s: Seq<char>) -> bool {
    s.len() >= 2 && is_alpha(s[0]) && s[1] == ':'
}

/// `s` is a drive, or a drive followed by a separator.
pub open spec fn is_drive_exact(s: Seq<char>) -> bool {
    is_drive(s) && (s.len() == 2 || wsep(false, s[2]))
}

/// The Windows prefix that `p` starts with, and its length.
pub open spec fn win_prefix(p: Seq<char>) -> Option<(PrefixView, int)> {
    if starts_with(p, seq!['\\', '\\']) {
        let r = p.skip(2);
        if starts_with(r, seq!['?', '\\']) {
            let r2 = r.skip(2);
            if starts_with(r2, seq!['U', 'N', 'C', '\\']) {
                let r3 = r2.skip(4);
                let server = next_comp(r3, true);
                let share = next_comp(after_comp(r3, true), true);
                Some(
                    (
                        PrefixView { kind: PrefixKind::VerbatimUnc, a: server, b: share },
                        8 + server.len() + if share.len() > 0 {
                            1 + share.len() as int
                        } else {
                            0int
                        },
                    ),
                )
            } else {
                let x = next_comp(r2, true);
                if is_drive_exact(x) {
                    Some(
                        (
                            PrefixView {
                                kind: PrefixKind::VerbatimDisk,
                                a: seq![upper(x[0])],
                                b: Seq::empty(),
                            },
                            6int,
                        ),
                    )
                } else {
                    Some(
                        (
                            PrefixView { kind: PrefixKind::Verbatim, a: x, b: Seq::empty() },
                            4 + x.len() as int,
                        ),
                    )
                }
            }
        } else if starts_with(r, seq!['.', '\\']) {
            let x = next_comp(r.skip(2), false);
            Some((PrefixView { kind: PrefixKind::DeviceNs, a: x, b: Seq::empty() }, 4 + x.len() as int))
        } else {
            let server = next_comp(r, false);
            let share = next_comp(after_comp(r, false), false);
            if server.len() > 0 && share.len() > 0 {
                Some(
                    (
                        PrefixView { kind: PrefixKind::Unc, a: server, b: share },
                        2 + server.len() as int + 1 + share.len() as int,
                    ),
                )
            } else {
                None
            }
        }
    } else if is_drive(p) {
        Some((PrefixView { kind: PrefixKind::Disk, a: seq![upper(p[0])], b: Seq::empty() }, 2int))
    } else {
        None
    }
}

/// The prefix of `p` under the style.
pub open spec fn path_prefix(style: PathStyle, p: Seq<char>) -> Option<(PrefixView, int)> {
    match style {
        PathStyle::Unix => None,
        PathStyle::Windows => win_prefix(p),
    }
}

/// The length of the prefix of `p` (0 without one).
pub open spec fn prefix_len(style: PathStyle, p: Seq<char>) -> int {
    match path_prefix(style, p) {
        Some((_, l)) => l,
        None => 0,
    }
}

/// The pieces of `s` between separators, empty ones included.
pub open spec fn raw_pieces(style: PathStyle, verbatim: bool, s: Seq<char>) -> Seq<Seq<char>>
    decreases s.len(),
{
    if s.len() == 0 {
        seq![Seq::<char>::empty()]
    } else {
        let r = raw_pieces(style, verbatim, s.drop_last());
        if sep(style, verbatim, s.last()) {
            r.push(Seq::<char>::empty())
        } else {
            r.update(r.len() - 1, r.last().push(s.last()))
        }
    }
}

/// A piece that stands as a component: not empty, and not `.` unless the
/// path is verbatim.
pub open spec fn keep_piece(verbatim: bool, piece: Seq<char>) -> bool {
    piece.len() > 0 && (verbatim || piece != seq!['.'])
}

/// The pieces that stand as components.
pub open spec fn kept_pieces(verbatim: bool, pieces: Seq<Seq<char>>) -> Seq<Seq<char>>
    decreases pieces.len(),
{
    if pieces.len() == 0 {
        pieces
    } else {
        let r = kept_pieces(verbatim, pieces.drop_last());
        if keep_piece(verbatim, pieces.last()) {
            r.push(pieces.last())
        } else {
            r
        }
    }
}

/// The components of `s` after any prefix and root: its pieces that stand
/// as components, with a leading `.` kept when `lead_dot`.
pub open spec fn lead_body(style: PathStyle, verbatim: bool, s: Seq<char>, lead_dot: bool) -> Seq<
    Seq<char>,
> {
    let raw = raw_pieces(style, verbatim, s);
    if lead_dot && raw[0] == seq!['.'] {
        seq![seq!['.']] + kept_pieces(verbatim, raw.skip(1))
    } else {
        kept_pieces(verbatim, raw)
    }
}

/// The components of a path without a prefix: a root when it starts with a
/// separator, and a leading `.` kept in a relative path.
pub open spec fn plain_components(style: PathStyle, p: Seq<char>) -> PathComps {
    let root = p.len() > 0 && sep(style, false, p[0]);
    PathComps { prefix: None, root, body: lead_body(style, false, p, !root) }
}

/// The components of a path.
pub open spec fn components_rule(style: PathStyle, p: Seq<char>) -> PathComps {
    match path_prefix(style, p) {
        None => plain_components(style, p),
        Some((pv, len)) => {
            let rest = p.skip(len);
            let v = is_verbatim(pv.kind);
            let physical = rest.len() > 0 && wsep(false, rest[0]);
            PathComps {
                prefix: Some(pv),
                root: physical || pv.kind == PrefixKind::Unc || pv.kind == PrefixKind::DeviceNs,
                body: lead_body(
                    style,
                    v,
                    if physical {
                        rest.skip(1)
                    } else {
                        rest
                    },
                    pv.kind == PrefixKind::Disk && !physical,
                ),
            }
        },
    }
}

/// The components of a path, as `components_rule` gives them. Closed, so
/// that proofs elsewhere unfold it only through
/// `lemma_path_components_def`.
pub closed spec fn path_components(style: PathStyle, p: Seq<char>) -> PathComps {
    components_rule(style, p)
}

/// `path_components` is `components_rule`.
pub proof fn lemma_path_components_def(style: PathStyle, p: Seq<char>)
    ensures
        path_components(style, p) == components_rule(style, p),
{
}

/// Two paths name the same place: they have the same components.
pub open spec fn same_path(style: PathStyle, a: Seq<char>, b: Seq<char>) -> bool {
    path_components(style, a) == path_components(style, b)
}

/// The separator the style writes.
pub open spec fn main_sep(style: PathStyle) -> char {
    match style {
        PathStyle::Unix => '/',
        PathStyle::Windows => '\\',
    }
}

/// The pieces joined by `c`.
pub open spec fn join_with(segs: Seq<Seq<char>>, c: char) -> Seq<char>
    decreases segs.len(),
{
    if segs.len() == 0 {
        Seq::empty()
    } else if segs.len() == 1 {
        segs[0]
    } else {
        join_with(segs.drop_last(), c) + seq![c] + segs.last()
    }
}

/// Whether `p` has a verbatim prefix.
pub open spec fn path_verbatim(style: PathStyle, p: Seq<char>) -> bool {
    match path_prefix(style, p) {
        Some((pv, _)) => is_verbatim(pv.kind),
        None => false,
    }
}

/// Whether a separator follows the prefix of `p`.
pub open spec fn physical_root(style: PathStyle, p: Seq<char>) -> bool {
    let rest = p.skip(prefix_len(style, p));
    rest.len() > 0 && sep(style, false, rest[0])
}

/// Whether `p` starts with a `.` component: it has no prefix or only a
/// drive, and what follows is `.` alone or `.` and a separator.
pub open spec fn has_cur_dir(style: PathStyle, p: Seq<char>) -> bool {
    let rest = p.skip(prefix_len(style, p));
    let plain_or_drive = match path_prefix(style, p) {
        None => true,
        Some((pv, _)) => pv.kind == PrefixKind::Disk,
    };
    plain_or_drive && rest.len() > 0 && rest[0] == '.' && (rest.len() == 1 || sep(
        style,
        false,
        rest[1],
    ))
}

/// The length of the prefix, the root and a leading `.` of `p`.
pub open spec fn before_body_len(style: PathStyle, p: Seq<char>) -> int {
    prefix_len(style, p) + (if physical_root(style, p) {
        1int
    } else {
        0int
    }) + (if has_cur_dir(style, p) {
        1int
    } else {
        0int
    })
}

/// The index of the last separator in `s`, or -1.
pub open spec fn last_sep_pos(style: PathStyle, verbatim: bool, s: Seq<char>) -> int
    decreases s.len(),
{
    if s.len() == 0 {
        -1
    } else if sep(style, verbatim, s.last()) {
        s.len() - 1
    } else {
        last_sep_pos(style, verbatim, s.drop_last())
    }
}

/// The last piece of `s`: what follows its last separator.
pub open spec fn last_piece(style: PathStyle, verbatim: bool, s: Seq<char>) -> Seq<char> {
    s.skip(last_sep_pos(style, verbatim, s) + 1)
}

/// `s` without its last piece and the separator before it.
pub open spec fn cut_back(style: PathStyle, verbatim: bool, s: Seq<char>) -> Seq<char> {
    let i = last_sep_pos(style, verbatim, s);
    if i < 0 {
        Seq::empty()
    } else {
        s.take(i)
    }
}

/// The last separator, when there is one, lies inside `s`.
pub proof fn lemma_last_sep_pos_bounds(style: PathStyle, verbatim: bool, s: Seq<char>)
    ensures
        -1 <= last_sep_pos(style, verbatim, s) < s.len(),
        last_sep_pos(style, verbatim, s) >= 0 ==> sep(
            style,
            verbatim,
            s[last_sep_pos(style, verbatim, s)],
        ),
    decreases s.len(),
{
    if s.len() > 0 && !sep(style, verbatim, s.last()) {
        lemma_last_sep_pos_bounds(style, verbatim, s.drop_last());
    }
}

/// `s` without the pieces at its end that are not components (empty ones
/// and, unless verbatim, `.`).
pub open spec fn trim_back(style: PathStyle, verbatim: bool, s: Seq<char>) -> Seq<char>
    decreases s.len(),
{
    if s.len() == 0 {
        s
    } else if keep_piece(verbatim, last_piece(style, verbatim, s)) {
        s
    } else {
        proof {
            lemma_last_sep_pos_bounds(style, verbatim, s);
        }
        trim_back(style, verbatim, cut_back(style, verbatim, s))
    }
}

/// The parent directory: `p` up to the end of its second last component,
/// or up to its prefix, root or leading `.` when it has only one; none when
/// the last component is a prefix or a root or there is none.
pub open spec fn parent_rule(style: PathStyle, p: Seq<char>) -> Option<Seq<char>> {
    let lbb = before_body_len(style, p);
    let v = path_verbatim(style, p);
    let t = trim_back(style, v, p.skip(lbb));
    if t.len() > 0 {
        Some(p.take(lbb) + trim_back(style, v, cut_back(style, v, t)))
    } else if has_cur_dir(style, p) {
        Some(p.take(lbb - 1))
    } else {
        None
    }
}

/// The parent directory, as `parent_rule` gives it. Closed, so that proofs
/// elsewhere unfold it only through `lemma_path_parent_def`.
pub closed spec fn spec_path_parent(style: PathStyle, p: Seq<char>) -> Option<Seq<char>> {
    parent_rule(style, p)
}

/// `spec_path_parent` is `parent_rule`.
pub proof fn lemma_path_parent_def(style: PathStyle, p: Seq<char>)
    ensures
        spec_path_parent(style, p) == parent_rule(style, p),
{
}

/// A component that names a directory entry (not `.` or `..`).
pub open spec fn is_normal(piece: Seq<char>) -> bool {
    piece != seq!['.'] && piece != seq!['.', '.']
}

/// `body` with `pieces` applied: `.` is dropped, `..` removes a preceding
/// entry name, anything else is appended.
pub open spec fn fold_pieces(body: Seq<Seq<char>>, pieces: Seq<Seq<char>>) -> Seq<Seq<char>>
    decreases pieces.len(),
{
    if pieces.len() == 0 {
        body
    } else {
        let c = pieces[0];
        let next = if c == seq!['.'] {
            body
        } else if c == seq!['.', '.'] {
            if body.len() > 0 && is_normal(body.last()) {
                body.drop_last()
            } else {
                body
            }
        } else {
            body.push(c)
        };
        fold_pieces(next, pieces.skip(1))
    }
}

/// `rel` joined onto a verbatim `base`: the components are combined, `.`
/// and `..` resolved, and the result written with `\`.
pub open spec fn verbatim_join(base: Seq<char>, rel: Seq<char>) -> Seq<char> {
    let bc = path_components(PathStyle::Windows, base);
    let rc = path_components(PathStyle::Windows, rel);
    let root = bc.root || rc.root;
    let body = if rc.root {
        fold_pieces(Seq::empty(), rc.body)
    } else {
        fold_pieces(bc.body, rc.body)
    };
    base.take(prefix_len(PathStyle::Windows, base)) + (if root || body.len() > 0 {
        seq!['\\']
    } else {
        Seq::empty()
    }) + join_with(body, '\\')
}

/// `base` joined with `rel`.
///
/// On Unix: an absolute `rel` replaces `base`; otherwise a `/` separates
/// the two unless `base` is empty or already ends in one.
///
/// On Windows: a `rel` with a prefix replaces `base`; onto a verbatim
/// `base` a non-empty `rel` is joined by components; a `rel` with a root
/// keeps only the prefix of `base`; otherwise a `\` separates the two
/// unless `base` is empty, ends in a separator, or is a bare drive.
pub open spec fn join_rule(style: PathStyle, base: Seq<char>, rel: Seq<char>) -> Seq<char> {
    match style {
        PathStyle::Unix => if rel.len() > 0 && rel[0] == '/' {
            rel
        } else if base.len() == 0 || base.last() == '/' {
            base + rel
        } else {
            base + seq!['/'] + rel
        },
        PathStyle::Windows => {
            let bp = win_prefix(base);
            if win_prefix(rel) is Some {
                rel
            } else if (bp matches Some((pv, _)) && is_verbatim(pv.kind)) && rel.len() > 0 {
                verbatim_join(base, rel)
            } else if rel.len() > 0 && wsep(false, rel[0]) {
                base.take(prefix_len(PathStyle::Windows, base)) + rel
            } else {
                let bare_drive = bp matches Some((pv, l)) && pv.kind == PrefixKind::Disk && l
                    == base.len();
                if base.len() > 0 && !wsep(false, base.last()) && !bare_drive {
                    base + seq!['\\'] + rel
                } else {
                    base + rel
                }
            }
        },
    }
}

/// `base` joined with `rel`, as `join_rule` gives it. Closed, so that
/// proofs elsewhere unfold it only through `lemma_path_join_def`.
pub closed spec fn spec_path_join(style: PathStyle, base: Seq<char>, rel: Seq<char>) -> Seq<char> {
    join_rule(style, base, rel)
}

/// `spec_path_join` is `join_rule`.
pub proof fn lemma_path_join_def(style: PathStyle, base: Seq<char>, rel: Seq<char>)
    ensures
        spec_path_join(style, base, rel) == join_rule(style, base, rel),
{
}

proof fn lemma_last_sep_pos_add(style: PathStyle, verbatim: bool, x: Seq<char>, a: Seq<char>)
    ensures
        last_sep_pos(style, verbatim, x + a) == if last_sep_pos(style, verbatim, a) >= 0 {
            x.len() + last_sep_pos(style, verbatim, a)
        } else {
            last_sep_pos(style, verbatim, x)
        },
    decreases a.len(),
{
    if a.len() == 0 {
        assert(x + a =~= x);
    } else {
        lemma_last_sep_pos_add(style, verbatim, x, a.drop_last());
        assert((x + a).drop_last() =~= x + a.drop_last());
        assert((x + a).last() == a.last());
    }
}

proof fn lemma_no_sep(style: PathStyle, verbatim: bool, a: Seq<char>)
    requires
        forall|i: int| 0 <= i < a.len() ==> !sep(style, verbatim, #[trigger] a[i]),
    ensures
        last_sep_pos(style, verbatim, a) == -1,
    decreases a.len(),
{
    if a.len() > 0 {
        let d = a.drop_last();
        assert forall|i: int| 0 <= i < d.len() implies !sep(style, verbatim, #[trigger] d[i]) by {
            assert(d[i] == a[i]);
        }
        lemma_no_sep(style, verbatim, d);
        assert(a[a.len() - 1] == a.last());
    }
}

/// On Unix, a relative part joined onto a base that does not end in `/` is
/// the base, a `/` and the part.
pub proof fn law_join_relative_unix(base: Seq<char>, rel: Seq<char>)
    requires
        base.len() > 0,
        base.last() != '/',
        rel.len() == 0 || rel[0] != '/',
    ensures
        spec_path_join(PathStyle::Unix, base, rel) == base + seq!['/'] + rel,
{
}

proof fn lemma_join_start(base: Seq<char>, name: Seq<char>)
    requires
        base.len() > 0,
        base != seq!['.'],
        name.len() > 0,
        name[0] != '/',
    ensures
        before_body_len(PathStyle::Unix, base + seq!['/'] + name) == before_body_len(
            PathStyle::Unix,
            base,
        ),
        0 <= before_body_len(PathStyle::Unix, base) <= 1,
        physical_root(PathStyle::Unix, base) ==> base[0] == '/',
        has_cur_dir(PathStyle::Unix, base) ==> base.len() >= 2 && base[1] == '/',
{
    let u = PathStyle::Unix;
    let p = base + seq!['/'] + name;
    assert(p[0] == base[0]);
    if base.len() == 1 && base[0] == '.' {
        assert(base =~= seq!['.']);
    }
    if base.len() > 1 {
        assert(p[1] == base[1]);
    } else {
        assert(p[1] == '/');
    }
    assert(p.skip(0) =~= p);
    assert(base.skip(0) =~= base);
}

proof fn lemma_join_region(a: Seq<char>, name: Seq<char>)
    requires
        keep_piece(false, name),
        forall|i: int| 0 <= i < name.len() ==> #[trigger] name[i] != '/',
    ensures
        trim_back(PathStyle::Unix, false, a + seq!['/'] + name) == a + seq!['/'] + name,
        cut_back(PathStyle::Unix, false, a + seq!['/'] + name) == a,
{
    let u = PathStyle::Unix;
    let r = a + seq!['/'] + name;
    lemma_no_sep(u, false, name);
    lemma_last_sep_pos_add(u, false, a, seq!['/']);
    assert(last_sep_pos(u, false, seq!['/']) == 0) by {
        assert(seq!['/'].last() == '/');
    }
    lemma_last_sep_pos_add(u, false, a + seq!['/'], name);
    assert(last_sep_pos(u, false, r) == a.len());
    assert(last_piece(u, false, r) =~= name);
    assert(cut_back(u, false, r) =~= a);
}

#[verifier::spinoff_prover]
proof fn lemma_base_tail(base: Seq<char>, lbb: int)
    requires
        keep_piece(false, last_piece(PathStyle::Unix, false, base)),
        0 <= lbb <= 1,
        lbb <= base.len(),
        lbb == 1 ==> base[0] == '/' || (base.len() >= 2 && base[1] == '/'),
    ensures
        trim_back(PathStyle::Unix, false, base.skip(lbb)) == base.skip(lbb),
{
    let u = PathStyle::Unix;
    let a = base.skip(lbb);
    if a.len() > 0 {
        let x = base.take(lbb);
        assert(base =~= x + a);
        lemma_last_sep_pos_add(u, false, x, a);
        lemma_last_sep_pos_bounds(u, false, a);
        if last_sep_pos(u, false, a) >= 0 {
            assert(last_piece(u, false, a) =~= last_piece(u, false, base));
        } else if lbb == 0 {
            assert(a =~= base);
            assert(last_piece(u, false, a) == last_piece(u, false, base));
        } else if base[0] == '/' {
            assert(x =~= seq!['/']);
            assert(last_sep_pos(u, false, x) == 0) by {
                assert(x.last() == '/');
            }
            assert(last_sep_pos(u, false, base) == 0);
            assert(last_piece(u, false, base) =~= a);
            assert(last_sep_pos(u, false, a) == -1);
            assert(a.skip(0) =~= a);
            assert(last_piece(u, false, a) =~= a);
        } else {
            assert(a[0] == base[1]);
            lemma_no_sep_contra(u, false, a);
        }
        assert(keep_piece(false, last_piece(u, false, a)));
        assert(trim_back(u, false, a) == a);
    } else {
        assert(trim_back(u, false, a) == a);
    }
}

/// On Unix, the parent of a base joined with a name is the base, when the
/// name is one component (not empty, not `.`, without `/`) and the base
/// ends in a component.
pub proof fn law_parent_of_join_unix(base: Seq<char>, name: Seq<char>)
    requires
        keep_piece(false, last_piece(PathStyle::Unix, false, base)),
        keep_piece(false, name),
        forall|i: int| 0 <= i < name.len() ==> #[trigger] name[i] != '/',
    ensures
        spec_path_parent(PathStyle::Unix, spec_path_join(PathStyle::Unix, base, name)) == Some(base),
{
    let u = PathStyle::Unix;
    lemma_last_sep_pos_bounds(u, false, base);
    assert(base.len() > 0) by {
        if base.len() == 0 {
            assert(last_piece(u, false, base) =~= Seq::<char>::empty());
        }
    }
    assert(base.last() != '/') by {
        if base.last() == '/' {
            assert(last_piece(u, false, base) =~= Seq::<char>::empty());
        }
    }
    assert(base != seq!['.']) by {
        if base == seq!['.'] {
            assert(base.last() == '.');
            assert(last_piece(u, false, base) =~= base);
        }
    }
    assert(name[0] != '/');
    let p = base + seq!['/'] + name;
    law_join_relative_unix(base, name);
    lemma_join_start(base, name);
    let lbb = before_body_len(u, base);
    let a = base.skip(lbb);
    assert(p.skip(lbb) =~= a + seq!['/'] + name);
    lemma_join_region(a, name);
    lemma_base_tail(base, lbb);
    assert(p.take(lbb) + a =~= base);
    lemma_path_parent_def(u, p);
}

proof fn lemma_no_sep_contra(style: PathStyle, verbatim: bool, a: Seq<char>)
    requires
        a.len() > 0,
        sep(style, verbatim, a[0]),
    ensures
        last_sep_pos(style, verbatim, a) >= 0,
    decreases a.len(),
{
    if !sep(style, verbatim, a.last()) {
        let d = a.drop_last();
        assert(d.len() > 0) by {
            if d.len() == 0 {
                assert(a[0] == a.last());
            }
        }
        assert(d[0] == a[0]);
        lemma_no_sep_contra(style, verbatim, d);
    }
}

proof fn lemma_starts_with(s: Seq<char>, pre: Seq<char>)
    ensures
        starts_with(s, pre) <==> (s.len() >= pre.len() && forall|i: int|
            0 <= i < pre.len() ==> s[i] == pre[i]),
{
    if s.len() >= pre.len() && (forall|i: int| 0 <= i < pre.len() ==> s[i] == pre[i]) {
        assert(s.take(pre.len() as int) =~= pre);
    }
    if starts_with(s, pre) {
        assert forall|i: int| 0 <= i < pre.len() implies s[i] == pre[i] by {
            assert(s.take(pre.len() as int)[i] == s[i]);
        }
    }
}

proof fn lemma_first_sep_bounds(s: Seq<char>, verbatim: bool)
    ensures
        0 <= first_sep(s, verbatim) <= s.len(),
    decreases s.len(),
{
    if s.len() > 0 && !wsep(verbatim, s[0]) {
        lemma_first_sep_bounds(s.skip(1), verbatim);
    }
}

/// The characters of `s`.
pub(crate) fn chars_of(s: &str) -> (v: Vec<char>)
    ensures
        v@ == s@,
{
    let mut v: Vec<char> = Vec::new();
    for c in it: s.chars()
        invariant
            v@ == it.seq().take(it.index() as int),
    {
        v.push(c);
    }
    v
}

fn wsep_exec(verbatim: bool, c: char) -> (res: bool)
    ensures
        res == wsep(verbatim, c),
{
    c == '\\' || (!verbatim && c == '/')
}

fn sep_exec(style: PathStyle, verbatim: bool, c: char) -> (res: bool)
    ensures
        res == sep(style, verbatim, c),
{
    match style {
        PathStyle::Unix => c == '/',
        PathStyle::Windows => wsep_exec(verbatim, c),
    }
}

fn upper_exec(c: char) -> (r: char)
    ensures
        r == upper(c),
{
    if 'a' <= c && c <= 'z' {
        let u: u32 = c as u32;
        let v: u8 = (u - 32) as u8;
        assert(v as u32 == u - 32);
        let r = v as char;
        assert(r as u32 == v as u32);
        r
    } else {
        c
    }
}

fn is_alpha_exec(c: char) -> (res: bool)
    ensures
        res == is_alpha(c),
{
    ('a' <= c && c <= 'z') || ('A' <= c && c <= 'Z')
}

/// The index of the first separator at or after `start`, or the length.
fn first_sep_exec(cs: &Vec<char>, start: usize, verbatim: bool) -> (res: usize)
    requires
        start <= cs.len(),
    ensures
        start <= res <= cs.len(),
        res - start == first_sep(cs@.skip(start as int), verbatim),
{
    let mut j = start;
    proof {
        lemma_first_sep_bounds(cs@.skip(start as int), verbatim);
    }
    while j < cs.len() && !wsep_exec(verbatim, cs[j])
        invariant
            start <= j <= cs.len(),
            first_sep(cs@.skip(start as int), verbatim) == (j - start) + first_sep(
                cs@.skip(j as int),
                verbatim,
            ),
        decreases cs.len() - j,
    {
        assert(cs@.skip(j as int)[0] == cs@[j as int]);
        assert(cs@.skip(j as int).skip(1) =~= cs@.skip(j + 1));
        j += 1;
    }
    if j < cs.len() {
        assert(cs@.skip(j as int)[0] == cs@[j as int]);
    }
    j
}

/// A prefix as found: its kind, names and length.
struct PrefixExec {
    kind: PrefixKind,
    a: Vec<char>,
    b: Vec<char>,
    len: usize,
}

spec fn prefix_matches(r: Option<PrefixExec>, s: Option<(PrefixView, int)>) -> bool {
    match (r, s) {
        (None, None) => true,
        (Some(e), Some((pv, l))) => pv == PrefixView { kind: e.kind, a: e.a@, b: e.b@ } && e.len == l,
        _ => false,
    }
}

/// The Windows prefix that `p` starts with.
fn win_prefix_exec(p: &str, cs: &Vec<char>) -> (res: Option<PrefixExec>)
    requires
        cs@ == p@,
    ensures
        prefix_matches(res, win_prefix(p@)),
        res matches Some(e) ==> e.len <= cs.len(),
{
    let n = cs.len();
    let ghost s = cs@;
    proof {
        lemma_starts_with(s, seq!['\\', '\\']);
        lemma_starts_with(s.skip(2), seq!['?', '\\']);
        lemma_starts_with(s.skip(2), seq!['.', '\\']);
        lemma_starts_with(s.skip(4), seq!['U', 'N', 'C', '\\']);
        if s.len() >= 4 {
            assert(s.skip(2).skip(2) =~= s.skip(4));
        }
        if s.len() >= 8 {
            assert(s.skip(4).skip(4) =~= s.skip(8));
        }
    }
    if n >= 2 && cs[0] == '\\' && cs[1] == '\\' {
        assert(starts_with(s, seq!['\\', '\\']));
        if n >= 4 && cs[2] == '?' && cs[3] == '\\' {
            assert(s.skip(2)[0] == s[2] && s.skip(2)[1] == s[3]);
            assert(starts_with(s.skip(2), seq!['?', '\\']));
            if n >= 8 && cs[4] == 'U' && cs[5] == 'N' && cs[6] == 'C' && cs[7] == '\\' {
                assert(s.skip(4)[0] == s[4] && s.skip(4)[1] == s[5] && s.skip(4)[2] == s[6]
                    && s.skip(4)[3] == s[7]);
                assert(starts_with(s.skip(4), seq!['U', 'N', 'C', '\\']));
                let e1 = first_sep_exec(cs, 8, true);
                let server = copy_range(cs, 8, e1);
                assert(server@ =~= next_comp(s.skip(8), true));
                let share = if e1 < n {
                    assert(after_comp(s.skip(8), true) =~= s.skip(e1 + 1));
                    let e2 = first_sep_exec(cs, e1 + 1, true);
                    let sh = copy_range(cs, e1 + 1, e2);
                    assert(sh@ =~= next_comp(s.skip(e1 + 1), true));
                    sh
                } else {
                    assert(after_comp(s.skip(8), true) =~= Seq::<char>::empty());
                    assert(next_comp(Seq::<char>::empty(), true) =~= Seq::<char>::empty());
                    Vec::new()
                };
                let sl = share.len();
                let len = if sl > 0 {
                    e1 + 1 + sl
                } else {
                    e1
                };
                return Some(PrefixExec { kind: PrefixKind::VerbatimUnc, a: server, b: share, len });
            } else {
                proof {
                    if starts_with(s.skip(4), seq!['U', 'N', 'C', '\\']) {
                        assert(s.skip(4)[0] == s[4] && s.skip(4)[1] == s[5] && s.skip(4)[2] == s[6]
                            && s.skip(4)[3] == s[7]);
                    }
                }
                let e = first_sep_exec(cs, 4, true);
                let ghost x = next_comp(s.skip(4), true);
                assert(x =~= s.subrange(4, e as int));
                let exact = e - 4 >= 2 && is_alpha_exec(cs[4]) && cs[5] == ':' && (e - 4 == 2
                    || wsep_exec(false, cs[6]));
                if exact {
                    assert(x[0] == s[4] && x[1] == s[5]);
                    if e - 4 > 2 {
                        assert(x[2] == s[6]);
                    }
                    assert(is_drive_exact(x));
                    let u = upper_exec(cs[4]);
                    let mut a: Vec<char> = Vec::new();
        a.push(u);
        assert(a@ =~= seq![u]);
                    return Some(
                        PrefixExec { kind: PrefixKind::VerbatimDisk, a, b: empty_chars(), len: 6 },
                    );
                } else {
                    proof {
                        if is_drive_exact(x) {
                            assert(x[0] == s[4] && x[1] == s[5]);
                            if x.len() > 2 {
                                assert(x[2] == s[6]);
                            }
                        }
                    }
                    let a = copy_range(cs, 4, e);
                    return Some(PrefixExec { kind: PrefixKind::Verbatim, a, b: Vec::new(), len: e });
                }
            }
        } else if n >= 4 && cs[2] == '.' && cs[3] == '\\' {
            assert(s.skip(2)[0] == s[2] && s.skip(2)[1] == s[3]);
            proof {
                if starts_with(s.skip(2), seq!['?', '\\']) {
                    assert(s.skip(2)[0] == s[2]);
                }
            }
            let e = first_sep_exec(cs, 4, false);
            let a = copy_range(cs, 4, e);
            assert(a@ =~= next_comp(s.skip(2).skip(2), false));
            return Some(PrefixExec { kind: PrefixKind::DeviceNs, a, b: Vec::new(), len: e });
        } else {
            proof {
                if starts_with(s.skip(2), seq!['?', '\\']) {
                    assert(s.skip(2)[0] == s[2] && s.skip(2)[1] == s[3]);
                }
                if starts_with(s.skip(2), seq!['.', '\\']) {
                    assert(s.skip(2)[0] == s[2] && s.skip(2)[1] == s[3]);
                }
            }
            let e1 = first_sep_exec(cs, 2, false);
            let server = copy_range(cs, 2, e1);
            assert(server@ =~= next_comp(s.skip(2), false));
            if e1 < n {
                assert(after_comp(s.skip(2), false) =~= s.skip(e1 + 1));
                let e2 = first_sep_exec(cs, e1 + 1, false);
                let share = copy_range(cs, e1 + 1, e2);
                assert(share@ =~= next_comp(s.skip(e1 + 1), false));
                if e1 > 2 && e2 > e1 + 1 {
                    return Some(PrefixExec { kind: PrefixKind::Unc, a: server, b: share, len: e2 });
                }
                return None;
            } else {
                assert(after_comp(s.skip(2), false) =~= Seq::<char>::empty());
                assert(next_comp(Seq::<char>::empty(), false) =~= Seq::<char>::empty());
                return None;
            }
        }
    }
    proof {
        if starts_with(s, seq!['\\', '\\']) {
            assert(s[0] == '\\' && s[1] == '\\');
        }
    }
    if n >= 2 && is_alpha_exec(cs[0]) && cs[1] == ':' {
        let u = upper_exec(cs[0]);
        let mut a: Vec<char> = Vec::new();
        a.push(u);
        assert(a@ =~= seq![u]);
        return Some(PrefixExec { kind: PrefixKind::Disk, a, b: empty_chars(), len: 2 });
    }
    None
}

fn empty_chars() -> (res: Vec<char>)
    ensures
        res@ == Seq::<char>::empty(),
{
    Vec::new()
}

/// The characters of `cs` from `from` to `to`.
fn copy_range(cs: &Vec<char>, from: usize, to: usize) -> (res: Vec<char>)
    requires
        from <= to <= cs.len(),
    ensures
        res@ == cs@.subrange(from as int, to as int),
{
    let mut out: Vec<char> = Vec::new();
    let mut i = from;
    while i < to
        invariant
            from <= i <= to <= cs.len(),
            out@ == cs@.subrange(from as int, i as int),
        decreases to - i,
    {
        out.push(cs[i]);
        assert(out@ =~= cs@.subrange(from as int, i + 1));
        i += 1;
    }
    out
}

proof fn lemma_raw_pieces_len(style: PathStyle, verbatim: bool, s: Seq<char>)
    ensures
        raw_pieces(style, verbatim, s).len() >= 1,
    decreases s.len(),
{
    if s.len() > 0 {
        lemma_raw_pieces_len(style, verbatim, s.drop_last());
    }
}

/// The pieces of `p` from `from` on, between separators.
fn raw_pieces_exec(p: &str, cs: &Vec<char>, from: usize, style: PathStyle, verbatim: bool) -> (res: Vec<String>)
    requires
        cs@ == p@,
        from <= cs.len(),
    ensures
        res.deep_view() == raw_pieces(style, verbatim, cs@.skip(from as int)),
{
    let n = cs.len();
    let ghost s = cs@.skip(from as int);
    let mut done: Vec<String> = Vec::new();
    let mut start: usize = from;
    let mut i: usize = from;
    assert(s.take(0) =~= Seq::<char>::empty());
    assert(done.deep_view() =~= Seq::<Seq<char>>::empty());
    assert(cs@.subrange(from as int, from as int) =~= Seq::<char>::empty());
    assert(done.deep_view().push(cs@.subrange(from as int, from as int)) =~= seq![Seq::<char>::empty()]);
    while i < n
        invariant
            from <= start <= i <= n,
            n == cs.len(),
            cs@ == p@,
            s == cs@.skip(from as int),
            raw_pieces(style, verbatim, s.take(i - from)) == done.deep_view().push(
                cs@.subrange(start as int, i as int),
            ),
        decreases n - i,
    {
        let c = cs[i];
        assert(s.take(i + 1 - from).drop_last() =~= s.take(i - from));
        assert(s.take(i + 1 - from).last() == c);
        let ghost d0 = done.deep_view();
        if sep_exec(style, verbatim, c) {
            let seg = String::from_str(p.substring_char(start, i));
            done.push(seg);
            assert(done.deep_view() =~= d0.push(cs@.subrange(start as int, i as int)));
            start = i + 1;
            assert(cs@.subrange(start as int, i + 1) =~= Seq::<char>::empty());
        } else {
            assert(cs@.subrange(start as int, i + 1) =~= cs@.subrange(start as int, i as int).push(c));
            assert(d0.push(cs@.subrange(start as int, i as int)).update(
                d0.len() as int,
                cs@.subrange(start as int, i as int).push(c),
            ) =~= d0.push(cs@.subrange(start as int, i + 1)));
        }
        i += 1;
    }
    assert(s.take(n - from) =~= s);
    let last = String::from_str(p.substring_char(start, n));
    let ghost d0 = done.deep_view();
    done.push(last);
    assert(done.deep_view() =~= d0.push(cs@.subrange(start as int, n as int)));
    done
}

/// Whether `piece` stands as a component.
fn keep_piece_exec(verbatim: bool, piece: &String) -> (res: bool)
    ensures
        res == keep_piece(verbatim, piece@),
{
    let len = piece.as_str().unicode_len();
    if len == 0 {
        false
    } else if verbatim {
        true
    } else if len == 1 && piece.as_str().get_char(0) == '.' {
        assert(piece@ =~= seq!['.']);
        false
    } else {
        assert(piece@ != seq!['.']) by {
            if piece@ == seq!['.'] {
                assert(piece@[0] == '.');
            }
        }
        true
    }
}

/// The pieces from `from` on that stand as components.
fn kept_pieces_exec(pieces: &Vec<String>, from: usize, verbatim: bool) -> (res: Vec<String>)
    requires
        from <= pieces.len(),
    ensures
        res.deep_view() == kept_pieces(verbatim, pieces.deep_view().skip(from as int)),
{
    let ghost sv = pieces.deep_view().skip(from as int);
    let mut out: Vec<String> = Vec::new();
    let mut i: usize = from;
    assert(sv.take(0) =~= Seq::<Seq<char>>::empty());
    while i < pieces.len()
        invariant
            from <= i <= pieces.len(),
            sv == pieces.deep_view().skip(from as int),
            out.deep_view() == kept_pieces(verbatim, sv.take(i - from)),
        decreases pieces.len() - i,
    {
        assert(sv.take(i + 1 - from).drop_last() =~= sv.take(i - from));
        assert(sv.take(i + 1 - from).last() == pieces[i as int]@);
        let ghost o = out.deep_view();
        if keep_piece_exec(verbatim, &pieces[i]) {
            out.push(pieces[i].clone());
            assert(out.deep_view() =~= o.push(pieces[i as int]@));
        }
        i += 1;
    }
    assert(sv.take(i - from) =~= sv);
    out
}

/// The components of a path as found, with the length of its prefix.
struct CompsExec {
    prefix: Option<PrefixExec>,
    root: bool,
    body: Vec<String>,
}

spec fn prefix_view_of(e: Option<PrefixExec>) -> Option<PrefixView> {
    match e {
        Some(x) => Some(PrefixView { kind: x.kind, a: x.a@, b: x.b@ }),
        None => None,
    }
}

spec fn comps_view(c: CompsExec) -> PathComps {
    PathComps { prefix: prefix_view_of(c.prefix), root: c.root, body: c.body.deep_view() }
}

spec fn exec_prefix_len(c: CompsExec) -> int {
    match c.prefix {
        Some(x) => x.len as int,
        None => 0,
    }
}

fn is_verbatim_exec(k: PrefixKind) -> (res: bool)
    ensures
        res == is_verbatim(k),
{
    match k {
        PrefixKind::Verbatim | PrefixKind::VerbatimUnc | PrefixKind::VerbatimDisk => true,
        _ => false,
    }
}

/// The components of `p` from `from` on, with a leading `.` kept when
/// `lead_dot`.
fn body_exec(p: &str, cs: &Vec<char>, from: usize, style: PathStyle, verbatim: bool, lead_dot: bool) -> (res: Vec<String>)
    requires
        cs@ == p@,
        from <= cs.len(),
    ensures
        res.deep_view() == lead_body(style, verbatim, cs@.skip(from as int), lead_dot),
{
    let raw = raw_pieces_exec(p, cs, from, style, verbatim);
    proof {
        lemma_raw_pieces_len(style, verbatim, cs@.skip(from as int));
    }
    let r0 = raw[0].as_str();
    let dot = r0.unicode_len() == 1 && r0.get_char(0) == '.';
    assert(raw.deep_view()[0] == raw[0]@);
    if dot {
        assert(raw[0]@ =~= seq!['.']);
    } else {
        assert(raw[0]@ != seq!['.']) by {
            if raw[0]@ == seq!['.'] {
                assert(raw[0]@[0] == '.');
            }
        }
    }
    if lead_dot && dot {
        let rest = kept_pieces_exec(&raw, 1, verbatim);
        let mut body: Vec<String> = Vec::new();
        let d = String::from_str(".");
        proof {
            reveal_strlit(".");
        }
        assert(d@ =~= seq!['.']);
        body.push(d);
        let ghost b0 = body.deep_view();
        assert(b0 =~= seq![seq!['.']]);
        let mut j: usize = 0;
        while j < rest.len()
            invariant
                j <= rest.len(),
                body.deep_view() == b0 + rest.deep_view().take(j as int),
            decreases rest.len() - j,
        {
            let ghost g = body.deep_view();
            body.push(rest[j].clone());
            assert(body.deep_view() =~= g.push(rest[j as int]@));
            assert(rest.deep_view().take(j + 1) =~= rest.deep_view().take(j as int).push(
                rest[j as int]@,
            ));
            j += 1;
        }
        assert(rest.deep_view().take(j as int) =~= rest.deep_view());
        body
    } else {
        assert(raw.deep_view().skip(0) =~= raw.deep_view());
        kept_pieces_exec(&raw, 0, verbatim)
    }
}

/// The components of `p`.
fn components_exec(style: PathStyle, p: &str, cs: &Vec<char>) -> (res: CompsExec)
    requires
        cs@ == p@,
    ensures
        comps_view(res) == path_components(style, p@),
        exec_prefix_len(res) == prefix_len(style, p@),
        0 <= exec_prefix_len(res) <= p@.len(),
{
    let n = cs.len();
    let pre = match style {
        PathStyle::Unix => None,
        PathStyle::Windows => win_prefix_exec(p, cs),
    };
    match pre {
        None => {
            let root = n > 0 && sep_exec(style, false, cs[0]);
            assert(cs@.skip(0) =~= cs@);
            let body = body_exec(p, cs, 0, style, false, !root);
            CompsExec { prefix: None, root, body }
        },
        Some(e) => {
            let len = e.len;
            let v = is_verbatim_exec(e.kind);
            let physical = len < n && wsep_exec(false, cs[len]);
            if len < n {
                assert(cs@.skip(len as int)[0] == cs@[len as int]);
            }
            let start = if physical {
                len + 1
            } else {
                len
            };
            if physical {
                assert(cs@.skip(len as int).skip(1) =~= cs@.skip(start as int));
            }
            let body = body_exec(p, cs, start, style, v, e.kind == PrefixKind::Disk && !physical);
            let root = physical || e.kind == PrefixKind::Unc || e.kind == PrefixKind::DeviceNs;
            CompsExec { prefix: Some(e), root, body }
        },
    }
}

/// Whether two lists of characters are equal.
fn chars_eq(a: &Vec<char>, b: &Vec<char>) -> (res: bool)
    ensures
        res == (a@ == b@),
{
    if a.len() != b.len() {
        return false;
    }
    let mut i: usize = 0;
    while i < a.len()
        invariant
            i <= a.len() == b.len(),
            forall|k: int| 0 <= k < i ==> a@[k] == b@[k],
        decreases a.len() - i,
    {
        if a[i] != b[i] {
            return false;
        }
        i += 1;
    }
    assert(a@ =~= b@);
    true
}

/// Whether two lists of strings are equal.
fn strings_eq(a: &Vec<String>, b: &Vec<String>) -> (res: bool)
    ensures
        res == (a.deep_view() == b.deep_view()),
{
    if a.len() != b.len() {
        assert(a.deep_view().len() != b.deep_view().len());
        return false;
    }
    let mut i: usize = 0;
    while i < a.len()
        invariant
            i <= a.len() == b.len(),
            forall|k: int| 0 <= k < i ==> a.deep_view()[k] == b.deep_view()[k],
        decreases a.len() - i,
    {
        if a[i] != b[i] {
            assert(a.deep_view()[i as int] != b.deep_view()[i as int]);
            return false;
        }
        i += 1;
    }
    assert(a.deep_view() =~= b.deep_view());
    true
}

/// Whether two paths name the same place: they have the same components.
pub fn same_path_exec(style: PathStyle, a: &str, b: &str) -> (res: bool)
    ensures
        res == same_path(style, a@, b@),
{
    let ca = chars_of(a);
    let cb = chars_of(b);
    let x = components_exec(style, a, &ca);
    let y = components_exec(style, b, &cb);
    if x.root != y.root {
        return false;
    }
    let pre_eq = match (&x.prefix, &y.prefix) {
        (None, None) => true,
        (Some(p), Some(q)) => p.kind == q.kind && chars_eq(&p.a, &q.a) && chars_eq(&p.b, &q.b),
        _ => false,
    };
    if !pre_eq {
        assert(comps_view(x).prefix != comps_view(y).prefix);
        return false;
    }
    strings_eq(&x.body, &y.body)
}

/// The separator the style writes, as a string.
fn main_sep_str(style: PathStyle) -> (res: &'static str)
    ensures
        res@ == seq![main_sep(style)],
{
    match style {
        PathStyle::Unix => {
            proof {
                reveal_strlit("/");
            }
            "/"
        },
        PathStyle::Windows => {
            proof {
                reveal_strlit("\\");
            }
            "\\"
        },
    }
}

/// The first `count` pieces joined by the separator of the style,
/// appended to `out`.
fn append_joined(out: &mut String, body: &Vec<String>, count: usize, style: PathStyle)
    requires
        count <= body.len(),
    ensures
        final(out)@ == old(out)@ + join_with(body.deep_view().take(count as int), main_sep(style)),
{
    let ghost sv = body.deep_view();
    let ghost prefix = out@;
    let sep_s = main_sep_str(style);
    let mut i: usize = 0;
    assert(prefix + join_with(sv.take(0), main_sep(style)) =~= prefix);
    while i < count
        invariant
            i <= count <= body.len(),
            sv == body.deep_view(),
            sep_s@ == seq![main_sep(style)],
            out@ == prefix + join_with(sv.take(i as int), main_sep(style)),
        decreases count - i,
    {
        if i > 0 {
            out.append(sep_s);
        }
        out.append(body[i].as_str());
        assert(sv.take(i + 1).drop_last() =~= sv.take(i as int));
        assert(sv.take(i + 1).last() == sv[i as int]);
        if i == 0 {
            assert(sv.take(1)[0] == sv[0]);
            assert(out@ =~= prefix + join_with(sv.take(1), main_sep(style)));
        } else {
            assert(out@ =~= prefix + join_with(sv.take(i + 1), main_sep(style)));
        }
        i += 1;
    }
}

/// The index of the last separator in `cs` between `lo` and `hi`, if any.
fn last_sep_exec(cs: &Vec<char>, lo: usize, hi: usize, style: PathStyle, verbatim: bool) -> (res: Option<usize>)
    requires
        lo <= hi <= cs.len(),
    ensures
        match res {
            Some(j) => lo <= j < hi && last_sep_pos(style, verbatim, cs@.subrange(lo as int, hi as int))
                == j - lo,
            None => last_sep_pos(style, verbatim, cs@.subrange(lo as int, hi as int)) == -1,
        },
{
    let ghost whole = cs@.subrange(lo as int, hi as int);
    let mut k = hi;
    while k > lo
        invariant
            lo <= k <= hi <= cs.len(),
            whole == cs@.subrange(lo as int, hi as int),
            last_sep_pos(style, verbatim, whole) == last_sep_pos(
                style,
                verbatim,
                cs@.subrange(lo as int, k as int),
            ),
        decreases k - lo,
    {
        let ghost cur = cs@.subrange(lo as int, k as int);
        assert(cur.last() == cs@[k - 1]);
        if sep_exec(style, verbatim, cs[k - 1]) {
            return Some(k - 1);
        }
        assert(cur.drop_last() =~= cs@.subrange(lo as int, k - 1));
        k -= 1;
    }
    assert(cs@.subrange(lo as int, k as int).len() == 0);
    None
}

/// Whether the characters of `cs` from `from` to `to` stand as a
/// component.
fn keep_range_exec(cs: &Vec<char>, from: usize, to: usize, verbatim: bool) -> (res: bool)
    requires
        from <= to <= cs.len(),
    ensures
        res == keep_piece(verbatim, cs@.subrange(from as int, to as int)),
{
    let ghost piece = cs@.subrange(from as int, to as int);
    if to == from {
        false
    } else if verbatim {
        true
    } else if to - from == 1 && cs[from] == '.' {
        assert(piece =~= seq!['.']);
        false
    } else {
        assert(piece != seq!['.']) by {
            if piece == seq!['.'] {
                assert(piece.len() == 1);
                assert(piece[0] == cs@[from as int]);
            }
        }
        true
    }
}

/// The end of `cs` between `lo` and `hi` once the pieces at its end that
/// are not components are dropped.
fn trim_back_exec(cs: &Vec<char>, lo: usize, hi: usize, style: PathStyle, verbatim: bool) -> (res: usize)
    requires
        lo <= hi <= cs.len(),
    ensures
        lo <= res <= hi,
        cs@.subrange(lo as int, res as int) == trim_back(
            style,
            verbatim,
            cs@.subrange(lo as int, hi as int),
        ),
{
    let ghost target = trim_back(style, verbatim, cs@.subrange(lo as int, hi as int));
    let mut e = hi;
    loop
        invariant
            lo <= e <= hi <= cs.len(),
            target == trim_back(style, verbatim, cs@.subrange(lo as int, hi as int)),
            target == trim_back(style, verbatim, cs@.subrange(lo as int, e as int)),
        decreases e - lo,
    {
        let ghost cur = cs@.subrange(lo as int, e as int);
        if e == lo {
            return e;
        }
        proof {
            lemma_last_sep_pos_bounds(style, verbatim, cur);
        }
        let found = last_sep_exec(cs, lo, e, style, verbatim);
        let (from, next) = match found {
            Some(j) => (j + 1, j),
            None => (lo, lo),
        };
        assert(last_piece(style, verbatim, cur) =~= cs@.subrange(from as int, e as int));
        assert(cut_back(style, verbatim, cur) =~= cs@.subrange(lo as int, next as int));
        if keep_range_exec(cs, from, e, verbatim) {
            return e;
        }
        e = next;
    }
}

/// The end of `cs` between `lo` and `hi` without its last piece and the
/// separator before it.
fn cut_back_exec(cs: &Vec<char>, lo: usize, hi: usize, style: PathStyle, verbatim: bool) -> (res: usize)
    requires
        lo <= hi <= cs.len(),
    ensures
        lo <= res <= hi,
        cs@.subrange(lo as int, res as int) == cut_back(
            style,
            verbatim,
            cs@.subrange(lo as int, hi as int),
        ),
{
    let found = last_sep_exec(cs, lo, hi, style, verbatim);
    let ghost cur = cs@.subrange(lo as int, hi as int);
    match found {
        Some(j) => {
            assert(cut_back(style, verbatim, cur) =~= cs@.subrange(lo as int, j as int));
            j
        },
        None => {
            assert(cut_back(style, verbatim, cur) =~= cs@.subrange(lo as int, lo as int));
            lo
        },
    }
}

/// Where the body of `p` starts (after its prefix, root and leading `.`),
/// whether it has a leading `.`, and whether it is verbatim.
fn body_start(style: PathStyle, p: &str, cs: &Vec<char>) -> (res: (usize, bool, bool))
    requires
        cs@ == p@,
    ensures
        res.0 == before_body_len(style, p@),
        res.1 == has_cur_dir(style, p@),
        res.2 == path_verbatim(style, p@),
        res.0 <= cs.len(),
        res.1 ==> res.0 >= 1,
{
    let n = cs.len();
    let pre = match style {
        PathStyle::Unix => None,
        PathStyle::Windows => win_prefix_exec(p, cs),
    };
    let (plen, plain_or_drive, verbatim) = match &pre {
        Some(e) => (e.len, e.kind == PrefixKind::Disk, is_verbatim_exec(e.kind)),
        None => (0, true, false),
    };
    assert(plen == prefix_len(style, p@));
    let ghost rest = p@.skip(plen as int);
    if plen < n {
        assert(rest[0] == cs@[plen as int]);
    }
    if plen < n && plen + 1 < n {
        assert(rest[1] == cs@[plen + 1]);
    }
    let phys = plen < n && sep_exec(style, false, cs[plen]);
    let cur = plain_or_drive && plen < n && cs[plen] == '.' && (plen + 1 == n || sep_exec(
        style,
        false,
        cs[plen + 1],
    ));
    assert(phys == physical_root(style, p@));
    assert(cur == has_cur_dir(style, p@));
    assert(!(phys && cur));
    let lbb = if phys || cur {
        plen + 1
    } else {
        plen
    };
    (lbb, cur, verbatim)
}

/// The parent directory of `p`.
pub fn path_parent(style: PathStyle, p: &str) -> (res: Option<String>)
    ensures
        res.deep_view() == spec_path_parent(style, p@),
{
    let cs = chars_of(p);
    let n = cs.len();
    let (lbb, cur, verbatim) = body_start(style, p, &cs);
    assert(cs@.subrange(lbb as int, n as int) =~= p@.skip(lbb as int));
    let t = trim_back_exec(&cs, lbb, n, style, verbatim);
    if t > lbb {
        let c = cut_back_exec(&cs, lbb, t, style, verbatim);
        let e = trim_back_exec(&cs, lbb, c, style, verbatim);
        assert(cs@.subrange(lbb as int, c as int) == cut_back(style, verbatim, cs@.subrange(lbb as int, t as int)));
        assert(p@.take(e as int) =~= p@.take(lbb as int) + cs@.subrange(lbb as int, e as int));
        Some(String::from_str(p.substring_char(0, e)))
    } else if cur {
        assert(p@.subrange(0, lbb - 1) =~= p@.take(lbb - 1));
        Some(String::from_str(p.substring_char(0, lbb - 1)))
    } else {
        None
    }
}

/// Whether `piece` names a directory entry (is not `.` or `..`).
fn is_normal_exec(piece: &String) -> (res: bool)
    ensures
        res == is_normal(piece@),
{
    let s = piece.as_str();
    let len = s.unicode_len();
    if len == 1 && s.get_char(0) == '.' {
        assert(piece@ =~= seq!['.']);
        false
    } else if len == 2 && s.get_char(0) == '.' && s.get_char(1) == '.' {
        assert(piece@ =~= seq!['.', '.']);
        false
    } else {
        assert(piece@ != seq!['.'] && piece@ != seq!['.', '.']) by {
            if piece@ == seq!['.'] {
                assert(piece@[0] == '.');
            }
            if piece@ == seq!['.', '.'] {
                assert(piece@[0] == '.' && piece@[1] == '.');
            }
        }
        true
    }
}

/// `rel` joined onto a verbatim `base` by components.
fn verbatim_join_exec(base: &str, bcs: &Vec<char>, rel: &str, rcs: &Vec<char>) -> (res: String)
    requires
        bcs@ == base@,
        rcs@ == rel@,
    ensures
        res@ == verbatim_join(base@, rel@),
{
    let bc = components_exec(PathStyle::Windows, base, bcs);
    let rc = components_exec(PathStyle::Windows, rel, rcs);
    let plen: usize = match &bc.prefix {
        Some(e) => e.len,
        None => 0,
    };
    let root = bc.root || rc.root;
    let ghost pieces = rc.body.deep_view();
    let ghost bcv = comps_view(bc);
    let ghost rcv = comps_view(rc);
    let mut body: Vec<String> = if rc.root {
        let e: Vec<String> = Vec::new();
        assert(e.deep_view() =~= Seq::<Seq<char>>::empty());
        e
    } else {
        bc.body
    };
    let ghost target = fold_pieces(body.deep_view(), pieces);
    let mut i: usize = 0;
    assert(pieces.skip(0) =~= pieces);
    while i < rc.body.len()
        invariant
            i <= rc.body.len(),
            pieces == rc.body.deep_view(),
            target == fold_pieces(body.deep_view(), pieces.skip(i as int)),
            target == if rcv.root {
                fold_pieces(Seq::empty(), rcv.body)
            } else {
                fold_pieces(bcv.body, rcv.body)
            },
            rcv == comps_view(rc),
            bcv == path_components(PathStyle::Windows, base@),
            rcv == path_components(PathStyle::Windows, rel@),
        decreases rc.body.len() - i,
    {
        let ghost cur = body.deep_view();
        assert(pieces.skip(i as int)[0] == pieces[i as int]);
        assert(pieces.skip(i as int).skip(1) =~= pieces.skip(i + 1));
        let c = &rc.body[i];
        let cs = c.as_str();
        let len = cs.unicode_len();
        let is_dot = len == 1 && cs.get_char(0) == '.';
        let is_dotdot = len == 2 && cs.get_char(0) == '.' && cs.get_char(1) == '.';
        if is_dot {
            assert(c@ =~= seq!['.']);
        } else if is_dotdot {
            assert(c@ =~= seq!['.', '.']);
            assert(c@ != seq!['.']) by {
                assert(c@.len() != 1);
            }
            if body.len() > 0 && is_normal_exec(&body[body.len() - 1]) {
                assert(cur.last() == body[body.len() - 1]@);
                let _ = body.pop();
                assert(body.deep_view() =~= cur.drop_last());
            }
        } else {
            assert(c@ != seq!['.'] && c@ != seq!['.', '.']) by {
                if c@ == seq!['.'] {
                    assert(c@[0] == '.');
                }
                if c@ == seq!['.', '.'] {
                    assert(c@[0] == '.' && c@[1] == '.');
                }
            }
            body.push(c.clone());
            assert(body.deep_view() =~= cur.push(c@));
        }
        i += 1;
    }
    assert(pieces.skip(i as int).len() == 0);
    let mut out = String::from_str(base.substring_char(0, plen));
    assert(out@ =~= base@.take(prefix_len(PathStyle::Windows, base@)));
    if root || body.len() > 0 {
        out.append(main_sep_str(PathStyle::Windows));
    }
    let n = body.len();
    append_joined(&mut out, &body, n, PathStyle::Windows);
    assert(body.deep_view().take(n as int) =~= body.deep_view());
    out
}

/// Joins `rel` onto `base`.
pub fn path_join(style: PathStyle, base: &str, rel: &str) -> (res: String)
    ensures
        res@ == spec_path_join(style, base@, rel@),
{
    match style {
        PathStyle::Unix => {
            let rl = rel.unicode_len();
            if rl > 0 && rel.get_char(0) == '/' {
                return String::from_str(rel);
            }
            let bl = base.unicode_len();
            let mut out = String::from_str(base);
            if bl > 0 && base.get_char(bl - 1) != '/' {
                out.append("/");
                proof {
                    reveal_strlit("/");
                }
            }
            out.append(rel);
            out
        },
        PathStyle::Windows => {
            let bcs = chars_of(base);
            let rcs = chars_of(rel);
            let rp = win_prefix_exec(rel, &rcs);
            if rp.is_some() {
                return String::from_str(rel);
            }
            let bp = win_prefix_exec(base, &bcs);
            let (verbatim, plen, bare_drive) = match &bp {
                Some(e) => (is_verbatim_exec(e.kind), e.len, e.kind == PrefixKind::Disk && e.len
                    == bcs.len()),
                None => (false, 0, false),
            };
            if verbatim && rcs.len() > 0 {
                return verbatim_join_exec(base, &bcs, rel, &rcs);
            }
            if rcs.len() > 0 && wsep_exec(false, rcs[0]) {
                let mut out = String::from_str(base.substring_char(0, plen));
                assert(out@ =~= base@.take(prefix_len(PathStyle::Windows, base@)));
                out.append(rel);
                return out;
            }
            let n = bcs.len();
            let mut out = String::from_str(base);
            if n > 0 && !wsep_exec(false, bcs[n - 1]) && !bare_drive {
                out.append("\\");
                proof {
                    reveal_strlit("\\");
                }
            }
            out.append(rel);
            out
        },
    }
}

} // verus!
