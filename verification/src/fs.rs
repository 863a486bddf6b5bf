//! Questions about the file system, and the answers gathered so far.
//!
//! Detection never touches the file system itself. It runs against the
//! answers recorded in an `FsAnswers`; where it needs one that is not there,
//! it stops and names the question. The caller finds the answer, records it
//! and runs detection again.

use vstd::prelude::*;
use vstd::string::*;

verus! {

/// What is asked about a path.
#[derive(Debug, Clone, Copy, PartialEq, Eq, Structural)]
pub enum QueryKind {
    /// Is the path an existing directory?
    IsDir,
    /// Does anything exist at the path?
    Exists,
    /// What text does the file hold (none when it cannot be read)?
    ReadFile,
    /// What are the names of the entries of the directory (none when it
    /// cannot be listed)?
    ListDir,
}

/// A question about the file system.
#[derive(Debug, Clone, PartialEq, Eq)]
pub struct FsQuery {
    pub kind: QueryKind,
    pub path: String,
}

/// A question, with its path as characters.
pub struct FsQueryView {
    pub kind: QueryKind,
    pub path: Seq<char>,
}

impl DeepView for FsQuery {
    type V = FsQueryView;

    open spec fn deep_view(&self) -> FsQueryView {
        FsQueryView { kind: self.kind, path: self.path@ }
    }
}

/// The question of kind `kind` about `path`.
pub open spec fn query(kind: QueryKind, path: Seq<char>) -> FsQueryView {
    FsQueryView { kind, path }
}

/// Answers to questions about the file system, in the order they were
/// recorded.
pub struct FsAnswers {
    dirs: Vec<(String, bool)>,
    existing: Vec<(String, bool)>,
    files: Vec<(String, Option<String>)>,
    listings: Vec<(String, Option<Vec<String>>)>,
}

/// The recorded answers, paths as characters.
pub struct FsAnswersView {
    pub dirs: Seq<(Seq<char>, bool)>,
    pub existing: Seq<(Seq<char>, bool)>,
    pub files: Seq<(Seq<char>, Option<Seq<char>>)>,
    pub listings: Seq<(Seq<char>, Option<Seq<Seq<char>>>)>,
}

/// The first answer recorded for `key`, if any.
pub open spec fn lookup<V>(s: Seq<(Seq<char>, V)>, key: Seq<char>) -> Option<V>
    decreases s.len(),
{
    if s.len() == 0 {
        None
    } else if s[0].0 == key {
        Some(s[0].1)
    } else {
        lookup(s.skip(1), key)
    }
}

/// Whether `path` is a directory, or the question if it is unanswered.
pub open spec fn ask_is_dir(fs: FsAnswersView, path: Seq<char>) -> Result<bool, FsQueryView> {
    match lookup(fs.dirs, path) {
        Some(b) => Ok(b),
        None => Err(query(QueryKind::IsDir, path)),
    }
}

/// Whether anything exists at `path`, or the question if it is unanswered.
pub open spec fn ask_exists(fs: FsAnswersView, path: Seq<char>) -> Result<bool, FsQueryView> {
    match lookup(fs.existing, path) {
        Some(b) => Ok(b),
        None => Err(query(QueryKind::Exists, path)),
    }
}

/// The text of the file at `path`, or the question if it is unanswered.
pub open spec fn ask_read_file(fs: FsAnswersView, path: Seq<char>) -> Result<
    Option<Seq<char>>,
    FsQueryView,
> {
    match lookup(fs.files, path) {
        Some(c) => Ok(c),
        None => Err(query(QueryKind::ReadFile, path)),
    }
}

/// The entry names of the directory at `path`, or the question if it is
/// unanswered.
pub open spec fn ask_list_dir(fs: FsAnswersView, path: Seq<char>) -> Result<
    Option<Seq<Seq<char>>>,
    FsQueryView,
> {
    match lookup(fs.listings, path) {
        Some(c) => Ok(c),
        None => Err(query(QueryKind::ListDir, path)),
    }
}

/// Recording an answer answers its question and changes no answer given
/// before: the first answer recorded for a path is the one that counts.
pub proof fn law_lookup_push<V>(s: Seq<(Seq<char>, V)>, key: Seq<char>, value: V)
    ensures
        lookup(s.push((key, value)), key) is Some,
        forall|k: Seq<char>| #[trigger] lookup(s, k) is Some ==> lookup(s.push((key, value)), k) == lookup(s, k),
        lookup(s, key) is None ==> lookup(s.push((key, value)), key) == Some(value),
    decreases s.len(),
{
    if s.len() > 0 {
        law_lookup_push(s.skip(1), key, value);
        assert(s.push((key, value)).skip(1) =~= s.skip(1).push((key, value)));
        assert(s.push((key, value))[0] == s[0]);
        assert forall|k: Seq<char>| #[trigger] lookup(s, k) is Some implies lookup(
            s.push((key, value)),
            k,
        ) == lookup(s, k) by {
            if s[0].0 != k {
                assert(lookup(s.skip(1), k) is Some);
            }
        }
    } else {
        assert(s.push((key, value)).skip(1) =~= s);
    }
}

/// Whether the question has an answer.
pub open spec fn is_answered(fs: FsAnswersView, q: FsQueryView) -> bool {
    match q.kind {
        QueryKind::IsDir => lookup(fs.dirs, q.path) is Some,
        QueryKind::Exists => lookup(fs.existing, q.path) is Some,
        QueryKind::ReadFile => lookup(fs.files, q.path) is Some,
        QueryKind::ListDir => lookup(fs.listings, q.path) is Some,
    }
}

proof fn lemma_lookup_first<V>(m: Seq<(Seq<char>, V)>, key: Seq<char>, r: int)
    requires
        0 <= r <= m.len(),
        forall|j: int| 0 <= j < r ==> (#[trigger] m[j]).0 != key,
        r < m.len() ==> m[r].0 == key,
    ensures
        lookup(m, key) == if r < m.len() {
            Some(m[r].1)
        } else {
            None::<V>
        },
    decreases m.len(),
{
    if m.len() > 0 && r > 0 {
        let t = m.skip(1);
        assert forall|j: int| 0 <= j < r - 1 implies (#[trigger] t[j]).0 != key by {
            assert(t[j] == m[j + 1]);
        }
        assert(m[0].0 != key);
        lemma_lookup_first(t, key, r - 1);
        if r < m.len() {
            assert(t[r - 1] == m[r]);
        }
    }
}

/// Where `s` first records an answer for `key`: its index, or `s.len()`.
fn find_key<V>(s: &Vec<(String, V)>, key: &String) -> (res: usize)
    ensures
        res <= s.len(),
        res < s.len() ==> s@[res as int].0@ == key@,
        forall|j: int| 0 <= j < res ==> (#[trigger] s@[j]).0@ != key@,
{
    let mut i: usize = 0;
    while i < s.len()
        invariant
            i <= s.len(),
            forall|j: int| 0 <= j < i ==> (#[trigger] s@[j]).0@ != key@,
        decreases s.len() - i,
    {
        if s[i].0 == *key {
            return i;
        }
        i += 1;
    }
    i
}

impl FsAnswers {
    /// The recorded answers.
    pub closed spec fn view(&self) -> FsAnswersView {
        FsAnswersView {
            dirs: self.dirs@.map_values(|e: (String, bool)| (e.0@, e.1)),
            existing: self.existing@.map_values(|e: (String, bool)| (e.0@, e.1)),
            files: self.files@.map_values(|e: (String, Option<String>)| (e.0@, e.1.deep_view())),
            listings: self.listings@.map_values(
                |e: (String, Option<Vec<String>>)| (e.0@, e.1.deep_view()),
            ),
        }
    }

    /// No answers yet.
    pub fn new() -> (res: Self)
        ensures
            res.view().dirs.len() == 0,
            res.view().existing.len() == 0,
            res.view().files.len() == 0,
            res.view().listings.len() == 0,
    {
        FsAnswers { dirs: Vec::new(), existing: Vec::new(), files: Vec::new(), listings: Vec::new() }
    }

    /// Records whether `path` is a directory.
    pub fn record_is_dir(&mut self, path: String, is_dir: bool)
        ensures
            final(self).view() == (FsAnswersView {
                dirs: old(self).view().dirs.push((path@, is_dir)),
                ..old(self).view()
            }),
    {
        self.dirs.push((path, is_dir));
        assert(self.view().dirs =~= old(self).view().dirs.push((path@, is_dir)));
    }

    /// Records whether anything exists at `path`.
    pub fn record_exists(&mut self, path: String, exists: bool)
        ensures
            final(self).view() == (FsAnswersView {
                existing: old(self).view().existing.push((path@, exists)),
                ..old(self).view()
            }),
    {
        self.existing.push((path, exists));
        assert(self.view().existing =~= old(self).view().existing.push((path@, exists)));
    }

    /// Records the text of the file at `path` (none when it cannot be read).
    pub fn record_file(&mut self, path: String, contents: Option<String>)
        ensures
            final(self).view() == (FsAnswersView {
                files: old(self).view().files.push((path@, contents.deep_view())),
                ..old(self).view()
            }),
    {
        let ghost c = contents.deep_view();
        self.files.push((path, contents));
        assert(self.view().files =~= old(self).view().files.push((path@, c)));
    }

    /// Records the entry names of the directory at `path` (none when it
    /// cannot be listed).
    pub fn record_listing(&mut self, path: String, names: Option<Vec<String>>)
        ensures
            final(self).view() == (FsAnswersView {
                listings: old(self).view().listings.push((path@, names.deep_view())),
                ..old(self).view()
            }),
    {
        let ghost c = names.deep_view();
        self.listings.push((path, names));
        assert(self.view().listings =~= old(self).view().listings.push((path@, c)));
    }

    /// Whether `path` is a directory, or the question if it is unanswered.
    pub fn is_dir(&self, path: &str) -> (res: Result<bool, FsQuery>)
        ensures
            match res {
                Ok(b) => ask_is_dir(self.view(), path@) == Ok::<bool, FsQueryView>(b),
                Err(q) => ask_is_dir(self.view(), path@) == Err::<bool, FsQueryView>(q.deep_view()),
            },
    {
        let key = String::from_str(path);
        let i = find_key(&self.dirs, &key);
        proof {
            let m = self.view().dirs;
            assert forall|j: int| 0 <= j < i implies (#[trigger] m[j]).0 != key@ by {
                assert(m[j].0 == self.dirs@[j].0@);
            }
            lemma_lookup_first(m, key@, i as int);
        }
        if i < self.dirs.len() {
            Ok(self.dirs[i].1)
        } else {
            Err(FsQuery { kind: QueryKind::IsDir, path: key })
        }
    }

    /// Whether anything exists at `path`, or the question if it is
    /// unanswered.
    pub fn path_exists(&self, path: &str) -> (res: Result<bool, FsQuery>)
        ensures
            match res {
                Ok(b) => ask_exists(self.view(), path@) == Ok::<bool, FsQueryView>(b),
                Err(q) => ask_exists(self.view(), path@) == Err::<bool, FsQueryView>(q.deep_view()),
            },
    {
        let key = String::from_str(path);
        let i = find_key(&self.existing, &key);
        proof {
            let m = self.view().existing;
            assert forall|j: int| 0 <= j < i implies (#[trigger] m[j]).0 != key@ by {
                assert(m[j].0 == self.existing@[j].0@);
            }
            lemma_lookup_first(m, key@, i as int);
        }
        if i < self.existing.len() {
            Ok(self.existing[i].1)
        } else {
            Err(FsQuery { kind: QueryKind::Exists, path: key })
        }
    }

    /// The text of the file at `path`, or the question if it is unanswered.
    pub fn read_file(&self, path: &str) -> (res: Result<&Option<String>, FsQuery>)
        ensures
            match res {
                Ok(c) => ask_read_file(self.view(), path@) == Ok::<Option<Seq<char>>, FsQueryView>(
                    c.deep_view(),
                ),
                Err(q) => ask_read_file(self.view(), path@) == Err::<Option<Seq<char>>, FsQueryView>(
                    q.deep_view(),
                ),
            },
    {
        let key = String::from_str(path);
        let i = find_key(&self.files, &key);
        proof {
            let m = self.view().files;
            assert forall|j: int| 0 <= j < i implies (#[trigger] m[j]).0 != key@ by {
                assert(m[j].0 == self.files@[j].0@);
            }
            lemma_lookup_first(m, key@, i as int);
        }
        if i < self.files.len() {
            Ok(&self.files[i].1)
        } else {
            Err(FsQuery { kind: QueryKind::ReadFile, path: key })
        }
    }

    /// The entry names of the directory at `path`, or the question if it is
    /// unanswered.
    pub fn list_dir(&self, path: &str) -> (res: Result<&Option<Vec<String>>, FsQuery>)
        ensures
            match res {
                Ok(c) => ask_list_dir(self.view(), path@) == Ok::<
                    Option<Seq<Seq<char>>>,
                    FsQueryView,
                >(c.deep_view()),
                Err(q) => ask_list_dir(self.view(), path@) == Err::<
                    Option<Seq<Seq<char>>>,
                    FsQueryView,
                >(q.deep_view()),
            },
    {
        let key = String::from_str(path);
        let i = find_key(&self.listings, &key);
        proof {
            let m = self.view().listings;
            assert forall|j: int| 0 <= j < i implies (#[trigger] m[j]).0 != key@ by {
                assert(m[j].0 == self.listings@[j].0@);
            }
            lemma_lookup_first(m, key@, i as int);
        }
        if i < self.listings.len() {
            Ok(&self.listings[i].1)
        } else {
            Err(FsQuery { kind: QueryKind::ListDir, path: key })
        }
    }
}

} // verus!
