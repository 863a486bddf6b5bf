//! The questions detection can ask: a finite set fixed by the environment,
//! the platform and the answers already given (the text of Steam's library
//! lists and the entries of the CrossOver bottles folder).

use vstd::prelude::*;
use crate::detect::{
    bottles_root, lutris_prefix, spec_classify, spec_collect, spec_crossover_bottles,
    spec_detect_candidates, spec_filter_acc, spec_linux_steam_roots, spec_push_all,
    spec_push_bottles, spec_push_candidate, spec_push_documents, spec_push_steam_roots,
    spec_steam_libraries, wine_addons, without, ProbeView,
};
use crate::fs::{lookup, query, FsAnswersView, FsQueryView, QueryKind};
use crate::paths::{spec_eso_under_documents, spec_steam_proton_addons};
use crate::pathsyntax::{spec_path_join, spec_path_parent, PathStyle};
use crate::types::{AddonPathSource, CandidateView, Platform};
use crate::vdf::spec_parse_library_paths;

verus! {

/// `q` asks whether `path`, or one of its first three ancestors, is a
/// directory.
pub open spec fn in_chain(style: PathStyle, path: Seq<char>, q: FsQueryView) -> bool {
    &&& q.kind == QueryKind::IsDir
    &&& {
        ||| q.path == path
        ||| spec_path_parent(style, path) matches Some(live) && {
            ||| q.path == live
            ||| spec_path_parent(style, live) matches Some(eso) && {
                ||| q.path == eso
                ||| spec_path_parent(style, eso) matches Some(docs) && q.path == docs
            }
        }
    }
}

/// `q` asks about the chain of one of `paths`.
pub open spec fn in_chains(style: PathStyle, paths: Seq<Seq<char>>, q: FsQueryView) -> bool {
    exists|i: int| 0 <= i < paths.len() && #[trigger] in_chain(style, paths[i], q)
}

/// The library list of the Steam installation at `root`.
pub open spec fn vdf_path(style: PathStyle, root: Seq<char>) -> Seq<char> {
    spec_path_join(style, root, "steamapps/libraryfolders.vdf"@)
}

/// The libraries that the recorded text of `root`'s library list names.
pub open spec fn listed_libraries(style: PathStyle, fs: FsAnswersView, root: Seq<char>) -> Seq<
    Seq<char>,
> {
    match lookup(fs.files, vdf_path(style, root)) {
        Some(Some(text)) => spec_parse_library_paths(text),
        _ => Seq::empty(),
    }
}

/// `q` is a question about the Steam installation at `root`: its library
/// list, or the chain of the AddOns folder of one of its libraries.
pub open spec fn root_may_ask(style: PathStyle, fs: FsAnswersView, root: Seq<char>, q: FsQueryView) -> bool {
    ||| q == query(QueryKind::ReadFile, vdf_path(style, root))
    ||| in_chain(style, spec_steam_proton_addons(style, root), q)
    ||| in_chains(
        style,
        listed_libraries(style, fs, root).map_values(|l: Seq<char>| spec_steam_proton_addons(style, l)),
        q,
    )
}

/// The places where a Steam installation is looked for under `home`.
pub open spec fn steam_places(style: PathStyle, home: Seq<char>) -> Seq<Seq<char>> {
    seq![
        spec_path_join(style, home, ".local/share/Steam"@),
        spec_path_join(style, home, ".steam/steam"@),
        spec_path_join(style, home, ".var/app/com.valvesoftware.Steam/.local/share/Steam"@),
    ]
}

/// `q` is about the chain under the documents folder, if there is one.
pub open spec fn documents_may_ask(style: PathStyle, probe: ProbeView, q: FsQueryView) -> bool {
    probe.documents matches Some(d) && in_chain(style, spec_eso_under_documents(style, d), q)
}

/// The questions detection can ask on `platform` with the answers `fs`.
///
/// On Windows: the chains under the documents folder, OneDrive's
/// `Documents` folder and OneDrive. On macOS: the chain under the documents
/// folder, the listing of the bottles folder, and for each entry listed,
/// whether it is a directory and the chains of its users. On Linux: whether
/// each place of a Steam installation holds `steamapps`, its library list,
/// the chains of its libraries (its own and those its recorded list names),
/// the chains of the users of `$WINEPREFIX`, whether the Lutris prefix
/// exists, and the chains of its users.
pub open spec fn may_ask(style: PathStyle, probe: ProbeView, platform: Platform, fs: FsAnswersView, q: FsQueryView) -> bool {
    match platform {
        Platform::Windows => {
            ||| documents_may_ask(style, probe, q)
            ||| probe.onedrive matches Some(od) && {
                ||| in_chain(
                    style,
                    spec_eso_under_documents(style, spec_path_join(style, od, "Documents"@)),
                    q,
                )
                ||| in_chain(style, spec_eso_under_documents(style, od), q)
            }
        },
        Platform::Macos => {
            let root = bottles_root(style, probe.home);
            ||| documents_may_ask(style, probe, q)
            ||| q == query(QueryKind::ListDir, root)
            ||| lookup(fs.listings, root) matches Some(Some(names)) && exists|i: int|
                0 <= i < names.len() && {
                    let bottle = spec_path_join(style, root, #[trigger] names[i]);
                    ||| q == query(QueryKind::IsDir, bottle)
                    ||| in_chains(style, wine_addons(style, bottle, probe.user), q)
                }
        },
        Platform::Linux => {
            let places = steam_places(style, probe.home);
            let lutris = lutris_prefix(style, probe.home);
            ||| exists|i: int|
                0 <= i < places.len() && {
                    ||| q == query(QueryKind::IsDir, spec_path_join(style, #[trigger] places[i], "steamapps"@))
                    ||| root_may_ask(style, fs, places[i], q)
                }
            ||| probe.wineprefix matches Some(p) && in_chains(style, wine_addons(style, p, probe.user), q)
            ||| q == query(QueryKind::Exists, lutris)
            ||| in_chains(style, wine_addons(style, lutris, probe.user), q)
        },
    }
}

proof fn lemma_classify_in(style: PathStyle, fs: FsAnswersView, path: Seq<char>)
    ensures
        spec_classify(style, fs, path) matches Err(q) ==> in_chain(style, path, q),
{
}

proof fn lemma_push_candidate_in(style: PathStyle, 
    fs: FsAnswersView,
    out: Seq<CandidateView>,
    path: Seq<char>,
    source: AddonPathSource,
)
    ensures
        spec_push_candidate(style, fs, out, path, source) matches Err(q) ==> in_chain(style, path, q),
{
    lemma_classify_in(style, fs, path);
}

proof fn lemma_push_all_in(style: PathStyle, 
    fs: FsAnswersView,
    out: Seq<CandidateView>,
    paths: Seq<Seq<char>>,
    source: AddonPathSource,
)
    ensures
        spec_push_all(style, fs, out, paths, source) matches Err(q) ==> in_chains(style, paths, q),
    decreases paths.len(),
{
    if paths.len() > 0 {
        lemma_push_candidate_in(style, fs, out, paths[0], source);
        match spec_push_candidate(style, fs, out, paths[0], source) {
            Err(q) => {
                assert(in_chain(style, paths[0], q));
            },
            Ok(o) => {
                lemma_push_all_in(style, fs, o, paths.skip(1), source);
                if let Err(q) = spec_push_all(style, fs, o, paths.skip(1), source) {
                    let i = choose|i: int| 0 <= i < paths.skip(1).len() && #[trigger] in_chain(style, paths.skip(1)[i], q);
                    assert(paths.skip(1)[i] == paths[i + 1]);
                    assert(in_chain(style, paths[i + 1], q));
                }
            },
        }
    }
}

proof fn lemma_filter_in(fs: FsAnswersView, acc: Seq<Seq<char>>, paths: Seq<Seq<char>>)
    ensures
        spec_filter_acc(fs, acc, paths) matches Err(q) ==> exists|i: int|
            0 <= i < paths.len() && q == query(QueryKind::IsDir, #[trigger] paths[i]),
        spec_filter_acc(fs, acc, paths) matches Ok(r) ==> forall|k: int|
            0 <= k < r.len() ==> (acc + paths).contains(#[trigger] r[k]),
    decreases paths.len(),
{
    if paths.len() > 0 {
        match crate::fs::ask_is_dir(fs, paths[0]) {
            Err(q) => {
                assert(q == query(QueryKind::IsDir, paths[0]));
            },
            Ok(b) => {
                let acc2 = if b {
                    acc.push(paths[0])
                } else {
                    acc
                };
                let rest = paths.skip(1);
                lemma_filter_in(fs, acc2, rest);
                match spec_filter_acc(fs, acc2, rest) {
                    Err(q) => {
                        let i = choose|i: int| 0 <= i < rest.len() && q == query(QueryKind::IsDir, #[trigger] rest[i]);
                        assert(rest[i] == paths[i + 1]);
                    },
                    Ok(r) => {
                        assert forall|k: int| 0 <= k < r.len() implies (acc + paths).contains(#[trigger] r[k]) by {
                            assert((acc2 + rest).contains(r[k]));
                            let j = choose|j: int| 0 <= j < (acc2 + rest).len() && (acc2 + rest)[j] == r[k];
                            if j < acc.len() {
                                assert((acc + paths)[j] == r[k]);
                            } else if j < acc2.len() {
                                assert((acc + paths)[acc.len() as int] == r[k]);
                            } else {
                                let m = j - acc2.len();
                                assert(rest[m] == paths[m + 1]);
                                assert((acc + paths)[acc.len() + m + 1] == r[k]);
                            }
                        }
                    },
                }
            },
        }
    }
}

proof fn lemma_push_bottles_in(style: PathStyle, 
    fs: FsAnswersView,
    out: Seq<CandidateView>,
    bottles: Seq<Seq<char>>,
    user: Option<Seq<char>>,
)
    ensures
        spec_push_bottles(style, fs, out, bottles, user) matches Err(q) ==> exists|i: int|
            0 <= i < bottles.len() && in_chains(style, wine_addons(style, #[trigger] bottles[i], user), q),
    decreases bottles.len(),
{
    if bottles.len() > 0 {
        let addons = wine_addons(style, bottles[0], user);
        lemma_push_all_in(style, fs, out, addons, AddonPathSource::CrossoverBottle);
        if let Ok(o) = spec_push_all(style, fs, out, addons, AddonPathSource::CrossoverBottle) {
            lemma_push_bottles_in(style, fs, o, bottles.skip(1), user);
            if let Err(q) = spec_push_bottles(style, fs, o, bottles.skip(1), user) {
                let i = choose|i: int| 0 <= i < bottles.skip(1).len() && in_chains(style, wine_addons(style, #[trigger] bottles.skip(1)[i], user), q);
                assert(bottles.skip(1)[i] == bottles[i + 1]);
            }
        }
    }
}

proof fn lemma_without_from(style: PathStyle, s: Seq<Seq<char>>, x: Seq<char>)
    ensures
        forall|k: int| 0 <= k < without(style, s, x).len() ==> s.contains(#[trigger] without(style, s, x)[k]),
    decreases s.len(),
{
    if s.len() > 0 {
        lemma_without_from(style, s.skip(1), x);
        let w = without(style, s.skip(1), x);
        assert forall|k: int| 0 <= k < without(style, s, x).len() implies s.contains(#[trigger] without(style, s, x)[k]) by {
            let e = without(style, s, x)[k];
            if crate::pathsyntax::same_path(style, s[0], x) {
                assert(s.skip(1).contains(w[k]));
                let j = choose|j: int| 0 <= j < s.skip(1).len() && s.skip(1)[j] == w[k];
                assert(s[j + 1] == e);
            } else if k == 0 {
                assert(s[0] == e);
            } else {
                assert(e == w[k - 1]);
                assert(s.skip(1).contains(w[k - 1]));
                let j = choose|j: int| 0 <= j < s.skip(1).len() && s.skip(1)[j] == w[k - 1];
                assert(s[j + 1] == e);
            }
        }
    }
}

proof fn lemma_root_libraries_in(style: PathStyle, fs: FsAnswersView, root: Seq<char>, q: FsQueryView)
    requires
        spec_steam_libraries(style, fs, root) matches Ok(libs) && in_chains(
            style,
            libs.skip(1).map_values(|l: Seq<char>| spec_steam_proton_addons(style, l)),
            q,
        ),
    ensures
        root_may_ask(style, fs, root, q),
{
    let libs = spec_steam_libraries(style, fs, root)->Ok_0;
    let others = libs.skip(1).map_values(|l: Seq<char>| spec_steam_proton_addons(style, l));
    let i = choose|i: int| 0 <= i < others.len() && #[trigger] in_chain(style, others[i], q);
    if let Ok(Some(text)) = crate::fs::ask_read_file(fs, vdf_path(style, root)) {
        let parsed = spec_parse_library_paths(text);
        let w = without(style, parsed, root);
        assert(libs.skip(1) =~= w);
        lemma_without_from(style, parsed, root);
        assert(parsed.contains(w[i]));
        let j = choose|j: int| 0 <= j < parsed.len() && parsed[j] == w[i];
        let listed = listed_libraries(style, fs, root).map_values(|l: Seq<char>| spec_steam_proton_addons(style, l));
        assert(listed[j] == others[i]);
        assert(in_chain(style, listed[j], q));
    } else {
        assert(libs.skip(1).len() == 0);
    }
}

proof fn lemma_push_steam_roots_in(style: PathStyle, 
    fs: FsAnswersView,
    out: Seq<CandidateView>,
    roots: Seq<(Seq<char>, AddonPathSource)>,
)
    ensures
        spec_push_steam_roots(style, fs, out, roots) matches Err(q) ==> exists|i: int|
            0 <= i < roots.len() && root_may_ask(style, fs, (#[trigger] roots[i]).0, q),
    decreases roots.len(),
{
    if roots.len() > 0 {
        let r = roots[0].0;
        match spec_steam_libraries(style, fs, r) {
            Err(q) => {
                assert(root_may_ask(style, fs, roots[0].0, q));
            },
            Ok(libs) => {
                lemma_push_candidate_in(style, fs, out, spec_steam_proton_addons(style, r), roots[0].1);
                match spec_push_candidate(style, fs, out, spec_steam_proton_addons(style, r), roots[0].1) {
                    Err(q) => {
                        assert(root_may_ask(style, fs, roots[0].0, q));
                    },
                    Ok(o) => {
                        let others = libs.skip(1).map_values(|l: Seq<char>| spec_steam_proton_addons(style, l));
                        lemma_push_all_in(style, fs, o, others, AddonPathSource::SteamLibrary);
                        match spec_push_all(style, fs, o, others, AddonPathSource::SteamLibrary) {
                            Err(q) => {
                                lemma_root_libraries_in(style, fs, r, q);
                                assert(root_may_ask(style, fs, roots[0].0, q));
                            },
                            Ok(o2) => {
                                lemma_push_steam_roots_in(style, fs, o2, roots.skip(1));
                                if let Err(q) = spec_push_steam_roots(style, fs, o2, roots.skip(1)) {
                                    let i = choose|i: int| 0 <= i < roots.skip(1).len() && root_may_ask(style, fs, (#[trigger] roots.skip(1)[i]).0, q);
                                    assert(roots.skip(1)[i] == roots[i + 1]);
                                }
                            },
                        }
                    },
                }
            },
        }
    }
}

proof fn lemma_linux_roots_in(style: PathStyle, fs: FsAnswersView, home: Seq<char>)
    ensures
        spec_linux_steam_roots(style, fs, home) matches Err(q) ==> exists|i: int|
            0 <= i < 3 && q == query(QueryKind::IsDir, spec_path_join(style, #[trigger] steam_places(style, home)[i], "steamapps"@)),
        spec_linux_steam_roots(style, fs, home) matches Ok(roots) ==> forall|k: int|
            0 <= k < roots.len() ==> steam_places(style, home).contains((#[trigger] roots[k]).0),
{
    let places = steam_places(style, home);
    assert(places[0] == spec_path_join(style, home, ".local/share/Steam"@));
    assert(places[1] == spec_path_join(style, home, ".steam/steam"@));
    assert(places[2] == spec_path_join(style, home, ".var/app/com.valvesoftware.Steam/.local/share/Steam"@));
    if let Ok(roots) = spec_linux_steam_roots(style, fs, home) {
        assert forall|k: int| 0 <= k < roots.len() implies places.contains((#[trigger] roots[k]).0) by {
            if roots[k].0 == places[0] {
                assert(places[0] == roots[k].0);
            } else if roots[k].0 == places[1] {
                assert(places[1] == roots[k].0);
            } else {
                assert(places[2] == roots[k].0);
            }
        }
    }
}

/// `b` is an entry that the recorded listing of the bottles folder names.
spec fn listed_bottle(style: PathStyle, fs: FsAnswersView, home: Seq<char>, b: Seq<char>) -> bool {
    lookup(fs.listings, bottles_root(style, home)) matches Some(Some(names)) && exists|i: int|
        0 <= i < names.len() && b == spec_path_join(style, bottles_root(style, home), #[trigger] names[i])
}

proof fn lemma_bottles_in(style: PathStyle, fs: FsAnswersView, home: Seq<char>)
    ensures
        spec_crossover_bottles(style, fs, home) matches Err(q) ==> {
            ||| q == query(QueryKind::ListDir, bottles_root(style, home))
            ||| lookup(fs.listings, bottles_root(style, home)) matches Some(Some(names)) && exists|i: int|
                0 <= i < names.len() && q == query(
                    QueryKind::IsDir,
                    spec_path_join(style, bottles_root(style, home), #[trigger] names[i]),
                )
        },
        spec_crossover_bottles(style, fs, home) matches Ok(b) ==> forall|k: int|
            0 <= k < b.len() ==> listed_bottle(style, fs, home, #[trigger] b[k]),
{
    let root = bottles_root(style, home);
    if let Some(Some(names)) = lookup(fs.listings, root) {
        let paths = names.map_values(|n: Seq<char>| spec_path_join(style, root, n));
        lemma_filter_in(fs, Seq::empty(), paths);
        assert(Seq::<Seq<char>>::empty() + paths =~= paths);
        match spec_filter_acc(fs, Seq::empty(), paths) {
            Err(q) => {
                let i = choose|i: int| 0 <= i < paths.len() && q == query(QueryKind::IsDir, #[trigger] paths[i]);
                assert(paths[i] == spec_path_join(style, root, names[i]));
            },
            Ok(b) => {
                assert forall|k: int| 0 <= k < b.len() implies listed_bottle(style, fs, home, #[trigger] b[k]) by {
                    assert(paths.contains(b[k]));
                    let i = choose|i: int| 0 <= i < paths.len() && paths[i] == b[k];
                    assert(paths[i] == spec_path_join(style, root, names[i]));
                }
            },
        }
    }
}

/// Answers that keep every recorded library list text and folder listing
/// allow every question that fewer answers allowed: recording answers (where
/// the first one recorded for a path counts) never takes a question away.
pub proof fn law_may_ask_grows(
    style: PathStyle,
    probe: ProbeView,
    platform: Platform,
    fs: FsAnswersView,
    more: FsAnswersView,
    q: FsQueryView,
)
    requires
        forall|k: Seq<char>| #[trigger] lookup(fs.files, k) is Some ==> lookup(more.files, k) == lookup(fs.files, k),
        forall|k: Seq<char>| #[trigger] lookup(fs.listings, k) is Some ==> lookup(more.listings, k) == lookup(fs.listings, k),
        may_ask(style, probe, platform, fs, q),
    ensures
        may_ask(style, probe, platform, more, q),
{
    match platform {
        Platform::Windows => {},
        Platform::Macos => {
            let root = bottles_root(style, probe.home);
            if lookup(fs.listings, root) is Some {
                assert(lookup(more.listings, root) == lookup(fs.listings, root));
            }
        },
        Platform::Linux => {
            let places = steam_places(style, probe.home);
            if exists|i: int| 0 <= i < places.len() && {
                ||| q == query(QueryKind::IsDir, spec_path_join(style, #[trigger] places[i], "steamapps"@))
                ||| root_may_ask(style, fs, places[i], q)
            } {
                let i = choose|i: int| 0 <= i < places.len() && {
                    ||| q == query(QueryKind::IsDir, spec_path_join(style, #[trigger] places[i], "steamapps"@))
                    ||| root_may_ask(style, fs, places[i], q)
                };
                let key = vdf_path(style, places[i]);
                if lookup(fs.files, key) is Some {
                    assert(lookup(more.files, key) == lookup(fs.files, key));
                    assert(listed_libraries(style, more, places[i]) == listed_libraries(style, fs, places[i]));
                } else {
                    assert(listed_libraries(style, fs, places[i]).len() == 0);
                }
                assert(root_may_ask(style, fs, places[i], q) ==> root_may_ask(style, more, places[i], q));
            }
        },
    }
}

/// Detection draws every question it asks from a finite set fixed by the
/// environment, the platform and the answers already given; the answers
/// count only through the recorded text of Steam's library lists and the
/// recorded entries of the bottles folder.
pub proof fn law_detect_asks_within(style: PathStyle, probe: ProbeView, platform: Platform, fs: FsAnswersView)
    ensures
        spec_detect_candidates(style, probe, platform, fs) matches Err(q) ==> may_ask(
            style,
            probe,
            platform,
            fs,
            q,
        ),
{
    let e = Seq::<CandidateView>::empty();
    match platform {
        Platform::Windows => {
            if let Some(d) = probe.documents {
                lemma_push_candidate_in(style, fs, e, spec_eso_under_documents(style, d), AddonPathSource::NativeDocuments);
            }
            if let Ok(o1) = spec_push_documents(style, fs, e, probe.documents) {
                if let Some(od) = probe.onedrive {
                    let a = spec_eso_under_documents(style, spec_path_join(style, od, "Documents"@));
                    lemma_push_candidate_in(style, fs, o1, a, AddonPathSource::OneDriveDocuments);
                    if let Ok(o2) = spec_push_candidate(style, fs, o1, a, AddonPathSource::OneDriveDocuments) {
                        lemma_push_candidate_in(style, fs, o2, spec_eso_under_documents(style, od), AddonPathSource::OneDriveDocuments);
                    }
                }
            }
        },
        Platform::Macos => {
            let root = bottles_root(style, probe.home);
            if let Some(d) = probe.documents {
                lemma_push_candidate_in(style, fs, e, spec_eso_under_documents(style, d), AddonPathSource::NativeDocuments);
            }
            if let Ok(o1) = spec_push_documents(style, fs, e, probe.documents) {
                lemma_bottles_in(style, fs, probe.home);
                if let Ok(b) = spec_crossover_bottles(style, fs, probe.home) {
                    lemma_push_bottles_in(style, fs, o1, b, probe.user);
                    if let Err(q) = spec_push_bottles(style, fs, o1, b, probe.user) {
                        let i = choose|i: int| 0 <= i < b.len() && in_chains(style, wine_addons(style, #[trigger] b[i], probe.user), q);
                        assert(listed_bottle(style, fs, probe.home, b[i]));
                        let names = lookup(fs.listings, root)->Some_0->Some_0;
                        let j = choose|j: int| 0 <= j < names.len() && b[i] == spec_path_join(style, root, #[trigger] names[j]);
                        assert(in_chains(style, wine_addons(style, spec_path_join(style, root, names[j]), probe.user), q));
                    }
                }
            }
        },
        Platform::Linux => {
            let places = steam_places(style, probe.home);
            lemma_linux_roots_in(style, fs, probe.home);
            match spec_linux_steam_roots(style, fs, probe.home) {
                Err(q) => {},
                Ok(roots) => {
                    lemma_push_steam_roots_in(style, fs, e, roots);
                    match spec_push_steam_roots(style, fs, e, roots) {
                        Err(q) => {
                            let i = choose|i: int| 0 <= i < roots.len() && root_may_ask(style, fs, (#[trigger] roots[i]).0, q);
                            assert(places.contains(roots[i].0));
                            let j = choose|j: int| 0 <= j < places.len() && places[j] == roots[i].0;
                            assert(root_may_ask(style, fs, places[j], q));
                        },
                        Ok(o1) => {
                            if let Some(p) = probe.wineprefix {
                                lemma_push_all_in(style, fs, o1, wine_addons(style, p, probe.user), AddonPathSource::Wineprefix);
                            }
                            let r2 = match probe.wineprefix {
                                Some(p) => spec_push_all(style, fs, o1, wine_addons(style, p, probe.user), AddonPathSource::Wineprefix),
                                None => Ok(o1),
                            };
                            if let Ok(o2) = r2 {
                                let lutris = lutris_prefix(style, probe.home);
                                lemma_push_all_in(style, fs, o2, wine_addons(style, lutris, probe.user), AddonPathSource::LutrisDefault);
                            }
                        },
                    }
                },
            }
        },
    }
}

} // verus!
