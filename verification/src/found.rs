//! What detection finds: which folders become candidates, and under which
//! source.

use vstd::prelude::*;
use crate::asks::{listed_libraries, vdf_path};
use crate::detect::{
    without, bottles_root, lutris_prefix, spec_classify, spec_collect, spec_crossover_bottles, spec_filter_acc,
    spec_linux_steam_roots, spec_push_all, spec_push_bottles, spec_push_candidate,
    spec_push_documents, spec_push_steam_roots, spec_steam_libraries, wine_addons, ProbeView,
};
use crate::fs::{ask_exists, ask_is_dir, ask_list_dir, FsAnswersView};
use crate::paths::{spec_eso_under_documents, spec_steam_proton_addons};
use crate::pathsyntax::{same_path, spec_path_join, PathStyle};
use crate::types::{AddonPathSource, AddonPathStatus, CandidateView, Platform};

verus! {

/// The candidate for the folder at `path`, found from `source` with
/// `status`.
pub open spec fn found(style: PathStyle, path: Seq<char>, source: AddonPathSource, status: AddonPathStatus) -> CandidateView {
    CandidateView { path, source, status, style }
}

/// Every candidate of `a` is one of `b`.
pub open spec fn kept_in(a: Seq<CandidateView>, b: Seq<CandidateView>) -> bool {
    forall|x: CandidateView| #[trigger] a.contains(x) ==> b.contains(x)
}

proof fn lemma_push_candidate_grows(style: PathStyle, 
    fs: FsAnswersView,
    out: Seq<CandidateView>,
    path: Seq<char>,
    source: AddonPathSource,
)
    ensures
        spec_push_candidate(style, fs, out, path, source) matches Ok(o) ==> {
            &&& kept_in(out, o)
            &&& spec_classify(style, fs, path) matches Ok(Some(st)) ==> o.contains(found(style, path, source, st))
        },
{
    if let Ok(o) = spec_push_candidate(style, fs, out, path, source) {
        if let Ok(Some(st)) = spec_classify(style, fs, path) {
            assert(o[out.len() as int] == found(style, path, source, st));
            assert forall|x: CandidateView| #[trigger] out.contains(x) implies o.contains(x) by {
                let j = choose|j: int| 0 <= j < out.len() && out[j] == x;
                assert(o[j] == x);
            }
        }
    }
}

proof fn lemma_push_all_grows(style: PathStyle, 
    fs: FsAnswersView,
    out: Seq<CandidateView>,
    paths: Seq<Seq<char>>,
    source: AddonPathSource,
)
    ensures
        spec_push_all(style, fs, out, paths, source) matches Ok(o) ==> {
            &&& kept_in(out, o)
            &&& forall|i: int|
                0 <= i < paths.len() ==> (spec_classify(style, fs, #[trigger] paths[i]) matches Ok(Some(st))
                    ==> o.contains(found(style, paths[i], source, st)))
        },
    decreases paths.len(),
{
    if paths.len() > 0 {
        lemma_push_candidate_grows(style, fs, out, paths[0], source);
        if let Ok(o0) = spec_push_candidate(style, fs, out, paths[0], source) {
            let rest = paths.skip(1);
            lemma_push_all_grows(style, fs, o0, rest, source);
            if let Ok(o) = spec_push_all(style, fs, o0, rest, source) {
                assert forall|i: int|
                    0 <= i < paths.len() implies (spec_classify(style, fs, #[trigger] paths[i]) matches Ok(
                        Some(st),
                    ) ==> o.contains(found(style, paths[i], source, st))) by {
                    if i > 0 {
                        assert(rest[i - 1] == paths[i]);
                    }
                }
            }
        }
    }
}

proof fn lemma_without_keeps(style: PathStyle, s: Seq<Seq<char>>, x: Seq<char>, j: int)
    requires
        0 <= j < s.len(),
        !same_path(style, s[j], x),
    ensures
        without(style, s, x).contains(s[j]),
    decreases s.len(),
{
    let w = without(style, s.skip(1), x);
    if j == 0 {
        assert(without(style, s, x)[0] == s[0]);
    } else {
        assert(s.skip(1)[j - 1] == s[j]);
        lemma_without_keeps(style, s.skip(1), x, j - 1);
        let m = choose|m: int| 0 <= m < w.len() && w[m] == s[j];
        if same_path(style, s[0], x) {
            assert(without(style, s, x)[m] == s[j]);
        } else {
            assert(without(style, s, x)[m + 1] == s[j]);
        }
    }
}

/// The libraries a Steam installation's list names, other than the
/// installation itself, each with an existing chain, are candidates of `o`
/// from `Steam Library`.
pub open spec fn has_listed_libraries(style: PathStyle, fs: FsAnswersView, root: Seq<char>, o: Seq<CandidateView>) -> bool {
    forall|j: int|
        0 <= j < listed_libraries(style, fs, root).len() && !same_path(
            style,
            #[trigger] listed_libraries(style, fs, root)[j],
            root,
        ) ==> (spec_classify(
            style,
            fs,
            spec_steam_proton_addons(style, listed_libraries(style, fs, root)[j]),
        ) matches Ok(Some(st)) ==> o.contains(
            found(
                style,
                spec_steam_proton_addons(style, listed_libraries(style, fs, root)[j]),
                AddonPathSource::SteamLibrary,
                st,
            ),
        ))
}

proof fn lemma_listed_libraries_kept(style: PathStyle, fs: FsAnswersView, root: Seq<char>, a: Seq<CandidateView>, b: Seq<CandidateView>)
    requires
        has_listed_libraries(style, fs, root, a),
        kept_in(a, b),
    ensures
        has_listed_libraries(style, fs, root, b),
{
}

proof fn lemma_push_steam_roots_grows(style: PathStyle, 
    fs: FsAnswersView,
    out: Seq<CandidateView>,
    roots: Seq<(Seq<char>, AddonPathSource)>,
)
    ensures
        spec_push_steam_roots(style, fs, out, roots) matches Ok(o) ==> {
            &&& kept_in(out, o)
            &&& forall|i: int|
                0 <= i < roots.len() ==> (spec_classify(
                    style,
                    fs,
                    spec_steam_proton_addons(style, (#[trigger] roots[i]).0),
                ) matches Ok(Some(st)) ==> o.contains(
                    found(style, spec_steam_proton_addons(style, roots[i].0), roots[i].1, st),
                ))
            &&& forall|i: int| 0 <= i < roots.len() ==> has_listed_libraries(style, fs, (#[trigger] roots[i]).0, o)
        },
    decreases roots.len(),
{
    if roots.len() > 0 {
        let r = roots[0].0;
        if let Ok(libs) = spec_steam_libraries(style, fs, r) {
            let own = spec_steam_proton_addons(style, r);
            lemma_push_candidate_grows(style, fs, out, own, roots[0].1);
            if let Ok(o0) = spec_push_candidate(style, fs, out, own, roots[0].1) {
                let others = libs.skip(1).map_values(|l: Seq<char>| spec_steam_proton_addons(style, l));
                lemma_push_all_grows(style, fs, o0, others, AddonPathSource::SteamLibrary);
                if let Ok(o1) = spec_push_all(style, fs, o0, others, AddonPathSource::SteamLibrary) {
                    let rest = roots.skip(1);
                    lemma_push_steam_roots_grows(style, fs, o1, rest);
                    assert(has_listed_libraries(style, fs, r, o1)) by {
                        assert forall|j: int|
                            0 <= j < listed_libraries(style, fs, r).len() && !same_path(
                                style,
                                #[trigger] listed_libraries(style, fs, r)[j],
                                r,
                            ) implies (spec_classify(
                                style,
                                fs,
                                spec_steam_proton_addons(style, listed_libraries(style, fs, r)[j]),
                            ) matches Ok(Some(st)) ==> o1.contains(
                                found(
                                    style,
                                    spec_steam_proton_addons(style, listed_libraries(style, fs, r)[j]),
                                    AddonPathSource::SteamLibrary,
                                    st,
                                ),
                            )) by {
                            let ls = listed_libraries(style, fs, r);
                            lemma_without_keeps(style, ls, r, j);
                            let w = without(style, ls, r);
                            assert(libs.skip(1) =~= w);
                            let m = choose|m: int| 0 <= m < w.len() && w[m] == ls[j];
                            assert(others[m] == spec_steam_proton_addons(style, ls[j]));
                        }
                    }
                    if let Ok(o) = spec_push_steam_roots(style, fs, o1, rest) {
                        assert(forall|i: int| 0 <= i < rest.len() ==> #[trigger] rest[i] == roots[i + 1]);
                        lemma_listed_libraries_kept(style, fs, r, o1, o);
                        assert forall|i: int| 0 <= i < roots.len() implies has_listed_libraries(
                            style,
                            fs,
                            (#[trigger] roots[i]).0,
                            o,
                        ) by {
                            if i > 0 {
                                assert(rest[i - 1] == roots[i]);
                            }
                        }
                        assert forall|i: int|
                            0 <= i < roots.len() implies (spec_classify(
                                style,
                                fs,
                                spec_steam_proton_addons(style, (#[trigger] roots[i]).0),
                            ) matches Ok(Some(st)) ==> o.contains(
                                found(style, spec_steam_proton_addons(style, roots[i].0), roots[i].1, st),
                            )) by {
                            if i > 0 {
                                assert(rest[i - 1] == roots[i]);
                            }
                        }
                    }
                }
            }
        }
    }
}

proof fn lemma_push_bottles_grows(style: PathStyle, 
    fs: FsAnswersView,
    out: Seq<CandidateView>,
    bottles: Seq<Seq<char>>,
    user: Option<Seq<char>>,
)
    ensures
        spec_push_bottles(style, fs, out, bottles, user) matches Ok(o) ==> {
            &&& kept_in(out, o)
            &&& forall|i: int, k: int|
                #![trigger wine_addons(style, bottles[i], user)[k]]
                0 <= i < bottles.len() && 0 <= k < wine_addons(style, bottles[i], user).len() ==> (
                spec_classify(style, fs, wine_addons(style, bottles[i], user)[k]) matches Ok(Some(st))
                    ==> o.contains(
                    found(style, wine_addons(style, bottles[i], user)[k], AddonPathSource::CrossoverBottle, st),
                ))
        },
    decreases bottles.len(),
{
    if bottles.len() > 0 {
        let addons = wine_addons(style, bottles[0], user);
        lemma_push_all_grows(style, fs, out, addons, AddonPathSource::CrossoverBottle);
        if let Ok(o0) = spec_push_all(style, fs, out, addons, AddonPathSource::CrossoverBottle) {
            let rest = bottles.skip(1);
            lemma_push_bottles_grows(style, fs, o0, rest, user);
            if let Ok(o) = spec_push_bottles(style, fs, o0, rest, user) {
                assert forall|i: int, k: int|
                    0 <= i < bottles.len() && 0 <= k < wine_addons(style, bottles[i], user).len() implies (
                    spec_classify(style, fs, #[trigger] wine_addons(style, bottles[i], user)[k]) matches Ok(
                        Some(st),
                    ) ==> o.contains(
                        found(style, wine_addons(style, bottles[i], user)[k], AddonPathSource::CrossoverBottle, st),
                    )) by {
                    if i > 0 {
                        assert(rest[i - 1] == bottles[i]);
                    } else {
                        assert(addons[k] == wine_addons(style, bottles[i], user)[k]);
                    }
                }
            }
        }
    }
}

proof fn lemma_filter_keeps_dirs(fs: FsAnswersView, acc: Seq<Seq<char>>, paths: Seq<Seq<char>>)
    ensures
        spec_filter_acc(fs, acc, paths) matches Ok(r) ==> {
            &&& forall|x: Seq<char>| #[trigger] acc.contains(x) ==> r.contains(x)
            &&& forall|i: int|
                0 <= i < paths.len() && ask_is_dir(fs, #[trigger] paths[i]) == Ok::<bool, crate::fs::FsQueryView>(true)
                    ==> r.contains(paths[i])
        },
    decreases paths.len(),
{
    if paths.len() > 0 {
        if let Ok(b) = ask_is_dir(fs, paths[0]) {
            let acc2 = if b {
                acc.push(paths[0])
            } else {
                acc
            };
            let rest = paths.skip(1);
            lemma_filter_keeps_dirs(fs, acc2, rest);
            if let Ok(r) = spec_filter_acc(fs, acc2, rest) {
                assert forall|x: Seq<char>| #[trigger] acc.contains(x) implies r.contains(x) by {
                    let j = choose|j: int| 0 <= j < acc.len() && acc[j] == x;
                    assert(acc2[j] == x);
                    assert(acc2.contains(x));
                }
                if b {
                    assert(acc2[acc.len() as int] == paths[0]);
                    assert(acc2.contains(paths[0]));
                }
                assert forall|i: int|
                    0 <= i < paths.len() && ask_is_dir(fs, #[trigger] paths[i]) == Ok::<bool, crate::fs::FsQueryView>(true)
                        implies r.contains(paths[i]) by {
                    if i > 0 {
                        assert(rest[i - 1] == paths[i]);
                    }
                }
            }
        }
    }
}

/// Each of `paths` whose chain exists is a candidate of `o` from `source`.
pub open spec fn found_all(style: PathStyle, fs: FsAnswersView, paths: Seq<Seq<char>>, source: AddonPathSource, o: Seq<CandidateView>) -> bool {
    forall|k: int|
        0 <= k < paths.len() ==> (spec_classify(style, fs, #[trigger] paths[k]) matches Ok(Some(st))
            ==> o.contains(found(style, paths[k], source, st)))
}

/// On Linux, the Proton AddOns folder of each Steam installation found is
/// a candidate under that installation's source: `Steam (Proton)` for the
/// native one (or, failing it, the one under `.steam/steam`), `Steam
/// (Flatpak)` for the Flatpak one. The other libraries each installation's
/// list names are candidates from `Steam Library`, the users' folders of
/// `$WINEPREFIX` from `Wine prefix`, and those of the Lutris prefix, when
/// it exists, from `Lutris`.
pub proof fn law_steam_install_sources(style: PathStyle, probe: ProbeView, fs: FsAnswersView)
    ensures
        spec_collect(style, probe, Platform::Linux, fs) matches Ok(c) ==> {
            let native = spec_path_join(style, probe.home, ".local/share/Steam"@);
            let alt = spec_path_join(style, probe.home, ".steam/steam"@);
            let flatpak = spec_path_join(
                style,
                probe.home,
                ".var/app/com.valvesoftware.Steam/.local/share/Steam"@,
            );
            &&& ask_is_dir(fs, spec_path_join(style, flatpak, "steamapps"@)) == Ok::<bool, crate::fs::FsQueryView>(true)
                ==> (spec_classify(style, fs, spec_steam_proton_addons(style, flatpak)) matches Ok(Some(st))
                ==> c.contains(
                found(style, spec_steam_proton_addons(style, flatpak), AddonPathSource::SteamProtonFlatpak, st),
            ))
            &&& ask_is_dir(fs, spec_path_join(style, native, "steamapps"@)) == Ok::<bool, crate::fs::FsQueryView>(true)
                ==> (spec_classify(style, fs, spec_steam_proton_addons(style, native)) matches Ok(Some(st))
                ==> c.contains(
                found(style, spec_steam_proton_addons(style, native), AddonPathSource::SteamProton, st),
            ))
            &&& ask_is_dir(fs, spec_path_join(style, native, "steamapps"@)) == Ok::<bool, crate::fs::FsQueryView>(false)
                && ask_is_dir(fs, spec_path_join(style, alt, "steamapps"@)) == Ok::<bool, crate::fs::FsQueryView>(true)
                ==> (spec_classify(style, fs, spec_steam_proton_addons(style, alt)) matches Ok(Some(st))
                ==> c.contains(
                found(style, spec_steam_proton_addons(style, alt), AddonPathSource::SteamProton, st),
            ))
            &&& ask_is_dir(fs, spec_path_join(style, flatpak, "steamapps"@)) == Ok::<bool, crate::fs::FsQueryView>(true)
                ==> has_listed_libraries(style, fs, flatpak, c)
            &&& ask_is_dir(fs, spec_path_join(style, native, "steamapps"@)) == Ok::<bool, crate::fs::FsQueryView>(true)
                ==> has_listed_libraries(style, fs, native, c)
            &&& ask_is_dir(fs, spec_path_join(style, native, "steamapps"@)) == Ok::<bool, crate::fs::FsQueryView>(false)
                && ask_is_dir(fs, spec_path_join(style, alt, "steamapps"@)) == Ok::<bool, crate::fs::FsQueryView>(true)
                ==> has_listed_libraries(style, fs, alt, c)
            &&& probe.wineprefix matches Some(p) ==> found_all(style, fs, wine_addons(style, p, probe.user), AddonPathSource::Wineprefix, c)
            &&& ask_exists(fs, lutris_prefix(style, probe.home)) == Ok::<bool, crate::fs::FsQueryView>(true)
                ==> found_all(
                style,
                fs,
                wine_addons(style, lutris_prefix(style, probe.home), probe.user),
                AddonPathSource::LutrisDefault,
                c,
            )
        },
{
    let e = Seq::<CandidateView>::empty();
    if let Ok(c) = spec_collect(style, probe, Platform::Linux, fs) {
        let roots = spec_linux_steam_roots(style, fs, probe.home)->Ok_0;
        let o1 = spec_push_steam_roots(style, fs, e, roots)->Ok_0;
        lemma_push_steam_roots_grows(style, fs, e, roots);
        let r2 = match probe.wineprefix {
            Some(p) => spec_push_all(style, fs, o1, wine_addons(style, p, probe.user), AddonPathSource::Wineprefix),
            None => Ok(o1),
        };
        if let Some(p) = probe.wineprefix {
            lemma_push_all_grows(style, fs, o1, wine_addons(style, p, probe.user), AddonPathSource::Wineprefix);
        }
        let o2 = r2->Ok_0;
        let lutris = crate::detect::lutris_prefix(style, probe.home);
        lemma_push_all_grows(style, fs, o2, wine_addons(style, lutris, probe.user), AddonPathSource::LutrisDefault);
        assert(kept_in(o1, c));
        assert(kept_in(o2, c));
        assert forall|i: int| 0 <= i < roots.len() implies has_listed_libraries(style, fs, (#[trigger] roots[i]).0, c) by {
            lemma_listed_libraries_kept(style, fs, roots[i].0, o1, c);
        }
        if let Some(p) = probe.wineprefix {
            let w = wine_addons(style, p, probe.user);
            assert forall|k: int| 0 <= k < w.len() implies (spec_classify(style, fs, #[trigger] w[k]) matches Ok(Some(st))
                ==> c.contains(found(style, w[k], AddonPathSource::Wineprefix, st))) by {
                if let Ok(Some(st)) = spec_classify(style, fs, w[k]) {
                    assert(o2.contains(found(style, w[k], AddonPathSource::Wineprefix, st)));
                }
            }
        }
        let last = roots.len() - 1;
        if roots.len() > 0 {
            assert(roots[0] == roots[0]);
            assert(roots[last] == roots[last]);
        }
    }
}

/// `x` is the folder under the documents folder, from `Documents`, or one
/// of the two under OneDrive, from `OneDrive Documents`.
pub open spec fn windows_origin(style: PathStyle, probe: ProbeView, x: CandidateView) -> bool {
    let from_documents = match probe.documents {
        Some(d) => x.path == spec_eso_under_documents(style, d),
        None => false,
    };
    let from_onedrive = match probe.onedrive {
        Some(od) => x.path == spec_eso_under_documents(style, spec_path_join(style, od, "Documents"@))
            || x.path == spec_eso_under_documents(style, od),
        None => false,
    };
    ||| x.source == AddonPathSource::NativeDocuments && from_documents
    ||| x.source == AddonPathSource::OneDriveDocuments && from_onedrive
}

/// On Windows, the folder under the documents folder is the only candidate
/// from `Documents`; the folders under OneDrive's `Documents` folder and
/// under OneDrive itself are candidates from `OneDrive Documents`, and
/// nothing else is.
pub proof fn law_windows_sources(style: PathStyle, probe: ProbeView, fs: FsAnswersView)
    ensures
        spec_collect(style, probe, Platform::Windows, fs) matches Ok(c) ==> {
            &&& forall|k: int| 0 <= k < c.len() ==> windows_origin(style, probe, #[trigger] c[k])
            &&& probe.documents matches Some(d) ==> (spec_classify(
                style,
                fs,
                spec_eso_under_documents(style, d),
            ) matches Ok(Some(st)) ==> c.contains(
                found(style, spec_eso_under_documents(style, d), AddonPathSource::NativeDocuments, st),
            ))
            &&& probe.onedrive matches Some(od) ==> (spec_classify(
                style,
                fs,
                spec_eso_under_documents(style, spec_path_join(style, od, "Documents"@)),
            ) matches Ok(Some(st)) ==> c.contains(
                found(
                    style,
                    spec_eso_under_documents(style, spec_path_join(style, od, "Documents"@)),
                    AddonPathSource::OneDriveDocuments,
                    st,
                ),
            ))
            &&& probe.onedrive matches Some(od) ==> (spec_classify(
                style,
                fs,
                spec_eso_under_documents(style, od),
            ) matches Ok(Some(st)) ==> c.contains(
                found(style, spec_eso_under_documents(style, od), AddonPathSource::OneDriveDocuments, st),
            ))
        },
{
    let e = Seq::<CandidateView>::empty();
    if let Ok(c) = spec_collect(style, probe, Platform::Windows, fs) {
        let o1 = spec_push_documents(style, fs, e, probe.documents)->Ok_0;
        if let Some(d) = probe.documents {
            lemma_push_candidate_grows(style, fs, e, spec_eso_under_documents(style, d), AddonPathSource::NativeDocuments);
        }
        assert(forall|k: int| 0 <= k < o1.len() ==> windows_origin(style, probe, #[trigger] o1[k]));
        if let Some(od) = probe.onedrive {
            let a = spec_eso_under_documents(style, spec_path_join(style, od, "Documents"@));
            let b = spec_eso_under_documents(style, od);
            lemma_push_candidate_grows(style, fs, o1, a, AddonPathSource::OneDriveDocuments);
            let o2 = spec_push_candidate(style, fs, o1, a, AddonPathSource::OneDriveDocuments)->Ok_0;
            lemma_push_candidate_grows(style, fs, o2, b, AddonPathSource::OneDriveDocuments);
            assert(forall|k: int| 0 <= k < o2.len() ==> #[trigger] o2[k] == o1[k] || (o2[k].source
                == AddonPathSource::OneDriveDocuments && o2[k].path == a)) by {
                assert forall|k: int| 0 <= k < o2.len() implies #[trigger] o2[k] == o1[k] || (o2[k].source
                    == AddonPathSource::OneDriveDocuments && o2[k].path == a) by {
                    if k >= o1.len() {
                        assert(o2 == o1.push(o2.last()));
                    }
                }
            }
            assert forall|k: int| 0 <= k < c.len() implies #[trigger] c[k] == o2[k] || (c[k].source
                == AddonPathSource::OneDriveDocuments && c[k].path == b) by {
                if k >= o2.len() {
                    assert(c == o2.push(c.last()));
                }
            }
            assert(kept_in(o1, c));
        }
    }
}

/// On macOS, every entry of the bottles folder that is a directory is a
/// bottle, and the AddOns folders of each of its users are searched: each
/// one whose chain exists is a candidate from `CrossOver bottle`.
pub proof fn law_bottles_searched(style: PathStyle, probe: ProbeView, fs: FsAnswersView)
    ensures
        ({
            let root = bottles_root(style, probe.home);
            ask_list_dir(fs, root) matches Ok(Some(names)) ==> {
                &&& spec_crossover_bottles(style, fs, probe.home) matches Ok(b) ==> forall|i: int|
                    0 <= i < names.len() && ask_is_dir(fs, spec_path_join(style, root, #[trigger] names[i]))
                        == Ok::<bool, crate::fs::FsQueryView>(true) ==> b.contains(spec_path_join(style, root, names[i]))
                &&& spec_collect(style, probe, Platform::Macos, fs) matches Ok(c) ==> forall|i: int, k: int|
                    #![trigger wine_addons(style, spec_path_join(style, root, names[i]), probe.user)[k]]
                    0 <= i < names.len() && ask_is_dir(fs, spec_path_join(style, root, names[i])) == Ok::<
                        bool,
                        crate::fs::FsQueryView,
                    >(true) && 0 <= k < wine_addons(style, spec_path_join(style, root, names[i]), probe.user).len()
                        ==> (spec_classify(
                        style,
                        fs,
                        wine_addons(style, spec_path_join(style, root, names[i]), probe.user)[k],
                    ) matches Ok(Some(st)) ==> c.contains(
                        found(
                            style,
                            wine_addons(style, spec_path_join(style, root, names[i]), probe.user)[k],
                            AddonPathSource::CrossoverBottle,
                            st,
                        ),
                    ))
            }
        }),
{
    let root = bottles_root(style, probe.home);
    if let Ok(Some(names)) = ask_list_dir(fs, root) {
        let paths = names.map_values(|n: Seq<char>| spec_path_join(style, root, n));
        lemma_filter_keeps_dirs(fs, Seq::empty(), paths);
        assert forall|i: int| 0 <= i < names.len() implies #[trigger] paths[i] == spec_path_join(
            style,
            root,
            names[i],
        ) by {}
        if let Ok(b) = spec_crossover_bottles(style, fs, probe.home) {
            assert forall|i: int|
                0 <= i < names.len() && ask_is_dir(fs, spec_path_join(style, root, #[trigger] names[i]))
                    == Ok::<bool, crate::fs::FsQueryView>(true) implies b.contains(spec_path_join(style, root, names[i])) by {
                assert(paths[i] == spec_path_join(style, root, names[i]));
            }
            let e = Seq::<CandidateView>::empty();
            if let Ok(c) = spec_collect(style, probe, Platform::Macos, fs) {
                let o1 = spec_push_documents(style, fs, e, probe.documents)->Ok_0;
                lemma_push_bottles_grows(style, fs, o1, b, probe.user);
                assert forall|i: int, k: int|
                    #![trigger wine_addons(style, spec_path_join(style, root, names[i]), probe.user)[k]]
                    0 <= i < names.len() && ask_is_dir(fs, spec_path_join(style, root, names[i])) == Ok::<
                        bool,
                        crate::fs::FsQueryView,
                    >(true) && 0 <= k < wine_addons(style, spec_path_join(style, root, names[i]), probe.user).len()
                    implies (spec_classify(
                        style,
                        fs,
                        wine_addons(style, spec_path_join(style, root, names[i]), probe.user)[k],
                    ) matches Ok(Some(st)) ==> c.contains(
                        found(
                            style,
                            wine_addons(style, spec_path_join(style, root, names[i]), probe.user)[k],
                            AddonPathSource::CrossoverBottle,
                            st,
                        ),
                    )) by {
                    let bottle = spec_path_join(style, root, names[i]);
                    assert(paths[i] == bottle);
                    assert(b.contains(bottle));
                    let j = choose|j: int| 0 <= j < b.len() && b[j] == bottle;
                    assert(wine_addons(style, b[j], probe.user)[k] == wine_addons(style, bottle, probe.user)[k]);
                }
            }
        }
    }
}

/// On macOS, the folder under the documents folder, when its chain exists,
/// is a candidate from `Documents`.
pub proof fn law_macos_documents(style: PathStyle, probe: ProbeView, fs: FsAnswersView)
    ensures
        spec_collect(style, probe, Platform::Macos, fs) matches Ok(c) ==> (probe.documents matches Some(d) ==> (
        spec_classify(style, fs, spec_eso_under_documents(style, d)) matches Ok(Some(st)) ==> c.contains(
            found(style, spec_eso_under_documents(style, d), AddonPathSource::NativeDocuments, st),
        ))),
{
    let e = Seq::<CandidateView>::empty();
    if let Ok(c) = spec_collect(style, probe, Platform::Macos, fs) {
        if let Some(d) = probe.documents {
            lemma_push_candidate_grows(style, fs, e, spec_eso_under_documents(style, d), AddonPathSource::NativeDocuments);
            let o1 = spec_push_documents(style, fs, e, probe.documents)->Ok_0;
            let b = spec_crossover_bottles(style, fs, probe.home)->Ok_0;
            lemma_push_bottles_grows(style, fs, o1, b, probe.user);
        }
    }
}

} // verus!
