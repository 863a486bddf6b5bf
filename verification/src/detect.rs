//! Finding the AddOns folders that may belong to the game.

use vstd::prelude::*;
use vstd::string::*;
use crate::fs::{
    ask_exists, ask_is_dir, ask_list_dir, ask_read_file, is_answered, FsAnswers, FsAnswersView,
    FsQuery, FsQueryView,
};
use crate::paths::{
    eso_under_documents, spec_eso_under_documents, spec_steam_proton_addons, spec_wine_user_dirs,
    steam_proton_addons, wine_user_dirs,
};
use crate::pathsyntax::{
    path_join, path_parent, same_path, same_path_exec, spec_path_join, spec_path_parent, PathStyle,
};
use crate::rank::{
    law_rank_keeps_paths, law_rank_order, law_rank_paths_distinct, paths_distinct, rank_and_dedupe,
    ranked_before, spec_rank_and_dedupe, has_path,
};
use crate::types::{AddonPathCandidate, AddonPathSource, AddonPathStatus, CandidateView, Platform};
use crate::vdf::{parse_library_paths, spec_parse_library_paths};

verus! {

/// What is known of the user's environment before the file system is asked.
pub struct Probe {
    pub home: String,
    pub documents: Option<String>,
    pub onedrive: Option<String>,
    pub wineprefix: Option<String>,
    pub user: Option<String>,
}

/// The environment, paths as characters.
pub struct ProbeView {
    pub home: Seq<char>,
    pub documents: Option<Seq<char>>,
    pub onedrive: Option<Seq<char>>,
    pub wineprefix: Option<Seq<char>>,
    pub user: Option<Seq<char>>,
}

impl DeepView for Probe {
    type V = ProbeView;

    open spec fn deep_view(&self) -> ProbeView {
        ProbeView {
            home: self.home@,
            documents: self.documents.deep_view(),
            onedrive: self.onedrive.deep_view(),
            wineprefix: self.wineprefix.deep_view(),
            user: self.user.deep_view(),
        }
    }
}

/// The status of the AddOns folder at `path`, from the deepest folder that
/// exists among `path` and its first three ancestors (the `live` folder,
/// the game folder and the documents folder); none when none of them is a
/// directory.
pub open spec fn spec_classify(style: PathStyle, fs: FsAnswersView, path: Seq<char>) -> Result<
    Option<AddonPathStatus>,
    FsQueryView,
> {
    match ask_is_dir(fs, path) {
        Err(q) => Err(q),
        Ok(true) => Ok(Some(AddonPathStatus::AddOnsExists)),
        Ok(false) => match spec_path_parent(style, path) {
            None => Ok(None),
            Some(live) => match ask_is_dir(fs, live) {
                Err(q) => Err(q),
                Ok(true) => Ok(Some(AddonPathStatus::LiveExists)),
                Ok(false) => match spec_path_parent(style, live) {
                    None => Ok(None),
                    Some(eso) => match ask_is_dir(fs, eso) {
                        Err(q) => Err(q),
                        Ok(true) => Ok(Some(AddonPathStatus::GameSavedataExists)),
                        Ok(false) => match spec_path_parent(style, eso) {
                            None => Ok(None),
                            Some(docs) => match ask_is_dir(fs, docs) {
                                Err(q) => Err(q),
                                Ok(true) => Ok(Some(AddonPathStatus::PrefixExists)),
                                Ok(false) => Ok(None),
                            },
                        },
                    },
                },
            },
        },
    }
}

/// `out` with the folder at `path` added when any of its chain exists.
pub open spec fn spec_push_candidate(style: PathStyle, 
    fs: FsAnswersView,
    out: Seq<CandidateView>,
    path: Seq<char>,
    source: AddonPathSource,
) -> Result<Seq<CandidateView>, FsQueryView> {
    match spec_classify(style, fs, path) {
        Err(q) => Err(q),
        Ok(None) => Ok(out),
        Ok(Some(status)) => Ok(out.push(CandidateView { path, source, status, style })),
    }
}

/// `out` with each of `paths`, in order, added as by `spec_push_candidate`.
pub open spec fn spec_push_all(style: PathStyle, 
    fs: FsAnswersView,
    out: Seq<CandidateView>,
    paths: Seq<Seq<char>>,
    source: AddonPathSource,
) -> Result<Seq<CandidateView>, FsQueryView>
    decreases paths.len(),
{
    if paths.len() == 0 {
        Ok(out)
    } else {
        match spec_push_candidate(style, fs, out, paths[0], source) {
            Err(q) => Err(q),
            Ok(o) => spec_push_all(style, fs, o, paths.skip(1), source),
        }
    }
}

/// The AddOns folders of each user of a Wine prefix.
pub open spec fn wine_addons(style: PathStyle, prefix: Seq<char>, user: Option<Seq<char>>) -> Seq<Seq<char>> {
    spec_wine_user_dirs(style, prefix, user).map_values(|d: Seq<char>| spec_eso_under_documents(style, d))
}

/// The Steam installations under the home folder that hold a `steamapps`
/// folder, with their sources: the native one (or, failing it, the one
/// under `.steam/steam`), then the Flatpak one.
pub open spec fn spec_linux_steam_roots(style: PathStyle, fs: FsAnswersView, home: Seq<char>) -> Result<
    Seq<(Seq<char>, AddonPathSource)>,
    FsQueryView,
> {
    let native = spec_path_join(style, home, ".local/share/Steam"@);
    let alt = spec_path_join(style, home, ".steam/steam"@);
    let flatpak = spec_path_join(style, home, ".var/app/com.valvesoftware.Steam/.local/share/Steam"@);
    let first: Result<Seq<(Seq<char>, AddonPathSource)>, FsQueryView> = match ask_is_dir(
        fs,
        spec_path_join(style, native, "steamapps"@),
    ) {
        Err(q) => Err(q),
        Ok(true) => Ok(seq![(native, AddonPathSource::SteamProton)]),
        Ok(false) => match ask_is_dir(fs, spec_path_join(style, alt, "steamapps"@)) {
            Err(q) => Err(q),
            Ok(true) => Ok(seq![(alt, AddonPathSource::SteamProton)]),
            Ok(false) => Ok(seq![]),
        },
    };
    match first {
        Err(q) => Err(q),
        Ok(roots) => match ask_is_dir(fs, spec_path_join(style, flatpak, "steamapps"@)) {
            Err(q) => Err(q),
            Ok(true) => Ok(roots.push((flatpak, AddonPathSource::SteamProtonFlatpak))),
            Ok(false) => Ok(roots),
        },
    }
}

/// `s` without the paths that name the same place as `x`.
pub open spec fn without(style: PathStyle, s: Seq<Seq<char>>, x: Seq<char>) -> Seq<Seq<char>>
    decreases s.len(),
{
    if s.len() == 0 {
        s
    } else if same_path(style, s[0], x) {
        without(style, s.skip(1), x)
    } else {
        seq![s[0]] + without(style, s.skip(1), x)
    }
}

/// The library folders of a Steam installation: the installation itself,
/// then the other folders its `libraryfolders.vdf` lists.
pub open spec fn spec_steam_libraries(style: PathStyle, fs: FsAnswersView, root: Seq<char>) -> Result<
    Seq<Seq<char>>,
    FsQueryView,
> {
    match ask_read_file(fs, spec_path_join(style, root, "steamapps/libraryfolders.vdf"@)) {
        Err(q) => Err(q),
        Ok(None) => Ok(seq![root]),
        Ok(Some(text)) => Ok(seq![root] + without(style, spec_parse_library_paths(text), root)),
    }
}

/// `out` with the Proton AddOns folder of each library of each Steam
/// installation: an installation's own library under the installation's
/// source, its other libraries as Steam libraries.
pub open spec fn spec_push_steam_roots(style: PathStyle, 
    fs: FsAnswersView,
    out: Seq<CandidateView>,
    roots: Seq<(Seq<char>, AddonPathSource)>,
) -> Result<Seq<CandidateView>, FsQueryView>
    decreases roots.len(),
{
    if roots.len() == 0 {
        Ok(out)
    } else {
        match spec_steam_libraries(style, fs, roots[0].0) {
            Err(q) => Err(q),
            Ok(libs) => match spec_push_candidate(style, 
                fs,
                out,
                spec_steam_proton_addons(style, roots[0].0),
                roots[0].1,
            ) {
                Err(q) => Err(q),
                Ok(o) => match spec_push_all(style, 
                    fs,
                    o,
                    libs.skip(1).map_values(|l: Seq<char>| spec_steam_proton_addons(style, l)),
                    AddonPathSource::SteamLibrary,
                ) {
                    Err(q) => Err(q),
                    Ok(o2) => spec_push_steam_roots(style, fs, o2, roots.skip(1)),
                },
            },
        }
    }
}

/// `acc` followed by those of `paths` that are directories, in order.
pub open spec fn spec_filter_acc(
    fs: FsAnswersView,
    acc: Seq<Seq<char>>,
    paths: Seq<Seq<char>>,
) -> Result<Seq<Seq<char>>, FsQueryView>
    decreases paths.len(),
{
    if paths.len() == 0 {
        Ok(acc)
    } else {
        match ask_is_dir(fs, paths[0]) {
            Err(q) => Err(q),
            Ok(b) => spec_filter_acc(
                fs,
                if b {
                    acc.push(paths[0])
                } else {
                    acc
                },
                paths.skip(1),
            ),
        }
    }
}

/// Those of `paths` that are directories, in order.
pub open spec fn spec_filter_dirs(fs: FsAnswersView, paths: Seq<Seq<char>>) -> Result<
    Seq<Seq<char>>,
    FsQueryView,
> {
    spec_filter_acc(fs, Seq::empty(), paths)
}

/// The folder that holds the CrossOver bottles.
pub open spec fn bottles_root(style: PathStyle, home: Seq<char>) -> Seq<char> {
    spec_path_join(style, home, "Library/Application Support/CrossOver/Bottles"@)
}

/// The CrossOver bottles: the entries of the bottles folder that are
/// directories, none when it cannot be listed.
pub open spec fn spec_crossover_bottles(style: PathStyle, fs: FsAnswersView, home: Seq<char>) -> Result<
    Seq<Seq<char>>,
    FsQueryView,
> {
    match ask_list_dir(fs, bottles_root(style, home)) {
        Err(q) => Err(q),
        Ok(None) => Ok(seq![]),
        Ok(Some(names)) => spec_filter_dirs(
            fs,
            names.map_values(|n: Seq<char>| spec_path_join(style, bottles_root(style, home), n)),
        ),
    }
}

/// `out` with the AddOns folders of each user of each bottle.
pub open spec fn spec_push_bottles(style: PathStyle, 
    fs: FsAnswersView,
    out: Seq<CandidateView>,
    bottles: Seq<Seq<char>>,
    user: Option<Seq<char>>,
) -> Result<Seq<CandidateView>, FsQueryView>
    decreases bottles.len(),
{
    if bottles.len() == 0 {
        Ok(out)
    } else {
        match spec_push_all(style, fs, out, wine_addons(style, bottles[0], user), AddonPathSource::CrossoverBottle) {
            Err(q) => Err(q),
            Ok(o) => spec_push_bottles(style, fs, o, bottles.skip(1), user),
        }
    }
}

/// `out` with the AddOns folder under the documents folder, if there is one.
pub open spec fn spec_push_documents(style: PathStyle, 
    fs: FsAnswersView,
    out: Seq<CandidateView>,
    documents: Option<Seq<char>>,
) -> Result<Seq<CandidateView>, FsQueryView> {
    match documents {
        Some(d) => spec_push_candidate(style, 
            fs,
            out,
            spec_eso_under_documents(style, d),
            AddonPathSource::NativeDocuments,
        ),
        None => Ok(out),
    }
}

/// The folder Lutris installs the game into by default.
pub open spec fn lutris_prefix(style: PathStyle, home: Seq<char>) -> Seq<char> {
    spec_path_join(style, home, "Games/elder-scrolls-online"@)
}

/// Every folder found on `platform`, in the order in which it is looked
/// for, or the first question that has no answer yet.
///
/// On Windows: the documents folder, then OneDrive's `Documents` folder and
/// OneDrive itself. On macOS: the documents folder, then each user of each
/// CrossOver bottle. On Linux: each library of each Steam installation,
/// each user of `$WINEPREFIX`, then each user of the Lutris prefix if it
/// exists.
pub open spec fn spec_collect(style: PathStyle, probe: ProbeView, platform: Platform, fs: FsAnswersView) -> Result<
    Seq<CandidateView>,
    FsQueryView,
> {
    let e = Seq::<CandidateView>::empty();
    match platform {
        Platform::Windows => match spec_push_documents(style, fs, e, probe.documents) {
            Err(q) => Err(q),
            Ok(o1) => match probe.onedrive {
                None => Ok(o1),
                Some(od) => match spec_push_candidate(style, 
                    fs,
                    o1,
                    spec_eso_under_documents(style, spec_path_join(style, od, "Documents"@)),
                    AddonPathSource::OneDriveDocuments,
                ) {
                    Err(q) => Err(q),
                    Ok(o2) => spec_push_candidate(style, 
                        fs,
                        o2,
                        spec_eso_under_documents(style, od),
                        AddonPathSource::OneDriveDocuments,
                    ),
                },
            },
        },
        Platform::Macos => match spec_push_documents(style, fs, e, probe.documents) {
            Err(q) => Err(q),
            Ok(o1) => match spec_crossover_bottles(style, fs, probe.home) {
                Err(q) => Err(q),
                Ok(b) => spec_push_bottles(style, fs, o1, b, probe.user),
            },
        },
        Platform::Linux => match spec_linux_steam_roots(style, fs, probe.home) {
            Err(q) => Err(q),
            Ok(roots) => match spec_push_steam_roots(style, fs, e, roots) {
                Err(q) => Err(q),
                Ok(o1) => {
                    let r2 = match probe.wineprefix {
                        Some(p) => spec_push_all(style, 
                            fs,
                            o1,
                            wine_addons(style, p, probe.user),
                            AddonPathSource::Wineprefix,
                        ),
                        None => Ok(o1),
                    };
                    match r2 {
                        Err(q) => Err(q),
                        Ok(o2) => match ask_exists(fs, lutris_prefix(style, probe.home)) {
                            Err(q) => Err(q),
                            Ok(false) => Ok(o2),
                            Ok(true) => spec_push_all(style, 
                                fs,
                                o2,
                                wine_addons(style, lutris_prefix(style, probe.home), probe.user),
                                AddonPathSource::LutrisDefault,
                            ),
                        },
                    }
                },
            },
        },
    }
}

/// The folders found, ranked and each path once, or the first question
/// that has no answer yet.
pub open spec fn spec_detect_candidates(style: PathStyle, 
    probe: ProbeView,
    platform: Platform,
    fs: FsAnswersView,
) -> Result<Seq<CandidateView>, FsQueryView> {
    match spec_collect(style, probe, platform, fs) {
        Err(q) => Err(q),
        Ok(c) => Ok(spec_rank_and_dedupe(style, c)),
    }
}

/// A result of candidates, by its view.
pub open spec fn cands_result(r: Result<Vec<AddonPathCandidate>, FsQuery>) -> Result<
    Seq<CandidateView>,
    FsQueryView,
> {
    match r {
        Ok(v) => Ok(v.deep_view()),
        Err(q) => Err(q.deep_view()),
    }
}

/// A result of a step that fills `out`, by the view of `out`.
pub open spec fn step_result(r: Result<(), FsQuery>, out: Seq<CandidateView>) -> Result<
    Seq<CandidateView>,
    FsQueryView,
> {
    match r {
        Ok(_) => Ok(out),
        Err(q) => Err(q.deep_view()),
    }
}

/// A result of paths, by its view.
pub open spec fn paths_result(r: Result<Vec<String>, FsQuery>) -> Result<
    Seq<Seq<char>>,
    FsQueryView,
> {
    match r {
        Ok(v) => Ok(v.deep_view()),
        Err(q) => Err(q.deep_view()),
    }
}

/// The status of the AddOns folder at `path`, or the first question that
/// has no answer yet.
pub fn classify(style: PathStyle, path: &str, fs: &FsAnswers) -> (res: Result<Option<AddonPathStatus>, FsQuery>)
    ensures
        match res {
            Ok(s) => spec_classify(style, fs.view(), path@) == Ok::<Option<AddonPathStatus>, FsQueryView>(s),
            Err(q) => spec_classify(style, fs.view(), path@) == Err::<Option<AddonPathStatus>, FsQueryView>(
                q.deep_view(),
            ),
        },
{
    if fs.is_dir(path)? {
        return Ok(Some(AddonPathStatus::AddOnsExists));
    }
    let live = match path_parent(style, path) {
        None => return Ok(None),
        Some(p) => p,
    };
    if fs.is_dir(live.as_str())? {
        return Ok(Some(AddonPathStatus::LiveExists));
    }
    let eso = match path_parent(style, live.as_str()) {
        None => return Ok(None),
        Some(p) => p,
    };
    if fs.is_dir(eso.as_str())? {
        return Ok(Some(AddonPathStatus::GameSavedataExists));
    }
    let docs = match path_parent(style, eso.as_str()) {
        None => return Ok(None),
        Some(p) => p,
    };
    if fs.is_dir(docs.as_str())? {
        return Ok(Some(AddonPathStatus::PrefixExists));
    }
    Ok(None)
}

/// Adds the folder at `path` to `out` when any of its chain exists.
pub fn push_candidate(style: PathStyle, 
    out: &mut Vec<AddonPathCandidate>,
    path: &str,
    source: AddonPathSource,
    fs: &FsAnswers,
) -> (res: Result<(), FsQuery>)
    ensures
        step_result(res, final(out).deep_view()) == spec_push_candidate(style, 
            fs.view(),
            old(out).deep_view(),
            path@,
            source,
        ),
{
    let status = match classify(style, path, fs) {
        Err(q) => return Err(q),
        Ok(None) => return Ok(()),
        Ok(Some(s)) => s,
    };
    let ghost o = out.deep_view();
    out.push(AddonPathCandidate { path: String::from_str(path), source, status, style });
    assert(out.deep_view() =~= o.push(CandidateView { path: path@, source, status, style }));
    Ok(())
}

/// Adds each of `paths` to `out` as by `push_candidate`.
pub fn push_all(style: PathStyle, 
    out: &mut Vec<AddonPathCandidate>,
    paths: &Vec<String>,
    source: AddonPathSource,
    fs: &FsAnswers,
) -> (res: Result<(), FsQuery>)
    ensures
        step_result(res, final(out).deep_view()) == spec_push_all(style, 
            fs.view(),
            old(out).deep_view(),
            paths.deep_view(),
            source,
        ),
{
    let ghost ps = paths.deep_view();
    let ghost target = spec_push_all(style, fs.view(), out.deep_view(), ps, source);
    let mut i: usize = 0;
    assert(ps.skip(0) =~= ps);
    while i < paths.len()
        invariant
            i <= paths.len(),
            ps == paths.deep_view(),
            target == spec_push_all(style, fs.view(), old(out).deep_view(), ps, source),
            target == spec_push_all(style, fs.view(), out.deep_view(), ps.skip(i as int), source),
        decreases paths.len() - i,
    {
        assert(ps.len() == paths.len());
        assert(ps.skip(i as int)[0] == ps[i as int]);
        assert(ps.skip(i as int).skip(1) =~= ps.skip(i + 1));
        let r = push_candidate(style, out, paths[i].as_str(), source, fs);
        if let Err(q) = r {
            return Err(q);
        }
        i += 1;
    }
    assert(ps.skip(i as int).len() == 0);
    Ok(())
}

/// Each element of `paths` mapped through `eso_under_documents`.
fn eso_under_each(style: PathStyle, paths: &Vec<String>) -> (res: Vec<String>)
    ensures
        res.deep_view() == paths.deep_view().map_values(|d: Seq<char>| spec_eso_under_documents(style, d)),
{
    let mut out: Vec<String> = Vec::new();
    let mut i: usize = 0;
    while i < paths.len()
        invariant
            i <= paths.len(),
            out.deep_view() =~= paths.deep_view().take(i as int).map_values(
                |d: Seq<char>| spec_eso_under_documents(style, d),
            ),
        decreases paths.len() - i,
    {
        let ghost o = out.deep_view();
        let e = eso_under_documents(style, paths[i].as_str());
        out.push(e);
        assert(out.deep_view() =~= o.push(e@));
        assert(paths.deep_view().take(i + 1) =~= paths.deep_view().take(i as int).push(paths[i as int]@));
        i += 1;
    }
    assert(paths.deep_view().take(i as int) =~= paths.deep_view());
    out
}

/// Each element of `paths` mapped through `steam_proton_addons`.
fn proton_addons_each(style: PathStyle, paths: &Vec<String>, from: usize) -> (res: Vec<String>)
    requires
        from <= paths.len(),
    ensures
        res.deep_view() == paths.deep_view().skip(from as int).map_values(
            |l: Seq<char>| spec_steam_proton_addons(style, l),
        ),
{
    let mut out: Vec<String> = Vec::new();
    let mut i: usize = from;
    while i < paths.len()
        invariant
            from <= i <= paths.len(),
            out.deep_view() =~= paths.deep_view().subrange(from as int, i as int).map_values(
                |l: Seq<char>| spec_steam_proton_addons(style, l),
            ),
        decreases paths.len() - i,
    {
        let ghost o = out.deep_view();
        let e = steam_proton_addons(style, paths[i].as_str());
        out.push(e);
        assert(out.deep_view() =~= o.push(e@));
        assert(paths.deep_view().subrange(from as int, i + 1) =~= paths.deep_view().subrange(
            from as int,
            i as int,
        ).push(paths[i as int]@));
        i += 1;
    }
    assert(paths.deep_view().subrange(from as int, i as int) =~= paths.deep_view().skip(
        from as int,
    ));
    out
}

/// The AddOns folders of each user of a Wine prefix.
fn wine_addons_exec(style: PathStyle, prefix: &str, user: Option<&str>) -> (res: Vec<String>)
    ensures
        res.deep_view() == wine_addons(style, prefix@, user.deep_view()),
{
    let dirs = wine_user_dirs(style, prefix, user);
    eso_under_each(style, &dirs)
}

/// The user name as a borrowed string.
fn user_str(user: &Option<String>) -> (res: Option<&str>)
    ensures
        res.deep_view() == user.deep_view(),
{
    match user {
        Some(u) => Some(u.as_str()),
        None => None,
    }
}

/// The Steam installations under the home folder that hold a `steamapps`
/// folder, with their sources.
pub fn linux_steam_roots(style: PathStyle, home: &str, fs: &FsAnswers) -> (res: Result<
    Vec<(String, AddonPathSource)>,
    FsQuery,
>)
    ensures
        match res {
            Ok(v) => spec_linux_steam_roots(style, fs.view(), home@) == Ok::<
                Seq<(Seq<char>, AddonPathSource)>,
                FsQueryView,
            >(v.deep_view()),
            Err(q) => spec_linux_steam_roots(style, fs.view(), home@) == Err::<
                Seq<(Seq<char>, AddonPathSource)>,
                FsQueryView,
            >(q.deep_view()),
        },
{
    let mut roots: Vec<(String, AddonPathSource)> = Vec::new();
    let native = path_join(style, home, ".local/share/Steam");
    let native_apps = path_join(style, native.as_str(), "steamapps");
    if fs.is_dir(native_apps.as_str())? {
        roots.push((native, AddonPathSource::SteamProton));
        assert(roots.deep_view() =~= seq![(native@, AddonPathSource::SteamProton)]);
    } else {
        let alt = path_join(style, home, ".steam/steam");
        let alt_apps = path_join(style, alt.as_str(), "steamapps");
        if fs.is_dir(alt_apps.as_str())? {
            roots.push((alt, AddonPathSource::SteamProton));
            assert(roots.deep_view() =~= seq![(alt@, AddonPathSource::SteamProton)]);
        } else {
            assert(roots.deep_view() =~= Seq::<(Seq<char>, AddonPathSource)>::empty());
        }
    }
    let flatpak = path_join(style, home, ".var/app/com.valvesoftware.Steam/.local/share/Steam");
    let flatpak_apps = path_join(style, flatpak.as_str(), "steamapps");
    if fs.is_dir(flatpak_apps.as_str())? {
        let ghost r = roots.deep_view();
        roots.push((flatpak, AddonPathSource::SteamProtonFlatpak));
        assert(roots.deep_view() =~= r.push((flatpak@, AddonPathSource::SteamProtonFlatpak)));
    }
    Ok(roots)
}

/// The library folders of a Steam installation.
pub fn steam_libraries(style: PathStyle, steam_root: &str, fs: &FsAnswers) -> (res: Result<Vec<String>, FsQuery>)
    ensures
        paths_result(res) == spec_steam_libraries(style, fs.view(), steam_root@),
{
    let mut libs: Vec<String> = Vec::new();
    libs.push(String::from_str(steam_root));
    assert(libs.deep_view() =~= seq![steam_root@]);
    let vdf = path_join(style, steam_root, "steamapps/libraryfolders.vdf");
    match fs.read_file(vdf.as_str())? {
        None => {},
        Some(contents) => {
            let found = parse_library_paths(contents.as_str());
            let ghost fv = found.deep_view();
            let root = String::from_str(steam_root);
            let mut i: usize = 0;
            assert(fv.skip(0) =~= fv);
            while i < found.len()
                invariant
                    i <= found.len(),
                    fv == found.deep_view(),
                    root@ == steam_root@,
                    libs.deep_view() + without(style, fv.skip(i as int), steam_root@) == seq![steam_root@]
                        + without(style, fv, steam_root@),
                decreases found.len() - i,
            {
                let ghost l0 = libs.deep_view();
                assert(fv.skip(i as int)[0] == fv[i as int]);
                assert(fv.skip(i as int).skip(1) =~= fv.skip(i + 1));
                if !same_path_exec(style, found[i].as_str(), root.as_str()) {
                    libs.push(found[i].clone());
                    assert(libs.deep_view() =~= l0.push(fv[i as int]));
                    assert(l0 + (seq![fv[i as int]] + without(style, fv.skip(i + 1), steam_root@))
                        =~= libs.deep_view() + without(style, fv.skip(i + 1), steam_root@));
                }
                i += 1;
            }
            assert(fv.skip(i as int).len() == 0);
            assert(libs.deep_view() + without(style, fv.skip(i as int), steam_root@) =~= libs.deep_view());
        },
    }
    Ok(libs)
}

/// Adds the Proton AddOns folder of each library of each Steam
/// installation to `out`.
fn push_steam_roots(style: PathStyle, 
    out: &mut Vec<AddonPathCandidate>,
    roots: &Vec<(String, AddonPathSource)>,
    fs: &FsAnswers,
) -> (res: Result<(), FsQuery>)
    ensures
        step_result(res, final(out).deep_view()) == spec_push_steam_roots(style, 
            fs.view(),
            old(out).deep_view(),
            roots.deep_view(),
        ),
{
    let ghost rs = roots.deep_view();
    let ghost target = spec_push_steam_roots(style, fs.view(), out.deep_view(), rs);
    let mut i: usize = 0;
    assert(rs.skip(0) =~= rs);
    while i < roots.len()
        invariant
            i <= roots.len(),
            rs == roots.deep_view(),
            target == spec_push_steam_roots(style, fs.view(), old(out).deep_view(), rs),
            target == spec_push_steam_roots(style, fs.view(), out.deep_view(), rs.skip(i as int)),
        decreases roots.len() - i,
    {
        assert(rs.skip(i as int)[0] == rs[i as int]);
        assert(rs.skip(i as int).skip(1) =~= rs.skip(i + 1));
        let root = roots[i].0.as_str();
        let source = roots[i].1;
        assert(rs.len() == roots.len());
        assert(rs[i as int] == (root@, source));
        let libs = match steam_libraries(style, root, fs) {
            Err(q) => return Err(q),
            Ok(l) => l,
        };
        let own = steam_proton_addons(style, root);
        if let Err(q) = push_candidate(style, out, own.as_str(), source, fs) {
            return Err(q);
        }
        let others = if libs.len() > 0 {
            proton_addons_each(style, &libs, 1)
        } else {
            Vec::new()
        };
        assert(libs.len() > 0);
        if let Err(q) = push_all(style, out, &others, AddonPathSource::SteamLibrary, fs) {
            return Err(q);
        }
        i += 1;
    }
    assert(rs.skip(i as int).len() == 0);
    Ok(())
}

/// Those of `paths` that are directories, in order.
fn filter_dirs(paths: &Vec<String>, fs: &FsAnswers) -> (res: Result<Vec<String>, FsQuery>)
    ensures
        paths_result(res) == spec_filter_dirs(fs.view(), paths.deep_view()),
{
    let ghost ps = paths.deep_view();
    let mut out: Vec<String> = Vec::new();
    let mut i: usize = 0;
    assert(ps.skip(0) =~= ps);
    assert(out.deep_view() =~= Seq::<Seq<char>>::empty());
    while i < paths.len()
        invariant
            i <= paths.len(),
            ps == paths.deep_view(),
            spec_filter_dirs(fs.view(), ps) == spec_filter_acc(fs.view(), out.deep_view(), ps.skip(i as int)),
        decreases paths.len() - i,
    {
        assert(ps.len() == paths.len());
        assert(ps.skip(i as int)[0] == ps[i as int]);
        assert(ps.skip(i as int).skip(1) =~= ps.skip(i + 1));
        let b = match fs.is_dir(paths[i].as_str()) {
            Err(q) => return Err(q),
            Ok(b) => b,
        };
        let ghost o = out.deep_view();
        if b {
            out.push(paths[i].clone());
            assert(out.deep_view() =~= o.push(ps[i as int]));
        }
        i += 1;
    }
    assert(ps.skip(i as int).len() == 0);
    Ok(out)
}

/// Each of `names` joined onto `base`.
fn join_each(style: PathStyle, base: &str, names: &Vec<String>) -> (res: Vec<String>)
    ensures
        res.deep_view() == names.deep_view().map_values(|n: Seq<char>| spec_path_join(style, base@, n)),
{
    let mut out: Vec<String> = Vec::new();
    let mut i: usize = 0;
    while i < names.len()
        invariant
            i <= names.len(),
            out.deep_view() =~= names.deep_view().take(i as int).map_values(
                |n: Seq<char>| spec_path_join(style, base@, n),
            ),
        decreases names.len() - i,
    {
        let ghost o = out.deep_view();
        let e = path_join(style, base, names[i].as_str());
        out.push(e);
        assert(out.deep_view() =~= o.push(e@));
        assert(names.deep_view().take(i + 1) =~= names.deep_view().take(i as int).push(names[i as int]@));
        i += 1;
    }
    assert(names.deep_view().take(i as int) =~= names.deep_view());
    out
}

/// The CrossOver bottles under the home folder.
pub fn crossover_bottles(style: PathStyle, home: &str, fs: &FsAnswers) -> (res: Result<Vec<String>, FsQuery>)
    ensures
        paths_result(res) == spec_crossover_bottles(style, fs.view(), home@),
{
    let root = path_join(style, home, "Library/Application Support/CrossOver/Bottles");
    match fs.list_dir(root.as_str()) {
        Err(q) => Err(q),
        Ok(None) => {
            let v: Vec<String> = Vec::new();
            assert(v.deep_view() =~= Seq::<Seq<char>>::empty());
            Ok(v)
        },
        Ok(Some(names)) => {
            let paths = join_each(style, root.as_str(), names);
            filter_dirs(&paths, fs)
        },
    }
}

/// Adds the AddOns folders of each user of each bottle to `out`.
fn push_bottles(style: PathStyle, 
    out: &mut Vec<AddonPathCandidate>,
    bottles: &Vec<String>,
    user: Option<&str>,
    fs: &FsAnswers,
) -> (res: Result<(), FsQuery>)
    ensures
        step_result(res, final(out).deep_view()) == spec_push_bottles(style, 
            fs.view(),
            old(out).deep_view(),
            bottles.deep_view(),
            user.deep_view(),
        ),
{
    let ghost bs = bottles.deep_view();
    let ghost target = spec_push_bottles(style, fs.view(), out.deep_view(), bs, user.deep_view());
    let mut i: usize = 0;
    assert(bs.skip(0) =~= bs);
    while i < bottles.len()
        invariant
            i <= bottles.len(),
            bs == bottles.deep_view(),
            target == spec_push_bottles(style, fs.view(), old(out).deep_view(), bs, user.deep_view()),
            target == spec_push_bottles(style, fs.view(), out.deep_view(), bs.skip(i as int), user.deep_view()),
        decreases bottles.len() - i,
    {
        assert(bs.len() == bottles.len());
        assert(bs.skip(i as int)[0] == bs[i as int]);
        assert(bs.skip(i as int).skip(1) =~= bs.skip(i + 1));
        let addons = wine_addons_exec(style, bottles[i].as_str(), user);
        if let Err(q) = push_all(style, out, &addons, AddonPathSource::CrossoverBottle, fs) {
            return Err(q);
        }
        i += 1;
    }
    assert(bs.skip(i as int).len() == 0);
    Ok(())
}

/// Adds the AddOns folder under the documents folder, if there is one.
fn push_documents(style: PathStyle, 
    out: &mut Vec<AddonPathCandidate>,
    documents: &Option<String>,
    fs: &FsAnswers,
) -> (res: Result<(), FsQuery>)
    ensures
        step_result(res, final(out).deep_view()) == spec_push_documents(style, 
            fs.view(),
            old(out).deep_view(),
            documents.deep_view(),
        ),
{
    match documents {
        Some(d) => {
            let addons = eso_under_documents(style, d.as_str());
            push_candidate(style, out, addons.as_str(), AddonPathSource::NativeDocuments, fs)
        },
        None => Ok(()),
    }
}

/// Every folder found on `platform`, in the order in which it is looked
/// for, or the first question that has no answer yet.
pub fn collect(style: PathStyle, probe: &Probe, platform: Platform, fs: &FsAnswers) -> (res: Result<
    Vec<AddonPathCandidate>,
    FsQuery,
>)
    ensures
        cands_result(res) == spec_collect(style, probe.deep_view(), platform, fs.view()),
{
    let mut out: Vec<AddonPathCandidate> = Vec::new();
    assert(out.deep_view() =~= Seq::<CandidateView>::empty());
    let user = user_str(&probe.user);
    match platform {
        Platform::Windows => {
            if let Err(q) = push_documents(style, &mut out, &probe.documents, fs) {
                return Err(q);
            }
            if let Some(od) = &probe.onedrive {
                let od_docs = path_join(style, od.as_str(), "Documents");
                let a = eso_under_documents(style, od_docs.as_str());
                if let Err(q) = push_candidate(style, &mut out, a.as_str(), AddonPathSource::OneDriveDocuments, fs) {
                    return Err(q);
                }
                let b = eso_under_documents(style, od.as_str());
                if let Err(q) = push_candidate(style, &mut out, b.as_str(), AddonPathSource::OneDriveDocuments, fs) {
                    return Err(q);
                }
            }
        },
        Platform::Macos => {
            if let Err(q) = push_documents(style, &mut out, &probe.documents, fs) {
                return Err(q);
            }
            let bottles = match crossover_bottles(style, probe.home.as_str(), fs) {
                Err(q) => return Err(q),
                Ok(b) => b,
            };
            if let Err(q) = push_bottles(style, &mut out, &bottles, user, fs) {
                return Err(q);
            }
        },
        Platform::Linux => {
            let roots = match linux_steam_roots(style, probe.home.as_str(), fs) {
                Err(q) => return Err(q),
                Ok(r) => r,
            };
            if let Err(q) = push_steam_roots(style, &mut out, &roots, fs) {
                return Err(q);
            }
            if let Some(prefix) = &probe.wineprefix {
                let addons = wine_addons_exec(style, prefix.as_str(), user);
                if let Err(q) = push_all(style, &mut out, &addons, AddonPathSource::Wineprefix, fs) {
                    return Err(q);
                }
            }
            let lutris = path_join(style, probe.home.as_str(), "Games/elder-scrolls-online");
            let present = match fs.path_exists(lutris.as_str()) {
                Err(q) => return Err(q),
                Ok(b) => b,
            };
            if present {
                let addons = wine_addons_exec(style, lutris.as_str(), user);
                if let Err(q) = push_all(style, &mut out, &addons, AddonPathSource::LutrisDefault, fs) {
                    return Err(q);
                }
            }
        },
    }
    Ok(out)
}

/// The folders found, ranked and each path once, or the first question
/// that has no answer yet.
pub fn detect_candidates(style: PathStyle, probe: &Probe, platform: Platform, fs: &FsAnswers) -> (res: Result<
    Vec<AddonPathCandidate>,
    FsQuery,
>)
    ensures
        cands_result(res) == spec_detect_candidates(style, probe.deep_view(), platform, fs.view()),
{
    let mut found = collect(style, probe, platform, fs)?;
    rank_and_dedupe(style, &mut found);
    Ok(found)
}

/// The folder to suggest: the first of `candidates`, or `fallback` when
/// there is none.
pub fn best_default(candidates: &Vec<AddonPathCandidate>, fallback: String) -> (res: String)
    ensures
        res@ == if candidates.len() > 0 {
            candidates@[0].path@
        } else {
            fallback@
        },
{
    if candidates.len() > 0 {
        candidates[0].path.clone()
    } else {
        fallback
    }
}

/// If `r` is a question, it is one without an answer in `fs`.
pub open spec fn asks_new<T>(fs: FsAnswersView, r: Result<T, FsQueryView>) -> bool {
    r matches Err(q) ==> !is_answered(fs, q)
}

proof fn lemma_asks_basic(fs: FsAnswersView, p: Seq<char>)
    ensures
        asks_new(fs, ask_is_dir(fs, p)),
        asks_new(fs, ask_exists(fs, p)),
        asks_new(fs, ask_read_file(fs, p)),
        asks_new(fs, ask_list_dir(fs, p)),
{
}

proof fn lemma_classify_asks_new(style: PathStyle, fs: FsAnswersView, path: Seq<char>)
    ensures
        asks_new(fs, spec_classify(style, fs, path)),
{
    lemma_asks_basic(fs, path);
    if let Some(live) = spec_path_parent(style, path) {
        lemma_asks_basic(fs, live);
        if let Some(eso) = spec_path_parent(style, live) {
            lemma_asks_basic(fs, eso);
            if let Some(docs) = spec_path_parent(style, eso) {
                lemma_asks_basic(fs, docs);
            }
        }
    }
}

proof fn lemma_push_all_asks_new(style: PathStyle, 
    fs: FsAnswersView,
    out: Seq<CandidateView>,
    paths: Seq<Seq<char>>,
    source: AddonPathSource,
)
    ensures
        asks_new(fs, spec_push_all(style, fs, out, paths, source)),
    decreases paths.len(),
{
    if paths.len() > 0 {
        lemma_classify_asks_new(style, fs, paths[0]);
        if let Ok(o) = spec_push_candidate(style, fs, out, paths[0], source) {
            lemma_push_all_asks_new(style, fs, o, paths.skip(1), source);
        }
    }
}

proof fn lemma_push_steam_roots_asks_new(style: PathStyle, 
    fs: FsAnswersView,
    out: Seq<CandidateView>,
    roots: Seq<(Seq<char>, AddonPathSource)>,
)
    ensures
        asks_new(fs, spec_push_steam_roots(style, fs, out, roots)),
    decreases roots.len(),
{
    if roots.len() > 0 {
        lemma_asks_basic(fs, spec_path_join(style, roots[0].0, "steamapps/libraryfolders.vdf"@));
        if let Ok(libs) = spec_steam_libraries(style, fs, roots[0].0) {
            lemma_classify_asks_new(style, fs, spec_steam_proton_addons(style, roots[0].0));
            if let Ok(o) = spec_push_candidate(style, 
                fs,
                out,
                spec_steam_proton_addons(style, roots[0].0),
                roots[0].1,
            ) {
                let others = libs.skip(1).map_values(|l: Seq<char>| spec_steam_proton_addons(style, l));
                lemma_push_all_asks_new(style, fs, o, others, AddonPathSource::SteamLibrary);
                if let Ok(o2) = spec_push_all(style, fs, o, others, AddonPathSource::SteamLibrary) {
                    lemma_push_steam_roots_asks_new(style, fs, o2, roots.skip(1));
                }
            }
        }
    }
}

proof fn lemma_filter_asks_new(fs: FsAnswersView, acc: Seq<Seq<char>>, paths: Seq<Seq<char>>)
    ensures
        asks_new(fs, spec_filter_acc(fs, acc, paths)),
    decreases paths.len(),
{
    if paths.len() > 0 {
        lemma_asks_basic(fs, paths[0]);
        if let Ok(b) = ask_is_dir(fs, paths[0]) {
            lemma_filter_asks_new(
                fs,
                if b {
                    acc.push(paths[0])
                } else {
                    acc
                },
                paths.skip(1),
            );
        }
    }
}

proof fn lemma_push_bottles_asks_new(style: PathStyle, 
    fs: FsAnswersView,
    out: Seq<CandidateView>,
    bottles: Seq<Seq<char>>,
    user: Option<Seq<char>>,
)
    ensures
        asks_new(fs, spec_push_bottles(style, fs, out, bottles, user)),
    decreases bottles.len(),
{
    if bottles.len() > 0 {
        let addons = wine_addons(style, bottles[0], user);
        lemma_push_all_asks_new(style, fs, out, addons, AddonPathSource::CrossoverBottle);
        if let Ok(o) = spec_push_all(style, fs, out, addons, AddonPathSource::CrossoverBottle) {
            lemma_push_bottles_asks_new(style, fs, o, bottles.skip(1), user);
        }
    }
}

/// A question that detection asks never has an answer among those it was
/// given: each round of answering brings a new answer.
pub proof fn law_detect_asks_new(style: PathStyle, probe: ProbeView, platform: Platform, fs: FsAnswersView)
    ensures
        asks_new(fs, spec_detect_candidates(style, probe, platform, fs)),
{
    let e = Seq::<CandidateView>::empty();
    match platform {
        Platform::Windows => {
            if let Some(d) = probe.documents {
                lemma_classify_asks_new(style, fs, spec_eso_under_documents(style, d));
            }
            if let Ok(o1) = spec_push_documents(style, fs, e, probe.documents) {
                if let Some(od) = probe.onedrive {
                    lemma_classify_asks_new(style, 
                        fs,
                        spec_eso_under_documents(style, spec_path_join(style, od, "Documents"@)),
                    );
                    lemma_classify_asks_new(style, fs, spec_eso_under_documents(style, od));
                }
            }
        },
        Platform::Macos => {
            if let Some(d) = probe.documents {
                lemma_classify_asks_new(style, fs, spec_eso_under_documents(style, d));
            }
            if let Ok(o1) = spec_push_documents(style, fs, e, probe.documents) {
                lemma_asks_basic(fs, bottles_root(style, probe.home));
                if let Ok(Some(names)) = ask_list_dir(fs, bottles_root(style, probe.home)) {
                    lemma_filter_asks_new(
                        fs,
                        Seq::empty(),
                        names.map_values(|n: Seq<char>| spec_path_join(style, bottles_root(style, probe.home), n)),
                    );
                }
                if let Ok(b) = spec_crossover_bottles(style, fs, probe.home) {
                    lemma_push_bottles_asks_new(style, fs, o1, b, probe.user);
                }
            }
        },
        Platform::Linux => {
            let home = probe.home;
            lemma_asks_basic(fs, spec_path_join(style, spec_path_join(style, home, ".local/share/Steam"@), "steamapps"@));
            lemma_asks_basic(fs, spec_path_join(style, spec_path_join(style, home, ".steam/steam"@), "steamapps"@));
            lemma_asks_basic(
                fs,
                spec_path_join(style, 
                    spec_path_join(style, home, ".var/app/com.valvesoftware.Steam/.local/share/Steam"@),
                    "steamapps"@,
                ),
            );
            if let Ok(roots) = spec_linux_steam_roots(style, fs, home) {
                lemma_push_steam_roots_asks_new(style, fs, e, roots);
                if let Ok(o1) = spec_push_steam_roots(style, fs, e, roots) {
                    if let Some(p) = probe.wineprefix {
                        lemma_push_all_asks_new(style, fs, o1, wine_addons(style, p, probe.user), AddonPathSource::Wineprefix);
                    }
                    let r2 = match probe.wineprefix {
                        Some(p) => spec_push_all(style, 
                            fs,
                            o1,
                            wine_addons(style, p, probe.user),
                            AddonPathSource::Wineprefix,
                        ),
                        None => Ok(o1),
                    };
                    if let Ok(o2) = r2 {
                        lemma_asks_basic(fs, lutris_prefix(style, home));
                        lemma_push_all_asks_new(style, 
                            fs,
                            o2,
                            wine_addons(style, lutris_prefix(style, home), probe.user),
                            AddonPathSource::LutrisDefault,
                        );
                    }
                }
            }
        },
    }
}

/// What detection gives is ranked (a higher status first, then a lower
/// source priority), names each place once, and names every place that
/// the collected folders name.
pub proof fn law_detect_ranked(style: PathStyle, probe: ProbeView, platform: Platform, fs: FsAnswersView)
    ensures
        spec_detect_candidates(style, probe, platform, fs) matches Ok(v) ==> {
            &&& paths_distinct(style, v)
            &&& forall|i: int, j: int| 0 <= i < j < v.len() ==> ranked_before(#[trigger] v[i], #[trigger] v[j])
            &&& spec_collect(style, probe, platform, fs) matches Ok(c) && forall|p| #[trigger] has_path(style, v, p) <==> has_path(style, c, p)
        },
{
    if let Ok(c) = spec_collect(style, probe, platform, fs) {
        law_rank_order(style, c);
        law_rank_paths_distinct(style, c);
        law_rank_keeps_paths(style, c);
    }
}

} // verus!
