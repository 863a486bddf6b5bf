use eso_addon_path::{
    best_default, candidate_button_label, detect_candidates, path_join, path_parent,
    platform_default_path, rank_and_dedupe, source_priority, status_icon, wine_user_dirs,
    AddonPathCandidate, AddonPathSource, AddonPathStatus, FsAnswers, Onboard, OnboardAction,
    OnboardEvent, PathStyle, Platform, Probe, QueryKind, same_path_exec,
};

fn cand(path: &str, source: AddonPathSource, status: AddonPathStatus) -> AddonPathCandidate {
    AddonPathCandidate { path: path.to_string(), source, status, style: PathStyle::Unix }
}

fn cand_w(path: &str, source: AddonPathSource, status: AddonPathStatus) -> AddonPathCandidate {
    AddonPathCandidate { path: path.to_string(), source, status, style: PathStyle::Windows }
}

#[test]
fn labels_of_sources_and_statuses() {
    assert_eq!(AddonPathSource::NativeDocuments.label(), "Documents");
    assert_eq!(AddonPathSource::OneDriveDocuments.label(), "OneDrive Documents");
    assert_eq!(AddonPathSource::SteamProton.label(), "Steam (Proton)");
    assert_eq!(AddonPathSource::SteamProtonFlatpak.label(), "Steam (Flatpak)");
    assert_eq!(AddonPathSource::SteamLibrary.label(), "Steam Library");
    assert_eq!(AddonPathSource::Wineprefix.label(), "Wine prefix ($WINEPREFIX)");
    assert_eq!(AddonPathSource::LutrisDefault.label(), "Lutris");
    assert_eq!(AddonPathSource::CrossoverBottle.label(), "CrossOver bottle");
    assert_eq!(AddonPathStatus::AddOnsExists.label(), "AddOns folder ready");
    assert_eq!(
        AddonPathStatus::LiveExists.label(),
        "live folder present, AddOns not yet created"
    );
    assert_eq!(AddonPathStatus::GameSavedataExists.label(), "Game savedata present");
    assert_eq!(AddonPathStatus::PrefixExists.label(), "Wine prefix only");
}

#[test]
fn source_priorities() {
    assert_eq!(source_priority(AddonPathSource::NativeDocuments), 0);
    assert_eq!(source_priority(AddonPathSource::CrossoverBottle), 5);
    assert_eq!(source_priority(AddonPathSource::LutrisDefault), 7);
    assert_eq!(AddonPathStatus::AddOnsExists.rank(), 3);
    assert_eq!(AddonPathStatus::PrefixExists.rank(), 0);
}

#[test]
fn join_and_parent() {
    assert_eq!(path_join(PathStyle::Unix, "/home/me", "Documents"), "/home/me/Documents");
    assert_eq!(path_join(PathStyle::Unix, "/home/me/", "Documents"), "/home/me/Documents");
    assert_eq!(path_join(PathStyle::Unix, "", "Documents"), "Documents");
    assert_eq!(path_join(PathStyle::Unix, "/home/me", "/abs"), "/abs");
    assert_eq!(path_parent(PathStyle::Unix, "/home/me/x"), Some("/home/me".to_string()));
    assert_eq!(path_parent(PathStyle::Unix, "/home/me/x/"), Some("/home/me".to_string()));
    assert_eq!(path_parent(PathStyle::Unix, "/x"), Some("/".to_string()));
    assert_eq!(path_parent(PathStyle::Unix, "x"), Some(String::new()));
    assert_eq!(path_parent(PathStyle::Unix, "/"), None);
    assert_eq!(path_parent(PathStyle::Unix, ""), None);
}

#[test]
fn wine_user_dirs_order_and_no_repeat() {
    let dirs = wine_user_dirs(PathStyle::Unix, "/p", Some("crossover"));
    assert_eq!(
        dirs,
        vec![
            "/p/drive_c/users/steamuser/My Documents".to_string(),
            "/p/drive_c/users/crossover/My Documents".to_string(),
            "/p/drive_c/users/user/My Documents".to_string(),
        ]
    );
    let dirs = wine_user_dirs(PathStyle::Unix, "/p", Some("raggi"));
    assert_eq!(dirs.len(), 4);
    assert_eq!(dirs[1], "/p/drive_c/users/raggi/My Documents");
}

#[test]
fn platform_default_paths() {
    assert_eq!(
        platform_default_path(Platform::Linux, PathStyle::Unix, "/home/me", None),
        "/home/me/.local/share/Steam/steamapps/compatdata/306130/pfx/drive_c/users/steamuser/My Documents/Elder Scrolls Online/live/AddOns"
    );
    assert_eq!(
        platform_default_path(Platform::Windows, PathStyle::Unix, "C:/Users/me", None),
        "C:/Users/me/Documents/Elder Scrolls Online/live/AddOns"
    );
    assert_eq!(
        platform_default_path(Platform::Macos, PathStyle::Unix, "/Users/me", Some("/Users/me/Docs")),
        "/Users/me/Docs/Elder Scrolls Online/live/AddOns"
    );
}

#[test]
fn best_default_takes_first_or_fallback() {
    let v = vec![
        cand("/a", AddonPathSource::SteamProton, AddonPathStatus::AddOnsExists),
        cand("/b", AddonPathSource::NativeDocuments, AddonPathStatus::LiveExists),
    ];
    assert_eq!(best_default(&v, "/fallback".to_string()), "/a");
    assert_eq!(best_default(&Vec::new(), "/fallback".to_string()), "/fallback");
}

#[test]
fn rank_orders_by_status_then_priority() {
    let mut v = vec![
        cand("/w", AddonPathSource::Wineprefix, AddonPathStatus::LiveExists),
        cand("/d", AddonPathSource::NativeDocuments, AddonPathStatus::PrefixExists),
        cand("/s", AddonPathSource::SteamProton, AddonPathStatus::LiveExists),
        cand("/l", AddonPathSource::SteamLibrary, AddonPathStatus::AddOnsExists),
    ];
    rank_and_dedupe(PathStyle::Unix, &mut v);
    let paths: Vec<&str> = v.iter().map(|c| c.path.as_str()).collect();
    assert_eq!(paths, vec!["/l", "/s", "/w", "/d"]);
}

#[test]
fn rank_keeps_best_of_each_path_and_is_stable() {
    let mut v = vec![
        cand("/x", AddonPathSource::LutrisDefault, AddonPathStatus::LiveExists),
        cand("/y", AddonPathSource::SteamProton, AddonPathStatus::LiveExists),
        cand("/x", AddonPathSource::NativeDocuments, AddonPathStatus::LiveExists),
        cand("/z", AddonPathSource::SteamProton, AddonPathStatus::LiveExists),
    ];
    rank_and_dedupe(PathStyle::Unix, &mut v);
    assert_eq!(
        v,
        vec![
            cand("/x", AddonPathSource::NativeDocuments, AddonPathStatus::LiveExists),
            cand("/y", AddonPathSource::SteamProton, AddonPathStatus::LiveExists),
            cand("/z", AddonPathSource::SteamProton, AddonPathStatus::LiveExists),
        ]
    );
    let again = {
        let mut w = v.clone();
        rank_and_dedupe(PathStyle::Unix, &mut w);
        w
    };
    assert_eq!(again, v);
}

#[test]
fn detect_asks_then_ranks() {
    let p = Probe {
        home: "/h".to_string(),
        documents: Some("/h/Docs".to_string()),
        onedrive: None,
        wineprefix: None,
        user: None,
    };
    let mut answers = FsAnswers::new();
    let q = detect_candidates(PathStyle::Unix, &p, Platform::Windows, &answers).unwrap_err();
    assert_eq!(q.kind, QueryKind::IsDir);
    assert_eq!(q.path, "/h/Docs/Elder Scrolls Online/live/AddOns");
    answers.record_is_dir(q.path.clone(), false);
    let q = detect_candidates(PathStyle::Unix, &p, Platform::Windows, &answers).unwrap_err();
    assert_eq!(q.path, "/h/Docs/Elder Scrolls Online/live");
    answers.record_is_dir(q.path.clone(), true);
    let got = detect_candidates(PathStyle::Unix, &p, Platform::Windows, &answers).unwrap();
    assert_eq!(got, vec![cand(
        "/h/Docs/Elder Scrolls Online/live/AddOns",
        AddonPathSource::NativeDocuments,
        AddonPathStatus::LiveExists,
    )]);
}

#[test]
fn first_recorded_answer_counts() {
    let mut answers = FsAnswers::new();
    answers.record_is_dir("/a".to_string(), true);
    answers.record_is_dir("/a".to_string(), false);
    assert_eq!(answers.is_dir("/a"), Ok(true));
    assert_eq!(answers.is_dir("/b").unwrap_err().path, "/b");
    answers.record_file("/f".to_string(), None);
    assert_eq!(answers.read_file("/f"), Ok(&None));
    answers.record_listing("/d".to_string(), Some(vec!["x".to_string()]));
    assert_eq!(answers.list_dir("/d"), Ok(&Some(vec!["x".to_string()])));
    answers.record_exists("/e".to_string(), false);
    assert_eq!(answers.path_exists("/e"), Ok(false));
}

#[test]
fn onboard_flow() {
    let cands = vec![cand("/a", AddonPathSource::SteamProton, AddonPathStatus::AddOnsExists)];
    let mut o = Onboard::new(cands);
    assert!(!o.is_setup_done());
    assert_eq!(o.handle(OnboardEvent::DonePressed), OnboardAction::Nothing);
    assert!(!o.setup_done());
    assert_eq!(o.handle(OnboardEvent::CandidateChosen(5)), OnboardAction::Nothing);
    assert_eq!(
        o.handle(OnboardEvent::CandidateChosen(0)),
        OnboardAction::SaveAddonDir("/a".to_string())
    );
    assert!(o.is_setup_done());
    assert_eq!(o.handle(OnboardEvent::DialogClosed(None)), OnboardAction::Nothing);
    assert!(!o.is_setup_done());
    assert_eq!(
        o.handle(OnboardEvent::DialogClosed(Some("/picked".to_string()))),
        OnboardAction::SaveAddonDir("/picked".to_string())
    );
    assert_eq!(o.handle(OnboardEvent::DonePressed), OnboardAction::FinishOnboarding);
    assert!(o.setup_done());
    assert_eq!(o.candidates().len(), 1);
}

#[test]
fn button_labels_and_icons() {
    assert_eq!(status_icon(AddonPathStatus::AddOnsExists), "\u{2714}");
    assert_eq!(status_icon(AddonPathStatus::PrefixExists), "\u{2022}");
    let c = cand("/a", AddonPathSource::SteamProton, AddonPathStatus::LiveExists);
    assert_eq!(candidate_button_label(&c), "\u{25b6} Steam (Proton)");
}

#[test]
fn parent_follows_components() {
    assert_eq!(path_parent(PathStyle::Unix, "./a"), Some(".".to_string()));
    assert_eq!(path_parent(PathStyle::Unix, "a/./b"), Some("a".to_string()));
    assert_eq!(path_parent(PathStyle::Unix, "."), Some(String::new()));
    assert_eq!(path_parent(PathStyle::Unix, "//a//b//"), Some("//a".to_string()));
    assert_eq!(path_parent(PathStyle::Unix, "a/./b/c"), Some("a/./b".to_string()));
    assert_eq!(path_parent(PathStyle::Unix, "./"), Some(String::new()));
    assert_eq!(path_parent(PathStyle::Unix, "a/.."), Some("a".to_string()));
}

#[test]
fn rank_treats_equivalent_paths_as_one() {
    let mut v = vec![
        cand("/x//y/", AddonPathSource::SteamLibrary, AddonPathStatus::LiveExists),
        cand("/x/./y", AddonPathSource::SteamProton, AddonPathStatus::LiveExists),
        cand("/x/y", AddonPathSource::Wineprefix, AddonPathStatus::AddOnsExists),
    ];
    rank_and_dedupe(PathStyle::Unix, &mut v);
    assert_eq!(v, vec![cand("/x/y", AddonPathSource::Wineprefix, AddonPathStatus::AddOnsExists)]);
    assert_eq!(v[0].path, "/x/y");
}

#[test]
fn wine_user_dirs_without_user() {
    let dirs = wine_user_dirs(PathStyle::Unix, "/p/", None);
    assert_eq!(
        dirs,
        vec![
            "/p/drive_c/users/steamuser/My Documents".to_string(),
            "/p/drive_c/users/crossover/My Documents".to_string(),
            "/p/drive_c/users/user/My Documents".to_string(),
        ]
    );
}

const W: PathStyle = PathStyle::Windows;

/// Runs detection with the given directories present (compared as Windows
/// paths) and nothing else.
fn detect_on_windows(p: &Probe, dirs: &[&str]) -> Vec<AddonPathCandidate> {
    let mut answers = FsAnswers::new();
    loop {
        match detect_candidates(W, p, Platform::Windows, &answers) {
            Ok(v) => return v,
            Err(q) => {
                let present = dirs.iter().any(|d| same_path_exec(W, d, &q.path));
                match q.kind {
                    QueryKind::IsDir => answers.record_is_dir(q.path.clone(), present),
                    QueryKind::Exists => answers.record_exists(q.path.clone(), present),
                    QueryKind::ReadFile => answers.record_file(q.path.clone(), None),
                    QueryKind::ListDir => answers.record_listing(q.path.clone(), None),
                }
            }
        }
    }
}

#[test]
fn windows_join_uses_backslash_and_prefixes() {
    assert_eq!(path_join(W, "C:\\Users\\me", "Documents"), "C:\\Users\\me\\Documents");
    assert_eq!(path_join(W, "C:\\Users\\me\\", "Documents"), "C:\\Users\\me\\Documents");
    assert_eq!(path_join(W, "C:/Users/me/", "Documents"), "C:/Users/me/Documents");
    assert_eq!(path_join(W, "C:", "x"), "C:x");
    assert_eq!(path_join(W, "", "x"), "x");
    assert_eq!(path_join(W, "C:\\a", "\\b"), "C:\\b");
    assert_eq!(path_join(W, "C:\\a", "/b"), "C:/b");
    assert_eq!(path_join(W, "C:\\a", "D:\\b"), "D:\\b");
    assert_eq!(path_join(W, "C:\\a", "D:b"), "D:b");
    assert_eq!(path_join(W, "\\\\server\\share", "x"), "\\\\server\\share\\x");
    assert_eq!(path_join(W, "\\\\?\\C:\\a", "b/c"), "\\\\?\\C:\\a\\b\\c");
    assert_eq!(path_join(W, "\\\\?\\C:\\a", "..\\x"), "\\\\?\\C:\\x");
    assert_eq!(path_join(W, "\\\\?\\C:\\a", ".\\x"), "\\\\?\\C:\\a\\x");
    assert_eq!(path_join(W, "\\\\?\\C:\\a", ""), "\\\\?\\C:\\a\\");
}

#[test]
fn windows_parent_stops_at_prefix_and_root() {
    assert_eq!(path_parent(W, "C:\\Users\\me"), Some("C:\\Users".to_string()));
    assert_eq!(path_parent(W, "C:\\Users\\me\\"), Some("C:\\Users".to_string()));
    assert_eq!(path_parent(W, "C:\\x"), Some("C:\\".to_string()));
    assert_eq!(path_parent(W, "C:x"), Some("C:".to_string()));
    assert_eq!(path_parent(W, "C:\\"), None);
    assert_eq!(path_parent(W, "C:"), None);
    assert_eq!(path_parent(W, "\\\\server\\share\\x"), Some("\\\\server\\share\\".to_string()));
    assert_eq!(path_parent(W, "\\\\server\\share"), None);
    assert_eq!(path_parent(W, "a\\b"), Some("a".to_string()));
    assert_eq!(path_parent(W, "C:/Users/me"), Some("C:/Users".to_string()));
    assert_eq!(path_parent(W, "C:."), Some("C:".to_string()));
    assert_eq!(path_parent(W, "C:.\\x"), Some("C:.".to_string()));
    assert_eq!(path_parent(W, "\\\\?\\C:\\a\\.\\"), Some("\\\\?\\C:\\a".to_string()));
    assert_eq!(path_parent(PathStyle::Unix, "a\\b"), Some(String::new()));
}

#[test]
fn windows_same_path_ignores_separator_kind_and_drive_case() {
    assert!(same_path_exec(W, "C:\\Users\\me\\Documents", "c:/Users/me/Documents"));
    assert!(same_path_exec(W, "C:\\Users\\\\me\\.\\Documents\\", "C:\\Users\\me\\Documents"));
    assert!(!same_path_exec(W, "C:\\Users", "C:\\users"));
    assert!(!same_path_exec(W, "C:\\Users", "C:Users"));
    assert!(!same_path_exec(W, "C:\\Users", "D:\\Users"));
    assert!(!same_path_exec(W, "C:.\\x", "C:x"));
    assert!(same_path_exec(W, "C:x\\.", "C:x"));
    assert!(!same_path_exec(PathStyle::Unix, "a\\b", "a/b"));
    assert!(same_path_exec(PathStyle::Unix, "/a//b/", "/a/./b"));
}

#[test]
fn windows_default_path_and_layout() {
    assert_eq!(
        platform_default_path(Platform::Windows, W, "C:\\Users\\me", None),
        "C:\\Users\\me\\Documents\\Elder Scrolls Online\\live\\AddOns"
    );
    assert_eq!(
        platform_default_path(Platform::Windows, W, "C:\\Users\\me", Some("D:\\Docs")),
        "D:\\Docs\\Elder Scrolls Online\\live\\AddOns"
    );
    assert_eq!(
        wine_user_dirs(W, "C:\\p", None)[0],
        "C:\\p\\drive_c/users\\steamuser\\My Documents"
    );
}

#[test]
fn windows_rank_merges_the_same_folder_written_twice() {
    let docs = "C:/Users/me/OneDrive/Documents/Elder Scrolls Online/live/AddOns";
    let od = "C:\\Users\\me\\OneDrive\\Documents\\Elder Scrolls Online\\live\\AddOns";
    let both = vec![
        cand_w(od, AddonPathSource::OneDriveDocuments, AddonPathStatus::AddOnsExists),
        cand_w(docs, AddonPathSource::NativeDocuments, AddonPathStatus::AddOnsExists),
    ];
    let mut v = both.clone();
    rank_and_dedupe(W, &mut v);
    assert_eq!(v, vec![cand_w(docs, AddonPathSource::NativeDocuments, AddonPathStatus::AddOnsExists)]);
    assert_eq!(v[0].path, docs);
    let mut u = both.clone();
    rank_and_dedupe(PathStyle::Unix, &mut u);
    assert_eq!(u.len(), 2);
}

#[test]
fn windows_detection_with_documents_in_onedrive() {
    let p = Probe {
        home: "C:\\Users\\me".to_string(),
        documents: Some("C:/Users/me/OneDrive/Documents".to_string()),
        onedrive: Some("C:\\Users\\me\\OneDrive".to_string()),
        wineprefix: None,
        user: None,
    };
    let got = detect_on_windows(
        &p,
        &["C:\\Users\\me\\OneDrive\\Documents\\Elder Scrolls Online\\live\\AddOns", "C:\\Users\\me\\OneDrive"],
    );
    assert_eq!(
        got,
        vec![
            cand_w(
                "C:/Users/me/OneDrive/Documents\\Elder Scrolls Online\\live\\AddOns",
                AddonPathSource::NativeDocuments,
                AddonPathStatus::AddOnsExists,
            ),
            cand_w(
                "C:\\Users\\me\\OneDrive\\Elder Scrolls Online\\live\\AddOns",
                AddonPathSource::OneDriveDocuments,
                AddonPathStatus::PrefixExists,
            ),
        ]
    );
    assert_eq!(got[0].path, "C:/Users/me/OneDrive/Documents\\Elder Scrolls Online\\live\\AddOns");
    assert_eq!(got[1].path, "C:\\Users\\me\\OneDrive\\Elder Scrolls Online\\live\\AddOns");
}

#[test]
fn detection_asks_each_question_once_and_stops() {
    let p = Probe {
        home: "C:\\Users\\me".to_string(),
        documents: Some("C:\\D".to_string()),
        onedrive: Some("C:\\O".to_string()),
        wineprefix: None,
        user: None,
    };
    let mut answers = FsAnswers::new();
    let mut asked: Vec<String> = Vec::new();
    let got = loop {
        match detect_candidates(W, &p, Platform::Windows, &answers) {
            Ok(v) => break v,
            Err(q) => {
                assert_eq!(q.kind, QueryKind::IsDir);
                assert!(!asked.contains(&q.path));
                asked.push(q.path.clone());
                answers.record_is_dir(q.path.clone(), false);
            }
        }
    };
    assert!(got.is_empty());
    assert_eq!(asked.len(), 12);
    assert_eq!(asked[3], "C:\\D");
    assert_eq!(asked[11], "C:\\O");
}

#[test]
fn candidates_compare_paths_by_components() {
    let a = cand("/a/b", AddonPathSource::SteamProton, AddonPathStatus::LiveExists);
    assert_eq!(a, cand("/a//b/", AddonPathSource::SteamProton, AddonPathStatus::LiveExists));
    assert_eq!(a, cand("/a/./b", AddonPathSource::SteamProton, AddonPathStatus::LiveExists));
    assert_ne!(a, cand("/a/c", AddonPathSource::SteamProton, AddonPathStatus::LiveExists));
    assert_ne!(a, cand("/a/b", AddonPathSource::SteamLibrary, AddonPathStatus::LiveExists));
    assert_ne!(a, cand("/a/b", AddonPathSource::SteamProton, AddonPathStatus::AddOnsExists));
    assert_ne!(a, cand("a/b", AddonPathSource::SteamProton, AddonPathStatus::LiveExists));
    let w = cand_w("C:\\a\\b", AddonPathSource::NativeDocuments, AddonPathStatus::LiveExists);
    assert_eq!(w, cand_w("c:/a/b", AddonPathSource::NativeDocuments, AddonPathStatus::LiveExists));
    assert_ne!(
        cand("a\\b", AddonPathSource::NativeDocuments, AddonPathStatus::LiveExists),
        cand("a/b", AddonPathSource::NativeDocuments, AddonPathStatus::LiveExists)
    );
}

#[test]
fn parent_of_a_joined_name_is_the_base() {
    let u = PathStyle::Unix;
    for base in ["/a/b", "a", "./a", "/a/..", "a//b"] {
        let joined = path_join(u, base, "c");
        assert_eq!(joined, format!("{}/c", base));
        assert_eq!(path_parent(u, &joined), Some(base.to_string()));
    }
}

#[test]
fn rank_keeps_equal_ranked_in_input_order_and_never_grows() {
    let mut v = vec![
        cand("/q", AddonPathSource::SteamLibrary, AddonPathStatus::LiveExists),
        cand("/p", AddonPathSource::SteamProton, AddonPathStatus::AddOnsExists),
        cand("/o", AddonPathSource::SteamLibrary, AddonPathStatus::LiveExists),
        cand("/q/", AddonPathSource::SteamLibrary, AddonPathStatus::LiveExists),
        cand("/n", AddonPathSource::SteamLibrary, AddonPathStatus::LiveExists),
    ];
    let n = v.len();
    rank_and_dedupe(PathStyle::Unix, &mut v);
    assert!(v.len() <= n);
    let paths: Vec<&str> = v.iter().map(|c| c.path.as_str()).collect();
    assert_eq!(paths, vec!["/p", "/q", "/o", "/n"]);
}
