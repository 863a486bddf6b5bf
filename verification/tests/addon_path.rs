use eso_addon_path::{
    classify, collect, eso_under_documents, parse_library_paths, path_join, path_parent,
    rank_and_dedupe, steam_proton_addons, AddonPathCandidate, AddonPathSource, AddonPathStatus,
    FsAnswers, FsQuery, PathStyle, Platform, Probe, QueryKind,
};

const ESO_DIR: &str = "Elder Scrolls Online";
const LIVE_DIR: &str = "live";
const ADDONS_DIR: &str = "AddOns";

/// A file system held in memory: its directories and its files.
struct MemFs {
    dirs: Vec<String>,
    files: Vec<(String, String)>,
}

impl MemFs {
    fn new(root: &str) -> MemFs {
        let mut fs = MemFs { dirs: Vec::new(), files: Vec::new() };
        fs.touch_dir(root);
        fs
    }

    fn touch_dir(&mut self, p: &str) {
        let mut cur = Some(p.to_string());
        while let Some(c) = cur {
            if c.is_empty() {
                break;
            }
            if !self.dirs.contains(&c) {
                self.dirs.push(c.clone());
            }
            cur = path_parent(PathStyle::Unix, &c);
        }
    }

    fn write_file(&mut self, p: &str, contents: &str) {
        if let Some(parent) = path_parent(PathStyle::Unix, p) {
            self.touch_dir(&parent);
        }
        self.files.push((p.to_string(), contents.to_string()));
    }

    fn answer(&self, q: &FsQuery, answers: &mut FsAnswers) {
        let path = q.path.clone();
        match q.kind {
            QueryKind::IsDir => {
                let b = self.dirs.contains(&path);
                answers.record_is_dir(path, b);
            }
            QueryKind::Exists => {
                let b = self.dirs.contains(&path) || self.files.iter().any(|(f, _)| *f == path);
                answers.record_exists(path, b);
            }
            QueryKind::ReadFile => {
                let c = self.files.iter().find(|(f, _)| *f == path).map(|(_, c)| c.clone());
                answers.record_file(path, c);
            }
            QueryKind::ListDir => {
                let listing = if self.dirs.contains(&path) {
                    let mut names = Vec::new();
                    for d in self.dirs.iter().chain(self.files.iter().map(|(f, _)| f)) {
                        if path_parent(PathStyle::Unix, d).as_deref() == Some(path.as_str()) {
                            names.push(d[path.len()..].trim_start_matches('/').to_string());
                        }
                    }
                    Some(names)
                } else {
                    None
                };
                answers.record_listing(path, listing);
            }
        }
    }

    /// Runs `f` against answers from this file system until it needs no
    /// more of them.
    fn run<T>(&self, f: impl Fn(&FsAnswers) -> Result<T, FsQuery>) -> T {
        let mut answers = FsAnswers::new();
        loop {
            match f(&answers) {
                Ok(v) => return v,
                Err(q) => self.answer(&q, &mut answers),
            }
        }
    }
}

fn collect_ranked(fs: &MemFs, probe: &Probe, platform: Platform) -> Vec<AddonPathCandidate> {
    let mut got = fs.run(|a| collect(PathStyle::Unix, probe, platform, a));
    rank_and_dedupe(PathStyle::Unix, &mut got);
    got
}

fn probe(home: &str) -> Probe {
    Probe { home: home.to_string(), documents: None, onedrive: None, wineprefix: None, user: None }
}

#[test]
fn parse_libraryfolders_extracts_paths() {
    let vdf = r#"
"libraryfolders"
{
	"0"
	{
		"path"		"/home/me/.local/share/Steam"
		"label"		""
	}
	"1"
	{
		"path"		"/mnt/games/SteamLibrary"
	}
}
"#;
    let paths = parse_library_paths(vdf);
    assert_eq!(
        paths,
        vec![
            String::from("/home/me/.local/share/Steam"),
            String::from("/mnt/games/SteamLibrary"),
        ]
    );
}

#[test]
fn parse_libraryfolders_unescapes_backslashes() {
    let vdf = r#""path"		"C:\\Program Files\\Steam""#;
    let paths = parse_library_paths(vdf);
    assert_eq!(paths, vec![String::from(r"C:\Program Files\Steam")]);
}

#[test]
fn classify_walks_up_existing_parents() {
    let tmp = "/tmp/classify";
    let docs = path_join(PathStyle::Unix, tmp, "My Documents");
    let eso = path_join(PathStyle::Unix, &docs, ESO_DIR);
    let live = path_join(PathStyle::Unix, &eso, LIVE_DIR);
    let addons = path_join(PathStyle::Unix, &live, ADDONS_DIR);

    let mut fs = MemFs::new(tmp);
    assert_eq!(fs.run(|a| classify(PathStyle::Unix, &addons, a)), None);

    fs.touch_dir(&docs);
    assert_eq!(fs.run(|a| classify(PathStyle::Unix, &addons, a)), Some(AddonPathStatus::PrefixExists));

    fs.touch_dir(&eso);
    assert_eq!(fs.run(|a| classify(PathStyle::Unix, &addons, a)), Some(AddonPathStatus::GameSavedataExists));

    fs.touch_dir(&live);
    assert_eq!(fs.run(|a| classify(PathStyle::Unix, &addons, a)), Some(AddonPathStatus::LiveExists));

    fs.touch_dir(&addons);
    assert_eq!(fs.run(|a| classify(PathStyle::Unix, &addons, a)), Some(AddonPathStatus::AddOnsExists));
}

#[test]
fn collect_finds_steam_proton_addons() {
    let home = "/tmp/steam-home";
    let lib = path_join(PathStyle::Unix, home, ".local/share/Steam");
    let addons = steam_proton_addons(PathStyle::Unix, &lib);
    let mut fs = MemFs::new(home);
    fs.touch_dir(&addons);

    let got = collect_ranked(&fs, &probe(home), Platform::Linux);
    assert!(got.iter().any(|c| c.path == addons
        && c.source == AddonPathSource::SteamProton
        && c.status == AddonPathStatus::AddOnsExists));
}

#[test]
fn collect_picks_up_alt_steam_library() {
    let home = "/tmp/alt-home";
    let primary = path_join(PathStyle::Unix, home, ".local/share/Steam");
    let mut fs = MemFs::new(home);
    fs.touch_dir(&path_join(PathStyle::Unix, &primary, "steamapps"));
    let alt = path_join(PathStyle::Unix, home, "alt-library");
    let alt_addons = steam_proton_addons(PathStyle::Unix, &alt);
    fs.touch_dir(&alt_addons);

    let vdf = format!(
        "\"libraryfolders\"\n{{\n\t\"0\" {{ \"path\" \"{}\" }}\n\t\"1\" {{ \"path\" \"{}\" }}\n}}",
        primary, alt,
    );
    fs.write_file(&path_join(PathStyle::Unix, &primary, "steamapps/libraryfolders.vdf"), &vdf);

    let got = collect_ranked(&fs, &probe(home), Platform::Linux);
    assert!(got
        .iter()
        .any(|c| c.path == alt_addons && c.source == AddonPathSource::SteamLibrary));
}

#[test]
fn collect_uses_wineprefix_with_user() {
    let tmp = "/tmp/wine-home";
    let prefix = path_join(PathStyle::Unix, tmp, "prefix");
    let addons = path_join(PathStyle::Unix, 
        &path_join(PathStyle::Unix, 
            &path_join(PathStyle::Unix, &path_join(PathStyle::Unix, &prefix, "drive_c/users/raggi/My Documents"), ESO_DIR),
            LIVE_DIR,
        ),
        ADDONS_DIR,
    );
    let mut fs = MemFs::new(tmp);
    fs.touch_dir(&addons);

    let p = Probe {
        home: tmp.to_string(),
        documents: None,
        onedrive: None,
        wineprefix: Some(prefix),
        user: Some("raggi".into()),
    };
    let got = collect_ranked(&fs, &p, Platform::Linux);
    assert!(got
        .iter()
        .any(|c| c.path == addons && c.source == AddonPathSource::Wineprefix));
}

#[test]
fn collect_windows_includes_onedrive() {
    let tmp = "/tmp/windows-home";
    let docs = path_join(PathStyle::Unix, tmp, "Documents");
    let od = path_join(PathStyle::Unix, tmp, "OneDrive");
    let od_docs = path_join(PathStyle::Unix, &od, "Documents");
    let mut fs = MemFs::new(tmp);
    fs.touch_dir(&eso_under_documents(PathStyle::Unix, &docs));
    fs.touch_dir(&eso_under_documents(PathStyle::Unix, &od_docs));

    let p = Probe {
        home: tmp.to_string(),
        documents: Some(docs.clone()),
        onedrive: Some(od.clone()),
        wineprefix: None,
        user: None,
    };
    let got = collect_ranked(&fs, &p, Platform::Windows);
    let sources: Vec<_> = got.iter().map(|c| c.source).collect();
    assert!(sources.contains(&AddonPathSource::NativeDocuments));
    assert!(sources.contains(&AddonPathSource::OneDriveDocuments));
}

#[test]
fn collect_macos_native_documents() {
    let tmp = "/tmp/mac-home";
    let docs = path_join(PathStyle::Unix, tmp, "Documents");
    let addons = eso_under_documents(PathStyle::Unix, &docs);
    let mut fs = MemFs::new(tmp);
    fs.touch_dir(&addons);

    let p = Probe {
        home: tmp.to_string(),
        documents: Some(docs),
        onedrive: None,
        wineprefix: None,
        user: None,
    };
    let got = collect_ranked(&fs, &p, Platform::Macos);
    assert!(got
        .iter()
        .any(|c| c.path == addons && c.source == AddonPathSource::NativeDocuments));
}

#[test]
fn rank_puts_addons_exists_before_lower_status() {
    let tmp = "/tmp/rank";
    let docs1 = path_join(PathStyle::Unix, &path_join(PathStyle::Unix, tmp, "a"), ESO_DIR);
    let path_lower = path_join(PathStyle::Unix, &path_join(PathStyle::Unix, &docs1, LIVE_DIR), ADDONS_DIR);
    let docs2 = path_join(PathStyle::Unix, 
        &path_join(PathStyle::Unix, &path_join(PathStyle::Unix, &path_join(PathStyle::Unix, tmp, "b"), ESO_DIR), LIVE_DIR),
        ADDONS_DIR,
    );

    let mut v = vec![
        AddonPathCandidate {
            path: path_lower.clone(),
            source: AddonPathSource::NativeDocuments,
            status: AddonPathStatus::GameSavedataExists,
            style: PathStyle::Unix,
        },
        AddonPathCandidate {
            path: docs2.clone(),
            source: AddonPathSource::Wineprefix,
            status: AddonPathStatus::AddOnsExists,
            style: PathStyle::Unix,
        },
    ];
    rank_and_dedupe(PathStyle::Unix, &mut v);
    assert_eq!(v[0].path, docs2);
    assert_eq!(v[1].path, path_lower);
}

#[test]
fn collect_macos_crossover_bottles() {
    let home = "/tmp/mac-bottles";
    let bottles = path_join(PathStyle::Unix, home, "Library/Application Support/CrossOver/Bottles");
    let bottle = path_join(PathStyle::Unix, &bottles, "ESO");
    let addons = eso_under_documents(PathStyle::Unix, &path_join(PathStyle::Unix, &bottle, "drive_c/users/crossover/My Documents"));
    let mut fs = MemFs::new(home);
    fs.touch_dir(&addons);
    fs.write_file(&path_join(PathStyle::Unix, &bottles, "notes.txt"), "not a bottle");

    let got = collect_ranked(&fs, &probe(home), Platform::Macos);
    assert_eq!(got.len(), 1);
    assert_eq!(got[0].path, addons);
    assert_eq!(got[0].source, AddonPathSource::CrossoverBottle);
    assert_eq!(got[0].status, AddonPathStatus::AddOnsExists);
}

#[test]
fn collect_linux_lutris_only_when_present() {
    let home = "/tmp/lutris-home";
    let lutris = path_join(PathStyle::Unix, home, "Games/elder-scrolls-online");
    let docs = path_join(PathStyle::Unix, &lutris, "drive_c/users/steamuser/My Documents");
    let mut fs = MemFs::new(home);
    assert!(collect_ranked(&fs, &probe(home), Platform::Linux).is_empty());
    fs.touch_dir(&docs);
    let got = collect_ranked(&fs, &probe(home), Platform::Linux);
    assert_eq!(got.len(), 1);
    assert_eq!(got[0].path, eso_under_documents(PathStyle::Unix, &docs));
    assert_eq!(got[0].source, AddonPathSource::LutrisDefault);
    assert_eq!(got[0].status, AddonPathStatus::PrefixExists);
}

#[test]
fn collect_linux_asks_for_native_steamapps_first() {
    let answers = FsAnswers::new();
    let q = collect(PathStyle::Unix, &probe("/home/me"), Platform::Linux, &answers).unwrap_err();
    assert_eq!(q.kind, QueryKind::IsDir);
    assert_eq!(q.path, "/home/me/.local/share/Steam/steamapps");
}

#[test]
fn collect_same_library_listed_twice_is_kept_once() {
    let home = "/tmp/dup-home";
    let primary = path_join(PathStyle::Unix, home, ".local/share/Steam");
    let addons = steam_proton_addons(PathStyle::Unix, &primary);
    let mut fs = MemFs::new(home);
    fs.touch_dir(&addons);
    let vdf = format!("\"path\" \"{}\"\n\"path\" \"{}\"\n", primary, primary);
    fs.write_file(&path_join(PathStyle::Unix, &primary, "steamapps/libraryfolders.vdf"), &vdf);

    let raw = fs.run(|a| collect(PathStyle::Unix, &probe(home), Platform::Linux, a));
    assert_eq!(raw.len(), 1);
    assert_eq!(raw[0].source, AddonPathSource::SteamProton);
}

#[test]
fn steam_libraries_skip_the_installation_itself() {
    let root = "/s/Steam";
    let vdf = "\"path\" \"/s/Steam/\"\n\"path\" \"/games\"\n\"path\" \"/s//Steam\"\n";
    let mut fs = MemFs::new("/s");
    fs.write_file(&path_join(PathStyle::Unix, root, "steamapps/libraryfolders.vdf"), vdf);
    let libs = fs.run(|a| eso_addon_path::steam_libraries(PathStyle::Unix, root, a));
    assert_eq!(libs, vec!["/s/Steam".to_string(), "/games".to_string()]);
    let none = MemFs::new("/s").run(|a| eso_addon_path::steam_libraries(PathStyle::Unix, root, a));
    assert_eq!(none, vec!["/s/Steam".to_string()]);
}

#[test]
fn linux_roots_prefer_native_then_flatpak() {
    let home = "/h";
    let mut fs = MemFs::new(home);
    fs.touch_dir("/h/.steam/steam/steamapps");
    fs.touch_dir("/h/.var/app/com.valvesoftware.Steam/.local/share/Steam/steamapps");
    let roots = fs.run(|a| eso_addon_path::linux_steam_roots(PathStyle::Unix, home, a));
    assert_eq!(
        roots,
        vec![
            ("/h/.steam/steam".to_string(), AddonPathSource::SteamProton),
            (
                "/h/.var/app/com.valvesoftware.Steam/.local/share/Steam".to_string(),
                AddonPathSource::SteamProtonFlatpak
            ),
        ]
    );
    fs.touch_dir("/h/.local/share/Steam/steamapps");
    let roots = fs.run(|a| eso_addon_path::linux_steam_roots(PathStyle::Unix, home, a));
    assert_eq!(roots[0], ("/h/.local/share/Steam".to_string(), AddonPathSource::SteamProton));
    assert_eq!(roots.len(), 2);
}
