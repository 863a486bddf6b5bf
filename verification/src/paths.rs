//! Where the game keeps its AddOns folder, relative to the folders that
//! hold it.

use vstd::prelude::*;
use crate::pathsyntax::{path_join, same_path, same_path_exec, spec_path_join, PathStyle};
use crate::types::Platform;

verus! {

/// The AddOns folder of the game under a documents folder.
pub open spec fn spec_eso_under_documents(style: PathStyle, documents: Seq<char>) -> Seq<char> {
    spec_path_join(style, 
        spec_path_join(style, spec_path_join(style, documents, "Elder Scrolls Online"@), "live"@),
        "AddOns"@,
    )
}

/// The documents folder of the Proton prefix that Steam keeps for the game
/// in a library folder.
pub open spec fn spec_proton_documents(style: PathStyle, library: Seq<char>) -> Seq<char> {
    spec_path_join(style, 
        spec_path_join(style, 
            spec_path_join(style, spec_path_join(style, library, "steamapps/compatdata"@), "306130"@),
            "pfx"@,
        ),
        "drive_c/users/steamuser/My Documents"@,
    )
}

/// The AddOns folder of the game inside the Proton prefix of a Steam
/// library folder.
pub open spec fn spec_steam_proton_addons(style: PathStyle, library: Seq<char>) -> Seq<char> {
    spec_eso_under_documents(style, spec_proton_documents(style, library))
}

/// The documents folder of user `name` in a Wine prefix.
pub open spec fn wine_user_documents(style: PathStyle, prefix: Seq<char>, name: Seq<char>) -> Seq<char> {
    spec_path_join(style, spec_path_join(style, spec_path_join(style, prefix, "drive_c/users"@), name), "My Documents"@)
}

/// Some path of `s` names the same place as `x`.
pub open spec fn has_same_path(style: PathStyle, s: Seq<Seq<char>>, x: Seq<char>) -> bool {
    exists|i: int| 0 <= i < s.len() && same_path(style, #[trigger] s[i], x)
}

/// `s` with `x` appended unless a path of `s` names the same place.
pub open spec fn push_unique(style: PathStyle, s: Seq<Seq<char>>, x: Seq<char>) -> Seq<Seq<char>> {
    if has_same_path(style, s, x) {
        s
    } else {
        s.push(x)
    }
}

/// The documents folders to try in a Wine prefix, in order: `steamuser`,
/// the given user, `crossover`, `user`, each once.
pub open spec fn spec_wine_user_dirs(style: PathStyle, prefix: Seq<char>, user: Option<Seq<char>>) -> Seq<Seq<char>> {
    let s1 = seq![wine_user_documents(style, prefix, "steamuser"@)];
    let s2 = match user {
        Some(u) => push_unique(style, s1, wine_user_documents(style, prefix, u)),
        None => s1,
    };
    push_unique(style, 
        push_unique(style, s2, wine_user_documents(style, prefix, "crossover"@)),
        wine_user_documents(style, prefix, "user"@),
    )
}

/// No two paths of `s` name the same place.
pub open spec fn places_distinct(style: PathStyle, s: Seq<Seq<char>>) -> bool {
    forall|i: int, j: int| 0 <= i < s.len() && 0 <= j < s.len() && i != j ==> !same_path(style, s[i], s[j])
}

proof fn lemma_push_unique_distinct(style: PathStyle, s: Seq<Seq<char>>, x: Seq<char>)
    requires
        places_distinct(style, s),
    ensures
        places_distinct(style, push_unique(style, s, x)),
        has_same_path(style, push_unique(style, s, x), x),
{
    if !has_same_path(style, s, x) {
        let t = s.push(x);
        assert forall|i: int, j: int| 0 <= i < t.len() && 0 <= j < t.len() && i != j implies !same_path(style, 
            t[i],
            t[j],
        ) by {
            if i == s.len() {
                assert(!same_path(style, s[j], x));
            } else if j == s.len() {
                assert(!same_path(style, s[i], x));
            } else {
                assert(t[i] == s[i] && t[j] == s[j]);
            }
        }
        assert(same_path(style, t[s.len() as int], x));
    }
}

/// The documents folders tried in a Wine prefix never name one place
/// twice, and those of `steamuser`, `crossover` and `user`, and of the
/// given user, are all among them.
pub proof fn law_wine_user_dirs(style: PathStyle, prefix: Seq<char>, user: Option<Seq<char>>)
    ensures
        places_distinct(style, spec_wine_user_dirs(style, prefix, user)),
        has_same_path(style, spec_wine_user_dirs(style, prefix, user), wine_user_documents(style, prefix, "steamuser"@)),
        has_same_path(style, spec_wine_user_dirs(style, prefix, user), wine_user_documents(style, prefix, "crossover"@)),
        has_same_path(style, spec_wine_user_dirs(style, prefix, user), wine_user_documents(style, prefix, "user"@)),
        user matches Some(u) ==> has_same_path(style, spec_wine_user_dirs(style, prefix, user), wine_user_documents(style, prefix, u)),
{
    let steam = wine_user_documents(style, prefix, "steamuser"@);
    let s1 = seq![steam];
    assert(same_path(style, s1[0], steam));
    let s2 = match user {
        Some(u) => push_unique(style, s1, wine_user_documents(style, prefix, u)),
        None => s1,
    };
    if let Some(u) = user {
        lemma_push_unique_distinct(style, s1, wine_user_documents(style, prefix, u));
        lemma_push_unique_keeps(style, s1, wine_user_documents(style, prefix, u), steam);
    }
    let cross = wine_user_documents(style, prefix, "crossover"@);
    let s3 = push_unique(style, s2, cross);
    lemma_push_unique_distinct(style, s2, cross);
    lemma_push_unique_keeps(style, s2, cross, steam);
    if let Some(u) = user {
        lemma_push_unique_keeps(style, s2, cross, wine_user_documents(style, prefix, u));
    }
    let usr = wine_user_documents(style, prefix, "user"@);
    lemma_push_unique_distinct(style, s3, usr);
    lemma_push_unique_keeps(style, s3, usr, steam);
    lemma_push_unique_keeps(style, s3, usr, cross);
    if let Some(u) = user {
        lemma_push_unique_keeps(style, s3, usr, wine_user_documents(style, prefix, u));
    }
}

proof fn lemma_push_unique_keeps(style: PathStyle, s: Seq<Seq<char>>, x: Seq<char>, y: Seq<char>)
    requires
        has_same_path(style, s, y),
    ensures
        has_same_path(style, push_unique(style, s, x), y),
{
    if !has_same_path(style, s, x) {
        let i = choose|i: int| 0 <= i < s.len() && same_path(style, #[trigger] s[i], y);
        assert(s.push(x)[i] == s[i]);
    }
}

/// The folder suggested when nothing is detected: the AddOns folder under
/// the documents folder (or `Documents` in the home folder) on Windows and
/// macOS, and under the Proton prefix of the default Steam library on Linux.
pub open spec fn spec_platform_default_path(
    platform: Platform,
    style: PathStyle,
    home: Seq<char>,
    documents: Option<Seq<char>>,
) -> Seq<char> {
    match platform {
        Platform::Linux => spec_steam_proton_addons(style, spec_path_join(style, home, ".local/share/Steam"@)),
        _ => spec_eso_under_documents(style, 
            match documents {
                Some(d) => d,
                None => spec_path_join(style, home, "Documents"@),
            },
        ),
    }
}

/// The AddOns folder of the game under a documents folder.
pub fn eso_under_documents(style: PathStyle, documents: &str) -> (res: String)
    ensures
        res@ == spec_eso_under_documents(style, documents@),
{
    let a = path_join(style, documents, "Elder Scrolls Online");
    let b = path_join(style, a.as_str(), "live");
    path_join(style, b.as_str(), "AddOns")
}

/// The AddOns folder of the game inside the Proton prefix of a Steam
/// library folder.
pub fn steam_proton_addons(style: PathStyle, library: &str) -> (res: String)
    ensures
        res@ == spec_steam_proton_addons(style, library@),
{
    let a = path_join(style, library, "steamapps/compatdata");
    let b = path_join(style, a.as_str(), "306130");
    let c = path_join(style, b.as_str(), "pfx");
    let d = path_join(style, c.as_str(), "drive_c/users/steamuser/My Documents");
    eso_under_documents(style, d.as_str())
}

/// Whether a path of `v` names the same place as `p`.
fn contains_same_path(style: PathStyle, v: &Vec<String>, p: &String) -> (res: bool)
    ensures
        res == has_same_path(style, v.deep_view(), p@),
{
    let mut i: usize = 0;
    while i < v.len()
        invariant
            i <= v.len(),
            forall|k: int| 0 <= k < i ==> !same_path(style, #[trigger] v.deep_view()[k], p@),
        decreases v.len() - i,
    {
        if same_path_exec(style, v[i].as_str(), p.as_str()) {
            assert(same_path(style, v.deep_view()[i as int], p@));
            return true;
        }
        i += 1;
    }
    false
}

fn push_user_dir(style: PathStyle, out: &mut Vec<String>, users: &str, name: &str)
    ensures
        final(out).deep_view() == push_unique(style, 
            old(out).deep_view(),
            spec_path_join(style, spec_path_join(style, users@, name@), "My Documents"@),
        ),
{
    let a = path_join(style, users, name);
    let dir = path_join(style, a.as_str(), "My Documents");
    let ghost o = out.deep_view();
    if !contains_same_path(style, out, &dir) {
        out.push(dir);
        assert(out.deep_view() =~= o.push(dir@));
    }
}

/// The documents folders to try in a Wine prefix.
pub fn wine_user_dirs(style: PathStyle, prefix: &str, user: Option<&str>) -> (res: Vec<String>)
    ensures
        res.deep_view() == spec_wine_user_dirs(style, prefix@, user.deep_view()),
{
    let users = path_join(style, prefix, "drive_c/users");
    let mut out: Vec<String> = Vec::new();
    assert(out.deep_view() =~= Seq::<Seq<char>>::empty());
    push_user_dir(style, &mut out, users.as_str(), "steamuser");
    assert(out.deep_view() =~= seq![wine_user_documents(style, prefix@, "steamuser"@)]);
    if let Some(u) = user {
        push_user_dir(style, &mut out, users.as_str(), u);
    }
    push_user_dir(style, &mut out, users.as_str(), "crossover");
    push_user_dir(style, &mut out, users.as_str(), "user");
    out
}

/// The folder suggested when nothing is detected on `platform`, given the
/// home folder and, where the system names one, the documents folder.
pub fn platform_default_path(platform: Platform, style: PathStyle, home: &str, documents: Option<&str>) -> (res: String)
    ensures
        res@ == spec_platform_default_path(platform, style, home@, documents.deep_view()),
{
    match platform {
        Platform::Linux => {
            let steam = path_join(style, home, ".local/share/Steam");
            steam_proton_addons(style, steam.as_str())
        },
        _ => match documents {
            Some(d) => eso_under_documents(style, d),
            None => {
                let d = path_join(style, home, "Documents");
                eso_under_documents(style, d.as_str())
            },
        },
    }
}

} // verus!
