//! The kinds of detected AddOns folders and their labels.

use vstd::prelude::*;
use crate::pathsyntax::{same_path, same_path_exec, PathStyle};

verus! {

/// Where a detected AddOns folder comes from.
#[derive(Debug, Clone, Copy, PartialEq, Eq, Structural)]
pub enum AddonPathSource {
    NativeDocuments,
    OneDriveDocuments,
    SteamProton,
    SteamProtonFlatpak,
    SteamLibrary,
    Wineprefix,
    LutrisDefault,
    CrossoverBottle,
}

/// How much of the folder chain down to `AddOns` exists. The variants are
/// listed from the least to the most complete.
#[derive(Debug, Clone, Copy, PartialEq, Eq, PartialOrd, Ord, Structural)]
pub enum AddonPathStatus {
    PrefixExists,
    GameSavedataExists,
    LiveExists,
    AddOnsExists,
}

impl DeepView for AddonPathSource {
    type V = AddonPathSource;

    open spec fn deep_view(&self) -> AddonPathSource {
        *self
    }
}

/// The text shown for a source.
pub open spec fn spec_source_label(s: AddonPathSource) -> Seq<char> {
    match s {
        AddonPathSource::NativeDocuments => "Documents"@,
        AddonPathSource::OneDriveDocuments => "OneDrive Documents"@,
        AddonPathSource::SteamProton => "Steam (Proton)"@,
        AddonPathSource::SteamProtonFlatpak => "Steam (Flatpak)"@,
        AddonPathSource::SteamLibrary => "Steam Library"@,
        AddonPathSource::Wineprefix => "Wine prefix ($WINEPREFIX)"@,
        AddonPathSource::LutrisDefault => "Lutris"@,
        AddonPathSource::CrossoverBottle => "CrossOver bottle"@,
    }
}

/// The text shown for a status.
pub open spec fn spec_status_label(s: AddonPathStatus) -> Seq<char> {
    match s {
        AddonPathStatus::AddOnsExists => "AddOns folder ready"@,
        AddonPathStatus::LiveExists => "live folder present, AddOns not yet created"@,
        AddonPathStatus::GameSavedataExists => "Game savedata present"@,
        AddonPathStatus::PrefixExists => "Wine prefix only"@,
    }
}

/// The position of a status in the declared order, from 0 (least complete)
/// to 3 (AddOns folder present).
pub open spec fn status_rank(s: AddonPathStatus) -> int {
    match s {
        AddonPathStatus::PrefixExists => 0,
        AddonPathStatus::GameSavedataExists => 1,
        AddonPathStatus::LiveExists => 2,
        AddonPathStatus::AddOnsExists => 3,
    }
}

/// A status ranks higher the more of the folder chain exists: the
/// documents folder only, then also the game folder, then also the `live`
/// folder, then also the AddOns folder.
pub proof fn law_status_rank_follows_chain(a: AddonPathStatus, b: AddonPathStatus)
    ensures
        status_rank(AddonPathStatus::PrefixExists) < status_rank(AddonPathStatus::GameSavedataExists),
        status_rank(AddonPathStatus::GameSavedataExists) < status_rank(AddonPathStatus::LiveExists),
        status_rank(AddonPathStatus::LiveExists) < status_rank(AddonPathStatus::AddOnsExists),
        status_rank(a) == status_rank(b) <==> a == b,
{
}

/// Which source wins between candidates of equal status: lower first.
pub open spec fn spec_source_priority(s: AddonPathSource) -> int {
    match s {
        AddonPathSource::NativeDocuments => 0,
        AddonPathSource::OneDriveDocuments => 1,
        AddonPathSource::SteamProton => 2,
        AddonPathSource::SteamProtonFlatpak => 3,
        AddonPathSource::SteamLibrary => 4,
        AddonPathSource::CrossoverBottle => 5,
        AddonPathSource::Wineprefix => 6,
        AddonPathSource::LutrisDefault => 7,
    }
}

impl AddonPathSource {
    pub fn label(&self) -> (res: &'static str)
        ensures
            res@ == spec_source_label(*self),
    {
        match self {
            AddonPathSource::NativeDocuments => "Documents",
            AddonPathSource::OneDriveDocuments => "OneDrive Documents",
            AddonPathSource::SteamProton => "Steam (Proton)",
            AddonPathSource::SteamProtonFlatpak => "Steam (Flatpak)",
            AddonPathSource::SteamLibrary => "Steam Library",
            AddonPathSource::Wineprefix => "Wine prefix ($WINEPREFIX)",
            AddonPathSource::LutrisDefault => "Lutris",
            AddonPathSource::CrossoverBottle => "CrossOver bottle",
        }
    }
}

impl AddonPathStatus {
    pub fn label(&self) -> (res: &'static str)
        ensures
            res@ == spec_status_label(*self),
    {
        match self {
            AddonPathStatus::AddOnsExists => "AddOns folder ready",
            AddonPathStatus::LiveExists => "live folder present, AddOns not yet created",
            AddonPathStatus::GameSavedataExists => "Game savedata present",
            AddonPathStatus::PrefixExists => "Wine prefix only",
        }
    }

    /// The position of this status in the declared order.
    pub fn rank(&self) -> (res: u8)
        ensures
            res == status_rank(*self),
    {
        match self {
            AddonPathStatus::PrefixExists => 0,
            AddonPathStatus::GameSavedataExists => 1,
            AddonPathStatus::LiveExists => 2,
            AddonPathStatus::AddOnsExists => 3,
        }
    }
}

/// Which source wins between candidates of equal status: lower first.
pub fn source_priority(s: AddonPathSource) -> (res: u8)
    ensures
        res == spec_source_priority(s),
{
    match s {
        AddonPathSource::NativeDocuments => 0,
        AddonPathSource::OneDriveDocuments => 1,
        AddonPathSource::SteamProton => 2,
        AddonPathSource::SteamProtonFlatpak => 3,
        AddonPathSource::SteamLibrary => 4,
        AddonPathSource::CrossoverBottle => 5,
        AddonPathSource::Wineprefix => 6,
        AddonPathSource::LutrisDefault => 7,
    }
}

/// The operating system whose folder layout is searched.
#[derive(Debug, Clone, Copy, PartialEq, Eq, Structural)]
pub enum Platform {
    Linux,
    Macos,
    Windows,
}

/// A detected AddOns folder, its path read in the path syntax `style`.
#[derive(Debug, Clone, Eq)]
pub struct AddonPathCandidate {
    pub path: String,
    pub source: AddonPathSource,
    pub status: AddonPathStatus,
    pub style: PathStyle,
}

/// Two candidates are equal when they have the same source, status and
/// path syntax, and their paths name the same place (have the same
/// components).
impl PartialEq for AddonPathCandidate {
    fn eq(&self, other: &Self) -> (res: bool) {
        self.source == other.source && self.status == other.status && self.style == other.style
            && same_path_exec(self.style, self.path.as_str(), other.path.as_str())
    }
}

impl vstd::std_specs::cmp::PartialEqSpecImpl for AddonPathCandidate {
    open spec fn obeys_eq_spec() -> bool {
        true
    }

    open spec fn eq_spec(&self, other: &Self) -> bool {
        &&& self.source == other.source
        &&& self.status == other.status
        &&& self.style == other.style
        &&& same_path(self.style, self.path@, other.path@)
    }
}

/// What a candidate is, with its path as characters.
pub struct CandidateView {
    pub path: Seq<char>,
    pub source: AddonPathSource,
    pub status: AddonPathStatus,
    pub style: PathStyle,
}

impl DeepView for AddonPathCandidate {
    type V = CandidateView;

    open spec fn deep_view(&self) -> CandidateView {
        CandidateView { path: self.path@, source: self.source, status: self.status, style: self.style }
    }
}

} // verus!
