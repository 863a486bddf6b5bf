//! The decisions of the first-run screen that picks the AddOns folder.
//!
//! The screen itself (drawing, the folder dialog, saving the settings) is
//! the caller's; it passes each user event to `Onboard::handle` and carries
//! out the returned action.

use vstd::prelude::*;
use vstd::string::*;
use crate::types::{spec_source_label, AddonPathCandidate, AddonPathStatus, CandidateView};

verus! {

/// Something the user did on the first-run screen.
pub enum OnboardEvent {
    /// The folder dialog closed, with the chosen folder or none.
    DialogClosed(Option<String>),
    /// The button of the detected folder at this index was pressed.
    CandidateChosen(usize),
    /// The "Done!" button was pressed.
    DonePressed,
}

/// What the caller has to do after an event.
#[derive(Debug, PartialEq, Eq)]
pub enum OnboardAction {
    /// Nothing.
    Nothing,
    /// Make this folder the AddOns folder in the settings and save them.
    SaveAddonDir(String),
    /// Mark the first-run screen as done in the settings and save them.
    FinishOnboarding,
}

/// The state of the first-run screen.
pub struct Onboard {
    addon_dir_set: bool,
    setup_done: bool,
    candidates: Vec<AddonPathCandidate>,
}

/// The icon shown before a detected folder of this status.
pub open spec fn spec_status_icon(s: AddonPathStatus) -> Seq<char> {
    match s {
        AddonPathStatus::AddOnsExists => "\u{2714}"@,
        AddonPathStatus::LiveExists => "\u{25b6}"@,
        AddonPathStatus::GameSavedataExists => "\u{25cb}"@,
        AddonPathStatus::PrefixExists => "\u{2022}"@,
    }
}

/// Each status has its own icon: a check mark for a ready AddOns folder, a
/// triangle for a `live` folder, a circle for game savedata and a bullet
/// for a prefix alone; no two statuses share one.
pub proof fn law_status_icons(a: AddonPathStatus, b: AddonPathStatus)
    ensures
        spec_status_icon(a) == spec_status_icon(b) ==> a == b,
        spec_status_icon(AddonPathStatus::AddOnsExists) == seq!['\u{2714}'],
        spec_status_icon(AddonPathStatus::LiveExists) == seq!['\u{25b6}'],
        spec_status_icon(AddonPathStatus::GameSavedataExists) == seq!['\u{25cb}'],
        spec_status_icon(AddonPathStatus::PrefixExists) == seq!['\u{2022}'],
{
    reveal_strlit("\u{2714}");
    reveal_strlit("\u{25b6}");
    reveal_strlit("\u{25cb}");
    reveal_strlit("\u{2022}");
    assert("\u{2714}"@ =~= seq!['\u{2714}']);
    assert("\u{25b6}"@ =~= seq!['\u{25b6}']);
    assert("\u{25cb}"@ =~= seq!['\u{25cb}']);
    assert("\u{2022}"@ =~= seq!['\u{2022}']);
    if spec_status_icon(a) == spec_status_icon(b) {
        assert(spec_status_icon(a)[0] == spec_status_icon(b)[0]);
    }
}

/// The icon shown before a detected folder of this status.
pub fn status_icon(s: AddonPathStatus) -> (res: &'static str)
    ensures
        res@ == spec_status_icon(s),
{
    match s {
        AddonPathStatus::AddOnsExists => "\u{2714}",
        AddonPathStatus::LiveExists => "\u{25b6}",
        AddonPathStatus::GameSavedataExists => "\u{25cb}",
        AddonPathStatus::PrefixExists => "\u{2022}",
    }
}

/// The text of the button of a detected folder: its icon, a space, and the
/// label of its source.
pub fn candidate_button_label(c: &AddonPathCandidate) -> (res: String)
    ensures
        res@ == spec_status_icon(c.status) + " "@ + spec_source_label(c.source),
{
    let mut s = String::from_str(status_icon(c.status));
    s.append(" ");
    s.append(c.source.label());
    s
}

impl Onboard {
    /// The screen before any choice, offering the detected folders.
    pub fn new(candidates: Vec<AddonPathCandidate>) -> (res: Self)
        ensures
            !res.is_addon_dir_set(),
            !res.is_done(),
            res.candidates_view() == candidates.deep_view(),
    {
        Onboard { addon_dir_set: false, setup_done: false, candidates }
    }

    /// Whether an AddOns folder has been chosen.
    pub closed spec fn is_addon_dir_set(&self) -> bool {
        self.addon_dir_set
    }

    /// Whether the user has finished the screen.
    pub closed spec fn is_done(&self) -> bool {
        self.setup_done
    }

    /// The detected folders on offer.
    pub closed spec fn candidates_view(&self) -> Seq<CandidateView> {
        self.candidates.deep_view()
    }

    /// Whether the screen may be finished: a folder has been chosen.
    pub fn is_setup_done(&self) -> (res: bool)
        ensures
            res == self.is_addon_dir_set(),
    {
        self.addon_dir_set
    }

    /// Whether the user has finished the screen.
    pub fn setup_done(&self) -> (res: bool)
        ensures
            res == self.is_done(),
    {
        self.setup_done
    }

    /// The detected folders on offer.
    pub fn candidates(&self) -> (res: &Vec<AddonPathCandidate>)
        ensures
            res.deep_view() == self.candidates_view(),
    {
        &self.candidates
    }

    /// Applies a user event and says what the caller has to do.
    ///
    /// A folder from the dialog or from a detected folder's button becomes
    /// the AddOns folder; a dialog closed without a folder leaves none
    /// chosen; "Done!" finishes the screen once a folder is chosen and does
    /// nothing before.
    pub fn handle(&mut self, event: OnboardEvent) -> (action: OnboardAction)
        ensures
            final(self).candidates_view() == old(self).candidates_view(),
            match event {
                OnboardEvent::DialogClosed(Some(p)) => {
                    &&& final(self).is_addon_dir_set()
                    &&& final(self).is_done() == old(self).is_done()
                    &&& action matches OnboardAction::SaveAddonDir(d) && d@ == p@
                },
                OnboardEvent::DialogClosed(None) => {
                    &&& !final(self).is_addon_dir_set()
                    &&& final(self).is_done() == old(self).is_done()
                    &&& action is Nothing
                },
                OnboardEvent::CandidateChosen(i) => if i < old(self).candidates_view().len() {
                    &&& final(self).is_addon_dir_set()
                    &&& final(self).is_done() == old(self).is_done()
                    &&& action matches OnboardAction::SaveAddonDir(d) && d@ == old(
                        self,
                    ).candidates_view()[i as int].path
                } else {
                    &&& final(self).is_addon_dir_set() == old(self).is_addon_dir_set()
                    &&& final(self).is_done() == old(self).is_done()
                    &&& action is Nothing
                },
                OnboardEvent::DonePressed => if old(self).is_addon_dir_set() {
                    &&& final(self).is_addon_dir_set()
                    &&& final(self).is_done()
                    &&& action is FinishOnboarding
                } else {
                    &&& !final(self).is_addon_dir_set()
                    &&& final(self).is_done() == old(self).is_done()
                    &&& action is Nothing
                },
            },
    {
        match event {
            OnboardEvent::DialogClosed(Some(p)) => {
                self.addon_dir_set = true;
                OnboardAction::SaveAddonDir(p)
            },
            OnboardEvent::DialogClosed(None) => {
                self.addon_dir_set = false;
                OnboardAction::Nothing
            },
            OnboardEvent::CandidateChosen(i) => {
                if i < self.candidates.len() {
                    let p = self.candidates[i].path.clone();
                    self.addon_dir_set = true;
                    OnboardAction::SaveAddonDir(p)
                } else {
                    OnboardAction::Nothing
                }
            },
            OnboardEvent::DonePressed => {
                if self.addon_dir_set {
                    self.setup_done = true;
                    OnboardAction::FinishOnboarding
                } else {
                    OnboardAction::Nothing
                }
            },
        }
    }
}

} // verus!
