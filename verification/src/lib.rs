//! Detection of the folders where Elder Scrolls Online looks for AddOns.
//!
//! The library decides which folders to look at, reads Steam's library
//! list, judges how complete each folder chain is, and ranks what it
//! found. It asks its questions about the file system through `fs`, and the
//! caller answers them.

pub mod asks;
pub mod detect;
pub mod found;
pub mod fs;
pub mod onboard;
pub mod paths;
pub mod pathsyntax;
pub mod rank;
pub mod types;
pub mod vdf;

pub use detect::{
    best_default, classify, collect, crossover_bottles, detect_candidates, linux_steam_roots,
    push_candidate, steam_libraries, Probe,
};
pub use fs::{FsAnswers, FsQuery, QueryKind};
pub use onboard::{candidate_button_label, status_icon, Onboard, OnboardAction, OnboardEvent};
pub use paths::{eso_under_documents, platform_default_path, steam_proton_addons, wine_user_dirs};
pub use pathsyntax::{path_join, path_parent, same_path_exec, PathStyle};
pub use rank::rank_and_dedupe;
pub use types::{source_priority, AddonPathCandidate, AddonPathSource, AddonPathStatus, Platform};
pub use vdf::parse_library_paths;
