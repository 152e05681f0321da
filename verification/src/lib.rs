//! Chaff: plants decoy analysis-environment artifacts (registry keys, named
//! mutexes, named pipes and ghost processes) and removes them again.
//!
//! This crate holds the decisions of that program: the artifact data model,
//! which artifacts a category applies and in what order, how the outcomes of
//! applying them are tallied, how registry paths and ghost file names are
//! formed, and the text the user interface shows.
pub mod apply;
pub mod ghost;
pub mod icon;
pub mod model;
pub mod plan;
pub mod registry;
pub mod session;
pub mod text;
pub mod update;
pub mod wide;

pub use apply::{
    lemma_action_matches_kind, lemma_apply_tally, lemma_failure_always_fits, lemma_tally_counts,
    Action, ApplyResult, Applying, Outcome,
};
pub use ghost::{ghost_file_name, lemma_ghost_file_name_idempotent};
pub use icon::{tray_icon_rgba, TRAY_ICON_SIDE};
pub use model::{Artifact, Category, Db, Kind};
pub use plan::{
    effective_limit, lemma_limit_bounds, lemma_removal_covers_selection,
    lemma_removal_order_distinct, registry_removal_order, select_artifacts,
};
pub use registry::{lemma_hive_names, root_and_subkey, Hive, HiveError};
pub use session::{
    apply_allowed, categories_to_apply, find_category, lemma_applied_process_count, remove_allowed,
    CatState, DEFAULT_PROCESSES_PER_CATEGORY, MAX_PROCESSES_PER_CATEGORY, MIN_PROCESSES_PER_CATEGORY,
};
pub use text::{
    activity_badge, apply_message, decimal_string, join, lemma_decimal_reads_back,
    lemma_joined_len, lemma_joined_prefix, lemma_joined_push, lemma_joined_single, log_line,
    processes_message, removed_message, stats_line, tray_tooltip, version_label,
};
pub use update::{
    artifacts_json, lemma_freshness, load_or_fetch, needs_fetch, CachedDb, LoadedDb,
    CACHE_MAX_AGE_SECS,
};
pub use wide::{lemma_utf16_round_trip, to_wide};
