mod backup;
mod config;
mod errors;
mod expand;
mod locate;
mod paths;
mod scope;
mod strutil;
mod sys;

pub use backup::{
    count_true, find_reserved, has_game, is_first_game, lemma_bulk_accounting, resolve_vars,
    reserved_name, sys_scope, BulkSummary, GameBackup, GamePlan, SavePlan,
};
pub use config::{
    clone_strings, default_enabled, game_views, Config, Game, GameView, SaveLocation,
    SaveLocationView, Variable,
};
pub use errors::Error;
pub use expand::{
    contains_ref, expand_pass, expand_str, has_ref, lemma_expand_idempotent,
    lemma_plain_scope_never_circular, plain_value, spec_expand, spec_expand_from, spec_pass,
    Expansion, MAX_PASSES,
};
pub use locate::find_config_file;
pub use paths::{
    anonymize, components, has_drive_prefix, is_absolute, join_path, join_rel, join_under,
    lemma_anonymize_stable, opt_view, plain_component, spec_anonymize, under_home,
};
pub use scope::{entries_map, Scope};
