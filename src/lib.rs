//! Loads flat key/value configuration files (dotenv, JSON, TOML), merges them
//! in order with last-write-wins precedence, and prepares a command to run
//! with the merged values as its environment.

mod cli;
mod config_map;
mod config;
mod error;
mod runner;

pub use cli::{Cli, Commands};
pub use config_map::{ConfigMap, keys_unique, pairs_to_map, pairs_view};
pub use config::{
    ConfigSource, FileContents, Format, config_from_pairs, detect_format, detected_format,
    dotenv_keys, format_for, format_from_parts, json_string_object, lemma_pairs_to_map_keys,
    load_config_file, load_spec, pair_keys, parse_config, parse_spec, path_extension,
    path_file_name, toml_string_table, unsupported_extension,
};
pub use error::{ConfixError, same_error};
pub use runner::{
    RunPlan, exit_code_of, first_failure, lemma_load_outcomes_agree, lemma_merge_concat_sources,
    lemma_merge_outcomes_agree, lemma_merged_concat, lemma_merged_last_wins,
    lemma_merged_single_and_twice, load_is_fixed, loads_prefix, maps_of, merge_configs, merge_of,
    merge_spec, merged, plan_command, spawn_failure, tool_exit_code, wait_failure,
};
