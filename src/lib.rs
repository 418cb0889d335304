//! History statistics over a repository and its submodules, gathered from
//! the output of the version-control tool, and a relay for streamed
//! model-service responses.

pub mod combine;
pub mod config;
pub mod git;
pub mod model;
pub mod order;
pub mod parse;
pub mod relay;
pub mod stats;
pub mod text;
pub mod validate;

pub use combine::{assemble_log, combine_samples, gather, sort_newest_first, SAMPLE_LIMIT};
pub use config::{
    get_config_dir, get_config_file_path, legacy_llm_choice, migrate_report_defaults, LegacyLlm,
    ProjectConfig, ReportDefaults, SubmoduleConfig,
};
pub use git::{
    authors_from_output, authors_from_text, count_args, count_commit_lines, count_commits,
    history_args, log_from_output, submodule_of_line, submodules_from_output, submodules_from_text,
    trim_text, version_from_output, LOG_LIMIT, MAIN_SAMPLE, SUBMODULE_SAMPLE,
};
pub use model::{FileChangeSummary, GitCommit, GitFile, GitStats, GitSubmodule};
pub use parse::{parse_git_log, FIELD_SEPARATOR};
pub use relay::{error_chunk, LineEvent, StreamChunk, StreamRelay};
pub use stats::{
    distinct_authors, file_change_ranking, files_changed, files_fit, summarize, sum_counts,
    RANKING_LIMIT,
};
pub use validate::{
    check_path, get_folder_name, validate_author, validate_authors, validate_date, validate_filters, validate_path,
};
