//! Link discovery, download planning and merge planning for a pipeline that
//! gathers remotely hosted Parquet files and merges a column projection of
//! them into one output file.
//!
//! Network and file system work is done by the caller; this crate holds the
//! decisions, each with a verified contract.

mod error;
mod fetch;
mod merge;
mod scrape;
mod text;

pub use text::{chars_of, contains, contains_within, matches_at, occurs_at};
pub use scrape::{
    anchor, anchors, ends_in_href, href_marker, hrefs, hrefs_from, is_wanted, lemma_anchors_discovered,
    lemma_pattern_narrows, quote_free, parquet_links, parquet_marker, pattern_view, plain_link,
    quote_len, scrape_links_to_parquet_files, texts,
};
pub use error::PipelineError;
pub use fetch::{
    action_for, after_run, filename_of, filename_of_link, is_planned, last_slash,
    lemma_no_slash_no_filename, lemma_second_run_fetches_nothing, name_set, plan_download,
    plan_downloads, stored_names, DownloadAction, DownloadTask,
};
pub use merge::{
    column_projection, column_views, find_missing_column, first_mismatch, is_merge_of,
    lemma_merge_mismatch, lemma_merge_rows,
    merge_outcome, mismatch_from, missing_column, missing_from, plan_merge, projection_spec,
    total_rows, ColumnType, FileSchema, MergeShape, ProjectedColumn, OUTPUT_FILE,
};
