//! Mergers that stitch several byte sources into one output, with per-source
//! trimming, inter-source padding and trailing-newline normalization.
//!
//! The main entities of this crate are [`RsMerger`], which merges in-memory
//! byte sources, and [`FileMerger`], the configuration builder for merging
//! file contents through an I/O front end. Both are builders: the
//! configuration methods set at most one head skip, one tail skip, one
//! padding rule and one newline style, and a merge call applies them to
//! every source in order.
//!
//! The merged output is specified exactly: every source contributes its
//! before-padding, the kept byte range that the configured skips resolve to,
//! a forced newline where configured and originally absent, and its
//! after-padding, in that order ([`source_output`]); the merge appends the
//! concatenation of these contributions to the output ([`merged_output`]).
//! No modification is done to the given sources.

mod error;
mod laws;
mod merge;
mod pad;
mod resolve;
mod scan;

pub use error::ErrorKind;
pub use laws::{
    concat_all, lemma_custom_padding_placement, lemma_forced_newline_applied,
    lemma_head_bytes_once, lemma_plain_merge_concats, lemma_plain_merge_single,
    lemma_plain_source_output, lemma_single_source_custom_padding, lemma_single_source_start_role,
    lemma_tail_bytes_exceeding_length, lemma_tail_lines_newline_agnostic,
};
pub use merge::{
    forced_newline_bytes, merge_ok, merged_output, merged_prefix, newline_bytes, part_pos_of,
    seq_views, source_output, source_output_bytes, FileMerger, Newline, RsMerger, CR,
};
pub use pad::{pad_after_bytes, pad_before_bytes, Pad};
pub use resolve::{
    ends_with_newline, head_lines_offset, head_offset, leading_repeat_len, resolve_head,
    resolve_tail, tail_lines_offset, tail_offset, trailing_repeat_len, PartPos, Skip,
};
pub use scan::{
    byte_count, count_byte, find_first, find_last, first_match_pos, has_match,
    has_trailing_newline, is_first_match, is_last_match, is_nth_byte, match_at, matches_at,
    nth_byte_occurrence, nth_byte_pos, NL,
};
