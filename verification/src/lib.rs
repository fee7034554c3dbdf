//! Verified core of a parallel file downloader.
//!
//! The library decides how a remote resource is transferred: it interprets
//! the probe response, partitions a known content length into byte-range
//! segments, models the positional writes that assemble the output file,
//! and derives a collision-free output name. All I/O is left to the caller.

use vstd::prelude::*;

mod download;
mod error;
mod naming;
mod plan;
mod probe;
mod transfer;

pub use download::Downloader;
pub use download::batch_bounds;
pub use download::collect_results;
pub use error::DownloadError;
pub use naming::candidate_name;
pub use naming::candidate_of;
pub use naming::dec_digit;
pub use naming::dec_of;
pub use naming::ext_of;
pub use naming::filename_for_url;
pub use naming::filename_from_path;
pub use naming::filename_of;
pub use naming::first_free_at;
pub use naming::join_path;
pub use naming::joined_path;
pub use naming::last_index_of;
pub use naming::name_taken;
pub use naming::numbered_name;
pub use naming::resolve_name;
pub use naming::split_stem_ext;
pub use naming::stem_of;
pub use naming::suffix_after_last;
pub use naming::u64_to_dec;
pub use naming::url_filename;
pub use naming::url_path_of;
pub use plan::Segment;
pub use plan::chunk_size;
pub use plan::effective_count;
pub use plan::lemma_count_clamped;
pub use plan::lemma_last_segment_end;
pub use plan::lemma_plan_covers;
pub use plan::lemma_plan_partitions;
pub use plan::lemma_seg_in_range;
pub use plan::plan;
pub use plan::plan_matches;
pub use plan::seg_end;
pub use plan::seg_start;
pub use probe::ServerCapability;
pub use probe::all_digits;
pub use probe::capability_from_headers;
pub use probe::capability_of;
pub use probe::choose_strategy;
pub use probe::content_length_of;
pub use probe::dec_val;
pub use probe::digit_val;
pub use probe::interpret_accept_ranges;
pub use probe::is_digit;
pub use probe::is_none_token;
pub use probe::parse_content_length;
pub use probe::range_header_value;
pub use probe::range_value_of;
pub use transfer::SegmentCursor;
pub use transfer::apply_chunk;
pub use transfer::apply_segments;
pub use transfer::append_chunk;
pub use transfer::assemble_in_order;
pub use transfer::covers;
pub use transfer::lemma_parallel_roundtrip;
pub use transfer::order_hits;
pub use transfer::take_range;
pub use transfer::write_at;
pub use transfer::write_segment;

verus! {

/// The transfer strategy chosen after probing the server.
#[derive(Clone, Copy, Debug, PartialEq, Eq, Structural)]
pub enum Strategy {
    /// Several byte-range requests written at fixed offsets of one file.
    Parallel,
    /// One full-body request streamed into a fresh file.
    Sequential,
}

} // verus!
