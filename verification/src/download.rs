//! Downloader configuration and the orchestration decisions: which
//! segments to fetch, how to batch several downloads, how a set of task
//! results collapses to one overall outcome, and which output path a
//! download writes to.

use vstd::prelude::*;
use crate::error::DownloadError;
use crate::naming::candidate_of;
use crate::naming::filename_for_url;
use crate::naming::first_free_at;
use crate::naming::join_path;
use crate::naming::joined_path;
use crate::naming::name_taken;
use crate::naming::resolve_name;
use crate::naming::url_filename;
use crate::plan::Segment;
use crate::plan::plan;
use crate::plan::plan_matches;

verus! {

/// Configuration of the downloader: where output files go and how many
/// connections a parallel transfer may use. The connection count is
/// clamped to at least 1 on construction.
pub struct Downloader {
    pub output_dir: String,
    pub conn_count: usize,
}

impl Downloader {
    /// A downloader writing into `output_dir` with `conn_count`
    /// connections; a count of 0 is raised to 1.
    pub fn new(output_dir: &str, conn_count: usize) -> (d: Self)
        ensures
            d.output_dir@ == output_dir@,
            d.conn_count as int == if conn_count > 0 {
                conn_count as int
            } else {
                1
            },
            d.conn_count >= 1,
    {
        let conn_count = if conn_count > 0 {
            conn_count
        } else {
            1
        };
        Downloader { output_dir: output_dir.to_owned(), conn_count }
    }

    /// The segments a parallel transfer of `content_length` bytes uses
    /// under this configuration.
    pub fn plan_segments(&self, content_length: u64) -> (segs: Vec<Segment>)
        requires
            content_length > 0,
        ensures
            plan_matches(segs@, content_length, self.conn_count),
    {
        plan(content_length, self.conn_count)
    }

    /// Resolves the output path for `url` against the names already
    /// present in the output directory: the first non-colliding candidate
    /// name, joined to the directory. None only in the degenerate case
    /// that every candidate tried — one more than there are existing
    /// names — is taken.
    pub fn resolve_output(&self, existing: &Vec<String>, url: &str) -> (r: Option<String>)
        ensures
            match r {
                Option::Some(p) => exists|k: nat|
                    k <= existing@.len() && #[trigger] first_free_at(
                        existing@,
                        url_filename(url@),
                        k,
                    ) && p@ == joined_path(
                        self.output_dir@,
                        candidate_of(url_filename(url@), k),
                    ),
                Option::None => forall|k: nat|
                    k <= existing@.len() ==> name_taken(
                        existing@,
                        #[trigger] candidate_of(url_filename(url@), k),
                    ),
            },
    {
        let filename = filename_for_url(url);
        match resolve_name(existing, filename.as_str()) {
            Option::Some(name) => Option::Some(
                join_path(self.output_dir.as_str(), name.as_str()),
            ),
            Option::None => Option::None,
        }
    }
}

/// Splits `total` items into contiguous batches of `batch_size`: every
/// batch but the last is full, the last holds the remainder, and the
/// batches cover `0..total` in order without gap or overlap.
pub fn batch_bounds(total: usize, batch_size: usize) -> (r: Vec<(usize, usize)>)
    requires
        batch_size >= 1,
    ensures
        total == 0 ==> r@.len() == 0,
        total > 0 ==> r@.len() >= 1 && r@[0].0 == 0 && r@[r@.len() - 1].1 == total,
        forall|i: int|
            0 <= i < r@.len() ==> (#[trigger] r@[i]).0 < r@[i].1 <= total && r@[i].1 - r@[i].0
                <= batch_size,
        forall|i: int|
            0 <= i < r@.len() - 1 ==> (#[trigger] r@[i]).1 == r@[i + 1].0 && r@[i].1 - r@[i].0
                == batch_size,
{
    let mut r: Vec<(usize, usize)> = Vec::new();
    let mut start: usize = 0;
    while start < total
        invariant
            batch_size >= 1,
            0 <= start <= total,
            r@.len() == 0 <==> start == 0,
            start > 0 ==> r@[0].0 == 0 && r@[r@.len() - 1].1 == start,
            forall|i: int|
                0 <= i < r@.len() ==> (#[trigger] r@[i]).0 < r@[i].1 <= total && r@[i].1 - r@[i].0
                    <= batch_size,
            forall|i: int|
                0 <= i < r@.len() - 1 ==> (#[trigger] r@[i]).1 == r@[i + 1].0 && r@[i].1 - r@[
                    i].0 == batch_size,
            forall|i: int|
                0 <= i < r@.len() - 1 ==> (#[trigger] r@[i]).1 < total,
            start > 0 ==> r@[r@.len() - 1].1 - r@[r@.len() - 1].0 == batch_size || r@[r@.len()
                - 1].1 == total,
        decreases total - start,
    {
        let end = if batch_size <= total - start {
            start + batch_size
        } else {
            total
        };
        r.push((start, end));
        start = end;
    }
    r
}

/// Collapses the outcomes of concurrently run units of work into one
/// overall outcome: all values in order when every unit succeeded, and
/// otherwise the error of the first unit that failed.
pub fn collect_results<T>(results: Vec<Result<T, DownloadError>>) -> (r: Result<
    Vec<T>,
    DownloadError,
>)
    ensures
        match r {
            Result::Ok(vs) => vs@.len() == results@.len() && forall|i: int|
                0 <= i < results@.len() ==> ((#[trigger] results@[i]) matches Result::Ok(v)
                    && vs@[i] == v),
            Result::Err(e) => exists|i: int|
                0 <= i < results@.len() && (#[trigger] results@[i]) == Result::<
                    T,
                    DownloadError,
                >::Err(e) && forall|j: int| 0 <= j < i ==> (#[trigger] results@[j]) is Ok,
        },
{
    let ghost orig = results@;
    proof {
        assert(orig == results@);
    }
    let mut rest = results;
    let mut out: Vec<T> = Vec::new();
    #[verifier::loop_isolation(false)]
    while rest.len() > 0
        invariant
            out@.len() + rest@.len() == orig.len(),
            rest@ == orig.subrange(out@.len() as int, orig.len() as int),
            forall|i: int|
                0 <= i < out@.len() ==> ((#[trigger] orig[i]) matches Result::Ok(v) && out@[i]
                    == v),
        decreases rest@.len(),
    {
        let ghost done = out@.len() as int;
        let x = rest.remove(0);
        proof {
            assert(x == orig[done]);
            assert(rest@ =~= orig.subrange(done + 1, orig.len() as int));
        }
        match x {
            Result::Ok(v) => {
                out.push(v);
            },
            Result::Err(e) => {
                proof {
                    assert(orig[done] == Result::<T, DownloadError>::Err(e));
                    assert(forall|j: int| 0 <= j < done ==> (#[trigger] orig[j]) is Ok);
                    assert(results@[done] == Result::<T, DownloadError>::Err(e));
                    assert(forall|j: int| 0 <= j < done ==> (#[trigger] results@[j]) is Ok);
                }
                return Result::Err(e);
            },
        }
    }
    Result::Ok(out)
}

} // verus!
