//! The arithmetic of chunked transfers: a source is cut into fixed-size
//! parts, the parts are sent with bounded parallelism, and a running byte
//! counter turns completions into a monotone percentage. The sending itself
//! is the remote gateway's business and happens outside this crate; what is
//! verified here is the plan (how many parts, how long each) and the
//! accounting (progress never runs backwards or past the whole).

#![verifier::loop_isolation(false)]

use vstd::prelude::*;
use vstd::arithmetic::div_mod::lemma_fundamental_div_mod;
use vstd::arithmetic::div_mod::lemma_div_is_ordered;
use vstd::arithmetic::div_mod::lemma_div_is_ordered_by_denominator;
use vstd::arithmetic::div_mod::lemma_div_multiples_vanish;
use vstd::arithmetic::div_mod::lemma_mod_division_less_than_divisor;
use crate::store::Database;
use crate::store::FileMetadata;
use crate::store::file_row;
use crate::store::has_file_id;
use crate::store::sum_sizes;

verus! {

/// The default part size: 512 KiB.
pub const DEFAULT_PART_SIZE: u64 = 512 * 1024;

/// Sources larger than this go through the big-blob registration variant:
/// 10 MiB.
pub const BIG_SOURCE_THRESHOLD: u64 = 10 * 1024 * 1024;

/// How a source of `total_size` bytes is cut into parts of `part_size`
/// bytes each (the last part carrying the remainder).
pub struct UploadPlan {
    pub total_size: u64,
    pub part_size: u64,
}

/// `done` bytes out of `total_size` have been acknowledged so far.
pub struct ProgressCounter {
    pub total_size: u64,
    pub done: u64,
}

/// The percentage that `done` out of `total` bytes amounts to, rounded
/// down.
pub open spec fn spec_percent(done: int, total: int) -> int {
    done * 100 / total
}

impl UploadPlan {
    /// Parts must not be empty.
    pub open spec fn wf(&self) -> bool {
        self.part_size > 0
    }

    /// The number of parts: the least count whose parts cover the source,
    /// that is the quotient rounded up.
    pub open spec fn spec_total_parts(&self) -> int {
        if self.total_size as int % self.part_size as int == 0 {
            self.total_size as int / self.part_size as int
        } else {
            self.total_size as int / self.part_size as int + 1
        }
    }

    /// The length of part `i`: full parts up to the last, which carries
    /// what is left.
    pub open spec fn spec_part_len(&self, i: int) -> int {
        if i + 1 < self.spec_total_parts() {
            self.part_size as int
        } else {
            self.total_size - (self.spec_total_parts() - 1) * self.part_size
        }
    }

    /// The bytes covered by the first `k` parts together.
    pub open spec fn spec_lens_sum(&self, k: int) -> int
        decreases k,
    {
        if k <= 0 {
            0
        } else {
            self.spec_lens_sum(k - 1) + self.spec_part_len(k - 1)
        }
    }

    /// Lays out a plan; refused when the part size is zero.
    pub fn new(total_size: u64, part_size: u64) -> (r: Option<UploadPlan>)
        ensures
            match r {
                Some(plan) => plan.wf() && plan.total_size == total_size && plan.part_size
                    == part_size,
                None => part_size == 0,
            },
    {
        if part_size == 0 {
            None
        } else {
            Some(UploadPlan { total_size, part_size })
        }
    }

    /// The number of part uploads the plan issues: the quotient of the
    /// source size by the part size, rounded up.
    pub fn total_parts(&self) -> (r: u64)
        requires
            self.wf(),
        ensures
            r == self.spec_total_parts(),
    {
        let q = self.total_size / self.part_size;
        let r = self.total_size % self.part_size;
        if r == 0 {
            q
        } else {
            proof {
                assert(self.part_size >= 2) by {
                    lemma_fundamental_div_mod(self.total_size as int, self.part_size as int);
                }
                lemma_div_is_ordered_by_denominator(self.total_size as int, 2, self.part_size as int);
                assert(self.total_size as int / 2 < u64::MAX);
            }
            q + 1
        }
    }

    /// Whether the source goes through the big-blob registration variant.
    pub fn is_big(&self) -> (r: bool)
        ensures
            r == (self.total_size > BIG_SOURCE_THRESHOLD),
    {
        self.total_size > BIG_SOURCE_THRESHOLD
    }

    /// The length of part `i`: the full part size everywhere but the last
    /// part, which carries the remainder of the source.
    pub fn part_len(&self, i: u64) -> (r: u64)
        requires
            self.wf(),
            i < self.spec_total_parts(),
        ensures
            r == self.spec_part_len(i as int),
    {
        let n = self.total_parts();
        let rem = self.total_size % self.part_size;
        proof {
            let s = self.total_size as int;
            let p = self.part_size as int;
            let q = s / p;
            lemma_fundamental_div_mod(s, p);
            assert((q - 1) * p == q * p - p) by (nonlinear_arith);
            assert(((q + 1) - 1) * p == q * p) by (nonlinear_arith);
        }
        if i + 1 < n {
            self.part_size
        } else {
            if rem == 0 {
                self.part_size
            } else {
                rem
            }
        }
    }

    /// Every part is non-empty and no longer than the part size.
    pub proof fn lemma_part_len_bounds(&self, i: int)
        requires
            self.wf(),
            0 <= i < self.spec_total_parts(),
        ensures
            0 < self.spec_part_len(i) <= self.part_size,
    {
        let s = self.total_size as int;
        let p = self.part_size as int;
        let q = s / p;
        lemma_fundamental_div_mod(s, p);
        lemma_mod_division_less_than_divisor(s, p);
        assert((q - 1) * p == q * p - p) by (nonlinear_arith);
        assert(((q + 1) - 1) * p == q * p) by (nonlinear_arith);
    }

    /// The first `k` parts cover exactly `k` full part sizes, and all the
    /// parts together cover the source exactly: nothing is lost and nothing
    /// is sent twice.
    pub proof fn lemma_parts_cover(&self, k: int)
        requires
            self.wf(),
            0 <= k <= self.spec_total_parts(),
        ensures
            self.spec_lens_sum(k) == if k < self.spec_total_parts() {
                k * self.part_size
            } else {
                self.total_size as int
            },
        decreases k,
    {
        let s = self.total_size as int;
        let p = self.part_size as int;
        let q = s / p;
        let n = self.spec_total_parts();
        lemma_fundamental_div_mod(s, p);
        lemma_mod_division_less_than_divisor(s, p);
        assert((q - 1) * p == q * p - p) by (nonlinear_arith);
        assert(((q + 1) - 1) * p == q * p) by (nonlinear_arith);
        if k > 0 {
            self.lemma_parts_cover(k - 1);
            assert((k - 1) * p + p == k * p) by (nonlinear_arith);
        }
    }
}

impl ProgressCounter {
    /// What has been acknowledged never exceeds the whole, and the whole is
    /// something rather than nothing.
    pub open spec fn wf(&self) -> bool {
        self.total_size > 0 && self.done <= self.total_size
    }

    /// A counter for a transfer of `total_size` bytes, nothing acknowledged
    /// yet.
    pub fn new(total_size: u64) -> (r: ProgressCounter)
        requires
            total_size > 0,
        ensures
            r.wf(),
            r.total_size == total_size,
            r.done == 0,
    {
        ProgressCounter { total_size, done: 0 }
    }

    /// Acknowledges `n` more bytes and reports the percentage reached. The
    /// counter is a running sum, so the order in which parts complete does
    /// not matter; it saturates at the whole rather than running past it.
    pub fn record(&mut self, n: u64) -> (r: u64)
        requires
            old(self).wf(),
        ensures
            final(self).wf(),
            final(self).total_size == old(self).total_size,
            final(self).done == if old(self).done + n <= old(self).total_size {
                old(self).done + n
            } else {
                old(self).total_size as int
            },
            r == spec_percent(final(self).done as int, final(self).total_size as int),
    {
        if n <= self.total_size - self.done {
            self.done = self.done + n;
        } else {
            self.done = self.total_size;
        }
        self.percent()
    }

    /// The percentage reached so far, rounded down; 100 exactly when the
    /// whole transfer has been acknowledged.
    pub fn percent(&self) -> (r: u64)
        requires
            self.wf(),
        ensures
            r == spec_percent(self.done as int, self.total_size as int),
            r <= 100,
            r == 100 <==> self.done == self.total_size,
    {
        proof {
            lemma_percent_le_100(self.total_size as int, self.done as int);
            lemma_percent_monotone(self.total_size as int, self.done as int, self.total_size as int);
            lemma_div_multiples_vanish(100, self.total_size as int);
            if self.done < self.total_size {
                assert(self.done as int * 100 <= (self.total_size as int - 1) * 100);
                lemma_div_is_ordered(
                    self.done as int * 100,
                    (self.total_size as int - 1) * 100,
                    self.total_size as int,
                );
                lemma_percent_less(self.total_size as int, self.done as int);
            }
        }
        let wide: u128 = (self.done as u128) * 100;
        let p: u128 = wide / (self.total_size as u128);
        p as u64
    }
}

/// More bytes acknowledged never means a smaller percentage: progress is
/// monotone whatever order the parts complete in.
pub proof fn lemma_percent_monotone(total: int, d1: int, d2: int)
    requires
        0 < total,
        0 <= d1 <= d2,
    ensures
        spec_percent(d1, total) <= spec_percent(d2, total),
{
    lemma_div_is_ordered(d1 * 100, d2 * 100, total);
}

/// The percentage never runs past 100.
pub proof fn lemma_percent_le_100(total: int, d: int)
    requires
        0 < total,
        0 <= d <= total,
    ensures
        spec_percent(d, total) <= 100,
{
    lemma_div_is_ordered(d * 100, total * 100, total);
    lemma_div_multiples_vanish(100, total);
}

/// Short of the whole, the percentage stays short of 100.
proof fn lemma_percent_less(total: int, d: int)
    requires
        0 < total,
        0 <= d < total,
    ensures
        spec_percent(d, total) < 100,
{
    lemma_div_is_ordered(d * 100, total * 100 - 100, total);
    assert((total * 100 - 100) / total == (total - 1) * 100 / total);
    lemma_fundamental_div_mod((total - 1) * 100, total);
    lemma_mod_division_less_than_divisor((total - 1) * 100, total);
    assert((total - 1) * 100 / total <= 99) by (nonlinear_arith)
        requires
            0 < total,
    ;
}

/// Stores the metadata row for a finished upload: every part was
/// acknowledged and the blob registered under `message_id`, so the file
/// becomes visible to listings with exactly the planned size. A refusal
/// takes a collision of the drawn 36-character id with a stored one, or a
/// byte total past `u64`; with neither the row is owed.
pub fn register_upload(
    db: &mut Database,
    plan: &UploadPlan,
    folder_id: Option<String>,
    name: &String,
    mime_type: &String,
    message_id: i32,
    now: i64,
) -> (r: Option<FileMetadata>)
    requires
        old(db).wf(),
    ensures
        final(db).wf(),
        final(db).folders() == old(db).folders(),
        match r {
            Some(row) => !has_file_id(old(db).files(), row.id@) && sum_sizes(old(db).files())
                + plan.total_size <= u64::MAX && row == file_row(
                row.id,
                folder_id,
                *name,
                plan.total_size,
                *mime_type,
                message_id,
                now,
            ) && final(db).files() == old(db).files().push(row),
            None => final(db).files() == old(db).files(),
        },
        r is None ==> (exists|i: int|
            0 <= i < old(db).files().len() && (#[trigger] old(db).files()[i].id)@.len() == 36)
            || sum_sizes(old(db).files()) + plan.total_size > u64::MAX,
{
    db.add_file(folder_id, name, plan.total_size, mime_type, message_id, now)
}

} // verus!
