//! The thin command layer: dispatch helpers composing the store for
//! caller-facing operations, and the numeric side of the human-readable
//! usage figure. Rendering the figure as a string is presentation and
//! happens outside this crate.

use vstd::prelude::*;
use vstd::arithmetic::div_mod::lemma_div_is_ordered;
use vstd::arithmetic::div_mod::lemma_div_is_ordered_by_denominator;
use crate::store::Database;
use crate::store::files_renamed;
use crate::store::folders_renamed;
use crate::store::has_file_id;
use crate::store::has_folder_id;

verus! {

pub const BYTES_PER_KIB: u64 = 1024;

pub const BYTES_PER_MIB: u64 = 1024 * 1024;

pub const BYTES_PER_GIB: u64 = 1024 * 1024 * 1024;

/// The unit a usage figure is quoted in.
#[derive(Clone, Copy, Debug, PartialEq, Eq, Structural)]
pub enum SizeUnit {
    Kilobytes,
    Megabytes,
    Gigabytes,
}

/// A usage figure to two decimals: `whole` units plus `hundredths`
/// hundredths of a unit.
#[derive(Clone, Copy, Debug, PartialEq, Eq, Structural)]
pub struct UsageFigure {
    pub whole: u64,
    pub hundredths: u64,
    pub unit: SizeUnit,
}

/// How many bytes one of `u` is.
pub open spec fn spec_unit_bytes(u: SizeUnit) -> int {
    match u {
        SizeUnit::Kilobytes => BYTES_PER_KIB as int,
        SizeUnit::Megabytes => BYTES_PER_MIB as int,
        SizeUnit::Gigabytes => BYTES_PER_GIB as int,
    }
}

/// The unit a byte count is quoted in: the largest unit it reaches, and
/// kilobytes below one megabyte.
pub open spec fn spec_unit_for(bytes: int) -> SizeUnit {
    if bytes >= BYTES_PER_GIB {
        SizeUnit::Gigabytes
    } else if bytes >= BYTES_PER_MIB {
        SizeUnit::Megabytes
    } else {
        SizeUnit::Kilobytes
    }
}

/// `bytes` in hundredths of `unit`, rounded half up.
pub open spec fn spec_scaled_hundredths(bytes: int, unit: int) -> int {
    (200 * bytes + unit) / (2 * unit)
}

/// Renames an entity of either kind; reports whether it exists.
pub fn rename_item(db: &mut Database, id: &String, is_folder: bool, new_name: &String) -> (found:
    bool)
    requires
        old(db).wf(),
    ensures
        final(db).wf(),
        is_folder ==> found == has_folder_id(old(db).folders(), id@) && final(db).folders()
            == folders_renamed(old(db).folders(), id@, *new_name) && final(db).files() == old(
            db,
        ).files(),
        !is_folder ==> found == has_file_id(old(db).files(), id@) && final(db).files()
            == files_renamed(old(db).files(), id@, *new_name) && final(db).folders() == old(
            db,
        ).folders(),
{
    if is_folder {
        db.rename_folder(id, new_name)
    } else {
        db.rename_file(id, new_name)
    }
}

/// Quotes a byte count in the unit it reaches, to two decimals, rounded
/// half up. The arithmetic is exact integer arithmetic; a figure such as
/// 512 bytes comes out as 0 whole kilobytes and 50 hundredths.
pub fn usage_figure(bytes: u64) -> (r: UsageFigure)
    ensures
        r.unit == spec_unit_for(bytes as int),
        r.whole == spec_scaled_hundredths(bytes as int, spec_unit_bytes(r.unit)) / 100,
        r.hundredths == spec_scaled_hundredths(bytes as int, spec_unit_bytes(r.unit)) % 100,
{
    let unit = if bytes >= BYTES_PER_GIB {
        SizeUnit::Gigabytes
    } else if bytes >= BYTES_PER_MIB {
        SizeUnit::Megabytes
    } else {
        SizeUnit::Kilobytes
    };
    let unit_bytes: u64 = match unit {
        SizeUnit::Kilobytes => BYTES_PER_KIB,
        SizeUnit::Megabytes => BYTES_PER_MIB,
        SizeUnit::Gigabytes => BYTES_PER_GIB,
    };
    let wide: u128 = 200 * (bytes as u128) + (unit_bytes as u128);
    let scaled: u128 = wide / (2 * (unit_bytes as u128));
    proof {
        let w = 200 * (bytes as int) + unit_bytes;
        lemma_div_is_ordered_by_denominator(w, 2 * (BYTES_PER_KIB as int), 2 * (unit_bytes as int));
        lemma_div_is_ordered(
            w,
            200 * (u64::MAX as int) + BYTES_PER_GIB,
            2 * (BYTES_PER_KIB as int),
        );
        assert((200 * (u64::MAX as int) + BYTES_PER_GIB) / (2 * (BYTES_PER_KIB as int))
            < u64::MAX as int);
    }
    let whole: u64 = (scaled / 100) as u64;
    let hundredths: u64 = (scaled % 100) as u64;
    UsageFigure { whole, hundredths, unit }
}

} // verus!
