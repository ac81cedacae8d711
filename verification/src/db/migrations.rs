//! Schema migrations, applied on boot by comparing the version that the
//! database is at with the newest that this build knows.
use vstd::prelude::*;

use crate::number::{decimal_int, decimal_signed};
use crate::text::cat;

verus! {

/// The versions that a database still has to be taken through, in order. A
/// version below zero is none that was ever written, and nothing is done about
/// it.
pub open spec fn pending(current: i64, target: i64) -> Seq<i64> {
    if 0 <= current <= target {
        Seq::new((target - current) as nat, |i: int| (current + 1 + i) as i64)
    } else {
        seq![]
    }
}

/// What is said of a database that a newer build has written.
pub open spec fn too_new(current: i64, target: i64) -> Seq<char> {
    "database is at schema version "@ + decimal_int(current as int)
        + ", but this build only knows "@ + decimal_int(target as int)
        + " -- it was written by a newer newbbs"@
}

/// Which migrations to apply to a database at version `current`, where the
/// newest known is `target`.
pub fn plan(current: i64, target: i64) -> (r: Result<Vec<i64>, String>)
    ensures
        match r {
            Ok(versions) => current <= target && versions@ == pending(current, target),
            Err(e) => current > target && e@ == too_new(current, target),
        },
{
    if current > target {
        let mut text = cat("database is at schema version ", decimal_signed(current).as_str());
        text = cat(text.as_str(), ", but this build only knows ");
        text = cat(text.as_str(), decimal_signed(target).as_str());
        text = cat(text.as_str(), " -- it was written by a newer newbbs");
        return Err(text);
    }
    let mut versions: Vec<i64> = Vec::new();
    if current >= 0 {
        let mut version: i64 = current;
        while version < target
            invariant
                0 <= current <= version <= target,
                versions@ == pending(current, target).take(version - current),
            decreases target - version,
        {
            version += 1;
            versions.push(version);
            assert(versions@ =~= pending(current, target).take(version - current));
        }
        assert(pending(current, target).take(version - current) =~= pending(current, target));
    }
    Ok(versions)
}

/// Every version above the current one, up to the newest, is applied once and
/// in order; a database that is up to date is left as it is.
pub proof fn every_missing_version_is_applied_once(current: i64, target: i64, v: i64)
    requires
        0 <= current,
    ensures
        pending(current, target).contains(v) <==> current < v <= target,
        forall|i: int, j: int|
            0 <= i < j < pending(current, target).len() ==> #[trigger] pending(current, target)[i]
                < #[trigger] pending(current, target)[j],
        pending(target, target).len() == 0,
{
    let all = pending(current, target);
    if current < v <= target {
        assert(all[v - current - 1] == v);
    }
}

} // verus!
