//! Event ids: made from a time, and written as sixteen bytes.
use vstd::prelude::*;

use crate::model::{Millis, Uuid};
use crate::number::{decimal, decimal_nat};
use crate::text::cat3;

verus! {

/// Whether `bits` is a version 7 uuid that carries the time `millis`: the low
/// 48 bits of it come first, and the version and the variant have their places.
pub open spec fn carries(bits: u128, millis: int) -> bool {
    &&& bits as int / 0x1_0000_0000_0000_0000_0000int == millis % 0x1_0000_0000_0000int
    &&& (bits as int / 0x1000_0000_0000_0000_0000int) % 16 == 7
    &&& (bits as int / 0x4000_0000_0000_0000int) % 4 == 2
}

/// What `secs` and `nanos` come to in milliseconds, in 64 bits.
pub open spec fn saturated_millis(secs: u64, nanos: u32) -> int {
    let whole = if secs * 1000 > u64::MAX {
        u64::MAX as int
    } else {
        secs * 1000
    };
    let all = whole + nanos as int / 1_000_000;
    if all > u64::MAX {
        u64::MAX as int
    } else {
        all
    }
}

/// [`uuid::Uuid::new_v7`] on [`uuid::Timestamp::from_unix`] without a counter:
/// a version 7 uuid for this time, as a big-endian number. The bits that carry
/// neither time, version nor variant are random, and nothing is claimed of
/// them.
#[verifier::external_body]
fn new_v7(secs: u64, nanos: u32) -> (r: u128)
    ensures
        carries(r, saturated_millis(secs, nanos)),
{
    uuid::Uuid::new_v7(uuid::Timestamp::from_unix(uuid::NoContext, secs, nanos)).as_u128()
}

/// The time that an id made for `at` carries. A time before the epoch has no
/// place in an id: such an id carries the latest time there is.
pub open spec fn carried_millis(at: Millis) -> int {
    if at >= 0 {
        at as int
    } else {
        u64::MAX as int
    }
}

/// A UUIDv7 whose embedded timestamp is `at`, so ordering by id is ordering by
/// time even for events given an explicit timestamp.
pub fn uuid_at(at: Millis) -> (r: Uuid)
    ensures
        carries(r.bits, carried_millis(at)),
{
    if at >= 0 {
        let secs: u64 = (at / 1000) as u64;
        let nanos: u32 = (at % 1000) as u32 * 1_000_000;
        assert(nanos as int / 1_000_000 == at % 1000);
        assert(saturated_millis(secs, nanos) == at);
        Uuid { bits: new_v7(secs, nanos) }
    } else {
        // Whole seconds round down, and a negative count wraps around to the
        // top of the range.
        let shifted: u64 = (at as i128 + 9_223_372_036_854_776_000) as u64;
        let secs: u64 = shifted / 1000 + 18_437_520_701_672_696_840;
        let nanos: u32 = (shifted % 1000) as u32 * 1_000_000;
        Uuid { bits: new_v7(secs, nanos) }
    }
}

/// Ids made for a later millisecond compare as later.
pub proof fn ids_sort_by_time(a: Uuid, b: Uuid, earlier: Millis, later: Millis)
    requires
        carries(a.bits, carried_millis(earlier)),
        carries(b.bits, carried_millis(later)),
        0 <= earlier < later < 0x1_0000_0000_0000,
    ensures
        a.bits < b.bits,
{
    let k = 0x1_0000_0000_0000_0000_0000int;
    if a.bits >= b.bits {
        assert(a.bits as int / k >= b.bits as int / k);
    }
}

// ---------------------------------------------------------------------------
// bytes
// ---------------------------------------------------------------------------

/// The number that bytes spell, most significant first.
pub open spec fn spelled(bytes: Seq<u8>) -> int
    decreases bytes.len(),
{
    if bytes.len() == 0 {
        0
    } else {
        spelled(bytes.drop_last()) * 256 + bytes.last()
    }
}

spec fn capacity(n: nat) -> int
    decreases n,
{
    if n == 0 {
        1
    } else {
        capacity((n - 1) as nat) * 256
    }
}

proof fn lemma_capacity(n: nat)
    requires
        n <= 15,
    ensures
        0 < capacity(n) <= 0x1_0000_0000_0000_0000_0000_0000_0000_00int,
{
    reveal_with_fuel(capacity, 16);
}

/// Read an id back from its column. A column of another length is an error,
/// which says so.
pub fn uuid_from_row(bytes: &Vec<u8>) -> (r: Result<Uuid, String>)
    ensures
        match r {
            Ok(id) => bytes.len() == 16 && id.bits == spelled(bytes@),
            Err(e) => bytes.len() != 16 && e@ == "uuid column was "@ + decimal_nat(
                bytes@.len(),
            ) + " bytes, expected 16"@,
        },
{
    if bytes.len() != 16 {
        let count = decimal(bytes.len() as u64);
        return Err(cat3("uuid column was ", count.as_str(), " bytes, expected 16"));
    }
    let mut bits: u128 = 0;
    let mut i: usize = 0;
    while i < 16
        invariant
            i <= 16,
            bytes.len() == 16,
            bits == spelled(bytes@.take(i as int)),
            bits < capacity(i as nat),
        decreases 16 - i,
    {
        proof {
            lemma_capacity(i as nat);
            assert(bytes@.take(i + 1).drop_last() == bytes@.take(i as int));
            assert(bytes@.take(i + 1).last() == bytes@[i as int]);
        }
        bits = bits * 256 + bytes[i] as u128;
        i += 1;
    }
    assert(bytes@.take(16) == bytes@);
    Ok(Uuid { bits })
}

fn low_bytes(bits: u128, count: usize) -> (r: Vec<u8>)
    requires
        bits < capacity(count as nat),
    ensures
        r.len() == count,
        spelled(r@) == bits,
    decreases count,
{
    if count == 0 {
        return Vec::new();
    }
    let mut out = low_bytes(bits / 256, count - 1);
    let ghost before = out@;
    out.push((bits % 256) as u8);
    assert(out@.drop_last() == before);
    out
}

/// The sixteen bytes of an id.
pub fn uuid_to_row(id: Uuid) -> (r: Vec<u8>)
    ensures
        r.len() == 16,
        spelled(r@) == id.bits,
{
    proof {
        reveal_with_fuel(capacity, 17);
    }
    low_bytes(id.bits, 16)
}

/// A row holds one id only: what is read from it is what was written.
pub proof fn a_row_holds_one_id(written: Uuid, row: Seq<u8>, read: Uuid)
    requires
        spelled(row) == written.bits,
        read.bits == spelled(row),
    ensures
        read == written,
{
}

/// Bytes spell a number with the most significant first, so that rows sort as
/// their ids do, and no two rows spell the same id.
pub proof fn rows_spell_their_ids(a: Seq<u8>, b: Seq<u8>)
    requires
        a.len() == b.len(),
    ensures
        spelled(a) == spelled(b) ==> a == b,
        a.len() > 0 && a.drop_last() == b.drop_last() && a.last() < b.last() ==> spelled(a)
            < spelled(b),
        a.len() > 0 && spelled(a.drop_last()) < spelled(b.drop_last()) ==> spelled(a) < spelled(b),
        a.len() > 0 ==> spelled(a) == spelled(a.drop_last()) * 256 + a.last(),
    decreases a.len(),
{
    if a.len() == 0 {
        assert(a =~= b);
    } else {
        rows_spell_their_ids(a.drop_last(), b.drop_last());
        if spelled(a) == spelled(b) {
            assert(a.last() == b.last());
            assert(a.drop_last() == b.drop_last());
            assert(a =~= a.drop_last().push(a.last()));
            assert(b =~= b.drop_last().push(b.last()));
        }
    }
}

/// An id carries its time in the first 48 bits, and says in its version and
/// variant that it does.
pub proof fn an_id_carries_its_time(id: Uuid, at: Millis, other: Millis)
    requires
        0 <= at < 0x1_0000_0000_0000,
        0 <= other < 0x1_0000_0000_0000,
        carries(id.bits, carried_millis(at)),
    ensures
        id.bits as int / 0x1_0000_0000_0000_0000_0000int == at,
        carries(id.bits, carried_millis(other)) ==> other == at,
{
}

} // verus!
