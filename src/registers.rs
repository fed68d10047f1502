use vstd::prelude::*;

use crate::offsets::{ByteRange, OffsetTable};

verus! {

/// A register write waiting for the cyclic loop: the bytes to put at
/// `range` of the exchange buffer.
#[derive(Clone, Debug)]
pub struct PendingWrite {
    pub range: ByteRange,
    pub value: Vec<u8>,
}

/// The writes produced for an array register, and whether some values were
/// left out because their count differs from the register's.
#[derive(Clone, Debug)]
pub struct WriteBatch {
    pub writes: Vec<PendingWrite>,
    pub truncated: bool,
}

/// Why a register write was refused.
#[derive(Clone, Copy, Debug, PartialEq, Eq, Structural)]
pub enum RegisterError {
    /// Unknown device, unknown entry name, or an index past its records.
    UnknownRegister,
    /// The value's length differs from the register's byte length.
    LengthMismatch,
}

/// A write fits a buffer of `len` bytes and carries exactly as many bytes as
/// its range covers.
pub open spec fn write_applies(len: nat, w: PendingWrite) -> bool {
    &&& w.range.start <= w.range.end <= len
    &&& w.value@.len() == w.range.end - w.range.start
}

/// `buf` with `w` applied; a write that does not fit leaves it unchanged.
pub open spec fn apply_write(buf: Seq<u8>, w: PendingWrite) -> Seq<u8> {
    if write_applies(buf.len(), w) {
        buf.take(w.range.start as int) + w.value@ + buf.skip(w.range.end as int)
    } else {
        buf
    }
}

/// `buf` with the writes of `ws` applied in order.
pub open spec fn apply_writes(buf: Seq<u8>, ws: Seq<PendingWrite>) -> Seq<u8>
    decreases ws.len(),
{
    if ws.len() == 0 {
        buf
    } else {
        apply_write(apply_writes(buf, ws.drop_last()), ws.last())
    }
}

pub proof fn lemma_apply_writes_len(buf: Seq<u8>, ws: Seq<PendingWrite>)
    ensures
        apply_writes(buf, ws).len() == buf.len(),
    decreases ws.len(),
{
    if ws.len() > 0 {
        lemma_apply_writes_len(buf, ws.drop_last());
    }
}

/// A copy of `src[start..end]`.
pub fn copy_range(src: &[u8], start: usize, end: usize) -> (r: Vec<u8>)
    requires
        start <= end <= src@.len(),
    ensures
        r@ == src@.subrange(start as int, end as int),
{
    let mut out: Vec<u8> = Vec::new();
    let mut k: usize = start;
    while k < end
        invariant
            start <= k <= end <= src@.len(),
            out@ == src@.subrange(start as int, k as int),
        decreases end - k,
    {
        out.push(src[k]);
        proof {
            assert(out@ =~= src@.subrange(start as int, k + 1));
        }
        k += 1;
    }
    out
}

/// Overwrites `buf` with `w` where the write fits; leaves it as it was
/// otherwise.
pub fn apply_one(buf: &mut Vec<u8>, w: &PendingWrite)
    ensures
        final(buf)@ == apply_write(old(buf)@, *w),
{
    let start = w.range.start;
    let end = w.range.end;
    if !(start <= end && end <= buf.len() && w.value.len() == end - start) {
        return;
    }
    let ghost before = buf@;
    let mut i: usize = 0;
    while i < w.value.len()
        invariant
            start <= end <= before.len(),
            w.value@.len() == end - start,
            i <= w.value@.len(),
            buf@.len() == before.len(),
            forall|j: int| 0 <= j < start ==> buf@[j] == before[j],
            forall|j: int| end <= j < before.len() ==> buf@[j] == before[j],
            forall|j: int| start + i <= j < end ==> buf@[j] == before[j],
            forall|j: int| start <= j < start + i ==> buf@[j] == w.value@[j - start],
        decreases w.value@.len() - i,
    {
        buf[start + i] = w.value[i];
        i += 1;
    }
    assert(buf@ =~= apply_write(before, *w));
}

/// The first `n` values each have the length of the range they pair with.
pub open spec fn pairs_fit(values: Seq<Vec<u8>>, ranges: Seq<ByteRange>, n: int) -> bool {
    forall|i: int|
        0 <= i < n ==> #[trigger] values[i]@.len() == ranges[i].end - ranges[i].start
}

impl OffsetTable {
    /// The write that puts `value` at record `index` of entry `register`
    /// of device `slave_id`.
    pub fn set_pdo_register(&self, slave_id: u16, register: &String, index: usize, value: Vec<u8>) -> (r:
        Result<PendingWrite, RegisterError>)
        requires
            self.wf(),
        ensures
            ({
                match self.range_of(slave_id, register@, index as int) {
                    None => r == Err::<PendingWrite, RegisterError>(RegisterError::UnknownRegister),
                    Some(range) => if value@.len() == range.end - range.start {
                        r is Ok && r->Ok_0.range == range && r->Ok_0.value@ == value@
                    } else {
                        r == Err::<PendingWrite, RegisterError>(RegisterError::LengthMismatch)
                    },
                }
            }),
    {
        match self.get_reg_addr_range(slave_id, register, index) {
            None => Err(RegisterError::UnknownRegister),
            Some(range) => {
                proof {
                    crate::offsets::lemma_range_within_image(*self, slave_id, register@, index as int);
                }
                if value.len() == range.end - range.start {
                    Ok(PendingWrite { range, value })
                } else {
                    Err(RegisterError::LengthMismatch)
                }
            },
        }
    }

    /// The writes that put `values` at the records of entry `register` of
    /// device `slave_id`, paired by position; values past the record count,
    /// or records past the value count, are left out and flagged as
    /// truncated. Refused as a whole if a paired value has the wrong length.
    pub fn set_pdo_registers(&self, slave_id: u16, register: &String, values: Vec<Vec<u8>>) -> (r:
        Result<WriteBatch, RegisterError>)
        requires
            self.wf(),
        ensures
            ({
                match self.ranges_of(slave_id, register@) {
                    None => r == Err::<WriteBatch, RegisterError>(RegisterError::UnknownRegister),
                    Some(ranges) => {
                        let n = if values@.len() < ranges.len() {
                            values@.len() as int
                        } else {
                            ranges.len() as int
                        };
                        if pairs_fit(values@, ranges, n) {
                            &&& r is Ok
                            &&& r->Ok_0.writes@.len() == n
                            &&& r->Ok_0.truncated == (values@.len() != ranges.len())
                            &&& forall|i: int|
                                0 <= i < n ==> #[trigger] r->Ok_0.writes@[i].range == ranges[i]
                                    && r->Ok_0.writes@[i].value@ == values@[i]@
                        } else {
                            r == Err::<WriteBatch, RegisterError>(RegisterError::LengthMismatch)
                        }
                    },
                }
            }),
    {
        let found = self.get_reg_addr_ranges(slave_id, register);
        let ranges = match found {
            None => return Err(RegisterError::UnknownRegister),
            Some(ranges) => ranges,
        };
        assert(self.ranges_of(slave_id, register@) == Some(ranges@));
        proof {
            let rs = crate::offsets::matching(self.entries@, slave_id, register@);
            crate::offsets::lemma_matching_fits(
                self.entries@,
                slave_id,
                register@,
                self.image_len as nat,
            );
            assert forall|i: int| 0 <= i < ranges@.len() implies #[trigger] ranges@[i].start
                <= ranges@[i].end by {
                assert(crate::offsets::record_fits(rs[i], self.image_len as nat));
            }
        }
        let n: usize = if values.len() < ranges.len() {
            values.len()
        } else {
            ranges.len()
        };
        let mut writes: Vec<PendingWrite> = Vec::new();
        let mut k: usize = 0;
        while k < n
            invariant
                self.ranges_of(slave_id, register@) == Some(ranges@),
                n == if values@.len() < ranges@.len() {
                    values@.len()
                } else {
                    ranges@.len()
                },
                n <= values@.len(),
                n <= ranges@.len(),
                k <= n,
                writes@.len() == k,
                forall|i: int|
                    0 <= i < k ==> #[trigger] values@[i]@.len() == ranges@[i].end - ranges@[i].start,
                forall|i: int|
                    0 <= i < k ==> #[trigger] writes@[i].range == ranges@[i] && writes@[i].value@
                        == values@[i]@,
            decreases n - k,
        {
            let range = ranges[k];
            if range.start > range.end || values[k].len() != range.end - range.start {
                proof {
                    assert(values@[k as int]@.len() != ranges@[k as int].end
                        - ranges@[k as int].start);
                    assert(!pairs_fit(values@, ranges@, n as int));
                }
                return Err(RegisterError::LengthMismatch);
            }
            let value = copy_range(values[k].as_slice(), 0, values[k].len());
            proof {
                assert(value@ =~= values@[k as int]@);
            }
            writes.push(PendingWrite { range, value });
            k += 1;
        }
        assert(pairs_fit(values@, ranges@, n as int));
        Ok(WriteBatch { writes, truncated: values.len() != ranges.len() })
    }
}

} // verus!
