use vstd::prelude::*;

use crate::offsets::{ByteRange, OffsetTable};
use crate::registers::{apply_one, apply_writes, copy_range, lemma_apply_writes_len, PendingWrite};

verus! {

/// The process data that the cyclic loop carries from one iteration to the
/// next: the exchange buffer it sends, and the snapshot that readers see.
#[derive(Debug)]
pub struct ProcessImage {
    pub image_len: usize,
    pub exchange: Vec<u8>,
    pub snapshot: Option<Vec<u8>>,
}

/// The bytes that a read of `range` sees in `snapshot`; nothing before the
/// first snapshot or for an unresolved register.
pub open spec fn read_spec(snapshot: Option<Seq<u8>>, range: Option<ByteRange>) -> Option<Seq<u8>> {
    match (snapshot, range) {
        (Some(s), Some(r)) => Some(s.subrange(r.start as int, r.end as int)),
        _ => None,
    }
}

/// The bytes that reads of every range of `ranges` see in `snapshot`.
pub open spec fn read_all_spec(snapshot: Option<Seq<u8>>, ranges: Option<Seq<ByteRange>>) -> Option<
    Seq<Seq<u8>>,
> {
    match (snapshot, ranges) {
        (Some(s), Some(rs)) => Some(
            rs.map_values(|r: ByteRange| s.subrange(r.start as int, r.end as int)),
        ),
        _ => None,
    }
}

pub open spec fn bytes_view(o: Option<Vec<u8>>) -> Option<Seq<u8>> {
    match o {
        Some(v) => Some(v@),
        None => None,
    }
}

impl ProcessImage {
    pub open spec fn snapshot_view(self) -> Option<Seq<u8>> {
        bytes_view(self.snapshot)
    }

    /// The exchange buffer and any snapshot are as long as the image.
    pub open spec fn wf(self) -> bool {
        &&& self.exchange@.len() == self.image_len
        &&& self.snapshot is Some ==> self.snapshot->Some_0@.len() == self.image_len
    }

    /// The image before the first cycle: a zeroed exchange buffer of
    /// `image_len` bytes and no snapshot.
    pub fn new(image_len: usize) -> (r: ProcessImage)
        ensures
            r.wf(),
            r.image_len == image_len,
            r.exchange@ == Seq::new(image_len as nat, |i: int| 0u8),
            r.snapshot is None,
    {
        let mut exchange: Vec<u8> = Vec::new();
        let mut k: usize = 0;
        while k < image_len
            invariant
                k <= image_len,
                exchange@ == Seq::new(k as nat, |i: int| 0u8),
            decreases image_len - k,
        {
            exchange.push(0);
            k += 1;
            proof {
                assert(exchange@ =~= Seq::new(k as nat, |i: int| 0u8));
            }
        }
        ProcessImage { image_len, exchange, snapshot: None }
    }

    /// Takes the frame just received as the new exchange buffer and publishes
    /// a copy of it as the snapshot that readers see.
    pub fn publish(&mut self, frame: &[u8])
        requires
            old(self).wf(),
            frame@.len() == old(self).image_len,
        ensures
            final(self).wf(),
            final(self).image_len == old(self).image_len,
            final(self).exchange@ == frame@,
            final(self).snapshot_view() == Some(frame@),
    {
        let len = frame.len();
        let exchange = copy_range(frame, 0, len);
        let snapshot = copy_range(frame, 0, len);
        proof {
            assert(exchange@ =~= frame@);
            assert(snapshot@ =~= frame@);
        }
        self.exchange = exchange;
        self.snapshot = Some(snapshot);
    }

    /// Applies the drained writes to the exchange buffer in the order given.
    /// The snapshot is left alone: readers see the writes only once the next
    /// frame is published.
    pub fn apply_writes(&mut self, writes: &Vec<PendingWrite>)
        requires
            old(self).wf(),
        ensures
            final(self).wf(),
            final(self).exchange@ == apply_writes(old(self).exchange@, writes@),
            final(self).image_len == old(self).image_len,
            final(self).snapshot == old(self).snapshot,
    {
        let ghost start = self.exchange@;
        let mut k: usize = 0;
        while k < writes.len()
            invariant
                k <= writes@.len(),
                self.exchange@ == apply_writes(start, writes@.take(k as int)),
                self.image_len == old(self).image_len,
                self.snapshot == old(self).snapshot,
                start == old(self).exchange@,
                start.len() == self.image_len,
            decreases writes@.len() - k,
        {
            apply_one(&mut self.exchange, &writes[k]);
            proof {
                assert(writes@.take(k + 1).drop_last() =~= writes@.take(k as int));
            }
            k += 1;
        }
        proof {
            assert(writes@.take(writes@.len() as int) =~= writes@);
            lemma_apply_writes_len(start, writes@);
        }
    }

    /// The bytes of record `index` of entry `register` of device `slave_id`
    /// in the current snapshot; nothing before the first cycle or for an
    /// unresolved register.
    pub fn get_pdo_register(&self, table: &OffsetTable, slave_id: u16, register: &String, index: usize) -> (r:
        Option<Vec<u8>>)
        requires
            self.wf(),
            table.wf(),
            table.image_len == self.image_len,
        ensures
            bytes_view(r) == read_spec(
                self.snapshot_view(),
                table.range_of(slave_id, register@, index as int),
            ),
    {
        let range = table.get_reg_addr_range(slave_id, register, index);
        match (&self.snapshot, range) {
            (Some(data), Some(rg)) => {
                proof {
                    crate::offsets::lemma_range_within_image(*table, slave_id, register@, index as int);
                }
                Some(copy_range(data.as_slice(), rg.start, rg.end))
            },
            _ => None,
        }
    }

    /// The bytes of every record of entry `register` of device `slave_id`
    /// in the current snapshot; nothing before the first cycle or for an
    /// unknown device or name.
    pub fn get_pdo_registers(&self, table: &OffsetTable, slave_id: u16, register: &String) -> (r:
        Option<Vec<Vec<u8>>>)
        requires
            self.wf(),
            table.wf(),
            table.image_len == self.image_len,
        ensures
            r is None <==> read_all_spec(self.snapshot_view(), table.ranges_of(slave_id, register@))
                is None,
            r is Some ==> read_all_spec(self.snapshot_view(), table.ranges_of(slave_id, register@))
                == Some(r->Some_0@.map_values(|v: Vec<u8>| v@)),
    {
        let data = match &self.snapshot {
            Some(data) => data,
            None => return None,
        };
        let ranges = match table.get_reg_addr_ranges(slave_id, register) {
            Some(ranges) => ranges,
            None => return None,
        };
        let ghost snap = data@;
        proof {
            let rs = crate::offsets::matching(table.entries@, slave_id, register@);
            crate::offsets::lemma_matching_fits(
                table.entries@,
                slave_id,
                register@,
                table.image_len as nat,
            );
            assert forall|i: int| 0 <= i < ranges@.len() implies #[trigger] ranges@[i].start
                <= ranges@[i].end <= snap.len() by {
                assert(crate::offsets::record_fits(rs[i], table.image_len as nat));
            }
        }
        let mut out: Vec<Vec<u8>> = Vec::new();
        let mut k: usize = 0;
        while k < ranges.len()
            invariant
                k <= ranges@.len(),
                snap == data@,
                forall|i: int|
                    0 <= i < ranges@.len() ==> #[trigger] ranges@[i].start <= ranges@[i].end
                        <= snap.len(),
                out@.len() == k,
                forall|i: int|
                    0 <= i < k ==> #[trigger] out@[i]@ == snap.subrange(
                        ranges@[i].start as int,
                        ranges@[i].end as int,
                    ),
            decreases ranges@.len() - k,
        {
            let rg = ranges[k];
            out.push(copy_range(data.as_slice(), rg.start, rg.end));
            k += 1;
        }
        proof {
            assert(out@.map_values(|v: Vec<u8>| v@) =~= ranges@.map_values(
                |r: ByteRange| snap.subrange(r.start as int, r.end as int),
            ));
        }
        Some(out)
    }
}

/// A write that the table resolved for a register, applied after any
/// earlier writes of the same cycle, is what a read of that register sees
/// once the buffer it was applied to is published.
pub proof fn lemma_write_round_trip(
    table: OffsetTable,
    buf: Seq<u8>,
    earlier: Seq<PendingWrite>,
    w: PendingWrite,
    id: u16,
    name: Seq<char>,
    index: int,
)
    requires
        table.wf(),
        buf.len() == table.image_len,
        table.range_of(id, name, index) == Some(w.range),
        w.value@.len() == w.range.end - w.range.start,
    ensures
        read_spec(Some(apply_writes(buf, earlier.push(w))), table.range_of(id, name, index)) == Some(
            w.value@,
        ),
{
    crate::offsets::lemma_range_within_image(table, id, name, index);
    lemma_apply_writes_len(buf, earlier);
    assert(earlier.push(w).drop_last() =~= earlier);
    let after = apply_writes(buf, earlier.push(w));
    assert(after.subrange(w.range.start as int, w.range.end as int) =~= w.value@);
}

/// Between two publications the snapshot does not change, so reads of any
/// register return the same bytes however often they are repeated.
pub proof fn lemma_reads_stable_between_cycles(
    s: ProcessImage,
    t: ProcessImage,
    table: OffsetTable,
    id: u16,
    name: Seq<char>,
    index: int,
)
    requires
        t.snapshot == s.snapshot,
    ensures
        read_spec(t.snapshot_view(), table.range_of(id, name, index)) == read_spec(
            s.snapshot_view(),
            table.range_of(id, name, index),
        ),
        read_all_spec(t.snapshot_view(), table.ranges_of(id, name)) == read_all_spec(
            s.snapshot_view(),
            table.ranges_of(id, name),
        ),
{
}

} // verus!
