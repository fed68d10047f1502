use vstd::prelude::*;

verus! {

/// Physical location and width of one named entry instance within the
/// process image.
#[derive(Clone, Copy, Debug, PartialEq, Eq, Structural)]
pub struct OffsetRecord {
    pub entry_index: u16,
    pub entry_subindex: u8,
    pub bit_len: u8,
    pub byte_offset: usize,
}

/// Half-open byte range `[start, end)` inside the process image.
#[derive(Clone, Copy, Debug, PartialEq, Eq, Structural)]
pub struct ByteRange {
    pub start: usize,
    pub end: usize,
}

/// Whole bytes covered by an entry of `bit_len` bits: the division truncates,
/// so entries narrower than a byte cover no bytes at all.
pub open spec fn byte_len_of(bit_len: u8) -> nat {
    (bit_len / 8) as nat
}

pub open spec fn record_fits(r: OffsetRecord, image_len: nat) -> bool {
    r.byte_offset + byte_len_of(r.bit_len) <= image_len
}

/// The bytes a record covers.
pub open spec fn range_of_record(r: OffsetRecord) -> ByteRange {
    ByteRange { start: r.byte_offset, end: (r.byte_offset + byte_len_of(r.bit_len)) as usize }
}

/// One registered entry: the device it belongs to, its name, and its place.
#[derive(Clone, Debug)]
pub struct Entry {
    pub position: u16,
    pub name: String,
    pub record: OffsetRecord,
}

/// A device's human-readable name and its bus position.
#[derive(Clone, Debug)]
pub struct DeviceName {
    pub name: String,
    pub position: u16,
}

/// Why building the offset table failed.
#[derive(Clone, Copy, Debug, PartialEq, Eq, Structural)]
pub enum BuildError {
    /// A device was added twice at the same position.
    DuplicatePosition,
    /// An entry names a device that was never added.
    UnknownDevice,
    /// The bus master did not bind a device's configuration to a position.
    Unbound,
    /// An entry's bytes reach past the end of the process image.
    OutOfImage,
}

/// The records that `es` holds for device `id` under `name`, in the order in
/// which they were registered.
pub open spec fn matching(es: Seq<Entry>, id: u16, name: Seq<char>) -> Seq<OffsetRecord>
    decreases es.len(),
{
    if es.len() == 0 {
        Seq::empty()
    } else {
        let rest = matching(es.drop_last(), id, name);
        if es.last().position == id && es.last().name@ == name {
            rest.push(es.last().record)
        } else {
            rest
        }
    }
}

/// The position registered last under `name`: a later device of the same
/// name shadows an earlier one.
pub open spec fn position_of_name(ds: Seq<DeviceName>, name: Seq<char>) -> Option<u16>
    decreases ds.len(),
{
    if ds.len() == 0 {
        None
    } else if ds.last().name@ == name {
        Some(ds.last().position)
    } else {
        position_of_name(ds.drop_last(), name)
    }
}

/// Every record that `es` holds for one device and name fits in the image
/// when every record of `es` does.
pub proof fn lemma_matching_fits(es: Seq<Entry>, id: u16, name: Seq<char>, image_len: nat)
    requires
        forall|i: int| 0 <= i < es.len() ==> record_fits(#[trigger] es[i].record, image_len),
    ensures
        forall|i: int|
            0 <= i < matching(es, id, name).len() ==> record_fits(
                #[trigger] matching(es, id, name)[i],
                image_len,
            ),
    decreases es.len(),
{
    if es.len() > 0 {
        let init = es.drop_last();
        assert forall|i: int| 0 <= i < init.len() implies record_fits(
            #[trigger] init[i].record,
            image_len,
        ) by {
            assert(init[i] == es[i]);
        }
        lemma_matching_fits(init, id, name, image_len);
        assert(record_fits(es[es.len() - 1].record, image_len));
        let m = matching(es, id, name);
        let rest = matching(init, id, name);
        assert forall|i: int| 0 <= i < m.len() implies record_fits(#[trigger] m[i], image_len) by {
            if i < rest.len() {
                assert(m[i] == rest[i]);
            }
        }
    }
}

/// Direction in which a device's data block travels.
#[derive(Clone, Copy, Debug, PartialEq, Eq, Structural)]
pub enum SyncRole {
    /// Master output, device input.
    Output,
    /// Device output, master input.
    Input,
}

/// The role of a device's data block by its place among the device's sync
/// managers: the first carries outputs, every later one inputs.
pub fn sync_role(block_position: usize) -> (r: SyncRole)
    ensures
        r == (if block_position == 0 {
            SyncRole::Output
        } else {
            SyncRole::Input
        }),
{
    if block_position == 0 {
        SyncRole::Output
    } else {
        SyncRole::Input
    }
}

/// Only one data block per sync manager is used; a sync manager that
/// reports another count still has just its first block configured.
pub fn block_count_supported(pdo_count: u8) -> (r: bool)
    ensures
        r == (pdo_count == 1),
{
    pdo_count == 1
}

/// Map from (device position, entry name) to the byte ranges of the process
/// image that hold that entry, plus the device name table.
#[derive(Debug)]
pub struct OffsetTable {
    pub devices: Vec<DeviceName>,
    pub entries: Vec<Entry>,
    pub image_len: usize,
}

impl OffsetTable {
    pub open spec fn has_device(self, id: u16) -> bool {
        exists|k: int| 0 <= k < self.devices@.len() && self.devices@[k].position == id
    }

    pub open spec fn positions(self) -> Seq<u16> {
        self.devices@.map_values(|d: DeviceName| d.position)
    }

    /// The records of entry `name` of device `id`; none for an unknown
    /// device or name.
    pub open spec fn records_of(self, id: u16, name: Seq<char>) -> Option<Seq<OffsetRecord>> {
        let rs = matching(self.entries@, id, name);
        if rs.len() > 0 {
            Some(rs)
        } else {
            None
        }
    }

    pub open spec fn ranges_of(self, id: u16, name: Seq<char>) -> Option<Seq<ByteRange>> {
        match self.records_of(id, name) {
            Some(rs) => Some(rs.map_values(|r: OffsetRecord| range_of_record(r))),
            None => None,
        }
    }

    pub open spec fn range_of(self, id: u16, name: Seq<char>, index: int) -> Option<ByteRange> {
        match self.records_of(id, name) {
            Some(rs) => if 0 <= index < rs.len() {
                Some(range_of_record(rs[index]))
            } else {
                None
            },
            None => None,
        }
    }

    pub open spec fn id_of(self, name: Seq<char>) -> Option<u16> {
        position_of_name(self.devices@, name)
    }

    /// Device `k` of the list sits at `id`, and its name still resolves to it.
    pub open spec fn names_device(self, k: int, id: u16) -> bool {
        &&& 0 <= k < self.devices@.len()
        &&& self.devices@[k].position == id
        &&& self.id_of(self.devices@[k].name@) == Some(id)
    }

    pub open spec fn name_of(self, id: u16) -> Option<Seq<char>> {
        if exists|k: int| self.names_device(k, id) {
            Some(self.devices@[choose|k: int| self.names_device(k, id)].name@)
        } else {
            None
        }
    }

    /// Positions are unique and every entry belongs to a known device.
    pub open spec fn wf_structure(self) -> bool {
        &&& forall|i: int, j: int|
            0 <= i < self.devices@.len() && 0 <= j < self.devices@.len()
                && #[trigger] self.devices@[i].position == #[trigger] self.devices@[j].position
                ==> i == j
        &&& forall|i: int|
            0 <= i < self.entries@.len() ==> self.has_device(#[trigger] self.entries@[i].position)
    }

    /// A finished table: well structured, and every entry inside the image.
    pub open spec fn wf(self) -> bool {
        &&& self.wf_structure()
        &&& forall|i: int|
            0 <= i < self.entries@.len() ==> record_fits(
                #[trigger] self.entries@[i].record,
                self.image_len as nat,
            )
    }

    /// An empty table, ready to have devices and entries added.
    pub fn new() -> (r: OffsetTable)
        ensures
            r.wf_structure(),
            r.devices@.len() == 0,
            r.entries@.len() == 0,
            r.image_len == 0,
    {
        OffsetTable { devices: Vec::new(), entries: Vec::new(), image_len: 0 }
    }

    fn find_device(&self, id: u16) -> (r: bool)
        ensures
            r == self.has_device(id),
    {
        let mut k: usize = 0;
        while k < self.devices.len()
            invariant
                k <= self.devices@.len(),
                forall|j: int| 0 <= j < k ==> self.devices@[j].position != id,
            decreases self.devices@.len() - k,
        {
            if self.devices[k].position == id {
                return true;
            }
            k += 1;
        }
        false
    }

    /// Adds the device at `position`, known as `name`.
    pub fn add_device(&mut self, position: u16, name: String) -> (r: Result<(), BuildError>)
        requires
            old(self).wf_structure(),
        ensures
            final(self).wf_structure(),
            final(self).entries@ == old(self).entries@,
            final(self).image_len == old(self).image_len,
            r is Err <==> old(self).has_device(position),
            r is Err ==> r == Err::<(), BuildError>(BuildError::DuplicatePosition)
                && final(self).devices@ == old(self).devices@,
            r is Ok ==> final(self).devices@ == old(self).devices@.push(
                DeviceName { name, position },
            ),
    {
        if self.find_device(position) {
            return Err(BuildError::DuplicatePosition);
        }
        let ghost before = self.devices@;
        self.devices.push(DeviceName { name, position });
        proof {
            assert forall|i: int| 0 <= i < self.entries@.len() implies self.has_device(
                #[trigger] self.entries@[i].position,
            ) by {
                let k = choose|k: int|
                    0 <= k < before.len() && before[k].position == self.entries@[i].position;
                assert(self.devices@[k] == before[k]);
            }
        }
        Ok(())
    }

    /// Registers one more record of entry `name` of the device at `position`;
    /// records under one name keep the order in which they were added.
    pub fn add_entry(&mut self, position: u16, name: String, record: OffsetRecord) -> (r: Result<
        (),
        BuildError,
    >)
        requires
            old(self).wf_structure(),
        ensures
            final(self).wf_structure(),
            final(self).devices@ == old(self).devices@,
            final(self).image_len == old(self).image_len,
            r is Err <==> !old(self).has_device(position),
            r is Err ==> r == Err::<(), BuildError>(BuildError::UnknownDevice)
                && final(self).entries@ == old(self).entries@,
            r is Ok ==> final(self).entries@ == old(self).entries@.push(
                Entry { position, name, record },
            ),
            r is Ok ==> matching(final(self).entries@, position, name@) == matching(
                old(self).entries@,
                position,
                name@,
            ).push(record),
            r is Ok ==> forall|id: u16, n: Seq<char>|
                !(id == position && n == name@) ==> #[trigger] matching(final(self).entries@, id, n)
                    == matching(old(self).entries@, id, n),
    {
        if !self.find_device(position) {
            return Err(BuildError::UnknownDevice);
        }
        let ghost before = self.entries@;
        let ghost name_view = name@;
        assert(self.has_device(position));
        self.entries.push(Entry { position, name, record });
        proof {
            assert(self.entries@.drop_last() =~= before);
            assert forall|i: int| 0 <= i < self.entries@.len() implies self.has_device(
                #[trigger] self.entries@[i].position,
            ) by {
                assert(self.devices@ == old(self).devices@);
                if i < before.len() {
                    assert(self.entries@[i] == before[i]);
                    assert(old(self).has_device(before[i].position));
                } else {
                    assert(self.entries@[i].position == position);
                }
            }
            assert forall|id: u16, n: Seq<char>|
                !(id == position && n == name_view) implies #[trigger] matching(
                self.entries@,
                id,
                n,
            ) == matching(before, id, n) by {
                assert(self.entries@.drop_last() =~= before);
            }
        }
        Ok(())
    }

    /// Checks that the bus master bound a device's configuration to a
    /// position.
    pub fn require_bound(bound: Option<u16>) -> (r: Result<u16, BuildError>)
        ensures
            bound is None <==> r == Err::<u16, BuildError>(BuildError::Unbound),
            bound is Some ==> r == Ok::<u16, BuildError>(bound->Some_0),
    {
        match bound {
            Some(p) => Ok(p),
            None => Err(BuildError::Unbound),
        }
    }

    /// Seals the table against an image of `image_len` bytes: fails unless
    /// every entry's bytes lie inside the image.
    pub fn finish(self, image_len: usize) -> (r: Result<OffsetTable, BuildError>)
        requires
            self.wf_structure(),
        ensures
            r is Ok <==> forall|i: int|
                0 <= i < self.entries@.len() ==> record_fits(
                    #[trigger] self.entries@[i].record,
                    image_len as nat,
                ),
            r is Err ==> r == Err::<OffsetTable, BuildError>(BuildError::OutOfImage),
            r is Ok ==> ({
                let t = r->Ok_0;
                &&& t.wf()
                &&& t.devices@ == self.devices@
                &&& t.entries@ == self.entries@
                &&& t.image_len == image_len
            }),
    {
        let mut k: usize = 0;
        while k < self.entries.len()
            invariant
                k <= self.entries@.len(),
                forall|i: int|
                    0 <= i < k ==> record_fits(#[trigger] self.entries@[i].record, image_len as nat),
            decreases self.entries@.len() - k,
        {
            let rec = self.entries[k].record;
            let len = (rec.bit_len / 8) as usize;
            if rec.byte_offset > image_len || len > image_len - rec.byte_offset {
                return Err(BuildError::OutOfImage);
            }
            k += 1;
        }
        Ok(OffsetTable { devices: self.devices, entries: self.entries, image_len })
    }
    /// The byte ranges of every record of entry `register` of device
    /// `slave_id`, in registration order; none for an unknown device or name.
    pub fn get_reg_addr_ranges(&self, slave_id: u16, register: &String) -> (r: Option<
        Vec<ByteRange>,
    >)
        requires
            self.wf(),
        ensures
            r is None <==> self.ranges_of(slave_id, register@) is None,
            r is Some ==> self.ranges_of(slave_id, register@) == Some(r->Some_0@),
    {
        let ghost es = self.entries@;
        let mut out: Vec<ByteRange> = Vec::new();
        let mut k: usize = 0;
        while k < self.entries.len()
            invariant
                self.wf(),
                es == self.entries@,
                k <= es.len(),
                out@ == matching(es.take(k as int), slave_id, register@).map_values(|r: OffsetRecord| range_of_record(r)),
            decreases es.len() - k,
        {
            let e = &self.entries[k];
            proof {
                assert(es.take(k + 1).drop_last() =~= es.take(k as int));
                assert(record_fits(es[k as int].record, self.image_len as nat));
                assert(es.take(k + 1).last() == es[k as int]);
                assert(*e == es[k as int]);
            }
            if e.position == slave_id && e.name == *register {
                let end = e.record.byte_offset + (e.record.bit_len / 8) as usize;
                out.push(ByteRange { start: e.record.byte_offset, end });
                proof {
                    let m0 = matching(es.take(k as int), slave_id, register@);
                    let m1 = matching(es.take(k + 1), slave_id, register@);
                    assert(m1 == m0.push(es[k as int].record));
                    assert(range_of_record(es[k as int].record) == ByteRange { start: e.record.byte_offset, end });
                    assert(m1.map_values(|r: OffsetRecord| range_of_record(r)) =~= m0.map_values(|r: OffsetRecord| range_of_record(r)).push(range_of_record(es[k as int].record)));
                    assert(out@ =~= m1.map_values(|r: OffsetRecord| range_of_record(r)));
                }
            } else {
                proof {
                    assert(out@ =~= matching(es.take(k + 1), slave_id, register@).map_values(|r: OffsetRecord| range_of_record(r)));
                }
            }
            k += 1;
        }
        proof {
            assert(es.take(es.len() as int) =~= es);
        }
        if out.len() > 0 {
            Some(out)
        } else {
            None
        }
    }

    /// The byte range of record `index` of entry `register` of device
    /// `slave_id`; none for an unknown device or name, or an index past the
    /// records.
    pub fn get_reg_addr_range(&self, slave_id: u16, register: &String, index: usize) -> (r: Option<
        ByteRange,
    >)
        requires
            self.wf(),
        ensures
            r == self.range_of(slave_id, register@, index as int),
    {
        match self.get_reg_addr_ranges(slave_id, register) {
            Some(ranges) => {
                if index < ranges.len() {
                    Some(ranges[index])
                } else {
                    None
                }
            },
            None => None,
        }
    }

    /// The position of the device named `slave_name`.
    pub fn get_slave_id(&self, slave_name: &String) -> (r: Option<u16>)
        ensures
            r == self.id_of(slave_name@),
    {
        let ghost ds = self.devices@;
        let mut k: usize = self.devices.len();
        proof {
            assert(ds.take(ds.len() as int) =~= ds);
        }
        while k > 0
            invariant
                ds == self.devices@,
                k <= ds.len(),
                position_of_name(ds, slave_name@) == position_of_name(ds.take(k as int), slave_name@),
            decreases k,
        {
            proof {
                assert(ds.take(k as int).drop_last() =~= ds.take(k - 1));
            }
            if self.devices[k - 1].name == *slave_name {
                return Some(self.devices[k - 1].position);
            }
            k -= 1;
        }
        proof {
            assert(ds.take(ds.len() as int) =~= ds);
        }
        None
    }

    /// The name under which the device at `slave_id` can be looked up.
    pub fn get_slave_name(&self, slave_id: u16) -> (r: Option<String>)
        requires
            self.wf_structure(),
        ensures
            r is None <==> self.name_of(slave_id) is None,
            r is Some ==> self.name_of(slave_id) == Some(r->Some_0@),
    {
        let mut k: usize = 0;
        while k < self.devices.len()
            invariant
                self.wf_structure(),
                k <= self.devices@.len(),
                forall|j: int| 0 <= j < k ==> !self.names_device(j, slave_id),
            decreases self.devices@.len() - k,
        {
            let d = &self.devices[k];
            if d.position == slave_id && self.get_slave_id(&d.name) == Some(slave_id) {
                proof {
                    assert(self.names_device(k as int, slave_id));
                    let c = choose|c: int| self.names_device(c, slave_id);
                    assert(self.devices@[c].position == self.devices@[k as int].position);
                }
                return Some(d.name.clone());
            }
            k += 1;
        }
        None
    }

    /// The positions of all devices, ascending.
    pub fn get_slave_ids(&self) -> (r: Vec<u16>)
        ensures
            r@.to_multiset() == self.positions().to_multiset(),
            forall|i: int, j: int| 0 <= i <= j < r@.len() ==> r@[i] <= r@[j],
    {
        let mut ids: Vec<u16> = Vec::new();
        let mut k: usize = 0;
        while k < self.devices.len()
            invariant
                k <= self.devices@.len(),
                ids@ == self.devices@.take(k as int).map_values(|d: DeviceName| d.position),
            decreases self.devices@.len() - k,
        {
            let ghost prev = ids@;
            ids.push(self.devices[k].position);
            proof {
                let d0 = self.devices@.take(k as int);
                let d1 = self.devices@.take(k + 1);
                assert(d1 =~= d0.push(self.devices@[k as int]));
                assert(d1.map_values(|d: DeviceName| d.position) =~= d0.map_values(|d: DeviceName| d.position).push(self.devices@[k as int].position));
                assert(ids@ =~= prev.push(self.devices@[k as int].position));
                assert(ids@ =~= d1.map_values(|d: DeviceName| d.position));
            }
            k += 1;
        }
        proof {
            assert(self.devices@.take(self.devices@.len() as int) =~= self.devices@);
        }
        sort_ascending(&mut ids);
        ids
    }
}

/// Relies on `slice::sort`: the result is in ascending order and holds the
/// same elements.
#[verifier::external_body]
fn sort_ascending(v: &mut Vec<u16>)
    ensures
        final(v)@.to_multiset() == old(v)@.to_multiset(),
        forall|i: int, j: int| 0 <= i <= j < final(v)@.len() ==> final(v)@[i] <= final(v)@[j],
{
    v.sort();
}

/// Every byte range that the table resolves lies inside the process image.
pub proof fn lemma_range_within_image(table: OffsetTable, id: u16, name: Seq<char>, index: int)
    requires
        table.wf(),
        table.range_of(id, name, index) is Some,
    ensures
        ({
            let r = table.range_of(id, name, index)->Some_0;
            r.start <= r.end <= table.image_len
        }),
{
    lemma_matching_fits(table.entries@, id, name, table.image_len as nat);
    let rs = matching(table.entries@, id, name);
    assert(record_fits(rs[index], table.image_len as nat));
}

} // verus!
