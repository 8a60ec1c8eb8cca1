use vstd::prelude::*;

verus! {

/// The address range a device answers to: `size` bytes from `adrs`.
#[derive(Debug, Clone, Copy, PartialEq, Eq, Structural)]
pub struct DeviceMapping {
    pub adrs: u32,
    pub size: usize,
}

/// A range of memory-mapped bytes with read and write permission.
#[derive(Debug)]
pub struct MemoryMappedDevice {
    pub name: String,
    pub data: Vec<u8>,
    pub mapping: DeviceMapping,
    pub readable: bool,
    pub writable: bool,
}

/// Why a bus read failed.
#[derive(Debug, Clone, Copy, PartialEq, Eq, Structural)]
pub enum BusError {
    /// No device answers to the address.
    NoDevice,
    /// The device refuses reads, or the access runs past its range.
    AccessDenied,
}

/// The device's range holds address `pt`.
pub open spec fn maps(d: MemoryMappedDevice, pt: int) -> bool {
    d.mapping.adrs <= pt < d.mapping.adrs + d.mapping.size
}

/// All `len` bytes from `a` lie in the device's range and in its buffer.
pub open spec fn covers(d: MemoryMappedDevice, a: int, len: int) -> bool {
    &&& d.mapping.adrs <= a
    &&& a + len <= d.mapping.adrs + d.mapping.size
    &&& a - d.mapping.adrs + len <= d.data@.len()
}

/// The device's bytes from address `a` on.
pub open spec fn byte_at(d: MemoryMappedDevice, a: int, k: int) -> int {
    d.data@[a - d.mapping.adrs + k] as int
}

pub open spec fn dev_read8(d: MemoryMappedDevice, a: int) -> Option<u8> {
    if d.readable && covers(d, a, 1) {
        Some(byte_at(d, a, 0) as u8)
    } else {
        None
    }
}

/// Little-endian halfword at `a`.
pub open spec fn dev_read16(d: MemoryMappedDevice, a: int) -> Option<u16> {
    if d.readable && covers(d, a, 2) {
        Some((byte_at(d, a, 0) + byte_at(d, a, 1) * 0x100) as u16)
    } else {
        None
    }
}

/// Little-endian word at `a`.
pub open spec fn dev_read32(d: MemoryMappedDevice, a: int) -> Option<u32> {
    if d.readable && covers(d, a, 4) {
        Some(
            (byte_at(d, a, 0) + byte_at(d, a, 1) * 0x100 + byte_at(d, a, 2) * 0x1_0000 + byte_at(
                d,
                a,
                3,
            ) * 0x100_0000) as u32,
        )
    } else {
        None
    }
}

/// The bytes of a halfword, least significant first.
pub open spec fn bytes16(val: u16) -> Seq<u8> {
    seq![(val % 0x100) as u8, (val / 0x100) as u8]
}

/// The bytes of a word, least significant first.
pub open spec fn bytes32(val: u32) -> Seq<u8> {
    seq![
        (val % 0x100) as u8,
        ((val / 0x100) % 0x100) as u8,
        ((val / 0x1_0000) % 0x100) as u8,
        (val / 0x100_0000) as u8,
    ]
}

/// The buffer after writing `bytes` at `a`: changed only when the device is
/// writable and covers the whole access.
pub open spec fn written_data(d: MemoryMappedDevice, a: int, bytes: Seq<u8>) -> Seq<u8> {
    let off = a - d.mapping.adrs;
    if d.writable && covers(d, a, bytes.len() as int) {
        d.data@.subrange(0, off) + bytes + d.data@.subrange(off + bytes.len(), d.data@.len() as int)
    } else {
        d.data@
    }
}

/// The device after a write: only its buffer may change.
pub open spec fn dev_write_post(
    old_dev: MemoryMappedDevice,
    new_dev: MemoryMappedDevice,
    a: int,
    bytes: Seq<u8>,
) -> bool {
    &&& new_dev.name == old_dev.name
    &&& new_dev.mapping == old_dev.mapping
    &&& new_dev.readable == old_dev.readable
    &&& new_dev.writable == old_dev.writable
    &&& new_dev.data@ == written_data(old_dev, a, bytes)
}

proof fn lemma_le16(b0: u8, b1: u8)
    ensures
        ((b1 as u16) << 8u16) | (b0 as u16) == b0 as int + b1 as int * 0x100,
{
    assert(((b1 as u16) << 8u16) | (b0 as u16) == b0 as u16 + b1 as u16 * 0x100) by (bit_vector);
}

proof fn lemma_le32(b0: u8, b1: u8, b2: u8, b3: u8)
    ensures
        ((b3 as u32) << 24u32) | ((b2 as u32) << 16u32) | ((b1 as u32) << 8u32) | (b0 as u32)
            == b0 as int + b1 as int * 0x100 + b2 as int * 0x1_0000 + b3 as int * 0x100_0000,
{
    assert(((b3 as u32) << 24u32) | ((b2 as u32) << 16u32) | ((b1 as u32) << 8u32) | (b0 as u32)
        == b0 as u32 + b1 as u32 * 0x100 + b2 as u32 * 0x1_0000 + b3 as u32 * 0x100_0000)
        by (bit_vector);
}

proof fn lemma_split16(val: u16)
    ensures
        (val & 0xffu16) == val % 0x100,
        ((val >> 8u16) & 0xffu16) == val / 0x100,
{
    assert((val & 0xffu16) == val % 0x100 && ((val >> 8u16) & 0xffu16) == val / 0x100)
        by (bit_vector);
}

proof fn lemma_split32(val: u32)
    ensures
        (val & 0xffu32) == val % 0x100,
        ((val >> 8u32) & 0xffu32) == (val / 0x100) % 0x100,
        ((val >> 16u32) & 0xffu32) == (val / 0x1_0000) % 0x100,
        ((val >> 24u32) & 0xffu32) == val / 0x100_0000,
{
    assert((val & 0xffu32) == val % 0x100 && ((val >> 8u32) & 0xffu32) == (val / 0x100) % 0x100
        && ((val >> 16u32) & 0xffu32) == (val / 0x1_0000) % 0x100 && ((val >> 24u32) & 0xffu32)
        == val / 0x100_0000) by (bit_vector);
}

/// Access to one device by bus address.
pub trait DeviceAccess {
    fn get_range(&self) -> DeviceMapping;

    fn set_range(&mut self, range: DeviceMapping);

    fn is_mapped(&self, pt: u32) -> bool;

    fn read8(&self, adrs: u32) -> Option<u8>;

    fn read16(&self, adrs: u32) -> Option<u16>;

    fn read32(&self, adrs: u32) -> Option<u32>;

    fn write8(&mut self, adrs: u32, val: u8);

    fn write16(&mut self, adrs: u32, val: u16);

    fn write32(&mut self, adrs: u32, val: u32);
}

impl MemoryMappedDevice {
    /// Whether `len` bytes from `adrs` lie in the range and in the buffer.
    fn covers_access(&self, adrs: u32, len: u64) -> (r: bool)
        requires
            len <= 4,
        ensures
            r == covers(*self, adrs as int, len as int),
    {
        if adrs < self.mapping.adrs {
            return false;
        }
        let off: u64 = (adrs - self.mapping.adrs) as u64;
        off + len <= self.mapping.size as u64 && off + len <= self.data.len() as u64
    }
}

impl DeviceAccess for MemoryMappedDevice {
    fn get_range(&self) -> (r: DeviceMapping)
        ensures
            r == self.mapping,
    {
        DeviceMapping { adrs: self.mapping.adrs, size: self.mapping.size }
    }

    fn set_range(&mut self, range: DeviceMapping)
        ensures
            final(self).mapping == range,
            final(self).name == old(self).name,
            final(self).data == old(self).data,
            final(self).readable == old(self).readable,
            final(self).writable == old(self).writable,
    {
        self.mapping = range;
    }

    fn is_mapped(&self, pt: u32) -> (r: bool)
        ensures
            r == maps(*self, pt as int),
    {
        self.mapping.adrs <= pt && ((pt - self.mapping.adrs) as u64) < self.mapping.size as u64
    }

    fn read8(&self, adrs: u32) -> (r: Option<u8>)
        ensures
            r == dev_read8(*self, adrs as int),
    {
        if self.readable && self.covers_access(adrs, 1) {
            let index: usize = (adrs - self.mapping.adrs) as usize;
            return Some(self.data[index]);
        }
        None
    }

    fn read16(&self, adrs: u32) -> (r: Option<u16>)
        ensures
            r == dev_read16(*self, adrs as int),
    {
        if self.readable && self.covers_access(adrs, 2) {
            let index: usize = (adrs - self.mapping.adrs) as usize;
            let b0 = self.data[index];
            let b1 = self.data[index + 1];
            proof {
                lemma_le16(b0, b1);
            }
            return Some(((b1 as u16) << 8u16) | (b0 as u16));
        }
        None
    }

    fn read32(&self, adrs: u32) -> (r: Option<u32>)
        ensures
            r == dev_read32(*self, adrs as int),
    {
        if self.readable && self.covers_access(adrs, 4) {
            let index: usize = (adrs - self.mapping.adrs) as usize;
            let b0 = self.data[index];
            let b1 = self.data[index + 1];
            let b2 = self.data[index + 2];
            let b3 = self.data[index + 3];
            proof {
                lemma_le32(b0, b1, b2, b3);
            }
            return Some(
                ((b3 as u32) << 24u32) | ((b2 as u32) << 16u32) | ((b1 as u32) << 8u32) | (b0 as u32),
            );
        }
        None
    }

    fn write8(&mut self, adrs: u32, val: u8)
        ensures
            dev_write_post(*old(self), *final(self), adrs as int, seq![val]),
    {
        if self.writable && self.covers_access(adrs, 1) {
            let index: usize = (adrs - self.mapping.adrs) as usize;
            self.data[index] = val;
            proof {
                let d = old(self).data@;
                assert(self.data@ =~= d.subrange(0, index as int) + seq![val] + d.subrange(
                    index + 1,
                    d.len() as int,
                ));
            }
        }
    }

    fn write16(&mut self, adrs: u32, val: u16)
        ensures
            dev_write_post(*old(self), *final(self), adrs as int, bytes16(val)),
    {
        if self.writable && self.covers_access(adrs, 2) {
            let index: usize = (adrs - self.mapping.adrs) as usize;
            proof {
                lemma_split16(val);
            }
            self.data[index] = (val & 0xffu16) as u8;
            self.data[index + 1] = ((val >> 8u16) & 0xffu16) as u8;
            proof {
                let d = old(self).data@;
                assert(self.data@ =~= d.subrange(0, index as int) + bytes16(val) + d.subrange(
                    index + 2,
                    d.len() as int,
                ));
            }
        }
    }

    fn write32(&mut self, adrs: u32, val: u32)
        ensures
            dev_write_post(*old(self), *final(self), adrs as int, bytes32(val)),
    {
        if self.writable && self.covers_access(adrs, 4) {
            let index: usize = (adrs - self.mapping.adrs) as usize;
            proof {
                lemma_split32(val);
            }
            self.data[index] = (val & 0xffu32) as u8;
            self.data[index + 1] = ((val >> 8u32) & 0xffu32) as u8;
            self.data[index + 2] = ((val >> 16u32) & 0xffu32) as u8;
            self.data[index + 3] = ((val >> 24u32) & 0xffu32) as u8;
            proof {
                let d = old(self).data@;
                assert(self.data@ =~= d.subrange(0, index as int) + bytes32(val) + d.subrange(
                    index + 4,
                    d.len() as int,
                ));
            }
        }
    }
}

/// Devices in registration order; an address belongs to the first that maps it.
pub struct SystemMap {
    pub map: Vec<MemoryMappedDevice>,
}

/// Index of the first device whose range holds `pt`.
pub open spec fn find_device(devs: Seq<MemoryMappedDevice>, pt: int) -> Option<int>
    decreases devs.len(),
{
    if devs.len() == 0 {
        None
    } else {
        match find_device(devs.drop_last(), pt) {
            Some(i) => Some(i),
            None => if maps(devs.last(), pt) {
                Some(devs.len() - 1)
            } else {
                None
            },
        }
    }
}

pub open spec fn bus_read8(devs: Seq<MemoryMappedDevice>, a: int) -> Result<u8, BusError> {
    match find_device(devs, a) {
        None => Err(BusError::NoDevice),
        Some(i) => match dev_read8(devs[i], a) {
            Some(x) => Ok(x),
            None => Err(BusError::AccessDenied),
        },
    }
}

pub open spec fn bus_read16(devs: Seq<MemoryMappedDevice>, a: int) -> Result<u16, BusError> {
    match find_device(devs, a) {
        None => Err(BusError::NoDevice),
        Some(i) => match dev_read16(devs[i], a) {
            Some(x) => Ok(x),
            None => Err(BusError::AccessDenied),
        },
    }
}

pub open spec fn bus_read32(devs: Seq<MemoryMappedDevice>, a: int) -> Result<u32, BusError> {
    match find_device(devs, a) {
        None => Err(BusError::NoDevice),
        Some(i) => match dev_read32(devs[i], a) {
            Some(x) => Ok(x),
            None => Err(BusError::AccessDenied),
        },
    }
}

/// The bus after writing `bytes` at `a`: the device that `a` resolves to is
/// written as a device write says, every other device is unchanged, and an
/// address that no device maps changes nothing.
pub open spec fn bus_write_post(
    old_devs: Seq<MemoryMappedDevice>,
    new_devs: Seq<MemoryMappedDevice>,
    a: int,
    bytes: Seq<u8>,
) -> bool {
    &&& new_devs.len() == old_devs.len()
    &&& match find_device(old_devs, a) {
        None => new_devs == old_devs,
        Some(i) => {
            &&& forall|j: int| 0 <= j < old_devs.len() && j != i ==> new_devs[j] == old_devs[j]
            &&& dev_write_post(old_devs[i], new_devs[i], a, bytes)
        },
    }
}

/// What resolution finds in a prefix of the devices, it finds in all of them.
proof fn lemma_find_extends(devs: Seq<MemoryMappedDevice>, n: int, pt: int)
    requires
        0 <= n <= devs.len(),
        find_device(devs.subrange(0, n), pt) is Some,
    ensures
        find_device(devs, pt) == find_device(devs.subrange(0, n), pt),
    decreases devs.len() - n,
{
    if n < devs.len() {
        assert(devs.subrange(0, n + 1).drop_last() =~= devs.subrange(0, n));
        lemma_find_extends(devs, n + 1, pt);
    } else {
        assert(devs.subrange(0, n) =~= devs);
    }
}

/// A resolved index is in range.
proof fn lemma_find_in_range(devs: Seq<MemoryMappedDevice>, pt: int)
    ensures
        find_device(devs, pt) matches Some(i) ==> 0 <= i < devs.len() && maps(devs[i], pt),
    decreases devs.len(),
{
    if devs.len() > 0 {
        lemma_find_in_range(devs.drop_last(), pt);
    }
}

/// Access to the bus: each address goes to the device it resolves to. Reads
/// report failures; writes that cannot be done are ignored.
pub trait SystemMapAccess {
    fn get_device(&self, pt: u32) -> Option<usize>;

    fn register_device(&mut self, dev: MemoryMappedDevice);

    fn read8(&self, adrs: u32) -> Result<u8, BusError>;

    fn read16(&self, adrs: u32) -> Result<u16, BusError>;

    fn read32(&self, adrs: u32) -> Result<u32, BusError>;

    fn write8(&mut self, adrs: u32, val: u8);

    fn write16(&mut self, adrs: u32, val: u16);

    fn write32(&mut self, adrs: u32, val: u32);
}

impl SystemMapAccess for SystemMap {
    /// The index of the first registered device whose range holds `pt`.
    fn get_device(&self, pt: u32) -> (r: Option<usize>)
        ensures
            r matches Some(i) ==> find_device(self.map@, pt as int) == Some(i as int),
            r is None ==> find_device(self.map@, pt as int) is None,
    {
        let mut i: usize = 0;
        while i < self.map.len()
            invariant
                i <= self.map@.len(),
                find_device(self.map@.subrange(0, i as int), pt as int) is None,
            decreases self.map@.len() - i,
        {
            assert(self.map@.subrange(0, i + 1).drop_last() =~= self.map@.subrange(0, i as int));
            if self.map[i].is_mapped(pt) {
                proof {
                    lemma_find_extends(self.map@, i + 1, pt as int);
                }
                return Some(i);
            }
            i = i + 1;
        }
        assert(self.map@.subrange(0, i as int) =~= self.map@);
        None
    }

    /// Appends a device; on overlapping ranges the earlier one keeps the addresses.
    fn register_device(&mut self, dev: MemoryMappedDevice)
        ensures
            final(self).map@ == old(self).map@.push(dev),
    {
        self.map.push(dev);
    }

    fn read8(&self, adrs: u32) -> (r: Result<u8, BusError>)
        ensures
            r == bus_read8(self.map@, adrs as int),
    {
        proof {
            lemma_find_in_range(self.map@, adrs as int);
        }
        match self.get_device(adrs) {
            Some(i) => match self.map[i].read8(adrs) {
                Some(data) => Ok(data),
                None => Err(BusError::AccessDenied),
            },
            None => Err(BusError::NoDevice),
        }
    }

    fn read16(&self, adrs: u32) -> (r: Result<u16, BusError>)
        ensures
            r == bus_read16(self.map@, adrs as int),
    {
        proof {
            lemma_find_in_range(self.map@, adrs as int);
        }
        match self.get_device(adrs) {
            Some(i) => match self.map[i].read16(adrs) {
                Some(data) => Ok(data),
                None => Err(BusError::AccessDenied),
            },
            None => Err(BusError::NoDevice),
        }
    }

    fn read32(&self, adrs: u32) -> (r: Result<u32, BusError>)
        ensures
            r == bus_read32(self.map@, adrs as int),
    {
        proof {
            lemma_find_in_range(self.map@, adrs as int);
        }
        match self.get_device(adrs) {
            Some(i) => match self.map[i].read32(adrs) {
                Some(data) => Ok(data),
                None => Err(BusError::AccessDenied),
            },
            None => Err(BusError::NoDevice),
        }
    }

    /// Writes a byte; an address that no device can take is silently ignored.
    fn write8(&mut self, adrs: u32, val: u8)
        ensures
            bus_write_post(old(self).map@, final(self).map@, adrs as int, seq![val]),
    {
        proof {
            lemma_find_in_range(self.map@, adrs as int);
        }
        match self.get_device(adrs) {
            Some(i) => self.map[i].write8(adrs, val),
            None => (),
        }
    }

    /// Writes a halfword little-endian; a refused access changes nothing.
    fn write16(&mut self, adrs: u32, val: u16)
        ensures
            bus_write_post(old(self).map@, final(self).map@, adrs as int, bytes16(val)),
    {
        proof {
            lemma_find_in_range(self.map@, adrs as int);
        }
        match self.get_device(adrs) {
            Some(i) => self.map[i].write16(adrs, val),
            None => (),
        }
    }

    /// Writes a word little-endian; a refused access changes nothing.
    fn write32(&mut self, adrs: u32, val: u32)
        ensures
            bus_write_post(old(self).map@, final(self).map@, adrs as int, bytes32(val)),
    {
        proof {
            lemma_find_in_range(self.map@, adrs as int);
        }
        match self.get_device(adrs) {
            Some(i) => self.map[i].write32(adrs, val),
            None => (),
        }
    }
}

/// An access that starts inside a device but runs past the end of its range
/// is refused both ways: a write of any width leaves every device's bytes as
/// they were, and a halfword or word read there fails with `AccessDenied`.
pub proof fn lemma_crossing_access(
    devs: Seq<MemoryMappedDevice>,
    new_devs: Seq<MemoryMappedDevice>,
    a: int,
    bytes: Seq<u8>,
)
    requires
        find_device(devs, a) matches Some(i) && a + bytes.len() > devs[i].mapping.adrs
            + devs[i].mapping.size,
        bus_write_post(devs, new_devs, a, bytes),
    ensures
        forall|j: int| 0 <= j < devs.len() ==> (#[trigger] new_devs[j]).data@ == devs[j].data@,
        bytes.len() == 2 ==> bus_read16(devs, a) == Err::<u16, BusError>(BusError::AccessDenied),
        bytes.len() == 4 ==> bus_read32(devs, a) == Err::<u32, BusError>(BusError::AccessDenied),
{
    lemma_find_in_range(devs, a);
}

/// Devices with the same ranges resolve every address alike.
proof fn lemma_find_same_layout(
    old_devs: Seq<MemoryMappedDevice>,
    new_devs: Seq<MemoryMappedDevice>,
    pt: int,
)
    requires
        new_devs.len() == old_devs.len(),
        forall|j: int| 0 <= j < old_devs.len() ==> (#[trigger] new_devs[j]).mapping == old_devs[j].mapping,
    ensures
        find_device(new_devs, pt) == find_device(old_devs, pt),
    decreases old_devs.len(),
{
    if old_devs.len() > 0 {
        let o = old_devs.drop_last();
        let n = new_devs.drop_last();
        assert forall|j: int| 0 <= j < o.len() implies (#[trigger] n[j]).mapping == o[j].mapping by {
            assert(n[j] == new_devs[j]);
            assert(o[j] == old_devs[j]);
        }
        lemma_find_same_layout(o, n, pt);
        assert(new_devs.last() == new_devs[new_devs.len() - 1]);
        assert(old_devs.last() == old_devs[old_devs.len() - 1]);
    }
}

/// A bus write changes no device's range, permissions or buffer size, so
/// every address resolves as before.
pub proof fn lemma_write_keeps_layout(
    old_devs: Seq<MemoryMappedDevice>,
    new_devs: Seq<MemoryMappedDevice>,
    a: int,
    bytes: Seq<u8>,
)
    requires
        bus_write_post(old_devs, new_devs, a, bytes),
    ensures
        new_devs.len() == old_devs.len(),
        forall|j: int|
            0 <= j < old_devs.len() ==> {
                &&& (#[trigger] new_devs[j]).mapping == old_devs[j].mapping
                &&& new_devs[j].readable == old_devs[j].readable
                &&& new_devs[j].writable == old_devs[j].writable
                &&& new_devs[j].data@.len() == old_devs[j].data@.len()
            },
        forall|pt: int| #[trigger] find_device(new_devs, pt) == find_device(old_devs, pt),
{
    lemma_find_in_range(old_devs, a);
    assert forall|pt: int| #[trigger] find_device(new_devs, pt) == find_device(old_devs, pt) by {
        lemma_find_same_layout(old_devs, new_devs, pt);
    }
}

} // verus!
