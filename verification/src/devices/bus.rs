//! The device bus: which device answers at which address, in the memory and in the port space.
//!
//! Adding a device is a registration; whoever dispatches an access never looks at devices.

use vstd::prelude::*;

use super::device::Device;
use crate::bytes;
use crate::text;

verus! {

/// The addresses from `start` up to and without `end`.
#[derive(Debug, Clone, Copy, PartialEq, Eq, Structural)]
pub struct BusRange {
    pub start: u64,
    pub end: u64,
}

impl BusRange {
    /// The range of `len` addresses from `start` on.
    pub fn new(start: u64, len: u64) -> (r: Self)
        requires
            start + len <= u64::MAX,
        ensures
            r == (BusRange { start, end: (start + len) as u64 }),
    {
        BusRange { start, end: start + len }
    }

    /// Whether `addr` lies in the range.
    pub open spec fn covers(self, addr: u64) -> bool {
        self.start <= addr < self.end
    }

    /// Whether the two ranges share an address.
    pub open spec fn meets(self, other: BusRange) -> bool {
        self.start < other.end && other.start < self.end
    }

    fn contains(&self, addr: u64) -> (r: bool)
        ensures
            r == self.covers(addr),
    {
        addr >= self.start && addr < self.end
    }
}

/// Why a device was not registered.
#[derive(Debug)]
pub enum BusError {
    /// Its range shares an address with one that is taken.
    Overlap { new_start: u64, new_end: u64, ex_start: u64, ex_end: u64 },
}

impl BusError {
    /// The error in words.
    pub open spec fn words(self) -> Seq<char> {
        match self {
            BusError::Overlap { new_start, new_end, ex_start, ex_end } => "device range ["@
                + text::hex(new_start as nat) + ","@ + text::hex(new_end as nat)
                + ") overlaps existing ["@ + text::hex(ex_start as nat) + ","@ + text::hex(
                ex_end as nat,
            ) + ")"@,
        }
    }

    /// The error in words.
    pub fn message(&self) -> (r: String)
        ensures
            r@ == self.words(),
    {
        match self {
            BusError::Overlap { new_start, new_end, ex_start, ex_end } => {
                let a = text::join3("device range [", text::hex_text(*new_start).as_str(), ",");
                let b = text::join3(
                    a.as_str(),
                    text::hex_text(*new_end).as_str(),
                    ") overlaps existing [",
                );
                let c = text::join3(b.as_str(), text::hex_text(*ex_start).as_str(), ",");
                text::join3(c.as_str(), text::hex_text(*ex_end).as_str(), ")")
            },
        }
    }
}

/// The devices of one address space, in the order of their registration.
pub type Slots<D> = Seq<(BusRange, D)>;

/// The first registered device whose range has `addr`.
pub open spec fn claim<D>(list: Slots<D>, addr: u64) -> Option<int>
    decreases list.len(),
{
    if list.len() == 0 {
        None
    } else {
        match claim(list.drop_last(), addr) {
            Some(i) => Some(i),
            None => if list.last().0.covers(addr) {
                Some(list.len() - 1)
            } else {
                None
            },
        }
    }
}

/// The first registered device whose range meets `range`.
pub open spec fn clash<D>(list: Slots<D>, range: BusRange) -> Option<int>
    decreases list.len(),
{
    if list.len() == 0 {
        None
    } else {
        match clash(list.drop_last(), range) {
            Some(i) => Some(i),
            None => if range.meets(list.last().0) {
                Some(list.len() - 1)
            } else {
                None
            },
        }
    }
}

/// Whether no two devices share an address.
pub open spec fn slots_apart<D>(list: Slots<D>) -> bool {
    forall|i: int, j: int|
        0 <= i < j < list.len() ==> !(#[trigger] list[j].0.meets((#[trigger] list[i]).0))
}

/// Whether registering `dev` at `range` may turn `pre` into `post` and answer `r`.
pub open spec fn registered<D>(
    pre: Slots<D>,
    range: BusRange,
    dev: D,
    post: Slots<D>,
    r: Result<(), BusError>,
) -> bool {
    match clash(pre, range) {
        None => r is Ok && post == pre.push((range, dev)),
        Some(i) => {
            &&& post == pre
            &&& r == Err::<(), BusError>(
                BusError::Overlap {
                    new_start: range.start,
                    new_end: range.end,
                    ex_start: pre[i].0.start,
                    ex_end: pre[i].0.end,
                },
            )
        },
    }
}

/// Whether a read of `before.len()` bytes at `addr` may give `after` and turn `pre` into
/// `post`: the device there answers, at the offset in its range; without one all bits are set.
pub open spec fn space_read<D: Device>(
    pre: Slots<D>,
    addr: u64,
    before: Seq<u8>,
    post: Slots<D>,
    after: Seq<u8>,
) -> bool {
    match claim(pre, addr) {
        None => post == pre && after == Seq::new(before.len(), |i: int| 0xffu8),
        Some(i) => {
            &&& post == pre.update(i, (pre[i].0, post[i].1))
            &&& pre[i].1.reads((addr - pre[i].0.start) as u64, before, &post[i].1, after)
        },
    }
}

/// Whether a write of `data` at `addr` may turn `pre` into `post`: the device there takes it,
/// at the offset in its range; without one it is dropped.
pub open spec fn space_written<D: Device>(
    pre: Slots<D>,
    addr: u64,
    data: Seq<u8>,
    post: Slots<D>,
) -> bool {
    match claim(pre, addr) {
        None => post == pre,
        Some(i) => {
            &&& post == pre.update(i, (pre[i].0, post[i].1))
            &&& pre[i].1.writes((addr - pre[i].0.start) as u64, data, &post[i].1)
        },
    }
}

/// A claim is a device whose range has the address, and there is one where any device has it.
pub proof fn claim_law<D>(list: Slots<D>, addr: u64)
    ensures
        match claim(list, addr) {
            Some(i) => 0 <= i < list.len() && list[i].0.covers(addr),
            None => forall|i: int| 0 <= i < list.len() ==> !(#[trigger] list[i]).0.covers(addr),
        },
    decreases list.len(),
{
    if list.len() > 0 {
        claim_law(list.drop_last(), addr);
        assert forall|i: int| 0 <= i < list.len() && claim(list, addr) is None implies !(
        #[trigger] list[i]).0.covers(addr) by {
            if i < list.len() - 1 {
                assert(list.drop_last()[i] == list[i]);
            }
        }
    }
}

/// A clash is a device whose range meets the new one, and there is one where any does.
pub proof fn clash_law<D>(list: Slots<D>, range: BusRange)
    ensures
        match clash(list, range) {
            Some(i) => 0 <= i < list.len() && range.meets(list[i].0),
            None => forall|i: int| 0 <= i < list.len() ==> !range.meets((#[trigger] list[i]).0),
        },
    decreases list.len(),
{
    if list.len() > 0 {
        clash_law(list.drop_last(), range);
        assert forall|i: int| 0 <= i < list.len() && clash(list, range) is None implies !range.meets(
            (#[trigger] list[i]).0,
        ) by {
            if i < list.len() - 1 {
                assert(list.drop_last()[i] == list[i]);
            }
        }
    }
}

/// Where no two devices share an address, whichever device has an address is the one that
/// answers there: the order of registration does not matter.
pub proof fn claim_unique<D>(list: Slots<D>, addr: u64, i: int)
    requires
        slots_apart(list),
        0 <= i < list.len(),
        list[i].0.covers(addr),
    ensures
        claim(list, addr) == Some(i),
{
    claim_law(list, addr);
    if let Some(j) = claim(list, addr) {
        if i < j {
            assert(list[j].0.meets(list[i].0));
        } else if j < i {
            assert(list[i].0.meets(list[j].0));
        }
    }
}

/// Registration keeps devices apart.
pub proof fn registration_keeps_apart<D>(
    pre: Slots<D>,
    range: BusRange,
    dev: D,
    post: Slots<D>,
    r: Result<(), BusError>,
)
    requires
        slots_apart(pre),
        registered(pre, range, dev, post, r),
    ensures
        slots_apart(post),
{
    clash_law(pre, range);
    assert forall|i: int, j: int| 0 <= i < j < post.len() implies !(#[trigger] post[j].0.meets(
        (#[trigger] post[i]).0,
    )) by {
        if j < pre.len() {
            assert(post[j] == pre[j] && post[i] == pre[i]);
            assert(!pre[j].0.meets(pre[i].0));
        } else {
            assert(post[i] == pre[i]);
        }
    }
}

/// An access keeps every device where it is, and so keeps devices apart.
pub proof fn access_keeps_apart<D: Device>(
    pre: Slots<D>,
    addr: u64,
    before: Seq<u8>,
    post: Slots<D>,
    after: Seq<u8>,
)
    requires
        space_read(pre, addr, before, post, after) || space_written(pre, addr, before, post),
    ensures
        post.len() == pre.len(),
        forall|i: int| 0 <= i < pre.len() ==> (#[trigger] post[i]).0 == pre[i].0,
        slots_apart(pre) ==> slots_apart(post),
{
    claim_law(pre, addr);
    if slots_apart(pre) {
        assert forall|i: int, j: int| 0 <= i < j < post.len() implies !(#[trigger] post[j].0.meets(
            (#[trigger] post[i]).0,
        )) by {
            assert(!pre[j].0.meets(pre[i].0));
        }
    }
}

/// The bus.
pub struct Bus<D> {
    mmio_devices: Vec<(BusRange, D)>,
    pio_devices: Vec<(BusRange, D)>,
}

impl<D> Bus<D> {
    /// The devices of the memory space.
    pub closed spec fn mmio(&self) -> Slots<D> {
        self.mmio_devices@
    }

    /// The devices of the port space.
    pub closed spec fn pio(&self) -> Slots<D> {
        self.pio_devices@
    }

}

impl<D: Device> Bus<D> {
    /// A bus without devices.
    pub fn new() -> (r: Self)
        ensures
            r.mmio() == Slots::<D>::empty(),
            r.pio() == Slots::<D>::empty(),
    {
        Bus { mmio_devices: Vec::new(), pio_devices: Vec::new() }
    }

    fn insert(list: &mut Vec<(BusRange, D)>, range: BusRange, dev: D) -> (r: Result<(), BusError>)
        ensures
            registered(old(list)@, range, dev, final(list)@, r),
    {
        let mut i: usize = 0;
        while i < list.len()
            invariant
                i <= list@.len(),
                list@ == old(list)@,
                clash(list@.take(i as int), range) is None,
            decreases list@.len() - i,
        {
            proof {
                assert(list@.take(i + 1).drop_last() =~= list@.take(i as int));
                clash_prefix(list@, range, i + 1);
            }
            let ex = list[i].0;
            if range.start < ex.end && ex.start < range.end {
                return Err(
                    BusError::Overlap {
                        new_start: range.start,
                        new_end: range.end,
                        ex_start: ex.start,
                        ex_end: ex.end,
                    },
                );
            }
            i += 1;
        }
        assert(list@.take(list@.len() as int) =~= list@);
        list.push((range, dev));
        Ok(())
    }

    /// Registers a device in the memory space.
    pub fn register_mmio(&mut self, range: BusRange, dev: D) -> (r: Result<(), BusError>)
        ensures
            registered(old(self).mmio(), range, dev, final(self).mmio(), r),
            final(self).pio() == old(self).pio(),
    {
        Self::insert(&mut self.mmio_devices, range, dev)
    }

    /// Registers a device in the port space.
    pub fn register_pio(&mut self, range: BusRange, dev: D) -> (r: Result<(), BusError>)
        ensures
            registered(old(self).pio(), range, dev, final(self).pio(), r),
            final(self).mmio() == old(self).mmio(),
    {
        Self::insert(&mut self.pio_devices, range, dev)
    }

    /// How many devices are in the memory space.
    pub fn mmio_count(&self) -> (r: usize)
        ensures
            r == self.mmio().len(),
    {
        self.mmio_devices.len()
    }

    /// How many devices are in the port space.
    pub fn pio_count(&self) -> (r: usize)
        ensures
            r == self.pio().len(),
    {
        self.pio_devices.len()
    }

    /// A device of the memory space.
    pub fn mmio_device(&self, i: usize) -> (d: &D)
        requires
            i < self.mmio().len(),
        ensures
            *d == self.mmio()[i as int].1,
    {
        &self.mmio_devices[i].1
    }

    /// A device of the memory space, to be changed.
    pub fn mmio_device_mut(&mut self, i: usize) -> (d: &mut D)
        requires
            i < old(self).mmio().len(),
        ensures
            *d == old(self).mmio()[i as int].1,
            final(self).mmio() == old(self).mmio().update(
                i as int,
                (old(self).mmio()[i as int].0, *final(d)),
            ),
            final(self).pio() == old(self).pio(),
    {
        &mut self.mmio_devices[i].1
    }

    /// A device of the port space, to be changed.
    pub fn pio_device_mut(&mut self, i: usize) -> (d: &mut D)
        requires
            i < old(self).pio().len(),
        ensures
            *d == old(self).pio()[i as int].1,
            final(self).pio() == old(self).pio().update(
                i as int,
                (old(self).pio()[i as int].0, *final(d)),
            ),
            final(self).mmio() == old(self).mmio(),
    {
        &mut self.pio_devices[i].1
    }

    fn find(list: &Vec<(BusRange, D)>, addr: u64) -> (r: Option<(u64, usize)>)
        ensures
            match r {
                Some((offset, i)) => claim(list@, addr) == Some(i as int) && i < list@.len()
                    && list@[i as int].0.covers(addr) && offset == addr - list@[i as int].0.start,
                None => claim(list@, addr) is None,
            },
    {
        let mut i: usize = 0;
        while i < list.len()
            invariant
                i <= list@.len(),
                claim(list@.take(i as int), addr) is None,
            decreases list@.len() - i,
        {
            proof {
                assert(list@.take(i + 1).drop_last() =~= list@.take(i as int));
            }
            let r = list[i].0;
            if r.contains(addr) {
                proof {
                    claim_prefix(list@, addr, i + 1);
                }
                return Some((addr - r.start, i));
            }
            i += 1;
        }
        assert(list@.take(list@.len() as int) =~= list@);
        None
    }

    fn read_space(list: &mut Vec<(BusRange, D)>, addr: u64, data: &mut [u8])
        ensures
            space_read(old(list)@, addr, old(data)@, final(list)@, final(data)@),
            final(data)@.len() == old(data)@.len(),
    {
        match Self::find(list, addr) {
            Some((offset, i)) => {
                let slot = &mut list[i];
                slot.1.read(offset, data);
            },
            None => {
                bytes::fill(data, 0xff);
            },
        }
    }

    fn write_space(list: &mut Vec<(BusRange, D)>, addr: u64, data: &[u8])
        ensures
            space_written(old(list)@, addr, data@, final(list)@),
    {
        if let Some((offset, i)) = Self::find(list, addr) {
            let slot = &mut list[i];
            slot.1.write(offset, data);
        }
    }

    /// Reads from the memory space.
    pub fn read_mmio(&mut self, addr: u64, data: &mut [u8])
        ensures
            space_read(old(self).mmio(), addr, old(data)@, final(self).mmio(), final(data)@),
            final(self).pio() == old(self).pio(),
            final(data)@.len() == old(data)@.len(),
    {
        Self::read_space(&mut self.mmio_devices, addr, data)
    }

    /// Writes to the memory space.
    pub fn write_mmio(&mut self, addr: u64, data: &[u8])
        ensures
            space_written(old(self).mmio(), addr, data@, final(self).mmio()),
            final(self).pio() == old(self).pio(),
    {
        Self::write_space(&mut self.mmio_devices, addr, data)
    }

    /// Reads from the port space.
    pub fn read_pio(&mut self, port: u64, data: &mut [u8])
        ensures
            space_read(old(self).pio(), port, old(data)@, final(self).pio(), final(data)@),
            final(self).mmio() == old(self).mmio(),
            final(data)@.len() == old(data)@.len(),
    {
        Self::read_space(&mut self.pio_devices, port, data)
    }

    /// Writes to the port space.
    pub fn write_pio(&mut self, port: u64, data: &[u8])
        ensures
            space_written(old(self).pio(), port, data@, final(self).pio()),
            final(self).mmio() == old(self).mmio(),
    {
        Self::write_space(&mut self.pio_devices, port, data)
    }
}

/// A claim among the first devices is the claim among all.
proof fn claim_prefix<D>(list: Slots<D>, addr: u64, k: int)
    requires
        0 <= k <= list.len(),
        claim(list.take(k), addr) is Some,
    ensures
        claim(list, addr) == claim(list.take(k), addr),
    decreases list.len() - k,
{
    if k < list.len() {
        assert(list.take(k + 1).drop_last() =~= list.take(k));
        claim_prefix(list, addr, k + 1);
    } else {
        assert(list.take(k) =~= list);
    }
}

/// A clash with the first devices is the clash with all.
proof fn clash_prefix<D>(list: Slots<D>, range: BusRange, k: int)
    requires
        0 <= k <= list.len(),
    ensures
        clash(list.take(k), range) is Some ==> clash(list, range) == clash(list.take(k), range),
    decreases list.len() - k,
{
    if k < list.len() {
        assert(list.take(k + 1).drop_last() =~= list.take(k));
        clash_prefix(list, range, k + 1);
    } else {
        assert(list.take(k) =~= list);
    }
}

} // verus!
