use std::cell::RefCell;
use std::rc::Rc;

use vmm::devices::device::{Device, IrqLine, NullIrq};
use vmm::devices::virtio::block::{
    capacity_of, sector_offset, BlkReqHeader, BlockError, SECTOR_SIZE, VIRTIO_BLK_S_IOERR,
    VIRTIO_BLK_S_OK, VIRTIO_BLK_S_UNSUPP, VIRTIO_BLK_T_FLUSH, VIRTIO_BLK_T_IN, VIRTIO_BLK_T_OUT,
};
use vmm::devices::virtio::guest::{read_guest, write_guest, GuestAccess};
use vmm::devices::virtio::mmio::{DiskOp, DiskReply, VirtioBlkMmio};
use vmm::devices::virtio::mmio_regs as reg;
use vmm::devices::virtio::net::{
    encode_net_hdr, NetBackend, VirtioNetHdr, VIRTIO_NET_HDR_LEN,
};
use vmm::devices::virtio::net_mmio::{
    VirtioNetMmio, RX_QUEUE, TX_QUEUE, VIRTIO_NET_S_LINK_UP,
};
use vmm::devices::virtio::queue::{
    QueueConfig, VirtQueue, VIRTQ_DESC_F_NEXT, VIRTQ_DESC_F_WRITE,
};
use vmm::devices::virtio::regs::INT_USED_RING;
use vmm::devices::virtio::{
    VIRTIO_ID_BLOCK, VIRTIO_ID_NET, VIRTIO_MMIO_MAGIC, VIRTIO_MMIO_VERSION,
};

/// Flat little-endian guest RAM (base 0), shared by its clones.
#[derive(Clone)]
struct FakeRam(Rc<RefCell<Vec<u8>>>);
impl FakeRam {
    fn new(size: usize) -> Self {
        FakeRam(Rc::new(RefCell::new(vec![0u8; size])))
    }
}
impl GuestAccess for FakeRam {
    fn read_u16(&self, gpa: u64) -> Option<u16> {
        let m = self.0.borrow();
        let i = gpa as usize;
        Some(u16::from_le_bytes(m.get(i..i.checked_add(2)?)?.try_into().unwrap()))
    }
    fn read_u32(&self, gpa: u64) -> Option<u32> {
        let m = self.0.borrow();
        let i = gpa as usize;
        Some(u32::from_le_bytes(m.get(i..i.checked_add(4)?)?.try_into().unwrap()))
    }
    fn read_u64(&self, gpa: u64) -> Option<u64> {
        let m = self.0.borrow();
        let i = gpa as usize;
        Some(u64::from_le_bytes(m.get(i..i.checked_add(8)?)?.try_into().unwrap()))
    }
    fn write_u16(&mut self, gpa: u64, v: u16) -> Option<()> {
        let mut m = self.0.borrow_mut();
        let i = gpa as usize;
        m.get_mut(i..i.checked_add(2)?)?.copy_from_slice(&v.to_le_bytes());
        Some(())
    }
    fn write_u32(&mut self, gpa: u64, v: u32) -> Option<()> {
        let mut m = self.0.borrow_mut();
        let i = gpa as usize;
        m.get_mut(i..i.checked_add(4)?)?.copy_from_slice(&v.to_le_bytes());
        Some(())
    }
}

/// A line whose level can be seen.
#[derive(Clone)]
struct Level(Rc<RefCell<bool>>);
impl Level {
    fn new() -> Self {
        Level(Rc::new(RefCell::new(false)))
    }
}
impl IrqLine for Level {
    fn set(&mut self, active: bool) {
        *self.0.borrow_mut() = active;
    }
}

/// A backend that records transmitted frames and hands out queued ones.
#[derive(Clone)]
struct CaptureBackend {
    tx: Rc<RefCell<Vec<Vec<u8>>>>,
    rx: Rc<RefCell<Vec<Vec<u8>>>>,
    broken: bool,
}
impl CaptureBackend {
    fn new() -> Self {
        CaptureBackend {
            tx: Rc::new(RefCell::new(Vec::new())),
            rx: Rc::new(RefCell::new(Vec::new())),
            broken: false,
        }
    }
}
impl NetBackend for CaptureBackend {
    fn transmit(&mut self, frame: &[u8]) -> std::io::Result<()> {
        self.tx.borrow_mut().push(frame.to_vec());
        Ok(())
    }
    fn receive(&mut self) -> std::io::Result<Option<Vec<u8>>> {
        if self.broken {
            return Err(std::io::Error::from(std::io::ErrorKind::Other));
        }
        let mut q = self.rx.borrow_mut();
        if q.is_empty() {
            Ok(None)
        } else {
            Ok(Some(q.remove(0)))
        }
    }
}

fn rd32<D: Device>(dev: &mut D, off: u64) -> u32 {
    let mut b = [0u8; 4];
    dev.read(off, &mut b);
    u32::from_le_bytes(b)
}
fn wr32<D: Device>(dev: &mut D, off: u64, v: u32) {
    dev.write(off, &v.to_le_bytes());
}
fn write_desc(ram: &mut FakeRam, table: u64, idx: u64, addr: u64, len: u32, flags: u16, next: u16) {
    let base = table + idx * 16;
    ram.write_u32(base, addr as u32).unwrap();
    ram.write_u32(base + 4, (addr >> 32) as u32).unwrap();
    ram.write_u32(base + 8, len).unwrap();
    ram.write_u16(base + 12, flags).unwrap();
    ram.write_u16(base + 14, next).unwrap();
}
fn program<D: Device>(dev: &mut D, sel: u32) {
    wr32(dev, reg::QUEUE_SEL, sel);
    wr32(dev, reg::QUEUE_NUM, 4);
    wr32(dev, reg::QUEUE_DESC_LOW, 0x100);
    wr32(dev, reg::QUEUE_AVAIL_LOW, 0x200);
    wr32(dev, reg::QUEUE_USED_LOW, 0x300);
    wr32(dev, reg::QUEUE_READY, 1);
}

#[test]
fn pops_available_chain_and_records_used() {
    let mut mem = FakeRam::new(0x1000);
    // Layout: desc@0x100, avail@0x200, used@0x300, size 4.
    let cfg = QueueConfig {
        size: 4,
        desc_table: 0x100,
        avail_ring: 0x200,
        used_ring: 0x300,
        ready: true,
    };
    // desc[0]: addr=0x800, len=16, flags=NEXT, next=1
    mem.write_u32(0x100, 0).unwrap();
    mem.0.borrow_mut()[0x100..0x108].copy_from_slice(&0x800u64.to_le_bytes());
    mem.write_u32(0x108, 16).unwrap();
    mem.write_u16(0x10c, VIRTQ_DESC_F_NEXT).unwrap();
    mem.write_u16(0x10e, 1).unwrap();
    // desc[1]: addr=0x900, len=8, flags=WRITE, next=0
    mem.0.borrow_mut()[0x110..0x118].copy_from_slice(&0x900u64.to_le_bytes());
    mem.write_u32(0x118, 8).unwrap();
    mem.write_u16(0x11c, VIRTQ_DESC_F_WRITE).unwrap();
    // avail: idx=1, ring[0]=0
    mem.write_u16(0x202, 1).unwrap();
    mem.write_u16(0x204, 0).unwrap();

    let mut vq = VirtQueue::new(cfg, 0);
    let head = vq.pop_avail(&mem).expect("one available");
    assert_eq!(head, 0);
    let chain = vq.chain(&mem, head);
    assert_eq!(chain.len(), 2);
    assert_eq!(chain[0].addr, 0x800);
    assert!(chain[1].is_write_only());

    vq.add_used(&mut mem, head, 24).unwrap();
    assert_eq!(mem.read_u16(0x302).unwrap(), 1); // used.idx bumped
    assert_eq!(mem.read_u32(0x304).unwrap(), 0); // used.ring[0].id
    assert_eq!(mem.read_u32(0x308).unwrap(), 24); // used.ring[0].len

    assert!(vq.pop_avail(&mem).is_none()); // ring drained
    assert_eq!(vq.last_avail_idx(), 1);
    assert_eq!(vq.avail_idx(&mem), Some(1));
    assert!(chain[0].has_next());
}

#[test]
fn looping_chain_is_cut_and_rings_wrap() {
    let mut mem = FakeRam::new(0x1000);
    let cfg = QueueConfig { size: 3, desc_table: 0x100, avail_ring: 0x200, used_ring: 0x300, ready: true };
    write_desc(&mut mem, 0x100, 0, 0x800, 4, VIRTQ_DESC_F_NEXT, 0);
    let mut vq = VirtQueue::new(cfg, 0xffff);
    assert_eq!(vq.chain(&mem, 0).len(), 3);
    mem.write_u16(0x202, 0).unwrap();
    // 0xffff % 3 == 0
    mem.write_u16(0x204, 7).unwrap();
    assert_eq!(vq.pop_avail(&mem), Some(7));
    assert_eq!(vq.last_avail_idx(), 0);
    assert_eq!(vq.pop_avail(&mem), None);
    mem.write_u16(0x302, 0xffff).unwrap();
    vq.add_used(&mut mem, 9, 1).unwrap();
    assert_eq!(mem.read_u16(0x302), Some(0));
    assert_eq!(mem.read_u32(0x304), Some(9));
    // Out of reach: no descriptor, no element.
    let far = QueueConfig { size: 4, desc_table: u64::MAX, avail_ring: 0x5000, used_ring: 0xfffe, ready: true };
    let mut vq = VirtQueue::new(far, 0);
    assert!(vq.descriptor(&mem, 0).is_none());
    assert!(vq.pop_avail(&mem).is_none());
    assert!(vq.add_used(&mut mem, 0, 0).is_none());
    assert!(vq.chain(&mem, 0).is_empty());
}

#[test]
fn byte_runs_read_back() {
    let mut mem = FakeRam::new(0x100);
    for n in 0..10usize {
        let data: Vec<u8> = (1..=n as u8).collect();
        mem.0.borrow_mut().fill(0xee);
        assert!(write_guest(&mut mem, 0x10, &data));
        assert_eq!(read_guest(&mem, 0x10, n), Some(data));
        // The bytes on both sides stay, behind an odd last one too.
        assert_eq!(mem.0.borrow()[0x0f], 0xee);
        assert_eq!(mem.0.borrow()[0x10 + n], 0xee);
    }
    // The last byte does not fit; the words before it are written.
    assert!(!write_guest(&mut mem, 0xf8, &[1, 2, 3, 4, 5, 6, 7, 8, 9]));
    assert_eq!(mem.0.borrow()[0xf8..], [1, 2, 3, 4, 5, 6, 7, 8]);
    assert_eq!(read_guest(&mem, 0xf8, 9), None);
    assert_eq!(read_guest(&mem, u64::MAX, 4), None);
    assert_eq!(read_guest(&mem, u64::MAX, 1), None);
}

#[test]
fn odd_runs_reach_the_end_of_memory() {
    let mut mem = FakeRam::new(0x100);
    mem.0.borrow_mut().fill(0xee);
    assert!(write_guest(&mut mem, 0xff, &[7]));
    assert_eq!(mem.0.borrow()[0xfe..], [0xee, 7]);
    assert_eq!(read_guest(&mem, 0xff, 1), Some(vec![7]));
    assert!(write_guest(&mut mem, 0xfb, &[1, 2, 3, 4, 5]));
    assert_eq!(mem.0.borrow()[0xfa..], [0xee, 1, 2, 3, 4, 5]);
    assert_eq!(read_guest(&mem, 0xfd, 3), Some(vec![3, 4, 5]));
    assert!(write_guest(&mut mem, 0, &[9]));
    assert_eq!(mem.0.borrow()[..2], [9, 0xee]);
    // A memory of one byte has no word to reach it by.
    let mut tiny = FakeRam::new(1);
    assert!(!write_guest(&mut tiny, 0, &[9]));
    assert_eq!(read_guest(&tiny, 0, 1), None);
    assert_eq!(tiny.0.borrow()[..], [0]);
}

#[test]
fn header_roundtrips() {
    let mut b = Vec::new();
    b.extend_from_slice(&VIRTIO_BLK_T_OUT.to_le_bytes());
    b.extend_from_slice(&0u32.to_le_bytes());
    b.extend_from_slice(&42u64.to_le_bytes());
    let h = BlkReqHeader::parse(&b).unwrap();
    assert_eq!(h.req_type, VIRTIO_BLK_T_OUT);
    assert_eq!(h.sector, 42);
    assert_eq!(h.reserved, 0);
    assert!(BlkReqHeader::parse(&b[..15]).is_none());
}

#[test]
fn sectors_of_an_image() {
    assert_eq!(capacity_of(2048 * 512 + 511), 2048);
    assert_eq!(sector_offset(3), Some(1536));
    assert_eq!(sector_offset(u64::MAX), None);
    let e = BlockError::Io(std::io::Error::from(std::io::ErrorKind::Other));
    assert_eq!(e.message_with("gone"), "disk I/O error: gone");
}

fn blk(capacity: u64, mem: FakeRam) -> VirtioBlkMmio<FakeRam, NullIrq> {
    VirtioBlkMmio::new(capacity, mem, NullIrq)
}

#[test]
fn mmio_magic_version_and_device_id() {
    let mut dev = blk(8, FakeRam::new(0x1000));
    assert_eq!(rd32(&mut dev, reg::MAGIC_VALUE), VIRTIO_MMIO_MAGIC);
    assert_eq!(rd32(&mut dev, reg::VERSION), VIRTIO_MMIO_VERSION);
    assert_eq!(rd32(&mut dev, reg::DEVICE_ID), VIRTIO_ID_BLOCK);
}

#[test]
fn capacity_reported_in_config_space() {
    let mut dev = blk(2048, FakeRam::new(0x1000));
    let mut b = [0u8; 8];
    dev.read(reg::CONFIG, &mut b);
    assert_eq!(u64::from_le_bytes(b), 2048);
    dev.read(reg::CONFIG + 1, &mut b);
    assert_eq!(u64::from_le_bytes(b), 8);
    dev.read(u64::MAX, &mut b);
    assert_eq!(b, [0; 8]);
}

#[test]
fn features_advertise_version_1() {
    let mut dev = blk(8, FakeRam::new(0x1000));
    // High 32 bits (sel=1) must have bit 0 set (VIRTIO_F_VERSION_1 = bit 32).
    wr32(&mut dev, reg::DEVICE_FEATURES_SEL, 1);
    assert_eq!(rd32(&mut dev, reg::DEVICE_FEATURES) & 1, 1);
}

/// Serves the device's disk operations on `disk`.
fn run_disk<I: IrqLine>(dev: &mut VirtioBlkMmio<FakeRam, I>, disk: &mut Vec<u8>) -> usize {
    let mut n = 0;
    loop {
        let reply = match dev.disk_op() {
            None => return n,
            Some(DiskOp::Read { sector, len }) => {
                let at = sector_offset(*sector).unwrap() as usize;
                match disk.get(at..at + *len) {
                    Some(b) => DiskReply::Data(b.to_vec()),
                    None => DiskReply::Failed,
                }
            }
            Some(DiskOp::Write { sector, data }) => {
                let at = sector_offset(*sector).unwrap() as usize;
                match disk.get_mut(at..at + data.len()) {
                    Some(b) => {
                        b.copy_from_slice(data);
                        DiskReply::Done
                    }
                    None => DiskReply::Failed,
                }
            }
            Some(DiskOp::Flush) => DiskReply::Done,
        };
        dev.disk_done(reply);
        n += 1;
    }
}

#[test]
fn full_read_request_roundtrip() {
    // Build a disk with a known pattern in sector 0.
    let mut disk = vec![0u8; 8 * SECTOR_SIZE as usize];
    disk[..SECTOR_SIZE as usize].fill(0xAB);

    // Guest RAM layout: desc@0x100, avail@0x200, used@0x300,
    // header@0x400, data@0x600, status@0x800.
    let mut ram = FakeRam::new(0x2000);
    let mut dev = blk(8, ram.clone());

    // Program the queue via MMIO.
    wr32(&mut dev, reg::QUEUE_SEL, 0);
    wr32(&mut dev, reg::QUEUE_NUM, 4);
    wr32(&mut dev, reg::QUEUE_DESC_LOW, 0x100);
    wr32(&mut dev, reg::QUEUE_AVAIL_LOW, 0x200);
    wr32(&mut dev, reg::QUEUE_USED_LOW, 0x300);
    wr32(&mut dev, reg::QUEUE_READY, 1);

    // Request header @0x400: type=IN(0), reserved=0, sector=0.
    ram.write_u32(0x400, VIRTIO_BLK_T_IN).unwrap();
    ram.write_u32(0x404, 0).unwrap();
    ram.write_u32(0x408, 0).unwrap();
    ram.write_u32(0x40c, 0).unwrap();

    // desc[0]: header, 16 bytes, NEXT -> 1
    write_desc(&mut ram, 0x100, 0, 0x400, 16, VIRTQ_DESC_F_NEXT, 1);
    // desc[1]: data, 512 bytes, WRITE|NEXT -> 2
    write_desc(
        &mut ram,
        0x100,
        1,
        0x600,
        SECTOR_SIZE as u32,
        VIRTQ_DESC_F_WRITE | VIRTQ_DESC_F_NEXT,
        2,
    );
    // desc[2]: status, 1 byte, WRITE
    write_desc(&mut ram, 0x100, 2, 0x800, 1, VIRTQ_DESC_F_WRITE, 0);
    ram.write_u16(0x800, 0xffff).unwrap();

    // avail: idx=1, ring[0]=0
    ram.write_u16(0x202, 1).unwrap();
    ram.write_u16(0x204, 0).unwrap();

    // Notify -> process.
    wr32(&mut dev, reg::QUEUE_NOTIFY, 0);
    assert_eq!(run_disk(&mut dev, &mut disk), 1);

    // Status byte should be OK, and the byte behind it is the guest's.
    let status = ram.read_u16(0x800).unwrap() & 0xff;
    assert_eq!(status as u8, VIRTIO_BLK_S_OK);
    assert_eq!(ram.read_u16(0x800).unwrap() >> 8, 0xff);
    // Data buffer should now contain the disk pattern.
    assert_eq!(ram.read_u32(0x600).unwrap(), 0xABAB_ABAB);
    // used.idx should have advanced.
    assert_eq!(ram.read_u16(0x302).unwrap(), 1);
    // interrupt status should show the used-ring bit.
    assert_eq!(rd32(&mut dev, reg::INTERRUPT_STATUS) & INT_USED_RING, INT_USED_RING);
    // The used element counts the data and the status byte.
    assert_eq!(ram.read_u32(0x308).unwrap(), 513);
}

/// A device with one request of one data buffer posted at 0x600.
fn one_request(kind: u32, sector: u64, len: u32, flags: u16) -> (FakeRam, VirtioBlkMmio<FakeRam, Level>, Level) {
    let mut ram = FakeRam::new(0x2000);
    let irq = Level::new();
    let mut dev = VirtioBlkMmio::new(8, ram.clone(), irq.clone());
    program(&mut dev, 0);
    ram.write_u32(0x400, kind).unwrap();
    ram.write_u32(0x408, sector as u32).unwrap();
    ram.write_u32(0x40c, (sector >> 32) as u32).unwrap();
    write_desc(&mut ram, 0x100, 0, 0x400, 16, VIRTQ_DESC_F_NEXT, 1);
    write_desc(&mut ram, 0x100, 1, 0x600, len, flags | VIRTQ_DESC_F_NEXT, 2);
    write_desc(&mut ram, 0x100, 2, 0x1800, 1, VIRTQ_DESC_F_WRITE, 0);
    ram.write_u16(0x1800, 0xffff).unwrap();
    ram.write_u16(0x202, 1).unwrap();
    (ram, dev, irq)
}

#[test]
fn write_request_reaches_the_disk() {
    let mut disk = vec![0u8; 8 * 512];
    let (ram, mut dev, irq) = one_request(VIRTIO_BLK_T_OUT, 2, 512, 0);
    ram.0.borrow_mut()[0x600..0x800].fill(0x5c);
    assert!(dev.disk_op().is_none());
    wr32(&mut dev, reg::QUEUE_NOTIFY, 0);
    // The interrupt waits for the disk.
    assert!(!*irq.0.borrow());
    match dev.disk_op() {
        Some(DiskOp::Write { sector, data }) => {
            assert_eq!(*sector, 2);
            assert_eq!(*data, vec![0x5c; 512]);
        }
        _ => panic!("expected a write"),
    }
    run_disk(&mut dev, &mut disk);
    assert!(*irq.0.borrow());
    assert_eq!(disk[1024..1536], [0x5c; 512]);
    assert_eq!(disk[1536], 0);
    assert_eq!(ram.0.borrow()[0x1800], VIRTIO_BLK_S_OK);
    assert_eq!(ram.read_u32(0x308), Some(1));
    // Acknowledging lowers the line.
    wr32(&mut dev, reg::INTERRUPT_ACK, 1);
    assert!(!*irq.0.borrow());
    assert_eq!(rd32(&mut dev, reg::INTERRUPT_STATUS), 0);
}

#[test]
fn disk_errors_are_reported_to_the_guest() {
    // Beyond the disk.
    let (ram, mut dev, _) = one_request(VIRTIO_BLK_T_IN, 100, 512, VIRTQ_DESC_F_WRITE);
    wr32(&mut dev, reg::QUEUE_NOTIFY, 0);
    run_disk(&mut dev, &mut vec![0u8; 512]);
    assert_eq!(ram.0.borrow()[0x1800], VIRTIO_BLK_S_IOERR);
    assert_eq!(ram.read_u32(0x308), Some(1));
    // A buffer that the device may not write.
    let (ram, mut dev, _) = one_request(VIRTIO_BLK_T_IN, 0, 512, 0);
    wr32(&mut dev, reg::QUEUE_NOTIFY, 0);
    assert!(dev.disk_op().is_none());
    assert_eq!(ram.0.borrow()[0x1800], VIRTIO_BLK_S_IOERR);
    // A reply that does not fit.
    let (ram, mut dev, _) = one_request(VIRTIO_BLK_T_IN, 0, 512, VIRTQ_DESC_F_WRITE);
    wr32(&mut dev, reg::QUEUE_NOTIFY, 0);
    dev.disk_done(DiskReply::Data(vec![1, 2, 3]));
    assert_eq!(ram.0.borrow()[0x1800], VIRTIO_BLK_S_IOERR);
    // A write that failed.
    let (ram, mut dev, _) = one_request(VIRTIO_BLK_T_OUT, 0, 512, 0);
    wr32(&mut dev, reg::QUEUE_NOTIFY, 0);
    dev.disk_done(DiskReply::Failed);
    assert_eq!(ram.0.borrow()[0x1800], VIRTIO_BLK_S_IOERR);
}

#[test]
fn flush_and_unknown_requests() {
    let (ram, mut dev, _) = one_request(VIRTIO_BLK_T_FLUSH, 0, 512, 0);
    wr32(&mut dev, reg::QUEUE_NOTIFY, 0);
    assert!(matches!(dev.disk_op(), Some(DiskOp::Flush)));
    // A second notification changes nothing while the job is under way.
    wr32(&mut dev, reg::QUEUE_NOTIFY, 0);
    dev.disk_done(DiskReply::Done);
    assert!(dev.disk_op().is_none());
    assert_eq!(ram.0.borrow()[0x1800], VIRTIO_BLK_S_OK);
    assert_eq!(ram.read_u16(0x302), Some(1));
    let (ram, mut dev, _) = one_request(77, 0, 512, 0);
    wr32(&mut dev, reg::QUEUE_NOTIFY, 0);
    assert_eq!(ram.0.borrow()[0x1800], VIRTIO_BLK_S_UNSUPP);
    // Without a job a reply does nothing.
    dev.disk_done(DiskReply::Done);
    assert_eq!(ram.read_u16(0x302), Some(1));
}

#[test]
fn buffers_take_the_sectors_in_order() {
    let mut disk: Vec<u8> = (0..8 * 512).map(|i| (i / 512) as u8).collect();
    let (mut ram, mut dev, _) = one_request(VIRTIO_BLK_T_IN, 3, 1024, VIRTQ_DESC_F_WRITE);
    // Another buffer behind the first, then the status.
    write_desc(&mut ram, 0x100, 2, 0xc00, 512, VIRTQ_DESC_F_WRITE | VIRTQ_DESC_F_NEXT, 3);
    write_desc(&mut ram, 0x100, 3, 0x1900, 1, VIRTQ_DESC_F_WRITE, 0);
    wr32(&mut dev, reg::QUEUE_NOTIFY, 0);
    assert_eq!(run_disk(&mut dev, &mut disk), 2);
    let m = ram.0.borrow();
    assert_eq!(m[0x600], 3);
    assert_eq!(m[0x800], 4);
    assert_eq!(m[0xc00], 5);
    assert_eq!(m[0x1900], VIRTIO_BLK_S_OK);
    drop(m);
    assert_eq!(ram.read_u32(0x308), Some(1537));
}

#[test]
fn job_serves_every_pending_request() {
    let mut ram = FakeRam::new(0x2000);
    let irq = Level::new();
    let mut dev = VirtioBlkMmio::new(8, ram.clone(), irq.clone());
    wr32(&mut dev, reg::QUEUE_NUM, 16);
    wr32(&mut dev, reg::QUEUE_DESC_LOW, 0x100);
    wr32(&mut dev, reg::QUEUE_AVAIL_LOW, 0x300);
    wr32(&mut dev, reg::QUEUE_USED_LOW, 0x400);
    wr32(&mut dev, reg::QUEUE_READY, 1);
    // Four requests of three descriptors: write, read, flush, unknown.
    for (i, kind) in [VIRTIO_BLK_T_OUT, VIRTIO_BLK_T_IN, VIRTIO_BLK_T_FLUSH, 9].iter().enumerate() {
        let i = i as u64;
        let (hdr, buf, status) = (0x600 + 0x20 * i, 0x800 + 0x200 * i, 0x700 + 2 * i);
        ram.write_u32(hdr, *kind).unwrap();
        let flags = if *kind == VIRTIO_BLK_T_IN { VIRTQ_DESC_F_WRITE } else { 0 };
        let d = 3 * i;
        write_desc(&mut ram, 0x100, d, hdr, 16, VIRTQ_DESC_F_NEXT, d as u16 + 1);
        write_desc(&mut ram, 0x100, d + 1, buf, 512, flags | VIRTQ_DESC_F_NEXT, d as u16 + 2);
        write_desc(&mut ram, 0x100, d + 2, status, 1, VIRTQ_DESC_F_WRITE, 0);
        ram.write_u16(0x304 + 2 * i, d as u16).unwrap();
        ram.write_u16(status, 0xffff).unwrap();
    }
    ram.0.borrow_mut()[0x800..0xa00].fill(0x3d);
    ram.write_u16(0x302, 4).unwrap();
    wr32(&mut dev, reg::QUEUE_NOTIFY, 0);
    let mut disk = vec![0u8; 8 * 512];
    assert_eq!(run_disk(&mut dev, &mut disk), 3);
    // What was written first is what is read after it.
    assert_eq!(ram.0.borrow()[0xa00..0xc00], [0x3d; 512]);
    assert_eq!(ram.read_u16(0x402), Some(4));
    let done: Vec<u8> = (0..4).map(|i| ram.0.borrow()[0x700 + 2 * i]).collect();
    assert_eq!(done, [VIRTIO_BLK_S_OK, VIRTIO_BLK_S_OK, VIRTIO_BLK_S_OK, VIRTIO_BLK_S_UNSUPP]);
    let lens: Vec<u32> = (0..4).map(|i| ram.read_u32(0x408 + 8 * i).unwrap()).collect();
    assert_eq!(lens, [1, 513, 1, 1]);
    assert!(*irq.0.borrow());
    // Nothing is pending: another notification serves nothing.
    wr32(&mut dev, reg::QUEUE_NOTIFY, 0);
    assert!(dev.disk_op().is_none());
    assert_eq!(ram.read_u16(0x402), Some(4));
}

#[test]
fn malformed_chain_is_given_back() {
    let mut ram = FakeRam::new(0x2000);
    let mut dev = blk(8, ram.clone());
    program(&mut dev, 0);
    write_desc(&mut ram, 0x100, 0, 0x400, 16, 0, 0);
    ram.write_u16(0x202, 1).unwrap();
    wr32(&mut dev, reg::QUEUE_NOTIFY, 0);
    assert_eq!(ram.read_u16(0x302), Some(1));
    assert_eq!(ram.read_u32(0x308), Some(0));
}

#[test]
fn reset_forgets_the_queue() {
    let (ram, mut dev, _) = one_request(VIRTIO_BLK_T_FLUSH, 0, 512, 0);
    wr32(&mut dev, reg::STATUS, 7);
    assert_eq!(rd32(&mut dev, reg::STATUS), 7);
    assert_eq!(rd32(&mut dev, reg::QUEUE_READY), 1);
    wr32(&mut dev, reg::STATUS, 0);
    assert_eq!(rd32(&mut dev, reg::STATUS), 0);
    assert_eq!(rd32(&mut dev, reg::QUEUE_READY), 0);
    wr32(&mut dev, reg::QUEUE_NOTIFY, 0);
    assert!(dev.disk_op().is_none());
    assert_eq!(ram.read_u16(0x302), Some(0));
    assert_eq!(rd32(&mut dev, reg::QUEUE_NUM_MAX), 256);
    assert_eq!(rd32(&mut dev, reg::VENDOR_ID), 0x554d_4551);
}

#[test]
fn header_parse() {
    let bytes = [0u8; VIRTIO_NET_HDR_LEN];
    assert!(VirtioNetHdr::parse(&bytes).is_some());
    assert!(VirtioNetHdr::parse(&bytes[..4]).is_none());
}

#[test]
fn net_header_reads_back() {
    let h = VirtioNetHdr {
        flags: 1,
        gso_type: 2,
        hdr_len: 0x1234,
        gso_size: 0x5678,
        csum_start: 0x9abc,
        csum_offset: 0xdef0,
    };
    let b = encode_net_hdr(&h);
    assert_eq!(b, [1, 2, 0x34, 0x12, 0x78, 0x56, 0xbc, 0x9a, 0xf0, 0xde, 1, 0]);
    let p = VirtioNetHdr::parse(&b).unwrap();
    assert_eq!(p.gso_size, 0x5678);
    assert_eq!(p.csum_offset, 0xdef0);
}

fn make(mem: FakeRam, be: CaptureBackend) -> VirtioNetMmio<CaptureBackend, FakeRam, NullIrq> {
    VirtioNetMmio::new(be, mem, NullIrq, [0x52, 0x54, 0x00, 0x12, 0x34, 0x56])
}

#[test]
fn net_mmio_magic_version_and_device_id() {
    let mut dev = make(FakeRam::new(0x1000), CaptureBackend::new());
    assert_eq!(rd32(&mut dev, reg::MAGIC_VALUE), VIRTIO_MMIO_MAGIC);
    assert_eq!(rd32(&mut dev, reg::VERSION), VIRTIO_MMIO_VERSION);
    assert_eq!(rd32(&mut dev, reg::DEVICE_ID), VIRTIO_ID_NET);
}

#[test]
fn mac_in_config_space() {
    let mut dev = make(FakeRam::new(0x1000), CaptureBackend::new());
    let mut b = [0u8; 6];
    dev.read(reg::CONFIG, &mut b);
    assert_eq!(b, [0x52, 0x54, 0x00, 0x12, 0x34, 0x56]);
}

#[test]
fn features_advertise_version_1_and_mac() {
    let mut dev = make(FakeRam::new(0x1000), CaptureBackend::new());
    // Low 32 bits: MAC feature is bit 5, STATUS feature is bit 16.
    let lo = rd32(&mut dev, reg::DEVICE_FEATURES);
    assert_eq!(lo & (1 << 5), 1 << 5);
    assert_eq!(lo & (1 << 16), 1 << 16);
    // High 32 bits (sel=1): VERSION_1 is bit 32 => bit 0 of the high word.
    wr32(&mut dev, reg::DEVICE_FEATURES_SEL, 1);
    assert_eq!(rd32(&mut dev, reg::DEVICE_FEATURES) & 1, 1);
}

#[test]
fn config_reports_link_up() {
    let mut dev = make(FakeRam::new(0x1000), CaptureBackend::new());
    // status word lives at config offset 6.
    let mut b = [0u8; 2];
    dev.read(reg::CONFIG + 6, &mut b);
    assert_eq!(u16::from_le_bytes(b), VIRTIO_NET_S_LINK_UP);
}

#[test]
fn tx_frame_reaches_backend() {
    // RAM: desc@0x100, avail@0x200, used@0x300, hdr@0x400, frame@0x420.
    let mut ram = FakeRam::new(0x2000);
    let be = CaptureBackend::new();
    let mut dev = make(ram.clone(), be.clone());

    // Select + program the TX queue (queue index 1).
    wr32(&mut dev, reg::QUEUE_SEL, TX_QUEUE);
    wr32(&mut dev, reg::QUEUE_NUM, 4);
    wr32(&mut dev, reg::QUEUE_DESC_LOW, 0x100);
    wr32(&mut dev, reg::QUEUE_AVAIL_LOW, 0x200);
    wr32(&mut dev, reg::QUEUE_USED_LOW, 0x300);
    wr32(&mut dev, reg::QUEUE_READY, 1);

    // A 12-byte net header (all zero) followed by a 4-byte "frame".
    let frame = [0xDE, 0xAD, 0xBE, 0xEF];
    // desc[0]: header, 12 bytes, NEXT -> 1 (device-readable)
    write_desc(&mut ram, 0x100, 0, 0x400, 12, VIRTQ_DESC_F_NEXT, 1);
    // desc[1]: frame, 4 bytes (device-readable, no WRITE)
    write_desc(&mut ram, 0x100, 1, 0x420, frame.len() as u32, 0, 0);
    for (i, byte) in frame.iter().enumerate() {
        ram.0.borrow_mut()[0x420 + i] = *byte;
    }
    // avail: idx=1, ring[0]=0
    ram.write_u16(0x202, 1).unwrap();
    ram.write_u16(0x204, 0).unwrap();

    // Notify the TX queue.
    wr32(&mut dev, reg::QUEUE_NOTIFY, TX_QUEUE);

    let sent = be.tx.borrow();
    assert_eq!(sent.len(), 1, "one frame should have been transmitted");
    assert_eq!(sent[0], frame, "net header stripped, frame delivered");
    assert_eq!(ram.read_u16(0x302).unwrap(), 1, "used.idx bumped");
}

#[test]
fn rx_frame_delivered_to_guest() {
    // RAM: desc@0x100, avail@0x200, used@0x300, rxbuf@0x400 (2KiB).
    let mut ram = FakeRam::new(0x2000);
    let mut dev = make(ram.clone(), CaptureBackend::new());

    // Program the RX queue (index 0) with one big device-writable buffer.
    wr32(&mut dev, reg::QUEUE_SEL, RX_QUEUE);
    wr32(&mut dev, reg::QUEUE_NUM, 4);
    wr32(&mut dev, reg::QUEUE_DESC_LOW, 0x100);
    wr32(&mut dev, reg::QUEUE_AVAIL_LOW, 0x200);
    wr32(&mut dev, reg::QUEUE_USED_LOW, 0x300);
    wr32(&mut dev, reg::QUEUE_READY, 1);

    // desc[0]: 0x400, 1600 bytes, WRITE (device-writable RX buffer)
    write_desc(&mut ram, 0x100, 0, 0x400, 1600, VIRTQ_DESC_F_WRITE, 0);
    ram.write_u16(0x202, 1).unwrap(); // avail.idx = 1
    ram.write_u16(0x204, 0).unwrap(); // avail.ring[0] = 0

    // Host frame arrives.
    let frame = [0x11, 0x22, 0x33, 0x44, 0x55];
    assert!(dev.deliver_rx(&frame), "RX buffer available");

    // Guest buffer: 12-byte net header (num_buffers=1 at bytes 10..12),
    // then the frame.
    let m = ram.0.borrow();
    for h in &m[0x400..0x400 + 10] {
        assert_eq!(*h, 0, "net header flags/gso/csum are zeroed");
    }
    assert_eq!(&m[0x40a..0x40c], &1u16.to_le_bytes(), "num_buffers == 1");
    assert_eq!(&m[0x40c..0x40c + 5], &frame, "frame follows the header");
    drop(m);

    assert_eq!(ram.read_u16(0x302).unwrap(), 1, "used.idx bumped");
    // used.len = header (12) + frame (5) = 17
    assert_eq!(ram.read_u32(0x308).unwrap(), (VIRTIO_NET_HDR_LEN + 5) as u32);
}

#[test]
fn rx_with_no_buffer_returns_false() {
    let mut dev = make(FakeRam::new(0x1000), CaptureBackend::new());
    // RX queue never made ready => no buffer.
    assert!(!dev.deliver_rx(&[1, 2, 3]));
}

#[test]
fn tx_queue_is_drained_in_order() {
    let mut ram = FakeRam::new(0x2000);
    let be = CaptureBackend::new();
    let irq = Level::new();
    let mut dev = VirtioNetMmio::new(be.clone(), ram.clone(), irq.clone(), [0; 6]);
    program(&mut dev, TX_QUEUE);
    for i in 0..3u64 {
        write_desc(&mut ram, 0x100, i, 0x400 + 0x40 * i, 13, 0, 0);
        ram.0.borrow_mut()[(0x400 + 0x40 * i + 12) as usize] = i as u8;
        ram.write_u16(0x204 + 2 * i, i as u16).unwrap();
    }
    // A header alone is no frame.
    write_desc(&mut ram, 0x100, 3, 0x400, 12, 0, 0);
    ram.write_u16(0x20a, 3).unwrap();
    ram.write_u16(0x202, 4).unwrap();
    // A notification of the receive queue does nothing.
    wr32(&mut dev, reg::QUEUE_NOTIFY, RX_QUEUE);
    assert!(be.tx.borrow().is_empty());
    wr32(&mut dev, reg::QUEUE_NOTIFY, TX_QUEUE);
    assert_eq!(*be.tx.borrow(), vec![vec![0u8], vec![1], vec![2]]);
    assert_eq!(ram.read_u16(0x302), Some(4));
    assert!(*irq.0.borrow());
    assert_eq!(rd32(&mut dev, reg::INTERRUPT_STATUS), 1);
    // Nothing is left: another notification sends nothing and raises nothing.
    wr32(&mut dev, reg::INTERRUPT_ACK, 1);
    assert!(!*irq.0.borrow());
    wr32(&mut dev, reg::QUEUE_NOTIFY, TX_QUEUE);
    assert_eq!(be.tx.borrow().len(), 3);
    assert!(!*irq.0.borrow());
}

#[test]
fn held_frame_is_delivered_first() {
    let mut ram = FakeRam::new(0x2000);
    let be = CaptureBackend::new();
    let mut dev = make(ram.clone(), be.clone());
    program(&mut dev, RX_QUEUE);
    be.rx.borrow_mut().push(vec![1, 1]);
    be.rx.borrow_mut().push(vec![2, 2, 2]);
    // No buffer is posted: the first frame is held, and the host is asked no more.
    assert!(!dev.poll_rx_once().unwrap());
    assert!(!dev.poll_rx_once().unwrap());
    assert_eq!(be.rx.borrow().len(), 1);
    // A buffer of two parts: the frame is spread over them.
    write_desc(&mut ram, 0x100, 0, 0x400, 10, VIRTQ_DESC_F_WRITE | VIRTQ_DESC_F_NEXT, 1);
    write_desc(&mut ram, 0x100, 1, 0x800, 100, VIRTQ_DESC_F_WRITE, 0);
    write_desc(&mut ram, 0x100, 2, 0xc00, 100, VIRTQ_DESC_F_WRITE, 0);
    ram.write_u16(0x204, 0).unwrap();
    ram.write_u16(0x206, 2).unwrap();
    ram.write_u16(0x202, 2).unwrap();
    assert!(dev.poll_rx_once().unwrap());
    assert_eq!(ram.0.borrow()[0x800..0x804], [1, 0, 1, 1]);
    assert_eq!(ram.read_u32(0x308), Some(14));
    assert!(dev.poll_rx_once().unwrap());
    assert_eq!(ram.0.borrow()[0xc0c..0xc0f], [2, 2, 2]);
    assert!(!dev.poll_rx_once().unwrap());
    let mut bad = CaptureBackend::new();
    bad.broken = true;
    let mut dev = make(FakeRam::new(0x100), bad);
    assert!(dev.poll_rx_once().is_err());
}

#[test]
fn queue_addresses_come_in_halves() {
    let mut dev = make(FakeRam::new(0x1000), CaptureBackend::new());
    wr32(&mut dev, reg::QUEUE_SEL, 5); // no such queue
    wr32(&mut dev, reg::QUEUE_READY, 1);
    assert_eq!(rd32(&mut dev, reg::QUEUE_READY), 0);
    wr32(&mut dev, reg::QUEUE_SEL, TX_QUEUE);
    wr32(&mut dev, reg::QUEUE_READY, 3);
    assert_eq!(rd32(&mut dev, reg::QUEUE_READY), 1);
    wr32(&mut dev, reg::QUEUE_SEL, RX_QUEUE);
    assert_eq!(rd32(&mut dev, reg::QUEUE_READY), 0);
    // A short write fills up with zeros, a long read too.
    dev.write(reg::STATUS, &[5]);
    let mut b = [9u8; 6];
    dev.read(reg::STATUS, &mut b);
    assert_eq!(b, [5, 0, 0, 0, 0, 0]);
    // High halves count: this ring is out of reach.
    wr32(&mut dev, reg::QUEUE_NUM, 4);
    wr32(&mut dev, reg::QUEUE_AVAIL_HIGH, 1);
    wr32(&mut dev, reg::QUEUE_READY, 1);
    assert!(!dev.deliver_rx(&[1]));
}
