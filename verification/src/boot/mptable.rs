//! MultiProcessor tables: without them a guest finds neither its local APICs nor its IO-APIC,
//! and its timer interrupt does not arrive.
//!
//! The tables describe the processors, the ISA bus, one IO-APIC and how the ISA interrupts
//! reach it.

use vstd::prelude::*;

use super::layout;
use crate::bytes;

verus! {

const FLOATING_PTR_LEN: usize = 16;

const CONFIG_HEADER_LEN: usize = 44;

const ENTRY_PROCESSOR: u8 = 0;

const ENTRY_BUS: u8 = 1;

const ENTRY_IOAPIC: u8 = 2;

const ENTRY_IOINTR: u8 = 3;

const ENTRY_LOCALINTR: u8 = 4;

/// A vectored interrupt.
const INT_TYPE_INT: u8 = 0;

const INT_TYPE_NMI: u8 = 1;

/// An interrupt of the 8259 kind.
const INT_TYPE_EXTINT: u8 = 3;

/// The sum of all bytes.
pub open spec fn byte_sum(s: Seq<u8>) -> int
    decreases s.len(),
{
    if s.len() == 0 {
        0
    } else {
        byte_sum(s.drop_last()) + s.last()
    }
}

/// The byte that makes the sum of `s` and itself a multiple of 256.
pub open spec fn checksum_of(s: Seq<u8>) -> u8 {
    ((0x100 - byte_sum(s) % 0x100) % 0x100) as u8
}

/// "_MP_"
pub open spec fn floating_signature() -> Seq<u8> {
    seq![0x5f, 0x4d, 0x50, 0x5f]
}

/// "PCMP"
pub open spec fn config_signature() -> Seq<u8> {
    seq![0x50, 0x43, 0x4d, 0x50]
}

/// "PHOENIX "
pub open spec fn oem_id() -> Seq<u8> {
    seq![0x50, 0x48, 0x4f, 0x45, 0x4e, 0x49, 0x58, 0x20]
}

/// "VMM 0.1     "
pub open spec fn product_id() -> Seq<u8> {
    seq![0x56, 0x4d, 0x4d, 0x20, 0x30, 0x2e, 0x31, 0x20, 0x20, 0x20, 0x20, 0x20]
}

/// The entry of processor `i`: enabled, and the boot processor where it is the first.
pub open spec fn cpu_entry(i: int) -> Seq<u8> {
    seq![
        0u8,
        i as u8,
        0x14,
        if i == 0 {
            3
        } else {
            1
        },
    ] + bytes::le32(0x600) + bytes::le32(0x201) + bytes::zeros(8)
}

/// The entries of the first `n` processors.
pub open spec fn cpu_entries(n: nat) -> Seq<u8>
    decreases n,
{
    if n == 0 {
        seq![]
    } else {
        cpu_entries((n - 1) as nat) + cpu_entry(n - 1)
    }
}

/// The entry of the ISA bus, number 0.
pub open spec fn bus_entry() -> Seq<u8> {
    seq![1u8, 0, 0x49, 0x53, 0x41, 0x20, 0x20, 0x20]
}

/// The id of the IO-APIC beside `n` processors, whose local APICs have the ids below `n`: 2
/// where that is free, else the first free one. Beside 255 processors only 0xff is left. As the
/// destination of an ISA interrupt it also stands for every IO-APIC, which is this one.
pub open spec fn ioapic_id(n: nat) -> u8 {
    if n <= 2 {
        2
    } else {
        n as u8
    }
}

/// The entry of the IO-APIC beside `n` processors, enabled.
pub open spec fn ioapic_entry(n: nat) -> Seq<u8> {
    seq![2u8, ioapic_id(n), 0x20, 1] + bytes::le32(layout::IOAPIC_DEFAULT_PHYS)
}

/// An interrupt of the ISA bus: where it comes from and the pin of the APIC that it reaches.
pub open spec fn intr_entry(tag: u8, ty: u8, flags: u16, irq: u8, apic: u8, pin: u8) -> Seq<u8> {
    seq![tag, ty] + bytes::le16(flags) + seq![0u8, irq, apic, pin]
}

/// The flags of an ISA interrupt: active-high and level-triggered for the lines of virtio
/// devices, which stay asserted until the driver acknowledges them; as the bus has it for
/// the others.
pub open spec fn irq_flags(irq: int) -> u16 {
    if layout::VIRTIO_IRQ_BASE <= irq < layout::VIRTIO_IRQ_BASE + layout::VIRTIO_MMIO_COUNT {
        0xd
    } else {
        0
    }
}

/// The entries of the first `n` ISA interrupts, all to the IO-APIC `apic`. Each goes to the pin
/// of its own number, and the timer, interrupt 0, to pin 2 as well.
pub open spec fn irq_entries(n: nat, apic: u8) -> Seq<u8>
    decreases n,
{
    if n == 0 {
        seq![]
    } else if n == 1 {
        intr_entry(3, 0, 0, 0, apic, 0) + intr_entry(3, 0, 0, 0, apic, 2)
    } else {
        irq_entries((n - 1) as nat, apic) + intr_entry(
            3,
            0,
            irq_flags(n - 1),
            (n - 1) as u8,
            apic,
            (n - 1) as u8,
        )
    }
}

/// All entries for `n` processors; the last two wire LINT0 and LINT1 of every processor.
pub open spec fn entries(n: nat) -> Seq<u8> {
    cpu_entries(n) + bus_entry() + ioapic_entry(n) + irq_entries(16, ioapic_id(n)) + intr_entry(
        4,
        3,
        0,
        0,
        0xff,
        0,
    ) + intr_entry(4, 1, 0, 0, 0xff, 1)
}

/// The header of the configuration table, its checksum left zero.
pub open spec fn config_header(len: u16, count: u16) -> Seq<u8> {
    config_signature() + bytes::le16(len) + seq![4u8, 0] + oem_id() + product_id() + bytes::zeros(6)
        + bytes::le16(count) + bytes::le32(layout::APIC_DEFAULT_PHYS) + bytes::zeros(4)
}

/// `s` with the byte at `at`, which was zero, made to bring the sum to a multiple of 256.
pub open spec fn summed(s: Seq<u8>, at: int) -> Seq<u8> {
    s.update(at, checksum_of(s))
}

/// The configuration table for `n` processors.
pub open spec fn config_table(n: nat) -> Seq<u8> {
    summed(config_header((44 + 20 * n + 168) as u16, (n + 21) as u16) + entries(n), 7)
}

/// The floating pointer: it points to the table behind it.
pub open spec fn floating_pointer() -> Seq<u8> {
    summed(
        floating_signature() + bytes::le32((layout::MPTABLE_START + 16) as u32) + seq![1u8, 4]
            + bytes::zeros(6),
        10,
    )
}

/// How many processors the tables describe when asked for `n`: at least one.
pub open spec fn cpu_count(n: u8) -> nat {
    if n == 0 {
        1
    } else {
        n as nat
    }
}

/// The sum of two runs of bytes is the sum of their sums.
proof fn byte_sum_concat(a: Seq<u8>, b: Seq<u8>)
    ensures
        byte_sum(a + b) == byte_sum(a) + byte_sum(b),
    decreases b.len(),
{
    if b.len() == 0 {
        assert(a + b =~= a);
    } else {
        byte_sum_concat(a, b.drop_last());
        assert((a + b).drop_last() =~= a + b.drop_last());
    }
}

/// Filling in the checksum brings the sum of all bytes to a multiple of 256.
pub proof fn summed_law(s: Seq<u8>, at: int)
    requires
        0 <= at < s.len(),
        s[at] == 0,
    ensures
        byte_sum(summed(s, at)) % 0x100 == 0,
        summed(s, at).len() == s.len(),
{
    let c = checksum_of(s);
    let front = s.take(at);
    let back = s.skip(at + 1);
    assert(s =~= front + (seq![0u8] + back));
    assert(summed(s, at) =~= front + (seq![c] + back));
    byte_sum_concat(front, seq![0u8] + back);
    byte_sum_concat(seq![0u8], back);
    byte_sum_concat(front, seq![c] + back);
    byte_sum_concat(seq![c], back);
    byte_sum_one(0);
    byte_sum_one(c);
}

/// The sum of one byte.
proof fn byte_sum_one(c: u8)
    ensures
        byte_sum(seq![c]) == c,
{
    assert(seq![c].drop_last() =~= seq![]);
    assert(byte_sum(seq![c].drop_last()) == 0);
}

/// How long the processors' entries are.
proof fn cpu_entries_len(n: nat)
    ensures
        cpu_entries(n).len() == 20 * n,
    decreases n,
{
    if n > 0 {
        cpu_entries_len((n - 1) as nat);
    }
}

/// How long the interrupts' entries are.
proof fn irq_entries_len(n: nat, apic: u8)
    ensures
        irq_entries(n, apic).len() == if n == 0 {
            0
        } else {
            8 * (n + 1)
        },
    decreases n,
{
    if n > 1 {
        irq_entries_len((n - 1) as nat, apic);
    }
}

/// Where the id of processor `i` stands.
proof fn cpu_entries_id(n: nat, i: int)
    requires
        0 <= i < n,
    ensures
        cpu_entries(n)[20 * i + 1] == i as u8,
    decreases n,
{
    cpu_entries_len((n - 1) as nat);
    if i < n - 1 {
        cpu_entries_id((n - 1) as nat, i);
    }
}

/// Where the destination of the `j`th entry of an ISA interrupt stands.
proof fn irq_entries_destination(n: nat, apic: u8, j: int)
    requires
        n >= 1,
        0 <= j <= n,
    ensures
        irq_entries(n, apic)[8 * j + 6] == apic,
    decreases n,
{
    if n > 1 {
        irq_entries_len((n - 1) as nat, apic);
        if j < n {
            irq_entries_destination((n - 1) as nat, apic, j);
        }
    }
}

/// In the tables for `n` processors, the id of the IO-APIC differs from that of every
/// processor's local APIC, and every ISA interrupt is sent to it.
pub proof fn ioapic_id_is_free(n: u8, i: int, j: int)
    requires
        0 <= i < cpu_count(n),
        0 <= j < 17,
    ensures
        ({
            let k = cpu_count(n) as int;
            let t = floating_pointer() + config_table(cpu_count(n));
            &&& t[60 + 20 * i + 1] == i
            &&& t[60 + 20 * k + 9] == ioapic_id(cpu_count(n))
            &&& t[60 + 20 * k + 9] != t[60 + 20 * i + 1]
            &&& t[60 + 20 * k + 16 + 8 * j + 6] == ioapic_id(cpu_count(n))
        }),
{
    let k = cpu_count(n);
    let apic = ioapic_id(k);
    cpu_entries_len(k);
    cpu_entries_id(k, i);
    irq_entries_len(16, apic);
    irq_entries_destination(16, apic, j);
    tables_valid(n);
    let t = floating_pointer() + config_table(k);
    let e = entries(k);
    let at = 60 + 20 * i + 1;
    assert(t[at] == e[20 * i + 1]);
    assert(e[20 * i + 1] == cpu_entries(k)[20 * i + 1]);
    let z = 20 * (k as int);
    assert(t[60 + z + 9] == e[z + 9]);
    assert(e[z + 9] == ioapic_entry(k)[1]);
    assert(t[60 + z + 16 + 8 * j + 6] == e[z + 16 + 8 * j + 6]);
    assert(e[z + 16 + 8 * j + 6] == irq_entries(16, apic)[8 * j + 6]);
}

/// Both structures sum to zero modulo 256, begin with their signatures, and have the length
/// that the number of processors gives them; the table's header says that length.
pub proof fn tables_valid(n: u8)
    ensures
        ({
            let p = floating_pointer();
            let t = config_table(cpu_count(n));
            &&& p.len() == 16
            &&& byte_sum(p) % 0x100 == 0
            &&& p.take(4) == floating_signature()
            &&& bytes::u32_of(p.skip(4)) == layout::MPTABLE_START + 16
            &&& t.len() == 212 + 20 * cpu_count(n)
            &&& byte_sum(t) % 0x100 == 0
            &&& t.take(4) == config_signature()
            &&& bytes::u16_of(t.skip(4)) == t.len()
            &&& bytes::u16_of(t.skip(34)) == cpu_count(n) + 21
        }),
{
    let raw = floating_signature() + bytes::le32((layout::MPTABLE_START + 16) as u32) + seq![1u8, 4]
        + bytes::zeros(6);
    summed_law(raw, 10);
    let p = floating_pointer();
    assert(p.take(4) =~= floating_signature());
    bytes::le32_roundtrip((layout::MPTABLE_START + 16) as u32);
    assert(p.skip(4).take(4) =~= bytes::le32((layout::MPTABLE_START + 16) as u32));
    assert(forall|i: int| 0 <= i < 4 ==> p.skip(4)[i] == p.skip(4).take(4)[i]);
    let k = cpu_count(n);
    cpu_entries_len(k);
    irq_entries_len(16, ioapic_id(k));
    let len = (44 + 20 * k + 168) as u16;
    let count = (k + 21) as u16;
    let s = config_header(len, count) + entries(k);
    assert(s[7] == 0);
    summed_law(s, 7);
    let t = config_table(k);
    assert(t.take(4) =~= config_signature());
    bytes::le16_roundtrip(len);
    bytes::le16_roundtrip(count);
    assert(t.skip(4)[0] == bytes::le16(len)[0] && t.skip(4)[1] == bytes::le16(len)[1]);
    assert(t.skip(34)[0] == bytes::le16(count)[0] && t.skip(34)[1] == bytes::le16(count)[1]);
}

/// The entry of processor `i`, where it stands.
proof fn cpu_entries_at(n: nat, i: int, b: int)
    requires
        0 <= i < n,
        0 <= b < 20,
    ensures
        cpu_entries(n)[20 * i + b] == cpu_entry(i)[b],
    decreases n,
{
    cpu_entries_len((n - 1) as nat);
    if i < n - 1 {
        cpu_entries_at((n - 1) as nat, i, b);
    }
}

/// The entry of ISA interrupt `j`, where it stands.
proof fn irq_entries_at(n: nat, apic: u8, j: int, b: int)
    requires
        1 <= j < n <= 16,
        0 <= b < 8,
    ensures
        irq_entries(n, apic)[8 * (j + 1) + b] == intr_entry(
            3,
            0,
            irq_flags(j),
            j as u8,
            apic,
            j as u8,
        )[b],
    decreases n,
{
    irq_entries_len((n - 1) as nat, apic);
    if j < n - 1 {
        irq_entries_at((n - 1) as nat, apic, j, b);
    }
}

/// The two entries of the timer, where they stand.
proof fn timer_entries_at(n: nat, apic: u8, b: int)
    requires
        1 <= n <= 16,
        0 <= b < 8,
    ensures
        irq_entries(n, apic)[b] == intr_entry(3, 0, 0, 0, apic, 0)[b],
        irq_entries(n, apic)[8 + b] == intr_entry(3, 0, 0, 0, apic, 2)[b],
    decreases n,
{
    if n > 1 {
        irq_entries_len((n - 1) as nat, apic);
        timer_entries_at((n - 1) as nat, apic, b);
    }
}

/// The bytes of the tables, as one.
#[verifier::opaque]
spec fn all_bytes(n: u8) -> Seq<u8> {
    floating_pointer() + config_table(cpu_count(n))
}

/// The bytes of the entries, as one.
#[verifier::opaque]
spec fn entry_bytes(n: u8) -> Seq<u8> {
    entries(cpu_count(n))
}

/// A byte of the tables' entries, where it stands behind the pointer and the header.
proof fn entry_byte(n: u8, at: int)
    requires
        0 <= at < 168 + 20 * cpu_count(n),
    ensures
        all_bytes(n)[60 + at] == entry_bytes(n)[at],
{
    reveal(all_bytes);
    reveal(entry_bytes);
    cpu_entries_len(cpu_count(n));
    irq_entries_len(16, ioapic_id(cpu_count(n)));
    tables_valid(n);
}

/// What a guest reads in the tables: a pointer to the table behind it; a table that says how long
/// it is and where the local APICs are. Both parts sum to nothing.
#[verifier::rlimit(60)]
#[verifier::spinoff_prover]
pub proof fn tables_are_found(n: u8, r: Vec<u8>)
    requires
        call_ensures(build, (n,), r),
    ensures
        ({
            let t = r@;
            let k = if n == 0 {
                1
            } else {
                n as int
            };
            &&& t.len() == 228 + 20 * k
            &&& byte_sum(t.take(16)) % 0x100 == 0
            &&& byte_sum(t.skip(16)) % 0x100 == 0
            &&& t[0] == 0x5f && t[1] == 0x4d && t[2] == 0x50 && t[3] == 0x5f
            &&& t[4] == 0x10 && t[5] == 0 && t[6] == 0xf && t[7] == 0 && t[8] == 1 && t[9] == 4
            &&& t[16] == 0x50 && t[17] == 0x43 && t[18] == 0x4d && t[19] == 0x50
            &&& t[20] + 0x100 * t[21] == t.len() - 16
            &&& t[22] == 4
            &&& t[50] + 0x100 * t[51] == k + 21
            &&& t[52] == 0 && t[53] == 0 && t[54] == 0xe0 && t[55] == 0xfe
        }),
{
    let t = r@;
    tables_valid(n);
    assert(t.take(16) =~= floating_pointer());
    assert(t.skip(16) =~= config_table(cpu_count(n)));
    let p = floating_pointer();
    assert(p.take(4)[0] == p[0] && p.take(4)[1] == p[1] && p.take(4)[2] == p[2] && p.take(4)[3]
        == p[3]);
    table_header_bytes(n);
}

/// The kind and the flags of a processor's entry.
proof fn processor_bytes(n: u8, i: int)
    requires
        0 <= i < cpu_count(n),
    ensures
        ({
            let t = all_bytes(n);
            &&& t[60 + 20 * i] == 0
            &&& t[60 + (20 * i + 1)] == i
            &&& t[60 + (20 * (cpu_count(n) as int) + 9)] != i
            &&& t[60 + (20 * i + 3)] == (if i == 0 {
                3u8
            } else {
                1u8
            })
        }),
{
    let k = cpu_count(n);
    cpu_entries_len(k);
    cpu_entries_at(k, i, 0);
    cpu_entries_at(k, i, 3);
    entry_byte(n, 20 * i);
    entry_byte(n, 20 * i + 3);
    ioapic_id_is_free(n, i, 0);
    reveal(all_bytes);
    reveal(entry_bytes);
    let e = entries(k);
    assert(e[20 * i] == cpu_entries(k)[20 * i + 0]);
    assert(e[20 * i + 3] == cpu_entries(k)[20 * i + 3]);
}

/// What a guest reads of the processors: each with its number, enabled, the first of them the one
/// that boots; then the ISA bus, and one enabled IO-APIC at its usual place, with a number of its
/// own.
#[verifier::rlimit(60)]
#[verifier::spinoff_prover]
pub proof fn tables_describe_processors(n: u8, r: Vec<u8>, i: int)
    requires
        call_ensures(build, (n,), r),
        0 <= i < (if n == 0 {
            1
        } else {
            n as int
        }),
    ensures
        ({
            let t = r@;
            let k = if n == 0 {
                1
            } else {
                n as int
            };
            let p = 60 + 20 * i;
            let b = 60 + 20 * k;
            let a = b + 8;
            &&& t[p] == 0 && t[p + 1] == i && t[p + 3] == (if i == 0 {
                3u8
            } else {
                1u8
            })
            &&& t[b] == 1 && t[b + 1] == 0 && t[b + 2] == 0x49 && t[b + 3] == 0x53 && t[b + 4] == 0x41
            &&& t[a] == 2 && t[a + 3] == 1 && t[a + 1] != i
            &&& t[a + 4] == 0 && t[a + 5] == 0 && t[a + 6] == 0xc0 && t[a + 7] == 0xfe
        }),
{
    let k = cpu_count(n);
    let z = 20 * (k as int);
    processor_bytes(n, i);
    assert(r@ == all_bytes(n)) by {
        reveal(all_bytes);
    }
    entry_tail(n, z, ioapic_id(k), 1);
    entry_byte(n, z);
    entry_byte(n, z + 1);
    entry_byte(n, z + 2);
    entry_byte(n, z + 3);
    entry_byte(n, z + 4);
    entry_byte(n, z + 8);
    entry_byte(n, z + 11);
    entry_byte(n, z + 12);
    entry_byte(n, z + 13);
    entry_byte(n, z + 14);
    entry_byte(n, z + 15);
}

/// What a guest reads of the interrupts: each of the ISA bus goes to the pin of its number,
/// level-triggered for the virtio lines 5 to 12, the timer to pin 2 as well, all at the IO-APIC;
/// and the two local lines go to every processor.
#[verifier::rlimit(60)]
#[verifier::spinoff_prover]
pub proof fn tables_describe_interrupts(n: u8, r: Vec<u8>, j: int)
    requires
        call_ensures(build, (n,), r),
        1 <= j < 16,
    ensures
        ({
            let t = r@;
            let k = if n == 0 {
                1
            } else {
                n as int
            };
            let a = 68 + 20 * k;
            let q = a + 8 + 8 * (j + 1);
            let l = a + 8 + 136;
            &&& t[a + 8] == 3 && t[a + 9] == 0 && t[a + 13] == 0 && t[a + 14] == t[a + 1] && t[a + 15]
                == 0
            &&& t[a + 16] == 3 && t[a + 17] == 0 && t[a + 21] == 0 && t[a + 22] == t[a + 1] && t[a
                + 23] == 2
            &&& t[q] == 3 && t[q + 1] == 0 && t[q + 2] == (if 5 <= j < 13 {
                13u8
            } else {
                0u8
            }) && t[q + 3] == 0
            &&& t[q + 4] == 0 && t[q + 5] == j && t[q + 6] == t[a + 1] && t[q + 7] == j
            &&& t[l] == 4 && t[l + 1] == 3 && t[l + 6] == 0xff && t[l + 7] == 0
            &&& t[l + 8] == 4 && t[l + 9] == 1 && t[l + 14] == 0xff && t[l + 15] == 1
        }),
{
    let k = cpu_count(n);
    let z = 20 * (k as int);
    destination_bytes(n, j);
    assert(r@ == all_bytes(n)) by {
        reveal(all_bytes);
    }
    entry_tail(n, z, ioapic_id(k), j);
    entry_byte(n, z + 16);
    entry_byte(n, z + 17);
    entry_byte(n, z + 21);
    entry_byte(n, z + 23);
    entry_byte(n, z + 24);
    entry_byte(n, z + 25);
    entry_byte(n, z + 29);
    entry_byte(n, z + 31);
    let y = z + 16 + 8 * (j + 1);
    entry_byte(n, y);
    entry_byte(n, y + 1);
    entry_byte(n, y + 2);
    entry_byte(n, y + 3);
    entry_byte(n, y + 4);
    entry_byte(n, y + 5);
    entry_byte(n, y + 7);
    let x = z + 16 + 136;
    entry_byte(n, x);
    entry_byte(n, x + 1);
    entry_byte(n, x + 6);
    entry_byte(n, x + 7);
    entry_byte(n, x + 8);
    entry_byte(n, x + 9);
    entry_byte(n, x + 14);
    entry_byte(n, x + 15);
}

/// Every interrupt goes to the IO-APIC.
proof fn destination_bytes(n: u8, j: int)
    requires
        1 <= j < 16,
    ensures
        ({
            let t = all_bytes(n);
            let z = 20 * (cpu_count(n) as int);
            let apic = t[60 + (z + 9)];
            &&& t[60 + (z + 22)] == apic
            &&& t[60 + (z + 30)] == apic
            &&& t[60 + (z + 16 + 8 * (j + 1) + 6)] == apic
        }),
{
    reveal(all_bytes);
    ioapic_id_is_free(n, 0, 0);
    ioapic_id_is_free(n, 0, 1);
    ioapic_id_is_free(n, 0, j + 1);
}

/// The bytes of the entries behind the processors'.
#[verifier::rlimit(60)]
#[verifier::spinoff_prover]
proof fn entry_tail(n: u8, z: int, apic: u8, j: int)
    requires
        z == 20 * cpu_count(n),
        apic == ioapic_id(cpu_count(n)),
        1 <= j < 16,
    ensures
        ({
            let e = entry_bytes(n);
            let y = z + 16 + 8 * (j + 1);
            let x = z + 16 + 136;
            &&& e[z] == 1 && e[z + 1] == 0 && e[z + 2] == 0x49 && e[z + 3] == 0x53 && e[z + 4] == 0x41
            &&& e[z + 8] == 2 && e[z + 11] == 1
            &&& e[z + 12] == 0 && e[z + 13] == 0 && e[z + 14] == 0xc0 && e[z + 15] == 0xfe
            &&& e[z + 16] == 3 && e[z + 17] == 0 && e[z + 21] == 0 && e[z + 23] == 0
            &&& e[z + 24] == 3 && e[z + 25] == 0 && e[z + 29] == 0 && e[z + 31] == 2
            &&& e[y] == 3 && e[y + 1] == 0 && e[y + 2] == (if 5 <= j < 13 {
                13u8
            } else {
                0u8
            }) && e[y + 3] == 0 && e[y + 4] == 0 && e[y + 5] == j && e[y + 7] == j
            &&& e[x] == 4 && e[x + 1] == 3 && e[x + 6] == 0xff && e[x + 7] == 0
            &&& e[x + 8] == 4 && e[x + 9] == 1 && e[x + 14] == 0xff && e[x + 15] == 1
        }),
{
    reveal(entry_bytes);
    let k = cpu_count(n);
    cpu_entries_len(k);
    irq_entries_len(16, apic);
    let irqs = irq_entries(16, apic);
    assert forall|b: int| 0 <= b < 8 implies #[trigger] irqs[8 * (j + 1) + b] == intr_entry(
        3,
        0,
        irq_flags(j),
        j as u8,
        apic,
        j as u8,
    )[b] by {
        irq_entries_at(16, apic, j, b);
    }
    timer_entries_at(16, apic, 0);
    timer_entries_at(16, apic, 1);
    timer_entries_at(16, apic, 5);
    timer_entries_at(16, apic, 7);
    let e = entries(k);
    assert(forall|b: int| 0 <= b < 136 ==> e[z + 16 + b] == irqs[b]);
    let w = 8 * (j + 1);
    assert(irqs[w + 0] == 3 && irqs[w + 1] == 0 && irqs[w + 4] == 0 && irqs[w + 5] == j && irqs[w
        + 7] == j);
    assert(irqs[w + 2] == bytes::le16(irq_flags(j))[0] && irqs[w + 3] == bytes::le16(
        irq_flags(j),
    )[1]);
}

/// The bytes of the pointer and of the table's header.
#[verifier::rlimit(60)]
#[verifier::spinoff_prover]
proof fn table_header_bytes(n: u8)
    ensures
        ({
            let t = floating_pointer() + config_table(cpu_count(n));
            &&& t[4] == 0x10 && t[5] == 0 && t[6] == 0xf && t[7] == 0 && t[8] == 1 && t[9] == 4
            &&& t[16] == 0x50 && t[17] == 0x43 && t[18] == 0x4d && t[19] == 0x50
            &&& t[20] + 0x100 * t[21] == 212 + 20 * cpu_count(n)
            &&& t[22] == 4
            &&& t[50] + 0x100 * t[51] == cpu_count(n) + 21
            &&& t[52] == 0 && t[53] == 0 && t[54] == 0xe0 && t[55] == 0xfe
        }),
{
    let k = cpu_count(n);
    tables_valid(n);
    let len = (44 + 20 * k + 168) as u16;
    let count = (k + 21) as u16;
    bytes::bytes_weigh(len, 0, 0);
    bytes::bytes_weigh(count, 0, 0);
    let h = config_header(len, count);
    let c = config_table(k);
    assert(forall|b: int| 0 <= b < 44 && b != 7 ==> c[b] == h[b]);
    let t = floating_pointer() + c;
    assert(forall|b: int| 0 <= b < 44 ==> #[trigger] c[b] == t[16 + b]);
}

/// The byte that brings the sum of `b` and itself to a multiple of 256.
fn checksum(b: &[u8]) -> (r: u8)
    ensures
        r == checksum_of(b@),
{
    let mut sum: u8 = 0;
    let mut i: usize = 0;
    while i < b.len()
        invariant
            i <= b@.len(),
            sum == byte_sum(b@.take(i as int)) % 0x100,
        decreases b@.len() - i,
    {
        assert(b@.take(i + 1).drop_last() =~= b@.take(i as int));
        sum = sum.wrapping_add(b[i]);
        i += 1;
    }
    assert(b@.take(b@.len() as int) =~= b@);
    0u8.wrapping_sub(sum)
}

/// One 8-byte interrupt entry.
fn push_intr(out: &mut Vec<u8>, tag: u8, ty: u8, flags: u16, irq: u8, apic: u8, pin: u8)
    ensures
        final(out)@ == old(out)@ + intr_entry(tag, ty, flags, irq, apic, pin),
{
    let f = bytes::to_le16(flags);
    let e: [u8; 8] = [tag, ty, f[0], f[1], 0, irq, apic, pin];
    assert(e@ =~= intr_entry(tag, ty, flags, irq, apic, pin));
    bytes::push_bytes(out, &e);
}

/// The entries of the processors.
fn push_cpus(out: &mut Vec<u8>, n: u8)
    ensures
        final(out)@ == old(out)@ + cpu_entries(n as nat),
{
    let mut i: u8 = 0;
    assert(out@ =~= out@ + cpu_entries(0));
    while i < n
        invariant
            i <= n,
            out@ == old(out)@ + cpu_entries(i as nat),
        decreases n - i,
    {
        let flags: u8 = if i == 0 {
            3
        } else {
            1
        };
        let e: [u8; 20] = [
            ENTRY_PROCESSOR,
            i,
            0x14,
            flags,
            0,
            0x06,
            0,
            0,
            0x01,
            0x02,
            0,
            0,
            0,
            0,
            0,
            0,
            0,
            0,
            0,
            0,
        ];
        assert(e@ =~= cpu_entry(i as int));
        bytes::push_bytes(out, &e);
        i += 1;
        assert(out@ =~= old(out)@ + cpu_entries(i as nat));
    }
}

/// The entries of the sixteen ISA interrupts.
fn push_irqs(out: &mut Vec<u8>, apic: u8)
    ensures
        final(out)@ == old(out)@ + irq_entries(16, apic),
{
    push_intr(out, ENTRY_IOINTR, INT_TYPE_INT, 0, 0, apic, 0);
    push_intr(out, ENTRY_IOINTR, INT_TYPE_INT, 0, 0, apic, 2);
    assert(out@ =~= old(out)@ + irq_entries(1, apic));
    let mut irq: u8 = 1;
    while irq < 16
        invariant
            1 <= irq <= 16,
            out@ == old(out)@ + irq_entries(irq as nat, apic),
        decreases 16 - irq,
    {
        let level: bool = irq as u32 >= layout::VIRTIO_IRQ_BASE && (irq as u32)
            < layout::VIRTIO_IRQ_BASE + layout::VIRTIO_MMIO_COUNT as u32;
        let flags: u16 = if level {
            0xd
        } else {
            0
        };
        push_intr(out, ENTRY_IOINTR, INT_TYPE_INT, flags, irq, apic, irq);
        irq += 1;
        assert(out@ =~= old(out)@ + irq_entries(irq as nat, apic));
    }
}

/// The header of the configuration table, its checksum left zero.
fn push_header(out: &mut Vec<u8>, len: u16, count: u16)
    ensures
        final(out)@ == old(out)@ + config_header(len, count),
{
    let l = bytes::to_le16(len);
    let c = bytes::to_le16(count);
    let a = bytes::to_le32(layout::APIC_DEFAULT_PHYS);
    let h: [u8; 44] = [
        0x50, 0x43, 0x4d, 0x50,
        l[0], l[1], 4, 0,
        0x50, 0x48, 0x4f, 0x45, 0x4e, 0x49, 0x58, 0x20,
        0x56, 0x4d, 0x4d, 0x20, 0x30, 0x2e, 0x31, 0x20, 0x20, 0x20, 0x20, 0x20,
        0, 0, 0, 0, 0, 0,
        c[0], c[1],
        a[0], a[1], a[2], a[3],
        0, 0, 0, 0,
    ];
    assert(h@ =~= config_header(len, count));
    bytes::push_bytes(out, &h);
}

/// Builds the tables for `num_cpus` processors, at least one: the bytes that belong at
/// [`layout::MPTABLE_START`], the floating pointer first, the configuration table behind it.
pub fn build(num_cpus: u8) -> (r: Vec<u8>)
    ensures
        r@ == floating_pointer() + config_table(cpu_count(num_cpus)),
{
    let n: u8 = if num_cpus == 0 {
        1
    } else {
        num_cpus
    };
    let mut tail: Vec<u8> = Vec::new();
    push_cpus(&mut tail, n);
    bytes::push_bytes(&mut tail, &[ENTRY_BUS, 0, 0x49, 0x53, 0x41, 0x20, 0x20, 0x20]);
    let a = bytes::to_le32(layout::IOAPIC_DEFAULT_PHYS);
    let ghost g0 = tail@;
    let apic: u8 = if n <= 2 {
        2
    } else {
        n
    };
    bytes::push_bytes(&mut tail, &[ENTRY_IOAPIC, apic, 0x20, 1, a[0], a[1], a[2], a[3]]);
    assert(tail@ =~= g0 + ioapic_entry(n as nat));
    push_irqs(&mut tail, apic);
    push_intr(&mut tail, ENTRY_LOCALINTR, INT_TYPE_EXTINT, 0, 0, 0xff, 0);
    push_intr(&mut tail, ENTRY_LOCALINTR, INT_TYPE_NMI, 0, 0, 0xff, 1);
    assert(tail@ =~= entries(n as nat));
    proof {
        cpu_entries_len(n as nat);
        irq_entries_len(16, apic);
    }
    let len: u16 = (CONFIG_HEADER_LEN + tail.len()) as u16;
    let mut cfg: Vec<u8> = Vec::new();
    push_header(&mut cfg, len, n as u16 + 21);
    bytes::push_bytes(&mut cfg, &tail);
    assert(cfg@ =~= config_header(len, (n + 21) as u16) + entries(n as nat));
    let sum: u8 = checksum(&cfg);
    cfg.set(7, sum);
    let p = bytes::to_le32(layout::MPTABLE_START as u32 + FLOATING_PTR_LEN as u32);
    let mut out: Vec<u8> = Vec::new();
    bytes::push_bytes(
        &mut out,
        &[0x5f, 0x4d, 0x50, 0x5f, p[0], p[1], p[2], p[3], 1, 4, 0, 0, 0, 0, 0, 0],
    );
    assert(out@ =~= floating_signature() + bytes::le32((layout::MPTABLE_START + 16) as u32)
        + seq![1u8, 4] + bytes::zeros(6));
    let fsum: u8 = checksum(&out);
    out.set(10, fsum);
    bytes::push_bytes(&mut out, &cfg);
    out
}

} // verus!
