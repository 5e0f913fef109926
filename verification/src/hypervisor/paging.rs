//! How a processor in long mode translates an address, and that the boot page tables map the
//! first GiB to itself.

use vstd::prelude::*;

use super::memory;
use crate::bytes;
use crate::devices::virtio::guest;
use crate::devices::virtio::guest::GuestMem;

verus! {

/// Entry `i` of the table at `table`, where it is mapped and present.
pub open spec fn table_entry(m: GuestMem, table: int, i: int) -> Option<u64> {
    if guest::mapped(m, table + 8 * i, 8) {
        let e = bytes::u64_of(guest::load(m, table + 8 * i, 8));
        if e % 2 == 1 {
            Some(e)
        } else {
            None
        }
    } else {
        None
    }
}

/// The address that an entry holds: bits 12 to 51.
pub open spec fn entry_address(e: u64) -> int {
    e as int / 0x1000 % 0x100_0000_0000 * 0x1000
}

/// Whether an entry stands for a large page.
pub open spec fn entry_large(e: u64) -> bool {
    e as int / 0x80 % 2 == 1
}

/// The physical address that `va` has under the tables at `cr3`, where it lies in a 2 MiB page.
pub open spec fn translate(m: GuestMem, cr3: u64, va: int) -> Option<int> {
    match table_entry(m, cr3 as int, va / 0x80_0000_0000 % 512) {
        None => None,
        Some(l4) => match table_entry(m, entry_address(l4), va / 0x4000_0000 % 512) {
            None => None,
            Some(l3) => if entry_large(l3) {
                None
            } else {
                match table_entry(m, entry_address(l3), va / 0x20_0000 % 512) {
                    None => None,
                    Some(l2) => if entry_large(l2) {
                        Some(l2 as int / 0x20_0000 % 0x8000_0000 * 0x20_0000 + va % 0x20_0000)
                    } else {
                        None
                    },
                }
            },
        },
    }
}

/// Where the entries of a page directory stand.
proof fn large_pages_entry(n: nat, i: int)
    requires
        0 <= i < n,
    ensures
        memory::large_pages(n).len() == 8 * n,
        forall|k: int|
            0 <= k < 8 ==> #[trigger] memory::large_pages(n)[8 * i + k] == bytes::le64(
                (i * 0x20_0000 + 0x83) as u64,
            )[k],
    decreases n,
{
    let m = (n - 1) as nat;
    large_pages_len(m);
    let last = bytes::le64((m * 0x20_0000 + 0x83) as u64);
    assert(last.len() == 8);
    if i < m {
        large_pages_entry(m, i);
        assert forall|k: int| 0 <= k < 8 implies #[trigger] memory::large_pages(n)[8 * i + k]
            == bytes::le64((i * 0x20_0000 + 0x83) as u64)[k] by {
            assert(memory::large_pages(n)[8 * i + k] == memory::large_pages(m)[8 * i + k]);
        }
    }
}

/// How long a page directory is.
proof fn large_pages_len(n: nat)
    ensures
        memory::large_pages(n).len() == 8 * n,
    decreases n,
{
    if n > 0 {
        large_pages_len((n - 1) as nat);
    }
}

/// The two lowest bits of a page-aligned address are free for flags.
proof fn flags_fit(a: u64)
    requires
        a % 0x1000 == 0,
        a < 0x10_0000_0000_0000,
    ensures
        a | 3 == a + 3,
        entry_address(a | 3) == a,
        (a | 3) % 2 == 1,
        !entry_large(a | 3),
{
    assert(a | 3 == a + 3) by (bit_vector)
        requires
            a % 0x1000 == 0,
            a < 0x10_0000_0000_0000,
    ;
    let p: int = a as int / 0x1000;
    assert(a == p * 0x1000);
    assert((a + 3) / 0x1000 == p);
    assert((a + 3) / 0x80 == p * 0x20);
}

/// Whether the three boot page tables stand in memory.
pub open spec fn identity_tables(r: GuestMem, pml4: u64, pdpte: u64, pde: u64) -> bool {
    &&& guest::mapped(r, pml4 as int, 8)
    &&& guest::mapped(r, pdpte as int, 8)
    &&& guest::mapped(r, pde as int, 0x1000)
    &&& guest::load(r, pml4 as int, 8) == bytes::le64(pdpte | 3)
    &&& guest::load(r, pdpte as int, 8) == bytes::le64(pde | 3)
    &&& guest::load(r, pde as int, 0x1000) == memory::large_pages(512)
}

/// Where the boot page tables stand in memory, every address of the first GiB is mapped to
/// itself.
pub proof fn tables_map_first_gib(r: GuestMem, pml4: u64, pdpte: u64, pde: u64, va: int)
    requires
        identity_tables(r, pml4, pdpte, pde),
        pdpte % 0x1000 == 0,
        pde % 0x1000 == 0,
        pdpte < 0x10_0000_0000_0000,
        pde < 0x10_0000_0000_0000,
        0 <= va < 0x4000_0000,
    ensures
        translate(r, pml4, va) == Some(va),
{
    flags_fit(pdpte);
    flags_fit(pde);
    entry_reads(r, pml4 as int, 0, pdpte | 3);
    entry_reads(r, pdpte as int, 0, pde | 3);
    let i = va / 0x20_0000;
    let e = (i * 0x20_0000 + 0x83) as u64;
    address_parts(va);
    directory_entry(r, pde, i);
    entry_reads(r, pde as int, i, e);
}

/// The boot page tables map every address of the first GiB to itself, wherever in reachable
/// memory the three page-aligned tables stand, as long as they lie apart.
pub proof fn identity_maps_first_gib(m: GuestMem, pml4: u64, pdpte: u64, pde: u64, va: int)
    requires
        pdpte % 0x1000 == 0,
        pde % 0x1000 == 0,
        pdpte < 0x10_0000_0000_0000,
        pde < 0x10_0000_0000_0000,
        pml4 % 0x1000 == 0,
        pml4 != pdpte,
        pml4 != pde,
        pdpte != pde,
        guest::mapped(m, pml4 as int, 8),
        guest::mapped(m, pdpte as int, 8),
        guest::mapped(m, pde as int, 0x1000),
        0 <= va < 0x4000_0000,
    ensures
        memory::stored_list(m, memory::identity_stores(pml4, pdpte, pde)).1,
        translate(
            memory::stored_list(m, memory::identity_stores(pml4, pdpte, pde)).0,
            pml4,
            va,
        ) == Some(va),
{
    identity_stored(m, pml4, pdpte, pde);
    tables_map_first_gib(
        memory::stored_list(m, memory::identity_stores(pml4, pdpte, pde)).0,
        pml4,
        pdpte,
        pde,
        va,
    );
}

/// The parts of an address of the first GiB, and the entry that maps it.
proof fn address_parts(va: int)
    requires
        0 <= va < 0x4000_0000,
    ensures
        va / 0x80_0000_0000 % 512 == 0,
        va / 0x4000_0000 % 512 == 0,
        0 <= va / 0x20_0000 < 512,
        va / 0x20_0000 % 512 == va / 0x20_0000,
        ({
            let e = (va / 0x20_0000 * 0x20_0000 + 0x83) as u64;
            &&& e % 2 == 1
            &&& entry_large(e)
            &&& e as int / 0x20_0000 % 0x8000_0000 * 0x20_0000 + va % 0x20_0000 == va
        }),
{
    let i = va / 0x20_0000;
    let e = (i * 0x20_0000 + 0x83) as u64;
    assert(e == i * 0x20_0000 + 0x83);
    assert(e as int / 0x80 == i * 0x4000 + 1);
    assert(e as int / 0x20_0000 == i);
}

/// An entry whose eight bytes stand in a table is read there.
proof fn entry_reads(r: GuestMem, table: int, i: int, e: u64)
    requires
        guest::mapped(r, table + 8 * i, 8),
        guest::load(r, table + 8 * i, 8) == bytes::le64(e),
        e % 2 == 1,
    ensures
        table_entry(r, table, i) == Some(e),
{
    bytes::le64_roundtrip(e);
}

/// A store that can be reached whole is accepted and replaces its bytes.
proof fn stored_whole(m: GuestMem, gpa: u64, b: Seq<u8>)
    requires
        b.len() > 0,
        guest::mapped(m, gpa as int, b.len() as int),
    ensures
        memory::accepted(m, gpa, b.len()),
        memory::stored(m, gpa, b) == guest::overwrite(m, gpa as int, b),
        guest::overwrite(m, gpa as int, b).dom() == m.dom(),
{
    guest::reach_law(m, gpa as int, b.len());
    assert(b.take(b.len() as int) =~= b);
    assert(guest::overwrite(m, gpa as int, b).dom() =~= m.dom());
}

/// Three stores that are accepted one after the other.
proof fn stored_three(m: GuestMem, x: (u64, Seq<u8>), y: (u64, Seq<u8>), z: (u64, Seq<u8>))
    requires
        memory::accepted(m, x.0, x.1.len()),
        memory::accepted(memory::stored(m, x.0, x.1), y.0, y.1.len()),
        memory::accepted(
            memory::stored(memory::stored(m, x.0, x.1), y.0, y.1),
            z.0,
            z.1.len(),
        ),
    ensures
        memory::stored_list(m, seq![x, y, z]) == (
            memory::stored(memory::stored(memory::stored(m, x.0, x.1), y.0, y.1), z.0, z.1),
            true,
        ),
{
    assert(seq![x, y, z].skip(1) =~= seq![y, z]);
    assert(seq![y, z].skip(1) =~= seq![z]);
    assert(seq![z].skip(1) =~= seq![]);
    reveal_with_fuel(memory::stored_list, 4);
}

/// Storing the tables is accepted, and they stand in memory afterwards.
pub proof fn identity_stored(m: GuestMem, pml4: u64, pdpte: u64, pde: u64)
    requires
        pml4 % 0x1000 == 0,
        pdpte % 0x1000 == 0,
        pde % 0x1000 == 0,
        pml4 != pdpte,
        pml4 != pde,
        pdpte != pde,
        guest::mapped(m, pml4 as int, 8),
        guest::mapped(m, pdpte as int, 8),
        guest::mapped(m, pde as int, 0x1000),
    ensures
        ({
            let (r, ok) = memory::stored_list(m, memory::identity_stores(pml4, pdpte, pde));
            ok && r.dom() == m.dom() && identity_tables(r, pml4, pdpte, pde)
        }),
{
    let b4 = bytes::le64(pdpte | 3);
    let b3 = bytes::le64(pde | 3);
    let b2 = memory::large_pages(512);
    large_pages_len(512);
    assert(b4.len() == 8 && b3.len() == 8);
    stored_whole(m, pml4, b4);
    let m1 = guest::overwrite(m, pml4 as int, b4);
    stored_whole(m1, pdpte, b3);
    let m2 = guest::overwrite(m1, pdpte as int, b3);
    stored_whole(m2, pde, b2);
    stored_three(m, (pml4, b4), (pdpte, b3), (pde, b2));
    three_read_back(m, pml4 as int, b4, pdpte as int, b3, pde as int, b2);
}

/// Three runs that lie apart are found where they were stored.
proof fn three_read_back(
    m: GuestMem,
    x: int,
    b4: Seq<u8>,
    y: int,
    b3: Seq<u8>,
    z: int,
    b2: Seq<u8>,
)
    requires
        b4.len() == 8,
        b3.len() == 8,
        b2.len() == 0x1000,
        x % 0x1000 == 0,
        y % 0x1000 == 0,
        z % 0x1000 == 0,
        x != y,
        x != z,
        y != z,
        guest::mapped(m, x, 8),
        guest::mapped(m, y, 8),
        guest::mapped(m, z, 0x1000),
    ensures
        ({
            let r = guest::overwrite(guest::overwrite(guest::overwrite(m, x, b4), y, b3), z, b2);
            &&& r.dom() == m.dom()
            &&& guest::mapped(r, x, 8)
            &&& guest::mapped(r, y, 8)
            &&& guest::mapped(r, z, 0x1000)
            &&& guest::load(r, x, 8) == b4
            &&& guest::load(r, y, 8) == b3
            &&& guest::load(r, z, 0x1000) == b2
        }),
{
    let r = guest::overwrite(guest::overwrite(guest::overwrite(m, x, b4), y, b3), z, b2);
    assert(r.dom() =~= m.dom());
    assert(guest::load(r, x, 8) =~= b4);
    assert(guest::load(r, y, 8) =~= b3);
    assert(guest::load(r, z, 0x1000) =~= b2);
}

/// The entries of the page directory are found where they belong.
proof fn directory_entry(r: GuestMem, pde: u64, i: int)
    requires
        guest::mapped(r, pde as int, 0x1000),
        guest::load(r, pde as int, 0x1000) == memory::large_pages(512),
        0 <= i < 512,
    ensures
        guest::mapped(r, pde + 8 * i, 8),
        guest::load(r, pde + 8 * i, 8) == bytes::le64((i * 0x20_0000 + 0x83) as u64),
{
    let b2 = memory::large_pages(512);
    let want = bytes::le64((i * 0x20_0000 + 0x83) as u64);
    large_pages_entry(512, i);
    assert(want.len() == 8);
    assert forall|k: int| 0 <= k < 8 implies #[trigger] guest::load(r, pde + 8 * i, 8)[k]
        == want[k] by {
        assert(guest::load(r, pde as int, 0x1000)[8 * i + k] == r[pde + (8 * i + k)]);
        assert(b2[8 * i + k] == want[k]);
    }
    assert(guest::load(r, pde + 8 * i, 8) =~= want);
}

} // verus!
