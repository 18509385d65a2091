//! The mathematical model of an address space, and what mapping, unmapping,
//! reading and writing do to it.
use crate::config::PAGE_SIZE;
use vstd::prelude::*;

verus! {

/// What a task may do with a page.
#[derive(Clone, Copy, Debug, PartialEq, Eq, Structural)]
pub struct MapPermission {
    pub readable: bool,
    pub writable: bool,
    pub executable: bool,
}

impl MapPermission {
    /// The permission words that name at least one of read, write and execute
    /// and nothing else.
    pub open spec fn valid_bits(perm_bits: int) -> bool {
        1 <= perm_bits <= 7
    }

    /// The permission that a word stands for: bit 0 is read, bit 1 is write,
    /// bit 2 is execute.
    pub open spec fn of_bits(perm_bits: int) -> MapPermission {
        MapPermission {
            readable: perm_bits % 2 == 1,
            writable: (perm_bits / 2) % 2 == 1,
            executable: (perm_bits / 4) % 2 == 1,
        }
    }

    /// Decodes a permission word, refusing the empty permission and any word
    /// with a bit set outside the lowest three.
    pub fn from_bits(perm_bits: usize) -> (perm: Option<MapPermission>)
        ensures
            perm == if Self::valid_bits(perm_bits as int) {
                Some(Self::of_bits(perm_bits as int))
            } else {
                None::<MapPermission>
            },
    {
        assert((perm_bits & !0x7usize != 0 || perm_bits & 0x7 == 0) <==> !(1 <= perm_bits <= 7))
            by (bit_vector);
        if perm_bits & !0x7 != 0 || perm_bits & 0x7 == 0 {
            return None;
        }
        assert(perm_bits <= 7 ==> ((perm_bits & 1 != 0) <==> perm_bits % 2 == 1)) by (bit_vector);
        assert(perm_bits <= 7 ==> ((perm_bits & 2 != 0) <==> (perm_bits / 2) % 2 == 1))
            by (bit_vector);
        assert(perm_bits <= 7 ==> ((perm_bits & 4 != 0) <==> (perm_bits / 4) % 2 == 1))
            by (bit_vector);
        Some(
            MapPermission {
                readable: perm_bits & 1 != 0,
                writable: perm_bits & 2 != 0,
                executable: perm_bits & 4 != 0,
            },
        )
    }
}

/// One mapped page as the model sees it.
#[verifier::ext_equal]
pub struct PageView {
    pub perm: MapPermission,
    pub bytes: Seq<u8>,
}

/// One page of zeroes.
pub open spec fn zero_bytes() -> Seq<u8> {
    Seq::new(PAGE_SIZE as nat, |i: int| 0u8)
}

/// A freshly mapped page: the permission asked for, and zeroes.
pub open spec fn zero_page(perm: MapPermission) -> PageView {
    PageView { perm, bytes: zero_bytes() }
}

/// Every mapped page holds exactly one page of bytes.
pub open spec fn memory_wf(m: Map<int, PageView>) -> bool {
    forall|vpn: int| #[trigger] m.dom().contains(vpn) ==> m[vpn].bytes.len() == PAGE_SIZE
}

/// A byte range that starts at `start`, is `len` long and ends inside the
/// address space.
pub open spec fn range_valid(start: int, len: int) -> bool {
    0 <= start && 0 <= len && start + len <= usize::MAX
}

/// Page `vpn` holds at least one byte of the range.
pub open spec fn page_touches(vpn: int, start: int, len: int) -> bool {
    len > 0 && vpn * PAGE_SIZE < start + len && start < (vpn + 1) * PAGE_SIZE
}

/// Number of the first page that the range touches.
pub open spec fn first_page(start: int) -> int {
    start / (PAGE_SIZE as int)
}

/// Number of the page after the last one that the range touches.
pub open spec fn end_page(start: int, len: int) -> int {
    if len <= 0 {
        first_page(start)
    } else {
        (start + len - 1) / (PAGE_SIZE as int) + 1
    }
}

/// The pages that a range touches are those from `first_page` up to, not
/// including, `end_page`.
pub proof fn lemma_page_touches_bounds(vpn: int, start: int, len: int)
    requires
        0 <= start,
    ensures
        page_touches(vpn, start, len) <==> first_page(start) <= vpn < end_page(start, len),
{
}

/// Every page that the range touches is mapped.
pub open spec fn range_mapped(m: Map<int, PageView>, start: int, len: int) -> bool {
    forall|vpn: int| #[trigger] page_touches(vpn, start, len) ==> m.dom().contains(vpn)
}

/// No page that the range touches is mapped.
pub open spec fn range_free(m: Map<int, PageView>, start: int, len: int) -> bool {
    forall|vpn: int| #[trigger] page_touches(vpn, start, len) ==> !m.dom().contains(vpn)
}

/// The memory after fresh zeroed pages were mapped over the range.
pub open spec fn map_effect(
    m: Map<int, PageView>,
    start: int,
    len: int,
    perm: MapPermission,
) -> Map<int, PageView> {
    Map::new(
        |vpn: int| m.dom().contains(vpn) || page_touches(vpn, start, len),
        |vpn: int| if page_touches(vpn, start, len) { zero_page(perm) } else { m[vpn] },
    )
}

/// The memory after the pages of the range were unmapped.
pub open spec fn unmap_effect(m: Map<int, PageView>, start: int, len: int) -> Map<int, PageView> {
    Map::new(
        |vpn: int| m.dom().contains(vpn) && !page_touches(vpn, start, len),
        |vpn: int| m[vpn],
    )
}

/// The byte at address `addr`.
pub open spec fn byte_at(m: Map<int, PageView>, addr: int) -> u8 {
    m[addr / (PAGE_SIZE as int)].bytes[addr % (PAGE_SIZE as int)]
}

/// The `len` bytes that start at address `start`.
pub open spec fn read_effect(m: Map<int, PageView>, start: int, len: int) -> Seq<u8> {
    Seq::new(len as nat, |i: int| byte_at(m, start + i))
}

/// The memory after `data` was stored at address `start`: the same pages with
/// the same permissions, the bytes of the range replaced, all others kept.
pub open spec fn write_effect(m: Map<int, PageView>, start: int, data: Seq<u8>) -> Map<
    int,
    PageView,
> {
    Map::new(
        |vpn: int| m.dom().contains(vpn),
        |vpn: int|
            PageView {
                perm: m[vpn].perm,
                bytes: Seq::new(
                    PAGE_SIZE as nat,
                    |o: int|
                        {
                            let addr = vpn * PAGE_SIZE + o;
                            if start <= addr < start + data.len() {
                                data[addr - start]
                            } else {
                                m[vpn].bytes[o]
                            }
                        },
                ),
            },
    )
}

/// The memory after one byte was stored at address `addr`.
pub open spec fn poke(m: Map<int, PageView>, addr: int, value: u8) -> Map<int, PageView> {
    let vpn = addr / (PAGE_SIZE as int);
    m.insert(
        vpn,
        PageView {
            perm: m[vpn].perm,
            bytes: m[vpn].bytes.update(addr % (PAGE_SIZE as int), value),
        },
    )
}

/// Storing nothing changes nothing.
pub proof fn lemma_write_nothing(m: Map<int, PageView>, start: int)
    requires
        memory_wf(m),
    ensures
        write_effect(m, start, Seq::<u8>::empty()) == m,
{
    assert forall|vpn: int| m.dom().contains(vpn) implies #[trigger] write_effect(
        m,
        start,
        Seq::<u8>::empty(),
    )[vpn] == m[vpn] by {
        assert(write_effect(m, start, Seq::<u8>::empty())[vpn].bytes =~= m[vpn].bytes);
    }
    assert(write_effect(m, start, Seq::<u8>::empty()) =~= m);
}

/// Storing one more byte behind a stored prefix is the same as storing the
/// longer sequence at once.
pub proof fn lemma_write_one_more(m: Map<int, PageView>, start: int, data: Seq<u8>, value: u8)
    requires
        memory_wf(m),
        0 <= start,
        m.dom().contains((start + data.len()) / (PAGE_SIZE as int)),
    ensures
        write_effect(m, start, data.push(value)) == poke(
            write_effect(m, start, data),
            start + data.len(),
            value,
        ),
{
    let longer = write_effect(m, start, data.push(value));
    let poked = poke(write_effect(m, start, data), start + data.len(), value);
    assert forall|vpn: int| longer.dom().contains(vpn) implies #[trigger] longer[vpn]
        == poked[vpn] by {
        assert(longer[vpn].bytes =~= poked[vpn].bytes);
    }
    assert(longer =~= poked);
}

/// What was stored through the page-by-page writer is read back unchanged,
/// however the range lies across page boundaries.
pub proof fn lemma_read_after_write(m: Map<int, PageView>, start: int, data: Seq<u8>)
    requires
        memory_wf(m),
        0 <= start,
        range_mapped(m, start, data.len() as int),
    ensures
        read_effect(write_effect(m, start, data), start, data.len() as int) == data,
{
    let after = write_effect(m, start, data);
    assert forall|i: int| 0 <= i < data.len() implies byte_at(after, start + i) == data[i] by {
        let vpn = (start + i) / (PAGE_SIZE as int);
        assert(page_touches(vpn, start, data.len() as int));
    }
    assert(read_effect(after, start, data.len() as int) =~= data);
}

/// A write changes no byte outside its range.
pub proof fn lemma_write_keeps_other_bytes(
    m: Map<int, PageView>,
    start: int,
    data: Seq<u8>,
    addr: int,
)
    requires
        memory_wf(m),
        0 <= addr,
        m.dom().contains(addr / (PAGE_SIZE as int)),
        addr < start || start + data.len() <= addr,
    ensures
        byte_at(write_effect(m, start, data), addr) == byte_at(m, addr),
{
}

/// Mapping a free range and unmapping the same range at once gives the memory
/// back as it was.
pub proof fn lemma_unmap_after_map(m: Map<int, PageView>, start: int, len: int, perm: MapPermission)
    requires
        range_free(m, start, len),
    ensures
        range_mapped(map_effect(m, start, len, perm), start, len),
        unmap_effect(map_effect(m, start, len, perm), start, len) == m,
{
    assert(unmap_effect(map_effect(m, start, len, perm), start, len) =~= m);
}

} // verus!
