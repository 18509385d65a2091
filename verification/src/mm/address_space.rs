//! The address space of a task: a list of mapped pages, each with its own
//! frame, looked up by page number.
use crate::config::PAGE_SIZE;
use crate::error::SyscallError;
use crate::mm::model::{
    byte_at, lemma_write_nothing, lemma_write_one_more, map_effect, memory_wf,
    page_touches, poke, range_free, range_mapped, range_valid, read_effect, unmap_effect,
    write_effect, zero_bytes, zero_page, MapPermission, PageView,
};
use crate::mm::span::{
    lemma_spans_grow, lemma_spans_in_order, lemma_spans_tile_range, lemma_spans_total_len, spans_of,
    total_len, ByteSpan,
};
use vstd::prelude::*;

verus! {

/// A mapped page: its number, what the task may do with it, and the frame
/// that backs it.
struct PageEntry {
    vpn: usize,
    perm: MapPermission,
    frame: Vec<u8>,
}

/// The pages that a task has mapped. No page is listed twice, and every frame
/// is one page long.
pub struct AddressSpace {
    entries: Vec<PageEntry>,
}

/// The entry as the model sees it.
spec fn entry_view(e: PageEntry) -> PageView {
    PageView { perm: e.perm, bytes: e.frame@ }
}

/// Every frame is one page long, and no page number occurs twice.
spec fn entries_wf(es: Seq<PageEntry>) -> bool {
    &&& forall|i: int| 0 <= i < es.len() ==> (#[trigger] es[i]).frame@.len() == PAGE_SIZE
    &&& forall|i: int, j: int|
        0 <= i < j < es.len() ==> (#[trigger] es[i]).vpn != (#[trigger] es[j]).vpn
}

/// Some entry is for page `vpn`.
spec fn holds(es: Seq<PageEntry>, vpn: int) -> bool {
    exists|i: int| 0 <= i < es.len() && (#[trigger] es[i]).vpn == vpn
}

/// Index of the entry for page `vpn`, where there is one.
spec fn slot_of(es: Seq<PageEntry>, vpn: int) -> int {
    choose|i: int| 0 <= i < es.len() && (#[trigger] es[i]).vpn == vpn
}

/// The pages that the entries list, by their numbers.
spec fn model(es: Seq<PageEntry>) -> Map<int, PageView> {
    Map::new(|vpn: int| holds(es, vpn), |vpn: int| entry_view(es[slot_of(es, vpn)]))
}

/// The model holds each entry under its page number.
proof fn lemma_model_at(es: Seq<PageEntry>, i: int)
    requires
        entries_wf(es),
        0 <= i < es.len(),
    ensures
        model(es).dom().contains(es[i].vpn as int),
        model(es)[es[i].vpn as int] == entry_view(es[i]),
{
    let vpn = es[i].vpn as int;
    assert(holds(es, vpn));
    let s = slot_of(es, vpn);
    assert(s == i) by {
        if s < i {
            assert(es[s].vpn != es[i].vpn);
        } else if i < s {
            assert(es[i].vpn != es[s].vpn);
        }
    }
}

/// The pages of well-formed entries are whole.
proof fn lemma_model_wf(es: Seq<PageEntry>)
    requires
        entries_wf(es),
    ensures
        memory_wf(model(es)),
{
    assert forall|vpn: int| #[trigger]
        model(es).dom().contains(vpn) implies model(es)[vpn].bytes.len() == PAGE_SIZE by {
        let s = slot_of(es, vpn);
        assert(es[s].frame@.len() == PAGE_SIZE);
    }
}

/// An entry for a page that is not listed yet adds that page to the model.
proof fn lemma_model_push(es: Seq<PageEntry>, e: PageEntry)
    requires
        entries_wf(es),
        !holds(es, e.vpn as int),
        e.frame@.len() == PAGE_SIZE,
    ensures
        entries_wf(es.push(e)),
        model(es.push(e)) == model(es).insert(e.vpn as int, entry_view(e)),
{
    let grown = es.push(e);
    assert forall|i: int, j: int| 0 <= i < j < grown.len() implies (#[trigger] grown[i]).vpn != (
    #[trigger] grown[j]).vpn by {
        if j == es.len() {
            assert(es[i].vpn != e.vpn);
        } else {
            assert(es[i].vpn != es[j].vpn);
        }
    }
    let target = model(es).insert(e.vpn as int, entry_view(e));
    assert forall|vpn: int| model(grown).dom().contains(vpn) <==> target.dom().contains(vpn) by {
        if holds(grown, vpn) {
            let i = slot_of(grown, vpn);
            if i < es.len() {
                assert(es[i].vpn == vpn);
            }
        }
        if holds(es, vpn) {
            let i = slot_of(es, vpn);
            assert(grown[i].vpn == vpn);
        }
        if vpn == e.vpn {
            assert(grown[es.len() as int].vpn == vpn);
        }
    }
    assert forall|vpn: int| model(grown).dom().contains(vpn) implies #[trigger] model(grown)[vpn]
        == target[vpn] by {
        let i = slot_of(grown, vpn);
        lemma_model_at(grown, i);
        if i < es.len() {
            lemma_model_at(es, i);
        }
    }
    assert(model(grown) =~= target);
}

/// An entry put in the place of another for the same page replaces that page
/// in the model.
proof fn lemma_model_update(es: Seq<PageEntry>, i: int, e: PageEntry)
    requires
        entries_wf(es),
        0 <= i < es.len(),
        e.vpn == es[i].vpn,
        e.frame@.len() == PAGE_SIZE,
    ensures
        entries_wf(es.update(i, e)),
        model(es.update(i, e)) == model(es).insert(e.vpn as int, entry_view(e)),
{
    let changed = es.update(i, e);
    assert forall|a: int, b: int| 0 <= a < b < changed.len() implies (#[trigger] changed[a]).vpn
        != (#[trigger] changed[b]).vpn by {
        assert(es[a].vpn != es[b].vpn);
    }
    let target = model(es).insert(e.vpn as int, entry_view(e));
    assert forall|vpn: int| model(changed).dom().contains(vpn) <==> target.dom().contains(vpn) by {
        if holds(changed, vpn) {
            let k = slot_of(changed, vpn);
            assert(es[k].vpn == vpn);
        }
        if holds(es, vpn) {
            let k = slot_of(es, vpn);
            assert(changed[k].vpn == vpn);
        }
        if vpn == e.vpn {
            assert(changed[i].vpn == vpn);
        }
    }
    assert forall|vpn: int| model(changed).dom().contains(vpn) implies #[trigger] model(
        changed,
    )[vpn] == target[vpn] by {
        let k = slot_of(changed, vpn);
        lemma_model_at(changed, k);
        lemma_model_at(es, k);
    }
    assert(model(changed) =~= target);
}

/// Taking an entry out takes its page out of the model.
proof fn lemma_model_remove(es: Seq<PageEntry>, i: int)
    requires
        entries_wf(es),
        0 <= i < es.len(),
    ensures
        entries_wf(es.remove(i)),
        model(es.remove(i)) == model(es).remove(es[i].vpn as int),
{
    let rest = es.remove(i);
    assert forall|a: int, b: int| 0 <= a < b < rest.len() implies (#[trigger] rest[a]).vpn != (
    #[trigger] rest[b]).vpn by {
        let a0 = if a < i { a } else { a + 1 };
        let b0 = if b < i { b } else { b + 1 };
        assert(es[a0].vpn != es[b0].vpn);
    }
    assert forall|a: int| 0 <= a < rest.len() implies (#[trigger] rest[a]).frame@.len()
        == PAGE_SIZE by {
        let a0 = if a < i { a } else { a + 1 };
        assert(es[a0].frame@.len() == PAGE_SIZE);
    }
    let target = model(es).remove(es[i].vpn as int);
    assert forall|vpn: int| model(rest).dom().contains(vpn) <==> target.dom().contains(vpn) by {
        if holds(rest, vpn) {
            let k = slot_of(rest, vpn);
            let k0 = if k < i { k } else { k + 1 };
            assert(es[k0].vpn == vpn);
            if k0 < i {
                assert(es[k0].vpn != es[i].vpn);
            } else {
                assert(es[i].vpn != es[k0].vpn);
            }
        }
        if holds(es, vpn) && vpn != es[i].vpn {
            let k0 = slot_of(es, vpn);
            let k = if k0 < i { k0 } else { k0 - 1 };
            assert(rest[k].vpn == vpn);
        }
    }
    assert forall|vpn: int| model(rest).dom().contains(vpn) implies #[trigger] model(rest)[vpn]
        == target[vpn] by {
        let k = slot_of(rest, vpn);
        let k0 = if k < i { k } else { k + 1 };
        lemma_model_at(rest, k);
        lemma_model_at(es, k0);
    }
    assert(model(rest) =~= target);
}

/// Index of the entry for page `vpn`, if the page is mapped.
fn find_entry(entries: &Vec<PageEntry>, vpn: usize) -> (slot: Option<usize>)
    ensures
        match slot {
            Some(i) => i < entries@.len() && entries@[i as int].vpn == vpn,
            None => !holds(entries@, vpn as int),
        },
{
    let mut i: usize = 0;
    while i < entries.len()
        invariant
            i <= entries@.len(),
            forall|k: int| 0 <= k < i ==> (#[trigger] entries@[k]).vpn != vpn,
        decreases entries@.len() - i,
    {
        if entries[i].vpn == vpn {
            return Some(i);
        }
        i += 1;
    }
    None
}

/// A frame of zeroes.
fn zeroed_frame() -> (frame: Vec<u8>)
    ensures
        frame@ == zero_bytes(),
{
    let mut frame: Vec<u8> = Vec::new();
    let mut i: usize = 0;
    while i < PAGE_SIZE
        invariant
            i <= PAGE_SIZE,
            frame@.len() == i,
            forall|k: int| 0 <= k < i ==> frame@[k] == 0u8,
        decreases PAGE_SIZE - i,
    {
        frame.push(0u8);
        i += 1;
    }
    assert(frame@ =~= zero_bytes());
    frame
}

impl View for AddressSpace {
    type V = Map<int, PageView>;

    /// The mapped pages by their numbers.
    closed spec fn view(&self) -> Map<int, PageView> {
        model(self.entries@)
    }
}

impl AddressSpace {
    /// Holds of every address space: no page is listed twice, and every
    /// page is whole.
    #[verifier::type_invariant]
    pub open spec fn well_formed(self) -> bool {
        &&& self.pages_distinct()
        &&& memory_wf(self@)
    }

    /// No page is listed twice, and every frame is one page long.
    pub closed spec fn pages_distinct(self) -> bool {
        entries_wf(self.entries@)
    }

    /// An address space with nothing mapped.
    pub fn new() -> (space: AddressSpace)
        ensures
            space@ == Map::<int, PageView>::empty(),
    {
        let space = AddressSpace { entries: Vec::new() };
        assert(space@ =~= Map::<int, PageView>::empty());
        space
    }

    /// Whether page `vpn` is mapped.
    pub fn is_mapped(&self, vpn: usize) -> (mapped: bool)
        ensures
            mapped == self@.dom().contains(vpn as int),
    {
        proof {
            use_type_invariant(&*self);
        }
        find_entry(&self.entries, vpn).is_some()
    }

    /// What the task may do with page `vpn`, if the page is mapped.
    pub fn permission_of(&self, vpn: usize) -> (perm: Option<MapPermission>)
        ensures
            perm == if self@.dom().contains(vpn as int) {
                Some(self@[vpn as int].perm)
            } else {
                None::<MapPermission>
            },
    {
        proof {
            use_type_invariant(&*self);
        }
        match find_entry(&self.entries, vpn) {
            Some(i) => {
                proof {
                    lemma_model_at(self.entries@, i as int);
                }
                Some(self.entries[i].perm)
            },
            None => None,
        }
    }

    /// Cuts the byte range `[start, start + len)` into runs that each lie in
    /// one mapped page, in the order of their addresses. The range is refused
    /// as a whole if it runs past the end of the address space or touches a
    /// page that is not mapped.
    pub fn translated_byte_buffer(&self, start: usize, len: usize) -> (spans: Result<
        Vec<ByteSpan>,
        SyscallError,
    >)
        ensures
            spans is Ok <==> range_valid(start as int, len as int) && range_mapped(
                self@,
                start as int,
                len as int,
            ),
            spans matches Ok(runs) ==> {
                &&& runs@ == spans_of(start as int, len as int)
                &&& total_len(runs@) == len
                &&& forall|i: int| 0 <= i < runs@.len() ==> (#[trigger] runs@[i]).in_one_page()
                &&& forall|i: int|
                    0 <= i < runs@.len() ==> self@.dom().contains((#[trigger] runs@[i]).vpn as int)
                &&& forall|i: int, j: int|
                    0 <= i < j < runs@.len() ==> (#[trigger] runs@[i]).end() <= (
                    #[trigger] runs@[j]).start()
            },
            spans matches Err(e) ==> e == SyscallError::InvalidAddress,
    {
        proof {
            use_type_invariant(&*self);
        }
        let end = match start.checked_add(len) {
            Some(end) => end,
            None => {
                return Err(SyscallError::InvalidAddress);
            },
        };
        let mut runs: Vec<ByteSpan> = Vec::new();
        let mut cur = start;
        assert(runs@ =~= spans_of(start as int, 0));
        while cur < end
            invariant
                start <= cur <= end,
                end == start + len,
                cur == start || cur == end || cur % PAGE_SIZE == 0,
                runs@ == spans_of(start as int, cur - start),
                range_mapped(self@, start as int, cur - start),
            decreases end - cur,
        {
            let vpn = cur / PAGE_SIZE;
            if find_entry(&self.entries, vpn).is_none() {
                assert(page_touches(vpn as int, start as int, len as int));
                return Err(SyscallError::InvalidAddress);
            }
            let offset = cur % PAGE_SIZE;
            let room = PAGE_SIZE - offset;
            let more = if end - cur < room { end - cur } else { room };
            proof {
                lemma_spans_grow(start as int, cur - start, more as int);
                assert forall|v: int| #[trigger]
                    page_touches(v, start as int, cur - start + more) implies self@.dom().contains(
                    v,
                ) by {
                    if v != vpn {
                        assert(page_touches(v, start as int, cur - start));
                    }
                }
            }
            runs.push(ByteSpan { vpn, offset, len: more });
            cur = cur + more;
        }
        proof {
            lemma_spans_tile_range(start as int, len as int);
            lemma_spans_total_len(start as int, len as int);
            lemma_spans_in_order(start as int, len as int);
        }
        Ok(runs)
    }

    /// Reads the `len` bytes at address `start`, page by page. Nothing is read
    /// unless the whole range is mapped.
    pub fn read_bytes(&self, start: usize, len: usize) -> (bytes: Result<Vec<u8>, SyscallError>)
        ensures
            bytes is Ok <==> range_valid(start as int, len as int) && range_mapped(
                self@,
                start as int,
                len as int,
            ),
            bytes matches Ok(read) ==> read@ == read_effect(self@, start as int, len as int),
            bytes matches Err(e) ==> e == SyscallError::InvalidAddress,
    {
        proof {
            use_type_invariant(&*self);
        }
        let runs = match self.translated_byte_buffer(start, len) {
            Ok(runs) => runs,
            Err(e) => {
                return Err(e);
            },
        };
        proof {
            lemma_spans_tile_range(start as int, len as int);
        }
        let mut read: Vec<u8> = Vec::new();
        let mut k: usize = 0;
        while k < runs.len()
            invariant
                entries_wf(self.entries@),
                range_valid(start as int, len as int),
                range_mapped(self@, start as int, len as int),
                runs@ == spans_of(start as int, len as int),
                k <= runs@.len(),
                read@.len() <= len,
                k < runs@.len() ==> start + read@.len() == runs@[k as int].start(),
                k == runs@.len() ==> read@.len() == len,
                read@ == read_effect(self@, start as int, read@.len() as int),
            decreases runs@.len() - k,
        {
            let run = runs[k];
            assert(run.in_one_page());
            assert(page_touches(run.vpn as int, start as int, len as int));
            let slot = find_entry(&self.entries, run.vpn).unwrap();
            proof {
                lemma_model_at(self.entries@, slot as int);
            }
            let mut j: usize = 0;
            while j < run.len
                invariant
                    entries_wf(self.entries@),
                    run.in_one_page(),
                    j <= run.len,
                    slot < self.entries@.len(),
                    self.entries@[slot as int].vpn == run.vpn,
                    self@[run.vpn as int] == entry_view(self.entries@[slot as int]),
                    start + read@.len() == run.start() + j,
                    read@ == read_effect(self@, start as int, read@.len() as int),
                decreases run.len - j,
            {
                let ghost before = read@;
                read.push(self.entries[slot].frame[run.offset + j]);
                assert(read@ =~= read_effect(self@, start as int, read@.len() as int)) by {
                    assert(byte_at(self@, start + before.len()) == read@[before.len() as int]);
                }
                j += 1;
            }
            k += 1;
        }
        Ok(read)
    }

    /// Stores `data` at address `start`, page by page. Nothing is stored
    /// unless the whole range is mapped.
    pub fn write_bytes(&mut self, start: usize, data: &[u8]) -> (done: Result<(), SyscallError>)
        ensures
            done is Ok <==> range_valid(start as int, data@.len() as int) && range_mapped(
                old(self)@,
                start as int,
                data@.len() as int,
            ),
            done is Ok ==> final(self)@ == write_effect(old(self)@, start as int, data@),
            done matches Err(e) ==> e == SyscallError::InvalidAddress && final(self)@ == old(self)@,
    {
        proof {
            use_type_invariant(&*self);
        }
        let len = data.len();
        let runs = match self.translated_byte_buffer(start, len) {
            Ok(runs) => runs,
            Err(e) => {
                return Err(e);
            },
        };
        let ghost before = self@;
        let mut entries: Vec<PageEntry> = Vec::new();
        std::mem::swap(&mut entries, &mut self.entries);
        proof {
            lemma_spans_tile_range(start as int, len as int);
            lemma_write_nothing(before, start as int);
            assert(data@.take(0) =~= Seq::<u8>::empty());
        }
        let mut copied: usize = 0;
        let mut k: usize = 0;
        while k < runs.len()
            invariant
                entries_wf(entries@),
                memory_wf(before),
                len == data@.len(),
                range_valid(start as int, len as int),
                range_mapped(before, start as int, len as int),
                runs@ == spans_of(start as int, len as int),
                k <= runs@.len(),
                copied <= len,
                k < runs@.len() ==> start + copied == runs@[k as int].start(),
                k == runs@.len() ==> copied == len,
                model(entries@) == write_effect(before, start as int, data@.take(copied as int)),
            decreases runs@.len() - k,
        {
            let run = runs[k];
            assert(run.in_one_page());
            assert(page_touches(run.vpn as int, start as int, len as int));
            assert(model(entries@).dom().contains(run.vpn as int));
            let slot = find_entry(&entries, run.vpn).unwrap();
            let mut j: usize = 0;
            while j < run.len
                invariant
                    entries_wf(entries@),
                    memory_wf(before),
                    len == data@.len(),
                    before.dom().contains(run.vpn as int),
                    run.in_one_page(),
                    j <= run.len,
                    slot < entries@.len(),
                    entries@[slot as int].vpn == run.vpn,
                    start + copied == run.start() + j,
                    run.end() <= start + len,
                    0 <= start,
                    model(entries@) == write_effect(
                        before,
                        start as int,
                        data@.take(copied as int),
                    ),
                decreases run.len - j,
            {
                let ghost es = entries@;
                let value = data[copied];
                entries[slot].frame[run.offset + j] = value;
                proof {
                    let stored = data@.take(copied as int);
                    assert(data@.take(copied + 1) =~= stored.push(value));
                    lemma_model_at(es, slot as int);
                    assert(entries@ =~= es.update(slot as int, entries@[slot as int]));
                    lemma_model_update(es, slot as int, entries@[slot as int]);
                    lemma_write_one_more(before, start as int, stored, value);
                    assert(model(entries@) =~~= poke(model(es), start + copied, value));
                }
                copied += 1;
                j += 1;
            }
            k += 1;
        }
        proof {
            assert(data@.take(len as int) =~= data@);
            lemma_model_wf(entries@);
        }
        self.entries = entries;
        Ok(())
    }

    /// Maps fresh zeroed pages, with permission `perm`, over every page that
    /// the byte range `[start, start + len)` touches. Nothing is mapped unless
    /// the range ends inside the address space and all of its pages are free.
    pub fn map_new_pages(&mut self, start: usize, len: usize, perm: MapPermission) -> (done: Result<
        (),
        SyscallError,
    >)
        ensures
            done is Ok <==> range_valid(start as int, len as int) && range_free(
                old(self)@,
                start as int,
                len as int,
            ),
            done is Ok ==> final(self)@ == map_effect(old(self)@, start as int, len as int, perm),
            done matches Err(e) ==> e == SyscallError::InvalidAddress && final(self)@ == old(self)@,
    {
        proof {
            use_type_invariant(&*self);
        }
        let end = match start.checked_add(len) {
            Some(end) => end,
            None => {
                return Err(SyscallError::InvalidAddress);
            },
        };
        if len == 0 {
            assert(map_effect(self@, start as int, len as int, perm) =~= self@);
            return Ok(());
        }
        let first = start / PAGE_SIZE;
        let last = (end - 1) / PAGE_SIZE;
        let mut vpn = first;
        while vpn <= last
            invariant
                entries_wf(self.entries@),
                len > 0,
                first == start / PAGE_SIZE,
                last == (start + len - 1) / (PAGE_SIZE as int),
                first <= vpn <= last + 1,
                forall|v: int| first <= v < vpn ==> !self@.dom().contains(v),
            decreases last + 1 - vpn,
        {
            if let Some(slot) = find_entry(&self.entries, vpn) {
                proof {
                    lemma_model_at(self.entries@, slot as int);
                    assert(page_touches(vpn as int, start as int, len as int));
                }
                return Err(SyscallError::InvalidAddress);
            }
            vpn += 1;
        }
        let ghost before = self@;
        let ghost base = first * PAGE_SIZE;
        let mut entries: Vec<PageEntry> = Vec::new();
        std::mem::swap(&mut entries, &mut self.entries);
        let mut vpn = first;
        assert(map_effect(before, base, 0, perm) =~= before);
        while vpn <= last
            invariant
                entries_wf(entries@),
                first <= vpn <= last + 1,
                last <= usize::MAX / PAGE_SIZE,
                base == first * PAGE_SIZE,
                forall|v: int| first <= v <= last ==> !before.dom().contains(v),
                model(entries@) == map_effect(before, base, (vpn - first) * PAGE_SIZE, perm),
            decreases last + 1 - vpn,
        {
            let frame = zeroed_frame();
            let entry = PageEntry { vpn, perm, frame };
            proof {
                let mapped = map_effect(before, base, (vpn - first) * PAGE_SIZE, perm);
                assert(!mapped.dom().contains(vpn as int)) by {
                    assert(!page_touches(vpn as int, base, (vpn - first) * PAGE_SIZE));
                }
                lemma_model_push(entries@, entry);
                assert(entry_view(entry) == zero_page(perm));
                assert(mapped.insert(vpn as int, zero_page(perm)) =~= map_effect(
                    before,
                    base,
                    (vpn + 1 - first) * PAGE_SIZE,
                    perm,
                ));
            }
            entries.push(entry);
            vpn += 1;
        }
        proof {
            assert(map_effect(before, base, (last + 1 - first) * PAGE_SIZE, perm) =~= map_effect(
                before,
                start as int,
                len as int,
                perm,
            ));
            lemma_model_wf(entries@);
        }
        self.entries = entries;
        Ok(())
    }

    /// Unmaps every page that the byte range `[start, start + len)` touches.
    /// Nothing is unmapped unless the range ends inside the address space and
    /// all of its pages are mapped.
    pub fn unmap_pages(&mut self, start: usize, len: usize) -> (done: Result<(), SyscallError>)
        ensures
            done is Ok <==> range_valid(start as int, len as int) && range_mapped(
                old(self)@,
                start as int,
                len as int,
            ),
            done is Ok ==> final(self)@ == unmap_effect(old(self)@, start as int, len as int),
            done matches Err(e) ==> e == SyscallError::InvalidAddress && final(self)@ == old(self)@,
    {
        proof {
            use_type_invariant(&*self);
        }
        let end = match start.checked_add(len) {
            Some(end) => end,
            None => {
                return Err(SyscallError::InvalidAddress);
            },
        };
        if len == 0 {
            assert(unmap_effect(self@, start as int, len as int) =~= self@);
            return Ok(());
        }
        let first = start / PAGE_SIZE;
        let last = (end - 1) / PAGE_SIZE;
        let mut vpn = first;
        while vpn <= last
            invariant
                entries_wf(self.entries@),
                len > 0,
                first == start / PAGE_SIZE,
                last == (start + len - 1) / (PAGE_SIZE as int),
                first <= vpn <= last + 1,
                forall|v: int| first <= v < vpn ==> self@.dom().contains(v),
            decreases last + 1 - vpn,
        {
            match find_entry(&self.entries, vpn) {
                Some(slot) => {
                    proof {
                        lemma_model_at(self.entries@, slot as int);
                    }
                },
                None => {
                    assert(page_touches(vpn as int, start as int, len as int));
                    return Err(SyscallError::InvalidAddress);
                },
            }
            vpn += 1;
        }
        self.release_pages(start, len);
        Ok(())
    }

    /// Unmaps whichever pages are mapped among those that the byte range
    /// `[start, start + len)` touches. A range that runs past the end of the
    /// address space is left alone.
    pub fn release_pages(&mut self, start: usize, len: usize)
        ensures
            final(self)@ == if range_valid(start as int, len as int) {
                unmap_effect(old(self)@, start as int, len as int)
            } else {
                old(self)@
            },
    {
        proof {
            use_type_invariant(&*self);
        }
        let end = match start.checked_add(len) {
            Some(end) => end,
            None => {
                return ;
            },
        };
        if len == 0 {
            assert(unmap_effect(self@, start as int, len as int) =~= self@);
            return ;
        }
        let first = start / PAGE_SIZE;
        let last = (end - 1) / PAGE_SIZE;
        let ghost before = self@;
        let ghost base = first * PAGE_SIZE;
        let mut entries: Vec<PageEntry> = Vec::new();
        std::mem::swap(&mut entries, &mut self.entries);
        let mut vpn = first;
        assert(unmap_effect(before, base, 0) =~= before);
        while vpn <= last
            invariant
                entries_wf(entries@),
                first <= vpn <= last + 1,
                last <= usize::MAX / PAGE_SIZE,
                base == first * PAGE_SIZE,
                model(entries@) == unmap_effect(before, base, (vpn - first) * PAGE_SIZE),
            decreases last + 1 - vpn,
        {
            let ghost kept = unmap_effect(before, base, (vpn - first) * PAGE_SIZE);
            let ghost next = unmap_effect(before, base, (vpn + 1 - first) * PAGE_SIZE);
            match find_entry(&entries, vpn) {
                Some(slot) => {
                    proof {
                        lemma_model_remove(entries@, slot as int);
                        assert(kept.remove(vpn as int) =~= next);
                    }
                    entries.remove(slot);
                },
                None => {
                    assert(kept =~= next);
                },
            }
            vpn += 1;
        }
        proof {
            assert(unmap_effect(before, base, (last + 1 - first) * PAGE_SIZE) =~= unmap_effect(
                before,
                start as int,
                len as int,
            ));
            lemma_model_wf(entries@);
        }
        self.entries = entries;
    }
}

} // verus!
