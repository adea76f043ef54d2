use crate::layout::{align_up, aligned_start, lemma_aligned_start, pages_to_hold, PAGE_SIZE_BYTES};
use vstd::prelude::*;

verus! {

/// Position of an entry in its stack, counted from 0 in push order.
pub type EntryId = usize;

/// One pushed buffer: its payload, the alignment it asked for, and the offset it was given.
#[derive(PartialEq, Eq, Clone, Debug)]
pub struct DataEntry {
    pub alignment: usize,
    pub offset: usize,
    pub data: Vec<u8>,
}

impl DataEntry {
    /// First byte past this entry's payload.
    pub open spec fn end(&self) -> int {
        self.offset + self.data@.len()
    }
}

/// End of the entry before position `i`, or 0 for the first entry.
pub open spec fn prev_end(entries: Seq<DataEntry>, i: int) -> int {
    if i == 0 {
        0
    } else {
        entries[i - 1].end()
    }
}

/// Byte extent of a layout: the end of its last entry, or 0 when there is none.
pub open spec fn extent(entries: Seq<DataEntry>) -> int {
    prev_end(entries, entries.len() as int)
}

/// Every entry has a positive alignment and starts at the smallest multiple of it that
/// is at or after the end of the entry before it; every end fits in a `usize`.
pub open spec fn well_laid(entries: Seq<DataEntry>) -> bool {
    forall|i: int|
        0 <= i < entries.len() ==> {
            &&& #[trigger] entries[i].alignment >= 1
            &&& entries[i].offset == aligned_start(prev_end(entries, i), entries[i].alignment as int)
            &&& entries[i].end() <= usize::MAX
        }
}

/// An append-only layout of byte buffers, each placed at the next offset that its
/// alignment allows.
#[derive(PartialEq, Eq, Clone, Debug)]
pub struct Stack {
    entries: Vec<DataEntry>,
}

impl View for Stack {
    type V = Seq<DataEntry>;

    closed spec fn view(&self) -> Seq<DataEntry> {
        self.entries@
    }
}

impl Stack {
    /// The layout invariant, which holds of every stack built by `new` and `push`.
    pub open spec fn wf(&self) -> bool {
        well_laid(self@)
    }

    /// End of the last entry, or 0 for an empty stack.
    pub open spec fn extent(&self) -> int {
        extent(self@)
    }

    /// An empty stack.
    pub fn new() -> (r: Self)
        ensures
            r@ == Seq::<DataEntry>::empty(),
            r.wf(),
    {
        Self { entries: Vec::new() }
    }

    /// The entry at position `id`, or `None` past the last one.
    pub fn get_entry(&self, id: EntryId) -> (r: Option<&DataEntry>)
        ensures
            r.is_some() <==> id < self@.len(),
            r.is_some() ==> *r.unwrap() == self@[id as int],
    {
        if id < self.entries.len() {
            Some(&self.entries[id])
        } else {
            None
        }
    }

    /// Mutable access to the entry at position `id`, or `None` past the last one.
    /// Offsets are fixed when an entry is pushed: changing the alignment or the payload
    /// length of an entry that has successors leaves the layout invariant broken.
    pub fn get_entry_mut(&mut self, id: EntryId) -> (r: Option<&mut DataEntry>)
        ensures
            r.is_some() <==> id < old(self)@.len(),
            r.is_some() ==> *r.unwrap() == old(self)@[id as int],
            r.is_some() ==> final(self)@ == old(self)@.update(id as int, *final(r.unwrap())),
            r.is_none() ==> final(self)@ == old(self)@,
    {
        if id < self.entries.len() {
            Some(&mut self.entries[id])
        } else {
            None
        }
    }

    /// Appends `data` at the smallest multiple of `alignment` at or after the end of the
    /// last entry, and returns the new entry's position and offset.
    pub fn push(&mut self, data: Vec<u8>, alignment: usize) -> (r: (EntryId, usize))
        requires
            alignment >= 1,
            aligned_start(old(self).extent(), alignment as int) + data@.len() <= usize::MAX,
        ensures
            r.0 == old(self)@.len(),
            r.1 == aligned_start(old(self).extent(), alignment as int),
            final(self)@.len() == old(self)@.len() + 1,
            final(self)@.drop_last() == old(self)@,
            final(self)@.last().alignment == alignment,
            final(self)@.last().offset == r.1,
            final(self)@.last().data@ == data@,
            old(self).wf() ==> final(self).wf(),
    {
        let n = self.entries.len();
        proof {
            lemma_aligned_start(self.extent(), alignment as int);
        }
        let prev_end_offset: usize = if n == 0 {
            0
        } else {
            let last = &self.entries[n - 1];
            last.offset + last.data.len()
        };
        let offset = align_up(prev_end_offset, alignment);
        self.entries.push(DataEntry { alignment, offset, data });
        proof {
            assert(self@.drop_last() =~= old(self)@);
            if old(self).wf() {
                assert forall|i: int| 0 <= i < self@.len() implies {
                    &&& #[trigger] self@[i].alignment >= 1
                    &&& self@[i].offset == aligned_start(prev_end(self@, i), self@[i].alignment as int)
                    &&& self@[i].end() <= usize::MAX
                } by {
                    if i < n {
                        assert(self@[i] == old(self)@[i]);
                        if i > 0 {
                            assert(self@[i - 1] == old(self)@[i - 1]);
                        }
                    }
                }
            }
        }
        (self.entries.len() - 1, offset)
    }

    /// All entries with their offsets, in push order.
    pub fn iter_entries(&self) -> (r: &[DataEntry])
        ensures
            r@ == self@,
    {
        self.entries.as_slice()
    }

    /// Number of whole pages that hold every byte up to the end of the last entry.
    pub fn memory_pages_needed(&self) -> (r: usize)
        requires
            self.extent() <= usize::MAX,
        ensures
            r == pages_to_hold(self.extent()),
            self@.len() == 0 ==> r == 0,
    {
        let n = self.entries.len();
        if n == 0 {
            return 0;
        }
        let entry = &self.entries[n - 1];
        let data_len = entry.offset + entry.data.len();
        let extra_page_needed = data_len % PAGE_SIZE_BYTES > 0;
        data_len / PAGE_SIZE_BYTES + if extra_page_needed { 1 } else { 0 }
    }
}

/// In a stack built by pushes, every entry starts at a multiple of its alignment.
pub proof fn lemma_offsets_aligned(s: Stack)
    requires
        s.wf(),
    ensures
        forall|i: int|
            #![trigger s@[i]]
            0 <= i < s@.len() ==> (s@[i].offset as int) % (s@[i].alignment as int) == 0,
{
    assert forall|i: int|
        #![trigger s@[i]]
        0 <= i < s@.len() implies (s@[i].offset as int) % (s@[i].alignment as int) == 0 by {
        lemma_prev_end_nonneg(s@, i);
        lemma_aligned_start(prev_end(s@, i), s@[i].alignment as int);
    }
}

/// In a stack built by pushes, each entry starts at or after the end of the one before it,
/// so no two consecutive entries overlap.
pub proof fn lemma_no_overlap(s: Stack)
    requires
        s.wf(),
    ensures
        forall|i: int, j: int|
            0 <= i && j == i + 1 && j < s@.len() ==> #[trigger] s@[j].offset >= #[trigger] s@[i].end(),
{
    assert forall|i: int, j: int|
        0 <= i && j == i + 1 && j < s@.len() implies #[trigger] s@[j].offset >= #[trigger] s@[i].end() by {
        lemma_prev_end_nonneg(s@, j);
        lemma_aligned_start(prev_end(s@, j), s@[j].alignment as int);
    }
}

/// In a stack built by pushes, no entry carries excess padding: its offset is the smallest
/// multiple of its alignment at or after the end of the entry before it.
pub proof fn lemma_minimal_padding(s: Stack)
    requires
        s.wf(),
    ensures
        forall|i: int, j: int, k: int|
            0 <= i && j == i + 1 && j < s@.len() && k >= #[trigger] s@[i].end() && #[trigger] (k
                % (s@[j].alignment as int)) == 0 ==> k >= s@[j].offset,
{
    assert forall|i: int, j: int, k: int|
        0 <= i && j == i + 1 && j < s@.len() && k >= #[trigger] s@[i].end() && #[trigger] (k % (
        s@[j].alignment as int)) == 0 implies k >= s@[j].offset by {
        lemma_prev_end_nonneg(s@, j);
        lemma_aligned_start(prev_end(s@, j), s@[j].alignment as int);
    }
}

proof fn lemma_prev_end_nonneg(entries: Seq<DataEntry>, i: int)
    requires
        0 <= i <= entries.len(),
    ensures
        prev_end(entries, i) >= 0,
{
}

impl Default for Stack {
    fn default() -> (r: Self)
        ensures
            r@ == Seq::<DataEntry>::empty(),
            r.wf(),
    {
        Self::new()
    }
}

} // verus!
