//! The sampled digest: per-block digests, gathered by block index in
//! whatever order they arrive, and folded with the file's length into one
//! digest.
use crate::backend::blake3_digest;
use crate::encoding::{be_bytes, hex_chars, lemma_be_bytes_injective, u64_be_bytes};
use crate::hashing::Blake3Stream;
use crate::plan::{lemma_block_in_file, make_sample_offsets, plan, SampleBlock};
use vstd::prelude::*;
use vstd::slice::slice_subrange;

verus! {

/// The slots of a table: for each block of the plan its digest, once it
/// has arrived.
pub type Slots = Seq<Option<Seq<u8>>>;

/// Block results in the order of their arrival, each the index of a block
/// and its digest.
pub type Arrivals = Seq<(usize, Seq<u8>)>;

/// The bytes of a buffer that a positional read filled: the first `n` for
/// a read of `n` bytes, none for a failed read.
pub open spec fn bytes_read(buffer: Seq<u8>, read: Option<usize>) -> Seq<u8> {
    match read {
        Some(n) => if n <= buffer.len() {
            buffer.subrange(0, n as int)
        } else {
            buffer
        },
        None => Seq::empty(),
    }
}

/// Digest of one block: the BLAKE3 hash, by a hasher of its own, of the
/// bytes that the read of the block delivered. A failed read counts as a
/// read of no bytes.
pub fn digest_of_read(buffer: &[u8], read: Option<usize>) -> (digest: Vec<u8>)
    ensures
        digest@ == blake3_digest(bytes_read(buffer@, read)),
        digest@.len() == 32,
{
    let mut stream = Blake3Stream::new();
    match read {
        Some(n) => {
            if n <= buffer.len() {
                stream.update(slice_subrange(buffer, 0, n));
            } else {
                stream.update(buffer);
            }
        },
        None => {},
    }
    assert(stream.absorbed() =~= bytes_read(buffer@, read));
    stream.digest()
}

/// The block that a worker has claimed with `ticket`, the number it drew
/// from the shared counter: the block at that index, or none once the
/// tickets have run past the plan.
pub fn claim_block(ticket: usize, blocks: &Vec<SampleBlock>) -> (claimed: Option<SampleBlock>)
    ensures
        ticket < blocks@.len() ==> claimed == Some(blocks@[ticket as int]),
        ticket >= blocks@.len() ==> claimed is None,
{
    if ticket < blocks.len() {
        Some(blocks[ticket])
    } else {
        None
    }
}

/// The slots after the digest of block `index` has been put in its place.
/// An index outside the table changes nothing.
pub open spec fn record(slots: Slots, index: int, digest: Seq<u8>) -> Slots {
    if 0 <= index < slots.len() {
        slots.update(index, Some(digest))
    } else {
        slots
    }
}

/// The slots of a table of `count` blocks after `arrivals` have been
/// recorded one after the other.
pub open spec fn fill(count: nat, arrivals: Arrivals) -> Slots
    decreases arrivals.len(),
{
    if arrivals.len() == 0 {
        Seq::new(count, |i: int| None)
    } else {
        record(fill(count, arrivals.drop_last()), arrivals.last().0 as int, arrivals.last().1)
    }
}

/// The digests that are present, joined in index order; empty slots add nothing.
pub open spec fn join_present(slots: Slots) -> Seq<u8>
    decreases slots.len(),
{
    if slots.len() == 0 {
        Seq::empty()
    } else {
        join_present(slots.drop_last()) + match slots.last() {
            Some(digest) => digest,
            None => Seq::empty(),
        }
    }
}

/// What the final hash is taken of: the file's length as eight big-endian
/// bytes, then the block digests in index order.
pub open spec fn combination_input(file_len: u64, slots: Slots) -> Seq<u8> {
    be_bytes(file_len) + join_present(slots)
}

/// The sampled digest in hexadecimal, from the file's length and the
/// gathered block digests.
pub open spec fn combined_hex(file_len: u64, slots: Slots) -> Seq<char> {
    hex_chars(blake3_digest(combination_input(file_len, slots)))
}

/// The table in which block digests are gathered, one slot per planned
/// block, filled in any order.
pub struct SlotTable {
    slots: Vec<Option<Vec<u8>>>,
}

impl View for SlotTable {
    type V = Slots;

    closed spec fn view(&self) -> Slots {
        Seq::new(
            self.slots@.len(),
            |i: int|
                match self.slots@[i] {
                    Some(digest) => Some(digest@),
                    None => None,
                },
        )
    }
}

impl SlotTable {
    /// A table of `count` empty slots.
    pub fn new(count: usize) -> (table: Self)
        ensures
            table@ == Seq::new(count as nat, |i: int| None::<Seq<u8>>),
    {
        let mut slots: Vec<Option<Vec<u8>>> = Vec::new();
        let mut i: usize = 0;
        while i < count
            invariant
                i <= count,
                slots@.len() == i,
                forall|j: int| 0 <= j < i ==> slots@[j] is None,
            decreases count - i,
        {
            slots.push(None);
            i = i + 1;
        }
        let table = SlotTable { slots };
        assert(table@ =~= Seq::new(count as nat, |i: int| None::<Seq<u8>>));
        table
    }

    /// Number of slots.
    pub fn len(&self) -> (count: usize)
        ensures
            count == self@.len(),
    {
        self.slots.len()
    }

    /// Puts the digest of block `index` in its slot, over whatever the slot
    /// held. Returns whether the table has such a slot; if not, nothing
    /// changes.
    pub fn record(&mut self, index: usize, digest: Vec<u8>) -> (known: bool)
        ensures
            known == (index < old(self)@.len()),
            final(self)@ == record(old(self)@, index as int, digest@),
    {
        if index < self.slots.len() {
            self.slots.set(index, Some(digest));
            assert(self@ =~= record(old(self)@, index as int, digest@));
            true
        } else {
            false
        }
    }

    /// Whether every slot holds a digest.
    pub fn is_full(&self) -> (full: bool)
        ensures
            full == (forall|i: int| 0 <= i < self@.len() ==> self@[i] is Some),
    {
        let mut i: usize = 0;
        while i < self.slots.len()
            invariant
                i <= self.slots@.len(),
                forall|j: int| 0 <= j < i ==> self@[j] is Some,
            decreases self.slots@.len() - i,
        {
            if self.slots[i].is_none() {
                assert(self@[i as int] is None);
                return false;
            }
            i = i + 1;
        }
        true
    }

    /// The bytes that the final hash is taken of: the file's length as
    /// eight big-endian bytes, then the gathered block digests in index
    /// order.
    pub fn combination(&self, file_len: u64) -> (input: Vec<u8>)
        ensures
            input@ == combination_input(file_len, self@),
    {
        let mut input = u64_be_bytes(file_len);
        let mut i: usize = 0;
        assert(self@.take(0) =~= Seq::empty());
        assert(input@ =~= be_bytes(file_len) + join_present(self@.take(0)));
        while i < self.slots.len()
            invariant
                i <= self.slots@.len(),
                self@.len() == self.slots@.len(),
                input@ == be_bytes(file_len) + join_present(self@.take(i as int)),
            decreases self.slots@.len() - i,
        {
            match &self.slots[i] {
                Some(digest) => {
                    input.extend_from_slice(digest.as_slice());
                },
                None => {},
            }
            proof {
                let upto = self@.take(i as int + 1);
                assert(upto.drop_last() =~= self@.take(i as int));
                assert(upto.last() == self@[i as int]);
                assert(input@ =~= be_bytes(file_len) + join_present(upto));
            }
            i = i + 1;
        }
        assert(self@.take(i as int) =~= self@);
        input
    }

    /// The sampled digest: the hash of the file's length followed by the
    /// gathered block digests in index order, in hexadecimal.
    pub fn combine(&self, file_len: u64) -> (text: String)
        ensures
            text@ == combined_hex(file_len, self@),
    {
        let input = self.combination(file_len);
        let mut stream = Blake3Stream::new();
        stream.update(input.as_slice());
        assert(stream.absorbed() =~= input@);
        stream.hex()
    }
}

/// The bytes of `content` that `block` covers.
pub open spec fn block_bytes(content: Seq<u8>, block: SampleBlock) -> Seq<u8> {
    content.subrange(block.offset as int, block.offset + block.len)
}

/// The digest of every block of `blocks`, each read in full from `content`.
pub open spec fn block_digests(content: Seq<u8>, blocks: Seq<SampleBlock>) -> Seq<Seq<u8>> {
    Seq::new(blocks.len(), |i: int| blake3_digest(block_bytes(content, blocks[i])))
}

/// A table in which every slot holds its digest.
pub open spec fn all_present(digests: Seq<Seq<u8>>) -> Slots {
    Seq::new(digests.len(), |i: int| Some(digests[i]))
}

/// The sampled digest of `content` at `speed`, in hexadecimal: for empty
/// content the hash of no bytes, else the hash of the length followed by
/// the digests of the planned blocks.
pub open spec fn sampled_hex(content: Seq<u8>, speed: usize) -> Seq<char> {
    if content.len() == 0 {
        hex_chars(blake3_digest(Seq::empty()))
    } else {
        let file_len = content.len() as u64;
        combined_hex(file_len, all_present(block_digests(content, plan(file_len, speed))))
    }
}

/// Whether a result for block `index` is among `arrivals`.
pub open spec fn has_arrived(arrivals: Arrivals, index: int) -> bool {
    exists|k: int| 0 <= k < arrivals.len() && (#[trigger] arrivals[k]).0 == index
}

/// Whether `arrivals` are the results of one finished run over blocks whose
/// digests are `expected`: each result carries the digest of the block it
/// names, and every block has one. Order and repetition are free.
pub open spec fn is_complete_run(expected: Seq<Seq<u8>>, arrivals: Arrivals) -> bool {
    &&& forall|k: int|
        0 <= k < arrivals.len() ==> (#[trigger] arrivals[k]).0 < expected.len() && arrivals[k].1
            == expected[arrivals[k].0 as int]
    &&& forall|i: int| 0 <= i < expected.len() ==> #[trigger] has_arrived(arrivals, i)
}

/// Recording results never changes the number of slots.
pub proof fn lemma_fill_len(count: nat, arrivals: Arrivals)
    ensures
        fill(count, arrivals).len() == count,
    decreases arrivals.len(),
{
    if arrivals.len() > 0 {
        lemma_fill_len(count, arrivals.drop_last());
    }
}

/// After results that each carry the digest of the block they name, a slot
/// holds its block's digest if a result for it has arrived and is empty
/// otherwise.
proof fn lemma_fill_slot(expected: Seq<Seq<u8>>, arrivals: Arrivals, i: int)
    requires
        forall|k: int|
            0 <= k < arrivals.len() ==> (#[trigger] arrivals[k]).0 < expected.len() && arrivals[k].1
                == expected[arrivals[k].0 as int],
        0 <= i < expected.len(),
    ensures
        fill(expected.len(), arrivals).len() == expected.len(),
        has_arrived(arrivals, i) ==> fill(expected.len(), arrivals)[i] == Some(expected[i]),
        !has_arrived(arrivals, i) ==> fill(expected.len(), arrivals)[i] is None,
    decreases arrivals.len(),
{
    if arrivals.len() > 0 {
        let earlier = arrivals.drop_last();
        let newest = arrivals.last();
        assert forall|k: int| 0 <= k < earlier.len() implies (#[trigger] earlier[k]).0
            < expected.len() && earlier[k].1 == expected[earlier[k].0 as int] by {
            assert(earlier[k] == arrivals[k]);
        }
        lemma_fill_slot(expected, earlier, i);
        if newest.0 == i {
            assert(arrivals[arrivals.len() - 1].0 == i);
        } else if has_arrived(arrivals, i) {
            let k = choose|k: int| 0 <= k < arrivals.len() && (#[trigger] arrivals[k]).0 == i;
            assert(earlier[k].0 == i);
        } else {
            assert forall|k: int| 0 <= k < earlier.len() implies (#[trigger] earlier[k]).0 != i by {
                assert(earlier[k] == arrivals[k]);
            }
        }
    }
}

/// Once every block's result has arrived, in any order and from any number
/// of workers, the table holds each block's digest at its index.
pub proof fn lemma_complete_run_fills_table(expected: Seq<Seq<u8>>, arrivals: Arrivals)
    requires
        is_complete_run(expected, arrivals),
    ensures
        fill(expected.len(), arrivals) == all_present(expected),
{
    let filled = fill(expected.len(), arrivals);
    lemma_fill_len(expected.len(), arrivals);
    assert forall|i: int| 0 <= i < expected.len() implies filled.len() == expected.len()
        && filled[i] == Some(expected[i]) by {
        lemma_fill_slot(expected, arrivals, i);
    }
    assert(filled =~= all_present(expected));
}

/// Two finished runs over the same file at the same speed give the same
/// sampled digest, whatever the order in which their block results
/// arrived: the digest does not depend on the number of workers, and is
/// the one that digesting the blocks one after the other gives.
pub proof fn lemma_runs_agree(content: Seq<u8>, speed: usize, first: Arrivals, second: Arrivals)
    requires
        0 < content.len() <= u64::MAX,
        is_complete_run(block_digests(content, plan(content.len() as u64, speed)), first),
        is_complete_run(block_digests(content, plan(content.len() as u64, speed)), second),
    ensures
        ({
            let file_len = content.len() as u64;
            let count = plan(file_len, speed).len();
            &&& combined_hex(file_len, fill(count, first)) == sampled_hex(content, speed)
            &&& combined_hex(file_len, fill(count, second)) == sampled_hex(content, speed)
        }),
{
    let expected = block_digests(content, plan(content.len() as u64, speed));
    lemma_complete_run_fills_table(expected, first);
    lemma_complete_run_fills_table(expected, second);
}

/// Whether no block has more than one result among `arrivals`: every
/// block was claimed once.
pub open spec fn claims_are_unique(arrivals: Arrivals) -> bool {
    forall|j: int, k: int|
        0 <= j < k < arrivals.len() ==> (#[trigger] arrivals[j]).0 != (#[trigger] arrivals[k]).0
}

/// After results with unique claims, each slot holds the digest of the one
/// result that names it, and a slot that none names is empty.
proof fn lemma_fill_unique(count: nat, arrivals: Arrivals, i: int)
    requires
        claims_are_unique(arrivals),
        0 <= i < count,
    ensures
        forall|k: int|
            0 <= k < arrivals.len() && (#[trigger] arrivals[k]).0 == i ==> fill(count, arrivals)[i]
                == Some(arrivals[k].1),
        !has_arrived(arrivals, i) ==> fill(count, arrivals)[i] is None,
    decreases arrivals.len(),
{
    lemma_fill_len(count, arrivals);
    if arrivals.len() > 0 {
        let earlier = arrivals.drop_last();
        let last = arrivals.len() - 1;
        lemma_fill_len(count, earlier);
        assert forall|j: int, k: int| 0 <= j < k < earlier.len() implies (#[trigger] earlier[j]).0
            != (#[trigger] earlier[k]).0 by {
            assert(earlier[j] == arrivals[j] && earlier[k] == arrivals[k]);
        }
        lemma_fill_unique(count, earlier, i);
        assert forall|k: int| 0 <= k < arrivals.len() && (#[trigger] arrivals[k]).0 == i implies fill(
            count,
            arrivals,
        )[i] == Some(arrivals[k].1) by {
            if k < last {
                assert(earlier[k] == arrivals[k]);
                assert(arrivals[k].0 != arrivals[last].0);
            }
        }
        if !has_arrived(arrivals, i) {
            assert(arrivals[last].0 != i);
            assert forall|k: int| 0 <= k < earlier.len() implies (#[trigger] earlier[k]).0 != i by {
                assert(earlier[k] == arrivals[k]);
            }
        }
    }
}

/// The order in which block results arrive does not matter: two runs in
/// which every block was claimed once, and whose results are the same but
/// for their order, fill the table alike and so give the same digest. This
/// holds whatever the reads of the blocks delivered.
pub proof fn lemma_arrival_order_is_irrelevant(
    file_len: u64,
    count: nat,
    first: Arrivals,
    second: Arrivals,
)
    requires
        claims_are_unique(first),
        claims_are_unique(second),
        first.to_multiset() == second.to_multiset(),
    ensures
        fill(count, first) == fill(count, second),
        combined_hex(file_len, fill(count, first)) == combined_hex(file_len, fill(count, second)),
{
    lemma_fill_len(count, first);
    lemma_fill_len(count, second);
    assert forall|i: int| 0 <= i < count implies fill(count, first)[i] == fill(count, second)[i] by {
        lemma_fill_unique(count, first, i);
        lemma_fill_unique(count, second, i);
        if has_arrived(first, i) {
            let k = choose|k: int| 0 <= k < first.len() && (#[trigger] first[k]).0 == i;
            lemma_same_results(first, second, first[k]);
            let m = choose|m: int| 0 <= m < second.len() && second[m] == first[k];
            assert(second[m].0 == i);
        } else if has_arrived(second, i) {
            let m = choose|m: int| 0 <= m < second.len() && (#[trigger] second[m]).0 == i;
            lemma_same_results(second, first, second[m]);
            let k = choose|k: int| 0 <= k < first.len() && first[k] == second[m];
            assert(first[k].0 == i);
        }
    }
    assert(fill(count, first) =~= fill(count, second));
}

/// A result of one run is a result of every reordering of it.
proof fn lemma_same_results(one: Arrivals, other: Arrivals, result: (usize, Seq<u8>))
    requires
        one.to_multiset() == other.to_multiset(),
        one.contains(result),
    ensures
        other.contains(result),
{
    vstd::seq_lib::to_multiset_contains(one, result);
    vstd::seq_lib::to_multiset_contains(other, result);
}

/// The length is folded in first: for files of different lengths the final
/// hash is taken of different bytes, whatever their blocks hold.
pub proof fn lemma_length_changes_combination(len_a: u64, slots_a: Slots, len_b: u64, slots_b: Slots)
    requires
        len_a != len_b,
    ensures
        combination_input(len_a, slots_a) != combination_input(len_b, slots_b),
{
    let a = combination_input(len_a, slots_a);
    let b = combination_input(len_b, slots_b);
    if a == b {
        assert(a.subrange(0, 8) =~= be_bytes(len_a));
        assert(b.subrange(0, 8) =~= be_bytes(len_b));
        lemma_be_bytes_injective(len_a, len_b);
    }
}

/// The digest that stands for an empty file at every sampling speed: the
/// hash of no bytes.
pub fn empty_file_digest() -> (text: String)
    ensures
        text@ == hex_chars(blake3_digest(Seq::empty())),
{
    let stream = Blake3Stream::new();
    stream.hex()
}

/// The sampled digest of content held in memory, at `speed`: plans the
/// blocks, digests each one, and combines the digests with the length.
pub fn sampled_digest(content: &[u8], speed: usize) -> (text: String)
    ensures
        text@ == sampled_hex(content@, speed),
{
    if content.len() == 0 {
        return empty_file_digest();
    }
    let file_len: u64 = content.len() as u64;
    let blocks = make_sample_offsets(file_len, speed);
    let mut table = SlotTable::new(blocks.len());
    let ghost expected = block_digests(content@, blocks@);
    let mut ticket: usize = 0;
    while ticket < blocks.len()
        invariant
            ticket <= blocks@.len(),
            file_len == content@.len() <= usize::MAX,
            blocks@ == plan(file_len, speed),
            expected == block_digests(content@, blocks@),
            table@.len() == blocks@.len(),
            forall|i: int| 0 <= i < ticket ==> table@[i] == Some(expected[i]),
            forall|i: int| ticket <= i < blocks@.len() ==> table@[i] is None,
        decreases blocks@.len() - ticket,
    {
        let block = blocks[ticket];
        proof {
            lemma_block_in_file(file_len, speed, ticket as int);
            assert(block == plan(file_len, speed)[ticket as int]);
            assert(block.offset + block.len <= file_len);
        }
        let start: usize = block.offset as usize;
        let end: usize = start + block.len;
        let bytes = slice_subrange(content, start, end);
        let digest = digest_of_read(bytes, Some(block.len));
        assert(bytes_read(bytes@, Some(block.len)) =~= block_bytes(content@, block));
        table.record(block.index, digest);
        ticket = ticket + 1;
    }
    assert(table@ =~= all_present(expected));
    table.combine(file_len)
}

} // verus!
