//! The pieces in which a large file is downloaded.

use vstd::prelude::*;

verus! {

/// The bytes from `start` to `end`, both included.
#[derive(Debug, Clone, Copy, PartialEq, Eq, Structural)]
pub struct ByteRange {
    pub start: u64,
    pub end: u64,
}

impl ByteRange {
    /// The number of bytes.
    pub open spec fn count(self) -> int {
        self.end - self.start + 1
    }

    /// The number of bytes.
    pub fn len(self) -> (r: u64)
        requires
            self.start <= self.end,
            self.count() <= u64::MAX,
        ensures
            r == self.count(),
    {
        self.end - self.start + 1
    }
}

/// How many chunks of `chunk_size` bytes a file has; the last one may be shorter.
pub open spec fn chunk_count(size: int, chunk_size: int) -> int {
    if size <= 0 {
        0
    } else {
        (size - 1) / chunk_size + 1
    }
}

/// Whether the chunks of a file can be counted out without leaving the range of the
/// numbers.
pub open spec fn can_chunk(size: u64, chunk_size: u64) -> bool {
    size == 0 || (chunk_size > 0 && chunk_count(size as int, chunk_size as int) * chunk_size
        <= u64::MAX)
}

/// The chunk with the number `k`.
pub open spec fn chunk_at(size: int, chunk_size: int, k: int) -> ByteRange {
    ByteRange {
        start: (k * chunk_size) as u64,
        end: ((if (k + 1) * chunk_size <= size {
            (k + 1) * chunk_size
        } else {
            size
        }) - 1) as u64,
    }
}

/// All chunks of a file, in order.
pub open spec fn all_chunks(size: int, chunk_size: int) -> Seq<ByteRange> {
    Seq::new(chunk_count(size, chunk_size) as nat, |k: int| chunk_at(size, chunk_size, k))
}

/// Whether the chunk with the number `i` starts where the one before it ends.
pub open spec fn is_placed(chunks: Seq<ByteRange>, i: int) -> bool {
    &&& chunks[i].start <= chunks[i].end
    &&& chunks[i].start == (if i == 0 {
        0
    } else {
        chunks[i - 1].end + 1
    })
}

/// Whether each chunk starts where the one before it ends, from the first byte on.
pub open spec fn in_a_row(chunks: Seq<ByteRange>) -> bool {
    forall|i: int| 0 <= i < chunks.len() ==> #[trigger] is_placed(chunks, i)
}

/// How many bytes chunks in a row cover.
pub open spec fn covered(chunks: Seq<ByteRange>) -> int {
    if chunks.len() == 0 {
        0
    } else {
        chunks.last().end + 1
    }
}

/// Whether the chunks of a file can be counted out.
pub fn chunkable(size: u64, chunk_size: u64) -> (r: bool)
    ensures
        r == can_chunk(size, chunk_size),
{
    if size == 0 {
        return true;
    }
    if chunk_size == 0 {
        return false;
    }
    let count: u128 = (size as u128 - 1) / (chunk_size as u128) + 1;
    assert(count * chunk_size <= 0x1_0000_0000_0000_0000 * 0x1_0000_0000_0000_0000 - 1)
        by (nonlinear_arith)
        requires
            0 <= count <= 0x1_0000_0000_0000_0000,
            0 <= chunk_size < 0x1_0000_0000_0000_0000,
    ;
    count * chunk_size as u128 <= 0xffff_ffff_ffff_ffff
}

/// The chunks of a file, in order.
pub fn make_chunks(size: u64, chunk_size: u64) -> (chunks: Vec<ByteRange>)
    requires
        can_chunk(size, chunk_size),
    ensures
        chunks@ == all_chunks(size as int, chunk_size as int),
        in_a_row(chunks@),
        covered(chunks@) == size,
{
    let mut chunks: Vec<ByteRange> = Vec::new();
    let mut start: u64 = 0;
    let ghost count = chunk_count(size as int, chunk_size as int);
    let ghost c = chunk_size as int;
    assert(chunks@.len() * c == 0) by (nonlinear_arith)
        requires
            chunks@.len() == 0,
    ;
    while start < size
        invariant
            start <= size,
            c == chunk_size,
            size > 0 ==> c > 0,
            count == chunk_count(size as int, c),
            size > 0 ==> count * c <= u64::MAX,
            start < size ==> start == chunks@.len() * c,
            start == size ==> chunks@.len() == count,
            start == covered(chunks@),
            in_a_row(chunks@),
            forall|k: int|
                0 <= k < chunks@.len() ==> #[trigger] chunks@[k] == chunk_at(size as int, c, k),
        decreases size - start,
    {
        let ghost k = chunks@.len() as int;
        let ghost before = chunks@;
        proof {
            lemma_chunk_bounds(size as int, c, k);
        }
        let next = start + (chunk_size - 1);
        let end = if next < size - 1 {
            next
        } else {
            size - 1
        };
        chunks.push(ByteRange { start, end });
        assert(chunks@[k] == chunk_at(size as int, c, k));
        assert forall|i: int| 0 <= i < chunks@.len() implies #[trigger] is_placed(chunks@, i) by {
            if i < k {
                assert(is_placed(before, i));
            }
        }
        start = end + 1;
    }
    assert(chunks@ =~= all_chunks(size as int, c));
    chunks
}

/// Where the chunk with the number `k` lies.
proof fn lemma_chunk_bounds(size: int, chunk_size: int, k: int)
    requires
        chunk_size > 0,
        0 <= k,
        k * chunk_size < size,
    ensures
        (k + 1) * chunk_size == k * chunk_size + chunk_size,
        k < chunk_count(size, chunk_size),
        (k + 1) * chunk_size <= chunk_count(size, chunk_size) * chunk_size,
        (k + 1) * chunk_size >= size ==> k + 1 == chunk_count(size, chunk_size),
{
    let q = (size - 1) / chunk_size;
    vstd::arithmetic::div_mod::lemma_fundamental_div_mod(size - 1, chunk_size);
    vstd::arithmetic::div_mod::lemma_mod_bound(size - 1, chunk_size);
    assert(k <= q) by (nonlinear_arith)
        requires
            k * chunk_size <= size - 1,
            size - 1 == chunk_size * q + (size - 1) % chunk_size,
            0 <= (size - 1) % chunk_size < chunk_size,
            chunk_size > 0,
    ;
    assert((k + 1) * chunk_size == k * chunk_size + chunk_size) by (nonlinear_arith);
    assert((k + 1) * chunk_size <= (q + 1) * chunk_size) by (nonlinear_arith)
        requires
            k <= q,
            chunk_size > 0,
    ;
    if (k + 1) * chunk_size >= size {
        assert(q <= k) by (nonlinear_arith)
            requires
                (k + 1) * chunk_size >= size,
                size - 1 == chunk_size * q + (size - 1) % chunk_size,
                0 <= (size - 1) % chunk_size,
                chunk_size > 0,
        ;
    }
}

/// Every byte of a file is in exactly one of its chunks.
pub proof fn chunks_partition(chunks: Seq<ByteRange>, byte: int)
    requires
        in_a_row(chunks),
        0 <= byte < covered(chunks),
    ensures
        exists|k: int|
            0 <= k < chunks.len() && (#[trigger] chunks[k]).start <= byte <= chunks[k].end,
        forall|j: int, k: int|
            0 <= j < chunks.len() && 0 <= k < chunks.len() && (#[trigger] chunks[j]).start <= byte
                <= chunks[j].end && (#[trigger] chunks[k]).start <= byte <= chunks[k].end ==> j == k,
    decreases chunks.len(),
{
    let last = chunks.len() - 1;
    let before = chunks.drop_last();
    if byte >= chunks[last].start {
        assert(chunks[last].start <= byte <= chunks[last].end);
    } else {
        assert(is_placed(chunks, last));
        assert(is_placed(chunks, 0));
        lemma_first_chunks(chunks, last);
        assert(before =~= chunks.take(last));
        assert(before.last() == chunks[last - 1]);
        chunks_partition(before, byte);
        let k = choose|k: int|
            0 <= k < before.len() && (#[trigger] before[k]).start <= byte <= before[k].end;
        assert(chunks[k].start <= byte <= chunks[k].end);
    }
    assert forall|j: int, k: int|
        0 <= j < chunks.len() && 0 <= k < chunks.len() && (#[trigger] chunks[j]).start <= byte
            <= chunks[j].end && (#[trigger] chunks[k]).start <= byte <= chunks[k].end implies j
        == k by {
        if j < k {
            lemma_later_chunk(chunks, j, k);
        } else if k < j {
            lemma_later_chunk(chunks, k, j);
        }
    }
}

/// The first chunks of a row are in a row.
pub proof fn lemma_first_chunks(chunks: Seq<ByteRange>, n: int)
    requires
        in_a_row(chunks),
        0 <= n <= chunks.len(),
    ensures
        in_a_row(chunks.take(n)),
{
    assert forall|i: int| 0 <= i < n implies #[trigger] is_placed(chunks.take(n), i) by {
        assert(is_placed(chunks, i));
    }
}

/// A later chunk starts after an earlier one ends.
pub proof fn lemma_later_chunk(chunks: Seq<ByteRange>, j: int, k: int)
    requires
        in_a_row(chunks),
        0 <= j < k < chunks.len(),
    ensures
        chunks[j].end < chunks[k].start,
    decreases k - j,
{
    assert(is_placed(chunks, k));
    if j < k - 1 {
        lemma_later_chunk(chunks, j, k - 1);
        assert(is_placed(chunks, k - 1));
    }
}

/// Every chunk but the last has the full size, the last has at most that, and none is empty;
/// one after the other they go from the first byte of the file to its last.
pub proof fn chunks_are_full(size: u64, chunk_size: u64)
    requires
        can_chunk(size, chunk_size),
        size > 0,
    ensures
        ({
            let chunks = all_chunks(size as int, chunk_size as int);
            &&& chunks.len() > 0
            &&& chunks[0].start == 0
            &&& chunks.last().end == size - 1
            &&& forall|k: int|
                0 <= k < chunks.len() ==> 1 <= (#[trigger] chunks[k]).count() <= chunk_size
            &&& forall|k: int|
                0 <= k < chunks.len() - 1 ==> (#[trigger] chunks[k]).count() == chunk_size
            &&& forall|k: int|
                0 < k < chunks.len() ==> (#[trigger] chunks[k]).start == chunks[k - 1].end + 1
        }),
{
    let (n, c) = (size as int, chunk_size as int);
    let count = chunk_count(n, c);
    let chunks = all_chunks(n, c);
    lemma_chunk_place(n, c, 0);
    assert forall|k: int| 0 <= k < chunks.len() implies 1 <= (#[trigger] chunks[k]).count()
        <= chunk_size by {
        lemma_chunk_place(n, c, k);
        assert(chunks[k] == chunk_at(n, c, k));
    }
    assert forall|k: int| 0 <= k < chunks.len() - 1 implies (#[trigger] chunks[k]).count()
        == chunk_size by {
        lemma_chunk_place(n, c, k);
    }
    assert forall|k: int| 0 < k < chunks.len() implies (#[trigger] chunks[k]).start == chunks[k
        - 1].end + 1 by {
        lemma_chunk_place(n, c, k - 1);
        lemma_chunk_place(n, c, k);
        assert(chunks[k - 1] == chunk_at(n, c, k - 1));
    }
    lemma_chunk_place(n, c, count - 1);
    assert(chunks[count - 1] == chunk_at(n, c, count - 1));
}

/// Where the chunk with the number `k` of a file starts and ends.
proof fn lemma_chunk_place(size: int, chunk_size: int, k: int)
    requires
        size > 0,
        chunk_size > 0,
        0 <= k < chunk_count(size, chunk_size) || k == 0,
    ensures
        chunk_count(size, chunk_size) >= 1,
        k == 0 ==> k * chunk_size == 0,
        0 <= k * chunk_size < size,
        (k + 1) * chunk_size == k * chunk_size + chunk_size,
        k < chunk_count(size, chunk_size) - 1 ==> (k + 1) * chunk_size < size,
        k == chunk_count(size, chunk_size) - 1 ==> size <= (k + 1) * chunk_size,
{
    let (n, c) = (size, chunk_size);
    let q = (n - 1) / c;
    vstd::arithmetic::div_mod::lemma_fundamental_div_mod(n - 1, c);
    vstd::arithmetic::div_mod::lemma_mod_bound(n - 1, c);
    vstd::arithmetic::div_mod::lemma_div_pos_is_pos(n - 1, c);
    assert(q * c <= n - 1 < (q + 1) * c) by (nonlinear_arith)
        requires
            n - 1 == c * q + (n - 1) % c,
            0 <= (n - 1) % c < c,
    ;
    assert(0 <= k * c <= q * c) by (nonlinear_arith)
        requires
            0 <= k <= q,
            c > 0,
    ;
    assert((k + 1) * c == k * c + c) by (nonlinear_arith);
    if k < q {
        assert((k + 1) * c <= q * c) by (nonlinear_arith)
            requires
                k + 1 <= q,
                c > 0,
        ;
    }
}

/// Chunks can be counted out of every file that is not within a chunk of the largest number.
pub proof fn files_can_be_chunked(size: u64, chunk_size: u64)
    requires
        chunk_size > 0,
        size + chunk_size <= u64::MAX,
    ensures
        can_chunk(size, chunk_size),
{
    if size > 0 {
        let (n, c) = (size as int, chunk_size as int);
        let q = (n - 1) / c;
        vstd::arithmetic::div_mod::lemma_fundamental_div_mod(n - 1, c);
        vstd::arithmetic::div_mod::lemma_mod_bound(n - 1, c);
        assert((q + 1) * c <= n - 1 + c) by (nonlinear_arith)
            requires
                n - 1 == c * q + (n - 1) % c,
                0 <= (n - 1) % c,
        ;
    }
}

} // verus!
