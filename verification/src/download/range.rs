//! Downloads in chunks that can be resumed.

use vstd::prelude::*;

use crate::download::chunks::{
    all_chunks, can_chunk, covered, in_a_row, is_placed, lemma_first_chunks, lemma_later_chunk,
    make_chunks, ByteRange,
};
use crate::download::content_range::{
    closed_range_names_its_bytes, closed_range_text, content_range_round_trip, content_range_text,
    parse_content_range_bounds, range_bounds, range_of,
};
use crate::error::{Failure, MgetError};
use crate::status::{is_status, status_text, status_words, PARTIAL_CONTENT};
use crate::text::{slice_text_of, starts_with};

verus! {

/// The size from which a file is downloaded in chunks.
pub const LARGE_FILE_CHUNK_THRESHOLD: u64 = 268_435_456;

/// The size of a chunk.
pub const DEFAULT_CHUNK_SIZE: u64 = 67_108_864;

/// Which chunks of a file are on disk.
#[derive(Debug)]
pub struct RangeState {
    pub completed: Vec<bool>,
}

/// Whether the chunk with the number `i` is recorded as complete.
pub open spec fn is_done(completed: Seq<bool>, i: int) -> bool {
    0 <= i < completed.len() && completed[i]
}

/// A record for `count` chunks that says of each what `completed` says of it.
pub open spec fn fitted(completed: Seq<bool>, count: int) -> Seq<bool> {
    Seq::new(count as nat, |i: int| is_done(completed, i))
}

/// A record in which the chunk `index` is complete too.
pub open spec fn marked(completed: Seq<bool>, index: int) -> Seq<bool> {
    if 0 <= index < completed.len() {
        completed.update(index, true)
    } else {
        completed
    }
}

/// What a record on disk says; nothing is complete without one.
pub open spec fn recorded(stored: Option<RangeState>) -> Seq<bool> {
    match stored {
        Some(state) => state.completed@,
        None => Seq::empty(),
    }
}

impl RangeState {
    /// The record for `count` chunks from the one on disk, if there is one.
    pub fn load(stored: Option<RangeState>, count: usize) -> (r: Self)
        ensures
            r.completed@ == fitted(recorded(stored), count as int),
    {
        let mut state = match stored {
            Some(state) => state,
            None => RangeState { completed: Vec::new() },
        };
        state.completed.resize(count, false);
        assert(state.completed@ =~= fitted(recorded(stored), count as int));
        state
    }

    /// Records that the chunk `index` is complete.
    pub fn mark(&mut self, index: usize)
        ensures
            final(self).completed@ == marked(old(self).completed@, index as int),
    {
        if index < self.completed.len() {
            self.completed.set(index, true);
        }
    }

    /// The record to write when the chunk `index` of `count` is complete, from the one
    /// on disk.
    pub fn mark_complete(stored: Option<RangeState>, count: usize, index: usize) -> (r: Self)
        ensures
            r.completed@ == marked(fitted(recorded(stored), count as int), index as int),
    {
        let mut state = RangeState::load(stored, count);
        state.mark(index);
        state
    }
}

/// What was complete stays so, the marked chunk is complete, and nothing else changes.
pub proof fn marking_adds_one(completed: Seq<bool>, index: int, i: int)
    requires
        0 <= index < completed.len(),
    ensures
        is_done(marked(completed, index), i) == (is_done(completed, i) || i == index),
        marked(completed, index).len() == completed.len(),
{
}

/// The order in which chunks are completed does not matter, nor does marking one twice.
pub proof fn marking_commutes(completed: Seq<bool>, i: int, j: int)
    ensures
        marked(marked(completed, i), j) == marked(marked(completed, j), i),
        marked(marked(completed, i), i) == marked(completed, i),
{
    assert(marked(marked(completed, i), j) =~= marked(marked(completed, j), i));
    assert(marked(marked(completed, i), i) =~= marked(completed, i));
}

/// A record that was written for `count` chunks is read back as it is.
pub proof fn record_is_kept(completed: Seq<bool>, count: int)
    requires
        completed.len() == count,
    ensures
        fitted(completed, count) == completed,
{
    assert(fitted(completed, count) =~= completed);
}

/// The number of bytes in the chunks that are complete, or in those that are not.
pub open spec fn bytes_in(chunks: Seq<ByteRange>, completed: Seq<bool>, done: bool) -> int
    decreases chunks.len(),
{
    if chunks.len() == 0 {
        0
    } else {
        let before = bytes_in(chunks.drop_last(), completed, done);
        if is_done(completed, chunks.len() - 1) == done {
            before + chunks.last().count()
        } else {
            before
        }
    }
}

/// What is complete and what is not make up all that the chunks cover.
pub proof fn completed_and_remaining(chunks: Seq<ByteRange>, completed: Seq<bool>)
    requires
        in_a_row(chunks),
    ensures
        bytes_in(chunks, completed, true) + bytes_in(chunks, completed, false) == covered(chunks),
        0 <= bytes_in(chunks, completed, true),
        0 <= bytes_in(chunks, completed, false),
    decreases chunks.len(),
{
    if chunks.len() > 0 {
        let last = chunks.len() - 1;
        lemma_first_chunks(chunks, last);
        assert(chunks.drop_last() =~= chunks.take(last));
        completed_and_remaining(chunks.drop_last(), completed);
        assert(is_placed(chunks, last));
    }
}

/// The number of bytes in the chunks that are complete, or in those that are not.
pub fn sum_bytes(chunks: &Vec<ByteRange>, completed: &Vec<bool>, done: bool) -> (r: u64)
    requires
        in_a_row(chunks@),
        covered(chunks@) <= u64::MAX,
    ensures
        r == bytes_in(chunks@, completed@, done),
{
    let mut sum: u64 = 0;
    let mut i: usize = 0;
    while i < chunks.len()
        invariant
            i <= chunks.len(),
            in_a_row(chunks@),
            covered(chunks@) <= u64::MAX,
            sum == bytes_in(chunks@.take(i as int), completed@, done),
        decreases chunks.len() - i,
    {
        let ghost now = chunks@.take(i as int);
        let ghost next = chunks@.take(i + 1);
        proof {
            assert(next.drop_last() =~= now);
            lemma_first_chunks(chunks@, i + 1);
            completed_and_remaining(next, completed@);
            assert(is_placed(chunks@, i as int));
            if i + 1 < chunks@.len() {
                lemma_later_chunk(chunks@, i as int, chunks@.len() - 1);
            }
            assert(is_placed(chunks@, chunks@.len() - 1));
            assert(covered(next) <= covered(chunks@));
        }
        let complete = i < completed.len() && completed[i];
        if complete == done {
            assert(bytes_in(next, completed@, done) == sum + chunks@[i as int].count());
            sum = sum + chunks[i].len();
        }
        i += 1;
    }
    assert(chunks@.take(i as int) =~= chunks@);
    sum
}

/// The numbers of the chunks that are not complete, in order.
pub open spec fn pending(completed: Seq<bool>) -> Seq<int>
    decreases completed.len(),
{
    if completed.len() == 0 {
        Seq::empty()
    } else {
        let before = pending(completed.drop_last());
        if completed.last() {
            before
        } else {
            before.push(completed.len() - 1)
        }
    }
}

/// A chunk is pending exactly if it is not complete.
pub proof fn pending_is_not_done(completed: Seq<bool>, i: int)
    ensures
        pending(completed).contains(i) <==> 0 <= i < completed.len() && !is_done(completed, i),
    decreases completed.len(),
{
    if completed.len() > 0 {
        let last = completed.len() - 1;
        let before = pending(completed.drop_last());
        pending_is_not_done(completed.drop_last(), i);
        let all = pending(completed);
        if !completed.last() {
            assert(all[before.len() as int] == last);
        }
        if before.contains(i) {
            assert(all[before.index_of(i)] == i);
        }
        if all.contains(i) && i != last {
            assert(before[all.index_of(i)] == i);
        }
        if i == last && completed.last() && all.contains(i) {
            assert(before.contains(i));
        }
    }
}

/// The numbers of the chunks that are not complete, in order.
pub fn pending_chunks(completed: &Vec<bool>) -> (out: Vec<usize>)
    ensures
        out@.len() == pending(completed@).len(),
        forall|i: int| 0 <= i < out@.len() ==> #[trigger] out@[i] == pending(completed@)[i],
{
    let mut out: Vec<usize> = Vec::new();
    let mut i: usize = 0;
    while i < completed.len()
        invariant
            i <= completed.len(),
            out@.len() == pending(completed@.take(i as int)).len(),
            forall|k: int|
                0 <= k < out@.len() ==> #[trigger] out@[k] == pending(completed@.take(i as int))[k],
        decreases completed.len() - i,
    {
        assert(completed@.take(i + 1).drop_last() =~= completed@.take(i as int));
        if !completed[i] {
            out.push(i);
        }
        i += 1;
    }
    assert(completed@.take(i as int) =~= completed@);
    out
}

/// A download in chunks: all chunks, those to fetch, and the number of bytes that are
/// on disk already.
#[derive(Debug)]
pub struct RangePlan {
    pub chunks: Vec<ByteRange>,
    pub pending: Vec<usize>,
    pub completed_bytes: u64,
}

/// Whether a plan is the one for a file of `size` bytes and a record.
pub open spec fn is_plan(plan: RangePlan, size: u64, stored: Option<RangeState>) -> bool {
    let missing = pending(fitted(recorded(stored), plan.chunks@.len() as int));
    &&& plan.chunks@ == all_chunks(size as int, DEFAULT_CHUNK_SIZE as int)
    &&& plan.pending@.len() == missing.len()
    &&& forall|i: int| 0 <= i < plan.pending@.len() ==> #[trigger] plan.pending@[i] == missing[i]
    &&& plan.completed_bytes == bytes_in(plan.chunks@, recorded(stored), true)
}

/// Plans the download in chunks of a file of `size` bytes from the record on disk.
pub fn plan_range(size: u64, stored: Option<RangeState>) -> (r: RangePlan)
    requires
        can_chunk(size, DEFAULT_CHUNK_SIZE),
    ensures
        r.chunks@ == all_chunks(size as int, DEFAULT_CHUNK_SIZE as int),
        in_a_row(r.chunks@),
        covered(r.chunks@) == size,
        is_plan(r, size, stored),
        r.pending@.len() == pending(fitted(recorded(stored), r.chunks@.len() as int)).len(),
        forall|i: int|
            0 <= i < r.pending@.len() ==> #[trigger] r.pending@[i] == pending(
                fitted(recorded(stored), r.chunks@.len() as int),
            )[i] && r.pending@[i] < r.chunks@.len(),
        r.completed_bytes == bytes_in(r.chunks@, recorded(stored), true),
{
    let chunks = make_chunks(size, DEFAULT_CHUNK_SIZE);
    let ghost old_record = recorded(stored);
    let state = RangeState::load(stored, chunks.len());
    let ghost record = state.completed@;
    let completed_bytes = sum_bytes(&chunks, &state.completed, true);
    let pending = pending_chunks(&state.completed);
    proof {
        lemma_fitted_bytes(chunks@, old_record, chunks@.len() as int, true);
        assert forall|i: int| 0 <= i < pending@.len() implies #[trigger] pending@[i]
            < chunks@.len() by {
            pending_is_not_done(record, pending@[i] as int);
            assert(crate::download::range::pending(record)[i] == pending@[i]);
        }
    }
    RangePlan { chunks, pending, completed_bytes }
}

/// Fitting a record to the number of chunks changes nothing about the chunks.
proof fn lemma_fitted_bytes(chunks: Seq<ByteRange>, completed: Seq<bool>, count: int, done: bool)
    requires
        chunks.len() <= count,
    ensures
        bytes_in(chunks, fitted(completed, count), done) == bytes_in(chunks, completed, done),
    decreases chunks.len(),
{
    if chunks.len() > 0 {
        lemma_fitted_bytes(chunks.drop_last(), completed, count, done);
    }
}

/// The number of bytes of a file of `size` bytes that a record says are on disk.
pub fn range_completed_bytes(size: u64, stored: Option<RangeState>) -> (r: u64)
    requires
        can_chunk(size, DEFAULT_CHUNK_SIZE),
    ensures
        r == bytes_in(
            all_chunks(size as int, DEFAULT_CHUNK_SIZE as int),
            recorded(stored),
            true,
        ),
{
    let plan = plan_range(size, stored);
    plan.completed_bytes
}

/// The number of bytes of a file of `size` bytes that a record says are missing.
pub fn range_remaining_bytes(size: u64, stored: Option<RangeState>) -> (r: u64)
    requires
        can_chunk(size, DEFAULT_CHUNK_SIZE),
    ensures
        r == bytes_in(
            all_chunks(size as int, DEFAULT_CHUNK_SIZE as int),
            recorded(stored),
            false,
        ),
{
    let chunks = make_chunks(size, DEFAULT_CHUNK_SIZE);
    let ghost record = recorded(stored);
    let state = RangeState::load(stored, chunks.len());
    proof {
        lemma_fitted_bytes(chunks@, record, chunks@.len() as int, false);
    }
    sum_bytes(&chunks, &state.completed, false)
}

/// The text for a server that does not answer a request for a part with one.
pub open spec fn refused_text(path: Seq<char>, words: Seq<char>) -> Seq<char> {
    "server did not honor range request for "@ + path + ": expected 206, got "@ + words
}

/// The failure for a server that does not answer a request for a part with one, from
/// its status in words.
pub fn refused_range(path: &str, words: &str) -> (r: MgetError)
    ensures
        r@ == Failure::Message(refused_text(path@, words@)),
{
    let mut text = "server did not honor range request for ".to_owned();
    text.append(path);
    text.append(": expected 206, got ");
    text.append(words);
    MgetError::Message(text)
}

/// The text for an answer that holds another part than the one asked for.
pub open spec fn unexpected_text(path: Seq<char>) -> Seq<char> {
    "server returned unexpected content-range for "@ + path
}

/// The failure for an answer that holds another part than the one asked for.
pub fn unexpected_range(path: &str) -> (r: MgetError)
    ensures
        r@ == Failure::Message(unexpected_text(path@)),
{
    let mut text = "server returned unexpected content-range for ".to_owned();
    text.append(path);
    MgetError::Message(text)
}

/// The bounds that a `Content-Range` tells, if there is one.
pub open spec fn told_bounds(content_range: Option<Seq<char>>) -> Option<(u64, u64)> {
    match content_range {
        Some(value) => range_bounds(value),
        None => None,
    }
}

/// The bounds that a `Content-Range` tells, if there is one.
pub fn bounds_told(content_range: Option<&str>) -> (r: Option<(u64, u64)>)
    ensures
        r == told_bounds(slice_text_of(content_range)),
{
    match content_range {
        Some(value) => parse_content_range_bounds(value),
        None => None,
    }
}

/// Whether an answer holds exactly the chunk that was asked for.
pub open spec fn is_chunk_reply(chunk: ByteRange, code: u16, bounds: Option<(u64, u64)>) -> bool {
    code == PARTIAL_CONTENT && bounds == Some((chunk.start, chunk.end))
}

/// Accepts the answer to the request for a chunk of the file at `path`, or says what is
/// wrong with it.
pub fn check_chunk_reply(path: &str, chunk: ByteRange, code: u16, content_range: Option<&str>) -> (r:
    Result<(), MgetError>)
    requires
        is_status(code),
    ensures
        match r {
            Ok(_) => is_chunk_reply(chunk, code, told_bounds(slice_text_of(content_range))),
            Err(error) => {
                &&& !is_chunk_reply(chunk, code, told_bounds(slice_text_of(content_range)))
                &&& error@ == Failure::Message(
                    if code != PARTIAL_CONTENT {
                        refused_text(path@, status_words(code))
                    } else {
                        unexpected_text(path@)
                    },
                )
            },
        },
{
    if code != PARTIAL_CONTENT {
        let words = status_text(code);
        return Err(refused_range(path, words.as_str()));
    }
    match bounds_told(content_range) {
        Some((start, end)) if start == chunk.start && end == chunk.end => Ok(()),
        _ => Err(unexpected_range(path)),
    }
}

/// A file after `body` was written from the byte `start` on.
pub open spec fn written_at(file: Seq<u8>, start: int, body: Seq<u8>) -> Seq<u8> {
    Seq::new(
        file.len(),
        |i: int|
            if start <= i < start + body.len() {
                body[i - start]
            } else {
                file[i]
            },
    )
}

/// The bytes of a chunk.
pub open spec fn part_of(content: Seq<u8>, chunk: ByteRange) -> Seq<u8> {
    content.subrange(chunk.start as int, chunk.end + 1)
}

/// Whether the file holds the content in every chunk that is recorded as complete.
pub open spec fn holds_completed(
    file: Seq<u8>,
    content: Seq<u8>,
    chunks: Seq<ByteRange>,
    completed: Seq<bool>,
) -> bool {
    &&& file.len() == content.len()
    &&& forall|k: int|
        0 <= k < chunks.len() && #[trigger] is_done(completed, k) ==> part_of(file, chunks[k])
            == part_of(content, chunks[k])
}

/// Writing the bytes of a chunk in its place and recording it as complete keeps the
/// record true.
pub proof fn chunk_keeps_record_true(
    file: Seq<u8>,
    content: Seq<u8>,
    chunks: Seq<ByteRange>,
    completed: Seq<bool>,
    index: int,
)
    requires
        in_a_row(chunks),
        covered(chunks) == content.len(),
        completed.len() == chunks.len(),
        0 <= index < chunks.len(),
        holds_completed(file, content, chunks, completed),
    ensures
        holds_completed(
            written_at(file, chunks[index].start as int, part_of(content, chunks[index])),
            content,
            chunks,
            marked(completed, index),
        ),
{
    let chunk = chunks[index];
    let next = written_at(file, chunk.start as int, part_of(content, chunk));
    lemma_chunk_inside(chunks, index);
    assert forall|k: int| 0 <= k < chunks.len() && #[trigger] is_done(marked(completed, index), k)
        implies part_of(next, chunks[k]) == part_of(content, chunks[k]) by {
        lemma_chunk_inside(chunks, k);
        if k == index {
            assert(part_of(next, chunk) =~= part_of(content, chunk));
        } else {
            if k < index {
                lemma_later_chunk(chunks, k, index);
            } else {
                lemma_later_chunk(chunks, index, k);
            }
            assert(is_done(completed, k));
            assert(part_of(next, chunks[k]) =~= part_of(file, chunks[k]));
        }
    }
}

/// A chunk lies inside what the chunks cover.
proof fn lemma_chunk_inside(chunks: Seq<ByteRange>, k: int)
    requires
        in_a_row(chunks),
        0 <= k < chunks.len(),
    ensures
        chunks[k].start <= chunks[k].end < covered(chunks),
{
    assert(is_placed(chunks, k));
    let last = chunks.len() - 1;
    if k < last {
        lemma_later_chunk(chunks, k, last);
        assert(is_placed(chunks, last));
    }
}

/// Once every chunk is complete the file is the content.
pub proof fn complete_record_is_content(
    file: Seq<u8>,
    content: Seq<u8>,
    chunks: Seq<ByteRange>,
    completed: Seq<bool>,
)
    requires
        in_a_row(chunks),
        covered(chunks) == content.len(),
        holds_completed(file, content, chunks, completed),
        forall|k: int| 0 <= k < chunks.len() ==> #[trigger] is_done(completed, k),
    ensures
        file == content,
{
    assert forall|i: int| 0 <= i < content.len() implies file[i] == content[i] by {
        crate::download::chunks::chunks_partition(chunks, i);
        let k = choose|k: int|
            0 <= k < chunks.len() && (#[trigger] chunks[k]).start <= i <= chunks[k].end;
        lemma_chunk_inside(chunks, k);
        assert(is_done(completed, k));
        let at = i - chunks[k].start;
        assert(part_of(file, chunks[k])[at] == file[i]);
        assert(part_of(content, chunks[k])[at] == content[i]);
    }
    assert(file =~= content);
}

/// A file after the chunks with these numbers were fetched one after the other, each with
/// the bytes of the content.
pub open spec fn fetched(
    file: Seq<u8>,
    content: Seq<u8>,
    chunks: Seq<ByteRange>,
    order: Seq<int>,
) -> Seq<u8>
    decreases order.len(),
{
    if order.len() == 0 {
        file
    } else {
        let chunk = chunks[order.last()];
        written_at(
            fetched(file, content, chunks, order.drop_last()),
            chunk.start as int,
            part_of(content, chunk),
        )
    }
}

/// A record after the chunks with these numbers were marked.
pub open spec fn marked_all(completed: Seq<bool>, order: Seq<int>) -> Seq<bool>
    decreases order.len(),
{
    if order.len() == 0 {
        completed
    } else {
        marked(marked_all(completed, order.drop_last()), order.last())
    }
}

/// Fetching chunks and marking them keeps the record true.
proof fn lemma_fetching_keeps_record_true(
    file: Seq<u8>,
    content: Seq<u8>,
    chunks: Seq<ByteRange>,
    completed: Seq<bool>,
    order: Seq<int>,
)
    requires
        in_a_row(chunks),
        covered(chunks) == content.len(),
        completed.len() == chunks.len(),
        holds_completed(file, content, chunks, completed),
        forall|i: int| 0 <= i < order.len() ==> 0 <= #[trigger] order[i] < chunks.len(),
    ensures
        marked_all(completed, order).len() == completed.len(),
        forall|k: int|
            is_done(completed, k) || order.contains(k) && 0 <= k < completed.len() ==> #[trigger]
                is_done(marked_all(completed, order), k),
        holds_completed(
            fetched(file, content, chunks, order),
            content,
            chunks,
            marked_all(completed, order),
        ),
    decreases order.len(),
{
    if order.len() > 0 {
        let before = order.drop_last();
        let last = order.last();
        assert(forall|i: int| 0 <= i < before.len() ==> #[trigger] before[i] == order[i]);
        lemma_fetching_keeps_record_true(file, content, chunks, completed, before);
        assert(order[order.len() - 1] == last);
        let now = marked_all(completed, before);
        chunk_keeps_record_true(
            fetched(file, content, chunks, before),
            content,
            chunks,
            now,
            last,
        );
        assert forall|k: int|
            is_done(completed, k) || order.contains(k) && 0 <= k < completed.len() implies #[trigger]
            is_done(marked_all(completed, order), k) by {
            marking_adds_one(now, last, k);
            if order.contains(k) && k != last {
                let i = order.index_of(k);
                assert(before[i] == k);
                assert(before.contains(k));
            }
            if is_done(completed, k) || before.contains(k) {
                assert(is_done(now, k));
            }
        }
    }
}

/// A download in chunks gives the content, whatever an earlier one has completed and in
/// whatever order the pending chunks arrive: if the record was true at the start and every
/// pending chunk is fetched, the file is the content.
pub proof fn ranged_download_gives_content(
    file: Seq<u8>,
    content: Seq<u8>,
    chunks: Seq<ByteRange>,
    completed: Seq<bool>,
    order: Seq<int>,
)
    requires
        in_a_row(chunks),
        covered(chunks) == content.len(),
        completed.len() == chunks.len(),
        holds_completed(file, content, chunks, completed),
        forall|i: int| 0 <= i < order.len() ==> 0 <= #[trigger] order[i] < chunks.len(),
        forall|k: int| #[trigger] pending(completed).contains(k) ==> order.contains(k),
    ensures
        fetched(file, content, chunks, order) == content,
        pending(marked_all(completed, order)).len() == 0,
{
    lemma_fetching_keeps_record_true(file, content, chunks, completed, order);
    let record = marked_all(completed, order);
    assert forall|k: int| 0 <= k < chunks.len() implies #[trigger] is_done(record, k) by {
        pending_is_not_done(completed, k);
        if !is_done(completed, k) {
            assert(pending(completed).contains(k));
            assert(order.contains(k));
        }
    }
    complete_record_is_content(
        fetched(file, content, chunks, order),
        content,
        chunks,
        record,
    );
    if pending(record).len() > 0 {
        let k = pending(record)[0];
        assert(pending(record).contains(k));
        pending_is_not_done(record, k);
        assert(is_done(record, k));
    }
}

/// Without a record any file of the right length will do at the start.
pub proof fn fresh_record_is_true(
    file: Seq<u8>,
    content: Seq<u8>,
    chunks: Seq<ByteRange>,
    count: int,
)
    requires
        file.len() == content.len(),
    ensures
        holds_completed(file, content, chunks, fitted(recorded(None), count)),
{
}

/// A record that is fitted to `count` chunks says of each what it said before, and of those it
/// did not know that they are missing; without a record nothing is complete.
pub proof fn fitting_keeps_what_is_recorded(stored: Option<RangeState>, count: int, i: int)
    requires
        0 <= i < count,
    ensures
        fitted(recorded(stored), count).len() == count,
        stored matches Some(state) ==> (fitted(recorded(stored), count)[i] <==> i
            < state.completed@.len() && state.completed@[i]),
        stored is None ==> !fitted(recorded(stored), count)[i],
{
}

/// Marking a chunk adds that one to the record and changes nothing else; there is nothing to
/// mark outside of the record.
pub proof fn marks_are_set_in_place(completed: Seq<bool>, index: int)
    ensures
        marked(completed, index).len() == completed.len(),
        0 <= index < completed.len() ==> marked(completed, index)[index],
        forall|i: int|
            0 <= i < completed.len() && i != index ==> #[trigger] marked(completed, index)[i]
                == completed[i],
{
}

/// Without any complete chunk no byte is complete.
pub proof fn nothing_done_is_nothing_counted(chunks: Seq<ByteRange>, completed: Seq<bool>)
    requires
        forall|i: int| 0 <= i < completed.len() ==> !(#[trigger] completed[i]),
    ensures
        bytes_in(chunks, completed, true) == 0,
    decreases chunks.len(),
{
    if chunks.len() > 0 {
        nothing_done_is_nothing_counted(chunks.drop_last(), completed);
    }
}

/// A chunk that is completed moves its bytes from those that are missing to those that are
/// there.
pub proof fn completing_moves_the_bytes(chunks: Seq<ByteRange>, completed: Seq<bool>, k: int)
    requires
        completed.len() >= chunks.len(),
        0 <= k < chunks.len(),
        !completed[k],
    ensures
        bytes_in(chunks, completed.update(k, true), true) == bytes_in(chunks, completed, true) + (
        chunks[k].end - chunks[k].start + 1),
        bytes_in(chunks, completed.update(k, true), false) == bytes_in(chunks, completed, false) - (
        chunks[k].end - chunks[k].start + 1),
    decreases chunks.len(),
{
    let rest = chunks.drop_last();
    if k < chunks.len() - 1 {
        completing_moves_the_bytes(rest, completed, k);
    } else {
        lemma_later_marks(rest, completed, k, true);
        lemma_later_marks(rest, completed, k, false);
    }
}

/// What is recorded of later chunks does not matter for earlier ones.
proof fn lemma_later_marks(chunks: Seq<ByteRange>, completed: Seq<bool>, k: int, done: bool)
    requires
        chunks.len() <= k < completed.len(),
    ensures
        bytes_in(chunks, completed.update(k, true), done) == bytes_in(chunks, completed, done),
    decreases chunks.len(),
{
    if chunks.len() > 0 {
        lemma_later_marks(chunks.drop_last(), completed, k, done);
    }
}

/// The pending chunks are those that are not complete, each once and in order.
pub proof fn pending_chunks_are_in_order(completed: Seq<bool>, i: int)
    ensures
        pending(completed).contains(i) <==> 0 <= i < completed.len() && !completed[i],
        forall|j: int, k: int|
            0 <= j < k < pending(completed).len() ==> #[trigger] pending(completed)[j]
                < #[trigger] pending(completed)[k],
    decreases completed.len(),
{
    pending_is_not_done(completed, i);
    if completed.len() > 0 {
        let before = pending(completed.drop_last());
        pending_chunks_are_in_order(completed.drop_last(), i);
        let all = pending(completed);
        assert forall|j: int, k: int| 0 <= j < k < all.len() implies #[trigger] all[j]
            < #[trigger] all[k] by {
            if k == before.len() {
                pending_is_not_done(completed.drop_last(), before[j]);
                assert(before.contains(before[j]));
            }
        }
    }
}

/// An answer to the request for a chunk is accepted exactly if it is a part and its
/// `Content-Range` names the first and the last byte of the chunk.
pub proof fn only_the_chunk_is_accepted(
    chunk: ByteRange,
    code: u16,
    start: u64,
    end: u64,
    total: u64,
)
    ensures
        is_chunk_reply(
            chunk,
            code,
            told_bounds(Some(content_range_text(start, end, total))),
        ) <==> code == 206 && start == chunk.start && end == chunk.end,
        !is_chunk_reply(chunk, code, told_bounds(None)),
{
    content_range_round_trip(start, end, total);
}

/// The request for a chunk is for the chunk: the bytes that its `Range` names are those whose
/// answer is accepted.
pub proof fn chunks_are_asked_for(chunk: ByteRange)
    ensures
        starts_with(closed_range_text(chunk.start, chunk.end), "bytes="@),
        is_chunk_reply(
            chunk,
            206,
            range_of(closed_range_text(chunk.start, chunk.end).skip("bytes="@.len() as int)),
        ),
{
    closed_range_names_its_bytes(chunk.start, chunk.end, 0);
}

/// The body of an accepted answer of a server that sends what it says is the chunk.
pub proof fn accepted_bodies_are_the_chunk(
    content: Seq<u8>,
    chunk: ByteRange,
    code: u16,
    bounds: Option<(u64, u64)>,
    body: Seq<u8>,
)
    requires
        chunk.start <= chunk.end < content.len(),
        is_chunk_reply(chunk, code, bounds),
        bounds matches Some((start, end)) ==> body == content.subrange(start as int, end + 1),
    ensures
        body == part_of(content, chunk),
        body.len() == chunk.count(),
{
}

/// Files that are fetched in chunks have at least four, and chunks can be counted out of every
/// file that leaves room for one more.
pub proof fn large_files_have_several_chunks(size: u64)
    requires
        LARGE_FILE_CHUNK_THRESHOLD <= size <= u64::MAX - DEFAULT_CHUNK_SIZE,
    ensures
        can_chunk(size, DEFAULT_CHUNK_SIZE),
        all_chunks(size as int, DEFAULT_CHUNK_SIZE as int).len() >= 4,
        DEFAULT_CHUNK_SIZE == 64 * 1024 * 1024,
        LARGE_FILE_CHUNK_THRESHOLD == 256 * 1024 * 1024,
{
    crate::download::chunks::files_can_be_chunked(size, DEFAULT_CHUNK_SIZE);
}

/// A plan has the chunks that the record does not have, and no others: each that is not
/// recorded as complete is fetched, and the bytes of those that are count as there.
pub proof fn plans_fetch_what_is_missing(
    plan: RangePlan,
    size: u64,
    stored: Option<RangeState>,
    k: int,
)
    requires
        is_plan(plan, size, stored),
        0 <= k < plan.chunks@.len(),
    ensures
        plan.chunks@ == all_chunks(size as int, DEFAULT_CHUNK_SIZE as int),
        (exists|i: int| 0 <= i < plan.pending@.len() && #[trigger] plan.pending@[i] == k) <==> (
        match stored {
            Some(state) => !(k < state.completed@.len() && state.completed@[k]),
            None => true,
        }),
        stored is None ==> plan.completed_bytes == 0,
{
    let record = fitted(recorded(stored), plan.chunks@.len() as int);
    let missing = pending(record);
    fitting_keeps_what_is_recorded(stored, plan.chunks@.len() as int, k);
    pending_chunks_are_in_order(record, k);
    if exists|i: int| 0 <= i < plan.pending@.len() && #[trigger] plan.pending@[i] == k {
        let i = choose|i: int| 0 <= i < plan.pending@.len() && #[trigger] plan.pending@[i] == k;
        assert(missing[i] == k);
        assert(missing.contains(k));
    }
    if missing.contains(k) {
        let i = missing.index_of(k);
        assert(plan.pending@[i] == missing[i]);
    }
    if stored is None {
        nothing_done_is_nothing_counted(plan.chunks@, recorded(stored));
    }
}

/// The messages about answers that are not the chunk name the file, and the first one also what
/// was answered.
pub proof fn refusals_name_the_file(path: Seq<char>, words: Seq<char>)
    ensures
        refused_text(path, words) == "server did not honor range request for "@ + path
            + ": expected 206, got "@ + words,
        unexpected_text(path) == "server returned unexpected content-range for "@ + path,
        unexpected_text(path) == unexpected_text(Seq::empty()) + path,
{
    assert(unexpected_text(Seq::empty()) + path =~= unexpected_text(path));
}

} // verus!
