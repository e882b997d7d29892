//! Downloads in one stream that go on where an earlier one stopped.

use vstd::prelude::*;

use crate::download::content_range::{open_range, open_range_names_its_start, open_range_text};
use crate::download::range::{bounds_told, told_bounds, unexpected_range, unexpected_text};
use crate::error::{Failure, MgetError};
use crate::number::parsed_u64;
use crate::status::PARTIAL_CONTENT;
use crate::text::{cut_at_first, slice_text_of, starts_with, text_of};

verus! {

/// How a download in one stream starts.
#[derive(Debug, Clone, Copy, PartialEq, Eq, Structural)]
pub enum StreamStart {
    /// The partial file is all of the file: it only has to be renamed.
    Complete,
    /// The file is fetched from `offset` on; a partial file that is too long is
    /// removed first.
    Fetch { remove_part: bool, offset: u64 },
}

/// The start of a stream for a partial file of `existing` bytes.
pub open spec fn stream_start(existing: u64, size: Option<u64>) -> StreamStart {
    match size {
        Some(size) => if existing == size {
            StreamStart::Complete
        } else if existing > size {
            StreamStart::Fetch { remove_part: true, offset: 0 }
        } else {
            StreamStart::Fetch { remove_part: false, offset: existing }
        },
        None => StreamStart::Fetch { remove_part: false, offset: existing },
    }
}

/// The length of a partial file; one that is not there is empty.
pub open spec fn existing_bytes(part_len: Option<u64>) -> u64 {
    match part_len {
        Some(len) => len,
        None => 0,
    }
}

/// Decides how a download in one stream starts, from the length of the partial file, if
/// there is one, and the size of the file, if it is known.
pub fn begin_stream(part_len: Option<u64>, size: Option<u64>) -> (r: StreamStart)
    ensures
        r == stream_start(existing_bytes(part_len), size),
{
    let existing: u64 = match part_len {
        Some(len) => len,
        None => 0,
    };
    if let Some(size) = size {
        if existing == size {
            return StreamStart::Complete;
        }
        if existing > size {
            return StreamStart::Fetch { remove_part: true, offset: 0 };
        }
    }
    StreamStart::Fetch { remove_part: false, offset: existing }
}

/// A stream never asks for more than the file has left, nor for what lies behind its
/// end.
pub proof fn stream_starts_inside(existing: u64, size: u64)
    ensures
        match stream_start(existing, Some(size)) {
            StreamStart::Complete => existing == size,
            StreamStart::Fetch { remove_part, offset } => {
                &&& existing != size
                &&& remove_part == (existing > size)
                &&& offset == 0 || offset < size
            },
        },
{
}

/// The `Range` to ask for, where not all of the file is asked for.
pub open spec fn asked_range(offset: u64) -> Option<Seq<char>> {
    if offset > 0 {
        Some(open_range_text(offset))
    } else {
        None
    }
}

/// The `Range` to ask for, where not all of the file is asked for.
pub fn stream_range(offset: u64) -> (r: Option<String>)
    ensures
        text_of(r) == asked_range(offset),
{
    if offset > 0 {
        Some(open_range(offset))
    } else {
        None
    }
}

/// What to do with the answer to the request of a stream.
#[derive(Debug)]
pub enum StreamReply {
    /// The body goes on where the partial file ends.
    Append,
    /// The body is the file from its start; the partial file is dropped. `ignored`
    /// says that a part was asked for.
    Restart { ignored: bool },
    /// The body is neither.
    Refuse(MgetError),
}

/// What to do with an answer, with its texts as character sequences.
pub ghost enum ReplyView {
    Append,
    Restart { ignored: bool },
    Refuse(Failure),
}

impl View for StreamReply {
    type V = ReplyView;

    open spec fn view(&self) -> ReplyView {
        match *self {
            StreamReply::Append => ReplyView::Append,
            StreamReply::Restart { ignored } => ReplyView::Restart { ignored },
            StreamReply::Refuse(error) => ReplyView::Refuse(error@),
        }
    }
}

/// Whether an answer holds what follows the first `offset` bytes.
pub open spec fn continues_at(offset: u64, bounds: Option<(u64, u64)>) -> bool {
    bounds matches Some((start, end)) && start == offset
}

/// What to do with an answer: a part is appended only if it starts where the partial
/// file ends, and anything that is not a part starts the file anew.
pub open spec fn stream_reply(
    path: Seq<char>,
    offset: u64,
    code: u16,
    bounds: Option<(u64, u64)>,
) -> ReplyView {
    if offset == 0 || code != PARTIAL_CONTENT {
        ReplyView::Restart { ignored: offset > 0 }
    } else if continues_at(offset, bounds) {
        ReplyView::Append
    } else {
        ReplyView::Refuse(Failure::Message(unexpected_text(path)))
    }
}

/// Decides what to do with the answer to a request for the file at `path` from
/// `offset` on.
pub fn accept_stream_reply(path: &str, offset: u64, code: u16, content_range: Option<&str>) -> (r:
    StreamReply)
    ensures
        r@ == stream_reply(path@, offset, code, told_bounds(slice_text_of(content_range))),
{
    if offset == 0 || code != PARTIAL_CONTENT {
        return StreamReply::Restart { ignored: offset > 0 };
    }
    match bounds_told(content_range) {
        Some((start, end)) if start == offset => StreamReply::Append,
        _ => StreamReply::Refuse(unexpected_range(path)),
    }
}

/// The number of bytes that are on disk already and are kept.
pub open spec fn bytes_kept(reply: ReplyView, offset: u64) -> u64 {
    if reply is Append {
        offset
    } else {
        0
    }
}

/// The number of bytes that are on disk already and are kept.
pub fn kept_bytes(reply: &StreamReply, offset: u64) -> (r: u64)
    ensures
        r == bytes_kept(reply@, offset),
{
    match reply {
        StreamReply::Append => offset,
        _ => 0,
    }
}

/// The warning for a server that sends all of the file where a part was asked for.
pub fn ignored_resume_warning(path: &str) -> (out: String)
    ensures
        out@ == "warning: server ignored resume for "@ + path@
            + "; restarting partial download"@,
{
    let mut out = "warning: server ignored resume for ".to_owned();
    out.append(path);
    out.append("; restarting partial download");
    out
}

/// The partial file after the body of an accepted answer was written.
pub open spec fn stream_file(part: Seq<u8>, reply: ReplyView, body: Seq<u8>) -> Seq<u8> {
    match reply {
        ReplyView::Append => part + body,
        ReplyView::Restart { .. } => body,
        ReplyView::Refuse(_) => part,
    }
}

/// A server that ignores the range that was asked for causes a fresh download: nothing
/// is appended, and nothing of the partial file is left.
pub proof fn ignored_range_restarts(
    path: Seq<char>,
    offset: u64,
    code: u16,
    bounds: Option<(u64, u64)>,
    part: Seq<u8>,
    body: Seq<u8>,
)
    requires
        code != PARTIAL_CONTENT,
    ensures
        stream_file(part, stream_reply(path, offset, code, bounds), body) == body,
{
}

/// Whether an answer to a request for `content` from `offset` on is what its headers
/// say: a part that starts where its range says, or all of the content.
pub open spec fn is_honest(
    content: Seq<u8>,
    offset: u64,
    code: u16,
    bounds: Option<(u64, u64)>,
    body: Seq<u8>,
) -> bool {
    if offset > 0 && code == PARTIAL_CONTENT {
        bounds matches Some((start, end)) ==> start <= content.len() && body == content.skip(
            start as int,
        )
    } else {
        body == content
    }
}

/// A partial file that holds the start of the content becomes the content with every
/// honest answer that is accepted.
pub proof fn stream_gives_content(
    path: Seq<char>,
    content: Seq<u8>,
    offset: u64,
    code: u16,
    bounds: Option<(u64, u64)>,
    body: Seq<u8>,
)
    requires
        offset <= content.len(),
        is_honest(content, offset, code, bounds, body),
        stream_reply(path, offset, code, bounds) !is Refuse,
    ensures
        stream_file(
            content.take(offset as int),
            stream_reply(path, offset, code, bounds),
            body,
        ) == content,
{
    if stream_reply(path, offset, code, bounds) is Append {
        assert(content.take(offset as int) + content.skip(offset as int) =~= content);
    }
}

/// An answer that goes on where the partial file ends is accepted, and so is all of the
/// file.
pub proof fn good_answers_are_accepted(
    path: Seq<char>,
    offset: u64,
    code: u16,
    bounds: Option<(u64, u64)>,
)
    requires
        code != PARTIAL_CONTENT || continues_at(offset, bounds),
    ensures
        stream_reply(path, offset, code, bounds) !is Refuse,
{
}

/// A stream that keeps the partial file goes on exactly at its end, and one that does not
/// starts from the beginning, whether or not the size is known.
pub proof fn streams_go_on_at_the_end(part_len: Option<u64>, size: Option<u64>)
    ensures
        stream_start(existing_bytes(part_len), size) matches StreamStart::Fetch {
            remove_part,
            offset,
        } ==> offset == (if remove_part || part_len is None {
            0
        } else {
            part_len->0
        }),
        size is None ==> stream_start(existing_bytes(part_len), size) == (StreamStart::Fetch {
            remove_part: false,
            offset: if part_len is None {
                0
            } else {
                part_len->0
            },
        }),
{
}

/// What is on disk when the request of a stream is made: nothing of a partial file that was
/// removed.
pub open spec fn on_disk(part: Option<Seq<u8>>, remove_part: bool) -> Seq<u8> {
    match part {
        Some(bytes) if !remove_part => bytes,
        _ => Seq::empty(),
    }
}

/// A stream gives the content: from any partial file that holds its start, or from none, the
/// file on disk with the body of an honest answer that is accepted is the content, and a
/// partial file that is taken for complete is the content.
pub proof fn resumed_streams_give_content(
    path: Seq<char>,
    content: Seq<u8>,
    part: Option<Seq<u8>>,
    size_known: bool,
    code: u16,
    bounds: Option<(u64, u64)>,
    body: Seq<u8>,
)
    requires
        content.len() <= u64::MAX,
        part matches Some(bytes) ==> bytes.len() <= content.len() && bytes == content.take(
            bytes.len() as int,
        ),
    ensures
        ({
            let part_len = match part {
                Some(bytes) => Some(bytes.len() as u64),
                None => None,
            };
            let size = if size_known {
                Some(content.len() as u64)
            } else {
                None
            };
            match stream_start(existing_bytes(part_len), size) {
                StreamStart::Complete => part == Some(content) || content.len() == 0,
                StreamStart::Fetch { remove_part, offset } => {
                    let reply = stream_reply(path, offset, code, bounds);
                    is_honest(content, offset, code, bounds, body) && reply !is Refuse
                        ==> stream_file(on_disk(part, remove_part), reply, body) == content
                },
            }
        }),
{
    if let Some(bytes) = part {
        assert(bytes + content.skip(bytes.len() as int) =~= content);
        if bytes.len() == content.len() {
            assert(bytes =~= content);
        }
    }
    assert(Seq::<u8>::empty() + content =~= content);
}

/// A partial file that is longer than the file is not kept, and one of its length is not
/// fetched again.
pub proof fn partial_files_are_measured(len: u64, size: u64)
    ensures
        len < size ==> stream_start(existing_bytes(Some(len)), Some(size)) == (StreamStart::Fetch {
            remove_part: false,
            offset: len,
        }),
        len > size ==> stream_start(existing_bytes(Some(len)), Some(size)) == (StreamStart::Fetch {
            remove_part: true,
            offset: 0,
        }),
        stream_start(existing_bytes(Some(len)), Some(len)) is Complete,
{
}

/// A body is appended exactly if a part was asked for and came, and starts where the partial
/// file ends; a part that starts elsewhere is refused; anything else starts the file anew, and
/// it is said whether a part was asked for.
pub proof fn parts_are_appended_where_they_fit(
    path: Seq<char>,
    offset: u64,
    code: u16,
    start: u64,
    end: u64,
)
    ensures
        offset > 0 ==> {
            &&& stream_reply(path, offset, 206, Some((offset, end))) is Append
            &&& start != offset ==> stream_reply(path, offset, 206, Some((start, end))) is Refuse
            &&& stream_reply(path, offset, 206, None) is Refuse
        },
        code != 206 ==> stream_reply(path, offset, code, Some((start, end))) == (
        ReplyView::Restart { ignored: offset > 0 }),
        code != 206 ==> stream_reply(path, offset, code, None) == (ReplyView::Restart {
            ignored: offset > 0,
        }),
        stream_reply(path, 0, code, Some((start, end))) == (ReplyView::Restart { ignored: false }),
        stream_reply(path, 0, code, None) == (ReplyView::Restart { ignored: false }),
{
}

/// What is kept and what comes with an answer that is accepted make up the file.
pub proof fn kept_and_received_make_the_file(part: Seq<u8>, reply: ReplyView, body: Seq<u8>)
    requires
        part.len() <= u64::MAX,
        reply !is Refuse,
    ensures
        bytes_kept(reply, part.len() as u64) + body.len() == stream_file(part, reply, body).len(),
{
}

/// A part is asked for exactly where something is on disk, from there on.
pub proof fn rest_is_asked_for(offset: u64)
    ensures
        asked_range(offset) is None <==> offset == 0,
        asked_range(offset) matches Some(text) ==> {
            &&& starts_with(text, "bytes="@)
            &&& cut_at_first(text.skip("bytes="@.len() as int), '-') matches Some((first, last))
                && parsed_u64(first) == Some(offset) && last.len() == 0
        },
{
    open_range_names_its_start(offset);
}

} // verus!
