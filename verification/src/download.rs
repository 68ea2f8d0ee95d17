//! The download streamer: which bytes of a file go out, under which
//! status and headers.

use crate::entry::EntryKind;
use crate::error::GatewayError;
use crate::lexical::final_component;
use crate::path::ResolvedPath;
use crate::range::{
    lemma_satisfiable_range, lemma_unsatisfiable_range, parse_range, parse_range_spec, range_header,
};
use crate::text::{decimal, decimal_string, option_view};
use vstd::prelude::*;
use vstd::string::StringExecFns;

verus! {

/// The media type that `mime_guess` finds for a path: the first type that
/// its table lists for the path's extension, and `application/octet-stream`
/// where the table has none.
pub uninterp spec fn guessed_media_type(path: Seq<char>) -> Seq<char>;

/// `mime_guess::from_path` followed by `first_or_octet_stream`, as text.
/// The guess looks at the path's text alone and reads no file, so it is the
/// same for the same path.
#[verifier::external_body]
fn guess_media_type(path: &str) -> (media: String)
    ensures
        media@ == guessed_media_type(path@),
{
    let guess = mime_guess::from_path(path).first_or_octet_stream();
    let text: &str = guess.as_ref();
    text.to_string()
}

/// How a file, or a part of it, is sent.
#[derive(Clone, Debug, PartialEq, Eq)]
pub struct DownloadPlan {
    /// 200 for the whole file, 206 for a part.
    pub status: u16,
    /// The first byte to send, counted from 0.
    pub start: u64,
    /// How many bytes to send: the `Content-Length`.
    pub length: u64,
    /// The `Content-Type` header.
    pub content_type: String,
    /// The `Content-Disposition` header.
    pub content_disposition: String,
    /// The `Accept-Ranges` header.
    pub accept_ranges: String,
    /// The `Content-Range` header of a part; the whole file has none.
    pub content_range: Option<String>,
}

/// What a plan holds.
pub struct PlanView {
    pub status: u16,
    pub start: u64,
    pub length: u64,
    pub content_type: Seq<char>,
    pub content_disposition: Seq<char>,
    pub accept_ranges: Seq<char>,
    pub content_range: Option<Seq<char>>,
}

impl View for DownloadPlan {
    type V = PlanView;

    open spec fn view(&self) -> PlanView {
        PlanView {
            status: self.status,
            start: self.start,
            length: self.length,
            content_type: self.content_type@,
            content_disposition: self.content_disposition@,
            accept_ranges: self.accept_ranges@,
            content_range: match self.content_range {
                Some(range) => Some(range@),
                None => None,
            },
        }
    }
}

/// The `Content-Disposition` of a file called `name`.
pub open spec fn disposition_spec(name: Seq<char>) -> Seq<char> {
    "attachment; filename=\""@ + name + "\""@
}

/// The `Content-Range` of the bytes from `start` to `end` of `size`.
pub open spec fn content_range_spec(start: u64, end: u64, size: u64) -> Seq<char> {
    "bytes "@ + decimal(start as nat) + "-"@ + decimal(end as nat) + "/"@ + decimal(size as nat)
}

/// The `Content-Range` that answers a range which a file of `size` bytes
/// cannot serve.
pub open spec fn unsatisfiable_spec(size: u64) -> Seq<char> {
    "bytes */"@ + decimal(size as nat)
}

/// How a file of `size` bytes called `name`, of media type `media`, is
/// sent in answer to a request with the given `Range` header.
///
/// Without the header the whole file goes out under status 200. With a
/// header that gives a range, these bytes go out under status 206, with a
/// `Content-Range`. A header that gives none is refused as
/// `RangeNotSatisfiable`.
pub open spec fn plan_spec(
    name: Seq<char>,
    media: Seq<char>,
    size: u64,
    range: Option<Seq<char>>,
) -> Result<PlanView, GatewayError> {
    match range {
        None => Ok(
            PlanView {
                status: 200,
                start: 0,
                length: size,
                content_type: media,
                content_disposition: disposition_spec(name),
                accept_ranges: "bytes"@,
                content_range: None,
            },
        ),
        Some(header) => match parse_range_spec(header, size) {
            Some((start, end)) => Ok(
                PlanView {
                    status: 206,
                    start,
                    length: (end - start + 1) as u64,
                    content_type: media,
                    content_disposition: disposition_spec(name),
                    accept_ranges: "bytes"@,
                    content_range: Some(content_range_spec(start, end, size)),
                },
            ),
            None => Err(GatewayError::RangeNotSatisfiable),
        },
    }
}

/// The name under which a download is offered: the name at the end of the
/// path, or `unknow` where the path ends in none.
pub open spec fn download_name(path: Seq<char>) -> Seq<char> {
    match final_component(path) {
        Some(name) => name,
        None => "unknow"@,
    }
}

/// Whether `plan` is what `expected` says.
pub open spec fn plan_matches(
    plan: Result<DownloadPlan, GatewayError>,
    expected: Result<PlanView, GatewayError>,
) -> bool {
    match (plan, expected) {
        (Ok(plan), Ok(view)) => plan@ == view,
        (Err(error), Err(wanted)) => error == wanted,
        _ => false,
    }
}

/// The bytes of a file's content that a plan sends.
pub open spec fn body_spec(content: Seq<u8>, plan: PlanView) -> Seq<u8> {
    content.subrange(plan.start as int, plan.start + plan.length)
}

/// A request without `Range` header is answered with the whole file: under
/// status 200, without `Content-Range`, with a `Content-Length` that is the
/// file's size and a body that is the file's content.
pub proof fn lemma_full_download(name: Seq<char>, media: Seq<char>, content: Seq<u8>, size: u64)
    requires
        content.len() == size,
    ensures
        plan_spec(name, media, size, None) is Ok,
        plan_spec(name, media, size, None)->Ok_0.status == 200,
        plan_spec(name, media, size, None)->Ok_0.length == size,
        plan_spec(name, media, size, None)->Ok_0.content_range is None,
        body_spec(content, plan_spec(name, media, size, None)->Ok_0) == content,
{
    let plan = plan_spec(name, media, size, None)->Ok_0;
    assert(body_spec(content, plan) =~= content);
}

/// A request for the bytes from `first` to `last`, both inside the file
/// and in order, is answered with exactly these bytes: under status 206,
/// with the `Content-Range` that names them and the file's size.
pub proof fn lemma_partial_download(
    name: Seq<char>,
    media: Seq<char>,
    content: Seq<u8>,
    first: u64,
    last: u64,
    size: u64,
)
    requires
        content.len() == size,
        first <= last < size,
    ensures
        plan_spec(name, media, size, Some(range_header(first, last))) is Ok,
        plan_spec(name, media, size, Some(range_header(first, last)))->Ok_0.status == 206,
        plan_spec(name, media, size, Some(range_header(first, last)))->Ok_0.length == last - first
            + 1,
        plan_spec(name, media, size, Some(range_header(first, last)))->Ok_0.content_range == Some(
            content_range_spec(first, last, size),
        ),
        body_spec(content, plan_spec(name, media, size, Some(range_header(first, last)))->Ok_0)
            == content.subrange(first as int, last + 1),
{
    lemma_satisfiable_range(first, last, size);
}

/// A request for bytes whose first lies behind the last, or behind the end
/// of the file, is refused as `RangeNotSatisfiable`.
pub proof fn lemma_unsatisfiable_download(
    name: Seq<char>,
    media: Seq<char>,
    first: u64,
    last: u64,
    size: u64,
)
    requires
        first > last || first >= size,
    ensures
        plan_spec(name, media, size, Some(range_header(first, last))) == Err::<
            PlanView,
            GatewayError,
        >(GatewayError::RangeNotSatisfiable),
{
    lemma_unsatisfiable_range(first, last, size);
}

/// Writes the `Content-Range` of a part.
pub fn content_range(start: u64, end: u64, size: u64) -> (text: String)
    ensures
        text@ == content_range_spec(start, end, size),
{
    let mut text = String::from_str("bytes ");
    text.append(decimal_string(start).as_str());
    text.append("-");
    text.append(decimal_string(end).as_str());
    text.append("/");
    text.append(decimal_string(size).as_str());
    text
}

/// Writes the `Content-Range` that answers an unsatisfiable range.
pub fn unsatisfiable_range(size: u64) -> (text: String)
    ensures
        text@ == unsatisfiable_spec(size),
{
    let mut text = String::from_str("bytes */");
    text.append(decimal_string(size).as_str());
    text
}

/// Plans the transfer of a file of `size` bytes called `name`, of media
/// type `media`, in answer to a request with the given `Range` header.
pub fn plan_transfer(name: &str, media: &str, size: u64, range: Option<&str>) -> (plan: Result<
    DownloadPlan,
    GatewayError,
>)
    ensures
        plan_matches(plan, plan_spec(name@, media@, size, option_view(range))),
{
    let mut content_disposition = String::from_str("attachment; filename=\"");
    content_disposition.append(name);
    content_disposition.append("\"");
    match range {
        None => Ok(
            DownloadPlan {
                status: 200,
                start: 0,
                length: size,
                content_type: String::from_str(media),
                content_disposition,
                accept_ranges: String::from_str("bytes"),
                content_range: None,
            },
        ),
        Some(header) => match parse_range(header, size) {
            Some((start, end)) => Ok(
                DownloadPlan {
                    status: 206,
                    start,
                    length: end - start + 1,
                    content_type: String::from_str(media),
                    content_disposition,
                    accept_ranges: String::from_str("bytes"),
                    content_range: Some(content_range(start, end, size)),
                },
            ),
            None => Err(GatewayError::RangeNotSatisfiable),
        },
    }
}

/// Whether an entry of kind `kind` can be downloaded: only a file can.
/// Another kind is refused as `BadRequest`.
pub fn check_downloadable(kind: EntryKind) -> (verdict: Result<(), GatewayError>)
    ensures
        verdict == if kind == EntryKind::File {
            Ok::<(), GatewayError>(())
        } else {
            Err::<(), GatewayError>(GatewayError::BadRequest)
        },
{
    match kind {
        EntryKind::File => Ok(()),
        _ => Err(GatewayError::BadRequest),
    }
}

/// Plans the download of the entry at `path`, which is of kind `kind` and,
/// if a file, `size` bytes long. Only a file can be downloaded: another
/// kind is refused as `BadRequest`. For a file the plan is that of
/// `plan_spec`, under the name at the end of the path and the media type
/// guessed from the path.
pub fn plan_download(path: &ResolvedPath, kind: EntryKind, size: u64, range: Option<&str>) -> (plan:
    Result<DownloadPlan, GatewayError>)
    ensures
        kind != EntryKind::File ==> plan == Err::<DownloadPlan, GatewayError>(
            GatewayError::BadRequest,
        ),
        kind == EntryKind::File ==> plan_matches(
            plan,
            plan_spec(
                download_name(path.path_spec()),
                guessed_media_type(path.path_spec()),
                size,
                option_view(range),
            ),
        ),
{
    match check_downloadable(kind) {
        Ok(_) => {},
        Err(error) => { return Err(error); },
    }
    let name = match path.name() {
        Some(name) => name,
        None => String::from_str("unknow"),
    };
    let media = guess_media_type(path.path().as_str());
    plan_transfer(name.as_str(), media.as_str(), size, range)
}

impl DownloadPlan {
    /// The `Content-Length` header: the number of bytes that go out.
    pub fn content_length(&self) -> (text: String)
        ensures
            text@ == decimal(self.length as nat),
    {
        decimal_string(self.length)
    }

    /// A cursor over the bytes that go out.
    pub fn cursor(&self) -> (cursor: TransferCursor)
        ensures
            cursor.length_spec() == self.length,
            cursor.sent_spec() == 0,
    {
        TransferCursor::new(self.length)
    }
}

/// How far a transfer has come: of `length` bytes to send, `sent` are out.
/// The transfer goes chunk by chunk, none larger than the room that the
/// caller has, and none reaching past the end.
#[derive(Debug)]
pub struct TransferCursor {
    length: u64,
    sent: u64,
}

impl TransferCursor {
    #[verifier::type_invariant]
    spec fn within(self) -> bool {
        self.sent <= self.length
    }

    /// How many bytes the transfer has in all.
    pub closed spec fn length_spec(self) -> u64 {
        self.length
    }

    /// How many bytes are out.
    pub closed spec fn sent_spec(self) -> u64 {
        self.sent
    }

    /// How many bytes are still to send.
    pub open spec fn remaining_spec(self) -> int {
        self.length_spec() - self.sent_spec()
    }

    /// A cursor at the start of a transfer of `length` bytes.
    pub fn new(length: u64) -> (cursor: TransferCursor)
        ensures
            cursor.length_spec() == length,
            cursor.sent_spec() == 0,
    {
        TransferCursor { length, sent: 0 }
    }

    /// How many bytes are out.
    pub fn sent(&self) -> (sent: u64)
        ensures
            sent == self.sent_spec(),
            sent <= self.length_spec(),
    {
        proof {
            use_type_invariant(self);
        }
        self.sent
    }

    /// How many bytes are still to send.
    pub fn remaining(&self) -> (left: u64)
        ensures
            left == self.remaining_spec(),
    {
        proof {
            use_type_invariant(self);
        }
        self.length - self.sent
    }

    /// Whether every byte is out.
    pub fn is_done(&self) -> (done: bool)
        ensures
            done == (self.sent_spec() == self.length_spec()),
    {
        self.sent == self.length
    }

    /// How many bytes to read next, with room for `room`: as many as fit,
    /// and no more than are still to send.
    pub fn next_chunk(&self, room: usize) -> (size: usize)
        ensures
            size <= room,
            size == if self.remaining_spec() < room {
                self.remaining_spec()
            } else {
                room as int
            },
    {
        let left = self.remaining();
        if left < room as u64 {
            left as usize
        } else {
            room
        }
    }

    /// Records that `count` more bytes went out. A count beyond what was
    /// still to send is refused, and the cursor stays where it was.
    pub fn advance(&mut self, count: usize) -> (accepted: bool)
        ensures
            final(self).length_spec() == old(self).length_spec(),
            accepted == (count <= old(self).remaining_spec()),
            accepted ==> final(self).sent_spec() == old(self).sent_spec() + count,
            !accepted ==> final(self).sent_spec() == old(self).sent_spec(),
    {
        proof {
            use_type_invariant(&*self);
        }
        if count as u64 <= self.length - self.sent {
            self.sent = self.sent + count as u64;
            true
        } else {
            false
        }
    }
}

} // verus!
