//! Requests to the automation server: the head of a request, the reading of a response
//! piece by piece, and calls by JSON-RPC.

use crate::adb::bytes_in;
use crate::numerals::{decimal, decimal_of, numeral, parse_unsigned, Fault};
use crate::platform::{json_bytes, json_complaint, json_encode, json_lookup, json_member, lowercase,
    text_lossy, utf8_lossy};
use crate::text::{chars_of, copy_of, find, find_text, is_white, pieces, split_words, string_of,
    trim, trimmed, white_space_is_listed, words, words_end_at_white_space};
use vstd::prelude::*;

verus! {

/// The address of the automation server, through the forward.
pub const ADDRESS: &'static str = "127.0.0.1:9008";

// ── Requests ──

/// The head of a request. One with a body says how long it is.
pub open spec fn head_of(
    addr: Seq<char>,
    method: Seq<char>,
    path: Seq<char>,
    body_len: Option<nat>,
) -> Seq<char> {
    method + " "@ + path + " HTTP/1.1\r\nHost: "@ + addr + (match body_len {
        Some(n) => "\r\nContent-Type: application/json\r\nContent-Length: "@ + decimal(n),
        None => ""@,
    }) + "\r\nConnection: close\r\n\r\n"@
}

/// Writes the head of a request.
pub fn request_head(addr: &str, method: &str, path: &str, body: Option<&[u8]>) -> (r: String)
    ensures
        r@ == head_of(
            addr@,
            method@,
            path@,
            match body {
                Some(b) => Some(b@.len()),
                None => None,
            },
        ),
{
    let mut s = copy_of(method);
    s.append(" ");
    s.append(path);
    s.append(" HTTP/1.1\r\nHost: ");
    s.append(addr);
    let length = match body {
        Some(b) => {
            let mut t = copy_of("\r\nContent-Type: application/json\r\nContent-Length: ");
            let number = decimal_of(b.len() as u64);
            t.append(number.as_str());
            t
        },
        None => copy_of(""),
    };
    s.append(length.as_str());
    s.append("\r\nConnection: close\r\n\r\n");
    s
}

// ── Chunked bodies ──

/// What to read from the connection next.
#[derive(Clone, Copy, Debug, PartialEq, Eq, Structural)]
pub enum Want {
    /// A line, with its line feed.
    Line,
    /// Exactly so many bytes.
    Exact(usize),
    /// Everything up to the end.
    Rest,
}

/// What reading brought. A line at the end of the stream is empty.
#[derive(Debug)]
pub enum Got {
    Line(Result<String, String>),
    Bytes(Result<Vec<u8>, String>),
}

/// What reading brought, with texts and bytes as sequences.
pub enum GotView {
    Line(Result<Seq<char>, Seq<char>>),
    Bytes(Result<Seq<u8>, Seq<char>>),
}

impl View for Got {
    type V = GotView;

    open spec fn view(&self) -> GotView {
        match *self {
            Got::Line(Ok(s)) => GotView::Line(Ok(s@)),
            Got::Line(Err(e)) => GotView::Line(Err(e@)),
            Got::Bytes(r) => GotView::Bytes(bytes_in(r)),
        }
    }
}

/// What was read is of the kind that was wanted.
pub open spec fn answers(got: GotView, want: Want) -> bool {
    match want {
        Want::Line => got is Line,
        _ => got is Bytes,
    }
}

/// The part of a chunk that is read next.
#[derive(Clone, Copy, Debug, PartialEq, Eq, Structural)]
pub enum ChunkPart {
    Size,
    Data(usize),
    End,
}

impl ChunkPart {
    /// What to read for it.
    pub open spec fn want(self) -> Want {
        match self {
            ChunkPart::Size => Want::Line,
            ChunkPart::Data(n) => Want::Exact(n),
            ChunkPart::End => Want::Exact(2),
        }
    }

    /// Tells what to read for it.
    pub fn wanted(self) -> (r: Want)
        ensures
            r == self.want(),
    {
        match self {
            ChunkPart::Size => Want::Line,
            ChunkPart::Data(n) => Want::Exact(n),
            ChunkPart::End => Want::Exact(2),
        }
    }
}

/// How the reading of a chunked body goes on.
pub enum ChunkView {
    More(ChunkPart, Seq<u8>),
    Done(Result<Seq<u8>, Seq<char>>),
}

/// What follows when `got` has been read for a part of a chunk, with `body` read before.
pub open spec fn chunk_step(part: ChunkPart, body: Seq<u8>, got: GotView) -> ChunkView {
    match part {
        ChunkPart::Size => match got->Line_0 {
            Err(e) => ChunkView::Done(Err("read chunk size: "@ + e)),
            Ok(line) => match numeral(trimmed(line), 16, usize::MAX as nat) {
                Err(fault) => ChunkView::Done(Err("parse chunk size: "@ + fault.words())),
                Ok(size) => if size == 0 {
                    ChunkView::Done(Ok(body))
                } else {
                    ChunkView::More(ChunkPart::Data(size as usize), body)
                },
            },
        },
        ChunkPart::Data(_) => match got->Bytes_0 {
            Err(e) => ChunkView::Done(Err("read chunk: "@ + e)),
            Ok(bytes) => ChunkView::More(ChunkPart::End, body + bytes),
        },
        ChunkPart::End => match got->Bytes_0 {
            Err(e) => ChunkView::Done(Err("read crlf: "@ + e)),
            Ok(_) => ChunkView::More(ChunkPart::Size, body),
        },
    }
}

/// How the reading of a chunked body goes on.
#[derive(Debug)]
pub enum ChunkStep {
    /// Read for this part, and come back with it and with the body so far.
    More(ChunkPart, Vec<u8>),
    Done(Result<Vec<u8>, String>),
}

impl View for ChunkStep {
    type V = ChunkView;

    open spec fn view(&self) -> ChunkView {
        match *self {
            ChunkStep::More(part, body) => ChunkView::More(part, body@),
            ChunkStep::Done(r) => ChunkView::Done(bytes_in(r)),
        }
    }
}

fn complaint(stage: &str, e: &str) -> (r: String)
    ensures
        r@ == stage@ + e@,
{
    let mut s = copy_of(stage);
    s.append(e);
    s
}

/// Takes in what was read for a part of a chunked body. Reading starts with the size of the
/// first chunk and an empty body; a chunk of size 0 ends it.
pub fn read_chunked(part: ChunkPart, body: Vec<u8>, got: Got) -> (r: ChunkStep)
    requires
        answers(got@, part.want()),
    ensures
        r@ == chunk_step(part, body@, got@),
{
    match (part, got) {
        (ChunkPart::Size, Got::Line(Err(e))) => ChunkStep::Done(
            Err(complaint("read chunk size: ", e.as_str())),
        ),
        (ChunkPart::Size, Got::Line(Ok(line))) => {
            let all = chars_of(line.as_str());
            match parse_unsigned(trim(all.as_slice()), 16, usize::MAX as u64) {
                Err(fault) => ChunkStep::Done(Err(complaint("parse chunk size: ", fault.message()))),
                Ok(size) => if size == 0 {
                    ChunkStep::Done(Ok(body))
                } else {
                    ChunkStep::More(ChunkPart::Data(size as usize), body)
                },
            }
        },
        (ChunkPart::Data(_), Got::Bytes(Err(e))) => ChunkStep::Done(
            Err(complaint("read chunk: ", e.as_str())),
        ),
        (ChunkPart::Data(_), Got::Bytes(Ok(mut bytes))) => {
            let mut whole = body;
            let ghost before = whole@;
            let ghost more = bytes@;
            whole.append(&mut bytes);
            assert(whole@ =~= before + more);
            ChunkStep::More(ChunkPart::End, whole)
        },
        (ChunkPart::End, Got::Bytes(Err(e))) => ChunkStep::Done(
            Err(complaint("read crlf: ", e.as_str())),
        ),
        (_, _) => ChunkStep::More(ChunkPart::Size, body),
    }
}

/// What comes of reading a chunked body when the reads bring `input`, or none if it goes on
/// after that.
pub open spec fn chunk_run(part: ChunkPart, body: Seq<u8>, input: Seq<GotView>) -> Option<
    Result<Seq<u8>, Seq<char>>,
>
    decreases input.len(),
{
    if input.len() == 0 {
        None
    } else {
        match chunk_step(part, body, input[0]) {
            ChunkView::Done(r) => Some(r),
            ChunkView::More(next, more) => chunk_run(next, more, input.drop_first()),
        }
    }
}

/// A size line that announces `n` bytes.
pub open spec fn announces(line: Seq<char>, n: nat) -> bool {
    numeral(trimmed(line), 16, usize::MAX as nat) == Ok::<nat, Fault>(n)
}

/// What the reads bring for the chunks from the first on, and for the end of the body.
pub open spec fn chunk_reads(
    chunks: Seq<Seq<u8>>,
    sizes: Seq<Seq<char>>,
    crlf: Seq<u8>,
    last: Seq<char>,
) -> Seq<GotView>
    decreases chunks.len(),
{
    if chunks.len() == 0 {
        seq![GotView::Line(Ok(last))]
    } else {
        seq![
            GotView::Line(Ok(sizes[0])),
            GotView::Bytes(Ok(chunks[0])),
            GotView::Bytes(Ok(crlf)),
        ] + chunk_reads(chunks.drop_first(), sizes.drop_first(), crlf, last)
    }
}

/// A body that was sent in chunks, each after its size, is read as the chunks one after the
/// other.
pub proof fn chunks_are_joined(
    chunks: Seq<Seq<u8>>,
    sizes: Seq<Seq<char>>,
    crlf: Seq<u8>,
    last: Seq<char>,
    body: Seq<u8>,
)
    requires
        sizes.len() == chunks.len(),
        forall|i: int|
            0 <= i < chunks.len() ==> (#[trigger] chunks[i]).len() > 0 && announces(
                sizes[i],
                chunks[i].len(),
            ),
        announces(last, 0),
    ensures
        chunk_run(ChunkPart::Size, body, chunk_reads(chunks, sizes, crlf, last)) == Some(
            Ok::<Seq<u8>, Seq<char>>(body + chunks.flatten()),
        ),
    decreases chunks.len(),
{
    let input = chunk_reads(chunks, sizes, crlf, last);
    if chunks.len() == 0 {
        assert(body + chunks.flatten() =~= body);
    } else {
        let rest = chunk_reads(chunks.drop_first(), sizes.drop_first(), crlf, last);
        let more = body + chunks[0];
        assert(announces(sizes[0], chunks[0].len()));
        assert(input.drop_first()[0] == GotView::Bytes(Ok(chunks[0])));
        assert(input.drop_first().drop_first()[0] == GotView::Bytes(Ok(crlf)));
        assert(input.drop_first().drop_first().drop_first() =~= rest);
        let n = chunks[0].len() as usize;
        assert(chunk_run(ChunkPart::Size, body, input) == chunk_run(
            ChunkPart::Data(n),
            body,
            input.drop_first(),
        ));
        assert(chunk_run(ChunkPart::Data(n), body, input.drop_first()) == chunk_run(
            ChunkPart::End,
            more,
            input.drop_first().drop_first(),
        ));
        assert(chunk_run(ChunkPart::End, more, input.drop_first().drop_first()) == chunk_run(
            ChunkPart::Size,
            more,
            rest,
        ));
        assert forall|i: int| 0 <= i < chunks.drop_first().len() implies (
        #[trigger] chunks.drop_first()[i]).len() > 0 && announces(
            sizes.drop_first()[i],
            chunks.drop_first()[i].len(),
        ) by {
            assert(chunks.drop_first()[i] == chunks[i + 1]);
        }
        chunks_are_joined(chunks.drop_first(), sizes.drop_first(), crlf, last, more);
        assert(body + (chunks[0] + chunks.drop_first().flatten()) =~= more
            + chunks.drop_first().flatten());
    }
}

// ── Responses ──

/// How far the reading of a response has come.
#[derive(Debug)]
pub enum Response {
    /// The status line comes next.
    Status,
    /// Headers come next. The code of the status line, and whether a header announced a
    /// chunked body.
    Headers(String, bool),
    /// The rest is the body.
    Body(String),
    /// A part of a chunked body comes next.
    Chunks(String, ChunkPart, Vec<u8>),
}

/// How far the reading of a response has come, with texts and bytes as sequences.
pub enum ResponseView {
    Status,
    Headers(Seq<char>, bool),
    Body(Seq<char>),
    Chunks(Seq<char>, ChunkPart, Seq<u8>),
}

impl View for Response {
    type V = ResponseView;

    open spec fn view(&self) -> ResponseView {
        match *self {
            Response::Status => ResponseView::Status,
            Response::Headers(code, chunked) => ResponseView::Headers(code@, chunked),
            Response::Body(code) => ResponseView::Body(code@),
            Response::Chunks(code, part, body) => ResponseView::Chunks(code@, part, body@),
        }
    }
}

impl ResponseView {
    /// What to read next.
    pub open spec fn want(self) -> Want {
        match self {
            ResponseView::Status => Want::Line,
            ResponseView::Headers(_, _) => Want::Line,
            ResponseView::Body(_) => Want::Rest,
            ResponseView::Chunks(_, part, _) => part.want(),
        }
    }
}

impl Response {
    /// Tells what to read next.
    pub fn wanted(&self) -> (r: Want)
        ensures
            r == self@.want(),
    {
        match self {
            Response::Status => Want::Line,
            Response::Headers(_, _) => Want::Line,
            Response::Body(_) => Want::Rest,
            Response::Chunks(_, part, _) => part.wanted(),
        }
    }
}

/// How the reading of a response goes on.
pub enum StepView {
    More(ResponseView),
    Done(Result<Seq<u8>, Seq<char>>),
}

/// How the reading of a response goes on.
#[derive(Debug)]
pub enum Step {
    More(Response),
    Done(Result<Vec<u8>, String>),
}

impl View for Step {
    type V = StepView;

    open spec fn view(&self) -> StepView {
        match *self {
            Step::More(state) => StepView::More(state@),
            Step::Done(r) => StepView::Done(bytes_in(r)),
        }
    }
}

/// The code of a status line: its second word.
pub open spec fn status_code(line: Seq<char>) -> Seq<char> {
    if words(line).len() >= 2 {
        words(line)[1]
    } else {
        ""@
    }
}

/// What a response with the given code means: its body, or an error with the text of the
/// body.
pub open spec fn response_result(code: Seq<char>, body: Seq<u8>) -> Result<Seq<u8>, Seq<char>> {
    if code.len() > 0 && code[0] == '2' {
        Ok(body)
    } else {
        Err(refusal(code, utf8_lossy(body)))
    }
}

/// The error for a code and the text that came with it.
pub open spec fn refusal(code: Seq<char>, text: Seq<char>) -> Seq<char> {
    "HTTP "@ + code + (if trimmed(text).len() == 0 {
        ""@
    } else {
        ": "@ + trimmed(text)
    })
}

/// Writes the error for a code and the text that came with it.
pub fn refusal_text(code: &str, text: &str) -> (r: String)
    ensures
        r@ == refusal(code@, text@),
{
    let all = chars_of(text);
    let msg = trim(all.as_slice());
    let mut s = copy_of("HTTP ");
    s.append(code);
    let detail = if msg.len() == 0 {
        copy_of("")
    } else {
        let mut d = copy_of(": ");
        let inner = string_of(msg);
        d.append(inner.as_str());
        d
    };
    s.append(detail.as_str());
    s
}

/// Judges a response that was read to its end.
pub fn finish_response(code: &str, body: Vec<u8>) -> (r: Result<Vec<u8>, String>)
    ensures
        bytes_in(r) == response_result(code@, body@),
{
    let all = chars_of(code);
    if all.len() > 0 && all[0] == '2' {
        Ok(body)
    } else {
        let text = text_lossy(body.as_slice());
        Err(refusal_text(code, text.as_str()))
    }
}

/// A header line announces a chunked body.
pub open spec fn says_chunked(line: Seq<char>) -> bool {
    find(lowercase(line), "transfer-encoding: chunked"@) is Some
}

/// What follows when `got` has been read.
pub open spec fn response_step(state: ResponseView, got: GotView) -> StepView {
    match state {
        ResponseView::Status => match got->Line_0 {
            Err(e) => StepView::Done(Err("read status: "@ + e)),
            Ok(line) => StepView::More(ResponseView::Headers(status_code(line), false)),
        },
        ResponseView::Headers(code, chunked) => match got->Line_0 {
            Err(e) => StepView::Done(Err("read header: "@ + e)),
            Ok(line) => header_step(code, chunked, line.len() == 0, says_chunked(line), line),
        },
        ResponseView::Body(code) => match got->Bytes_0 {
            Err(e) => StepView::Done(Err("read body: "@ + e)),
            Ok(body) => StepView::Done(response_result(code, body)),
        },
        ResponseView::Chunks(code, part, body) => match chunk_step(part, body, got) {
            ChunkView::More(next, more) => StepView::More(ResponseView::Chunks(code, next, more)),
            ChunkView::Done(Ok(whole)) => StepView::Done(response_result(code, whole)),
            ChunkView::Done(Err(e)) => StepView::Done(Err(e)),
        },
    }
}

/// What follows a header line. The stream's end, or a blank line, ends the headers.
pub open spec fn header_step(
    code: Seq<char>,
    chunked: bool,
    ended: bool,
    announced: bool,
    line: Seq<char>,
) -> StepView {
    let now = chunked || (!ended && announced);
    if ended || trimmed(line).len() == 0 {
        if now {
            StepView::More(ResponseView::Chunks(code, ChunkPart::Size, Seq::empty()))
        } else {
            StepView::More(ResponseView::Body(code))
        }
    } else {
        StepView::More(ResponseView::Headers(code, now))
    }
}

/// Goes on after a header line, told whether it announces a chunked body.
pub fn after_header(code: String, chunked: bool, announced: bool, line: &str) -> (r: Response)
    ensures
        StepView::More(r@) == header_step(code@, chunked, line@.len() == 0, announced, line@),
{
    let all = chars_of(line);
    let ended = all.len() == 0;
    let now = chunked || (!ended && announced);
    if ended || trim(all.as_slice()).len() == 0 {
        if now {
            let body: Vec<u8> = Vec::new();
            assert(body@ =~= Seq::<u8>::empty());
            Response::Chunks(code, ChunkPart::Size, body)
        } else {
            Response::Body(code)
        }
    } else {
        Response::Headers(code, now)
    }
}

fn read_status(line: &str) -> (r: String)
    ensures
        r@ == status_code(line@),
{
    let all = chars_of(line);
    let parts = split_words(all.as_slice());
    if parts.len() >= 2 {
        assert(pieces(parts@)[1] == parts@[1]@);
        string_of(parts[1].as_slice())
    } else {
        copy_of("")
    }
}

fn announces_chunks(line: &str) -> (r: bool)
    ensures
        r == says_chunked(line@),
{
    let lower = line.to_lowercase();
    let all = chars_of(lower.as_str());
    let mark = chars_of("transfer-encoding: chunked");
    match find_text(all.as_slice(), mark.as_slice()) {
        Some(_) => true,
        None => false,
    }
}

/// Takes in what was read for a response. Reading starts with the status line.
pub fn http_request(state: Response, got: Got) -> (r: Step)
    requires
        answers(got@, state@.want()),
    ensures
        r@ == response_step(state@, got@),
{
    match state {
        Response::Status => match got {
            Got::Line(Ok(line)) => Step::More(Response::Headers(read_status(line.as_str()), false)),
            Got::Line(Err(e)) => Step::Done(Err(complaint("read status: ", e.as_str()))),
            Got::Bytes(_) => Step::More(Response::Status),
        },
        Response::Headers(code, chunked) => match got {
            Got::Line(Ok(line)) => {
                let announced = announces_chunks(line.as_str());
                Step::More(after_header(code, chunked, announced, line.as_str()))
            },
            Got::Line(Err(e)) => Step::Done(Err(complaint("read header: ", e.as_str()))),
            Got::Bytes(_) => Step::More(Response::Headers(code, chunked)),
        },
        Response::Body(code) => match got {
            Got::Bytes(Ok(body)) => Step::Done(finish_response(code.as_str(), body)),
            Got::Bytes(Err(e)) => Step::Done(Err(complaint("read body: ", e.as_str()))),
            Got::Line(_) => Step::More(Response::Body(code)),
        },
        Response::Chunks(code, part, body) => match read_chunked(part, body, got) {
            ChunkStep::More(next, more) => Step::More(Response::Chunks(code, next, more)),
            ChunkStep::Done(Ok(whole)) => Step::Done(finish_response(code.as_str(), whole)),
            ChunkStep::Done(Err(e)) => Step::Done(Err(e)),
        },
    }
}

/// What comes of reading a response when the reads bring `input`, or none if it goes on after
/// that.
pub open spec fn response_run(state: ResponseView, input: Seq<GotView>) -> Option<
    Result<Seq<u8>, Seq<char>>,
>
    decreases input.len(),
{
    if input.len() == 0 {
        None
    } else {
        match response_step(state, input[0]) {
            StepView::Done(r) => Some(r),
            StepView::More(next) => response_run(next, input.drop_first()),
        }
    }
}

/// Lines that were read.
pub open spec fn line_reads(lines: Seq<Seq<char>>) -> Seq<GotView> {
    Seq::new(lines.len(), |i: int| GotView::Line(Ok(lines[i])))
}

/// Some of the lines announces a chunked body.
pub open spec fn any_chunked(lines: Seq<Seq<char>>) -> bool
    decreases lines.len(),
{
    lines.len() > 0 && (says_chunked(lines[0]) || any_chunked(lines.drop_first()))
}

proof fn headers_run(
    code: Seq<char>,
    chunked: bool,
    headers: Seq<Seq<char>>,
    blank: Seq<char>,
    rest: Seq<GotView>,
)
    requires
        forall|i: int| 0 <= i < headers.len() ==> trimmed(#[trigger] headers[i]).len() > 0,
        trimmed(blank).len() == 0,
        !says_chunked(blank),
    ensures
        response_run(
            ResponseView::Headers(code, chunked),
            line_reads(headers) + seq![GotView::Line(Ok(blank))] + rest,
        ) == response_run(
            if chunked || any_chunked(headers) {
                ResponseView::Chunks(code, ChunkPart::Size, Seq::empty())
            } else {
                ResponseView::Body(code)
            },
            rest,
        ),
    decreases headers.len(),
{
    let end: Seq<GotView> = seq![GotView::Line(Ok(blank))];
    let input = line_reads(headers) + end + rest;
    if headers.len() == 0 {
        assert(input[0] == GotView::Line(Ok(blank)));
        assert(input.drop_first() =~= rest);
    } else {
        let line = headers[0];
        assert(trimmed(line).len() > 0);
        trimmed_of_empty(line);
        assert(input[0] == GotView::Line(Ok(line)));
        assert(input.drop_first() =~= line_reads(headers.drop_first()) + end + rest);
        assert forall|i: int| 0 <= i < headers.drop_first().len() implies trimmed(
            #[trigger] headers.drop_first()[i],
        ).len() > 0 by {
            assert(headers.drop_first()[i] == headers[i + 1]);
        }
        headers_run(code, chunked || says_chunked(line), headers.drop_first(), blank, rest);
    }
}

proof fn trimmed_of_empty(line: Seq<char>)
    requires
        trimmed(line).len() > 0,
    ensures
        line.len() > 0,
{
}

/// A response without a chunked body is read to the end of the stream, and is what its code
/// makes of that.
pub proof fn plain_response(
    status: Seq<char>,
    headers: Seq<Seq<char>>,
    blank: Seq<char>,
    body: Seq<u8>,
)
    requires
        forall|i: int| 0 <= i < headers.len() ==> trimmed(#[trigger] headers[i]).len() > 0,
        trimmed(blank).len() == 0,
        !says_chunked(blank),
        !any_chunked(headers),
    ensures
        response_run(
            ResponseView::Status,
            seq![GotView::Line(Ok(status))] + (line_reads(headers) + seq![GotView::Line(Ok(blank))]
                + seq![GotView::Bytes(Ok(body))]),
        ) == Some(response_result(status_code(status), body)),
{
    let rest: Seq<GotView> = seq![GotView::Bytes(Ok(body))];
    let tail = line_reads(headers) + seq![GotView::Line(Ok(blank))] + rest;
    let input: Seq<GotView> = seq![GotView::Line(Ok(status))] + tail;
    assert(input.drop_first() =~= tail);
    headers_run(status_code(status), false, headers, blank, rest);
    assert(rest[0] == GotView::Bytes(Ok(body)));
}

proof fn chunks_run(code: Seq<char>, part: ChunkPart, body: Seq<u8>, input: Seq<GotView>)
    ensures
        response_run(ResponseView::Chunks(code, part, body), input) == (match chunk_run(
            part,
            body,
            input,
        ) {
            None => None,
            Some(Ok(whole)) => Some(response_result(code, whole)),
            Some(Err(e)) => Some(Err(e)),
        }),
    decreases input.len(),
{
    if input.len() > 0 {
        if let ChunkView::More(next, more) = chunk_step(part, body, input[0]) {
            chunks_run(code, next, more, input.drop_first());
        }
    }
}

/// A response that announces a chunked body is what its code makes of the chunks, one after
/// the other.
pub proof fn chunked_response(
    status: Seq<char>,
    headers: Seq<Seq<char>>,
    blank: Seq<char>,
    chunks: Seq<Seq<u8>>,
    sizes: Seq<Seq<char>>,
    crlf: Seq<u8>,
    last: Seq<char>,
)
    requires
        forall|i: int| 0 <= i < headers.len() ==> trimmed(#[trigger] headers[i]).len() > 0,
        trimmed(blank).len() == 0,
        !says_chunked(blank),
        any_chunked(headers),
        sizes.len() == chunks.len(),
        forall|i: int|
            0 <= i < chunks.len() ==> (#[trigger] chunks[i]).len() > 0 && announces(
                sizes[i],
                chunks[i].len(),
            ),
        announces(last, 0),
    ensures
        response_run(
            ResponseView::Status,
            seq![GotView::Line(Ok(status))] + (line_reads(headers) + seq![GotView::Line(Ok(blank))]
                + chunk_reads(chunks, sizes, crlf, last)),
        ) == Some(response_result(status_code(status), chunks.flatten())),
{
    let rest = chunk_reads(chunks, sizes, crlf, last);
    let tail = line_reads(headers) + seq![GotView::Line(Ok(blank))] + rest;
    let input: Seq<GotView> = seq![GotView::Line(Ok(status))] + tail;
    assert(input.drop_first() =~= tail);
    let code = status_code(status);
    headers_run(code, false, headers, blank, rest);
    chunks_run(code, ChunkPart::Size, Seq::empty(), rest);
    chunks_are_joined(chunks, sizes, crlf, last, Seq::empty());
    assert(Seq::<u8>::empty() + chunks.flatten() =~= chunks.flatten());
}

// ── JSON-RPC ──

/// A plain JSON value.
#[derive(Debug)]
pub enum Scalar {
    Text(String),
    Number(i64),
    Flag(bool),
}

/// A plain JSON value with its text as characters.
pub enum ScalarView {
    Text(Seq<char>),
    Number(i64),
    Flag(bool),
}

impl View for Scalar {
    type V = ScalarView;

    open spec fn view(&self) -> ScalarView {
        match *self {
            Scalar::Text(s) => ScalarView::Text(s@),
            Scalar::Number(n) => ScalarView::Number(n),
            Scalar::Flag(b) => ScalarView::Flag(b),
        }
    }
}

/// The value of a member of a JSON object.
#[derive(Debug)]
pub enum Field {
    One(Scalar),
    List(Vec<Scalar>),
}

/// The value of a member of a JSON object with its texts as characters.
pub enum FieldView {
    One(ScalarView),
    List(Seq<ScalarView>),
}

/// Plain JSON values as views.
pub open spec fn scalars(list: Seq<Scalar>) -> Seq<ScalarView> {
    Seq::new(list.len(), |i: int| list[i]@)
}

impl View for Field {
    type V = FieldView;

    open spec fn view(&self) -> FieldView {
        match *self {
            Field::One(s) => FieldView::One(s@),
            Field::List(l) => FieldView::List(scalars(l@)),
        }
    }
}

/// The members of a JSON object as views.
pub open spec fn fields(list: Seq<(String, Field)>) -> Seq<(Seq<char>, FieldView)> {
    Seq::new(list.len(), |i: int| (list[i].0@, list[i].1@))
}

/// The members of a call.
pub open spec fn call_fields(method: Seq<char>, params: Seq<ScalarView>) -> Seq<
    (Seq<char>, FieldView),
> {
    seq![
        ("jsonrpc"@, FieldView::One(ScalarView::Text("2.0"@))),
        ("id"@, FieldView::One(ScalarView::Number(1))),
        ("method"@, FieldView::One(ScalarView::Text(method))),
        ("params"@, FieldView::List(params)),
    ]
}

/// Lists the members of a call.
pub fn jsonrpc_fields(method: &str, params: Vec<Scalar>) -> (r: Vec<(String, Field)>)
    ensures
        fields(r@) == call_fields(method@, scalars(params@)),
{
    let mut list: Vec<(String, Field)> = Vec::new();
    list.push((copy_of("jsonrpc"), Field::One(Scalar::Text(copy_of("2.0")))));
    list.push((copy_of("id"), Field::One(Scalar::Number(1))));
    list.push((copy_of("method"), Field::One(Scalar::Text(copy_of(method)))));
    list.push((copy_of("params"), Field::List(params)));
    assert(fields(list@) =~= call_fields(method@, scalars(params@)));
    list
}

/// Writes the body of a call.
pub fn jsonrpc_body(method: &str, params: Vec<Scalar>) -> (r: Result<Vec<u8>, String>)
    ensures
        bytes_in(r) == (match json_bytes(call_fields(method@, scalars(params@))) {
            Ok(b) => Ok(b),
            Err(e) => Err("json encode: "@ + e),
        }),
{
    let list = jsonrpc_fields(method, params);
    match json_encode(&list) {
        Ok(b) => Ok(b),
        Err(e) => Err(complaint("json encode: ", e.as_str())),
    }
}

/// What stands at a place of a JSON document.
#[derive(Debug)]
pub enum Member {
    Missing,
    Text(String),
    /// A value that is no string.
    Other,
}

/// What stands at a place of a JSON document, with its text as characters.
pub enum MemberView {
    Missing,
    Text(Seq<char>),
    Other,
}

impl View for Member {
    type V = MemberView;

    open spec fn view(&self) -> MemberView {
        match *self {
            Member::Missing => MemberView::Missing,
            Member::Text(s) => MemberView::Text(s@),
            Member::Other => MemberView::Other,
        }
    }
}

/// The member or the error in a result.
pub open spec fn member_in(r: Result<Member, String>) -> Result<MemberView, Seq<char>> {
    match r {
        Ok(m) => Ok(m@),
        Err(e) => Err(e@),
    }
}

/// What a reply means. An error in it, whatever it holds, comes before a result.
pub open spec fn reply_result(
    method: Seq<char>,
    error: MemberView,
    message: MemberView,
    result: MemberView,
) -> Result<MemberView, Seq<char>> {
    if !(error is Missing) {
        Err(method + ": "@ + (match message {
            MemberView::Text(m) => m,
            _ => "unknown"@,
        }))
    } else if result is Missing {
        Err(method + ": missing result"@)
    } else {
        Ok(result)
    }
}

/// Judges a reply by its members.
pub fn jsonrpc_reply(method: &str, error: &Member, message: &Member, result: Member) -> (r: Result<
    Member,
    String,
>)
    ensures
        member_in(r) == reply_result(method@, error@, message@, result@),
{
    match error {
        Member::Missing => {},
        _ => {
            let mut s = copy_of(method);
            s.append(": ");
            match message {
                Member::Text(m) => s.append(m.as_str()),
                _ => s.append("unknown"),
            }
            return Err(s);
        },
    }
    match result {
        Member::Missing => {
            let mut s = copy_of(method);
            s.append(": missing result");
            Err(s)
        },
        _ => Ok(result),
    }
}

/// What a call comes to when the server's answer is `raw`.
pub open spec fn call_result(
    method: Seq<char>,
    raw: Result<Seq<u8>, Seq<char>>,
) -> Result<MemberView, Seq<char>> {
    match raw {
        Err(e) => Err(e),
        Ok(bytes) => match json_complaint(bytes) {
            Some(e) => Err("json decode: "@ + e),
            None => reply_result(
                method,
                json_member(bytes, "/error"@),
                json_member(bytes, "/error/message"@),
                json_member(bytes, "/result"@),
            ),
        },
    }
}

/// Takes the result of a call out of the server's answer.
pub fn http_jsonrpc_with_timeout(method: &str, raw: Result<Vec<u8>, String>) -> (r: Result<
    Member,
    String,
>)
    ensures
        member_in(r) == call_result(method@, bytes_in(raw)),
{
    let bytes = match raw {
        Ok(b) => b,
        Err(e) => {
            return Err(e);
        },
    };
    let places: Vec<&str> = vec!["/error", "/error/message", "/result"];
    match json_lookup(bytes.as_slice(), &places) {
        Err(e) => Err(complaint("json decode: ", e.as_str())),
        Ok(mut found) => {
            let result = found.remove(2);
            jsonrpc_reply(method, &found[0], &found[1], result)
        },
    }
}

// ── Laws ──

/// The head of a request is lines that end in a carriage return and a line feed: the request
/// line, the host, the kind and the length of the body if there is one, and that the connection
/// is to be closed. An empty line follows.
pub proof fn head_is_made_of_lines(
    addr: Seq<char>,
    method: Seq<char>,
    path: Seq<char>,
    n: nat,
)
    ensures
        ({
            let end = seq!['\r', '\n'];
            let first = method + seq![' '] + path + " HTTP/1.1"@ + end + "Host: "@ + addr + end;
            let last = "Connection: close"@ + end + end;
            &&& head_of(addr, method, path, None) == first + last
            &&& head_of(addr, method, path, Some(n)) == first + "Content-Type: application/json"@
                + end + "Content-Length: "@ + decimal(n) + end + last
        }),
{
    reveal_strlit(" ");
    reveal_strlit("");
    reveal_strlit(" HTTP/1.1");
    reveal_strlit("Host: ");
    reveal_strlit("Connection: close");
    reveal_strlit("Content-Type: application/json");
    reveal_strlit("Content-Length: ");
    reveal_strlit(" HTTP/1.1\r\nHost: ");
    reveal_strlit("\r\nContent-Type: application/json\r\nContent-Length: ");
    reveal_strlit("\r\nConnection: close\r\n\r\n");
    let end = seq!['\r', '\n'];
    assert(" "@ =~= seq![' ']);
    assert(" HTTP/1.1\r\nHost: "@ =~= " HTTP/1.1"@ + end + "Host: "@);
    assert("\r\nConnection: close\r\n\r\n"@ =~= end + "Connection: close"@ + end + end);
    assert("\r\nContent-Type: application/json\r\nContent-Length: "@ =~= end
        + "Content-Type: application/json"@ + end + "Content-Length: "@);
    let first = method + seq![' '] + path + " HTTP/1.1"@ + end + "Host: "@ + addr + end;
    let last = "Connection: close"@ + end + end;
    assert(head_of(addr, method, path, None) =~= first + last);
    assert(head_of(addr, method, path, Some(n)) =~= first + "Content-Type: application/json"@ + end
        + "Content-Length: "@ + decimal(n) + end + last);
}

/// The code is the second word of the status line, whatever follows it.
pub proof fn code_is_the_second_word(version: Seq<char>, code: Seq<char>, c: char, rest: Seq<char>)
    requires
        version.len() > 0 && code.len() > 0,
        forall|k: int| 0 <= k < version.len() ==> !is_white(#[trigger] version[k]),
        forall|k: int| 0 <= k < code.len() ==> !is_white(#[trigger] code[k]),
        is_white(c),
    ensures
        status_code(version + seq![' '] + code + seq![c] + rest) == code,
        status_code(version + seq![' '] + code) == code,
        status_code(version).len() == 0,
{
    reveal_strlit("");
    white_space_is_listed(' ');
    let tail = code + seq![c] + rest;
    words_end_at_white_space(version, ' ', tail);
    words_end_at_white_space(code, c, rest);
    words_end_at_white_space(version, ' ', code);
    assert(version + seq![' '] + code + seq![c] + rest =~= version + seq![' '] + tail);
    assert(words(version + seq![' '] + code)[1] == code);
    assert(words(version + seq![' '] + tail)[1] == code);
}

/// A response is good exactly where its code starts with a 2; its body is then the result, as it
/// stands. Any other is an error that tells the code, and the text of the body if it has any.
pub proof fn only_codes_from_200_are_good(code: Seq<char>, body: Seq<u8>)
    ensures
        response_result(code, body) is Ok <==> code.len() > 0 && code[0] == '2',
        response_result(code, body) matches Ok(b) ==> b == body,
        response_result(code, body) matches Err(e) ==> e == seq!['H', 'T', 'T', 'P', ' '] + code + (
        if trimmed(utf8_lossy(body)).len() == 0 {
            Seq::empty()
        } else {
            seq![':', ' '] + trimmed(utf8_lossy(body))
        }),
{
    reveal_strlit("HTTP ");
    reveal_strlit("");
    reveal_strlit(": ");
    assert("HTTP "@ =~= seq!['H', 'T', 'T', 'P', ' ']);
    assert(""@ =~= Seq::<char>::empty());
    assert(": "@ =~= seq![':', ' ']);
}

/// The headers end at a blank line, or where the stream ends. Once a header announced a chunked
/// body the body is read in chunks, and else to the end of the stream.
pub proof fn headers_end_at_a_blank_line(code: Seq<char>, chunked: bool, line: Seq<char>)
    ensures
        ({
            let next = response_step(
                ResponseView::Headers(code, chunked),
                GotView::Line(Ok(line)),
            );
            let now = chunked || (line.len() > 0 && find(
                lowercase(line),
                "transfer-encoding: chunked"@,
            ) is Some);
            &&& trimmed(line).len() > 0 ==> next == StepView::More(
                ResponseView::Headers(code, now),
            )
            &&& trimmed(line).len() == 0 && now ==> next == StepView::More(
                ResponseView::Chunks(code, ChunkPart::Size, Seq::empty()),
            )
            &&& trimmed(line).len() == 0 && !now ==> next == StepView::More(
                ResponseView::Body(code),
            )
        }),
{
    if line.len() == 0 {
        assert(trimmed(line) =~= Seq::<char>::empty());
    }
}

/// Whatever cannot be read ends the response with an error. The reading of a chunked body goes
/// size, data, line end, and a size that is no number is an error as well.
pub proof fn unreadable_parts_are_errors(
    code: Seq<char>,
    chunked: bool,
    body: Seq<u8>,
    line: Seq<char>,
    bytes: Seq<u8>,
    e: Seq<char>,
    size: usize,
)
    ensures
        response_step(ResponseView::Status, GotView::Line(Err(e))) == StepView::Done(
            Err("read status: "@ + e),
        ),
        response_step(ResponseView::Headers(code, chunked), GotView::Line(Err(e)))
            == StepView::Done(Err("read header: "@ + e)),
        response_step(ResponseView::Body(code), GotView::Bytes(Err(e))) == StepView::Done(
            Err("read body: "@ + e),
        ),
        chunk_step(ChunkPart::Size, body, GotView::Line(Err(e))) == ChunkView::Done(
            Err("read chunk size: "@ + e),
        ),
        numeral(trimmed(line), 16, usize::MAX as nat) is Err ==> (chunk_step(
            ChunkPart::Size,
            body,
            GotView::Line(Ok(line)),
        ) matches ChunkView::Done(r) && r is Err),
        numeral(trimmed(line), 16, usize::MAX as nat) matches Ok(n) ==> chunk_step(
            ChunkPart::Size,
            body,
            GotView::Line(Ok(line)),
        ) == (if n == 0 {
            ChunkView::Done(Ok(body))
        } else {
            ChunkView::More(ChunkPart::Data(n as usize), body)
        }),
        chunk_step(ChunkPart::Data(size), body, GotView::Bytes(Ok(bytes))) == ChunkView::More(
            ChunkPart::End,
            body + bytes,
        ),
        chunk_step(ChunkPart::Data(size), body, GotView::Bytes(Err(e))) == ChunkView::Done(
            Err("read chunk: "@ + e),
        ),
        chunk_step(ChunkPart::End, body, GotView::Bytes(Ok(bytes))) == ChunkView::More(
            ChunkPart::Size,
            body,
        ),
        chunk_step(ChunkPart::End, body, GotView::Bytes(Err(e))) == ChunkView::Done(
            Err("read crlf: "@ + e),
        ),
        response_step(
            ResponseView::Chunks(code, ChunkPart::Size, body),
            GotView::Line(Err(e)),
        ) == StepView::Done(Err("read chunk size: "@ + e)),
        response_step(
            ResponseView::Chunks(code, ChunkPart::Data(size), body),
            GotView::Bytes(Err(e)),
        ) == StepView::Done(Err("read chunk: "@ + e)),
        ChunkPart::Size.want() == Want::Line && ChunkPart::End.want() == Want::Exact(2),
        ChunkPart::Data(size).want() == Want::Exact(size),
{
}

/// The result of a call is what the reply gives as such, as it stands, where it gives no error.
/// An error comes before a result, with its message if that is a text; a reply with neither is
/// an error too. What does not arrive or is no JSON is an error that says so.
pub proof fn errors_come_before_results(method: Seq<char>, bytes: Seq<u8>, e: Seq<char>)
    ensures
        call_result(method, Err(e)) == Err::<MemberView, Seq<char>>(e),
        json_complaint(bytes) matches Some(c) ==> call_result(method, Ok(bytes)) == Err::<
            MemberView,
            Seq<char>,
        >("json decode: "@ + c),
        json_complaint(bytes) is None ==> {
            let r = call_result(method, Ok(bytes));
            let error = json_member(bytes, "/error"@);
            let message = json_member(bytes, "/error/message"@);
            let result = json_member(bytes, "/result"@);
            &&& r is Ok <==> error is Missing && !(result is Missing)
            &&& r is Ok ==> r->Ok_0 == result
            &&& !(error is Missing) && message is Text ==> r->Err_0 == method + seq![':', ' ']
                + message->Text_0
            &&& !(error is Missing) && !(message is Text) ==> r->Err_0 == method + seq![':', ' ']
                + "unknown"@
            &&& error is Missing && result is Missing ==> r->Err_0 == method + ": missing result"@
        },
{
    reveal_strlit(": ");
    assert(": "@ =~= seq![':', ' ']);
}

/// A call gives the version of the protocol, a number, the method and its parameters.
pub proof fn calls_give_method_and_parameters(method: Seq<char>, params: Seq<ScalarView>)
    ensures
        call_fields(method, params).len() == 4,
        call_fields(method, params).contains(
            ("method"@, FieldView::One(ScalarView::Text(method))),
        ),
        call_fields(method, params).contains(("params"@, FieldView::List(params))),
        call_fields(method, params).contains(
            ("jsonrpc"@, FieldView::One(ScalarView::Text("2.0"@))),
        ),
        call_fields(method, params).contains(("id"@, FieldView::One(ScalarView::Number(1)))),
{
    let all = call_fields(method, params);
    assert(all[0] == ("jsonrpc"@, FieldView::One(ScalarView::Text("2.0"@))));
    assert(all[1] == ("id"@, FieldView::One(ScalarView::Number(1))));
    assert(all[2] == ("method"@, FieldView::One(ScalarView::Text(method))));
    assert(all[3] == ("params"@, FieldView::List(params)));
}

} // verus!
