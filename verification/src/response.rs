//! The response: what a callback target rendered, and the bytes that go
//! back over the wire.

use crate::decimal::{decimal_chars, decimal_text, parse_number, parse_unsigned};
use crate::resolver::{MatchedRequest, ServerStatus};
use crate::script_runner::{renderer_for, Renderer};
use crate::decimal::lemma_decimal_round_trip;
use crate::string_map::{
    distinct_keys, extend_entries, insert_entry, lemma_extend_entries, lemma_insert_entry,
    lemma_insert_entry_again, map_of, parse_entries, parse_pairs, StringMap,
};
use crate::text::{copy_range, split_once, split_once_bytes, split_once_chars};
use crate::unicode::{chars_of, from_utf8_lossy, lossy_text, string_of};
use vstd::prelude::*;
use vstd::string::{StrSliceExecFns, StringExecFns};
use vstd::utf8::encode_utf8;

verus! {

/// The end of a line in a script's output.
pub open spec fn line_end() -> Seq<u8> {
    seq![13u8, 10u8]
}

/// The empty line that sets the head of a script's output off from the body.
pub open spec fn head_end() -> Seq<u8> {
    seq![13u8, 10u8, 13u8, 10u8]
}

/// A response as plain values. The headers are given by their entries, in
/// the order in which they go over the wire.
pub struct ResponseView {
    pub code: u32,
    pub message: Seq<char>,
    pub headers: Seq<(Seq<char>, Seq<char>)>,
    pub contents: Seq<u8>,
}

/// Status code and message of a status line: the code ends at the first
/// space and is 200 if it is no number, the message is the rest. A line
/// without a space stands for `200 OK`.
pub open spec fn status_of(line: Seq<char>) -> (u32, Seq<char>) {
    match split_once(line, " "@) {
        Some((code, message)) => (
            match parse_unsigned(code, u32::MAX as nat) {
                Some(n) => n as u32,
                None => 200u32,
            },
            message,
        ),
        None => (200u32, "OK"@),
    }
}

/// What the output of a script says. Up to the first empty line it is a
/// head: a status line, then header lines with a colon between name and
/// value. What follows the empty line is the body. Output without an empty
/// line is all body, with the status `200 OK` and no headers.
pub open spec fn script_output(output: Seq<u8>) -> ResponseView {
    match split_once(output, head_end()) {
        None => ResponseView {
            code: 200,
            message: "OK"@,
            headers: Seq::empty(),
            contents: output,
        },
        Some((head, body)) => {
            let status = status_of(lossy_text(head_line(head)));
            ResponseView {
                code: status.0,
                message: status.1,
                headers: parse_entries(lossy_text(head_fields(head)), "\r\n"@, ":"@),
                contents: body,
            }
        },
    }
}

/// The first line of the head of a script's output.
pub open spec fn head_line(head: Seq<u8>) -> Seq<u8> {
    match split_once(head, line_end()) {
        Some((line, fields)) => line,
        None => head,
    }
}

/// The lines after the first line of the head of a script's output.
pub open spec fn head_fields(head: Seq<u8>) -> Seq<u8> {
    match split_once(head, line_end()) {
        Some((line, fields)) => fields,
        None => Seq::empty(),
    }
}

/// `response` with `contents` for its body and a `Content-Length` header
/// that says how long they are.
pub open spec fn with_contents(response: ResponseView, contents: Seq<u8>) -> ResponseView {
    ResponseView {
        code: response.code,
        message: response.message,
        headers: insert_entry(response.headers, "Content-Length"@, decimal_text(contents.len())),
        contents,
    }
}

/// `response` after the callback target `filename` gave the bytes `output`.
/// The bytes of a plain file are the body. The output of a script sets
/// status, headers and body; its headers come on top of those that the
/// response had.
pub open spec fn rendered(response: ResponseView, filename: Seq<char>, output: Seq<u8>) -> ResponseView {
    if renderer_for(filename) == Renderer::File {
        with_contents(response, output)
    } else {
        let script = script_output(output);
        ResponseView {
            code: script.code,
            message: script.message,
            headers: extend_entries(
                with_contents(response, script.contents).headers,
                script.headers,
            ),
            contents: script.contents,
        }
    }
}

/// The response to a request whose route is served by the callback target
/// `callback`, which gave `output`, or failed.
pub open spec fn route_response(callback: Seq<char>, output: Option<Seq<u8>>) -> ServerStatus<
    ResponseView,
> {
    match output {
        Some(output) => ServerStatus::Success(
            rendered(
                ResponseView {
                    code: 200,
                    message: "OK"@,
                    headers: Seq::empty(),
                    contents: Seq::empty(),
                },
                callback,
                output,
            ),
        ),
        None => ServerStatus::InternalError,
    }
}

/// One line for each header: name, colon, space, value, end of line.
pub open spec fn header_lines(headers: Seq<(Seq<char>, Seq<char>)>) -> Seq<char>
    decreases headers.len(),
{
    if headers.len() == 0 {
        Seq::empty()
    } else {
        header_lines(headers.drop_last()) + headers.last().0 + ": "@ + headers.last().1 + "\r\n"@
    }
}

/// The head of a response as text: status line, header lines, empty line.
pub open spec fn head_text(response: ResponseView) -> Seq<char> {
    "HTTP/1.1 "@ + decimal_text(response.code as nat) + " "@ + response.message + "\r\n"@
        + header_lines(response.headers) + "\r\n"@
}

/// The bytes of a response on the wire: the head in UTF-8, then the body.
pub open spec fn wire(response: ResponseView) -> Seq<u8> {
    encode_utf8(head_text(response)) + response.contents
}

/// The bytes that are sent for `response`: those of the response with its
/// `Content-Length` header set to the length of its body.
pub open spec fn sent(response: ResponseView) -> Seq<u8> {
    wire(with_contents(response, response.contents))
}

/// The number that the `Content-Length` header of `response` holds, if it
/// has that header and the header is a number.
pub open spec fn content_length(response: ResponseView) -> Option<nat> {
    if map_of(response.headers).contains_key("Content-Length"@) {
        parse_unsigned(
            map_of(response.headers)["Content-Length"@],
            response.contents.len(),
        )
    } else {
        None
    }
}

/// What is sent for a response says in its `Content-Length` header exactly
/// how many bytes its body has, whatever the header said before.
pub proof fn lemma_content_length(response: ResponseView)
    requires
        distinct_keys(response.headers),
    ensures
        sent(response) == wire(with_contents(response, response.contents)),
        with_contents(response, response.contents).contents == response.contents,
        content_length(with_contents(response, response.contents)) == Some(
            response.contents.len(),
        ),
{
    let length = decimal_text(response.contents.len());
    lemma_insert_entry(response.headers, "Content-Length"@, length);
    lemma_decimal_round_trip(response.contents.len(), response.contents.len());
}

/// Sending a response a second time sends the same bytes: setting the
/// `Content-Length` header to the length of the body changes nothing once it
/// has been done.
pub proof fn lemma_sent_again(response: ResponseView)
    requires
        distinct_keys(response.headers),
    ensures
        sent(with_contents(response, response.contents)) == sent(response),
{
    lemma_insert_entry_again(
        response.headers,
        "Content-Length"@,
        decimal_text(response.contents.len()),
    );
}

/// What a callback target rendered is sent with a `Content-Length` header
/// that says exactly how many bytes the body has, whatever headers a script
/// gave.
pub proof fn lemma_rendered_content_length(
    response: ResponseView,
    filename: Seq<char>,
    output: Seq<u8>,
)
    requires
        distinct_keys(response.headers),
    ensures
        distinct_keys(rendered(response, filename, output).headers),
        content_length(
            with_contents(
                rendered(response, filename, output),
                rendered(response, filename, output).contents,
            ),
        ) == Some(rendered(response, filename, output).contents.len()),
{
    let result = rendered(response, filename, output);
    if renderer_for(filename) == Renderer::File {
        lemma_insert_entry(response.headers, "Content-Length"@, decimal_text(output.len()));
    } else {
        let script = script_output(output);
        lemma_insert_entry(
            response.headers,
            "Content-Length"@,
            decimal_text(script.contents.len()),
        );
        lemma_extend_entries(with_contents(response, script.contents).headers, script.headers);
    }
    lemma_content_length(result);
}

/// A response: status, headers and body.
#[derive(Debug)]
pub struct HTTPResponse {
    pub response_code: u32,
    pub response_message: String,
    pub headers: StringMap,
    pub contents: Vec<u8>,
}

impl View for HTTPResponse {
    type V = ResponseView;

    open spec fn view(&self) -> ResponseView {
        ResponseView {
            code: self.response_code,
            message: self.response_message@,
            headers: self.headers.entries(),
            contents: self.contents@,
        }
    }
}

/// Reads status code and message from a status line.
fn parse_status(line: &str) -> (status: (u32, String))
    ensures
        (status.0, status.1@) == status_of(line@),
{
    let line = chars_of(line);
    let space = chars_of(" ");
    match split_once_chars(line.as_slice(), space.as_slice()) {
        Some((code, message)) => {
            let code = match parse_number(code.as_slice(), u32::MAX as u64) {
                Some(n) => n as u32,
                None => 200,
            };
            (code, string_of(message.as_slice()))
        },
        None => (200, "OK".to_owned()),
    }
}

impl HTTPResponse {
    /// A response with a status and nothing else.
    pub fn new(response_code: u32, response_message: String) -> (response: HTTPResponse)
        ensures
            response@ == (ResponseView {
                code: response_code,
                message: response_message@,
                headers: Seq::empty(),
                contents: Seq::empty(),
            }),
    {
        HTTPResponse {
            response_code,
            response_message,
            headers: StringMap::new(),
            contents: Vec::new(),
        }
    }

    /// What the output of a script says; see [`script_output`].
    pub fn from_script_output(output: Vec<u8>) -> (response: HTTPResponse)
        ensures
            response@ == script_output(output@),
    {
        let mut separator: Vec<u8> = Vec::new();
        separator.push(13u8);
        separator.push(10u8);
        assert(separator@ =~= line_end());
        let line_separator = copy_range(separator.as_slice(), 0, 2);
        assert(line_separator@ =~= line_end());
        separator.push(13u8);
        separator.push(10u8);
        assert(separator@ =~= head_end());
        let (head, body) = match split_once_bytes(output.as_slice(), separator.as_slice()) {
            Some(parts) => parts,
            None => {
                return HTTPResponse {
                    response_code: 200,
                    response_message: "OK".to_owned(),
                    headers: StringMap::new(),
                    contents: output,
                };
            },
        };
        let (line, fields) = match split_once_bytes(head.as_slice(), line_separator.as_slice()) {
            Some(parts) => parts,
            None => (head, Vec::new()),
        };
        let (code, message) = parse_status(from_utf8_lossy(line.as_slice()).as_str());
        let fields = chars_of(from_utf8_lossy(fields.as_slice()).as_str());
        let end_of_line = chars_of("\r\n");
        let colon = chars_of(":");
        let headers = parse_pairs(fields.as_slice(), end_of_line.as_slice(), colon.as_slice());
        HTTPResponse { response_code: code, response_message: message, headers, contents: body }
    }

    /// The response to a request that matched a route, from what the
    /// route's callback target gave; see [`route_response`].
    pub fn from_matched_request(
        matched_request: MatchedRequest,
        output: Result<Vec<u8>, String>,
    ) -> (status: ServerStatus<HTTPResponse>)
        ensures
            match status {
                ServerStatus::Success(response) => output matches Ok(bytes) && route_response(
                    matched_request.callback@,
                    Some(bytes@),
                ) == ServerStatus::Success(response@),
                ServerStatus::InternalError => output is Err,
            },
    {
        let mut response = HTTPResponse::new(200, "OK".to_owned());
        match output {
            Ok(bytes) => {
                response.load_contents(matched_request.callback.as_str(), bytes);
                ServerStatus::Success(response)
            },
            Err(_) => ServerStatus::InternalError,
        }
    }

    /// Takes in what the callback target `filename` gave; see [`rendered`].
    pub fn load_contents(&mut self, filename: &str, output: Vec<u8>)
        ensures
            final(self)@ == rendered(old(self)@, filename@, output@),
    {
        match Renderer::of(filename) {
            Renderer::File => {
                self.set_contents(output);
            },
            _ => {
                let script = HTTPResponse::from_script_output(output);
                self.response_code = script.response_code;
                self.response_message = script.response_message;
                self.set_contents(script.contents);
                self.add_headers(script.headers);
            },
        }
    }

    /// Sets the body, and the `Content-Length` header with it.
    pub fn set_contents(&mut self, contents: Vec<u8>)
        ensures
            final(self)@ == with_contents(old(self)@, contents@),
    {
        self.contents = contents;
        self.update_content_length();
    }

    /// Sets the `Content-Length` header to the length of the body.
    pub fn update_content_length(&mut self)
        ensures
            final(self)@ == with_contents(old(self)@, old(self).contents@),
    {
        let length = string_of(decimal_chars(self.contents.len() as u64).as_slice());
        self.headers.insert("Content-Length".to_owned(), length);
    }

    /// Adds `headers`; a header that was there takes the new value.
    pub fn add_headers(&mut self, headers: StringMap)
        ensures
            final(self)@ == (ResponseView {
                code: old(self)@.code,
                message: old(self)@.message,
                headers: extend_entries(old(self)@.headers, headers.entries()),
                contents: old(self)@.contents,
            }),
    {
        self.headers.extend(headers);
    }

    /// The bytes to send. The `Content-Length` header is set to the length
    /// of the body first, whatever it was.
    pub fn prepare_response(&mut self) -> (bytes: Vec<u8>)
        ensures
            final(self)@ == with_contents(old(self)@, old(self).contents@),
            bytes@ == sent(old(self)@),
    {
        self.update_content_length();
        let ghost response = self@;
        let mut head = "HTTP/1.1 ".to_owned();
        head.append(string_of(decimal_chars(self.response_code as u64).as_slice()).as_str());
        head.append(" ");
        head.append(self.response_message.as_str());
        head.append("\r\n");
        let ghost status_line = head@;
        let n = self.headers.len();
        let mut i: usize = 0;
        assert(response.headers.take(0) =~= Seq::empty());
        assert(status_line + header_lines(response.headers.take(0)) =~= status_line);
        loop
            invariant
                i <= response.headers.len() == n,
                response == self@,
                head@ == status_line + header_lines(response.headers.take(i as int)),
            ensures
                i == response.headers.len(),
            decreases response.headers.len() - i,
        {
            match self.headers.entry(i) {
                None => {
                    break ;
                },
                Some((name, value)) => {
                    proof {
                        let taken = response.headers.take(i + 1);
                        assert(taken.drop_last() =~= response.headers.take(i as int));
                        assert(taken.last() == response.headers[i as int]);
                    }
                    let ghost before = head@;
                    head.append(name.as_str());
                    head.append(": ");
                    head.append(value.as_str());
                    head.append("\r\n");
                    assert(head@ =~= status_line + header_lines(response.headers.take(i + 1)));
                    i += 1;
                },
            }
        }
        assert(response.headers.take(i as int) =~= response.headers);
        head.append("\r\n");
        assert(head@ =~= head_text(response));
        let mut bytes = head.as_str().as_bytes_vec();
        let mut body = copy_range(self.contents.as_slice(), 0, self.contents.len());
        assert(body@ =~= self.contents@);
        bytes.append(&mut body);
        bytes
    }
}

} // verus!
