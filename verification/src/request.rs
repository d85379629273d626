//! The request as it comes over the wire, and as the rest of the pipeline
//! sees it.

use crate::decimal::{parse_number, parse_unsigned};
use crate::string_map::{
    insert_entry, map_of, parse_entries, parse_pairs, StringMap,
};
use crate::text::{
    lemma_split_has_pieces, rsplit_once, rsplit_once_chars, split, split_chars, split_once,
    split_once_bytes, split_once_chars, views,
};
use crate::unicode::{
    chars_of, debug_format, debug_quoted, decode, from_utf8_lossy, lossy_text, lowercase,
    string_of, to_lowercase, trim, trim_chars, utf8_text,
};
use vstd::prelude::*;
use vstd::string::StringExecFns;

verus! {

/// The bytes that end the head of a request: the end of a line, followed by
/// an empty line.
pub open spec fn blank_line() -> Seq<u8> {
    seq![10u8, 13u8, 10u8]
}

/// What a parsed request holds, as plain values. The three mappings are given
/// by their entries, in the order in which the keys first came in.
pub struct RequestView {
    pub method: Seq<char>,
    pub path: Seq<char>,
    pub query: Seq<(Seq<char>, Seq<char>)>,
    pub version: Seq<char>,
    pub headers: Seq<(Seq<char>, Seq<char>)>,
    pub cookies: Seq<(Seq<char>, Seq<char>)>,
    pub body: Seq<u8>,
}

/// What parsing a request comes to, as plain values.
pub enum ParsedView {
    Parsed(RequestView),
    Empty,
    BadRequest,
}

/// The part of `input` before the empty line that ends the head; all of it if
/// there is no such line.
pub open spec fn head_of(input: Seq<u8>) -> Seq<u8> {
    match split_once(input, blank_line()) {
        Some((head, rest)) => head,
        None => input,
    }
}

/// The part of `input` after the empty line that ends the head.
pub open spec fn after_head(input: Seq<u8>) -> Seq<u8> {
    match split_once(input, blank_line()) {
        Some((head, rest)) => rest,
        None => Seq::empty(),
    }
}

/// `line` without the carriage return that may end it.
pub open spec fn strip_cr(line: Seq<char>) -> Seq<char> {
    if line.len() > 0 && line.last() == '\r' {
        line.drop_last()
    } else {
        line
    }
}

/// Method, target and version of a request line. The method ends at the first
/// space, the version begins after the last one and is trimmed; with one
/// space only the version is `HTTP/1.1`. A line without a space is no request
/// line.
pub open spec fn request_line(line: Seq<char>) -> Option<(Seq<char>, Seq<char>, Seq<char>)> {
    match split_once(strip_cr(line), " "@) {
        None => None,
        Some((method, rest)) => match rsplit_once(rest, " "@) {
            Some((target, version)) => Some((method, target, trim(version))),
            None => Some((method, rest, "HTTP/1.1"@)),
        },
    }
}

/// The path of a request target: what stands before the first `?`.
pub open spec fn target_path(target: Seq<char>) -> Seq<char> {
    match split_once(target, "?"@) {
        Some((path, query)) => path,
        None => target,
    }
}

/// The query of a request target: the entries listed after the first `?`.
pub open spec fn target_query(target: Seq<char>) -> Seq<(Seq<char>, Seq<char>)> {
    match split_once(target, "?"@) {
        Some((path, query)) => parse_entries(query, "&"@, "="@),
        None => Seq::empty(),
    }
}

/// Name and value of a header line: the name is what stands before the first
/// colon, trimmed and in lower case, the value what stands after it, trimmed.
/// A line without a colon is a name without a value.
pub open spec fn header_entry(line: Seq<char>) -> (Seq<char>, Seq<char>) {
    match split_once(line, ":"@) {
        Some((name, value)) => (lowercase(trim(name)), trim(value)),
        None => (lowercase(trim(line)), Seq::empty()),
    }
}

/// The headers that `lines` give, from first to last. A line of nothing but
/// whitespace gives none; a name that comes again takes the later value.
pub open spec fn header_entries(lines: Seq<Seq<char>>) -> Seq<(Seq<char>, Seq<char>)>
    decreases lines.len(),
{
    if lines.len() == 0 {
        Seq::empty()
    } else {
        let before = header_entries(lines.drop_last());
        if trim(lines.last()).len() == 0 {
            before
        } else {
            insert_entry(before, header_entry(lines.last()).0, header_entry(lines.last()).1)
        }
    }
}

/// The cookies that the headers carry: the entries of the `cookie` header.
pub open spec fn cookie_entries(headers: Seq<(Seq<char>, Seq<char>)>) -> Seq<
    (Seq<char>, Seq<char>),
> {
    if map_of(headers).contains_key("cookie"@) {
        parse_entries(map_of(headers)["cookie"@], ";"@, "="@)
    } else {
        Seq::empty()
    }
}

/// The body that goes with `headers`, taken from the bytes `rest` that follow
/// the head: as many bytes as the `content-length` header says, none without
/// that header. There is no body if the header is no number or says more
/// than `rest` holds.
pub open spec fn body_of(headers: Seq<(Seq<char>, Seq<char>)>, rest: Seq<u8>) -> Option<Seq<u8>> {
    if map_of(headers).contains_key("content-length"@) {
        match parse_unsigned(map_of(headers)["content-length"@], rest.len()) {
            Some(n) => Some(rest.take(n as int)),
            None => None,
        }
    } else {
        Some(Seq::empty())
    }
}

/// The request that the head `text` and the bytes `rest` after it make.
pub open spec fn request_of(text: Seq<char>, rest: Seq<u8>) -> ParsedView {
    let lines = split(text, "\n"@);
    match request_line(lines[0]) {
        None => ParsedView::BadRequest,
        Some((method, target, version)) => {
            let headers = header_entries(lines.drop_first());
            match body_of(headers, rest) {
                None => ParsedView::BadRequest,
                Some(body) => ParsedView::Parsed(
                    RequestView {
                        method,
                        path: target_path(target),
                        query: target_query(target),
                        version,
                        headers,
                        cookies: cookie_entries(headers),
                        body,
                    },
                ),
            }
        },
    }
}

/// What the bytes `input` of one connection are as a request. No bytes at all
/// are an empty request. Otherwise the head, which ends at the first empty
/// line, has to be UTF-8 and to begin with a request line, and the body has
/// to be as long as announced.
pub open spec fn parse(input: Seq<u8>) -> ParsedView {
    if input.len() == 0 {
        ParsedView::Empty
    } else {
        match utf8_text(head_of(input)) {
            None => ParsedView::BadRequest,
            Some(text) => request_of(text, after_head(input)),
        }
    }
}

/// The length of the body that the head of `input` announces: the number in
/// its `content-length` header, or zero where the head has no such header,
/// the header is no number that fits `limit`, or the head is not UTF-8.
pub open spec fn announced_length(input: Seq<u8>, limit: nat) -> nat {
    match utf8_text(head_of(input)) {
        None => 0,
        Some(text) => {
            let headers = header_entries(split(text, "\n"@).drop_first());
            if map_of(headers).contains_key("content-length"@) {
                match parse_unsigned(map_of(headers)["content-length"@], limit) {
                    Some(n) => n,
                    None => 0,
                }
            } else {
                0
            }
        },
    }
}

/// `s` without its space characters.
pub open spec fn without_spaces(s: Seq<char>) -> Seq<char> {
    s.filter(|c: char| c != ' ')
}

/// One entry as a member of a JSON object: key and value quoted, with no
/// space left in either.
pub open spec fn json_member(entry: (Seq<char>, Seq<char>)) -> Seq<char> {
    without_spaces(debug_quoted(entry.0)) + ":"@ + without_spaces(debug_quoted(entry.1))
}

/// The members for `entries`, with a comma in front of each.
pub open spec fn json_members(entries: Seq<(Seq<char>, Seq<char>)>) -> Seq<char>
    decreases entries.len(),
{
    if entries.len() == 0 {
        Seq::empty()
    } else {
        json_members(entries.drop_last()) + ","@ + json_member(entries.last())
    }
}

/// `entries` as a JSON object on one line, such as `{"a":"1","b":"2"}`.
pub open spec fn json_object(entries: Seq<(Seq<char>, Seq<char>)>) -> Seq<char> {
    if entries.len() == 0 {
        "{}"@
    } else {
        "{"@ + json_members(entries).drop_first() + "}"@
    }
}

/// The request as the JSON text that is handed to scripts. Method, path,
/// version and body stand in it as they are, the body read as UTF-8 with
/// replacement characters.
pub open spec fn json_text(request: RequestView) -> Seq<char> {
    "{\n            \"method\":\""@ + request.method + "\",\n            \"path\":\""@
        + request.path + "\",\n            \"query\":"@ + json_object(request.query)
        + ",\n            \"version\":\""@ + request.version
        + "\",\n            \"headers\":"@ + json_object(request.headers)
        + ",\n            \"cookies\":"@ + json_object(request.cookies)
        + ",\n            \"body\":\""@ + lossy_text(request.body) + "\"\n        }"@
}

/// A request: method, path, query, headers, cookies and body.
#[derive(Debug)]
pub struct IncomingRequest {
    pub method: String,
    pub path: String,
    pub query: StringMap,
    pub version: String,
    pub headers: StringMap,
    pub cookies: StringMap,
    pub body: Vec<u8>,
}

impl View for IncomingRequest {
    type V = RequestView;

    open spec fn view(&self) -> RequestView {
        RequestView {
            method: self.method@,
            path: self.path@,
            query: self.query.entries(),
            version: self.version@,
            headers: self.headers.entries(),
            cookies: self.cookies.entries(),
            body: self.body@,
        }
    }
}

/// The outcome of parsing a request.
#[derive(Debug)]
pub enum ParsedRequest {
    Parsed(Box<IncomingRequest>),
    Empty,
    BadRequest,
}

impl View for ParsedRequest {
    type V = ParsedView;

    open spec fn view(&self) -> ParsedView {
        match self {
            ParsedRequest::Parsed(request) => ParsedView::Parsed(request@),
            ParsedRequest::Empty => ParsedView::Empty,
            ParsedRequest::BadRequest => ParsedView::BadRequest,
        }
    }
}

/// Reads the headers from the lines after the request line.
fn parse_headers(lines: &Vec<Vec<char>>) -> (headers: StringMap)
    requires
        lines@.len() > 0,
    ensures
        headers.entries() == header_entries(views(lines@).drop_first()),
{
    let colon = chars_of(":");
    let mut headers = StringMap::new();
    let ghost all = views(lines@).drop_first();
    let mut i: usize = 1;
    assert(all.take(0) =~= Seq::empty());
    while i < lines.len()
        invariant
            1 <= i <= lines@.len(),
            all == views(lines@).drop_first(),
            colon@ == ":"@,
            headers.entries() == header_entries(all.take(i - 1)),
        decreases lines.len() - i,
    {
        proof {
            let taken = all.take(i as int);
            assert(taken.drop_last() =~= all.take(i - 1));
            assert(taken.last() == lines@[i as int]@);
        }
        let line = lines[i].as_slice();
        if trim_chars(line).len() > 0 {
            let (name, value) = match split_once_chars(line, colon.as_slice()) {
                Some((name, value)) => (name, trim_chars(value.as_slice())),
                None => (crate::text::copy_range(line, 0, line.len()), Vec::new()),
            };
            assert(line@.subrange(0, line@.len() as int) =~= line@);
            let name = string_of(trim_chars(name.as_slice()).as_slice());
            headers.insert(to_lowercase(name.as_str()), string_of(value.as_slice()));
        }
        i += 1;
    }
    assert(all.take(lines@.len() - 1) =~= all);
    headers
}

/// Reads method, target and version from the first line of a request.
fn parse_request_line(line: &[char]) -> (r: Option<(String, Vec<char>, String)>)
    ensures
        match r {
            Some((method, target, version)) => request_line(line@) == Some(
                (method@, target@, version@),
            ),
            None => request_line(line@) is None,
        },
{
    let n = line.len();
    let end = if n > 0 && line[n - 1] == '\r' {
        n - 1
    } else {
        n
    };
    let stripped = crate::text::copy_range(line, 0, end);
    assert(stripped@ =~= strip_cr(line@));
    let space = chars_of(" ");
    match split_once_chars(stripped.as_slice(), space.as_slice()) {
        None => None,
        Some((method, rest)) => {
            let method = string_of(method.as_slice());
            match rsplit_once_chars(rest.as_slice(), space.as_slice()) {
                Some((target, version)) => {
                    let version = string_of(trim_chars(version.as_slice()).as_slice());
                    Some((method, target, version))
                },
                None => Some((method, rest, "HTTP/1.1".to_owned())),
            }
        },
    }
}

/// Appends `s` without its spaces to `out`.
fn append_without_spaces(out: &mut String, s: &str)
    ensures
        final(out)@ == old(out)@ + without_spaces(s@),
{
    let chars = chars_of(s);
    let ghost start = out@;
    let mut i: usize = 0;
    proof {
        reveal(Seq::filter);
        assert(chars@.take(0) =~= Seq::empty());
        assert(start + Seq::<char>::empty() =~= start);
    }
    while i < chars.len()
        invariant
            i <= chars@.len(),
            out@ == start + without_spaces(chars@.take(i as int)),
        decreases chars.len() - i,
    {
        proof {
            reveal(Seq::filter);
            let taken = chars@.take(i + 1);
            assert(taken.drop_last() =~= chars@.take(i as int));
            assert(taken.last() == chars@[i as int]);
            assert((start + without_spaces(chars@.take(i as int))).push(chars@[i as int]) =~= start
                + without_spaces(chars@.take(i as int)).push(chars@[i as int]));
        }
        if chars[i] != ' ' {
            out.push(chars[i]);
        }
        i += 1;
    }
    assert(chars@.take(i as int) =~= chars@);
}

/// Appends the entries of `map` as a JSON object to `out`.
fn append_json_object(out: &mut String, map: &StringMap)
    ensures
        final(out)@ == old(out)@ + json_object(map.entries()),
{
    let ghost start = out@;
    let ghost entries = map.entries();
    let n = map.len();
    if n == 0 {
        out.append("{}");
        return ;
    }
    out.append("{");
    let mut i: usize = 0;
    assert(entries.take(0) =~= Seq::empty());
    assert(start + "{"@ + json_members(entries.take(0)) =~= start + "{"@);
    loop
        invariant
            i <= entries.len() == n,
            entries == map.entries(),
            entries.len() > 0,
            i == 0 ==> out@ == start + "{"@,
            i > 0 ==> out@ == start + "{"@ + json_members(entries.take(i as int)).drop_first(),
            i > 0 ==> json_members(entries.take(i as int)).len() > 0,
        ensures
            i == entries.len(),
        decreases entries.len() - i,
    {
        match map.entry(i) {
            None => {
                break ;
            },
            Some((key, value)) => {
                let ghost before = out@;
                let ghost done = json_members(entries.take(i as int));
                if i > 0 {
                    out.append(",");
                }
                let quoted_key = debug_format(key.as_str());
                append_without_spaces(out, quoted_key.as_str());
                out.append(":");
                let quoted_value = debug_format(value.as_str());
                append_without_spaces(out, quoted_value.as_str());
                proof {
                    let taken = entries.take(i + 1);
                    assert(taken.drop_last() =~= entries.take(i as int));
                    assert(taken.last() == entries[i as int]);
                    let member = json_member(entries[i as int]);
                    assert(json_members(taken) == done + ","@ + member);
                    reveal_strlit(",");
                    assert(","@.len() == 1);
                    assert((done + ","@ + member).len() > 0);
                    if i == 0 {
                        assert(done =~= Seq::empty());
                        assert((done + ","@ + member).drop_first() =~= member);
                        assert(out@ =~= start + "{"@ + member);
                    } else {
                        assert((done + ","@ + member).drop_first() =~= done.drop_first() + ","@
                            + member);
                        assert(out@ =~= start + "{"@ + (done.drop_first() + ","@ + member));
                    }
                }
                i += 1;
            },
        }
    }
    assert(entries.take(i as int) =~= entries);
    out.append("}");
    assert(out@ =~= start + ("{"@ + json_members(entries).drop_first() + "}"@));
}

impl IncomingRequest {
    /// The request as JSON text; see [`json_text`].
    pub fn as_json(&self) -> (json: String)
        ensures
            json@ == json_text(self@),
    {
        let mut json = String::new();
        json.append("{\n            \"method\":\"");
        json.append(self.method.as_str());
        json.append("\",\n            \"path\":\"");
        json.append(self.path.as_str());
        json.append("\",\n            \"query\":");
        append_json_object(&mut json, &self.query);
        json.append(",\n            \"version\":\"");
        json.append(self.version.as_str());
        json.append("\",\n            \"headers\":");
        append_json_object(&mut json, &self.headers);
        json.append(",\n            \"cookies\":");
        append_json_object(&mut json, &self.cookies);
        json.append(",\n            \"body\":\"");
        let body = from_utf8_lossy(self.body.as_slice());
        json.append(body.as_str());
        json.append("\"\n        }");
        assert(json@ =~= json_text(self@));
        json
    }

    /// How many bytes of body the head in `input` announces; see
    /// [`announced_length`].
    pub fn body_length(input: &[u8]) -> (n: usize)
        ensures
            n == announced_length(input@, usize::MAX as nat),
    {
        let mut blank: Vec<u8> = Vec::new();
        blank.push(10u8);
        blank.push(13u8);
        blank.push(10u8);
        assert(blank@ =~= blank_line());
        let head = match split_once_bytes(input, blank.as_slice()) {
            Some((head, rest)) => head,
            None => crate::text::copy_range(input, 0, input.len()),
        };
        assert(input@.subrange(0, input@.len() as int) =~= input@);
        let text = match decode(head) {
            Some(text) => text,
            None => {
                return 0;
            },
        };
        let text = chars_of(text.as_str());
        let newline = chars_of("\n");
        let lines = split_chars(text.as_slice(), newline.as_slice());
        proof {
            lemma_split_has_pieces(text@, newline@);
        }
        let headers = parse_headers(&lines);
        match headers.get("content-length") {
            Some(text) => {
                let text = chars_of(text.as_str());
                match parse_number(text.as_slice(), usize::MAX as u64) {
                    Some(n) => n as usize,
                    None => 0,
                }
            },
            None => 0,
        }
    }

    /// A request with nothing in it.
    pub fn new() -> (request: IncomingRequest)
        ensures
            request@ == (RequestView {
                method: Seq::empty(),
                path: Seq::empty(),
                query: Seq::empty(),
                version: Seq::empty(),
                headers: Seq::empty(),
                cookies: Seq::empty(),
                body: Seq::empty(),
            }),
    {
        IncomingRequest {
            method: String::new(),
            path: String::new(),
            query: StringMap::new(),
            version: String::new(),
            headers: StringMap::new(),
            cookies: StringMap::new(),
            body: Vec::new(),
        }
    }

    /// Parses the bytes of one connection as a request; see [`parse`].
    pub fn parse_request(input: &[u8]) -> (parsed: ParsedRequest)
        ensures
            parsed@ == parse(input@),
    {
        if input.len() == 0 {
            return ParsedRequest::Empty;
        }
        let mut blank: Vec<u8> = Vec::new();
        blank.push(10u8);
        blank.push(13u8);
        blank.push(10u8);
        assert(blank@ =~= blank_line());
        let (head, rest) = match split_once_bytes(input, blank.as_slice()) {
            Some((head, rest)) => (head, rest),
            None => (crate::text::copy_range(input, 0, input.len()), Vec::new()),
        };
        assert(input@.subrange(0, input@.len() as int) =~= input@);
        assert(head@ == head_of(input@));
        assert(rest@ == after_head(input@));
        let text = match decode(head) {
            Some(text) => text,
            None => {
                return ParsedRequest::BadRequest;
            },
        };
        let text = chars_of(text.as_str());
        let newline = chars_of("\n");
        let lines = split_chars(text.as_slice(), newline.as_slice());
        proof {
            lemma_split_has_pieces(text@, newline@);
        }
        let (method, target, version) = match parse_request_line(lines[0].as_slice()) {
            Some(parts) => parts,
            None => {
                return ParsedRequest::BadRequest;
            },
        };
        let headers = parse_headers(&lines);
        let question = chars_of("?");
        let (path, query) = match split_once_chars(target.as_slice(), question.as_slice()) {
            Some((path, query)) => {
                let ampersand = chars_of("&");
                let equals = chars_of("=");
                let query = parse_pairs(query.as_slice(), ampersand.as_slice(), equals.as_slice());
                (string_of(path.as_slice()), query)
            },
            None => (string_of(target.as_slice()), StringMap::new()),
        };
        let cookies = match headers.get("cookie") {
            Some(text) => {
                let text = chars_of(text.as_str());
                let semicolon = chars_of(";");
                let equals = chars_of("=");
                parse_pairs(text.as_slice(), semicolon.as_slice(), equals.as_slice())
            },
            None => StringMap::new(),
        };
        let body = match headers.get("content-length") {
            Some(text) => {
                let text = chars_of(text.as_str());
                let available = rest.len();
                match parse_number(text.as_slice(), available as u64) {
                    Some(n) => crate::text::copy_range(rest.as_slice(), 0, n as usize),
                    None => {
                        return ParsedRequest::BadRequest;
                    },
                }
            },
            None => Vec::new(),
        };
        ParsedRequest::Parsed(
            Box::new(IncomingRequest { method, path, query, version, headers, cookies, body }),
        )
    }
}

} // verus!
