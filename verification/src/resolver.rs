//! From a request and the rows of the store to a decision: which route
//! answers, or which error.

use crate::database_utils::{Database, QueryView, RowQuery};
use crate::decimal::{parse_number, parse_unsigned};
use crate::request::{IncomingRequest, RequestView};
use crate::response::{HTTPResponse, ResponseView};
use crate::string_map::{map_of, StringMap};
use crate::text::{split, split_chars, views};
use crate::unicode::{chars_of, lowercase, string_of, texts, to_lowercase, trim, trim_chars};
use vstd::prelude::*;
use vstd::string::StringExecFns;

verus! {

/// A result of the pipeline: a value, or a failure that the client sees as a
/// plain 500 response.
#[derive(Debug)]
pub enum ServerStatus<T> {
    Success(T),
    InternalError,
}

/// What the session of a request is allowed: the user's level, or nothing.
#[derive(Debug, Clone, Copy, PartialEq, Eq, Structural)]
pub enum UserAuth {
    Granted(u8),
    ErrAuth,
}

/// A route of the store that matched a request.
#[derive(Debug)]
pub struct MatchedRequest {
    pub path: String,
    pub callback: String,
    pub auth_level: u8,
    pub params: Vec<String>,
}

/// The answer of the resolver: the route, or the error to report.
#[derive(Debug)]
pub enum HTTPCode {
    Ok200(MatchedRequest),
    Err400,
    Err401,
    Err403,
    Err404,
}

/// A route as plain values.
pub struct RouteView {
    pub path: Seq<char>,
    pub callback: Seq<char>,
    pub auth_level: u8,
    pub params: Seq<Seq<char>>,
}

/// An answer of the resolver as plain values.
pub enum CodeView {
    Ok200(RouteView),
    Err400,
    Err401,
    Err403,
    Err404,
}

impl View for MatchedRequest {
    type V = RouteView;

    open spec fn view(&self) -> RouteView {
        RouteView {
            path: self.path@,
            callback: self.callback@,
            auth_level: self.auth_level,
            params: texts(self.params@),
        }
    }
}

impl View for HTTPCode {
    type V = CodeView;

    open spec fn view(&self) -> CodeView {
        match self {
            HTTPCode::Ok200(route) => CodeView::Ok200(route@),
            HTTPCode::Err400 => CodeView::Err400,
            HTTPCode::Err401 => CodeView::Err401,
            HTTPCode::Err403 => CodeView::Err403,
            HTTPCode::Err404 => CodeView::Err404,
        }
    }
}

/// The table that holds the routes of a method: `requests_` and the method
/// in lower case.
pub open spec fn route_table(method: Seq<char>) -> Seq<char> {
    "requests_"@ + lowercase(method)
}

/// The lookup of the route of a request in the database at `filepath`.
pub open spec fn route_query(filepath: Seq<char>, request: RequestView) -> QueryView {
    QueryView {
        filepath,
        table: route_table(request.method),
        key_column: "path"@,
        key: request.path,
    }
}

/// The lookup of the user that a session belongs to.
pub open spec fn session_query(filepath: Seq<char>, session: Seq<char>) -> QueryView {
    QueryView { filepath, table: "users"@, key_column: "sessionID"@, key: session }
}

/// The level that a route asks for, from the text of its row: the number it
/// denotes, and the highest level where it denotes none up to 255.
pub open spec fn required_level(text: Seq<char>) -> u8 {
    match parse_unsigned(text, 255) {
        Some(level) => level as u8,
        None => 255u8,
    }
}

/// The level of a user, from the text of its row: the number it denotes, and
/// the lowest level where it denotes none up to 255.
pub open spec fn user_level(text: Seq<char>) -> u8 {
    match parse_unsigned(text, 255) {
        Some(level) => level as u8,
        None => 0u8,
    }
}

/// The parameters that a route asks for, from the text of its row: the
/// names between the semicolons, trimmed; none for an empty text.
pub open spec fn required_params(text: Seq<char>) -> Seq<Seq<char>> {
    if text.len() == 0 {
        Seq::empty()
    } else {
        split(text, ";"@).map_values(|name: Seq<char>| trim(name))
    }
}

/// The route that a row of a route table describes. A row that lacks one of
/// the four columns describes none.
pub open spec fn route_of(row: Map<Seq<char>, Seq<char>>) -> Option<RouteView> {
    if row.contains_key("path"@) && row.contains_key("callback"@) && row.contains_key(
        "auth_level"@,
    ) && row.contains_key("params"@) {
        Some(
            RouteView {
                path: row["path"@],
                callback: row["callback"@],
                auth_level: required_level(row["auth_level"@]),
                params: required_params(row["params"@]),
            },
        )
    } else {
        None
    }
}

/// Every name of `names` is a key of `query`.
pub open spec fn has_all(query: Map<Seq<char>, Seq<char>>, names: Seq<Seq<char>>) -> bool {
    forall|i: int| 0 <= i < names.len() ==> query.contains_key(#[trigger] names[i])
}

/// The session that a request names: the value of its `sessionID` cookie.
pub open spec fn session_of(request: RequestView) -> Option<Seq<char>> {
    if map_of(request.cookies).contains_key("sessionID"@) {
        Some(map_of(request.cookies)["sessionID"@])
    } else {
        None
    }
}

/// The answer to a request from the row of its route, before any session is
/// looked at. No row means that there is no such route. A row that is no
/// route is a failure of the store. A parameter that the route asks for and
/// the query lacks is a bad request, whatever the route's level. A route
/// with a level above zero cannot be had without a session cookie. In every
/// other case the route matches; if its level is above zero the session has
/// yet to be checked.
pub open spec fn match_route(request: RequestView, row: Map<Seq<char>, Seq<char>>) -> ServerStatus<
    CodeView,
> {
    if row == Map::<Seq<char>, Seq<char>>::empty() {
        ServerStatus::Success(CodeView::Err404)
    } else {
        match route_of(row) {
            None => ServerStatus::InternalError,
            Some(route) => if !has_all(map_of(request.query), route.params) {
                ServerStatus::Success(CodeView::Err400)
            } else if route.auth_level > 0 && session_of(request) is None {
                ServerStatus::Success(CodeView::Err401)
            } else {
                ServerStatus::Success(CodeView::Ok200(route))
            },
        }
    }
}

/// What the session of a request is allowed at the time `now`, in seconds
/// since the epoch, from the row of its user. There is nothing without a
/// session cookie, without a row for it, or once the session has expired,
/// whatever level the row holds. An expiry that is no number is a failure of
/// the store.
pub open spec fn session_auth(
    request: RequestView,
    row: Map<Seq<char>, Seq<char>>,
    now: u64,
) -> ServerStatus<UserAuth> {
    if session_of(request) is None {
        ServerStatus::Success(UserAuth::ErrAuth)
    } else if !row.contains_key("sessionExpires"@) {
        ServerStatus::Success(UserAuth::ErrAuth)
    } else {
        match parse_unsigned(row["sessionExpires"@], u64::MAX as nat) {
            None => ServerStatus::InternalError,
            Some(expires) => if expires <= now {
                ServerStatus::Success(UserAuth::ErrAuth)
            } else if !row.contains_key("auth_level"@) {
                ServerStatus::Success(UserAuth::ErrAuth)
            } else {
                ServerStatus::Success(UserAuth::Granted(user_level(row["auth_level"@])))
            },
        }
    }
}

/// The answer for a matched route once the session is known: the route if
/// the user's level reaches the level of the route.
pub open spec fn authorized(route: RouteView, auth: UserAuth) -> CodeView {
    match auth {
        UserAuth::ErrAuth => CodeView::Err401,
        UserAuth::Granted(level) => if level < route.auth_level {
            CodeView::Err403
        } else {
            CodeView::Ok200(route)
        },
    }
}

/// The name under which the error catalog holds the page for an answer;
/// none for a matched route.
pub open spec fn error_name(code: CodeView) -> Option<Seq<char>> {
    match code {
        CodeView::Ok200(route) => None,
        CodeView::Err400 => Some("err400"@),
        CodeView::Err401 => Some("err401"@),
        CodeView::Err403 => Some("err403"@),
        CodeView::Err404 => Some("err404"@),
    }
}

/// The status code of an answer: the number in its name.
pub open spec fn error_status(code: CodeView) -> u32 {
    match code {
        CodeView::Ok200(route) => 200,
        CodeView::Err400 => 400,
        CodeView::Err401 => 401,
        CodeView::Err403 => 403,
        CodeView::Err404 => 404,
    }
}

/// The lookup of the error page for an answer.
pub open spec fn error_query(filepath: Seq<char>, code: CodeView) -> Option<QueryView> {
    match error_name(code) {
        Some(name) => Some(QueryView { filepath, table: "errors"@, key_column: "name"@, key: name }),
        None => None,
    }
}

/// An error page that has yet to be rendered: the response so far and the
/// callback target that gives its content.
#[derive(Debug)]
pub struct ErrorPage {
    pub response: HTTPResponse,
    pub callback: String,
}

/// The error page for an answer, from its row in the error catalog: status
/// code from the answer, message and callback from the row. A matched route
/// has none. A row that lacks the message or the callback, as the empty row
/// does, is a failure of the store.
pub open spec fn error_page(code: CodeView, row: Map<Seq<char>, Seq<char>>) -> ServerStatus<
    Option<(ResponseView, Seq<char>)>,
> {
    if code is Ok200 {
        ServerStatus::Success(None)
    } else if row.contains_key("response_message"@) && row.contains_key("callback"@) {
        ServerStatus::Success(
            Some(
                (
                    ResponseView {
                        code: error_status(code),
                        message: row["response_message"@],
                        headers: Seq::empty(),
                        contents: Seq::empty(),
                    },
                    row["callback"@],
                ),
            ),
        )
    } else {
        ServerStatus::InternalError
    }
}

/// A request for which the store has no route is answered with 404.
pub proof fn lemma_unknown_route(request: RequestView)
    ensures
        match_route(request, Map::<Seq<char>, Seq<char>>::empty()) == ServerStatus::Success(
            CodeView::Err404,
        ),
{
}

/// A request that lacks a parameter which its route asks for is answered
/// with 400, whatever level the route asks for and whether or not the request
/// has a session.
pub proof fn lemma_missing_parameter(request: RequestView, row: Map<Seq<char>, Seq<char>>)
    requires
        route_of(row) matches Some(route) && !has_all(map_of(request.query), route.params),
    ensures
        match_route(request, row) == ServerStatus::Success(CodeView::Err400),
{
    assert(row.contains_key("path"@));
}

/// A request without a session cookie for a route with a level above zero
/// is answered with 401 from the row of the route alone, if it has the
/// parameters that the route asks for.
pub proof fn lemma_session_cookie_required(request: RequestView, row: Map<Seq<char>, Seq<char>>)
    requires
        route_of(row) matches Some(route) && route.auth_level > 0 && has_all(
            map_of(request.query),
            route.params,
        ),
        session_of(request) is None,
    ensures
        match_route(request, row) == ServerStatus::Success(CodeView::Err401),
{
    assert(row.contains_key("path"@));
}

/// A session that has expired is allowed nothing, whatever level its user
/// has.
pub proof fn lemma_expired_session(request: RequestView, row: Map<Seq<char>, Seq<char>>, now: u64)
    requires
        row.contains_key("sessionExpires"@),
        parse_unsigned(row["sessionExpires"@], u64::MAX as nat) matches Some(expires) && expires
            <= now,
    ensures
        session_auth(request, row, now) == ServerStatus::Success(UserAuth::ErrAuth),
{
}

/// A user whose level is below the level of the route is answered with 403,
/// a user without a valid session with 401, and any other user gets the
/// route.
pub proof fn lemma_authorized(route: RouteView, auth: UserAuth)
    ensures
        authorized(route, auth) is Ok200 <==> (auth matches UserAuth::Granted(level) && level
            >= route.auth_level),
        authorized(route, auth) is Err403 <==> (auth matches UserAuth::Granted(level) && level
            < route.auth_level),
        authorized(route, auth) is Err401 <==> auth is ErrAuth,
{
}

/// The status code of an error is the number that follows the first three
/// characters of its name.
pub proof fn lemma_error_status(code: CodeView)
    requires
        !(code is Ok200),
    ensures
        error_name(code) matches Some(name) && parse_unsigned(name.skip(3), u32::MAX as nat)
            == Some(error_status(code) as nat),
{
    reveal_strlit("err400");
    reveal_strlit("err401");
    reveal_strlit("err403");
    reveal_strlit("err404");
    let name = error_name(code)->0;
    let digits = name.skip(3);
    assert(digits.len() == 3);
    assert(digits[0] == '4' && digits[1] == '0');
    assert(crate::decimal::unsigned_digits(digits) == digits);
    let two = digits.drop_last();
    let one = two.drop_last();
    assert(one.drop_last().len() == 0);
    assert(crate::decimal::digits_value(one.drop_last()) == 0);
    assert(crate::decimal::digits_value(one) == 4);
    assert(crate::decimal::digits_value(two) == 40);
    assert(crate::decimal::digits_value(digits) == error_status(code));
}

/// Reads the list of parameter names of a route.
fn parse_params(text: &str) -> (params: Vec<String>)
    ensures
        texts(params@) == required_params(text@),
{
    let text = chars_of(text);
    let mut params: Vec<String> = Vec::new();
    if text.len() == 0 {
        assert(texts(params@) =~= Seq::empty());
        return params;
    }
    let semicolon = chars_of(";");
    let pieces = split_chars(text.as_slice(), semicolon.as_slice());
    let ghost names = split(text@, ";"@);
    let mut i: usize = 0;
    while i < pieces.len()
        invariant
            i <= pieces@.len(),
            views(pieces@) == names,
            params@.len() == i,
            forall|j: int| 0 <= j < i ==> (#[trigger] params@[j])@ == trim(names[j]),
        decreases pieces.len() - i,
    {
        assert(views(pieces@)[i as int] == pieces@[i as int]@);
        params.push(string_of(trim_chars(pieces[i].as_slice()).as_slice()));
        i += 1;
    }
    assert(texts(params@) =~= names.map_values(|name: Seq<char>| trim(name)));
    params
}

/// Whether `query` has every one of `names`.
fn has_params(query: &StringMap, names: &Vec<String>) -> (b: bool)
    ensures
        b == has_all(query@, texts(names@)),
{
    let mut i: usize = 0;
    while i < names.len()
        invariant
            i <= names@.len(),
            forall|j: int| 0 <= j < i ==> query@.contains_key(#[trigger] texts(names@)[j]),
        decreases names.len() - i,
    {
        if !query.contains_key(names[i].as_str()) {
            assert(texts(names@)[i as int] == names@[i as int]@);
            return false;
        }
        assert(texts(names@)[i as int] == names@[i as int]@);
        i += 1;
    }
    true
}

/// Reads a level, with the level `default` for a text that denotes none.
fn parse_level(text: &str, default: u8) -> (level: u8)
    ensures
        level == match parse_unsigned(text@, 255) {
            Some(n) => n as u8,
            None => default,
        },
{
    let text = chars_of(text);
    match parse_number(text.as_slice(), 255) {
        Some(n) => n as u8,
        None => default,
    }
}

impl MatchedRequest {
    /// The answer for this route once the session is known; see
    /// [`authorized`].
    pub fn authorize(self, auth: UserAuth) -> (code: HTTPCode)
        ensures
            code@ == authorized(self@, auth),
    {
        match auth {
            UserAuth::ErrAuth => HTTPCode::Err401,
            UserAuth::Granted(level) => if level < self.auth_level {
                HTTPCode::Err403
            } else {
                HTTPCode::Ok200(self)
            },
        }
    }
}

impl Database {
    /// The lookup of the route for `incoming`.
    pub fn route_lookup(&self, incoming: &IncomingRequest) -> (query: RowQuery)
        ensures
            query@ == route_query(self.filepath@, incoming@),
    {
        let mut table = "requests_".to_owned();
        table.append(to_lowercase(incoming.method.as_str()).as_str());
        self.lookup(table.as_str(), "path", incoming.path.as_str())
    }

    /// The lookup of the user behind the session of `incoming`; none for a
    /// request without a session cookie.
    pub fn session_lookup(&self, incoming: &IncomingRequest) -> (query: Option<RowQuery>)
        ensures
            match query {
                Some(query) => session_of(incoming@) matches Some(session) && query@
                    == session_query(self.filepath@, session),
                None => session_of(incoming@) is None,
            },
    {
        match incoming.cookies.get("sessionID") {
            Some(session) => Some(self.lookup("users", "sessionID", session.as_str())),
            None => None,
        }
    }

    /// The lookup of the error page for `httpcode`; none for a matched route.
    pub fn error_lookup(&self, httpcode: &HTTPCode) -> (query: Option<RowQuery>)
        ensures
            match query {
                Some(query) => error_query(self.filepath@, httpcode@) == Some(query@),
                None => error_query(self.filepath@, httpcode@) is None,
            },
    {
        let name = match httpcode {
            HTTPCode::Ok200(_) => {
                return None;
            },
            HTTPCode::Err400 => "err400",
            HTTPCode::Err401 => "err401",
            HTTPCode::Err403 => "err403",
            HTTPCode::Err404 => "err404",
        };
        Some(self.lookup("errors", "name", name))
    }

    /// Matches `incoming` against `row`, the row that its route lookup gave
    /// (empty if there was none); see [`match_route`].
    pub fn match_request(&self, incoming: &IncomingRequest, row: &StringMap) -> (status:
        ServerStatus<HTTPCode>)
        ensures
            match status {
                ServerStatus::Success(code) => match_route(incoming@, row@)
                    == ServerStatus::Success(code@),
                ServerStatus::InternalError => match_route(incoming@, row@)
                    is InternalError,
            },
    {
        if row.is_empty() {
            return ServerStatus::Success(HTTPCode::Err404);
        }
        let (path, callback, level, params) = match (
            row.get("path"),
            row.get("callback"),
            row.get("auth_level"),
            row.get("params"),
        ) {
            (Some(path), Some(callback), Some(level), Some(params)) => (
                path,
                callback,
                level,
                params,
            ),
            _ => {
                return ServerStatus::InternalError;
            },
        };
        let route = MatchedRequest {
            path: path.clone(),
            callback: callback.clone(),
            auth_level: parse_level(level.as_str(), 255),
            params: parse_params(params.as_str()),
        };
        assert(route_of(row@) == Some(route@));
        if !has_params(&incoming.query, &route.params) {
            return ServerStatus::Success(HTTPCode::Err400);
        }
        if route.auth_level > 0 && !incoming.cookies.contains_key("sessionID") {
            return ServerStatus::Success(HTTPCode::Err401);
        }
        ServerStatus::Success(HTTPCode::Ok200(route))
    }

    /// What the session of `incoming` is allowed at the time `now`, from
    /// `row`, the row that its session lookup gave (empty if there was
    /// none); see [`session_auth`].
    pub fn auth_user(&self, incoming: &IncomingRequest, row: &StringMap, now: u64) -> (status:
        ServerStatus<UserAuth>)
        ensures
            status == session_auth(incoming@, row@, now),
    {
        if !incoming.cookies.contains_key("sessionID") {
            return ServerStatus::Success(UserAuth::ErrAuth);
        }
        let expires = match row.get("sessionExpires") {
            Some(text) => {
                let text = chars_of(text.as_str());
                match parse_number(text.as_slice(), u64::MAX) {
                    Some(expires) => expires,
                    None => {
                        return ServerStatus::InternalError;
                    },
                }
            },
            None => {
                return ServerStatus::Success(UserAuth::ErrAuth);
            },
        };
        if expires <= now {
            return ServerStatus::Success(UserAuth::ErrAuth);
        }
        match row.get("auth_level") {
            Some(level) => ServerStatus::Success(UserAuth::Granted(parse_level(level.as_str(), 0))),
            None => ServerStatus::Success(UserAuth::ErrAuth),
        }
    }

    /// The error page for `httpcode`, from `row`, the row that its error
    /// lookup gave (empty if there was none); see [`error_page`].
    pub fn get_error(&self, httpcode: &HTTPCode, row: &StringMap) -> (status: ServerStatus<
        Option<ErrorPage>,
    >)
        ensures
            match status {
                ServerStatus::Success(Some(page)) => error_page(httpcode@, row@)
                    == ServerStatus::Success(Some((page.response@, page.callback@))),
                ServerStatus::Success(None) => error_page(httpcode@, row@)
                    == ServerStatus::Success(None::<(ResponseView, Seq<char>)>),
                ServerStatus::InternalError => error_page(httpcode@, row@) is InternalError,
            },
    {
        let code: u32 = match httpcode {
            HTTPCode::Ok200(_) => {
                return ServerStatus::Success(None);
            },
            HTTPCode::Err400 => 400,
            HTTPCode::Err401 => 401,
            HTTPCode::Err403 => 403,
            HTTPCode::Err404 => 404,
        };
        match (row.get("response_message"), row.get("callback")) {
            (Some(message), Some(callback)) => ServerStatus::Success(
                Some(
                    ErrorPage {
                        response: HTTPResponse::new(code, message.clone()),
                        callback: callback.clone(),
                    },
                ),
            ),
            _ => ServerStatus::InternalError,
        }
    }
}

} // verus!
