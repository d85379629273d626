//! One connection from parsed request to response, as a machine that is
//! driven from outside: it says what it needs next (a row of the store, the
//! content of a callback target), is handed the outcome, and in the end says
//! what to send.

use crate::database_utils::{Database, QueryView, RowQuery};
use crate::request::{json_text, IncomingRequest, ParsedRequest, ParsedView, RequestView};
use crate::resolver::{
    authorized, error_page, error_query, match_route, route_query, session_auth, session_of,
    session_query, CodeView, HTTPCode, MatchedRequest, RouteView, ServerStatus,
};
use crate::response::{rendered, route_response, sent, HTTPResponse, ResponseView};
use crate::script_runner::{renderer_for, Renderer};
use crate::string_map::StringMap;
use vstd::prelude::*;
use vstd::string::StrSliceExecFns;
use vstd::utf8::encode_utf8;

verus! {

/// The order to render a callback target: to read the file, or to run the
/// program of the renderer on it with `arguments`, the request as JSON.
#[derive(Debug)]
pub struct RenderJob {
    pub callback: String,
    pub renderer: Renderer,
    pub arguments: String,
}

/// What the machine asks its driver to do next.
#[derive(Debug)]
pub enum Action {
    /// Fetch the row of this lookup and hand it back; an empty row if there
    /// is none.
    Fetch(RowQuery),
    /// Render this callback target and hand its output back.
    Render(RenderJob),
    /// Send these bytes to the client; the exchange is over.
    Send(Vec<u8>),
    /// Send nothing; the exchange is over.
    Close,
}

/// What the driver hands back.
#[derive(Debug)]
pub enum Event {
    /// The outcome of a fetch: the row, or why the store failed.
    Row(Result<StringMap, String>),
    /// The outcome of a rendering: the output, or why it failed.
    Content(Result<Vec<u8>, String>),
}

/// Where an exchange stands.
#[derive(Debug)]
enum Stage {
    Route,
    Session(MatchedRequest),
    Page(MatchedRequest),
    ErrorRow(HTTPCode),
    ErrorPage(HTTPResponse, String),
    Done,
}

/// The handling of one request.
#[derive(Debug)]
pub struct Exchange {
    database: Database,
    request: IncomingRequest,
    stage: Stage,
}

/// A render job as plain values.
pub struct JobView {
    pub callback: Seq<char>,
    pub renderer: Renderer,
    pub arguments: Seq<char>,
}

/// An action as plain values.
pub enum ActionView {
    Fetch(QueryView),
    Render(JobView),
    Send(Seq<u8>),
    Close,
}

/// An event as plain values; `None` stands for a failure.
pub enum EventView {
    Row(Option<Map<Seq<char>, Seq<char>>>),
    Content(Option<Seq<u8>>),
}

/// Where an exchange stands, as plain values.
pub enum StageView {
    /// The row of the route was asked for.
    Route,
    /// The route matched; the row of the session's user was asked for.
    Session(RouteView),
    /// The route is to be served; the content of its callback was asked for.
    Page(RouteView),
    /// This error is to be reported; its row in the catalog was asked for.
    ErrorRow(CodeView),
    /// The error page is known; the content of its callback was asked for.
    ErrorPage(ResponseView, Seq<char>),
    /// Nothing is left to do.
    Done,
}

/// An exchange as plain values.
pub struct ExchangeView {
    pub filepath: Seq<char>,
    pub request: RequestView,
    pub stage: StageView,
}

impl View for RenderJob {
    type V = JobView;

    open spec fn view(&self) -> JobView {
        JobView { callback: self.callback@, renderer: self.renderer, arguments: self.arguments@ }
    }
}

impl View for Action {
    type V = ActionView;

    open spec fn view(&self) -> ActionView {
        match self {
            Action::Fetch(query) => ActionView::Fetch(query@),
            Action::Render(job) => ActionView::Render(job@),
            Action::Send(bytes) => ActionView::Send(bytes@),
            Action::Close => ActionView::Close,
        }
    }
}

impl View for Event {
    type V = EventView;

    open spec fn view(&self) -> EventView {
        match self {
            Event::Row(Ok(row)) => EventView::Row(Some(row@)),
            Event::Row(Err(_)) => EventView::Row(None),
            Event::Content(Ok(output)) => EventView::Content(Some(output@)),
            Event::Content(Err(_)) => EventView::Content(None),
        }
    }
}

impl View for Stage {
    type V = StageView;

    closed spec fn view(&self) -> StageView {
        match self {
            Stage::Route => StageView::Route,
            Stage::Session(route) => StageView::Session(route@),
            Stage::Page(route) => StageView::Page(route@),
            Stage::ErrorRow(code) => StageView::ErrorRow(code@),
            Stage::ErrorPage(response, callback) => StageView::ErrorPage(response@, callback@),
            Stage::Done => StageView::Done,
        }
    }
}

impl View for Exchange {
    type V = ExchangeView;

    closed spec fn view(&self) -> ExchangeView {
        ExchangeView {
            filepath: self.database.filepath@,
            request: self.request@,
            stage: self.stage@,
        }
    }
}

/// The request that stands in for one that could not be parsed.
pub open spec fn no_request() -> RequestView {
    RequestView {
        method: Seq::empty(),
        path: Seq::empty(),
        query: Seq::empty(),
        version: Seq::empty(),
        headers: Seq::empty(),
        cookies: Seq::empty(),
        body: Seq::empty(),
    }
}

/// The body of the response that reports a failure of the server itself.
pub open spec fn failure_body() -> Seq<char> {
    "{\n    \"status\":\"error\",\n    \"status_code\":\"500\",\n    \"message\":\"internal server error\",\n    \"result\":[\"There was an internal server error, if the issue persists please contact support.\"]\n}"@
}

/// The bytes of the response that reports a failure of the server itself. It
/// is fixed: no store and no callback target has a part in it.
pub open spec fn failure() -> Seq<u8> {
    sent(
        ResponseView {
            code: 500,
            message: "INTERNAL SERVER ERROR"@,
            headers: Seq::empty(),
            contents: encode_utf8(failure_body()),
        },
    )
}

/// `exchange` at another stage.
pub open spec fn at(exchange: ExchangeView, stage: StageView) -> ExchangeView {
    ExchangeView { filepath: exchange.filepath, request: exchange.request, stage }
}

/// The order to render `callback` for `request`.
pub open spec fn render_job(callback: Seq<char>, request: RequestView) -> JobView {
    JobView { callback, renderer: renderer_for(callback), arguments: json_text(request) }
}

/// The exchange ends with the fixed failure response.
pub open spec fn fail(exchange: ExchangeView) -> (ExchangeView, ActionView) {
    (at(exchange, StageView::Done), ActionView::Send(failure()))
}

/// The exchange goes on to report the error `code`: it asks for the row of
/// the error in the catalog.
pub open spec fn report(exchange: ExchangeView, code: CodeView) -> (ExchangeView, ActionView) {
    match error_query(exchange.filepath, code) {
        Some(query) => (at(exchange, StageView::ErrorRow(code)), ActionView::Fetch(query)),
        None => fail(exchange),
    }
}

/// The exchange goes on to serve `route`: it asks for the content of the
/// route's callback target.
pub open spec fn serve(exchange: ExchangeView, route: RouteView) -> (ExchangeView, ActionView) {
    (
        at(exchange, StageView::Page(route)),
        ActionView::Render(render_job(route.callback, exchange.request)),
    )
}

/// The exchange goes on with the final answer of the resolver.
pub open spec fn conclude(exchange: ExchangeView, code: CodeView) -> (ExchangeView, ActionView) {
    match code {
        CodeView::Ok200(route) => serve(exchange, route),
        _ => report(exchange, code),
    }
}

/// The exchange goes on after the route matched: a route with a level above
/// zero asks for the user of the session first.
pub open spec fn admit_route(exchange: ExchangeView, route: RouteView) -> (ExchangeView, ActionView) {
    if route.auth_level > 0 {
        match session_of(exchange.request) {
            Some(session) => (
                at(exchange, StageView::Session(route)),
                ActionView::Fetch(session_query(exchange.filepath, session)),
            ),
            None => report(exchange, CodeView::Err401),
        }
    } else {
        serve(exchange, route)
    }
}

/// How an exchange begins: a parsed request asks for the row of its route,
/// a request that could not be parsed is reported as a bad request, and for
/// an empty request there is nothing to do.
pub open spec fn start(filepath: Seq<char>, parsed: ParsedView) -> (ExchangeView, ActionView) {
    match parsed {
        ParsedView::Parsed(request) => (
            ExchangeView { filepath, request, stage: StageView::Route },
            ActionView::Fetch(route_query(filepath, request)),
        ),
        ParsedView::Empty => (
            ExchangeView { filepath, request: no_request(), stage: StageView::Done },
            ActionView::Close,
        ),
        ParsedView::BadRequest => report(
            ExchangeView { filepath, request: no_request(), stage: StageView::Done },
            CodeView::Err400,
        ),
    }
}

/// How an exchange goes on when `event` comes in at the time `now`. A failure
/// of the store or of a rendering, a malformed row, and an event that does
/// not answer what was asked for all end in the fixed failure response.
pub open spec fn step(exchange: ExchangeView, event: EventView, now: u64) -> (
    ExchangeView,
    ActionView,
) {
    match (exchange.stage, event) {
        (StageView::Route, EventView::Row(Some(row))) => match match_route(exchange.request, row) {
            ServerStatus::Success(CodeView::Ok200(route)) => admit_route(exchange, route),
            ServerStatus::Success(code) => report(exchange, code),
            ServerStatus::InternalError => fail(exchange),
        },
        (StageView::Session(route), EventView::Row(Some(row))) => match session_auth(
            exchange.request,
            row,
            now,
        ) {
            ServerStatus::Success(auth) => conclude(exchange, authorized(route, auth)),
            ServerStatus::InternalError => fail(exchange),
        },
        (StageView::Page(route), EventView::Content(Some(output))) => match route_response(
            route.callback,
            Some(output),
        ) {
            ServerStatus::Success(response) => (
                at(exchange, StageView::Done),
                ActionView::Send(sent(response)),
            ),
            ServerStatus::InternalError => fail(exchange),
        },
        (StageView::ErrorRow(code), EventView::Row(Some(row))) => match error_page(code, row) {
            ServerStatus::Success(Some((response, callback))) => (
                at(exchange, StageView::ErrorPage(response, callback)),
                ActionView::Render(render_job(callback, exchange.request)),
            ),
            _ => fail(exchange),
        },
        (StageView::ErrorPage(response, callback), EventView::Content(Some(output))) => (
            at(exchange, StageView::Done),
            ActionView::Send(sent(rendered(response, callback, output))),
        ),
        (StageView::Done, _) => (exchange, ActionView::Close),
        _ => fail(exchange),
    }
}

/// When the store has no route for a request, the exchange goes on to the
/// error page for 404.
pub proof fn lemma_unknown_route_is_reported(exchange: ExchangeView, now: u64)
    requires
        exchange.stage is Route,
    ensures
        step(exchange, EventView::Row(Some(Map::<Seq<char>, Seq<char>>::empty())), now) == (
            at(exchange, StageView::ErrorRow(CodeView::Err404)),
            ActionView::Fetch(
                QueryView {
                    filepath: exchange.filepath,
                    table: "errors"@,
                    key_column: "name"@,
                    key: "err404"@,
                },
            ),
        ),
{
}

/// When a request without a session cookie meets a route with a level above
/// zero, the exchange goes on to the error page for 401 at once: the next
/// lookup is in the error catalog, and no user is looked up.
pub proof fn lemma_no_session_no_lookup(
    exchange: ExchangeView,
    row: Map<Seq<char>, Seq<char>>,
    now: u64,
)
    requires
        exchange.stage is Route,
        crate::resolver::route_of(row) matches Some(route) && route.auth_level > 0
            && crate::resolver::has_all(
            crate::string_map::map_of(exchange.request.query),
            route.params,
        ),
        session_of(exchange.request) is None,
    ensures
        step(exchange, EventView::Row(Some(row)), now) == (
            at(exchange, StageView::ErrorRow(CodeView::Err401)),
            ActionView::Fetch(
                QueryView {
                    filepath: exchange.filepath,
                    table: "errors"@,
                    key_column: "name"@,
                    key: "err401"@,
                },
            ),
        ),
{
    crate::resolver::lemma_session_cookie_required(exchange.request, row);
}

/// When a request lacks a parameter that its route asks for, the exchange
/// goes on to the error page for 400, whatever the level of the route and
/// whether or not the request has a session.
pub proof fn lemma_missing_parameter_is_reported(
    exchange: ExchangeView,
    row: Map<Seq<char>, Seq<char>>,
    now: u64,
)
    requires
        exchange.stage is Route,
        crate::resolver::route_of(row) matches Some(route) && !crate::resolver::has_all(
            crate::string_map::map_of(exchange.request.query),
            route.params,
        ),
    ensures
        step(exchange, EventView::Row(Some(row)), now) == (
            at(exchange, StageView::ErrorRow(CodeView::Err400)),
            ActionView::Fetch(
                QueryView {
                    filepath: exchange.filepath,
                    table: "errors"@,
                    key_column: "name"@,
                    key: "err400"@,
                },
            ),
        ),
{
    crate::resolver::lemma_missing_parameter(exchange.request, row);
}

/// A failure of the store or of a rendering ends the exchange with the fixed
/// failure response, at whatever stage it comes.
pub proof fn lemma_failures_end_in_failure(exchange: ExchangeView, now: u64)
    requires
        !(exchange.stage is Done),
    ensures
        step(exchange, EventView::Row(None), now) == fail(exchange),
        step(exchange, EventView::Content(None), now) == fail(exchange),
{
}

/// An exchange that is done stays as it is and says to close, whatever comes
/// in.
pub proof fn lemma_done_stays_done(exchange: ExchangeView, event: EventView, now: u64)
    requires
        exchange.stage is Done,
    ensures
        step(exchange, event, now) == (exchange, ActionView::Close),
{
}

/// How many more events an exchange at `stage` can take in at most.
pub open spec fn steps_left(stage: StageView) -> nat {
    match stage {
        StageView::Route => 4,
        StageView::Session(route) => 3,
        StageView::ErrorRow(code) => 2,
        StageView::Page(route) => 1,
        StageView::ErrorPage(response, callback) => 1,
        StageView::Done => 0,
    }
}

/// Every event brings an exchange nearer to its end: nothing is tried a
/// second time, and after four events at most the exchange is done. It is
/// done exactly when it says to send or to close.
pub proof fn lemma_progress(exchange: ExchangeView, event: EventView, now: u64)
    ensures
        !(exchange.stage is Done) ==> steps_left(step(exchange, event, now).0.stage) < steps_left(
            exchange.stage,
        ),
        step(exchange, event, now).0.stage is Done <==> (step(exchange, event, now).1 is Send
            || step(exchange, event, now).1 is Close),
        step(exchange, event, now).0.filepath == exchange.filepath,
        step(exchange, event, now).0.request == exchange.request,
{
}

/// The bytes of the fixed failure response; see [`failure`].
pub fn failure_response() -> (bytes: Vec<u8>)
    ensures
        bytes@ == failure(),
{
    let mut response = HTTPResponse::new(500, "INTERNAL SERVER ERROR".to_owned());
    response.contents =
    "{\n    \"status\":\"error\",\n    \"status_code\":\"500\",\n    \"message\":\"internal server error\",\n    \"result\":[\"There was an internal server error, if the issue persists please contact support.\"]\n}".as_bytes_vec();
    response.prepare_response()
}

impl Exchange {
    /// Ends with the fixed failure response.
    fn fail(database: Database, request: IncomingRequest) -> (r: (Exchange, Action))
        ensures
            (r.0@, r.1@) == fail(
                ExchangeView {
                    filepath: database.filepath@,
                    request: request@,
                    stage: StageView::Done,
                },
            ),
    {
        (Exchange { database, request, stage: Stage::Done }, Action::Send(failure_response()))
    }

    /// Goes on to report an error.
    fn report(database: Database, request: IncomingRequest, code: HTTPCode) -> (r: (
        Exchange,
        Action,
    ))
        ensures
            (r.0@, r.1@) == report(
                ExchangeView {
                    filepath: database.filepath@,
                    request: request@,
                    stage: StageView::Done,
                },
                code@,
            ),
    {
        match database.error_lookup(&code) {
            Some(query) => (
                Exchange { database, request, stage: Stage::ErrorRow(code) },
                Action::Fetch(query),
            ),
            None => Exchange::fail(database, request),
        }
    }

    /// Goes on to serve a route.
    fn serve(database: Database, request: IncomingRequest, route: MatchedRequest) -> (r: (
        Exchange,
        Action,
    ))
        ensures
            (r.0@, r.1@) == serve(
                ExchangeView {
                    filepath: database.filepath@,
                    request: request@,
                    stage: StageView::Done,
                },
                route@,
            ),
    {
        let job = RenderJob {
            callback: route.callback.clone(),
            renderer: Renderer::of(route.callback.as_str()),
            arguments: request.as_json(),
        };
        (Exchange { database, request, stage: Stage::Page(route) }, Action::Render(job))
    }

    /// Goes on with the final answer of the resolver.
    fn conclude(database: Database, request: IncomingRequest, code: HTTPCode) -> (r: (
        Exchange,
        Action,
    ))
        ensures
            (r.0@, r.1@) == conclude(
                ExchangeView {
                    filepath: database.filepath@,
                    request: request@,
                    stage: StageView::Done,
                },
                code@,
            ),
    {
        match code {
            HTTPCode::Ok200(route) => Exchange::serve(database, request, route),
            code => Exchange::report(database, request, code),
        }
    }

    /// Begins the handling of a request by the routes in `database`; see
    /// [`start`].
    pub fn begin(database: Database, parsed: ParsedRequest) -> (r: (Exchange, Action))
        ensures
            (r.0@, r.1@) == start(database.filepath@, parsed@),
    {
        match parsed {
            ParsedRequest::Parsed(request) => {
                let request = *request;
                let query = database.route_lookup(&request);
                (Exchange { database, request, stage: Stage::Route }, Action::Fetch(query))
            },
            ParsedRequest::Empty => (
                Exchange { database, request: IncomingRequest::new(), stage: Stage::Done },
                Action::Close,
            ),
            ParsedRequest::BadRequest => Exchange::report(
                database,
                IncomingRequest::new(),
                HTTPCode::Err400,
            ),
        }
    }

    /// Whether nothing is left to do.
    pub fn is_done(&self) -> (done: bool)
        ensures
            done == (self@.stage is Done),
    {
        match self.stage {
            Stage::Done => true,
            _ => false,
        }
    }

    /// Takes in the outcome of the last action, at the time `now` in seconds
    /// since the epoch, and says what to do next; see [`step`].
    pub fn advance(self, event: Event, now: u64) -> (r: (Exchange, Action))
        ensures
            (r.0@, r.1@) == step(self@, event@, now),
    {
        let Exchange { database, request, stage } = self;
        match (stage, event) {
            (Stage::Route, Event::Row(Ok(row))) => match database.match_request(&request, &row) {
                ServerStatus::Success(HTTPCode::Ok200(route)) => {
                    if route.auth_level > 0 {
                        match database.session_lookup(&request) {
                            Some(query) => (
                                Exchange { database, request, stage: Stage::Session(route) },
                                Action::Fetch(query),
                            ),
                            None => Exchange::report(database, request, HTTPCode::Err401),
                        }
                    } else {
                        Exchange::serve(database, request, route)
                    }
                },
                ServerStatus::Success(code) => Exchange::report(database, request, code),
                ServerStatus::InternalError => Exchange::fail(database, request),
            },
            (Stage::Session(route), Event::Row(Ok(row))) => match database.auth_user(
                &request,
                &row,
                now,
            ) {
                ServerStatus::Success(auth) => {
                    let code = route.authorize(auth);
                    Exchange::conclude(database, request, code)
                },
                ServerStatus::InternalError => Exchange::fail(database, request),
            },
            (Stage::Page(route), Event::Content(Ok(output))) => {
                match HTTPResponse::from_matched_request(route, Ok(output)) {
                    ServerStatus::Success(mut response) => {
                        let bytes = response.prepare_response();
                        (Exchange { database, request, stage: Stage::Done }, Action::Send(bytes))
                    },
                    ServerStatus::InternalError => Exchange::fail(database, request),
                }
            },
            (Stage::ErrorRow(code), Event::Row(Ok(row))) => match database.get_error(&code, &row) {
                ServerStatus::Success(Some(page)) => {
                    let job = RenderJob {
                        callback: page.callback.clone(),
                        renderer: Renderer::of(page.callback.as_str()),
                        arguments: request.as_json(),
                    };
                    (
                        Exchange {
                            database,
                            request,
                            stage: Stage::ErrorPage(page.response, page.callback),
                        },
                        Action::Render(job),
                    )
                },
                _ => Exchange::fail(database, request),
            },
            (Stage::ErrorPage(response, callback), Event::Content(Ok(output))) => {
                let mut response = response;
                response.load_contents(callback.as_str(), output);
                let bytes = response.prepare_response();
                (Exchange { database, request, stage: Stage::Done }, Action::Send(bytes))
            },
            (Stage::Done, _) => (Exchange { database, request, stage: Stage::Done }, Action::Close),
            _ => Exchange::fail(database, request),
        }
    }
}

} // verus!
