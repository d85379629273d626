use webserver::database_utils::Database;
use webserver::request::{IncomingRequest, ParsedRequest};
use webserver::resolver::{HTTPCode, MatchedRequest, ServerStatus, UserAuth};
use webserver::string_map::StringMap;

fn request(input: &str) -> IncomingRequest {
    match IncomingRequest::parse_request(input.as_bytes()) {
        ParsedRequest::Parsed(request) => *request,
        other => panic!("not parsed: {:?}", other),
    }
}

fn row(pairs: &[(&str, &str)]) -> StringMap {
    let mut m = StringMap::new();
    for (k, v) in pairs {
        m.insert(k.to_string(), v.to_string());
    }
    m
}

fn route(level: &str, params: &str) -> StringMap {
    row(&[("path", "/index"), ("callback", "data/index.html"), ("auth_level", level), ("params", params)])
}

fn db() -> Database {
    Database::new("database.db")
}

fn matched(status: ServerStatus<HTTPCode>) -> MatchedRequest {
    match status {
        ServerStatus::Success(HTTPCode::Ok200(route)) => route,
        other => panic!("no route: {:?}", other),
    }
}

#[test]
fn the_route_lookup_names_the_table_of_the_method() {
    let query = db().route_lookup(&request("GET /index?x=1 HTTP/1.1\r\n\r\n"));
    assert_eq!(query.filepath, "database.db");
    assert_eq!(query.table, "requests_get");
    assert_eq!(query.key_column, "path");
    assert_eq!(query.key, "/index");
    let post = db().route_lookup(&request("Post /a HTTP/1.1\r\n\r\n"));
    assert_eq!(post.table, "requests_post");
    assert_eq!(query.statement(), "SELECT * FROM requests_get WHERE path = ?");
}

#[test]
fn no_row_is_not_found() {
    let status = db().match_request(&request("GET /nowhere HTTP/1.1\r\n\r\n"), &StringMap::new());
    assert!(matches!(status, ServerStatus::Success(HTTPCode::Err404)));
}

#[test]
fn a_public_route_matches() {
    let found = matched(db().match_request(&request("GET /index HTTP/1.1\r\n\r\n"), &route("0", "")));
    assert_eq!(found.path, "/index");
    assert_eq!(found.callback, "data/index.html");
    assert_eq!(found.auth_level, 0);
    assert!(found.params.is_empty());
}

#[test]
fn a_row_without_one_of_its_columns_is_an_internal_error() {
    for missing in ["path", "callback", "auth_level", "params"] {
        let mut partial = StringMap::new();
        for (k, v) in [("path", "/index"), ("callback", "c"), ("auth_level", "0"), ("params", "")] {
            if k != missing {
                partial.insert(k.to_string(), v.to_string());
            }
        }
        let status = db().match_request(&request("GET /index HTTP/1.1\r\n\r\n"), &partial);
        assert!(matches!(status, ServerStatus::InternalError), "without {}", missing);
    }
}

#[test]
fn an_unreadable_level_is_the_highest_level() {
    for level in ["", "admin", "256", "-1", " 1"] {
        let incoming = request("GET /index HTTP/1.1\r\nCookie: sessionID=abc\r\n\r\n");
        let found = matched(db().match_request(&incoming, &route(level, "")));
        assert_eq!(found.auth_level, 255, "for {:?}", level);
    }
    let incoming = request("GET /index HTTP/1.1\r\nCookie: sessionID=abc\r\n\r\n");
    assert_eq!(matched(db().match_request(&incoming, &route("7", ""))).auth_level, 7);
}

#[test]
fn required_parameters_are_listed_trimmed() {
    let incoming = request("GET /index?x=1&y=2 HTTP/1.1\r\n\r\n");
    let found = matched(db().match_request(&incoming, &route("0", " x ;y")));
    assert_eq!(found.params, vec!["x".to_string(), "y".to_string()]);
}

#[test]
fn a_missing_parameter_is_a_bad_request() {
    let incoming = request("GET /index?x=1 HTTP/1.1\r\n\r\n");
    let status = db().match_request(&incoming, &route("0", "x;y"));
    assert!(matches!(status, ServerStatus::Success(HTTPCode::Err400)));
}

#[test]
fn a_missing_parameter_is_a_bad_request_even_where_the_session_is_missing() {
    let incoming = request("GET /index HTTP/1.1\r\n\r\n");
    let status = db().match_request(&incoming, &route("5", "x"));
    assert!(matches!(status, ServerStatus::Success(HTTPCode::Err400)));
}

#[test]
fn a_protected_route_without_session_cookie_is_unauthorized() {
    let incoming = request("GET /index?x=1 HTTP/1.1\r\nCookie: other=1\r\n\r\n");
    let status = db().match_request(&incoming, &route("1", "x"));
    assert!(matches!(status, ServerStatus::Success(HTTPCode::Err401)));
    assert!(db().session_lookup(&incoming).is_none());
}

#[test]
fn a_protected_route_with_session_cookie_waits_for_the_session() {
    let incoming = request("GET /index HTTP/1.1\r\nCookie: sessionID=abc\r\n\r\n");
    let found = matched(db().match_request(&incoming, &route("2", "")));
    assert_eq!(found.auth_level, 2);
    let lookup = db().session_lookup(&incoming).unwrap();
    assert_eq!(lookup.table, "users");
    assert_eq!(lookup.key_column, "sessionID");
    assert_eq!(lookup.key, "abc");
    assert_eq!(lookup.filepath, "database.db");
}

#[test]
fn an_expired_session_is_unauthorized_whatever_its_level() {
    let incoming = request("GET /index HTTP/1.1\r\nCookie: sessionID=abc\r\n\r\n");
    for level in ["2", "255", "0", "junk"] {
        let user = row(&[("sessionID", "abc"), ("auth_level", level), ("sessionExpires", "1000")]);
        for now in [1000u64, 1001, u64::MAX] {
            let auth = db().auth_user(&incoming, &user, now);
            assert!(matches!(auth, ServerStatus::Success(UserAuth::ErrAuth)));
        }
    }
}

#[test]
fn a_valid_session_gives_the_level_of_the_user() {
    let incoming = request("GET /index HTTP/1.1\r\nCookie: sessionID=abc\r\n\r\n");
    let user = row(&[("sessionID", "abc"), ("auth_level", "2"), ("sessionExpires", "1000")]);
    assert!(matches!(
        db().auth_user(&incoming, &user, 999),
        ServerStatus::Success(UserAuth::Granted(2))
    ));
}

#[test]
fn an_unreadable_user_level_is_the_lowest_level() {
    let incoming = request("GET /index HTTP/1.1\r\nCookie: sessionID=abc\r\n\r\n");
    for level in ["", "root", "300"] {
        let user = row(&[("auth_level", level), ("sessionExpires", "1000")]);
        assert!(matches!(
            db().auth_user(&incoming, &user, 0),
            ServerStatus::Success(UserAuth::Granted(0))
        ));
    }
}

#[test]
fn an_unknown_session_is_unauthorized() {
    let incoming = request("GET /index HTTP/1.1\r\nCookie: sessionID=abc\r\n\r\n");
    assert!(matches!(
        db().auth_user(&incoming, &StringMap::new(), 0),
        ServerStatus::Success(UserAuth::ErrAuth)
    ));
    let no_level = row(&[("sessionExpires", "1000")]);
    assert!(matches!(
        db().auth_user(&incoming, &no_level, 0),
        ServerStatus::Success(UserAuth::ErrAuth)
    ));
}

#[test]
fn a_request_without_session_cookie_has_no_session() {
    let incoming = request("GET /index HTTP/1.1\r\n\r\n");
    let user = row(&[("auth_level", "9"), ("sessionExpires", "1000")]);
    assert!(matches!(
        db().auth_user(&incoming, &user, 0),
        ServerStatus::Success(UserAuth::ErrAuth)
    ));
}

#[test]
fn an_unreadable_expiry_is_an_internal_error() {
    let incoming = request("GET /index HTTP/1.1\r\nCookie: sessionID=abc\r\n\r\n");
    let user = row(&[("auth_level", "2"), ("sessionExpires", "tomorrow")]);
    assert!(matches!(db().auth_user(&incoming, &user, 0), ServerStatus::InternalError));
}

#[test]
fn the_level_of_the_user_decides() {
    let incoming = request("GET /index HTTP/1.1\r\nCookie: sessionID=abc\r\n\r\n");
    let found = matched(db().match_request(&incoming, &route("2", "")));
    assert!(matches!(found.authorize(UserAuth::Granted(1)), HTTPCode::Err403));
    let found = matched(db().match_request(&incoming, &route("2", "")));
    assert!(matches!(found.authorize(UserAuth::Granted(2)), HTTPCode::Ok200(_)));
    let found = matched(db().match_request(&incoming, &route("2", "")));
    assert!(matches!(found.authorize(UserAuth::ErrAuth), HTTPCode::Err401));
}

#[test]
fn error_pages_are_looked_up_by_name() {
    for (code, name) in [
        (HTTPCode::Err400, "err400"),
        (HTTPCode::Err401, "err401"),
        (HTTPCode::Err403, "err403"),
        (HTTPCode::Err404, "err404"),
    ] {
        let lookup = db().error_lookup(&code).unwrap();
        assert_eq!(lookup.table, "errors");
        assert_eq!(lookup.key_column, "name");
        assert_eq!(lookup.key, name);
    }
    let incoming = request("GET /index HTTP/1.1\r\n\r\n");
    let found = matched(db().match_request(&incoming, &route("0", "")));
    assert!(db().error_lookup(&HTTPCode::Ok200(found)).is_none());
}

#[test]
fn the_error_page_takes_its_status_from_the_name() {
    let catalog = row(&[("name", "x"), ("response_message", "Not Found"), ("callback", "data/404.html")]);
    for (code, status) in [
        (HTTPCode::Err400, 400u32),
        (HTTPCode::Err401, 401),
        (HTTPCode::Err403, 403),
        (HTTPCode::Err404, 404),
    ] {
        match db().get_error(&code, &catalog) {
            ServerStatus::Success(Some(page)) => {
                assert_eq!(page.response.response_code, status);
                assert_eq!(page.response.response_message, "Not Found");
                assert_eq!(page.callback, "data/404.html");
                assert!(page.response.headers.is_empty());
                assert!(page.response.contents.is_empty());
            }
            other => panic!("no page: {:?}", other),
        }
    }
}

#[test]
fn a_matched_route_has_no_error_page() {
    let incoming = request("GET /index HTTP/1.1\r\n\r\n");
    let found = matched(db().match_request(&incoming, &route("0", "")));
    let catalog = row(&[("response_message", "Not Found"), ("callback", "data/404.html")]);
    assert!(matches!(
        db().get_error(&HTTPCode::Ok200(found), &catalog),
        ServerStatus::Success(None)
    ));
}

#[test]
fn a_missing_catalog_entry_is_an_internal_error() {
    assert!(matches!(
        db().get_error(&HTTPCode::Err404, &StringMap::new()),
        ServerStatus::InternalError
    ));
    let partial = row(&[("response_message", "Not Found")]);
    assert!(matches!(db().get_error(&HTTPCode::Err404, &partial), ServerStatus::InternalError));
}
