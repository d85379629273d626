use webserver::config::{log_level, parse_config, Config, LogLevel};
use webserver::database_utils::{insert_statement, select_statement, Database};
use webserver::script_runner::{script_result, Renderer};
use webserver::string_map::StringMap;

fn row(pairs: &[(&str, &str)]) -> StringMap {
    let mut m = StringMap::new();
    for (k, v) in pairs {
        m.insert(k.to_string(), v.to_string());
    }
    m
}

#[test]
fn a_database_remembers_its_file() {
    assert_eq!(Database::new("database.db").filepath, "database.db");
    assert_eq!(Database::new("").filepath, "");
}

#[test]
fn a_lookup_names_database_table_column_and_key() {
    let query = Database::new("data/routes.db").lookup("users", "username", "admin");
    assert_eq!(query.filepath, "data/routes.db");
    assert_eq!(query.table, "users");
    assert_eq!(query.key_column, "username");
    assert_eq!(query.key, "admin");
    assert_eq!(query.statement(), "SELECT * FROM users WHERE username = ?");
}

#[test]
fn the_select_statement_has_one_parameter() {
    assert_eq!(select_statement("users", "username"), "SELECT * FROM users WHERE username = ?");
    assert_eq!(select_statement("", ""), "SELECT * FROM  WHERE  = ?");
}

#[test]
fn the_insert_statement_lists_columns_and_parameters() {
    let values = row(&[
        ("username", "user1"),
        ("hash", "hash"),
        ("credits", "150"),
        ("auth_level", "1"),
        ("email", "user1@example.com"),
        ("sessionID", "1234"),
        ("sessionExpires", "1"),
    ]);
    assert_eq!(
        insert_statement("users", &values),
        "INSERT INTO users (username, hash, credits, auth_level, email, sessionID, sessionExpires) VALUES (?, ?, ?, ?, ?, ?, ?)"
    );
    assert_eq!(
        insert_statement("t", &row(&[("only", "1")])),
        "INSERT INTO t (only) VALUES (?)"
    );
    assert_eq!(
        insert_statement("t", &row(&[("a", "1"), ("b", "2")])),
        "INSERT INTO t (a, b) VALUES (?, ?)"
    );
}

#[test]
fn the_insert_statement_without_values_is_no_statement() {
    assert_eq!(insert_statement("t", &StringMap::new()), "INSERT INTO t) VALUES (?)");
}

#[test]
fn the_renderer_goes_by_the_extension() {
    assert_eq!(Renderer::of("pages/index.py"), Renderer::Python);
    assert_eq!(Renderer::of("pages/index.js"), Renderer::Javascript);
    assert_eq!(Renderer::of("pages/index.html"), Renderer::File);
    assert_eq!(Renderer::of("archive.py.txt"), Renderer::File);
    assert_eq!(Renderer::of("a.b.js"), Renderer::Javascript);
    assert_eq!(Renderer::of("pages.py/index"), Renderer::File);
    assert_eq!(Renderer::of("py"), Renderer::Python);
    assert_eq!(Renderer::of("js"), Renderer::Javascript);
    assert_eq!(Renderer::of("index.PY"), Renderer::File);
    assert_eq!(Renderer::of(""), Renderer::File);
    assert_eq!(Renderer::of("index."), Renderer::File);
}

#[test]
fn each_kind_of_script_has_its_command() {
    let words = |v: &[&str]| Some(v.iter().map(|w| w.to_string()).collect::<Vec<String>>());
    assert_eq!(
        Renderer::Python.command("pages/index.py", "{}"),
        words(&["python3", "pages/index.py", "{}"])
    );
    assert_eq!(Renderer::Javascript.command("a b.js", ""), words(&["node", "a b.js", ""]));
    assert_eq!(Renderer::File.command("index.html", "{}"), None);
}

#[test]
fn a_script_that_ended_well_gives_its_output() {
    assert_eq!(script_result(true, b"out".to_vec(), b"warning"), Ok(b"out".to_vec()));
    assert_eq!(script_result(true, Vec::new(), b""), Ok(Vec::new()));
}

#[test]
fn a_script_that_failed_gives_its_diagnostics() {
    assert_eq!(
        script_result(false, b"partial".to_vec(), b"Traceback \xff"),
        Err("Traceback \u{fffd}".to_string())
    );
}

#[test]
fn a_configuration_is_a_flat_object() {
    let text = "{\n    \"ip\": \"127.0.0.1:7878\",\n    \"database\": \"data/database.db\",\n    \"log_file\": \"server.log\",\n    \"log_level\": \"3\"\n}\n";
    let entries = parse_config(text).unwrap();
    assert_eq!(entries.get("ip"), Some(&"127.0.0.1:7878".to_string()));
    assert_eq!(entries.get("database"), Some(&"data/database.db".to_string()));
    assert_eq!(entries.get("log_file"), Some(&"server.log".to_string()));
    assert_eq!(entries.get("log_level"), Some(&"3".to_string()));
    assert_eq!(entries.len(), 4);
    let config = Config::parse(text).unwrap();
    assert_eq!(config.ip, "127.0.0.1:7878");
    assert_eq!(config.database, "data/database.db");
    assert_eq!(config.log_file, "server.log");
    assert_eq!(config.log_level, LogLevel::Debug);
}

#[test]
fn a_configuration_has_to_stand_in_braces() {
    assert!(parse_config("").is_none());
    assert!(parse_config("{").is_none());
    assert!(parse_config("}").is_none());
    assert!(parse_config("ip: here").is_none());
    assert!(parse_config(" {a: 1}").is_none());
    assert!(parse_config("{a: 1} ").is_none());
    assert!(parse_config("{}").unwrap().is_empty());
    assert!(parse_config("\"{\n}\"\n").unwrap().is_empty());
}

#[test]
fn a_configuration_needs_its_three_settings() {
    assert!(Config::parse("{ip: a, database: b}").is_none());
    assert!(Config::parse("{ip: a, log_file: c}").is_none());
    assert!(Config::parse("{database: b, log_file: c}").is_none());
    let config = Config::parse("{ip: a, database: b, log_file: c}").unwrap();
    assert_eq!(config.log_level, LogLevel::Warn);
}

#[test]
fn the_log_level_defaults_to_warnings() {
    assert_eq!(log_level(&row(&[("log_level", "0")])), LogLevel::Error);
    assert_eq!(log_level(&row(&[("log_level", "1")])), LogLevel::Warn);
    assert_eq!(log_level(&row(&[("log_level", "2")])), LogLevel::Info);
    assert_eq!(log_level(&row(&[("log_level", " 3 ")])), LogLevel::Debug);
    assert_eq!(log_level(&row(&[("log_level", "4")])), LogLevel::Warn);
    assert_eq!(log_level(&row(&[("log_level", "")])), LogLevel::Warn);
    assert_eq!(log_level(&StringMap::new()), LogLevel::Warn);
}
