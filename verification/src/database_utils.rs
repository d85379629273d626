//! The route store as the pipeline addresses it: which database, which row,
//! and the statements that fetch and insert rows.

use crate::string_map::StringMap;
use vstd::prelude::*;
use vstd::string::StringExecFns;

verus! {

/// The statement that selects the rows of `table` whose `key_column` equals
/// the statement's one parameter.
pub open spec fn select_text(table: Seq<char>, key_column: Seq<char>) -> Seq<char> {
    "SELECT * FROM "@ + table + " WHERE "@ + key_column + " = ?"@
}

/// The names of the columns of `entries`, with a comma and a space between
/// two of them.
pub open spec fn column_list(entries: Seq<(Seq<char>, Seq<char>)>) -> Seq<char>
    decreases entries.len(),
{
    if entries.len() == 0 {
        Seq::empty()
    } else if entries.len() == 1 {
        entries[0].0
    } else {
        column_list(entries.drop_last()) + ", "@ + entries.last().0
    }
}

/// `count` parameter marks with a comma and a space between two of them; one
/// mark for a count of zero.
pub open spec fn parameter_marks(count: nat) -> Seq<char>
    decreases count,
{
    if count <= 1 {
        "?"@
    } else {
        parameter_marks((count - 1) as nat) + ", ?"@
    }
}

/// The statement that inserts one row into `table`, with one parameter for
/// each entry, in the order of the entries. Without entries the text is no
/// statement that a database accepts.
pub open spec fn insert_text(table: Seq<char>, entries: Seq<(Seq<char>, Seq<char>)>) -> Seq<
    char,
> {
    if entries.len() == 0 {
        "INSERT INTO "@ + table + ") VALUES ("@ + parameter_marks(0) + ")"@
    } else {
        "INSERT INTO "@ + table + " ("@ + column_list(entries) + ") VALUES ("@ + parameter_marks(
            entries.len(),
        ) + ")"@
    }
}

/// The database file that holds the routes, the users and the error pages.
#[derive(Debug)]
pub struct Database {
    pub filepath: String,
}

/// One lookup in the store: the row of `table`, in the database at
/// `filepath`, whose `key_column` equals `key`.
#[derive(Debug)]
pub struct RowQuery {
    pub filepath: String,
    pub table: String,
    pub key_column: String,
    pub key: String,
}

/// A lookup as plain values.
pub struct QueryView {
    pub filepath: Seq<char>,
    pub table: Seq<char>,
    pub key_column: Seq<char>,
    pub key: Seq<char>,
}

impl View for RowQuery {
    type V = QueryView;

    open spec fn view(&self) -> QueryView {
        QueryView {
            filepath: self.filepath@,
            table: self.table@,
            key_column: self.key_column@,
            key: self.key@,
        }
    }
}

impl RowQuery {
    /// The statement of this lookup; its one parameter is the key.
    pub fn statement(&self) -> (sql: String)
        ensures
            sql@ == select_text(self.table@, self.key_column@),
    {
        select_statement(self.table.as_str(), self.key_column.as_str())
    }
}

impl Database {
    /// The database in the file at `filepath`.
    pub fn new(filepath: &str) -> (database: Database)
        ensures
            database.filepath@ == filepath@,
    {
        Database { filepath: filepath.to_owned() }
    }

    /// The lookup of the row of `table` whose `key_column` equals `key`.
    pub fn lookup(&self, table: &str, key_column: &str, key: &str) -> (query: RowQuery)
        ensures
            query@ == (QueryView {
                filepath: self.filepath@,
                table: table@,
                key_column: key_column@,
                key: key@,
            }),
    {
        RowQuery {
            filepath: self.filepath.clone(),
            table: table.to_owned(),
            key_column: key_column.to_owned(),
            key: key.to_owned(),
        }
    }
}

/// The text of the statement that fetches a row by its key; see
/// [`select_text`].
pub fn select_statement(table: &str, key_column: &str) -> (sql: String)
    ensures
        sql@ == select_text(table@, key_column@),
{
    let mut sql = "SELECT * FROM ".to_owned();
    sql.append(table);
    sql.append(" WHERE ");
    sql.append(key_column);
    sql.append(" = ?");
    sql
}

/// The text of the statement that inserts `values` as one row of `table`;
/// see [`insert_text`]. The parameters are the values, in their order.
pub fn insert_statement(table: &str, values: &StringMap) -> (sql: String)
    ensures
        sql@ == insert_text(table@, values.entries()),
{
    let ghost entries = values.entries();
    let n = values.len();
    let mut sql = "INSERT INTO ".to_owned();
    sql.append(table);
    let ghost start = sql@;
    if n > 0 {
        sql.append(" (");
    }
    let mut i: usize = 0;
    loop
        invariant
            i <= entries.len() == n,
            entries == values.entries(),
            start == "INSERT INTO "@ + table@,
            n == 0 ==> sql@ == start,
            n > 0 && i == 0 ==> sql@ == start + " ("@,
            i > 0 ==> sql@ == start + " ("@ + column_list(entries.take(i as int)),
        ensures
            i == entries.len(),
        decreases entries.len() - i,
    {
        match values.entry(i) {
            None => {
                break ;
            },
            Some((column, value)) => {
                proof {
                    let taken = entries.take(i + 1);
                    assert(taken.drop_last() =~= entries.take(i as int));
                    assert(taken.last() == entries[i as int]);
                    assert(taken[0] == entries[0]);
                }
                if i > 0 {
                    sql.append(", ");
                }
                sql.append(column.as_str());
                proof {
                    if i == 0 {
                        assert(sql@ =~= start + " ("@ + column_list(entries.take(1)));
                    } else {
                        assert(sql@ =~= start + " ("@ + column_list(entries.take(i + 1)));
                    }
                }
                i += 1;
            },
        }
    }
    assert(entries.take(i as int) =~= entries);
    let ghost listed = sql@;
    sql.append(") VALUES (?");
    let mut k: usize = 1;
    proof {
        reveal_strlit(") VALUES (?");
        reveal_strlit(") VALUES (");
        reveal_strlit("?");
        assert(") VALUES (?"@ =~= ") VALUES ("@ + "?"@);
        assert(sql@ =~= listed + ") VALUES ("@ + parameter_marks(1));
        assert(parameter_marks(0) == parameter_marks(1));
    }
    while k < n
        invariant
            1 <= k,
            k <= n || (n == 0 && k == 1),
            n == entries.len(),
            start == "INSERT INTO "@ + table@,
            n == 0 ==> listed == start,
            n > 0 ==> listed == start + " ("@ + column_list(entries),
            sql@ == listed + ") VALUES ("@ + parameter_marks(k as nat),
        decreases n - k,
    {
        sql.append(", ?");
        assert(sql@ =~= listed + ") VALUES ("@ + parameter_marks((k + 1) as nat));
        k += 1;
    }
    sql.append(")");
    assert(parameter_marks(0) == parameter_marks(1));
    assert(sql@ =~= insert_text(table@, entries));
    sql
}

} // verus!
