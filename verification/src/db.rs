//! The SQLite mirror: a thin trusted boundary around rusqlite.
//!
//! The in-memory tables of [`crate::db_manager::DatabaseManager`] are the
//! verified model of the store; every mutation is also sent here so that the
//! database file stays the durable copy and so that the full-text shadow
//! tables can answer match queries. Nothing read back from the mirror is
//! trusted: rows returned by [`Db::query`] are plain values that verified
//! code re-validates against the model.

use vstd::prelude::*;

use crate::error::Error;

verus! {

#[verifier::external_type_specification]
#[verifier::external_body]
pub struct ExConnection(rusqlite::Connection);

/// Relies on the store error's Display form: carries its message into
/// the library's error type.
#[verifier::external_body]
fn db_err<E: std::fmt::Display>(e: E) -> Error {
    Error::Database(format!("{}", e))
}

/// A SQL parameter or column value, restricted to what the schema stores:
/// NULL, 64-bit integers and text.
#[derive(Debug)]
pub enum SqlValue {
    Null,
    Integer(i64),
    Text(String),
}

/// One open connection to the backing SQLite file (or to a transient
/// in-memory database).
pub struct Db {
    conn: rusqlite::Connection,
}

impl Db {
    /// Relies on rusqlite::Connection::open: opens or creates the database
    /// file at `path`. A failure is returned as `Database`: every error
    /// path of the body goes through `db_err`.
    #[verifier::external_body]
    pub fn open(path: &String) -> (r: Result<Db, Error>)
        ensures
            r is Err ==> (r matches Err(Error::Database(_))),
    {
        match rusqlite::Connection::open(path.as_str()) {
            Ok(conn) => Ok(Db { conn }),
            Err(e) => Err(db_err(e)),
        }
    }

    /// Relies on rusqlite::Connection::open_in_memory: a transient store
    /// that vanishes with the connection. A failure is returned as
    /// `Database`.
    #[verifier::external_body]
    pub fn open_in_memory() -> (r: Result<Db, Error>)
        ensures
            r is Err ==> (r matches Err(Error::Database(_))),
    {
        match rusqlite::Connection::open_in_memory() {
            Ok(conn) => Ok(Db { conn }),
            Err(e) => Err(db_err(e)),
        }
    }

    /// Relies on rusqlite::Connection::execute: runs one SQL statement with
    /// the given parameters bound, returning how many rows it changed. A
    /// failure is returned as `Database`: every error path of the body
    /// goes through `db_err`.
    #[verifier::external_body]
    pub fn exec(&mut self, sql: &str, params: &Vec<SqlValue>) -> (r: Result<usize, Error>)
        ensures
            r is Err ==> (r matches Err(Error::Database(_))),
    {
        let ps = rusqlite::params_from_iter(params.iter().map(to_sql));
        match self.conn.execute(sql, ps) {
            Ok(n) => Ok(n),
            Err(e) => Err(db_err(e)),
        }
    }

    /// Relies on rusqlite::Connection::prepare and Statement::query: runs
    /// the SQL with the given text parameters bound and hands back every
    /// row's columns. What comes back depends on the database file, so
    /// nothing is promised of the rows; a failure is returned as
    /// `Database`.
    #[verifier::external_body]
    pub fn query(&mut self, sql: &str, params: &Vec<String>) -> (r: Result<
        Vec<Vec<SqlValue>>,
        Error,
    >)
        ensures
            r is Err ==> (r matches Err(Error::Database(_))),
    {
        let mut stmt = self.conn.prepare(sql).map_err(db_err)?;
        let ncols = stmt.column_count();
        let ps = rusqlite::params_from_iter(params.iter().map(|s| s.as_str()));
        let mut rows = stmt.query(ps).map_err(db_err)?;
        let mut out: Vec<Vec<SqlValue>> = Vec::new();
        while let Some(row) = rows.next().map_err(db_err)? {
            let mut rec: Vec<SqlValue> = Vec::new();
            for i in 0..ncols {
                rec.push(from_sql(row.get(i).map_err(db_err)?));
            }
            out.push(rec);
        }
        Ok(out)
    }
}

/// Relies on rusqlite::types::Value: builds the bound form of one parameter,
/// variant for variant.
#[verifier::external_body]
fn to_sql(v: &SqlValue) -> rusqlite::types::Value {
    match v {
        SqlValue::Null => rusqlite::types::Value::Null,
        SqlValue::Integer(i) => rusqlite::types::Value::Integer(*i),
        SqlValue::Text(s) => rusqlite::types::Value::Text(s.clone()),
    }
}

/// Relies on rusqlite::types::Value: maps each column value to a plain
/// variant, arm for arm. The schema stores only integers and text, so the
/// real and blob forms carry nothing this library reads and land on NULL.
#[verifier::external_body]
fn from_sql(v: rusqlite::types::Value) -> SqlValue {
    match v {
        rusqlite::types::Value::Null => SqlValue::Null,
        rusqlite::types::Value::Integer(n) => SqlValue::Integer(n),
        rusqlite::types::Value::Text(s) => SqlValue::Text(s),
        rusqlite::types::Value::Real(_) => SqlValue::Null,
        rusqlite::types::Value::Blob(_) => SqlValue::Null,
    }
}

#[verifier::external_type_specification]
#[verifier::external_body]
pub struct ExSqliteValue(rusqlite::types::Value);

} // verus!
