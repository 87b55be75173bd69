//! The pure parts of the test harness.
//!
//! An integration-test run provisions a database of its own: it derives a
//! unique name from a fresh identifier and issues an administrative create
//! statement, then the schema, against the store. Deriving the name and
//! the statements is verified logic; connecting and executing them is I/O
//! a caller performs. A run's database is deliberately left behind when
//! the run ends — an accepted trade for harness simplicity.

use vstd::prelude::*;

use vstd::string::StringExecFns;

use crate::uid::{hyphenated_chars, hyphenated_string};

verus! {

/// The name of the database a test run works in: the hyphenated rendering
/// of the run's identifier. Distinct identifiers give distinct names (see
/// [`crate::uid::lemma_distinct_ids_distinct_names`]), so concurrent runs
/// never observe each other's rows.
pub fn database_name(run_id: u128) -> (r: String)
    ensures
        r@ == hyphenated_chars(run_id),
{
    hyphenated_string(run_id)
}

/// The administrative statement that creates a run's database, with the
/// name in double quotes.
pub open spec fn create_database_statement_chars(name: Seq<char>) -> Seq<char> {
    "create database \""@ + name + "\";"@
}

/// Builds the administrative create-database statement for a name.
pub fn create_database_statement(name: &str) -> (r: String)
    ensures
        r@ == create_database_statement_chars(name@),
{
    let mut s = String::from_str("create database \"");
    s.append(name);
    s.append("\";");
    s
}

/// The schema migration the harness applies to a fresh database: the one
/// table this service writes, each column not null, the identifier the
/// primary key.
pub fn migration_statement() -> (r: String)
    ensures
        r@
            == "create table subscriptions (id uuid primary key, email text not null, name text not null, subscribed_at timestamptz not null);"@,
{
    String::from_str(
        "create table subscriptions (id uuid primary key, email text not null, name text not null, subscribed_at timestamptz not null);",
    )
}

} // verus!
