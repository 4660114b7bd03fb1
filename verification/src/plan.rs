//! The requests that change the catalog.

use std::collections::HashMap;
use vstd::prelude::*;
use crate::schema::DataSchema;

verus! {

/// A request to create a database.
#[derive(Debug, PartialEq, Eq)]
pub struct CreateDatabasePlan {
    /// Whether a database of that name that exists already is to be left as it
    /// is, without an error.
    pub if_not_exists: bool,
    /// The name of the database.
    pub db: String,
    pub engine: String,
    pub options: HashMap<String, String>,
}

impl Clone for CreateDatabasePlan {
    fn clone(&self) -> (r: Self)
        ensures
            r.if_not_exists == self.if_not_exists,
            r.db@ == self.db@,
            r.engine@ == self.engine@,
            r.options@ == self.options@,
    {
        CreateDatabasePlan {
            if_not_exists: self.if_not_exists,
            db: self.db.clone(),
            engine: self.engine.clone(),
            options: self.options.clone(),
        }
    }
}

/// A request to drop a database.
#[derive(Debug, PartialEq, Eq)]
pub struct DropDatabasePlan {
    /// Whether the absence of the database is to be passed over without an
    /// error.
    pub if_exists: bool,
    /// The name of the database.
    pub db: String,
}

impl Clone for DropDatabasePlan {
    fn clone(&self) -> (r: Self)
        ensures
            r.if_exists == self.if_exists,
            r.db@ == self.db@,
    {
        DropDatabasePlan { if_exists: self.if_exists, db: self.db.clone() }
    }
}

/// A request to create a table in a database.
#[derive(Debug, PartialEq, Eq)]
pub struct CreateTablePlan {
    /// Whether a table of that name that exists already is to be left as it is,
    /// without an error.
    pub if_not_exists: bool,
    /// The name of the database.
    pub db: String,
    /// The name of the table.
    pub table: String,
    pub schema: DataSchema,
    pub engine: String,
    pub options: HashMap<String, String>,
}

impl Clone for CreateTablePlan {
    fn clone(&self) -> (r: Self)
        ensures
            r.if_not_exists == self.if_not_exists,
            r.db@ == self.db@,
            r.table@ == self.table@,
            r.schema@ == self.schema@,
            r.engine@ == self.engine@,
            r.options@ == self.options@,
    {
        CreateTablePlan {
            if_not_exists: self.if_not_exists,
            db: self.db.clone(),
            table: self.table.clone(),
            schema: self.schema.clone(),
            engine: self.engine.clone(),
            options: self.options.clone(),
        }
    }
}

/// A request to drop a table from a database.
#[derive(Debug, PartialEq, Eq)]
pub struct DropTablePlan {
    /// Whether the absence of the table is to be passed over without an error.
    pub if_exists: bool,
    /// The name of the database.
    pub db: String,
    /// The name of the table.
    pub table: String,
}

impl Clone for DropTablePlan {
    fn clone(&self) -> (r: Self)
        ensures
            r.if_exists == self.if_exists,
            r.db@ == self.db@,
            r.table@ == self.table@,
    {
        DropTablePlan { if_exists: self.if_exists, db: self.db.clone(), table: self.table.clone() }
    }
}

} // verus!
