//! The catalog: databases, the tables in them, and the meta-version.
//!
//! Every change of the catalog's content raises the meta-version by one; a
//! request that changes nothing leaves it as it is. Database ids and table ids
//! come from counters of their own and are never handed out twice.

use std::collections::HashMap;
use vstd::prelude::*;
use vstd::string::*;
use crate::error::{MetaError, MetaErrorView};
use crate::key_map::{strictly_sorted, KeyMap};
use crate::key_order::key_less;
use crate::plan::{CreateDatabasePlan, CreateTablePlan, DropDatabasePlan, DropTablePlan};
use crate::schema::{DataFieldView, DataSchema};

verus! {

/// What is known of a database.
#[derive(Debug, PartialEq, Eq)]
pub struct DatabaseInfo {
    pub database_id: u64,
    /// The name of the database.
    pub db: String,
    pub engine: String,
    pub options: HashMap<String, String>,
}

/// A `DatabaseInfo` as contracts see it.
pub struct DatabaseInfoView {
    pub database_id: u64,
    pub db: Seq<char>,
    pub engine: Seq<char>,
    pub options: Map<String, String>,
}

impl View for DatabaseInfo {
    type V = DatabaseInfoView;

    open spec fn view(&self) -> DatabaseInfoView {
        DatabaseInfoView {
            database_id: self.database_id,
            db: self.db@,
            engine: self.engine@,
            options: self.options@,
        }
    }
}

impl DeepView for DatabaseInfo {
    type V = DatabaseInfoView;

    open spec fn deep_view(&self) -> DatabaseInfoView {
        self@
    }
}

/// What is known of a table.
#[derive(Debug, PartialEq, Eq)]
pub struct TableInfo {
    pub table_id: u64,
    /// The name of the database that the table is in.
    pub db: String,
    /// The name of the table.
    pub name: String,
    pub schema: DataSchema,
    pub engine: String,
    pub options: HashMap<String, String>,
}

/// A `TableInfo` as contracts see it.
pub struct TableInfoView {
    pub table_id: u64,
    pub db: Seq<char>,
    pub name: Seq<char>,
    pub schema: Seq<DataFieldView>,
    pub engine: Seq<char>,
    pub options: Map<String, String>,
}

impl View for TableInfo {
    type V = TableInfoView;

    open spec fn view(&self) -> TableInfoView {
        TableInfoView {
            table_id: self.table_id,
            db: self.db@,
            name: self.name@,
            schema: self.schema@,
            engine: self.engine@,
            options: self.options@,
        }
    }
}

impl DeepView for TableInfo {
    type V = TableInfoView;

    open spec fn deep_view(&self) -> TableInfoView {
        self@
    }
}

/// What creating a database reports.
#[derive(Clone, Copy, Debug, PartialEq, Eq)]
pub struct CreateDatabaseActionResult {
    /// The id of the database: a new one, or that of the database that was
    /// there already.
    pub database_id: u64,
}

/// What asking for a database reports.
pub type GetDatabaseActionResult = DatabaseInfo;

/// What dropping a database reports.
#[derive(Clone, Copy, Debug, PartialEq, Eq)]
pub struct DropDatabaseActionResult {}

/// What creating a table reports.
#[derive(Clone, Copy, Debug, PartialEq, Eq)]
pub struct CreateTableActionResult {
    /// The id of the table: a new one, or that of the table that was there
    /// already.
    pub table_id: u64,
}

/// What asking for a table reports.
pub type GetTableActionResult = TableInfo;

/// What dropping a table reports.
#[derive(Clone, Copy, Debug, PartialEq, Eq)]
pub struct DropTableActionResult {}

/// A table as the catalog's contracts see it.
pub struct TableView {
    pub table_id: u64,
    pub schema: Seq<DataFieldView>,
    pub engine: Seq<char>,
    pub options: Map<String, String>,
}

/// A database as the catalog's contracts see it.
pub struct DatabaseView {
    pub database_id: u64,
    pub engine: Seq<char>,
    pub options: Map<String, String>,
    /// The tables of the database, by name.
    pub tables: Map<Seq<char>, TableView>,
}

/// The catalog as contracts see it.
pub struct CatalogState {
    /// The number of changes that the catalog's content has seen.
    pub meta_ver: u64,
    /// The last database id that was handed out; zero before the first.
    pub last_database_id: u64,
    /// The last table id that was handed out; zero before the first.
    pub last_table_id: u64,
    /// The databases, by name.
    pub databases: Map<Seq<char>, DatabaseView>,
}

/// The error that rejects a plan without a database name.
pub open spec fn empty_database_name_error() -> MetaErrorView {
    MetaErrorView::InvalidArgument("empty database name"@)
}

/// The error that rejects a plan without a table name.
pub open spec fn empty_table_name_error() -> MetaErrorView {
    MetaErrorView::InvalidArgument("empty table name"@)
}

impl CatalogState {
    /// The catalog before any change.
    pub open spec fn init() -> CatalogState {
        CatalogState { meta_ver: 0, last_database_id: 0, last_table_id: 0, databases: Map::empty() }
    }

    /// Whether the database `db` has a table `table`.
    pub open spec fn has_table(self, db: Seq<char>, table: Seq<char>) -> bool {
        self.databases.contains_key(db) && self.databases[db].tables.contains_key(table)
    }

    /// No name is empty; every id was handed out by its counter; no two
    /// databases share an id, and no two tables do.
    pub open spec fn wf(self) -> bool {
        &&& forall|d: Seq<char>| #[trigger]
            self.databases.contains_key(d) ==> d.len() > 0 && 1 <= self.databases[d].database_id
                <= self.last_database_id
        &&& forall|d1: Seq<char>, d2: Seq<char>|
            #![trigger self.databases[d1], self.databases[d2]]
            self.databases.contains_key(d1) && self.databases.contains_key(d2) && d1 != d2
                ==> self.databases[d1].database_id != self.databases[d2].database_id
        &&& forall|d: Seq<char>, t: Seq<char>|
            #![trigger self.databases[d].tables[t]]
            self.has_table(d, t) ==> t.len() > 0 && 1 <= self.databases[d].tables[t].table_id
                <= self.last_table_id
        &&& forall|d1: Seq<char>, t1: Seq<char>, d2: Seq<char>, t2: Seq<char>|
            #![trigger self.databases[d1].tables[t1], self.databases[d2].tables[t2]]
            self.has_table(d1, t1) && self.has_table(d2, t2) && (d1 != d2 || t1 != t2)
                ==> self.databases[d1].tables[t1].table_id != self.databases[d2].tables[t2].table_id
    }

    /// Each counter can be raised once more.
    pub open spec fn has_room(self) -> bool {
        &&& self.meta_ver < u64::MAX
        &&& self.last_database_id < u64::MAX
        &&& self.last_table_id < u64::MAX
    }

    /// What is known of the database `db`, which the catalog holds.
    pub open spec fn database_info(self, db: Seq<char>) -> DatabaseInfoView {
        DatabaseInfoView {
            database_id: self.databases[db].database_id,
            db,
            engine: self.databases[db].engine,
            options: self.databases[db].options,
        }
    }

    /// What is known of the table `table` of the database `db`, which the
    /// catalog holds.
    pub open spec fn table_info(self, db: Seq<char>, table: Seq<char>) -> TableInfoView {
        let t = self.databases[db].tables[table];
        TableInfoView {
            table_id: t.table_id,
            db,
            name: table,
            schema: t.schema,
            engine: t.engine,
            options: t.options,
        }
    }

    /// Creating a database: the catalog after it, and the database's id or the
    /// error.
    ///
    /// A plan without a name is rejected. If the name is taken, the plan's
    /// `if_not_exists` decides between the id of the database that is there and
    /// the error `AlreadyExists`; the catalog stays as it is either way. Else
    /// the database gets the next id, and the meta-version goes up by one.
    pub open spec fn create_database(
        self,
        db: Seq<char>,
        if_not_exists: bool,
        engine: Seq<char>,
        options: Map<String, String>,
    ) -> (CatalogState, Result<u64, MetaErrorView>) {
        if db.len() == 0 {
            (self, Err(empty_database_name_error()))
        } else if self.databases.contains_key(db) {
            if if_not_exists {
                (self, Ok(self.databases[db].database_id))
            } else {
                (self, Err(MetaErrorView::AlreadyExists(db)))
            }
        } else {
            let id = (self.last_database_id + 1) as u64;
            let created = DatabaseView { database_id: id, engine, options, tables: Map::empty() };
            (
                CatalogState {
                    meta_ver: (self.meta_ver + 1) as u64,
                    last_database_id: id,
                    databases: self.databases.insert(db, created),
                    ..self
                },
                Ok(id),
            )
        }
    }

    /// Asking for a database: what is known of it, or the error
    /// `UnknownDatabase`.
    pub open spec fn get_database(self, db: Seq<char>) -> Result<DatabaseInfoView, MetaErrorView> {
        if self.databases.contains_key(db) {
            Ok(self.database_info(db))
        } else {
            Err(MetaErrorView::UnknownDatabase(db))
        }
    }

    /// Dropping a database: the catalog after it, and the error if there is
    /// one.
    ///
    /// A plan without a name is rejected. If there is no such database, the
    /// plan's `if_exists` decides between doing nothing and the error
    /// `UnknownDatabase`. Else the database goes, its tables with it, and the
    /// meta-version goes up by one.
    pub open spec fn drop_database(self, db: Seq<char>, if_exists: bool) -> (
        CatalogState,
        Result<(), MetaErrorView>,
    ) {
        if db.len() == 0 {
            (self, Err(empty_database_name_error()))
        } else if !self.databases.contains_key(db) {
            if if_exists {
                (self, Ok(()))
            } else {
                (self, Err(MetaErrorView::UnknownDatabase(db)))
            }
        } else {
            (
                CatalogState {
                    meta_ver: (self.meta_ver + 1) as u64,
                    databases: self.databases.remove(db),
                    ..self
                },
                Ok(()),
            )
        }
    }

    /// Creating a table: the catalog after it, and the table's id or the error.
    ///
    /// A plan without a database name or without a table name is rejected. If
    /// there is no such database the error is `UnknownDatabase`. If the database
    /// has a table of that name, the plan's `if_not_exists` decides between the
    /// id of the table that is there and the error `TableAlreadyExists`; the
    /// catalog stays as it is either way. Else the table gets the next id, and
    /// the meta-version goes up by one.
    pub open spec fn create_table(
        self,
        db: Seq<char>,
        table: Seq<char>,
        if_not_exists: bool,
        schema: Seq<DataFieldView>,
        engine: Seq<char>,
        options: Map<String, String>,
    ) -> (CatalogState, Result<u64, MetaErrorView>) {
        if db.len() == 0 {
            (self, Err(empty_database_name_error()))
        } else if table.len() == 0 {
            (self, Err(empty_table_name_error()))
        } else if !self.databases.contains_key(db) {
            (self, Err(MetaErrorView::UnknownDatabase(db)))
        } else if self.databases[db].tables.contains_key(table) {
            if if_not_exists {
                (self, Ok(self.databases[db].tables[table].table_id))
            } else {
                (self, Err(MetaErrorView::TableAlreadyExists(table)))
            }
        } else {
            let id = (self.last_table_id + 1) as u64;
            let created = TableView { table_id: id, schema, engine, options };
            let holder = DatabaseView {
                tables: self.databases[db].tables.insert(table, created),
                ..self.databases[db]
            };
            (
                CatalogState {
                    meta_ver: (self.meta_ver + 1) as u64,
                    last_table_id: id,
                    databases: self.databases.insert(db, holder),
                    ..self
                },
                Ok(id),
            )
        }
    }

    /// Asking for a table: what is known of it, or the error `UnknownTable` if
    /// there is no such database or no such table in it.
    pub open spec fn get_table(self, db: Seq<char>, table: Seq<char>) -> Result<
        TableInfoView,
        MetaErrorView,
    > {
        if self.has_table(db, table) {
            Ok(self.table_info(db, table))
        } else {
            Err(MetaErrorView::UnknownTable(table))
        }
    }

    /// Dropping a table: the catalog after it, and the error if there is one.
    ///
    /// A plan without a database name or without a table name is rejected. If
    /// there is no such database, or no such table in it, the plan's `if_exists`
    /// decides between doing nothing and the error `UnknownTable`. Else the
    /// table goes, and the meta-version goes up by one.
    pub open spec fn drop_table(self, db: Seq<char>, table: Seq<char>, if_exists: bool) -> (
        CatalogState,
        Result<(), MetaErrorView>,
    ) {
        if db.len() == 0 {
            (self, Err(empty_database_name_error()))
        } else if table.len() == 0 {
            (self, Err(empty_table_name_error()))
        } else if !self.has_table(db, table) {
            if if_exists {
                (self, Ok(()))
            } else {
                (self, Err(MetaErrorView::UnknownTable(table)))
            }
        } else {
            let holder = DatabaseView {
                tables: self.databases[db].tables.remove(table),
                ..self.databases[db]
            };
            (
                CatalogState {
                    meta_ver: (self.meta_ver + 1) as u64,
                    databases: self.databases.insert(db, holder),
                    ..self
                },
                Ok(()),
            )
        }
    }

    /// Whether the catalog has changed since it had the meta-version
    /// `lower_bound`. Without a bound it counts as changed.
    pub open spec fn changed_since(self, lower_bound: Option<u64>) -> bool {
        match lower_bound {
            Some(v) => self.meta_ver > v,
            None => true,
        }
    }
}

/// The whole catalog at one meta-version.
#[derive(Debug, PartialEq, Eq)]
pub struct DatabaseMetaSnapshot {
    /// The meta-version at which the snapshot was taken.
    pub meta_ver: u64,
    /// The databases, each with its name, in the order of their names.
    pub db_metas: Vec<(String, DatabaseInfo)>,
    /// The tables, each with its id, in the order of their databases' names
    /// and, within a database, of their own names.
    pub tbl_metas: Vec<(u64, TableInfo)>,
}

/// A `DatabaseMetaSnapshot` as contracts see it.
pub struct SnapshotView {
    pub meta_ver: u64,
    pub db_metas: Seq<(Seq<char>, DatabaseInfoView)>,
    pub tbl_metas: Seq<(u64, TableInfoView)>,
}

impl View for DatabaseMetaSnapshot {
    type V = SnapshotView;

    open spec fn view(&self) -> SnapshotView {
        SnapshotView {
            meta_ver: self.meta_ver,
            db_metas: self.db_metas.deep_view(),
            tbl_metas: self.tbl_metas.deep_view(),
        }
    }
}

impl DeepView for DatabaseMetaSnapshot {
    type V = SnapshotView;

    open spec fn deep_view(&self) -> SnapshotView {
        self@
    }
}

/// The order of tables in a snapshot: by the name of the database, then by the
/// name of the table.
pub open spec fn table_before(a: TableInfoView, b: TableInfoView) -> bool {
    key_less(a.db, b.db) || (a.db == b.db && key_less(a.name, b.name))
}

impl CatalogState {
    /// Whether `snap` shows this catalog: its meta-version, every database once,
    /// in the order of the names, and every table once, in the order of
    /// `table_before`, each with what the catalog knows of it.
    pub open spec fn is_snapshot(self, snap: SnapshotView) -> bool {
        &&& snap.meta_ver == self.meta_ver
        &&& strictly_sorted(Seq::new(snap.db_metas.len(), |i: int| snap.db_metas[i].0))
        &&& forall|i: int|
            0 <= i < snap.db_metas.len() ==> self.databases.contains_key(
                (#[trigger] snap.db_metas[i]).0,
            ) && snap.db_metas[i].1 == self.database_info(snap.db_metas[i].0)
        &&& forall|d: Seq<char>| #[trigger]
            self.databases.contains_key(d) ==> exists|i: int|
                0 <= i < snap.db_metas.len() && (#[trigger] snap.db_metas[i]).0 == d
        &&& forall|i: int, j: int|
            0 <= i < j < snap.tbl_metas.len() ==> table_before(
                (#[trigger] snap.tbl_metas[i]).1,
                (#[trigger] snap.tbl_metas[j]).1,
            )
        &&& forall|i: int|
            0 <= i < snap.tbl_metas.len() ==> {
                let t = #[trigger] snap.tbl_metas[i];
                &&& self.has_table(t.1.db, t.1.name)
                &&& t.1 == self.table_info(t.1.db, t.1.name)
                &&& t.0 == t.1.table_id
            }
        &&& forall|d: Seq<char>, x: Seq<char>| #[trigger]
            self.has_table(d, x) ==> exists|i: int|
                0 <= i < snap.tbl_metas.len() && (#[trigger] snap.tbl_metas[i]).1.db == d
                    && snap.tbl_metas[i].1.name == x
    }
}

/// A table as the catalog holds it.
pub struct TableRecord {
    table_id: u64,
    schema: DataSchema,
    engine: String,
    options: HashMap<String, String>,
}

impl View for TableRecord {
    type V = TableView;

    closed spec fn view(&self) -> TableView {
        TableView {
            table_id: self.table_id,
            schema: self.schema@,
            engine: self.engine@,
            options: self.options@,
        }
    }
}

/// A database as the catalog holds it.
pub struct DatabaseRecord {
    database_id: u64,
    engine: String,
    options: HashMap<String, String>,
    tables: KeyMap<TableRecord>,
}

impl View for DatabaseRecord {
    type V = DatabaseView;

    closed spec fn view(&self) -> DatabaseView {
        DatabaseView {
            database_id: self.database_id,
            engine: self.engine@,
            options: self.options@,
            tables: self.tables@.map_values(|t: TableRecord| t@),
        }
    }
}

/// The catalog.
pub struct Catalog {
    meta_ver: u64,
    last_database_id: u64,
    last_table_id: u64,
    databases: KeyMap<DatabaseRecord>,
}

impl View for Catalog {
    type V = CatalogState;

    closed spec fn view(&self) -> CatalogState {
        CatalogState {
            meta_ver: self.meta_ver,
            last_database_id: self.last_database_id,
            last_table_id: self.last_table_id,
            databases: self.databases@.map_values(|d: DatabaseRecord| d@),
        }
    }
}

impl Catalog {
    /// The databases are held in the order of their names, and so are the
    /// tables of each.
    pub closed spec fn rep_ok(&self) -> bool {
        &&& self.databases.wf()
        &&& forall|d: Seq<char>| #[trigger]
            self.databases@.contains_key(d) ==> self.databases@[d].tables.wf()
    }

    /// The catalog is held as it should be, and what it holds is well-formed.
    pub open spec fn wf(&self) -> bool {
        self.rep_ok() && self@.wf()
    }

    proof fn lemma_database(&self, db: Seq<char>)
        requires
            self.rep_ok(),
        ensures
            self@.databases.contains_key(db) == self.databases@.contains_key(db),
            self.databases@.contains_key(db) ==> self@.databases[db] == self.databases@[db]@
                && self.databases@[db].tables.wf(),
    {
    }

    /// An empty catalog.
    pub fn new() -> (c: Self)
        ensures
            c.wf(),
            c@ == CatalogState::init(),
    {
        let c = Catalog {
            meta_ver: 0,
            last_database_id: 0,
            last_table_id: 0,
            databases: KeyMap::new(),
        };
        assert(c@.databases =~= Map::<Seq<char>, DatabaseView>::empty());
        c
    }

    /// The meta-version: the number of changes that the catalog's content has
    /// seen.
    pub fn meta_version(&self) -> (v: u64)
        ensures
            v == self@.meta_ver,
    {
        self.meta_ver
    }

    /// Whether each counter can be raised once more.
    pub fn has_room(&self) -> (r: bool)
        ensures
            r == self@.has_room(),
    {
        self.meta_ver < u64::MAX && self.last_database_id < u64::MAX && self.last_table_id
            < u64::MAX
    }

    /// Whether each counter can be raised `n` times more.
    pub fn has_room_for(&self, n: usize) -> (r: bool)
        ensures
            r == (self@.meta_ver + n <= u64::MAX && self@.last_database_id + n <= u64::MAX
                && self@.last_table_id + n <= u64::MAX),
    {
        u64::MAX - self.meta_ver >= n as u64 && u64::MAX - self.last_database_id >= n as u64
            && u64::MAX - self.last_table_id >= n as u64
    }

    /// Creates the database that the plan names, unless it exists.
    pub fn create_database(&mut self, plan: CreateDatabasePlan) -> (r: Result<
        CreateDatabaseActionResult,
        MetaError,
    >)
        requires
            old(self).wf(),
            old(self)@.has_room(),
        ensures
            final(self).wf(),
            final(self)@ == old(self)@.create_database(
                plan.db@,
                plan.if_not_exists,
                plan.engine@,
                plan.options@,
            ).0,
            match old(self)@.create_database(
                plan.db@,
                plan.if_not_exists,
                plan.engine@,
                plan.options@,
            ).1 {
                Ok(id) => r matches Ok(a) && a.database_id == id,
                Err(e) => r matches Err(x) && x@ == e,
            },
    {
        if plan.db.as_str().is_empty() {
            return Err(MetaError::InvalidArgument(String::from_str("empty database name")));
        }
        proof {
            self.lemma_database(plan.db@);
        }
        let ghost before = self@;
        match self.databases.get(plan.db.as_str()) {
            Some(found) => {
                if plan.if_not_exists {
                    Ok(CreateDatabaseActionResult { database_id: found.database_id })
                } else {
                    Err(MetaError::AlreadyExists(plan.db))
                }
            },
            None => {
                self.last_database_id = self.last_database_id + 1;
                self.meta_ver = self.meta_ver + 1;
                let id = self.last_database_id;
                let record = DatabaseRecord {
                    database_id: id,
                    engine: plan.engine,
                    options: plan.options,
                    tables: KeyMap::new(),
                };
                assert(record@.tables =~= Map::<Seq<char>, TableView>::empty());
                self.databases.put(plan.db, record);
                proof {
                    let after = before.create_database(
                        plan.db@,
                        plan.if_not_exists,
                        plan.engine@,
                        plan.options@,
                    ).0;
                    assert(self@.databases =~= after.databases);
                    lemma_create_database_wf(
                        before,
                        plan.db@,
                        plan.if_not_exists,
                        plan.engine@,
                        plan.options@,
                    );
                }
                Ok(CreateDatabaseActionResult { database_id: id })
            },
        }
    }

    /// Tells what is known of the database `db`.
    pub fn get_database(&self, db: &str) -> (r: Result<GetDatabaseActionResult, MetaError>)
        requires
            self.wf(),
        ensures
            match self@.get_database(db@) {
                Ok(info) => r matches Ok(a) && a@ == info,
                Err(e) => r matches Err(x) && x@ == e,
            },
    {
        proof {
            self.lemma_database(db@);
        }
        match self.databases.get(db) {
            Some(found) => Ok(
                DatabaseInfo {
                    database_id: found.database_id,
                    db: db.to_owned(),
                    engine: found.engine.clone(),
                    options: found.options.clone(),
                },
            ),
            None => Err(MetaError::UnknownDatabase(db.to_owned())),
        }
    }

    /// Drops the database that the plan names, if there is one, and its tables
    /// with it.
    pub fn drop_database(&mut self, plan: DropDatabasePlan) -> (r: Result<
        DropDatabaseActionResult,
        MetaError,
    >)
        requires
            old(self).wf(),
            old(self)@.has_room(),
        ensures
            final(self).wf(),
            final(self)@ == old(self)@.drop_database(plan.db@, plan.if_exists).0,
            match old(self)@.drop_database(plan.db@, plan.if_exists).1 {
                Ok(_) => r is Ok,
                Err(e) => r matches Err(x) && x@ == e,
            },
    {
        if plan.db.as_str().is_empty() {
            return Err(MetaError::InvalidArgument(String::from_str("empty database name")));
        }
        proof {
            self.lemma_database(plan.db@);
        }
        let ghost before = self@;
        let (_, found) = self.databases.find(plan.db.as_str());
        if !found {
            if plan.if_exists {
                Ok(DropDatabaseActionResult {  })
            } else {
                Err(MetaError::UnknownDatabase(plan.db))
            }
        } else {
            self.databases.take(plan.db.as_str());
            self.meta_ver = self.meta_ver + 1;
            proof {
                let after = before.drop_database(plan.db@, plan.if_exists).0;
                assert(self@.databases =~= after.databases);
                lemma_drop_database_wf(before, plan.db@, plan.if_exists);
            }
            Ok(DropDatabaseActionResult {  })
        }
    }
}

impl Catalog {
    /// Creates the table that the plan names in the database that it names,
    /// unless the table exists.
    pub fn create_table(&mut self, plan: CreateTablePlan) -> (r: Result<
        CreateTableActionResult,
        MetaError,
    >)
        requires
            old(self).wf(),
            old(self)@.has_room(),
        ensures
            final(self).wf(),
            final(self)@ == old(self)@.create_table(
                plan.db@,
                plan.table@,
                plan.if_not_exists,
                plan.schema@,
                plan.engine@,
                plan.options@,
            ).0,
            match old(self)@.create_table(
                plan.db@,
                plan.table@,
                plan.if_not_exists,
                plan.schema@,
                plan.engine@,
                plan.options@,
            ).1 {
                Ok(id) => r matches Ok(a) && a.table_id == id,
                Err(e) => r matches Err(x) && x@ == e,
            },
    {
        if plan.db.as_str().is_empty() {
            return Err(MetaError::InvalidArgument(String::from_str("empty database name")));
        }
        if plan.table.as_str().is_empty() {
            return Err(MetaError::InvalidArgument(String::from_str("empty table name")));
        }
        proof {
            self.lemma_database(plan.db@);
        }
        let ghost before = self@;
        let (at, found) = self.databases.find(plan.db.as_str());
        if !found {
            return Err(MetaError::UnknownDatabase(plan.db));
        }
        proof {
            self.databases.lemma_at(at as int);
        }
        let existing = match self.databases.value_at(at).tables.get(plan.table.as_str()) {
            Some(t) => Some(t.table_id),
            None => None,
        };
        match existing {
            Some(id) => {
                if plan.if_not_exists {
                    Ok(CreateTableActionResult { table_id: id })
                } else {
                    Err(MetaError::TableAlreadyExists(plan.table))
                }
            },
            None => {
                self.last_table_id = self.last_table_id + 1;
                self.meta_ver = self.meta_ver + 1;
                let id = self.last_table_id;
                let record = TableRecord {
                    table_id: id,
                    schema: plan.schema,
                    engine: plan.engine,
                    options: plan.options,
                };
                let ghost keys = self.databases.keys();
                let ghost values = self.databases.values();
                let ghost held = self.databases@;
                let holder = self.databases.value_at_mut(at);
                holder.tables.put(plan.table, record);
                proof {
                    let changed = self.databases.values()[at as int];
                    crate::key_map::lemma_assoc_update(keys, values, at as int, changed);
                    assert(self.databases@ == held.insert(plan.db@, changed));
                    assert(changed@.tables =~= before.databases[plan.db@].tables.insert(
                        plan.table@,
                        record@,
                    ));
                    let after = before.create_table(
                        plan.db@,
                        plan.table@,
                        plan.if_not_exists,
                        plan.schema@,
                        plan.engine@,
                        plan.options@,
                    ).0;
                    assert(self@.databases =~= after.databases);
                    lemma_create_table_wf(
                        before,
                        plan.db@,
                        plan.table@,
                        plan.if_not_exists,
                        plan.schema@,
                        plan.engine@,
                        plan.options@,
                    );
                }
                Ok(CreateTableActionResult { table_id: id })
            },
        }
    }

    /// Tells what is known of the table `table` of the database `db`.
    pub fn get_table(&self, db: String, table: String) -> (r: Result<
        GetTableActionResult,
        MetaError,
    >)
        requires
            self.wf(),
        ensures
            match self@.get_table(db@, table@) {
                Ok(info) => r matches Ok(a) && a@ == info,
                Err(e) => r matches Err(x) && x@ == e,
            },
    {
        proof {
            self.lemma_database(db@);
        }
        match self.databases.get(db.as_str()) {
            None => Err(MetaError::UnknownTable(table)),
            Some(holder) => match holder.tables.get(table.as_str()) {
                None => Err(MetaError::UnknownTable(table)),
                Some(found) => Ok(
                    TableInfo {
                        table_id: found.table_id,
                        db,
                        name: table,
                        schema: found.schema.clone(),
                        engine: found.engine.clone(),
                        options: found.options.clone(),
                    },
                ),
            },
        }
    }

    /// Drops the table that the plan names from the database that it names, if
    /// there is one.
    pub fn drop_table(&mut self, plan: DropTablePlan) -> (r: Result<
        DropTableActionResult,
        MetaError,
    >)
        requires
            old(self).wf(),
            old(self)@.has_room(),
        ensures
            final(self).wf(),
            final(self)@ == old(self)@.drop_table(plan.db@, plan.table@, plan.if_exists).0,
            match old(self)@.drop_table(plan.db@, plan.table@, plan.if_exists).1 {
                Ok(_) => r is Ok,
                Err(e) => r matches Err(x) && x@ == e,
            },
    {
        if plan.db.as_str().is_empty() {
            return Err(MetaError::InvalidArgument(String::from_str("empty database name")));
        }
        if plan.table.as_str().is_empty() {
            return Err(MetaError::InvalidArgument(String::from_str("empty table name")));
        }
        proof {
            self.lemma_database(plan.db@);
        }
        let ghost before = self@;
        let (at, found) = self.databases.find(plan.db.as_str());
        if !found {
            if plan.if_exists {
                return Ok(DropTableActionResult {  });
            } else {
                return Err(MetaError::UnknownTable(plan.table));
            }
        }
        proof {
            self.databases.lemma_at(at as int);
        }
        let (_, present) = self.databases.value_at(at).tables.find(plan.table.as_str());
        if !present {
            if plan.if_exists {
                return Ok(DropTableActionResult {  });
            } else {
                return Err(MetaError::UnknownTable(plan.table));
            }
        }
        self.meta_ver = self.meta_ver + 1;
        let ghost keys = self.databases.keys();
        let ghost values = self.databases.values();
        let ghost held = self.databases@;
        let holder = self.databases.value_at_mut(at);
        holder.tables.take(plan.table.as_str());
        proof {
            let changed = self.databases.values()[at as int];
            crate::key_map::lemma_assoc_update(keys, values, at as int, changed);
            assert(self.databases@ == held.insert(plan.db@, changed));
            assert(changed@.tables =~= before.databases[plan.db@].tables.remove(plan.table@));
            let after = before.drop_table(plan.db@, plan.table@, plan.if_exists).0;
            assert(self@.databases =~= after.databases);
            lemma_drop_table_wf(before, plan.db@, plan.table@, plan.if_exists);
        }
        Ok(DropTableActionResult {  })
    }
}

/// Creating a table keeps the catalog well-formed.
pub proof fn lemma_create_table_wf(
    s: CatalogState,
    db: Seq<char>,
    table: Seq<char>,
    if_not_exists: bool,
    schema: Seq<DataFieldView>,
    engine: Seq<char>,
    options: Map<String, String>,
)
    requires
        s.wf(),
        s.has_room(),
    ensures
        s.create_table(db, table, if_not_exists, schema, engine, options).0.wf(),
{
    let t = s.create_table(db, table, if_not_exists, schema, engine, options).0;
    if db.len() > 0 && table.len() > 0 && s.databases.contains_key(db) && !s.has_table(db, table) {
        assert forall|d: Seq<char>| #[trigger] t.databases.contains_key(d) implies d.len() > 0 && 1
            <= t.databases[d].database_id <= t.last_database_id by {
            assert(s.databases.contains_key(d));
        }
        assert forall|d1: Seq<char>, d2: Seq<char>|
            #![trigger t.databases[d1], t.databases[d2]]
            t.databases.contains_key(d1) && t.databases.contains_key(d2) && d1 != d2
                implies t.databases[d1].database_id != t.databases[d2].database_id by {
            assert(s.databases.contains_key(d1) && s.databases.contains_key(d2));
            assert(s.databases[d1].database_id != s.databases[d2].database_id);
        }
        assert forall|d: Seq<char>, x: Seq<char>| t.has_table(d, x) && !(d == db && x == table)
            implies s.has_table(d, x) && t.databases[d].tables[x] == s.databases[d].tables[x]
            && 1 <= s.databases[d].tables[x].table_id <= s.last_table_id by {
            if d != db {
                assert(t.databases[d] == s.databases[d]);
            }
            assert(s.has_table(d, x));
            assert(1 <= s.databases[d].tables[x].table_id <= s.last_table_id);
        }
        assert forall|d: Seq<char>, x: Seq<char>|
            #![trigger t.databases[d].tables[x]]
            t.has_table(d, x) implies x.len() > 0 && 1 <= t.databases[d].tables[x].table_id
            <= t.last_table_id by {
            if !(d == db && x == table) {
                assert(s.has_table(d, x));
                assert(x.len() > 0 && 1 <= s.databases[d].tables[x].table_id <= s.last_table_id);
            }
        }
        assert forall|d1: Seq<char>, t1: Seq<char>, d2: Seq<char>, t2: Seq<char>|
            #![trigger t.databases[d1].tables[t1], t.databases[d2].tables[t2]]
            t.has_table(d1, t1) && t.has_table(d2, t2) && (d1 != d2 || t1 != t2)
                implies t.databases[d1].tables[t1].table_id != t.databases[d2].tables[t2].table_id by {
            if !(d1 == db && t1 == table) && !(d2 == db && t2 == table) {
                assert(s.has_table(d1, t1) && s.has_table(d2, t2));
                assert(s.databases[d1].tables[t1].table_id != s.databases[d2].tables[t2].table_id);
            }
        }
    }
}

/// Dropping a table keeps the catalog well-formed.
pub proof fn lemma_drop_table_wf(s: CatalogState, db: Seq<char>, table: Seq<char>, if_exists: bool)
    requires
        s.wf(),
        s.has_room(),
    ensures
        s.drop_table(db, table, if_exists).0.wf(),
{
    let t = s.drop_table(db, table, if_exists).0;
    if db.len() > 0 && table.len() > 0 && s.has_table(db, table) {
        assert forall|d: Seq<char>, x: Seq<char>| t.has_table(d, x) implies s.has_table(d, x)
            && t.databases[d].tables[x] == s.databases[d].tables[x] by {
            if d != db {
                assert(t.databases[d] == s.databases[d]);
            }
        }
        lemma_wf_carries(s, t);
    }
}

/// Whether the slot `a` of a table comes before the slot `b`: a slot is the
/// position of the table's database and the position of the table in it.
spec fn slot_before(a: (int, int), b: (int, int)) -> bool {
    a.0 < b.0 || (a.0 == b.0 && a.1 < b.1)
}

impl Catalog {
    spec fn tables_at(&self, i: int) -> KeyMap<TableRecord> {
        self.databases.values()[i].tables
    }

    spec fn database_info_at(&self, i: int) -> DatabaseInfoView {
        let held = self.databases.values()[i];
        DatabaseInfoView {
            database_id: held.database_id,
            db: self.databases.keys()[i],
            engine: held.engine@,
            options: held.options@,
        }
    }

    spec fn table_info_at(&self, slot: (int, int)) -> TableInfoView {
        let held = self.tables_at(slot.0).values()[slot.1];
        TableInfoView {
            table_id: held.table_id,
            db: self.databases.keys()[slot.0],
            name: self.tables_at(slot.0).keys()[slot.1],
            schema: held.schema@,
            engine: held.engine@,
            options: held.options@,
        }
    }

    spec fn slot_ok(&self, slot: (int, int)) -> bool {
        &&& 0 <= slot.0 < self.databases.keys().len()
        &&& 0 <= slot.1 < self.tables_at(slot.0).keys().len()
    }

    proof fn lemma_database_at(&self, i: int)
        requires
            self.rep_ok(),
            0 <= i < self.databases.keys().len(),
        ensures
            self.tables_at(i).wf(),
            self@.databases.contains_key(self.databases.keys()[i]),
            self@.databases[self.databases.keys()[i]] == self.databases.values()[i]@,
            self@.database_info(self.databases.keys()[i]) == self.database_info_at(i),
    {
        self.databases.lemma_at(i);
        self.lemma_database(self.databases.keys()[i]);
    }

    proof fn lemma_table_at(&self, slot: (int, int))
        requires
            self.rep_ok(),
            self.slot_ok(slot),
        ensures
            self@.has_table(self.table_info_at(slot).db, self.table_info_at(slot).name),
            self@.table_info(self.table_info_at(slot).db, self.table_info_at(slot).name)
                == self.table_info_at(slot),
    {
        self.lemma_database_at(slot.0);
        self.tables_at(slot.0).lemma_at(slot.1);
    }

    proof fn lemma_slots_ordered(&self, a: (int, int), b: (int, int))
        requires
            self.rep_ok(),
            self.slot_ok(a),
            self.slot_ok(b),
            slot_before(a, b),
        ensures
            table_before(self.table_info_at(a), self.table_info_at(b)),
    {
        self.lemma_database_at(a.0);
        self.lemma_database_at(b.0);
        if a.0 == b.0 {
            let names = self.tables_at(a.0).keys();
            assert(key_less(names[a.1], names[b.1]));
        } else {
            let names = self.databases.keys();
            assert(key_less(names[a.0], names[b.0]));
        }
    }

    proof fn lemma_slot_of(&self, d: Seq<char>, x: Seq<char>) -> (slot: (int, int))
        requires
            self.rep_ok(),
            self@.has_table(d, x),
        ensures
            self.slot_ok(slot),
            self.table_info_at(slot).db == d,
            self.table_info_at(slot).name == x,
    {
        self.lemma_database(d);
        let i = self.databases.lemma_position(d);
        self.lemma_database_at(i);
        let j = self.tables_at(i).lemma_position(x);
        (i, j)
    }

    fn duplicate_tables(tables: &KeyMap<TableRecord>) -> (r: KeyMap<TableRecord>)
        requires
            tables.wf(),
        ensures
            r.wf(),
            r@.map_values(|t: TableRecord| t@) == tables@.map_values(|t: TableRecord| t@),
    {
        let mut out: KeyMap<TableRecord> = KeyMap::new();
        let ghost ks = tables.keys();
        let ghost vs = tables.values();
        let n = tables.len();
        let mut i: usize = 0;
        while i < n
            invariant
                tables.wf(),
                ks == tables.keys(),
                vs == tables.values(),
                n == ks.len(),
                i <= n,
                out.wf(),
                out.keys() == ks.take(i as int),
                out.values().len() == i,
                forall|a: int| 0 <= a < i ==> (#[trigger] out.values()[a])@ == vs[a]@,
            decreases n - i,
        {
            let name = tables.key_at(i);
            let held = tables.value_at(i);
            let ghost copied = out.values();
            out.push_last(
                name.clone(),
                TableRecord {
                    table_id: held.table_id,
                    schema: held.schema.clone(),
                    engine: held.engine.clone(),
                    options: held.options.clone(),
                },
            );
            proof {
                assert(out.keys() =~= ks.take(i + 1));
                assert forall|a: int| 0 <= a < i + 1 implies (#[trigger] out.values()[a])@
                    == vs[a]@ by {
                    if a < i {
                        assert(out.values()[a] == copied[a]);
                    }
                }
            }
            i += 1;
        }
        proof {
            assert(out.keys() =~= ks);
            let x = out@.map_values(|t: TableRecord| t@);
            let y = tables@.map_values(|t: TableRecord| t@);
            assert forall|k: Seq<char>| x.contains_key(k) <==> y.contains_key(k) by {
                if out@.contains_key(k) {
                    let a = out.lemma_position(k);
                    tables.lemma_at(a);
                }
                if tables@.contains_key(k) {
                    let a = tables.lemma_position(k);
                    out.lemma_at(a);
                }
            }
            assert forall|k: Seq<char>| x.contains_key(k) implies #[trigger] x[k] == y[k] by {
                let a = out.lemma_position(k);
                tables.lemma_at(a);
            }
            assert(x =~= y);
        }
        out
    }

    /// A copy of the catalog.
    pub fn duplicate(&self) -> (c: Self)
        requires
            self.wf(),
        ensures
            c.wf(),
            c@ == self@,
    {
        let mut databases: KeyMap<DatabaseRecord> = KeyMap::new();
        let ghost ks = self.databases.keys();
        let ghost vs = self.databases.values();
        let n = self.databases.len();
        let mut i: usize = 0;
        while i < n
            invariant
                self.wf(),
                ks == self.databases.keys(),
                vs == self.databases.values(),
                n == ks.len(),
                i <= n,
                databases.wf(),
                databases.keys() == ks.take(i as int),
                databases.values().len() == i,
                forall|a: int|
                    0 <= a < i ==> (#[trigger] databases.values()[a])@ == vs[a]@
                        && databases.values()[a].tables.wf(),
            decreases n - i,
        {
            let name = self.databases.key_at(i);
            let held = self.databases.value_at(i);
            proof {
                self.lemma_database_at(i as int);
            }
            let ghost copied = databases.values();
            databases.push_last(
                name.clone(),
                DatabaseRecord {
                    database_id: held.database_id,
                    engine: held.engine.clone(),
                    options: held.options.clone(),
                    tables: Self::duplicate_tables(&held.tables),
                },
            );
            proof {
                assert(databases.keys() =~= ks.take(i + 1));
                assert forall|a: int| 0 <= a < i + 1 implies (#[trigger] databases.values()[a])@
                    == vs[a]@ && databases.values()[a].tables.wf() by {
                    if a < i {
                        assert(databases.values()[a] == copied[a]);
                    }
                }
            }
            i += 1;
        }
        let c = Catalog {
            meta_ver: self.meta_ver,
            last_database_id: self.last_database_id,
            last_table_id: self.last_table_id,
            databases,
        };
        proof {
            assert(c.databases.keys() =~= ks);
            assert forall|d: Seq<char>| #[trigger]
                c.databases@.contains_key(d) implies c.databases@[d].tables.wf() by {
                let a = c.databases.lemma_position(d);
            }
            assert forall|k: Seq<char>| c@.databases.contains_key(k) <==> self@.databases.contains_key(
                k,
            ) by {
                if c.databases@.contains_key(k) {
                    let a = c.databases.lemma_position(k);
                    self.databases.lemma_at(a);
                }
                if self.databases@.contains_key(k) {
                    let a = self.databases.lemma_position(k);
                    c.databases.lemma_at(a);
                }
            }
            assert forall|k: Seq<char>| c@.databases.contains_key(k) implies #[trigger] c@.databases[k]
                == self@.databases[k] by {
                let a = c.databases.lemma_position(k);
                self.databases.lemma_at(a);
            }
            assert(c@.databases =~= self@.databases);
        }
        c
    }

    /// The whole catalog, if it has changed since it had the meta-version
    /// `lower_bound`, or if no bound is given; else `None`.
    pub fn get_database_meta(&self, lower_bound: Option<u64>) -> (r: Option<DatabaseMetaSnapshot>)
        requires
            self.wf(),
        ensures
            r is Some == self@.changed_since(lower_bound),
            r matches Some(snap) ==> self@.is_snapshot(snap@),
    {
        match lower_bound {
            Some(v) => {
                if self.meta_ver <= v {
                    return None;
                }
            },
            None => {},
        }
        let mut db_metas: Vec<(String, DatabaseInfo)> = Vec::new();
        let mut tbl_metas: Vec<(u64, TableInfo)> = Vec::new();
        let ghost mut slots: Seq<(int, int)> = Seq::empty();
        let n = self.databases.len();
        let mut i: usize = 0;
        while i < n
            invariant
                self.wf(),
                n == self.databases.keys().len(),
                i <= n,
                db_metas@.len() == i,
                forall|a: int|
                    0 <= a < i ==> (#[trigger] db_metas@[a]).0@ == self.databases.keys()[a]
                        && db_metas@[a].1@ == self.database_info_at(a),
                tbl_metas@.len() == slots.len(),
                forall|a: int|
                    0 <= a < slots.len() ==> self.slot_ok(#[trigger] slots[a]) && slots[a].0 < i,
                forall|a: int|
                    0 <= a < slots.len() ==> (#[trigger] tbl_metas@[a]).1@ == self.table_info_at(
                        slots[a],
                    ) && tbl_metas@[a].0 == tbl_metas@[a].1.table_id,
                forall|a: int, b: int|
                    0 <= a < b < slots.len() ==> slot_before(#[trigger] slots[a], #[trigger] slots[b]),
                forall|slot: (int, int)|
                    #![trigger self.slot_ok(slot)]
                    self.slot_ok(slot) && slot.0 < i ==> slots.contains(slot),
            decreases n - i,
        {
            let name = self.databases.key_at(i);
            let held = self.databases.value_at(i);
            proof {
                self.lemma_database_at(i as int);
            }
            db_metas.push(
                (
                    name.clone(),
                    DatabaseInfo {
                        database_id: held.database_id,
                        db: name.clone(),
                        engine: held.engine.clone(),
                        options: held.options.clone(),
                    },
                ),
            );
            let m = held.tables.len();
            let mut j: usize = 0;
            while j < m
                invariant
                    self.wf(),
                    n == self.databases.keys().len(),
                    i < n,
                    name@ == self.databases.keys()[i as int],
                    *held == self.databases.values()[i as int],
                    held.tables.wf(),
                    m == held.tables.keys().len(),
                    j <= m,
                    tbl_metas@.len() == slots.len(),
                    forall|a: int|
                        0 <= a < slots.len() ==> self.slot_ok(#[trigger] slots[a]) && slot_before(
                            slots[a],
                            (i as int, j as int),
                        ),
                    forall|a: int|
                        0 <= a < slots.len() ==> (#[trigger] tbl_metas@[a]).1@
                            == self.table_info_at(slots[a]) && tbl_metas@[a].0
                            == tbl_metas@[a].1.table_id,
                    forall|a: int, b: int|
                        0 <= a < b < slots.len() ==> slot_before(
                            #[trigger] slots[a],
                            #[trigger] slots[b],
                        ),
                    forall|slot: (int, int)|
                        #![trigger self.slot_ok(slot)]
                        self.slot_ok(slot) && slot_before(slot, (i as int, j as int))
                            ==> slots.contains(slot),
                decreases m - j,
            {
                let table_name = held.tables.key_at(j);
                let table = held.tables.value_at(j);
                let ghost seen = slots;
                let ghost shown = tbl_metas@;
                tbl_metas.push(
                    (
                        table.table_id,
                        TableInfo {
                            table_id: table.table_id,
                            db: name.clone(),
                            name: table_name.clone(),
                            schema: table.schema.clone(),
                            engine: table.engine.clone(),
                            options: table.options.clone(),
                        },
                    ),
                );
                proof {
                    let here = (i as int, j as int);
                    slots = slots.push(here);
                    let last = slots.len() - 1;
                    assert(slots[last] == here);
                    assert(self.slot_ok(here));
                    assert(tbl_metas@[last].1@ == self.table_info_at(here));
                    assert forall|a: int| 0 <= a < slots.len() implies self.slot_ok(
                        #[trigger] slots[a],
                    ) && slot_before(slots[a], (i as int, j + 1)) by {
                        if a < last {
                            assert(slots[a] == seen[a]);
                        }
                    }
                    assert forall|a: int| 0 <= a < slots.len() implies (#[trigger] tbl_metas@[a]).1@
                        == self.table_info_at(slots[a]) && tbl_metas@[a].0
                        == tbl_metas@[a].1.table_id by {
                        if a < last {
                            assert(tbl_metas@[a] == shown[a]);
                            assert(slots[a] == seen[a]);
                        }
                    }
                    assert forall|a: int, b: int| 0 <= a < b < slots.len() implies slot_before(
                        #[trigger] slots[a],
                        #[trigger] slots[b],
                    ) by {
                        assert(slots[a] == seen[a]);
                        if b < last {
                            assert(slots[b] == seen[b]);
                        }
                    }
                    assert forall|slot: (int, int)|
                        #![trigger self.slot_ok(slot)]
                        self.slot_ok(slot) && slot_before(
                            slot,
                            (i as int, j + 1),
                        ) implies slots.contains(slot) by {
                        if slot == here {
                            assert(slots[last] == slot);
                        } else {
                            assert(slot_before(slot, here));
                            assert(seen.contains(slot));
                            let a = seen.index_of(slot);
                            assert(slots[a] == slot);
                        }
                    }
                }
                j += 1;
            }
            proof {
                assert forall|slot: (int, int)|
                    #![trigger self.slot_ok(slot)]
                    self.slot_ok(slot) && slot.0 < i + 1 implies slots.contains(slot) by {
                    assert(slot_before(slot, (i as int, m as int)));
                }
            }
            i += 1;
        }
        let snap = DatabaseMetaSnapshot { meta_ver: self.meta_ver, db_metas, tbl_metas };
        proof {
            let v = snap@;
            let held = self@;
            let names = Seq::new(v.db_metas.len(), |i: int| v.db_metas[i].0);
            assert forall|a: int| 0 <= a < v.db_metas.len() implies (#[trigger] v.db_metas[a]).0
                == self.databases.keys()[a] && v.db_metas[a].1 == self.database_info_at(a) by {
                assert(v.db_metas[a] == snap.db_metas@[a].deep_view());
            }
            assert forall|a: int| 0 <= a < v.tbl_metas.len() implies (#[trigger] v.tbl_metas[a]).1
                == self.table_info_at(slots[a]) && v.tbl_metas[a].0
                == v.tbl_metas[a].1.table_id by {
                assert(v.tbl_metas[a] == snap.tbl_metas@[a].deep_view());
            }
            assert(names =~= self.databases.keys());
            assert forall|a: int| 0 <= a < v.db_metas.len() implies held.databases.contains_key(
                (#[trigger] v.db_metas[a]).0,
            ) && v.db_metas[a].1 == held.database_info(v.db_metas[a].0) by {
                self.lemma_database_at(a);
            }
            assert forall|d: Seq<char>| #[trigger] held.databases.contains_key(d) implies exists|
                a: int,
            | 0 <= a < v.db_metas.len() && (#[trigger] v.db_metas[a]).0 == d by {
                self.lemma_database(d);
                let a = self.databases.lemma_position(d);
                assert(v.db_metas[a].0 == d);
            }
            assert forall|a: int, b: int| 0 <= a < b < v.tbl_metas.len() implies table_before(
                (#[trigger] v.tbl_metas[a]).1,
                (#[trigger] v.tbl_metas[b]).1,
            ) by {
                assert(slot_before(slots[a], slots[b]));
                self.lemma_slots_ordered(slots[a], slots[b]);
            }
            assert forall|a: int| 0 <= a < v.tbl_metas.len() implies ({
                let t = #[trigger] v.tbl_metas[a];
                &&& held.has_table(t.1.db, t.1.name)
                &&& t.1 == held.table_info(t.1.db, t.1.name)
                &&& t.0 == t.1.table_id
            }) by {
                assert(self.slot_ok(slots[a]));
                self.lemma_table_at(slots[a]);
            }
            assert forall|d: Seq<char>, x: Seq<char>| #[trigger] held.has_table(d, x) implies exists|
                a: int,
            |
                0 <= a < v.tbl_metas.len() && (#[trigger] v.tbl_metas[a]).1.db == d
                    && v.tbl_metas[a].1.name == x by {
                let slot = self.lemma_slot_of(d, x);
                assert(self.slot_ok(slot));
                assert(slots.contains(slot));
                let a = slots.index_of(slot);
                assert(v.tbl_metas[a].1 == self.table_info_at(slots[a]));
            }
        }
        Some(snap)
    }
}

/// Creating a database keeps the catalog well-formed.
pub proof fn lemma_create_database_wf(
    s: CatalogState,
    db: Seq<char>,
    if_not_exists: bool,
    engine: Seq<char>,
    options: Map<String, String>,
)
    requires
        s.wf(),
        s.has_room(),
    ensures
        s.create_database(db, if_not_exists, engine, options).0.wf(),
{
    let t = s.create_database(db, if_not_exists, engine, options).0;
    if db.len() > 0 && !s.databases.contains_key(db) {
        assert forall|d: Seq<char>, x: Seq<char>| t.has_table(d, x) implies s.has_table(d, x)
            && t.databases[d].tables[x] == s.databases[d].tables[x] by {
            if d == db {
                assert(!t.databases[db].tables.contains_key(x));
            } else {
                assert(t.databases[d] == s.databases[d]);
            }
        }
        lemma_wf_carries(s, t);
    }
}

/// Dropping a database keeps the catalog well-formed.
pub proof fn lemma_drop_database_wf(s: CatalogState, db: Seq<char>, if_exists: bool)
    requires
        s.wf(),
        s.has_room(),
    ensures
        s.drop_database(db, if_exists).0.wf(),
{
    let t = s.drop_database(db, if_exists).0;
    if db.len() > 0 && s.databases.contains_key(db) {
        assert forall|d: Seq<char>, x: Seq<char>| t.has_table(d, x) implies s.has_table(d, x)
            && t.databases[d].tables[x] == s.databases[d].tables[x] by {
            assert(t.databases[d] == s.databases[d]);
        }
        lemma_wf_carries(s, t);
    }
}

/// A catalog is well-formed if it comes from a well-formed one by steps that
/// lower no counter, add no table, and add at most databases whose id the
/// database counter has handed out since.
proof fn lemma_wf_carries(s: CatalogState, t: CatalogState)
    requires
        s.wf(),
        s.last_database_id <= t.last_database_id,
        s.last_table_id <= t.last_table_id,
        forall|d: Seq<char>| #[trigger]
            t.databases.contains_key(d) ==> d.len() > 0 && if s.databases.contains_key(d) {
                t.databases[d].database_id == s.databases[d].database_id
            } else {
                s.last_database_id < t.databases[d].database_id <= t.last_database_id
            },
        forall|d1: Seq<char>, d2: Seq<char>|
            #![trigger t.databases[d1], t.databases[d2]]
            t.databases.contains_key(d1) && t.databases.contains_key(d2) && d1 != d2
                && !s.databases.contains_key(d1) && !s.databases.contains_key(d2)
                ==> t.databases[d1].database_id != t.databases[d2].database_id,
        forall|d: Seq<char>, x: Seq<char>|
            t.has_table(d, x) ==> s.has_table(d, x) && t.databases[d].tables[x]
                == s.databases[d].tables[x],
    ensures
        t.wf(),
{
    assert forall|d: Seq<char>| #[trigger] t.databases.contains_key(d) implies d.len() > 0 && 1
        <= t.databases[d].database_id <= t.last_database_id by {
        if s.databases.contains_key(d) {
            assert(1 <= s.databases[d].database_id <= s.last_database_id);
        }
    }
    assert forall|d1: Seq<char>, d2: Seq<char>|
        #![trigger t.databases[d1], t.databases[d2]]
        t.databases.contains_key(d1) && t.databases.contains_key(d2) && d1 != d2
            implies t.databases[d1].database_id != t.databases[d2].database_id by {
        if s.databases.contains_key(d1) {
            assert(1 <= s.databases[d1].database_id <= s.last_database_id);
        }
        if s.databases.contains_key(d2) {
            assert(1 <= s.databases[d2].database_id <= s.last_database_id);
        }
        if s.databases.contains_key(d1) && s.databases.contains_key(d2) {
            assert(s.databases[d1].database_id != s.databases[d2].database_id);
        }
    }
    assert forall|d: Seq<char>, x: Seq<char>|
        #![trigger t.databases[d].tables[x]]
        t.has_table(d, x) implies x.len() > 0 && 1 <= t.databases[d].tables[x].table_id
        <= t.last_table_id by {
        assert(s.has_table(d, x));
        assert(1 <= s.databases[d].tables[x].table_id <= s.last_table_id);
    }
    assert forall|d1: Seq<char>, t1: Seq<char>, d2: Seq<char>, t2: Seq<char>|
        #![trigger t.databases[d1].tables[t1], t.databases[d2].tables[t2]]
        t.has_table(d1, t1) && t.has_table(d2, t2) && (d1 != d2 || t1 != t2)
            implies t.databases[d1].tables[t1].table_id != t.databases[d2].tables[t2].table_id by {
        assert(s.has_table(d1, t1));
        assert(s.has_table(d2, t2));
        assert(s.databases[d1].tables[t1].table_id != s.databases[d2].tables[t2].table_id);
    }
}

} // verus!
