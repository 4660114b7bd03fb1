//! What holds of the catalog, whatever requests it has seen.

use vstd::prelude::*;
use crate::catalog::{CatalogState, DatabaseInfoView, TableInfoView};
use crate::error::MetaErrorView;
use crate::schema::DataFieldView;

verus! {

/// Creating a database a second time with `if_not_exists` set returns the id
/// that the first creation returned, and leaves the catalog, and so the
/// meta-version, as the first creation left it.
pub proof fn law_create_database_twice(
    s: CatalogState,
    db: Seq<char>,
    engine: Seq<char>,
    options: Map<String, String>,
    engine2: Seq<char>,
    options2: Map<String, String>,
)
    requires
        db.len() > 0,
    ensures
        ({
            let (first, r1) = s.create_database(db, true, engine, options);
            let (second, r2) = first.create_database(db, true, engine2, options2);
            &&& r1 is Ok
            &&& r2 == r1
            &&& second == first
            &&& second.meta_ver == first.meta_ver
        }),
{
}

/// Creating a table a second time with `if_not_exists` set returns the id that
/// the first creation returned, and leaves the catalog, and so the
/// meta-version, as the first creation left it.
pub proof fn law_create_table_twice(
    s: CatalogState,
    db: Seq<char>,
    table: Seq<char>,
    schema: Seq<DataFieldView>,
    engine: Seq<char>,
    options: Map<String, String>,
    schema2: Seq<DataFieldView>,
    engine2: Seq<char>,
    options2: Map<String, String>,
)
    requires
        db.len() > 0,
        table.len() > 0,
        s.databases.contains_key(db),
    ensures
        ({
            let (first, r1) = s.create_table(db, table, true, schema, engine, options);
            let (second, r2) = first.create_table(db, table, true, schema2, engine2, options2);
            &&& r1 is Ok
            &&& r2 == r1
            &&& second == first
        }),
{
}

/// Creating a database either changes nothing or changes the content and
/// raises the meta-version by one; a creation that fails changes nothing.
pub proof fn law_create_database_version(
    s: CatalogState,
    db: Seq<char>,
    if_not_exists: bool,
    engine: Seq<char>,
    options: Map<String, String>,
)
    requires
        s.has_room(),
    ensures
        ({
            let (t, r) = s.create_database(db, if_not_exists, engine, options);
            &&& t == s || (t.databases != s.databases && t.meta_ver == s.meta_ver + 1)
            &&& r is Err ==> t == s
            &&& t != s <==> db.len() > 0 && !s.databases.contains_key(db)
        }),
{
    let (t, r) = s.create_database(db, if_not_exists, engine, options);
    if db.len() > 0 && !s.databases.contains_key(db) {
        assert(t.databases.contains_key(db));
    }
}

/// Dropping a database either changes nothing or changes the content and
/// raises the meta-version by one, however many tables go with the database; a
/// drop that fails changes nothing.
pub proof fn law_drop_database_version(s: CatalogState, db: Seq<char>, if_exists: bool)
    requires
        s.has_room(),
    ensures
        ({
            let (t, r) = s.drop_database(db, if_exists);
            &&& t == s || (t.databases != s.databases && t.meta_ver == s.meta_ver + 1)
            &&& r is Err ==> t == s
            &&& t != s <==> db.len() > 0 && s.databases.contains_key(db)
        }),
{
    let (t, r) = s.drop_database(db, if_exists);
    if db.len() > 0 && s.databases.contains_key(db) {
        assert(!t.databases.contains_key(db));
    }
}

/// Creating a table either changes nothing or changes the content and raises
/// the meta-version by one; a creation that fails changes nothing.
pub proof fn law_create_table_version(
    s: CatalogState,
    db: Seq<char>,
    table: Seq<char>,
    if_not_exists: bool,
    schema: Seq<DataFieldView>,
    engine: Seq<char>,
    options: Map<String, String>,
)
    requires
        s.has_room(),
    ensures
        ({
            let (t, r) = s.create_table(db, table, if_not_exists, schema, engine, options);
            &&& t == s || (t.databases != s.databases && t.meta_ver == s.meta_ver + 1)
            &&& r is Err ==> t == s
            &&& t != s <==> db.len() > 0 && table.len() > 0 && s.databases.contains_key(db)
                && !s.has_table(db, table)
        }),
{
    let (t, r) = s.create_table(db, table, if_not_exists, schema, engine, options);
    if db.len() > 0 && table.len() > 0 && s.databases.contains_key(db) && !s.has_table(db, table) {
        assert(t.databases[db].tables.contains_key(table));
    }
}

/// Dropping a table either changes nothing or changes the content and raises
/// the meta-version by one; a drop that fails changes nothing.
pub proof fn law_drop_table_version(
    s: CatalogState,
    db: Seq<char>,
    table: Seq<char>,
    if_exists: bool,
)
    requires
        s.has_room(),
    ensures
        ({
            let (t, r) = s.drop_table(db, table, if_exists);
            &&& t == s || (t.databases != s.databases && t.meta_ver == s.meta_ver + 1)
            &&& r is Err ==> t == s
            &&& t != s <==> db.len() > 0 && table.len() > 0 && s.has_table(db, table)
        }),
{
    let (t, r) = s.drop_table(db, table, if_exists);
    if db.len() > 0 && table.len() > 0 && s.has_table(db, table) {
        assert(!t.databases[db].tables.contains_key(table));
    }
}

/// A database that is created gets an id that no database has and none had
/// before; asking for it afterwards gives that id and what the plan said.
pub proof fn law_created_database(
    s: CatalogState,
    db: Seq<char>,
    if_not_exists: bool,
    engine: Seq<char>,
    options: Map<String, String>,
)
    requires
        s.wf(),
        s.has_room(),
        db.len() > 0,
        !s.databases.contains_key(db),
    ensures
        ({
            let (t, r) = s.create_database(db, if_not_exists, engine, options);
            &&& r matches Ok(id)
            &&& id > s.last_database_id
            &&& forall|d: Seq<char>| #[trigger]
                s.databases.contains_key(d) ==> s.databases[d].database_id < id
            &&& t.get_database(db) == Ok::<DatabaseInfoView, MetaErrorView>(
                DatabaseInfoView { database_id: id, db, engine, options },
            )
        }),
{
}

/// A table that is created gets an id that no table has and none had before;
/// asking for it afterwards gives that id and what the plan said.
pub proof fn law_created_table(
    s: CatalogState,
    db: Seq<char>,
    table: Seq<char>,
    if_not_exists: bool,
    schema: Seq<DataFieldView>,
    engine: Seq<char>,
    options: Map<String, String>,
)
    requires
        s.wf(),
        s.has_room(),
        db.len() > 0,
        table.len() > 0,
        s.databases.contains_key(db),
        !s.has_table(db, table),
    ensures
        ({
            let (t, r) = s.create_table(db, table, if_not_exists, schema, engine, options);
            &&& r matches Ok(id)
            &&& id > s.last_table_id
            &&& forall|d: Seq<char>, x: Seq<char>|
                #![trigger s.databases[d].tables[x]]
                s.has_table(d, x) ==> s.databases[d].tables[x].table_id < id
            &&& t.get_table(db, table) == Ok::<TableInfoView, MetaErrorView>(
                TableInfoView { table_id: id, db, name: table, schema, engine, options },
            )
        }),
{
}

/// After a database is dropped, asking for it fails with `UnknownDatabase`
/// and asking for a table in it fails with `UnknownTable`; a table that is
/// dropped is unknown afterwards.
pub proof fn law_dropped_is_unknown(s: CatalogState, db: Seq<char>, table: Seq<char>, other: Seq<char>)
    requires
        db.len() > 0,
        table.len() > 0,
    ensures
        s.drop_database(db, true).0.get_database(db) == Err::<DatabaseInfoView, MetaErrorView>(
            MetaErrorView::UnknownDatabase(db),
        ),
        s.drop_database(db, true).0.get_table(db, other) == Err::<TableInfoView, MetaErrorView>(
            MetaErrorView::UnknownTable(other),
        ),
        s.drop_table(db, table, true).0.get_table(db, table) == Err::<TableInfoView, MetaErrorView>(
            MetaErrorView::UnknownTable(table),
        ),
{
}

/// With a bound, the catalog counts as changed exactly when its meta-version
/// is above the bound; without one it always does.
pub proof fn law_changed_since(s: CatalogState, bound: u64)
    ensures
        s.changed_since(Some(bound)) <==> s.meta_ver > bound,
        !s.changed_since(Some(bound)) <==> s.meta_ver <= bound,
        s.changed_since(None),
{
}

} // verus!
