//! The names of the tables of a cluster, by table identifier.

use crate::encoding::push_char;
use std::collections::HashMap;
use vstd::prelude::*;
use vstd::string::StringExecFns;

verus! {

broadcast use vstd::std_specs::hash::group_hash_axioms;

/// A name as the schema endpoint tells it.
#[derive(Debug, PartialEq, Eq)]
pub struct DBName {
    pub o: String,
}

impl Clone for DBName {
    fn clone(&self) -> (copy: DBName)
        ensures
            copy.o@ == self.o@,
    {
        DBName { o: self.o.clone() }
    }
}

/// A database of the cluster.
#[derive(Clone, Debug, PartialEq, Eq)]
pub struct DBInfo {
    pub id: i64,
    pub db_name: DBName,
    pub state: i64,
}

/// An index of a table.
#[derive(Clone, Debug, PartialEq, Eq)]
pub struct IndexInfo {
    pub id: i64,
    pub name: DBName,
}

/// A partition of a table.
#[derive(Clone, Debug, PartialEq, Eq)]
pub struct PartitionDefinition {
    pub id: i64,
    pub name: DBName,
}

/// The partitions of a table.
#[derive(Clone, Debug, PartialEq, Eq)]
pub struct PartitionInfo {
    pub definitions: Vec<PartitionDefinition>,
}

/// A table of a database.
#[derive(Clone, Debug, PartialEq, Eq)]
pub struct TableInfo {
    pub id: i64,
    pub name: DBName,
    pub indices: Vec<IndexInfo>,
    pub partition: Option<PartitionInfo>,
}

/// What is known of a table or of a partition.
#[derive(Debug, PartialEq, Eq)]
pub struct TableDetail {
    pub name: String,
    pub db: String,
    pub id: i64,
}

/// A table detail as the contracts see it.
pub struct DetailView {
    pub name: Seq<char>,
    pub db: Seq<char>,
    pub id: i64,
}

impl View for TableDetail {
    type V = DetailView;

    open spec fn view(&self) -> DetailView {
        DetailView { name: self.name@, db: self.db@, id: self.id }
    }
}

impl Clone for TableDetail {
    fn clone(&self) -> (copy: TableDetail)
        ensures
            copy@ == self@,
    {
        TableDetail { name: self.name.clone(), db: self.db.clone(), id: self.id }
    }
}

/// The views of a list of details.
pub open spec fn detail_views(list: Seq<TableDetail>) -> Seq<DetailView> {
    list.map_values(|d: TableDetail| d@)
}

/// The detail of a table.
pub open spec fn table_detail(db: Seq<char>, table: TableInfo) -> DetailView {
    DetailView { name: table.name.o@, db, id: table.id }
}

/// The detail of a partition of a table: its name is that of the table, a
/// slash and that of the partition.
pub open spec fn partition_detail(db: Seq<char>, table: TableInfo, p: PartitionDefinition) -> DetailView {
    DetailView { name: table.name.o@ + seq!['/'] + p.name.o@, db, id: p.id }
}

/// The details of the first `n` partitions of a table.
pub open spec fn partition_details(db: Seq<char>, table: TableInfo, n: nat) -> Seq<DetailView>
    decreases n,
{
    if n == 0 {
        seq![]
    } else {
        match table.partition {
            Some(info) => partition_details(db, table, (n - 1) as nat).push(
                partition_detail(db, table, info.definitions@[n - 1]),
            ),
            None => seq![],
        }
    }
}

/// The details that a table gives: its own, then those of its partitions.
pub open spec fn details_of_table(db: Seq<char>, table: TableInfo) -> Seq<DetailView> {
    seq![table_detail(db, table)] + match table.partition {
        Some(info) => partition_details(db, table, info.definitions@.len()),
        None => seq![],
    }
}

/// The details that a table of database `db` gives.
pub fn table_details(db: &String, table: &TableInfo) -> (details: Vec<TableDetail>)
    ensures
        detail_views(details@) == details_of_table(db@, *table),
{
    let mut details: Vec<TableDetail> = Vec::new();
    details.push(TableDetail { name: table.name.o.clone(), db: db.clone(), id: table.id });
    proof {
        assert(detail_views(details@) =~= seq![table_detail(db@, *table)]);
    }
    match &table.partition {
        Some(info) => {
            let mut i: usize = 0;
            proof {
                assert(detail_views(details@) =~= seq![table_detail(db@, *table)]
                    + partition_details(db@, *table, 0));
            }
            while i < info.definitions.len()
                invariant
                    i <= info.definitions@.len(),
                    table.partition == Some(*info),
                    detail_views(details@) == seq![table_detail(db@, *table)] + partition_details(
                        db@,
                        *table,
                        i as nat,
                    ),
                decreases info.definitions@.len() - i,
            {
                let p = &info.definitions[i];
                let mut name = table.name.o.clone();
                push_char(&mut name, '/');
                name.append(p.name.o.as_str());
                let ghost before = detail_views(details@);
                let d = TableDetail { name, db: db.clone(), id: p.id };
                proof {
                    assert(d@.name =~= table.name.o@ + seq!['/'] + p.name.o@);
                    assert(d@ == partition_detail(db@, *table, *p));
                }
                details.push(d);
                proof {
                    assert(detail_views(details@) =~= before.push(d@));
                    assert(detail_views(details@) =~= seq![table_detail(db@, *table)]
                        + partition_details(db@, *table, (i + 1) as nat));
                }
                i = i + 1;
            }
        },
        None => {
            proof {
                assert(detail_views(details@) =~= details_of_table(db@, *table));
            }
        },
    }
    details
}

/// `m` with the details put in, one after the other: a later one replaces an
/// earlier one of the same identifier.
pub open spec fn with_details(m: Map<i64, DetailView>, details: Seq<DetailView>) -> Map<
    i64,
    DetailView,
>
    decreases details.len(),
{
    if details.len() == 0 {
        m
    } else {
        with_details(m, details.drop_last()).insert(details.last().id, details.last())
    }
}

/// `m` with the details of the first `n` tables of database `db` put in.
pub open spec fn with_tables(
    m: Map<i64, DetailView>,
    db: Seq<char>,
    tables: Seq<TableInfo>,
    n: nat,
) -> Map<i64, DetailView>
    decreases n,
{
    if n == 0 {
        m
    } else {
        with_details(
            with_tables(m, db, tables, (n - 1) as nat),
            details_of_table(db, tables[n - 1]),
        )
    }
}

/// The details of the tables, by identifier, and the version of the schema
/// that they belong to.
pub struct SchemaCache {
    cache: HashMap<i64, TableDetail>,
    schema_version: i64,
}

impl SchemaCache {
    /// The details by identifier.
    pub closed spec fn tables(&self) -> Map<i64, DetailView> {
        self.cache@.map_values(|d: TableDetail| d@)
    }

    /// The version of the schema.
    pub closed spec fn version(&self) -> i64 {
        self.schema_version
    }

    /// A cache without tables, of no version yet.
    pub fn new() -> (c: SchemaCache)
        ensures
            c.tables() == Map::<i64, DetailView>::empty(),
            c.version() == -1,
    {
        let c = SchemaCache { cache: HashMap::new(), schema_version: -1 };
        proof {
            assert(c.tables() =~= Map::<i64, DetailView>::empty());
        }
        c
    }

    /// The detail of the table with this identifier.
    pub fn get(&self, table_id: i64) -> (detail: Option<TableDetail>)
        ensures
            match detail {
                Some(d) => self.tables().contains_key(table_id) && d@ == self.tables()[table_id],
                None => !self.tables().contains_key(table_id),
            },
    {
        match self.cache.get(&table_id) {
            Some(d) => Some(d.clone()),
            None => None,
        }
    }

    /// The version of the schema.
    pub fn schema_version(&self) -> (v: i64)
        ensures
            v == self.version(),
    {
        self.schema_version
    }

    /// Notes a detail, in place of an earlier one with the same identifier.
    pub fn insert(&mut self, detail: TableDetail)
        ensures
            final(self).tables() == old(self).tables().insert(detail.id, detail@),
            final(self).version() == old(self).version(),
    {
        let ghost id = detail.id;
        let ghost view = detail@;
        self.cache.insert(detail.id, detail);
        proof {
            assert(self.tables() =~= old(self).tables().insert(id, view));
        }
    }

    /// Whether the tables of a database are wanted: not those of a database
    /// that is in no state.
    pub fn wants(db: &DBInfo) -> (wanted: bool)
        ensures
            wanted == (db.state != 0),
    {
        db.state != 0
    }

    /// Notes the tables of database `db` and their partitions.
    pub fn add_tables(&mut self, db: &DBInfo, tables: &Vec<TableInfo>)
        ensures
            final(self).tables() == with_tables(
                old(self).tables(),
                db.db_name.o@,
                tables@,
                tables@.len(),
            ),
            final(self).version() == old(self).version(),
    {
        let mut i: usize = 0;
        while i < tables.len()
            invariant
                i <= tables@.len(),
                self.version() == old(self).version(),
                self.tables() == with_tables(old(self).tables(), db.db_name.o@, tables@, i as nat),
            decreases tables@.len() - i,
        {
            let details = table_details(&db.db_name.o, &tables[i]);
            let ghost all = detail_views(details@);
            let ghost start = self.tables();
            let n = details.len();
            let mut j: usize = 0;
            proof {
                assert(all.take(0) =~= Seq::<DetailView>::empty());
            }
            for d in it: details
                invariant
                    j == it.index(),
                    n == it.seq().len(),
                    all == detail_views(it.seq()),
                    self.version() == old(self).version(),
                    self.tables() == with_details(start, all.take(j as int)),
            {
                proof {
                    assert(all.take(j + 1).drop_last() == all.take(j as int));
                    assert(all.take(j + 1).last() == d@);
                }
                self.insert(d);
                j = j + 1;
            }
            proof {
                assert(all.take(j as int) == all);
            }
            i = i + 1;
        }
    }

    /// Takes over the tables of `fresh` as those of schema version `version`.
    pub fn replace(&mut self, fresh: SchemaCache, version: i64)
        ensures
            final(self).tables() == fresh.tables(),
            final(self).version() == version,
    {
        self.cache = fresh.cache;
        self.schema_version = version;
    }
}

} // verus!
