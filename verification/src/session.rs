//! The session: the one table that is live, and the sources it came from.
//!
//! A load replaces both wholesale. Reads and the one mutation, deriving a
//! column, go through the session, so that whoever shares it behind a lock
//! has a single place to guard.

use vstd::prelude::*;
use crate::cell::accepts_all;
use crate::config::{column_name, DeriveConfig, DeriveError, Operator};
use crate::derive::{derive_column, derived};
use crate::headers::{addressed, index_of};
use crate::merge::{merge_tables, merged, MergeError};
use crate::plan::recipe_of;
use crate::project::{batch_at, batch_end, get_data, next_batch, projection, Emission};
use crate::table::{copy_names, names, tables_of, CsvMetadata, ProcessedData, Table};

verus! {

/// Why a session could not serve a request.
#[derive(Debug, Clone, Copy, PartialEq, Eq)]
pub enum SessionError {
    /// Nothing has been loaded yet.
    NoData,
    /// The derivation was rejected; the table is as it was.
    Rejected(DeriveError),
}

/// The live table, if any, and the paths of the sources that produced it.
pub struct Session {
    pub table: Option<ProcessedData>,
    pub sources: Vec<String>,
}

impl Session {
    /// The table that is live, if any.
    pub open spec fn live(&self) -> Option<Table> {
        match self.table {
            Some(table) => Some(table@),
            None => None,
        }
    }

    /// A session with nothing loaded.
    pub fn new() -> (out: Session)
        ensures
            out.live() is None,
            out.sources@.len() == 0,
    {
        Session { table: None, sources: Vec::new() }
    }

    /// Replaces the live table and its sources, and reports the headers and
    /// the row count of the new table.
    pub fn load(&mut self, table: ProcessedData, sources: Vec<String>) -> (out: CsvMetadata)
        ensures
            final(self).table == Some(table),
            final(self).sources == sources,
            names(out.headers@) == table@.headers,
            out.total_rows == table@.rows.len(),
    {
        let out = table.summary();
        self.table = Some(table);
        self.sources = sources;
        out
    }

    /// Merges the tables of a load and makes the result the live table. A
    /// load of no table fails and leaves the session as it was.
    pub fn load_merged(&mut self, tables: &Vec<ProcessedData>, sources: Vec<String>) -> (out: Result<
        CsvMetadata,
        MergeError,
    >)
        ensures
            tables@.len() == 0 <==> out is Err,
            out is Err ==> out->Err_0 == MergeError::NoTables && *final(self) == *old(self),
            out is Ok ==> {
                &&& final(self).live() == Some(merged(tables_of(tables@)))
                &&& final(self).sources == sources
                &&& names(out->Ok_0.headers@) == merged(tables_of(tables@)).headers
                &&& out->Ok_0.total_rows == merged(tables_of(tables@)).rows.len()
            },
    {
        match merge_tables(tables) {
            Ok(table) => Ok(self.load(table, sources)),
            Err(e) => Err(e),
        }
    }

    /// The paths of the sources that produced the live table.
    pub fn loaded_sources(&self) -> (out: Vec<String>)
        ensures
            names(out@) == names(self.sources@),
    {
        copy_names(&self.sources)
    }

    /// The live table reduced to the requested columns.
    pub fn get_data(&self, sensors: &Vec<String>) -> (out: Result<ProcessedData, SessionError>)
        ensures
            match self.live() {
                Some(table) => out is Ok && out->Ok_0@ == projection(table, names(sensors@)),
                None => out is Err && out->Err_0 == SessionError::NoData,
            },
    {
        match &self.table {
            Some(table) => Ok(get_data(table, sensors)),
            None => Err(SessionError::NoData),
        }
    }

    /// The next step of a batched export of the live table.
    pub fn next_batch(&self, sensors: &Vec<String>, cursor: usize, size: usize) -> (out: Result<
        Emission,
        SessionError,
    >)
        requires
            size > 0,
        ensures
            match self.live() {
                Some(table) => {
                    &&& out is Ok
                    &&& out->Ok_0 is End <==> cursor >= table.rows.len()
                    &&& out->Ok_0 is Batch ==> {
                        &&& out->Ok_0->data@ == batch_at(table, names(sensors@), cursor as int, size as int)
                        &&& out->Ok_0->next == batch_end(table.rows.len() as int, cursor as int, size as int)
                    }
                },
                None => out is Err && out->Err_0 == SessionError::NoData,
            },
    {
        match &self.table {
            Some(table) => Ok(next_batch(table, sensors, cursor, size)),
            None => Err(SessionError::NoData),
        }
    }

    /// Derives a column on the live table and returns its name. A rejected
    /// request, or one on a session without a table, changes nothing.
    pub fn derive<F: Fn(Operator, u64, u64) -> u64>(
        &mut self,
        selected: &Vec<String>,
        config: &DeriveConfig,
        unit: &F,
    ) -> (out: Result<String, SessionError>)
        requires
            accepts_all(unit),
        ensures
            final(self).sources == old(self).sources,
            match old(self).live() {
                None => out is Err && out->Err_0 == SessionError::NoData && final(self).live() is None,
                Some(before) => match recipe_of(before.headers, names(selected@), *config) {
                    Ok(recipe) => {
                        &&& out is Ok
                        &&& out->Ok_0@ == column_name(names(selected@), *config)
                        &&& final(self).live() is Some
                        &&& derived(
                            unit,
                            recipe,
                            column_name(names(selected@), *config),
                            before,
                            final(self).live()->0,
                        )
                        &&& index_of(final(self).live()->0.headers, column_name(names(selected@), *config))
                            == addressed(before.headers, column_name(names(selected@), *config))
                    },
                    Err(e) => out is Err && out->Err_0 == SessionError::Rejected(e) && final(self).table == old(
                        self,
                    ).table,
                },
            },
    {
        match self.table.take() {
            None => Err(SessionError::NoData),
            Some(table) => {
                let mut live = table;
                let result = derive_column(&mut live, selected, config, unit);
                self.table = Some(live);
                match result {
                    Ok(name) => Ok(name),
                    Err(e) => Err(SessionError::Rejected(e)),
                }
            },
        }
    }
}

} // verus!
