//! Options and statistics of data import and export.

use vstd::prelude::*;

verus! {

/// Export format.
#[derive(Debug, Clone, Copy, PartialEq, Eq, Structural)]
pub enum ExportFormat {
    Csv,
    Json,
    GraphMl,
}

/// Export options.
#[derive(Debug, Clone, Copy)]
pub struct ExportOptions {
    /// Pretty-print JSON output.
    pub pretty_json: bool,
    /// Write a header row in CSV.
    pub csv_header: bool,
    /// Rows between two progress reports.
    pub progress_interval: usize,
}

impl Default for ExportOptions {
    fn default() -> (r: ExportOptions)
        ensures
            r.pretty_json,
            r.csv_header,
            r.progress_interval == 10000,
    {
        ExportOptions { pretty_json: true, csv_header: true, progress_interval: 10000 }
    }
}

/// Import options.
#[derive(Debug, Clone)]
pub struct ImportOptions {
    /// Records per bulk write.
    pub batch_size: usize,
    /// Pass over invalid rows instead of failing.
    pub skip_errors: bool,
    /// Label of a vertex that names none.
    pub default_vertex_label: String,
    /// Label of an edge that names none.
    pub default_edge_label: String,
    /// Rows between two progress reports.
    pub progress_interval: usize,
}

impl Default for ImportOptions {
    fn default() -> (r: ImportOptions)
        ensures
            r.batch_size == 1000,
            !r.skip_errors,
            r.default_vertex_label@ == "Node"@,
            r.default_edge_label@ == "RELATES_TO"@,
            r.progress_interval == 10000,
    {
        ImportOptions {
            batch_size: 1000,
            skip_errors: false,
            default_vertex_label: "Node".to_owned(),
            default_edge_label: "RELATES_TO".to_owned(),
            progress_interval: 10000,
        }
    }
}

/// What an import did.
#[derive(Debug, Clone)]
pub struct ImportStats {
    pub vertices_imported: usize,
    pub edges_imported: usize,
    pub vertices_skipped: usize,
    pub edges_skipped: usize,
    pub errors: Vec<String>,
}

impl Default for ImportStats {
    fn default() -> (r: ImportStats)
        ensures
            r.vertices_imported == 0,
            r.edges_imported == 0,
            r.vertices_skipped == 0,
            r.edges_skipped == 0,
            r.errors@.len() == 0,
    {
        ImportStats {
            vertices_imported: 0,
            edges_imported: 0,
            vertices_skipped: 0,
            edges_skipped: 0,
            errors: Vec::new(),
        }
    }
}

impl ImportStats {
    /// Records an error message behind those recorded before.
    pub fn add_error(&mut self, error: String)
        ensures
            final(self).errors@ == old(self).errors@.push(error),
            final(self).vertices_imported == old(self).vertices_imported,
            final(self).edges_imported == old(self).edges_imported,
            final(self).vertices_skipped == old(self).vertices_skipped,
            final(self).edges_skipped == old(self).edges_skipped,
    {
        self.errors.push(error);
    }
}

} // verus!
