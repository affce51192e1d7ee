//! The in-memory dataset every report consumes.

use vstd::prelude::*;

verus! {

/// Mathematical view of a dataset: header names and row cells as character
/// sequences.
pub struct DataSetView {
    pub total_rows: int,
    pub filtered_rows: int,
    pub matching_records: Seq<Seq<Seq<char>>>,
    pub headers: Seq<Seq<char>>,
}

/// An in-memory table of raw string cells: the header row, the rows kept by
/// the loader's date filter, and the loader's row counts. Immutable once
/// built; every report borrows it read-only.
pub struct DataSet {
    pub total_rows: i32,
    pub filtered_rows: i32,
    pub matching_records: Vec<Vec<String>>,
    pub headers: Vec<String>,
}

impl View for DataSet {
    type V = DataSetView;

    open spec fn view(&self) -> DataSetView {
        DataSetView {
            total_rows: self.total_rows as int,
            filtered_rows: self.filtered_rows as int,
            matching_records: self.matching_records.deep_view(),
            headers: self.headers.deep_view(),
        }
    }
}

} // verus!
