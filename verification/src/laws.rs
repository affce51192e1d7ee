//! Cross-report laws.

use vstd::prelude::*;
use crate::columns::pairs_of;
use crate::dataset::DataSetView;
use crate::regional::regional_spec;
use crate::report1::report1_columns;
use crate::report2::contractor_spec;
use crate::report2::report2_columns;
use crate::report3::trend_spec;
use crate::reports::efficiency_columns;
use crate::summary::summary_spec;

verus! {

/// Idempotence: every report is a pure function of the dataset's rows and
/// headers, so re-running a report on the same dataset — or on any dataset
/// with equal rows and headers — produces identical rows.
pub proof fn lemma_reports_idempotent(a: DataSetView, b: DataSetView)
    requires
        a.matching_records == b.matching_records,
        a.headers == b.headers,
    ensures
        regional_spec(a.matching_records, efficiency_columns(a.headers), true) == regional_spec(
            b.matching_records,
            efficiency_columns(b.headers),
            true,
        ),
        regional_spec(a.matching_records, report1_columns(a.headers), false) == regional_spec(
            b.matching_records,
            report1_columns(b.headers),
            false,
        ),
        contractor_spec(a.matching_records, report2_columns(a.headers)) == contractor_spec(
            b.matching_records,
            report2_columns(b.headers),
        ),
        trend_spec(a.matching_records, crate::report3::report3_columns(a.headers)) == trend_spec(
            b.matching_records,
            crate::report3::report3_columns(b.headers),
        ),
        summary_spec(a.matching_records, a.headers) == summary_spec(b.matching_records, b.headers),
{
}

} // verus!
