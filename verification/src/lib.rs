//! Budget enforcement for the LAU construct: the exact, integer-valued parts of the
//! conservation guard. Operation kinds and their base costs, receipt identifiers, the
//! ranking of spenders and the layout of the conservation report are computed and
//! proved here; amounts themselves are floating-point values held by the caller, who
//! hands this library their rank keys and their written-out form.

pub mod operation;
pub mod ranking;
pub mod receipt;
pub mod report;

pub use operation::{BaseCost, OperationType};
pub use ranking::rank_descending;
pub use receipt::receipt_id;
pub use report::{top_spenders, ReportEntry, ReportText, Spender, Tally, TOP_SPENDER_LIMIT};
