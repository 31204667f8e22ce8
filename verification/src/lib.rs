//! Live statistics of a fuzzing campaign.
//!
//! The crate classifies the outcome of every test execution, keeps the
//! campaign-wide statistics snapshot, folds the state of the coverage table
//! and of the corpus store into it, and renders the snapshot as a compact log
//! record, as a field-named record and as a console summary.

pub mod chart;
pub mod columns;
pub mod decimal;
pub mod report;
pub mod show;
pub mod status_type;

pub use crate::chart::{ChartStats, Depot, Field, GlobalBranches};
pub use crate::report::LogRecord;
pub use crate::show::{init_stats, report, show_stats, Report, RunningLog, CHART_STAT_FILE};
pub use crate::status_type::{ExecResult, StatusType};
