//! The remaining stored and reported record types.

use vstd::prelude::*;

verus! {

/// One production line as stored: its watch folder, file predicate,
/// dashboard intervals, disposition folders, mapping parameters and
/// observable state.
#[derive(Debug, Clone)]
pub struct Line {
    pub id: Option<i64>,
    pub name: String,
    pub path: String,
    pub prefix: String,
    pub interval_check: i64,
    pub interval_alert: i64,
    pub archived_path: Option<String>,
    pub rejected_path: Option<String>,
    pub active: bool,
    pub site: Option<String>,
    pub unite: Option<String>,
    pub flag_dec: Option<String>,
    pub code_ligne: Option<String>,
    pub log_path: Option<String>,
    pub file_format: Option<String>,
    pub total_traites: Option<i64>,
    pub total_erreurs: Option<i64>,
    pub last_file_time: Option<String>,
    pub etat_actuel: Option<String>,
    pub created_at: Option<String>,
}

/// The result of a stand-alone connection test.
#[derive(Debug, Clone)]
pub struct ConnectionTestResult {
    pub success: bool,
    pub error: Option<String>,
}

/// The stored settings of the legacy ODBC database.
#[derive(Debug, Clone)]
pub struct HfsqlConfig {
    pub id: i64,
    pub dsn: Option<String>,
    pub username: Option<String>,
    pub password: Option<String>,
    pub log_path: Option<String>,
}

/// The result of a connection test against the legacy ODBC database.
#[derive(Debug, Clone)]
pub struct HfsqlConnectionTestResult {
    pub success: bool,
    pub error: Option<String>,
}

/// The tally of one reference-data synchronization run.
#[derive(Debug, Clone)]
pub struct ArticleSyncResult {
    pub total_processed: i64,
    pub updated: i64,
    pub inserted: i64,
    pub errors: i64,
    pub error_details: Vec<String>,
}

} // verus!
