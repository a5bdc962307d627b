//! Standard paths, relative to the project root, of the production
//! artifacts and outputs.

use vstd::prelude::*;

verus! {

/// Feature schema of the trained models.
pub const FEATURES_SCHEMA: &'static str = "models/features_schema.json";

/// Standardization parameters.
pub const SCALER: &'static str = "models/scaler.json";

/// Ridge model (+24 h), binary form.
pub const RIDGE_BIN: &'static str = "models/ridge_model.bin";

/// Ridge model (+24 h), coefficients in JSON.
pub const RIDGE_MANUAL: &'static str = "models/ridge_manual.json";

/// Ridge model (+48 h), binary form.
pub const RIDGE_48H_BIN: &'static str = "models/ridge_48h_model.bin";

/// Ridge model (+48 h), coefficients in JSON.
pub const RIDGE_48H_MANUAL: &'static str = "models/ridge_48h_manual.json";

/// Ridge model (+72 h), binary form.
pub const RIDGE_72H_BIN: &'static str = "models/ridge_72h_model.bin";

/// Ridge model (+72 h), coefficients in JSON.
pub const RIDGE_72H_MANUAL: &'static str = "models/ridge_72h_manual.json";

/// Rain classifier (random forest).
pub const RAIN_RF_BIN: &'static str = "models/rain_rf_model.bin";

/// Rain classifier (bagging ensemble of forests).
pub const RAIN_BAGGING_BIN: &'static str = "models/rain_bagging_ensemble.bin";

/// Reliability bins of the rain classifier.
pub const RAIN_CALIBRATION: &'static str = "models/rain_calibration.json";

/// Monthly climatology per city.
pub const CLIMATOLOGY: &'static str = "models/climatology.json";

/// Production contract of the selected model.
pub const CONTRACT: &'static str = "models/production_contract.json";

/// Golden samples for end-to-end checks.
pub const GOLDEN_TEST: &'static str = "models/golden_test.json";

/// Reference distributions of the drift monitor.
pub const DRIFT_REFERENCE: &'static str = "models/drift_reference.json";

/// Directory of the daily prediction reports.
pub const PREDICTIONS_DIR: &'static str = "data/predictions";

/// Directory of the drift snapshots.
pub const MONITORING_HISTORY_DIR: &'static str = "data/monitoring_history";

/// The latest drift snapshot, rewritten on every run.
pub const MONITORING_LATEST: &'static str = "data/monitoring_history/latest.json";

/// Sorted index of the drift snapshots.
pub const MONITORING_INDEX: &'static str = "data/monitoring_history/index.json";

/// Directory of the static dashboard.
pub const DASHBOARD_DIR: &'static str = "docs/dashboard";

/// The project README that receives the live block.
pub const README: &'static str = "README.md";

} // verus!
