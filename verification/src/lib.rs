//! Verified core of the Gomoku bot evaluation lab: bot labels, CPU-time
//! budget pooling, tournament planning, replay sampling, the
//! classification rules of replay analysis, local threat shapes, proof
//! markers and snapshots, fixture comparison, and the labels and HTML
//! fragments of the reports.
pub mod text;
pub mod bot_label;
pub mod budget;
pub mod board;
pub mod arena;
pub mod tournament;
pub mod analysis;
pub mod replay_summary;
pub mod html;
pub mod analysis_report;
pub mod report_replay;
pub mod published;
pub mod proof_markers;
pub mod fixture;
pub mod fixture_html;
pub mod lethal;
pub mod batch_labels;
pub mod eval_options;
pub mod threats;
pub mod proof_snapshots;
pub mod node_verdicts;
