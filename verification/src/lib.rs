//! Verified core of the kanidm provisioning sidecar: the state model, the
//! JSON merge of provisioning documents, and the decisions of the
//! reconciliation loop.
pub mod documents;
pub mod endpoints;
pub mod icons;
pub mod json;
pub mod json_laws;
pub mod merged;
pub mod merged_laws;
pub mod order;
pub mod secrets;
pub mod sources;
pub mod state;
pub mod watch;
