//! The optimistic parallel core: rings and router, the per-process runtime with its
//! rollback protocol, and the coordinator that derives global virtual time.

pub mod antimessage;
pub mod calendar;
pub mod causality;
pub mod comms;
pub mod conservation;
pub mod gvt;
pub mod lp;
pub mod paragent;
