//! An emulated OBD-II engine control unit: it answers "show current data"
//! broadcast requests on a CAN bus from a table of canned responses, and
//! cycles through the responses of parameters that change over time.

pub mod frame;
pub mod table;
pub mod cycler;
pub mod responder;
