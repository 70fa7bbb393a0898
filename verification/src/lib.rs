//! Decoder for recorded socket traces: the two-line text records that an
//! in-kernel instrumentation layer writes for every send and receive on a
//! socket, turned into structured socket events.
//!
//! A record is a header line and a payload line. The header is taken
//! apart by a fixed grammar (`grammar`) and its tokens are turned into the
//! fields of an event (`header`), with the help of the codecs for socket
//! addresses (`address`) and timestamps (`timestamp`) and of a vocabulary
//! of application protocols (`protocol`). The payload line holds the
//! captured bytes (`payload`). A dump is read record by record (`dump`).
//! Beside the decoder stand a builder for debug output (`debug`) and a
//! builder for the settings of a flow map under test (`tester`).

pub mod address;
pub mod debug;
pub mod dump;
pub mod event;
pub mod grammar;
pub mod header;
pub mod payload;
pub mod protocol;
pub mod tester;
pub mod text;
pub mod timestamp;
