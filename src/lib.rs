//! Song-request intake: dialogue state machine, message routing, the
//! submission log's line format and the greeting timer.
pub mod dialogue;
pub mod greeting;
pub mod record;
pub mod router;
pub mod sender;
pub mod text;
