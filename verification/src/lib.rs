//! Verified core of the race and points tracker: the shared race state,
//! the text rules that read race numbers and scores out of recognised
//! screen text, the pixel preprocessing that prepares frames for text
//! recognition, and the decisions of the capture and agent loops.
pub mod agents;
pub mod capture;
pub mod clock;
pub mod frame;
pub mod ocr;
pub mod pattern;
pub mod state;
pub mod text;
