//! Compilation pipeline and source/page synchronization for a LaTeX editor.
//!
//! The library decides; the program around it performs. It holds:
//! - `diagnostics`: engine output turned into `(line, message)` records;
//! - `fingerprint`: content fingerprints that decide whether the
//!   bibliography tool must run again;
//! - `synctex`: the synchronization index and the two search directions;
//! - `compile`: the compile worker as a state machine, and the consumer
//!   that drains its messages;
//! - `tools`: where the helper programs are looked for.
pub mod compile;
pub mod diagnostics;
pub mod fingerprint;
pub mod synctex;
pub mod text;
pub mod tools;
