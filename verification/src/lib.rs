//! Dispatch-and-ordered-reassembly engine of a command-line tool that runs a
//! command once per input element, in parallel, and replays each job's output
//! in the original input order.
//!
//! The verified library holds the decision logic: the argument parser, the
//! command-template tokenizer and materialiser, the per-job path allocator,
//! the buffered log writer, and the ordered receiver that re-serialises
//! out-of-order completion messages. The surrounding process work (spawning
//! children, reading and deleting capture files, the channel itself) lives
//! outside the library and consumes these functions.

pub mod arguments;
pub mod digits;
pub mod disk_buffer;
pub mod filepaths;
pub mod inputs;
pub mod receive;
pub mod reorder;
pub mod tokens;
