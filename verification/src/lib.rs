//! Delta compression and patching in the bsdiff 4.x wire format.
//!
//! [`Bsdiff`] compares a source byte string with a target byte string and
//! emits a compact patch; [`Bspatch`] applies such a patch back onto the
//! source to reconstruct the target.  The patch container holds a 32-byte
//! header followed by three bzip2-compressed sections: control records,
//! byte-wise deltas, and verbatim extra bytes.

pub mod bsdiff;
pub mod bspatch;
pub mod bz;
pub mod cmd;
pub mod codec;
pub mod control;
pub mod error;
pub mod pack;
pub mod roundtrip;
pub mod similar;
pub mod suffix;
mod walk;

pub use bsdiff::Bsdiff;
pub use bsdiff::ParallelScheme;
pub use bspatch::Bspatch;
pub use bspatch::read_exact_or_eof;
pub use codec::decode_int;
pub use codec::encode_int;
pub use control::Control;
pub use error::Error;
