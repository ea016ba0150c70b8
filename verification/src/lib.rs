//! The lifecycle of self-certifying identifiers (AIDs) in the manner of KERI:
//! inception with a pre-rotation commitment, key rotation, the key event log
//! (KEL) of each identifier, signing, and the verification of signatures.
//!
//! The cryptography and the KERI event format are those of `keri_core`, and
//! the base64 text is that of `base64`; each call into them stands in a small
//! function of its own, marked as trusted, whose doc comment says what is
//! taken on trust. Everything around those calls is verified: the registry
//! and its invariants, the construction of events, the canonical text of a
//! rotation record with its reader, and the rules of verification.
//!
//! - [`keys`]: the key material of one identifier.
//! - [`commitment`]: commitments to the next keys.
//! - [`event`]: inception and rotation events and their canonical text.
//! - [`record`]: the text of a rotation record.
//! - [`inception`]: the shape of the text of an inception event.
//! - [`registry`]: the table of identifiers and the operations on it.
//! - [`verification`]: the check of a detached signature.
//! - [`encoding`]: base64 text.
//! - [`error`]: the failures that the operations report.

pub mod commitment;
pub mod encoding;
pub mod error;
pub mod event;
pub mod inception;
pub mod keys;
pub mod record;
pub mod registry;
pub mod verification;
