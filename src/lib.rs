//! Certificate revocation and storage state: the record codec, the key space,
//! an in-memory view of the key-value store, the CRLite filter set and the
//! state manager that ties them together; and what CSS math functions may
//! contain where they are parsed.

pub mod calc;
pub mod codec;
pub mod error;
pub mod filter;
pub mod keys;
pub mod kv;
pub mod lemmas;
pub mod outside;
pub mod semantics;
pub mod state;

pub use calc::{AllowAnchorPositioningFunctions, AllowParse, CalcUnits, MathFunction};
pub use codec::{Cert, CertHashList};
pub use error::SecurityStateError;
pub use filter::{CRLiteTimestamp, Filter};
pub use kv::{KvOp, KvStore, KvValue};
pub use state::{EncodedSecurityState, SecurityState};
