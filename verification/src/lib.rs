//! Reading zkApp proofs: proofs that stand alone as base64 text, proofs in the
//! JSON of o1js, and proofs in the account updates of a `sendZkapp` mutation.

pub mod dummy;
pub mod error;
pub mod o1js;
pub mod padding;
pub mod reader;
pub mod sexp;
pub mod text;
pub mod zkapp;

pub use error::{Base64Error, ParseError, SexpError};
pub use o1js::{parse_o1js_proof_json, O1jsProofJson, ParsedO1jsProof};
pub use padding::{pad_proof_sexp_to_n2, pad_wrap_challenges, CHALLENGES_PER_ENTRY};
pub use reader::{has_fitting_escapes, proof_from_b64_sexp};
pub use sexp::SExpr;
pub use zkapp::{
    extract_first_proof, parse_graphql_zkapp, take_transaction, Context, Control, Executed,
    Mutation, ParsedZkappTransaction, Query, UserCommand, ZkappCommand,
};
