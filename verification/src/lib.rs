//! A local credential vault: records are kept encrypted at rest under one master password.

pub mod cipher;
pub mod cli;
pub mod clip;
pub mod codec;
pub mod migrate;
pub mod payload;
pub mod primitives;
pub mod record;
pub mod safe_string;
pub mod safe_vec;
pub mod unlock;
pub mod vault;
pub mod wire;
