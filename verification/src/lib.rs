//! Inference front and back end of the English Laya decision model.

pub mod agent;
pub mod batch;
pub mod decode;
pub mod description;
pub mod error;
pub mod json;
pub mod layout;
pub mod locate;
pub mod model;
pub mod object;
pub mod question;
pub mod sequence;
pub mod session;
pub mod text;
pub mod tokens;
pub mod value;
