//! A small JSON text codec: a scanner that cuts raw value text out of JSON,
//! flat stores of that raw text, and typed conversions in both directions.
pub mod classify;
pub mod codec;
pub mod laws;
pub mod scanner;
pub mod store;
pub mod text;

pub use classify::JsonType;
pub use codec::{FromJson, JsonParseError, JsonRetrieve, ToJson};
pub use store::{JsonArray, JsonObject};
