//! A configuration server: repositories mirrored from remote sources, served over
//! authenticated paths, with embedded secrets decrypted when a file is read.
//!
//! - [`config`]: the settings, repository lookup and access control;
//! - [`secret`]: encryption and decryption of secret values;
//! - [`tokens`]: finding and replacing the secret tokens of a file;
//! - [`pipeline`]: what happens to a request, from its credentials to its answer;
//! - [`watcher`]: the clone-and-refresh life of a mirror, published a whole generation at a time;
//! - [`text`]: the character-level helpers they share.
pub mod config;
pub mod pipeline;
pub mod secret;
pub mod text;
pub mod tokens;
pub mod watcher;
