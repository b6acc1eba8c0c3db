//! Pure logic around externally managed services: systemd unit states and
//! docker container listings. The bus calls and subprocess runs stay with
//! the caller; the parsers here take their output as plain strings.

pub mod docker;
pub mod systemd;
