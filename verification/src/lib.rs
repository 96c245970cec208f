//! Joke greeting: the rules behind a login-message joke fetcher.
//!
//! The library holds everything that is decided or computed: how filters
//! become a request URL and a launcher command line, how a joke is laid out
//! as text, how the launch line is taken out of and added to a shell
//! profile's contents, and which action a set of arguments selects.
//! Reading and writing files, the HTTP request and argument parsing are left
//! to the program around it.

pub mod filters;
pub mod joke;
pub mod profile;
pub mod script;
pub mod text;
