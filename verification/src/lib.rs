//! A fixer for mistyped shell commands. The library holds the two verified
//! cores: the correction engine, which turns a command line and the user's
//! override rules into ranked fix candidates, and the shell-history layer,
//! which infers a history file's dialect and extracts the most recent real
//! command from its text. Around them sit the user configuration, the
//! cleanup of AI answers, and the small decisions of installation and
//! prompting.

pub mod ai;
pub mod config;
pub mod corrections;
pub mod history;
pub mod setup;
pub mod text;
