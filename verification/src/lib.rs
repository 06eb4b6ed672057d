//! Conventional commits and semantic versions.
//!
//! A commit message is split into paragraphs ([`commit_message`]), the
//! paragraphs are read as header, body and footer of a conventional commit
//! ([`conventional_commit`]), and the commit says how a semantic version
//! moves on ([`semantic_version`]). The modules [`commit_msg`] and
//! [`prepare_msg`] hold what the git hooks of these names need besides.

pub mod base;
pub mod commit_message;
pub mod commit_msg;
pub mod conventional_commit;
pub mod pattern;
pub mod prepare_msg;
pub mod semantic_version;
pub mod text;
