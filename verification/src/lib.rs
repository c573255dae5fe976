//! Tools for writing commit messages: a splitter that cuts a large diff into
//! bounded chunks, and a categorizer that classifies a commit message and
//! stamps it with the marker of its category.
pub mod emotes;
pub mod git;
pub mod llm;
pub mod text;
