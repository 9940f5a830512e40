//! The decisions behind `commit`, an interactive tool that commits picked changes to
//! git or jj, pushes them, and helps to open a pull request.
//!
//! What touches the outside (the terminal, files, other programs) is left to the
//! caller. Where a flow asks for that between its decisions, it is a function from
//! what came of the last step to the next step: [`session`] for the whole, [`commit`]
//! and [`partial`] for making a commit, [`push`] and [`integrate`] for pushing it,
//! [`pr`] and [`revert`] for what follows, [`ai_loop`] for drafting. The changes and
//! what is selected of them are in [`tree`]; what holds of every tree is in
//! [`tree_laws`] and [`selection_laws`]. The screens are in [`ui`].

pub mod ai;
pub mod ai_loop;
pub mod commit;
pub mod forest;
pub mod integrate;
pub mod model;
pub mod partial;
pub mod patch;
pub mod paths;
pub mod pr;
pub mod prompt;
pub mod push;
pub mod repo;
pub mod revert;
pub mod selection_laws;
pub mod session;
pub mod settings;
pub mod text;
pub mod tree;
pub mod tree_laws;
pub mod ui;
pub mod vcs;
