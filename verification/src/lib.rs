//! lazynb: the logic of a lazygit-style terminal UI for the `nb` notebook
//! CLI. Reading `nb`'s output, the note markup (`[[links]]`, `#tags`), the
//! browse state, the overlays (pickers, the nb shell, live search) and the
//! relationship graph's edges. Running `nb` and `rg`, reading files and
//! drawing are left to the application.

pub mod app;
pub mod cli;
pub mod graph;
pub mod markup;
pub mod nb;
pub mod overlay;
pub mod path;
pub mod search;
pub mod text;
