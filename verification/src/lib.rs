pub mod assoc;
pub mod buffer;
pub mod bytes;
pub mod cli;
pub mod grid;
pub mod input;
pub mod keybindings;
pub mod layout;
pub mod lsp;
pub mod paths;
pub mod plugin;
pub mod problem_panel;
pub mod render;
pub mod session;
pub mod simd;
pub mod strs;
pub mod swap;
pub mod syntax;
pub mod terminal;
pub mod text;
pub mod undo;
pub mod unicode;
pub mod vsix_import;
pub mod vterm;
