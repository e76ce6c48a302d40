//! Text storage for an interactive editor: a rope of grapheme clusters,
//! gap buffers of per-line widths and of wrapped display lines, and the
//! reversible commands that keep them in step.

pub mod app;
pub mod command;
pub mod edit_command_log;
pub mod gap_buffer;
pub mod graphemes;
pub mod lines;
pub mod lines_gap_buffer;
pub mod rc_substr;
pub mod rope;
pub mod text_editor_line;
pub mod text_representation;
