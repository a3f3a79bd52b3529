pub mod accent;
pub mod terminal_theme;
pub mod selection;
pub mod window;
pub mod palette;
pub mod status_bar;
pub mod add_command_dialog;
pub mod path_completion;
pub mod sidebar;
