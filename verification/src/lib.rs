//! FileMan: the verified core of a dual-pane file manager.

pub mod actions;
pub mod app;
pub mod app_action_laws;
pub mod app_dialogs;
pub mod app_dispatch;
pub mod app_file_laws;
pub mod app_files;
pub mod app_laws;
pub mod app_nav;
pub mod app_nav_laws;
pub mod app_pane_laws;
pub mod app_panes;
pub mod app_setting_laws;
pub mod app_settings;
pub mod app_tabs;
pub mod app_tasks;
pub mod archive;
pub mod browse;
pub mod config;
pub mod copy_walk;
pub mod db;
pub mod delete_job;
pub mod dialog;
pub mod entry_menu;
pub mod find;
pub mod fs_entry;
pub mod fs_ops;
pub mod icon_cache;
pub mod launcher;
pub mod listing;
pub mod migrate;
pub mod monitor;
pub mod native_drag;
pub mod pane;
pub mod path;
pub mod path_laws;
pub mod prefs;
pub mod progress;
pub mod rebind;
pub mod search;
pub mod session;
pub mod shell_menu;
pub mod shortcuts;
pub mod size_text;
pub mod sort;
pub mod store;
pub mod subdirs;
pub mod tab;
pub mod table;
pub mod taskbar;
pub mod text;
pub mod tips;
pub mod toast;
pub mod toolbar;
pub mod transfer;
pub mod transfer_job;
pub mod transfer_laws;
pub mod tree;
pub mod user;
pub mod win_default;
