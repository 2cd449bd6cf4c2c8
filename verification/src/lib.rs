//! The logic of MSX Media Explorer, a browser for MSX disk and tape images,
//! with its behaviour stated in contracts and proved: file-name rules, the
//! file tree's filtering, keyboard navigation and shortcuts, the hex view's
//! geometry and text, the sector viewer and disk-usage map, the volumes of
//! multi-volume images, the reports and listings the views show, the
//! persisted settings, and the update check's decisions.

pub mod browse;
pub mod disk_search;
pub mod diskmap;
pub mod entry;
pub mod goto_rules;
pub mod extract;
pub mod glob_rules;
pub mod fileinfo;
pub mod hexlayout;
pub mod hexui;
pub mod i18n;
pub mod info;
pub mod inspector;
pub mod kept_paths;
pub mod menu;
pub mod menu_rules;
pub mod names;
pub mod nav_rules;
pub mod paths;
pub mod render;
pub mod sector_view;
pub mod selection;
pub mod settings;
pub mod shortcuts;
pub mod state;
pub mod tape;
pub mod text;
pub mod tree_filter;
pub mod tree_nav;
pub mod update;
pub mod version_rules;
pub mod views;
pub mod volumes;
