//! Verified core of a desktop controller for the HoloCubic USB display.

pub mod actions;
pub mod bridge;
pub mod calendar;
pub mod calendar_data;
pub mod calls;
pub mod canvas;
pub mod codes;
pub mod console;
pub mod contexts;
pub mod dates;
pub mod device;
pub mod face;
pub mod home;
pub mod json;
pub mod link;
pub mod mirror;
pub mod model;
pub mod outside;
pub mod playlist;
pub mod preload;
pub mod protocol;
pub mod radar;
pub mod radar_data;
pub mod readback;
pub mod reasons;
pub mod render;
pub mod script;
pub mod sheet;
pub mod site;
pub mod tally;
pub mod task;
pub mod text;
pub mod trace;
pub mod typed;
pub mod usb;
pub mod wrap;
