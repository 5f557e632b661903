//! Symbol filtering for static libraries.
#![allow(unused_imports)]

pub mod android;
pub mod blocklist;
pub mod command;
pub mod deffile;
pub mod elf;
pub mod extract;
pub mod formats;
pub mod headers;
pub mod imports;
pub mod inspect;
pub mod keep;
pub mod librarian;
pub mod linux;
pub mod lists;
pub mod macos;
pub mod names;
pub mod nm;
pub mod order;
pub mod patch;
pub mod rename;
pub mod scan;
pub mod target;
pub mod text;
pub mod verify;
pub mod windows;
