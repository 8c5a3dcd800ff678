//! GOS kernel logic: the pure, checkable core of the graph-native kernel's
//! plugins, filesystem reader, framebuffer and supervisor bookkeeping.

pub mod bytebuf;
pub mod protocol;
pub mod cuda_host;
pub mod fb;
pub mod assets;
pub mod heap_verify;
pub mod vfs;
pub mod fat32;
pub mod ime;
pub mod mouse;
pub mod cpuid;
pub mod supervisor;
pub mod cypher;
pub mod ai;
pub mod chat;
pub mod trap;
pub mod task;
pub mod ring3;
pub mod boot;
pub mod desktop;
pub mod desk_ui;
pub mod desk_draw;
