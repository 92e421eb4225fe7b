//! A retained-mode toolkit for frosted-glass user interfaces: the logic that
//! decides what is drawn, what moves and what is hit, proved against its
//! contracts. Windows, GPU calls and fonts live with the host program.
#![allow(unused_imports)]

pub mod scalar;
pub mod order;
pub mod signal;
pub mod layout;
pub mod gpu;
pub mod dirty;
pub mod node;
pub mod tree;
pub mod tree_laws;
pub mod scroll;
pub mod flatten;
pub mod flatten_laws;
pub mod bar_laws;
pub mod thumb_laws;
pub mod paint_laws;
pub mod scroll_laws;
pub mod consistency;
pub mod input;
pub mod pointer_laws;
pub mod anim;
pub mod anim_laws;
pub mod spring_laws;
pub mod tween_laws;
pub mod scalar_laws;
pub mod reactive;
pub mod scene;
pub mod overlay;
pub mod overlay_laws;
pub mod hud;
pub mod frame_laws;
pub mod image_laws;
pub mod scene_laws;
pub mod binds;
pub mod bind_laws;
pub mod config;
pub mod app;
pub mod event_laws;
pub mod instance_laws;
pub mod headless;
pub mod text;
pub mod pixels;
pub mod splash;
pub mod splash_laws;
