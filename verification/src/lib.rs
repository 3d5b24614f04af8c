//! Game logic of a voxel sandbox client: meshing, chunk streaming, level of
//! detail, the wire protocol's messages and rules, and the screens' state
//! machines, each stated in contracts and proved.

pub mod bits;
pub mod blocks;
pub mod camera;
pub mod channels;
pub mod chunk;
pub mod damage;
pub mod factory;
pub mod geometry;
pub mod greedy;
pub mod health;
pub mod hotbar;
pub mod i18n;
pub mod icons;
pub mod interact;
pub mod inventory;
pub mod item;
pub mod lists;
pub mod local;
pub mod lod_view;
pub mod menu;
pub mod mesh;
pub mod names;
pub mod nearest;
pub mod net_client;
pub mod net_server;
pub mod packed;
pub mod pause;
pub mod protocol;
pub mod remote;
pub mod screenshot;
pub mod seen;
pub mod session;
pub mod settings;
pub mod state;
pub mod streaming;
pub mod text;
pub mod view;
pub mod worlds;
