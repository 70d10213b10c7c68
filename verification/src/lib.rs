//! A hub-and-node mesh: nodes reverse-dial a hub, register their links, and
//! consumers discover the live topology and route calls to a chosen link.

pub mod hub;
pub mod link_auth;
pub mod node;
pub mod protocol;
pub mod sorted_map;
pub mod text;
