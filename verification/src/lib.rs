//! The decisions of a local order book feed.
//!
//! A node writes its order statuses, raw book diffs and fills to files. The feed reads those
//! files line by line, brings the blocks of the two order streams back together, keeps every
//! user's open orders, and answers the websocket clients that subscribe to it. This library
//! holds the state and the rules; sockets, files, clocks and JSON are left to the program around it.

pub mod address;
pub mod address_map;
pub mod answer_laws;
pub mod batch_queue;
pub mod blocks;
pub mod book;
pub mod data_laws;
pub mod dispatch;
pub mod grouping;
pub mod key_map;
pub mod levels;
pub mod lines;
pub mod listener;
pub mod listener_laws;
pub mod listener_view;
pub mod messages;
pub mod node_data;
pub mod open_orders;
pub mod open_orders_laws;
pub mod responses;
pub mod server;
pub mod server_laws;
pub mod step_laws;
pub mod subscription;
pub mod text;
pub mod time;
pub mod tracking_laws;
pub mod watch;
