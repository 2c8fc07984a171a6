//! Simulation core of a turn-based game for two players on a hexagonal grid.
//!
//! A server and its clients each hold a [`state::GameState`]. The server
//! offers its state the events that clients send, consumes those that the
//! state accepts, and sends them on; each client consumes what the server
//! sent, in order. Two states that consumed the same events are equal, so
//! the history of events is all that has to travel.
//!
//! - [`coords`]: cube coordinates, their sums, rotations and distances.
//! - [`rounding`]: the cell nearest to a fractional coordinate.
//! - [`line`]: the straight line of cells between two cells.
//! - [`plane`]: the position of a cell in the plane, and the cell at a
//!   position.
//! - [`game_objects`]: the objects that players place, and the cells that an
//!   object occupies at an anchor and a rotation.
//! - [`occupancy`]: which object lies on which cell.
//! - [`board`]: the cells of the bounded board.
//! - [`ships`]: a ship as cells that turn about a centre.
//! - [`events`], [`state`]: the events, the rule that accepts them and the
//!   step that applies them.
//! - [`server`]: what the host does when a client connects, disconnects or
//!   sends an event.
//! - [`user_data`]: the name that a client sends when it connects.
//!
//! Every function is verified against its contract, but for the four that
//! call a hash map of the `bevy` engine or `String::from_utf8`: their
//! contracts state what those outside functions are taken to do. Where a
//! contract has a
//! `requires`, a caller outside verified code tests the condition first:
//! [`state::GameState::is_consistent`] and
//! [`state::GameState::validade`] before
//! [`state::GameState::consume`], [`coords::CubeCoords::is_cell`] and
//! [`game_objects::can_lie_at`] before a footprint is computed.

pub mod board;
pub mod coords;
pub mod events;
pub mod game_objects;
pub mod line;
pub mod occupancy;
pub mod plane;
pub mod rounding;
pub mod server;
pub mod ships;
pub mod state;
pub mod user_data;
