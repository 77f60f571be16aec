//! Turn resolution for a Sokoban-style puzzle: a grid of tagged entities
//! (player, boxes, box spots, walls, floor) that the player rearranges by
//! pushing boxes onto spots of their color.
//!
//! The entities live in a [`world::World`]. Once per tick three systems run
//! in a fixed order ([`systems`]): a key press is resolved into a push
//! ([`movement`]), the objective is evaluated ([`objective`]), and the events
//! of the turn are consumed ([`events`]). [`game::Game`] ties them together;
//! [`level`] reads a board from text and [`render`] says what to draw.

pub mod components;
pub mod entities;
pub mod events;
pub mod game;
pub mod level;
pub mod movement;
pub mod objective;
pub mod occupancy;
pub mod render;
pub mod resources;
pub mod systems;
pub mod world;
