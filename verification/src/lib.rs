//! Battery charging simulation for transport micro-simulation traces.
//!
//! The library turns a population of agents, their daily activity and travel
//! plans, and a road network into per-agent electric-vehicle charging
//! schedules.  All energies are held as integers in milli-kilowatt-seconds
//! (mkWs), distances in millimetres and charge rates in milli-kilowatts, so
//! that every computation is exact.

pub mod arith;
pub mod battery;
pub mod charge_plan;
pub mod codec;
pub mod config;
pub mod events;
pub mod filter;
pub mod group;
pub mod groups;
pub mod handler;
pub mod kvmap;
pub mod matsim;
pub mod network;
pub mod optimise;
pub mod peek;
pub mod population;
pub mod record;
pub mod results;
pub mod sampler;
pub mod scoring;
pub mod sim;
pub mod trace;
pub mod tracer;
pub mod xml;
