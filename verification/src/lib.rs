//! Monitors for classic synchronisation problems: the state that each
//! problem's lock protects, and the decisions taken under that lock.
pub mod car_bridge;
pub mod smokers;
pub mod philosopher;
pub mod table;
pub mod barber_shop;
pub mod producer_consumer_monitor;
pub mod producer_consumer_channels;
pub mod readers_writers;
