//! A static-route tray manager's logic: IPv4 route parameters and the `route` command,
//! the routing-table listing, the route list's life cycle, interface traffic and rates,
//! and the texts the window shows. Everything here is verified with Verus; the window,
//! the tray, the system calls and the configuration file live in the program around it.
pub mod locale;
pub mod text;
pub mod ipv4;
pub mod config;
pub mod route_manager;
pub mod traffic;
pub mod routes;
pub mod gui;
pub mod icon;
