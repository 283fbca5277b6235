//! The decision logic of a desktop shell around the `dsh web` server.
//!
//! The shell starts the server, waits until its page can be shown, shows it in
//! a frameless window and kills the server when it ends. What it decides on the
//! way is here; what it reads, sends and calls of the platform is not.
pub mod destination;
pub mod filename;
pub mod percent;
pub mod port;
pub mod process;
pub mod scripts;
pub mod server_url;
pub mod startup;
pub mod text;
pub mod web_url;
pub mod window;
