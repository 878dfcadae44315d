//! A sans-I/O core for installing and removing toolchain components.
//!
//! The crate decides; its caller acts. Every change to the install prefix is
//! handed out as a [`effect::Request`], and what the filesystem answered comes
//! back as an [`effect::Outcome`]. Nothing in here opens a file.
//!
//! - [`path`], [`prefix`], [`part`] and [`text`]: paths, the places of the
//!   metadata, and the lines that the metadata files hold.
//! - [`transaction`]: the log of changes, with commit and rollback.
//! - [`script`]: a list of steps run against a transaction.
//! - [`components`] and [`uninstall`]: installing and removing a component.
//! - [`prune`] and [`order`]: the directories that may go with a component.
//! - [`model`] and [`registry`]: what the requests mean, and the laws that
//!   follow: a rollback gives back every file, and the list of components
//!   and the manifests stay in step.
//! - [`process`], [`notify`] and [`log`]: the process around it, and what is
//!   told to the user.

pub mod components;
pub mod effect;
pub mod error;
pub mod log;
pub mod model;
pub mod notify;
pub mod order;
pub mod part;
pub mod path;
pub mod prefix;
pub mod process;
pub mod prune;
pub mod registry;
pub mod script;
pub mod text;
pub mod transaction;
pub mod uninstall;
