//! Keeps the exported symbols of plugin modules apart.
//!
//! Plugins that are loaded into one address space must not export a symbol
//! of the same name. This library decides, for every package of a build, the
//! prefix that its exported symbols get ([`resolve`], [`enforce`],
//! [`sanitize`], [`providers`], [`filter`]), and recovers from the built
//! artifacts which symbols they really export ([`image`], [`dump`],
//! [`extract`], [`duplicates`]). It records its decisions ([`trace`]) and
//! makes the texts of its logs and reports ([`logs`], [`report`]).
//!
//! The library reads no file, no environment and runs no program: its
//! callers do, and hand it what they found.

pub mod args;
pub mod dump;
pub mod duplicates;
pub mod enforce;
pub mod extract;
pub mod filter;
pub mod image;
pub mod logs;
pub mod providers;
pub mod report;
pub mod resolve;
pub mod sanitize;
pub mod setup;
pub mod text;
pub mod trace;
