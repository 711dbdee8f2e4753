//! A Wayland transport over the cross-domain context of a virtio GPU.
//!
//! The guest talks to the host compositor by submitting commands to the GPU
//! and by reading what the host writes into two shared pages. This crate holds
//! everything that decides what is said: the wire formats, the order of the
//! requests that the card has to serve, and what each answer leads to. It
//! performs no input or output itself. Each operation is a small machine that
//! asks for one [`request::Request`] at a time and is driven on with the
//! [`request::Reply`] that the card gave.
pub mod blob;
pub mod bytes;
pub mod cache;
pub mod channel;
pub mod connect;
pub mod context;
pub mod identify;
pub mod iov;
pub mod laws;
pub mod layout;
pub mod metadata;
pub mod name;
pub mod platform;
pub mod promises;
pub mod protocol;
pub mod receive;
pub mod request;
pub mod ring;
pub mod send;
pub mod submit;
pub mod wire;

pub use channel::VirtgpuChannel;
pub use name::transmute_vec;
