//! Device-facing data structures whose logic is verified: the mailbox
//! property-protocol codec and the framebuffer model.  The register
//! pokes that move these values to and from hardware live outside the
//! library.

pub mod framebuffer;
pub mod mailbox;
