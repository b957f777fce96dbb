//! Injection of loadable modules into a freshly spawned, still-suspended
//! Win32 child process.
//!
//! The crate is split in two: this library holds everything that can be
//! stated and proved — the wire codec for initializer arguments and errors,
//! the command-line quoting scheme, the environment block, the layout of the
//! remote parameter block and thunk image, and the decision logic of the
//! injector — while the thin shell that performs the actual kernel calls
//! lives outside it and feeds plain values in and out.

pub mod cmdline;
pub mod codec;
pub mod envblock;
pub mod init;
pub mod inject;
pub mod process;
pub mod region;
pub mod thunk;

pub use codec::DecodeError;
pub use init::InitError;
pub use init::Shared;
pub use inject::Error;
pub use inject::Module;
pub use inject::ModuleBuilder;
pub use inject::ModuleBuilderWithInit;
