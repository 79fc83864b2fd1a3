//! A minimal static-file server's library: the request parser, the file
//! cache with invalidation driven by file system changes, and the text
//! helpers they share. Sockets, disk reads and the file system watcher are
//! left to the program that uses it.
use vstd::prelude::*;

pub mod filestore;
pub mod http;
pub mod text;

verus! {

} // verus!
