//! A host for region observers: it keeps them in order and takes each hook
//! through them until one ends the dispatch.
pub mod bench;
pub mod dispatch;
pub mod dispatcher;
pub mod entry;
pub mod hook;
pub mod journal;
pub mod laws;
pub mod messages;
pub mod observer;
