//! A workbench of small verified components around one core: a growable
//! contiguous buffer that reserves its region lazily and doubles it on
//! exhaustion. Around it stand a singly linked list, slice iterators, a
//! double-ended flattener, string splitters that cut text by its UTF-8
//! bytes, a line-oriented key-value store, and a few arithmetic pieces.

pub mod buffer;
pub mod cell;
pub mod database;
pub mod fib;
pub mod gcd;
pub mod iterators;
pub mod linked_list;
pub mod ranges;
pub mod search;
pub mod slice_iter;
pub mod spell;
pub mod split_delim;
pub mod split_str;
pub mod text;
pub mod tray;
