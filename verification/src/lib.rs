//! Codec for the PARAM.SFO key/value container: a header, a table of
//! fixed-size descriptors, a key table and a value table.
//!
//! A byte image is read into a [`container::Sfo`], changed by adding,
//! editing and deleting entries, and written back out. Every operation
//! has a contract over a plain view of the container,
//! [`container::SfoView`], and what holds between the operations is
//! proved in [`laws`] and [`reread`]:
//!
//! - an image that is read and written out again comes back byte for
//!   byte, exactly where it is tidy ([`laws::lemma_round_trip_iff_tidy`]);
//! - a container that is written out and read again comes back as it
//!   was ([`reread::lemma_export_parse_round_trip`]);
//! - deleting a key that was just added gives the container back
//!   ([`laws::lemma_delete_undoes_add`]);
//! - every change keeps the header, the descriptors, the keys and the
//!   values in agreement ([`container::SfoView::wf`]).
//!
//! New entries are put behind the existing ones. Adding a key that is
//! there already gives its entry the new value.

pub mod container;
pub mod draft;
pub mod error;
pub mod format;
pub mod header;
pub mod index_table;
pub mod keys;
pub mod laws;
pub mod mapping;
pub mod reading;
pub mod reread;
pub mod sums;
pub mod text;
pub mod wire;
