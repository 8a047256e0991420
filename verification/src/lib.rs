//! Core of a bootable-medium preparation tool: it reads the fixed-layout
//! partition table of a disk image or block device, locates the boot
//! volume among the table's entries, and plans the placement of firmware
//! artifacts - either as raw byte writes at absolute device offsets or as
//! files at the boot volume's filesystem root, skipping files already
//! present. All access to a partition's contents goes through a bounded
//! region that clips every read, write and seek to the partition's byte
//! range.

pub mod apperror;
pub mod mbr;
pub mod partition;
pub mod store;
pub mod image_tools;
pub mod provision;
pub mod boards;
