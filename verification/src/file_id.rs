//! Stable identities of filesystem objects.

use vstd::prelude::*;

verus! {

/// Identifies a filesystem object independently of the path it is reached by.
///
/// Two paths with the same `FileId` name the same object.
#[derive(Clone, Copy, Debug, PartialEq, Eq, Structural, Hash)]
pub enum FileId {
    /// Device and inode number, as on Unix.
    Inode { device_id: u64, inode_number: u64 },
    /// Volume serial number and file index, as on older Windows file systems.
    LowRes { volume_serial_number: u32, file_index: u64 },
    /// Volume serial number and 128-bit file id.
    HighRes { volume_serial_number: u64, file_id: u128 },
}

impl FileId {
    /// An identity made of a device and an inode number.
    pub fn new_inode(device_id: u64, inode_number: u64) -> (id: FileId)
        ensures
            id == (FileId::Inode { device_id, inode_number }),
    {
        FileId::Inode { device_id, inode_number }
    }

    /// An identity made of a volume serial number and a file index.
    pub fn new_low_res(volume_serial_number: u32, file_index: u64) -> (id: FileId)
        ensures
            id == (FileId::LowRes { volume_serial_number, file_index }),
    {
        FileId::LowRes { volume_serial_number, file_index }
    }

    /// An identity made of a volume serial number and a 128-bit file id.
    pub fn new_high_res(volume_serial_number: u64, file_id: u128) -> (id: FileId)
        ensures
            id == (FileId::HighRes { volume_serial_number, file_id }),
    {
        FileId::HighRes { volume_serial_number, file_id }
    }
}

} // verus!
