//! The BIOS parameter block of a FAT16 boot sector.
use vstd::prelude::*;

use crate::bytes::{le_u16, read_u16_le};
use crate::storage::error::{FsError, FsResult};

verus! {

/// The fields of a FAT16 boot sector that the file system reads.
#[derive(Clone, Copy, Debug, PartialEq, Eq, Structural)]
pub struct Fat16Bpb {
    pub bytes_per_sector: u16,
    pub sectors_per_cluster: u8,
    pub reserved_sector_count: u16,
    pub fat_count: u8,
    pub root_entries_count: u16,
    pub sectors_per_fat: u16,
}

/// The fields stored in boot sector `s`, at their offsets in the FAT layout.
pub open spec fn bpb_of(s: Seq<u8>) -> Fat16Bpb {
    Fat16Bpb {
        bytes_per_sector: le_u16(s, 11) as u16,
        sectors_per_cluster: s[13],
        reserved_sector_count: le_u16(s, 14) as u16,
        fat_count: s[16],
        root_entries_count: le_u16(s, 17) as u16,
        sectors_per_fat: le_u16(s, 22) as u16,
    }
}

/// Whether `s` is a boot sector this file system accepts: 512 bytes ending
/// in the signature 0x55 0xAA, with sectors of a nonzero multiple of 512
/// bytes and at least one sector per cluster.
pub open spec fn bpb_ok(s: Seq<u8>) -> bool {
    &&& s.len() == 512
    &&& s[510] == 0x55
    &&& s[511] == 0xAA
    &&& le_u16(s, 11) > 0
    &&& le_u16(s, 11) % 512 == 0
    &&& s[13] > 0
}

impl Fat16Bpb {
    /// Reads the parameter block of boot sector `data`.
    pub fn new(data: &[u8]) -> (r: FsResult<Self>)
        ensures
            r is Ok <==> bpb_ok(data@),
            r matches Ok(b) ==> b == bpb_of(data@),
            r matches Err(e) ==> e == FsError::NotSupported,
    {
        if data.len() != 512 || data[510] != 0x55 || data[511] != 0xAA {
            return Err(FsError::NotSupported);
        }
        let bytes_per_sector = read_u16_le(data, 11);
        if bytes_per_sector == 0 || bytes_per_sector % 512 != 0 || data[13] == 0 {
            return Err(FsError::NotSupported);
        }
        Ok(Fat16Bpb {
            bytes_per_sector,
            sectors_per_cluster: data[13],
            reserved_sector_count: read_u16_le(data, 14),
            fat_count: data[16],
            root_entries_count: read_u16_le(data, 17),
            sectors_per_fat: read_u16_le(data, 22),
        })
    }

}

} // verus!
