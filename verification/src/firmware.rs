//! Plain-value vocabulary of the firmware boundary.
//!
//! The loader talks to the firmware only through request and response
//! values: allocation policies, memory types, interface identifiers, file
//! metadata and the framebuffer descriptor. The types here model those
//! exchanges as plain data — no handles, no pointers — so that everything
//! the loader decides about them can be verified. Whatever part of the
//! program performs the actual firmware calls converts to and from these
//! values at the boundary.

use vstd::prelude::*;

use crate::LoadError;

verus! {

/// The common header of every firmware table.
#[derive(Clone, Copy, Debug, PartialEq, Eq, Structural)]
pub struct TableHeader {
    /// Table identity tag.
    pub signature: u64,
    /// Table revision.
    pub revision: u32,
    /// Size of the whole table in bytes.
    pub header_size: u32,
    /// Checksum over the table as the firmware computed it.
    pub crc32: u32,
    /// Always zero.
    pub reserved: u32,
}

/// A firmware interface identifier.
#[derive(Clone, Copy, Debug, PartialEq, Eq)]
pub struct GUID {
    pub data1: u32,
    pub data2: u16,
    pub data3: u16,
    pub data4: [u8; 8],
}

/// The placement policy of a page-allocation request.
#[derive(Clone, Copy, Debug, PartialEq, Eq, Structural)]
pub enum AllocType {
    /// Any free pages.
    AllocateAnyPages,
    /// Any free pages below the given address.
    AllocateMaxAddress,
    /// Exactly the given address. The loader places segments with this
    /// policy and nothing else: a fixed-address image loads exactly where
    /// it says or not at all.
    AllocateAddress,
    /// Number of policies, not a policy.
    MaxAllocateType,
}

/// The ownership tag a memory range carries in the firmware's map.
#[derive(Clone, Copy, Debug, PartialEq, Eq, Structural)]
pub enum MemoryType {
    EfiReservedMemoryType,
    EfiLoaderCode,
    EfiLoaderData,
    EfiBootServicesCode,
    EfiBootServicesData,
    EfiRuntimeServicesCode,
    EfiRuntimeServicesData,
    EfiConventionalMemory,
    EfiUnusableMemory,
    EfiACPIReclaimMemory,
    EfiACPIMemoryNVS,
    EfiMemoryMappedIO,
    EfiMemoryMappedIOPortSpace,
    EfiPalCode,
    EfiPersistentMemory,
    EfiUnacceptedMemoryType,
    EfiMaxMemoryType,
}

/// How a handle-enumeration request selects handles.
#[derive(Clone, Copy, Debug, PartialEq, Eq, Structural)]
pub enum SearchType {
    AllHandles,
    ByRegisterNotify,
    ByProtocol,
}

/// One entry of the firmware's configuration table: an identifier and the
/// address of the table it names.
#[derive(Clone, Copy, Debug, PartialEq, Eq)]
pub struct ConfigurationTable {
    /// Which table this entry names.
    pub vendor_guid: GUID,
    /// Physical address of that table.
    pub vendor_table: u64,
}

/// A timestamp as the firmware's file metadata records it, kept as the raw
/// sixteen bytes of the firmware's time layout.
#[derive(Clone, Copy, Debug, PartialEq, Eq)]
pub struct EfiTime {
    pub data: [u8; 16],
}

/// The metadata the firmware reports for an opened file.
#[derive(Clone, Debug)]
pub struct FileInfo {
    /// Size of this structure as reported.
    pub size: u64,
    /// Length of the file's contents in bytes — what the loader sizes its
    /// read buffer by.
    pub file_size: u64,
    /// Bytes the file occupies on the volume.
    pub physical_size: u64,
    /// When the file was created.
    pub create_time: EfiTime,
    /// When the file was last read.
    pub last_access_time: EfiTime,
    /// When the file was last written.
    pub modification_time: EfiTime,
    /// The file's attribute bits.
    pub attribute: u64,
    /// The file's name, one value per UTF-16 unit.
    pub file_name: Vec<u16>,
}

/// One graphics mode as the firmware enumerates them.
#[derive(Clone, Copy, Debug, PartialEq, Eq, Structural)]
pub struct ModeInfo {
    /// Pixels per row.
    pub width: u32,
    /// Rows.
    pub height: u32,
    /// Pixels per scan line, at least `width`.
    pub stride: u32,
    /// The firmware's tag for the pixel layout.
    pub pixel_format: u32,
}

/// The immutable framebuffer descriptor handed to the kernel.
#[derive(Clone, Copy, Debug, PartialEq, Eq, Structural)]
pub struct FramebufferInfo {
    /// Physical base address of the framebuffer.
    pub framebuffer_addr: u64,
    /// Its size in bytes.
    pub framebuffer_size: usize,
    /// Pixels per row.
    pub framebuffer_width: usize,
    /// Rows.
    pub framebuffer_height: usize,
    /// Pixels per scan line.
    pub stride: usize,
    /// The firmware's tag for the pixel layout.
    pub pixel_format: u32,
}

/// The number of pixels mode `m` shows.
pub open spec fn mode_area(m: ModeInfo) -> int {
    m.width * m.height
}

/// The index of the mode with the most pixels, ties broken by the lowest
/// index.
///
/// Returns `None` exactly when no mode was offered.
pub fn pick_highest_resolution(modes: &Vec<ModeInfo>) -> (r: Option<usize>)
    ensures
        match r {
            Some(i) => {
                &&& i < modes@.len()
                &&& forall|j: int| 0 <= j < modes@.len() ==> mode_area(#[trigger] modes@[j])
                    <= mode_area(modes@[i as int])
                &&& forall|j: int| 0 <= j < i ==> mode_area(#[trigger] modes@[j]) < mode_area(
                    modes@[i as int],
                )
            },
            None => modes@.len() == 0,
        },
{
    if modes.len() == 0 {
        return None;
    }
    let mut best: usize = 0;
    proof {
        vstd::arithmetic::mul::lemma_mul_upper_bound(
            modes@[0].width as int,
            0xffff_ffff,
            modes@[0].height as int,
            0xffff_ffff,
        );
    }
    let mut best_area: u64 = (modes[0].width as u64) * (modes[0].height as u64);
    let mut i: usize = 1;
    while i < modes.len()
        invariant
            1 <= i <= modes@.len(),
            best < i,
            best < modes@.len(),
            best_area == mode_area(modes@[best as int]),
            forall|j: int|
                0 <= j < i ==> mode_area(#[trigger] modes@[j]) <= mode_area(modes@[best as int]),
            forall|j: int|
                0 <= j < best ==> mode_area(#[trigger] modes@[j]) < mode_area(modes@[best as int]),
        decreases modes@.len() - i,
    {
        proof {
            vstd::arithmetic::mul::lemma_mul_upper_bound(
                modes@[i as int].width as int,
                0xffff_ffff,
                modes@[i as int].height as int,
                0xffff_ffff,
            );
        }
        let area = (modes[i].width as u64) * (modes[i].height as u64);
        if area > best_area {
            best = i;
            best_area = area;
        }
        i = i + 1;
    }
    Some(best)
}

/// Build the kernel's framebuffer descriptor from a mode and the
/// framebuffer range the firmware reports for it.
pub fn framebuffer_for_mode(mode: &ModeInfo, base: u64, size: usize) -> (fb: FramebufferInfo)
    ensures
        fb.framebuffer_addr == base,
        fb.framebuffer_size == size,
        fb.framebuffer_width == mode.width,
        fb.framebuffer_height == mode.height,
        fb.stride == mode.stride,
        fb.pixel_format == mode.pixel_format,
{
    FramebufferInfo {
        framebuffer_addr: base,
        framebuffer_size: size,
        framebuffer_width: mode.width as usize,
        framebuffer_height: mode.height as usize,
        stride: mode.stride as usize,
        pixel_format: mode.pixel_format,
    }
}

/// Choose the framebuffer to hand to the kernel: the firmware's current
/// mode, or — when the loader is configured to select the highest
/// resolution — the mode with the most pixels (lowest index on ties).
///
/// Fails with `NoGraphicsDevice` exactly when no mode was offered or the
/// reported current mode is out of range.
pub fn choose_framebuffer(
    modes: &Vec<ModeInfo>,
    current_mode: usize,
    select_highest_resolution: bool,
    base: u64,
    size: usize,
) -> (r: Result<FramebufferInfo, LoadError>)
    ensures
        match r {
            Ok(fb) => {
                &&& modes@.len() > 0
                &&& exists|i: int|
                    {
                        &&& 0 <= i < modes@.len()
                        &&& fb.framebuffer_width == (#[trigger] modes@[i]).width
                        &&& fb.framebuffer_height == modes@[i].height
                        &&& fb.stride == modes@[i].stride
                        &&& fb.pixel_format == modes@[i].pixel_format
                        &&& (select_highest_resolution ==> (forall|j: int|
                            0 <= j < modes@.len() ==> mode_area(#[trigger] modes@[j]) <= mode_area(
                                modes@[i],
                            )) && (forall|j: int|
                            0 <= j < i ==> mode_area(#[trigger] modes@[j]) < mode_area(modes@[i])))
                        &&& (!select_highest_resolution ==> i == current_mode)
                    }
                &&& fb.framebuffer_addr == base
                &&& fb.framebuffer_size == size
            },
            Err(e) => {
                &&& e == LoadError::NoGraphicsDevice
                &&& (modes@.len() == 0 || (!select_highest_resolution && current_mode
                    >= modes@.len()))
            },
        },
{
    if select_highest_resolution {
        match pick_highest_resolution(modes) {
            Some(i) => Ok(framebuffer_for_mode(&modes[i], base, size)),
            None => Err(LoadError::NoGraphicsDevice),
        }
    } else {
        if current_mode >= modes.len() {
            return Err(LoadError::NoGraphicsDevice);
        }
        Ok(framebuffer_for_mode(&modes[current_mode], base, size))
    }
}

} // verus!
