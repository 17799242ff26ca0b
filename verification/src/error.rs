use vstd::prelude::*;

verus! {

/// The failure kinds of the conversion and deployment pipeline.
#[derive(Clone, Copy, Debug, PartialEq, Eq, Structural)]
pub enum Uf2Error {
    /// The input bytes are not a parseable ELF object.
    FormatError,
    /// No loadable segment with a non-zero file size exists.
    NoLoadableSegments,
    /// The physical image spanned by the loadable segments is empty.
    EmptyImage,
    /// A segment's source or destination byte range is out of bounds; the
    /// fields cite the offending program header.
    SegmentRangeError { p_offset: u64, p_filesz: u64, p_paddr: u64 },
    /// The physical image is too large for this machine to index or encode.
    ImageTooLarge,
    /// A file read, write or copy failed.
    IoError,
    /// No mounted volume carries the bootloader sentinel file.
    VolumeNotFound,
    /// Every deploy attempt failed and the retry budget is exhausted.
    DeployFailed { attempts: u32 },
}

} // verus!
