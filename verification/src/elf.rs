use crate::error::Uf2Error;
use vstd::prelude::*;

verus! {

/// ELF program-header type tag of a loadable segment.
pub const PT_LOAD: u32 = 1;

/// The program-header fields of one ELF segment that the pipeline reads.
#[derive(Clone, Copy, Debug, PartialEq, Eq, Structural)]
pub struct Segment {
    pub p_type: u32,
    pub p_offset: u64,
    pub p_vaddr: u64,
    pub p_paddr: u64,
    pub p_filesz: u64,
}

/// What `goblin` yields for a byte string: the program headers of the ELF it
/// parses, or nothing where the bytes are not a parseable ELF object.
pub uninterp spec fn elf_program_headers(data: Seq<u8>) -> Option<Seq<Segment>>;

/// Relies on `goblin::Object::parse`: the result is a function of the bytes
/// alone; an ELF object yields its program headers in file order, and any
/// other input is rejected.
#[verifier::external_body]
pub(crate) fn parse_elf(data: &Vec<u8>) -> (r: Option<Vec<Segment>>)
    ensures
        (match r {
            Some(v) => Some(v@),
            None => None,
        }) == elf_program_headers(data@),
{
    match goblin::Object::parse(data.as_slice()) {
        Ok(goblin::Object::Elf(elf)) => Some(
            elf.program_headers.iter().map(|ph| Segment {
                p_type: ph.p_type, p_offset: ph.p_offset, p_vaddr: ph.p_vaddr,
                p_paddr: ph.p_paddr, p_filesz: ph.p_filesz,
            }).collect(),
        ),
        _ => None,
    }
}

/// A segment participates in the physical image exactly when it is loadable
/// and carries bytes in the file.
pub open spec fn seg_selected(s: Segment) -> bool {
    s.p_type == PT_LOAD && s.p_filesz > 0
}

/// Some segment of `segs` is selected.
pub open spec fn spec_any_selected(segs: Seq<Segment>) -> bool {
    exists|i: int| 0 <= i < segs.len() && seg_selected(#[trigger] segs[i])
}

/// The least physical load address over the selected segments, `u64::MAX`
/// where none is selected.
pub open spec fn spec_min_lma(segs: Seq<Segment>) -> u64
    decreases segs.len(),
{
    if segs.len() == 0 {
        u64::MAX
    } else {
        let m = spec_min_lma(segs.drop_last());
        let s = segs.last();
        if seg_selected(s) && s.p_paddr < m {
            s.p_paddr
        } else {
            m
        }
    }
}

/// The saturating end address of a segment: physical load address plus file
/// size, capped at `u64::MAX`.
pub open spec fn spec_lma_end(s: Segment) -> u64 {
    if s.p_paddr + s.p_filesz > u64::MAX {
        u64::MAX
    } else {
        (s.p_paddr + s.p_filesz) as u64
    }
}

/// The greatest saturating end address over the selected segments, 0 where
/// none is selected.
pub open spec fn spec_max_lma_end(segs: Seq<Segment>) -> u64
    decreases segs.len(),
{
    if segs.len() == 0 {
        0
    } else {
        let m = spec_max_lma_end(segs.drop_last());
        let s = segs.last();
        if seg_selected(s) && spec_lma_end(s) > m {
            spec_lma_end(s)
        } else {
            m
        }
    }
}

/// The least physical load address is at most every selected segment's.
proof fn lemma_min_lma_le(segs: Seq<Segment>, j: int)
    requires
        0 <= j < segs.len(),
        seg_selected(segs[j]),
    ensures
        spec_min_lma(segs) <= segs[j].p_paddr,
    decreases segs.len(),
{
    if j == segs.len() - 1 {
    } else {
        lemma_min_lma_le(segs.drop_last(), j);
    }
}

/// Both byte ranges of a segment are in bounds: its source range within the
/// ELF file, and its destination range within the physical image.
pub open spec fn seg_ranges_ok(s: Segment, elf_len: int, min_lma: u64, image_len: int) -> bool {
    &&& s.p_offset + s.p_filesz <= elf_len
    &&& s.p_paddr - min_lma + s.p_filesz <= image_len
}

/// The first selected segment from index `i` on whose ranges are out of
/// bounds, in header order.
pub open spec fn spec_find_bad_from(
    segs: Seq<Segment>,
    i: int,
    elf_len: int,
    min_lma: u64,
    image_len: int,
) -> Option<Segment>
    decreases segs.len() - i,
{
    if i < 0 || i >= segs.len() {
        None
    } else if seg_selected(segs[i]) && !seg_ranges_ok(segs[i], elf_len, min_lma, image_len) {
        Some(segs[i])
    } else {
        spec_find_bad_from(segs, i + 1, elf_len, min_lma, image_len)
    }
}

/// The image after one segment's bytes are copied in: the destination range
/// holds the segment's file bytes, everything else is unchanged.
pub open spec fn spec_write_seg(buf: Seq<u8>, elf: Seq<u8>, s: Segment, min_lma: u64) -> Seq<u8> {
    let start = s.p_paddr - min_lma;
    Seq::new(
        buf.len(),
        |t: int|
            if start <= t < start + s.p_filesz {
                elf[s.p_offset + (t - start)]
            } else {
                buf[t]
            },
    )
}

/// The physical image built from a zero-filled buffer by copying every
/// selected segment of the prefix in header order; a later segment
/// overwrites an earlier one where their destinations overlap.
pub open spec fn spec_image_of(
    elf: Seq<u8>,
    segs: Seq<Segment>,
    min_lma: u64,
    image_len: nat,
) -> Seq<u8>
    decreases segs.len(),
{
    if segs.len() == 0 {
        Seq::new(image_len, |t: int| 0u8)
    } else {
        let prev = spec_image_of(elf, segs.drop_last(), min_lma, image_len);
        let s = segs.last();
        if seg_selected(s) {
            spec_write_seg(prev, elf, s, min_lma)
        } else {
            prev
        }
    }
}

/// The built image always spans exactly `image_len` bytes.
proof fn lemma_image_of_len(elf: Seq<u8>, segs: Seq<Segment>, min_lma: u64, image_len: nat)
    ensures
        spec_image_of(elf, segs, min_lma, image_len).len() == image_len,
    decreases segs.len(),
{
    if segs.len() > 0 {
        lemma_image_of_len(elf, segs.drop_last(), min_lma, image_len);
    }
}

/// The whole outcome of segment extraction: which error an input earns, or
/// the physical image it denotes.
pub open spec fn spec_extract(elf: Seq<u8>, segs: Seq<Segment>) -> Result<Seq<u8>, Uf2Error> {
    let min_lma = spec_min_lma(segs);
    let max_end = spec_max_lma_end(segs);
    if !spec_any_selected(segs) {
        Err(Uf2Error::NoLoadableSegments)
    } else if max_end <= min_lma {
        Err(Uf2Error::EmptyImage)
    } else if max_end - min_lma > usize::MAX {
        Err(Uf2Error::ImageTooLarge)
    } else {
        let image_len = (max_end - min_lma) as int;
        match spec_find_bad_from(segs, 0, elf.len() as int, min_lma, image_len) {
            Some(s) => Err(
                Uf2Error::SegmentRangeError {
                    p_offset: s.p_offset,
                    p_filesz: s.p_filesz,
                    p_paddr: s.p_paddr,
                },
            ),
            None => Ok(spec_image_of(elf, segs, min_lma, image_len as nat)),
        }
    }
}

/// An input whose program headers hold no loadable segment with a non-zero
/// file size — none at all, or only ones without file bytes — yields
/// `NoLoadableSegments`, whatever the rest of the file holds.
pub proof fn lemma_no_loadable_segments(elf: Seq<u8>, segs: Seq<Segment>)
    requires
        forall|i: int| 0 <= i < segs.len() ==> !seg_selected(#[trigger] segs[i]),
    ensures
        spec_extract(elf, segs) == Err::<Seq<u8>, Uf2Error>(Uf2Error::NoLoadableSegments),
{
    assert(!spec_any_selected(segs));
}

/// Where some selected segment from `i` on is out of bounds, the scan finds
/// an out-of-bounds segment.
proof fn lemma_find_bad_some(
    segs: Seq<Segment>,
    i: int,
    j: int,
    elf_len: int,
    min_lma: u64,
    image_len: int,
)
    requires
        0 <= i <= j < segs.len(),
        seg_selected(segs[j]),
        !seg_ranges_ok(segs[j], elf_len, min_lma, image_len),
    ensures
        spec_find_bad_from(segs, i, elf_len, min_lma, image_len) is Some,
    decreases segs.len() - i,
{
    if seg_selected(segs[i]) && !seg_ranges_ok(segs[i], elf_len, min_lma, image_len) {
    } else {
        lemma_find_bad_some(segs, i + 1, j, elf_len, min_lma, image_len);
    }
}

/// A selected segment whose file offset plus file size exceeds the ELF's
/// length makes extraction fail with `SegmentRangeError`: no truncated copy
/// is ever produced. The two range gates before the scan must pass, which
/// they do for every image that spans at least one byte and fits in memory.
pub proof fn lemma_segment_range_error(elf: Seq<u8>, segs: Seq<Segment>, j: int)
    requires
        0 <= j < segs.len(),
        seg_selected(segs[j]),
        segs[j].p_offset + segs[j].p_filesz > elf.len(),
        spec_max_lma_end(segs) > spec_min_lma(segs),
        spec_max_lma_end(segs) - spec_min_lma(segs) <= usize::MAX,
    ensures
        spec_extract(elf, segs) matches Err(e) && e matches (Uf2Error::SegmentRangeError { .. }),
{
    assert(spec_any_selected(segs));
    let min_lma = spec_min_lma(segs);
    let image_len = spec_max_lma_end(segs) - min_lma;
    lemma_find_bad_some(segs, 0, j, elf.len() as int, min_lma, image_len);
}

/// Copies `len` bytes of `elf` at `src` into `image` at `dst`.
#[verifier::loop_isolation(false)]
fn copy_into(image: &mut Vec<u8>, elf: &Vec<u8>, dst: usize, src: usize, len: usize)
    requires
        dst + len <= old(image)@.len(),
        src + len <= elf@.len(),
    ensures
        final(image)@.len() == old(image)@.len(),
        forall|t: int|
            0 <= t < old(image)@.len() ==> final(image)@[t] == (if dst <= t < dst + len {
                elf@[src + (t - dst)]
            } else {
                old(image)@[t]
            }),
{
    let image_n: usize = image.len();
    let elf_n: usize = elf.len();
    let mut k: usize = 0;
    while k < len
        invariant
            k <= len,
            image_n == old(image)@.len(),
            elf_n == elf@.len(),
            image@.len() == old(image)@.len(),
            forall|t: int|
                0 <= t < image@.len() ==> image@[t] == (if dst <= t < dst + k {
                    elf@[src + (t - dst)]
                } else {
                    old(image)@[t]
                }),
        decreases len - k,
    {
        let b = elf[src + k];
        image.set(dst + k, b);
        k += 1;
    }
}

/// Builds the physical image from the ELF bytes and its program headers:
/// selects the loadable segments with bytes in the file, spans the buffer
/// from the least physical load address to the greatest segment end, and
/// copies each selected segment in header order after checking both of its
/// byte ranges.
#[verifier::loop_isolation(false)]
pub fn extract_image(elf_data: &Vec<u8>, segs: &Vec<Segment>) -> (r: Result<Vec<u8>, Uf2Error>)
    ensures
        (match r {
            Ok(v) => Ok::<Seq<u8>, Uf2Error>(v@),
            Err(e) => Err(e),
        }) == spec_extract(elf_data@, segs@),
        r matches Ok(v) ==> v@.len() == spec_max_lma_end(segs@) - spec_min_lma(segs@),
{
    let n = segs.len();
    let mut min_lma: u64 = u64::MAX;
    let mut max_end: u64 = 0;
    let mut found = false;
    let mut i: usize = 0;
    while i < n
        invariant
            i <= n,
            min_lma == spec_min_lma(segs@.subrange(0, i as int)),
            max_end == spec_max_lma_end(segs@.subrange(0, i as int)),
            found == spec_any_selected(segs@.subrange(0, i as int)),
        decreases n - i,
    {
        proof {
            assert(segs@.subrange(0, i + 1).drop_last() =~= segs@.subrange(0, i as int));
            assert(segs@.subrange(0, i + 1).last() == segs@[i as int]);
        }
        let s = segs[i];
        if s.p_type == PT_LOAD && s.p_filesz > 0 {
            proof {
                assert(seg_selected(segs@[i as int]));
                assert(spec_any_selected(segs@.subrange(0, i + 1)));
            }
            found = true;
            if s.p_paddr < min_lma {
                min_lma = s.p_paddr;
            }
            let e = s.p_paddr.saturating_add(s.p_filesz);
            if e > max_end {
                max_end = e;
            }
        } else {
            proof {
                if spec_any_selected(segs@.subrange(0, i + 1)) {
                    let j = choose|j: int|
                        0 <= j < i + 1 && seg_selected(#[trigger] segs@.subrange(0, i + 1)[j]);
                    assert(seg_selected(segs@.subrange(0, i as int)[j]));
                }
            }
        }
        i += 1;
    }
    proof {
        assert(segs@.subrange(0, n as int) =~= segs@);
    }
    if !found {
        return Err(Uf2Error::NoLoadableSegments);
    }
    if max_end <= min_lma {
        return Err(Uf2Error::EmptyImage);
    }
    let size64: u64 = max_end - min_lma;
    if size64 > usize::MAX as u64 {
        return Err(Uf2Error::ImageTooLarge);
    }
    let size: usize = size64 as usize;
    let elf_len: usize = elf_data.len();

    let mut image: Vec<u8> = Vec::new();
    while image.len() < size
        invariant
            image@.len() <= size,
            forall|t: int| 0 <= t < image@.len() ==> image@[t] == 0u8,
        decreases size - image@.len(),
    {
        image.push(0u8);
    }
    proof {
        assert(image@ =~= Seq::new(size as nat, |t: int| 0u8));
    }

    let ghost g_elf_len = elf_data@.len() as int;
    let ghost g_size = size as int;
    let mut i: usize = 0;
    while i < n
        invariant
            i <= n,
            image@.len() == size,
            spec_find_bad_from(segs@, 0, g_elf_len, min_lma, g_size) == spec_find_bad_from(
                segs@,
                i as int,
                g_elf_len,
                min_lma,
                g_size,
            ),
            image@ == spec_image_of(elf_data@, segs@.subrange(0, i as int), min_lma, size as nat),
        decreases n - i,
    {
        proof {
            assert(segs@.subrange(0, i + 1).drop_last() =~= segs@.subrange(0, i as int));
            assert(segs@.subrange(0, i + 1).last() == segs@[i as int]);
        }
        let s = segs[i];
        if s.p_type == PT_LOAD && s.p_filesz > 0 {
            // The source range must lie within the ELF file.
            let src_ok = match s.p_offset.checked_add(s.p_filesz) {
                Some(end) => end <= elf_len as u64,
                None => false,
            };
            if !src_ok {
                assert(!seg_ranges_ok(segs@[i as int], g_elf_len, min_lma, g_size));
                return Err(
                    Uf2Error::SegmentRangeError {
                        p_offset: s.p_offset,
                        p_filesz: s.p_filesz,
                        p_paddr: s.p_paddr,
                    },
                );
            }
            // The destination range must lie within the image buffer.
            proof {
                lemma_min_lma_le(segs@, i as int);
            }
            let off: u64 = s.p_paddr - min_lma;
            let dst_ok = match off.checked_add(s.p_filesz) {
                Some(end) => end <= size64,
                None => false,
            };
            if !dst_ok {
                assert(!seg_ranges_ok(segs@[i as int], g_elf_len, min_lma, g_size));
                return Err(
                    Uf2Error::SegmentRangeError {
                        p_offset: s.p_offset,
                        p_filesz: s.p_filesz,
                        p_paddr: s.p_paddr,
                    },
                );
            }
            assert(seg_ranges_ok(segs@[i as int], g_elf_len, min_lma, g_size));
            let ghost pre = image@;
            copy_into(&mut image, elf_data, off as usize, s.p_offset as usize, s.p_filesz as usize);
            proof {
                assert(image@ =~= spec_write_seg(pre, elf_data@, segs@[i as int], min_lma));
            }
        }
        i += 1;
    }
    proof {
        assert(segs@.subrange(0, n as int) =~= segs@);
        lemma_image_of_len(elf_data@, segs@, min_lma, size as nat);
    }
    Ok(image)
}

/// Runs the segment extractor on raw bytes: parses them as an ELF and builds
/// the physical image that its loadable segments span.
pub fn elf2bin(elf_data: &Vec<u8>) -> (r: Result<Vec<u8>, Uf2Error>)
    ensures
        elf_program_headers(elf_data@) is None <==> r == Err::<Vec<u8>, Uf2Error>(
            Uf2Error::FormatError,
        ),
        elf_program_headers(elf_data@) matches Some(segs) ==> (match r {
            Ok(v) => Ok::<Seq<u8>, Uf2Error>(v@),
            Err(e) => Err(e),
        }) == spec_extract(elf_data@, segs),
{
    match parse_elf(elf_data) {
        None => Err(Uf2Error::FormatError),
        Some(segs) => extract_image(elf_data, &segs),
    }
}

/// The least virtual address over the loadable segments, where one exists.
pub open spec fn spec_min_vaddr(segs: Seq<Segment>) -> Option<u64>
    decreases segs.len(),
{
    if segs.len() == 0 {
        None
    } else {
        let m = spec_min_vaddr(segs.drop_last());
        let s = segs.last();
        if s.p_type != PT_LOAD {
            m
        } else {
            match m {
                None => Some(s.p_vaddr),
                Some(v) => if s.p_vaddr < v {
                    Some(s.p_vaddr)
                } else {
                    Some(v)
                },
            }
        }
    }
}

/// The base address derived from an ELF: the least virtual address of its
/// loadable segments truncated to 32 bits, or 0 where none is loadable.
pub open spec fn spec_base_addr(segs: Seq<Segment>) -> u32 {
    match spec_min_vaddr(segs) {
        None => 0u32,
        Some(v) => (v % 0x1_0000_0000) as u32,
    }
}

/// Scans the program headers for the least virtual load address.
#[verifier::loop_isolation(false)]
pub fn base_addr_of_segments(segs: &Vec<Segment>) -> (r: u32)
    ensures
        r == spec_base_addr(segs@),
{
    let n = segs.len();
    let mut m: Option<u64> = None;
    let mut i: usize = 0;
    while i < n
        invariant
            i <= n,
            m == spec_min_vaddr(segs@.subrange(0, i as int)),
        decreases n - i,
    {
        proof {
            assert(segs@.subrange(0, i + 1).drop_last() =~= segs@.subrange(0, i as int));
            assert(segs@.subrange(0, i + 1).last() == segs@[i as int]);
        }
        let s = segs[i];
        if s.p_type == PT_LOAD {
            m = match m {
                None => Some(s.p_vaddr),
                Some(v) => if s.p_vaddr < v {
                    Some(s.p_vaddr)
                } else {
                    Some(v)
                },
            };
        }
        i += 1;
    }
    proof {
        assert(segs@.subrange(0, n as int) =~= segs@);
    }
    match m {
        None => 0,
        Some(v) => (v % 0x1_0000_0000u64) as u32,
    }
}

/// Parses raw bytes as an ELF and derives the base address from its virtual
/// load addresses.
pub fn get_base_addr_of_elf(elf_data: &Vec<u8>) -> (r: Result<u32, Uf2Error>)
    ensures
        elf_program_headers(elf_data@) is None <==> r == Err::<u32, Uf2Error>(
            Uf2Error::FormatError,
        ),
        elf_program_headers(elf_data@) matches Some(segs) ==> r == Ok::<u32, Uf2Error>(
            spec_base_addr(segs),
        ),
{
    match parse_elf(elf_data) {
        None => Err(Uf2Error::FormatError),
        Some(segs) => Ok(base_addr_of_segments(&segs)),
    }
}

} // verus!
