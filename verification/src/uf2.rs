use crate::elf::{
    base_addr_of_segments, elf_program_headers, extract_image, spec_base_addr, spec_extract,
};
use crate::error::Uf2Error;
use vstd::bytes::{
    lemma_auto_spec_u32_to_from_le_bytes, spec_u32_from_le_bytes, spec_u32_to_le_bytes,
    u32_to_le_bytes,
};
use vstd::prelude::*;

verus! {

/// The four magic words of the UF2 block format.
pub const UF2_MAGIC_START0: u32 = 0x0A324655;

pub const UF2_MAGIC_START1: u32 = 0x9E5D5157;

pub const UF2_MAGIC_END: u32 = 0x0AB16F30;

/// Flag telling the bootloader that the family-identifier word is present.
pub const UF2_FLAG_FAMILY_ID_PRESENT: u32 = 0x00002000;

/// Every block spans 512 bytes; each carries at most 256 payload bytes in a
/// 476-byte data area.
pub const UF2_BLOCK_SIZE: usize = 512;

pub const UF2_PAYLOAD_SIZE: usize = 256;

pub const UF2_DATA_AREA_SIZE: usize = 476;

/// How many blocks an image of `len` bytes needs: one per 256-byte chunk,
/// the last chunk possibly short.
pub open spec fn spec_num_blocks(len: nat) -> nat {
    (len + 255) / 256
}

/// The payload byte count of block `i`: 256 for every chunk but a short
/// last one.
pub open spec fn spec_payload_size(len: nat, i: int) -> int {
    if 256 * (i + 1) <= len {
        256
    } else {
        len - 256 * i
    }
}

/// The flash address block `i` targets, 32-bit wrapping.
pub open spec fn spec_target_addr(base_addr: u32, i: int) -> u32 {
    ((base_addr + 256 * i) % 0x1_0000_0000) as u32
}

/// The 476-byte data area of block `i`: the chunk's image bytes left-aligned,
/// the rest zero.
pub open spec fn spec_chunk_padded(image: Seq<u8>, i: int) -> Seq<u8> {
    Seq::new(
        476,
        |t: int|
            if t < 256 && 256 * i + t < image.len() {
                image[256 * i + t]
            } else {
                0u8
            },
    )
}

/// The first 32 bytes of block `i`: the two start magics and the six
/// little-endian header words.
pub open spec fn spec_block_header(image: Seq<u8>, family_id: u32, base_addr: u32, i: int) -> Seq<
    u8,
> {
    spec_u32_to_le_bytes(UF2_MAGIC_START0) + spec_u32_to_le_bytes(UF2_MAGIC_START1)
        + spec_u32_to_le_bytes(UF2_FLAG_FAMILY_ID_PRESENT) + spec_u32_to_le_bytes(
        spec_target_addr(base_addr, i),
    ) + spec_u32_to_le_bytes(spec_payload_size(image.len(), i) as u32) + spec_u32_to_le_bytes(
        i as u32,
    ) + spec_u32_to_le_bytes(spec_num_blocks(image.len()) as u32) + spec_u32_to_le_bytes(family_id)
}

/// The full 512 bytes of block `i`.
pub open spec fn spec_block(image: Seq<u8>, family_id: u32, base_addr: u32, i: int) -> Seq<u8> {
    spec_block_header(image, family_id, base_addr, i) + spec_chunk_padded(image, i)
        + spec_u32_to_le_bytes(UF2_MAGIC_END)
}

/// The stream of the first `i` blocks, in ascending address order.
pub open spec fn spec_encode_upto(image: Seq<u8>, family_id: u32, base_addr: u32, i: int) -> Seq<
    u8,
>
    decreases i,
{
    if i <= 0 {
        Seq::empty()
    } else {
        spec_encode_upto(image, family_id, base_addr, i - 1) + spec_block(
            image,
            family_id,
            base_addr,
            i - 1,
        )
    }
}

/// The whole UF2 stream of an image: one block per 256-byte chunk.
pub open spec fn spec_uf2_encode(image: Seq<u8>, family_id: u32, base_addr: u32) -> Seq<u8> {
    spec_encode_upto(image, family_id, base_addr, spec_num_blocks(image.len()) as int)
}

/// Every block spans exactly 512 bytes.
pub proof fn lemma_block_len(image: Seq<u8>, family_id: u32, base_addr: u32, i: int)
    ensures
        spec_block(image, family_id, base_addr, i).len() == 512,
{
    lemma_auto_spec_u32_to_from_le_bytes();
}

/// The first `i` blocks span exactly `512 * i` bytes.
pub proof fn lemma_encode_upto_len(image: Seq<u8>, family_id: u32, base_addr: u32, i: int)
    requires
        i >= 0,
    ensures
        spec_encode_upto(image, family_id, base_addr, i).len() == 512 * i,
    decreases i,
{
    if i > 0 {
        lemma_encode_upto_len(image, family_id, base_addr, i - 1);
        lemma_block_len(image, family_id, base_addr, i - 1);
    }
}

/// Block `i` occupies bytes `512 * i` up to `512 * (i + 1)` of the stream of
/// the first `n` blocks.
proof fn lemma_upto_block_at(image: Seq<u8>, family_id: u32, base_addr: u32, i: int, n: int)
    requires
        0 <= i < n,
    ensures
        spec_encode_upto(image, family_id, base_addr, n).subrange(512 * i, 512 * i + 512)
            == spec_block(image, family_id, base_addr, i),
    decreases n,
{
    lemma_encode_upto_len(image, family_id, base_addr, n - 1);
    lemma_block_len(image, family_id, base_addr, n - 1);
    let upn = spec_encode_upto(image, family_id, base_addr, n);
    let up = spec_encode_upto(image, family_id, base_addr, n - 1);
    if i == n - 1 {
        assert(upn.subrange(512 * i, 512 * i + 512) =~= spec_block(
            image,
            family_id,
            base_addr,
            i,
        ));
    } else {
        lemma_upto_block_at(image, family_id, base_addr, i, n - 1);
        lemma_block_len(image, family_id, base_addr, i);
        assert(upn.subrange(512 * i, 512 * i + 512) =~= up.subrange(512 * i, 512 * i + 512));
    }
}

/// Block `i` of the whole encoded stream is exactly `spec_block(.., i)`.
pub proof fn lemma_uf2_block_at(image: Seq<u8>, family_id: u32, base_addr: u32, i: int)
    requires
        0 <= i < spec_num_blocks(image.len()),
    ensures
        spec_uf2_encode(image, family_id, base_addr).subrange(512 * i, 512 * i + 512)
            == spec_block(image, family_id, base_addr, i),
{
    lemma_upto_block_at(image, family_id, base_addr, i, spec_num_blocks(image.len()) as int);
}

/// Every block of an encoded stream carries the stream's total block count
/// `ceil(image_length / 256)` in its num_blocks word and its own position in
/// its block_no word, so the indices form a contiguous 0-based sequence with
/// no gaps or repeats; the payload-size and target-address words follow the
/// same positional formulas.
pub proof fn lemma_uf2_block_fields(image: Seq<u8>, family_id: u32, base_addr: u32, i: int)
    requires
        spec_num_blocks(image.len()) <= u32::MAX,
        0 <= i < spec_num_blocks(image.len()),
    ensures
        spec_u32_from_le_bytes(
            spec_uf2_encode(image, family_id, base_addr).subrange(512 * i + 20, 512 * i + 24),
        ) == i,
        spec_u32_from_le_bytes(
            spec_uf2_encode(image, family_id, base_addr).subrange(512 * i + 24, 512 * i + 28),
        ) == spec_num_blocks(image.len()),
        spec_u32_from_le_bytes(
            spec_uf2_encode(image, family_id, base_addr).subrange(512 * i + 16, 512 * i + 20),
        ) == spec_payload_size(image.len(), i),
        spec_u32_from_le_bytes(
            spec_uf2_encode(image, family_id, base_addr).subrange(512 * i + 12, 512 * i + 16),
        ) == spec_target_addr(base_addr, i),
{
    lemma_auto_spec_u32_to_from_le_bytes();
    lemma_uf2_block_at(image, family_id, base_addr, i);
    lemma_encode_upto_len(image, family_id, base_addr, spec_num_blocks(image.len()) as int);
    let enc = spec_uf2_encode(image, family_id, base_addr);
    let blk = spec_block(image, family_id, base_addr, i);
    lemma_block_len(image, family_id, base_addr, i);
    assert(0 <= spec_payload_size(image.len(), i) <= 256) by (nonlinear_arith)
        requires
            0 <= i < spec_num_blocks(image.len()),
            spec_num_blocks(image.len()) == (image.len() + 255) / 256,
    ;
    assert(enc.subrange(512 * i + 20, 512 * i + 24) =~= blk.subrange(20, 24));
    assert(blk.subrange(20, 24) =~= spec_u32_to_le_bytes(i as u32));
    assert(enc.subrange(512 * i + 24, 512 * i + 28) =~= blk.subrange(24, 28));
    assert(blk.subrange(24, 28) =~= spec_u32_to_le_bytes(spec_num_blocks(image.len()) as u32));
    assert(enc.subrange(512 * i + 16, 512 * i + 20) =~= blk.subrange(16, 20));
    assert(blk.subrange(16, 20) =~= spec_u32_to_le_bytes(spec_payload_size(image.len(), i) as u32));
    assert(enc.subrange(512 * i + 12, 512 * i + 16) =~= blk.subrange(12, 16));
    assert(blk.subrange(12, 16) =~= spec_u32_to_le_bytes(spec_target_addr(base_addr, i)));
}

/// The payload bytes of block `i` of a stream: as many data-area bytes as
/// the block's payload-size word names.
pub open spec fn spec_payload_of_block(enc: Seq<u8>, i: int) -> Seq<u8> {
    let ps = spec_u32_from_le_bytes(enc.subrange(512 * i + 16, 512 * i + 20)) as int;
    enc.subrange(512 * i + 32, 512 * i + 32 + ps)
}

/// The image reconstructed from the first `i` blocks of a stream, in block
/// order, using each block's payload-size word.
pub open spec fn spec_uf2_decode_upto(enc: Seq<u8>, i: int) -> Seq<u8>
    decreases i,
{
    if i <= 0 {
        Seq::empty()
    } else {
        spec_uf2_decode_upto(enc, i - 1) + spec_payload_of_block(enc, i - 1)
    }
}

/// The image a UF2 stream denotes: the payload bytes of its blocks, in
/// block order.
pub open spec fn spec_uf2_decode(enc: Seq<u8>) -> Seq<u8> {
    spec_uf2_decode_upto(enc, enc.len() as int / 512)
}

/// The first `i` blocks decode to the first `min(256 * i, len)` image bytes.
proof fn lemma_decode_upto(image: Seq<u8>, family_id: u32, base_addr: u32, i: int)
    requires
        spec_num_blocks(image.len()) <= u32::MAX,
        0 <= i <= spec_num_blocks(image.len()),
    ensures
        spec_uf2_decode_upto(spec_uf2_encode(image, family_id, base_addr), i) == (if 256 * i
            <= image.len() {
            image.take(256 * i)
        } else {
            image
        }),
    decreases i,
{
    let enc = spec_uf2_encode(image, family_id, base_addr);
    let len = image.len() as int;
    if i == 0 {
        assert(spec_uf2_decode_upto(enc, 0) =~= image.take(0));
    } else {
        let j = i - 1;
        lemma_decode_upto(image, family_id, base_addr, j);
        lemma_auto_spec_u32_to_from_le_bytes();
        lemma_uf2_block_at(image, family_id, base_addr, j);
        lemma_uf2_block_fields(image, family_id, base_addr, j);
        lemma_encode_upto_len(image, family_id, base_addr, spec_num_blocks(image.len()) as int);
        lemma_block_len(image, family_id, base_addr, j);
        assert(256 * j < len) by (nonlinear_arith)
            requires
                0 <= j < spec_num_blocks(image.len()),
                spec_num_blocks(image.len()) == (image.len() + 255) / 256,
                len == image.len(),
        ;
        let ps = spec_payload_size(image.len(), j);
        assert(0 < ps <= 256);
        assert(spec_u32_from_le_bytes(enc.subrange(512 * j + 16, 512 * j + 20)) as int == ps);
        let blk = spec_block(image, family_id, base_addr, j);
        assert(spec_payload_of_block(enc, j) =~= blk.subrange(32, 32 + ps));
        assert(blk.subrange(32, 32 + ps) =~= image.subrange(256 * j, 256 * j + ps));
        if 256 * i <= len {
            assert(spec_uf2_decode_upto(enc, i) =~= image.take(256 * i));
        } else {
            assert(256 * j + ps == len);
            assert(spec_uf2_decode_upto(enc, i) =~= image);
        }
    }
}

/// Encoding an image and then reconstructing it from the blocks, in block
/// order, using each block's payload-size word, yields the original image
/// byte for byte.
pub proof fn lemma_uf2_round_trip(image: Seq<u8>, family_id: u32, base_addr: u32)
    requires
        spec_num_blocks(image.len()) <= u32::MAX,
    ensures
        spec_uf2_decode(spec_uf2_encode(image, family_id, base_addr)) == image,
{
    let n = spec_num_blocks(image.len()) as int;
    let enc = spec_uf2_encode(image, family_id, base_addr);
    lemma_encode_upto_len(image, family_id, base_addr, n);
    vstd::arithmetic::div_mod::lemma_div_by_multiple(n, 512);
    assert(enc.len() / 512 == n);
    lemma_decode_upto(image, family_id, base_addr, n);
    assert(256 * n <= image.len() ==> image.take(256 * n) =~= image) by {
        assert(256 * n >= image.len()) by (nonlinear_arith)
            requires
                n == (image.len() + 255) / 256,
        ;
    }
}

/// The full 256-byte payload region of block `i` of a stream.
pub open spec fn spec_data_of_block(enc: Seq<u8>, i: int) -> Seq<u8> {
    enc.subrange(512 * i + 32, 512 * i + 32 + 256)
}

/// The image reconstructed from the first `i` blocks using the whole
/// 256-byte payload region of each.
pub open spec fn spec_uf2_decode_full_upto(enc: Seq<u8>, i: int) -> Seq<u8>
    decreases i,
{
    if i <= 0 {
        Seq::empty()
    } else {
        spec_uf2_decode_full_upto(enc, i - 1) + spec_data_of_block(enc, i - 1)
    }
}

/// The image a UF2 stream denotes when every block contributes its whole
/// 256-byte payload region, in block order.
pub open spec fn spec_uf2_decode_full(enc: Seq<u8>) -> Seq<u8> {
    spec_uf2_decode_full_upto(enc, enc.len() as int / 512)
}

/// The image padded with trailing zeros to a whole number of 256-byte
/// chunks.
pub open spec fn spec_pad256(image: Seq<u8>) -> Seq<u8> {
    Seq::new(
        (256 * spec_num_blocks(image.len())) as nat,
        |t: int|
            if t < image.len() {
                image[t]
            } else {
                0u8
            },
    )
}

/// The first `i` blocks decode in full to the first `256 * i` bytes of the
/// padded image.
proof fn lemma_decode_full_upto(image: Seq<u8>, family_id: u32, base_addr: u32, i: int)
    requires
        spec_num_blocks(image.len()) <= u32::MAX,
        0 <= i <= spec_num_blocks(image.len()),
    ensures
        spec_uf2_decode_full_upto(spec_uf2_encode(image, family_id, base_addr), i) == spec_pad256(
            image,
        ).take(256 * i),
    decreases i,
{
    let enc = spec_uf2_encode(image, family_id, base_addr);
    let pad = spec_pad256(image);
    if i == 0 {
        assert(spec_uf2_decode_full_upto(enc, 0) =~= pad.take(0));
    } else {
        let j = i - 1;
        lemma_decode_full_upto(image, family_id, base_addr, j);
        lemma_auto_spec_u32_to_from_le_bytes();
        lemma_uf2_block_at(image, family_id, base_addr, j);
        lemma_encode_upto_len(image, family_id, base_addr, spec_num_blocks(image.len()) as int);
        lemma_block_len(image, family_id, base_addr, j);
        let blk = spec_block(image, family_id, base_addr, j);
        assert(spec_data_of_block(enc, j) =~= blk.subrange(32int, 32 + 256int));
        assert(blk.subrange(32int, 32 + 256int) =~= pad.subrange(256 * j, 256 * i));
        assert(spec_uf2_decode_full_upto(enc, i) =~= pad.take(256 * i));
    }
}

/// Encoding an image and then reconstructing it from the blocks, in block
/// order, reading the whole payload region of each, yields the original
/// image padded to a multiple of 256 bytes with trailing zeros.
pub proof fn lemma_uf2_round_trip_padded(image: Seq<u8>, family_id: u32, base_addr: u32)
    requires
        spec_num_blocks(image.len()) <= u32::MAX,
    ensures
        spec_uf2_decode_full(spec_uf2_encode(image, family_id, base_addr)) == spec_pad256(image),
{
    let n = spec_num_blocks(image.len()) as int;
    let enc = spec_uf2_encode(image, family_id, base_addr);
    lemma_encode_upto_len(image, family_id, base_addr, n);
    vstd::arithmetic::div_mod::lemma_div_by_multiple(n, 512);
    assert(enc.len() / 512 == n);
    lemma_decode_full_upto(image, family_id, base_addr, n);
    assert(spec_pad256(image).take(256 * n) =~= spec_pad256(image));
}

/// Appends the four little-endian bytes of `x`.
fn push_u32_le(out: &mut Vec<u8>, x: u32)
    ensures
        final(out)@ == old(out)@ + spec_u32_to_le_bytes(x),
{
    let mut b = u32_to_le_bytes(x);
    out.append(&mut b);
}

/// Encodes an image as a UF2 stream: one 512-byte block per 256-byte chunk,
/// each tagged with the family identifier and targeting
/// `base_addr + 256 * index`.
#[verifier::loop_isolation(false)]
pub fn bin_to_uf2(image: &Vec<u8>, family_id: u32, base_addr: u32) -> (r: Vec<u8>)
    requires
        spec_num_blocks(image@.len() as nat) <= u32::MAX,
    ensures
        r@ == spec_uf2_encode(image@, family_id, base_addr),
        r@.len() == 512 * spec_num_blocks(image@.len() as nat),
{
    let len: usize = image.len();
    let num_blocks: usize = len / 256 + if len % 256 == 0 {
        0
    } else {
        1
    };
    assert(num_blocks == spec_num_blocks(len as nat));
    let mut out: Vec<u8> = Vec::new();
    let mut i: usize = 0;
    while i < num_blocks
        invariant
            i <= num_blocks,
            out@ == spec_encode_upto(image@, family_id, base_addr, i as int),
        decreases num_blocks - i,
    {
        assert(256 * (i as int) < len as int) by (nonlinear_arith)
            requires
                i < num_blocks,
                num_blocks == (len as int + 255) / 256,
        ;
        let start: usize = 256 * i;
        let rem: usize = len - start;
        let psize: usize = if rem >= 256 {
            256
        } else {
            rem
        };
        assert(psize == spec_payload_size(len as nat, i as int));

        // The flash address wraps modulo 2^32.
        assert((i as u64) * 256 <= 0xFFFF_FFFFu64 * 256) by (nonlinear_arith)
            requires
                i <= 0xFFFF_FFFFu64,
        ;
        let offset64: u64 = (i as u64) * 256;
        let low: u64 = offset64 % 0x1_0000_0000u64;
        let target: u32 = base_addr.wrapping_add(low as u32);
        proof {
            let m = 0x1_0000_0000int;
            let b = base_addr as int;
            let o = 256 * (i as int);
            assert(o == offset64 as int);
            vstd::arithmetic::div_mod::lemma_add_mod_noop(b, o, m);
            assert(b % m == b) by (nonlinear_arith)
                requires
                    0 <= b < m,
            ;
            assert((b + o % m) % m == (b + o) % m) by {
                vstd::arithmetic::div_mod::lemma_add_mod_noop(b, o % m, m);
                vstd::arithmetic::div_mod::lemma_mod_twice(o, m);
            }
            assert(target == spec_target_addr(base_addr, i as int));
        }

        let mut block: Vec<u8> = Vec::new();
        push_u32_le(&mut block, UF2_MAGIC_START0);
        push_u32_le(&mut block, UF2_MAGIC_START1);
        push_u32_le(&mut block, UF2_FLAG_FAMILY_ID_PRESENT);
        push_u32_le(&mut block, target);
        push_u32_le(&mut block, psize as u32);
        push_u32_le(&mut block, i as u32);
        push_u32_le(&mut block, num_blocks as u32);
        push_u32_le(&mut block, family_id);
        proof {
            assert(block@ =~= spec_block_header(image@, family_id, base_addr, i as int));
        }
        let ghost header = block@;
        let mut k: usize = 0;
        while k < 476
            invariant
                k <= 476,
                block@ == header + Seq::new(
                    k as nat,
                    |t: int|
                        if t < 256 && 256 * (i as int) + t < image@.len() {
                            image@[256 * (i as int) + t]
                        } else {
                            0u8
                        },
                ),
            decreases 476 - k,
        {
            let b: u8 = if k < psize {
                image[start + k]
            } else {
                0u8
            };
            block.push(b);
            proof {
                assert(block@ =~= header + Seq::new(
                    (k + 1) as nat,
                    |t: int|
                        if t < 256 && 256 * (i as int) + t < image@.len() {
                            image@[256 * (i as int) + t]
                        } else {
                            0u8
                        },
                ));
            }
            k += 1;
        }
        push_u32_le(&mut block, UF2_MAGIC_END);
        proof {
            assert(Seq::new(
                476,
                |t: int|
                    if t < 256 && 256 * (i as int) + t < image@.len() {
                        image@[256 * (i as int) + t]
                    } else {
                        0u8
                    },
            ) =~= spec_chunk_padded(image@, i as int));
            assert(block@ =~= spec_block(image@, family_id, base_addr, i as int));
        }
        out.append(&mut block);
        i += 1;
        proof {
            assert(out@ == spec_encode_upto(image@, family_id, base_addr, i as int));
        }
    }
    proof {
        lemma_encode_upto_len(image@, family_id, base_addr, num_blocks as int);
    }
    out
}

/// The artifacts of one conversion: the merged physical image, its UF2
/// encoding, and the base address the encoder used.
pub struct Uf2Artifacts {
    pub bin: Vec<u8>,
    pub uf2: Vec<u8>,
    pub base_addr: u32,
}

/// The base address a conversion uses: the caller's override where present,
/// else the one derived from the ELF's virtual load addresses.
pub open spec fn spec_resolved_base(segs: Seq<crate::elf::Segment>, over: Option<u32>) -> u32 {
    match over {
        Some(b) => b,
        None => spec_base_addr(segs),
    }
}

/// Runs the whole conversion: parses the ELF, extracts the physical image,
/// and encodes it as a UF2 stream for the requested family.
pub fn elf2uf2(elf_data: &Vec<u8>, family_id: u32, base_addr: Option<u32>) -> (r: Result<
    Uf2Artifacts,
    Uf2Error,
>)
    ensures
        elf_program_headers(elf_data@) is None <==> r == Err::<Uf2Artifacts, Uf2Error>(
            Uf2Error::FormatError,
        ),
        elf_program_headers(elf_data@) matches Some(segs) ==> (match spec_extract(
            elf_data@,
            segs,
        ) {
            Err(e) => r == Err::<Uf2Artifacts, Uf2Error>(e),
            Ok(img) => if spec_num_blocks(img.len()) > u32::MAX {
                r == Err::<Uf2Artifacts, Uf2Error>(Uf2Error::ImageTooLarge)
            } else {
                r matches Ok(a) && a.bin@ == img && a.uf2@ == spec_uf2_encode(
                    img,
                    family_id,
                    spec_resolved_base(segs, base_addr),
                ) && a.base_addr == spec_resolved_base(segs, base_addr)
            },
        }),
{
    let segs = match crate::elf::parse_elf(elf_data) {
        None => {
            return Err(Uf2Error::FormatError);
        },
        Some(s) => s,
    };
    let base: u32 = match base_addr {
        Some(b) => b,
        None => base_addr_of_segments(&segs),
    };
    let bin = match extract_image(elf_data, &segs) {
        Err(e) => {
            return Err(e);
        },
        Ok(v) => v,
    };
    let len: usize = bin.len();
    let num_blocks: usize = len / 256 + if len % 256 == 0 {
        0
    } else {
        1
    };
    if num_blocks as u64 > u32::MAX as u64 {
        return Err(Uf2Error::ImageTooLarge);
    }
    let uf2 = bin_to_uf2(&bin, family_id, base);
    Ok(Uf2Artifacts { bin, uf2, base_addr: base })
}

} // verus!
