//! The GPT decoding pipeline: boot-sector validation, header decoding and
//! partition-table decoding, each specified against the raw byte buffer.
use vstd::prelude::*;
use vstd::arithmetic::div_mod::{lemma_div_denominator, lemma_div_multiples_vanish};
use vstd::arithmetic::mul::{lemma_mul_inequality, lemma_mul_nonnegative};
use vstd::bytes::{spec_u32_from_le_bytes, spec_u64_from_le_bytes, u32_from_le_bytes,
    u64_from_le_bytes};
use vstd::slice::{slice_subrange, slice_to_vec};

use crate::name::{name_units, read_name, utf16_decode, utf16_valid};

verus! {

/// One sector; also the length of the protective boot sector and the unit in
/// which logical block addresses are counted.
pub const SECT_SIZE: usize = 512;

/// The ways a decode step can reject its input.  Every error is returned as
/// a value; no decode step panics on malformed input.
#[derive(Debug, Clone, Copy, PartialEq, Eq, Structural)]
pub enum GPTError {
    /// Some read implied by the input would run past the end of the buffer.
    BufferTooShort,
    /// The two bytes at offsets 510..512 are not `0x55, 0xAA`.
    InvalidBootSignature,
    /// The eight bytes at offset 512 are not the ASCII tag `EFI PART`.
    InvalidGptSignature,
    /// A GUID field was not exactly 16 bytes long.
    InvalidGuidLength,
    /// A partition name field had an odd byte count or was not valid UTF-16.
    InvalidNameEncoding,
}

/// The fixed-layout header found in the sector after the boot sector.
#[derive(Debug)]
pub struct GptHeader {
    /// The 8-byte ASCII tag `EFI PART`.
    pub signature: Vec<u8>,
    /// 4-byte revision tag; kept opaque.
    pub revision: Vec<u8>,
    /// Declared byte length of the header structure.
    pub size: u32,
    /// Stored header checksum; read but not verified.
    pub head_crc32: u32,
    /// Logical block address of this header.
    pub my_lba: u64,
    /// Logical block address of the backup header.
    pub alt_lba: u64,
    /// First logical block address usable for partitions.
    pub first_usable_lba: u64,
    /// Last logical block address usable for partitions.
    pub last_usable_lba: u64,
    /// The 16-byte disk identifier.
    pub guid: Vec<u8>,
    /// Logical block address where the partition entry array begins.
    pub partition_lba: u64,
    /// Number of entry slots in the partition array.
    pub num_partitions: u32,
    /// Byte length of one partition entry slot.
    pub size_part_entry: u32,
    /// Stored partition-array checksum; read but not verified.
    pub part_crc32: u32,
}

/// One used slot of the partition array.
#[derive(Debug)]
pub struct Partition {
    /// The 16-byte identifier of the partition's purpose; all zero marks an
    /// unused slot, so a decoded entry always holds a non-zero value here.
    pub type_guid: Vec<u8>,
    /// The 16-byte instance identifier.
    pub guid: Vec<u8>,
    /// First block of the partition (inclusive).
    pub start_lba: u64,
    /// Last block of the partition (inclusive).
    pub end_lba: u64,
    /// 8-byte flag bitset; not decoded further.
    pub attributes: u64,
    /// The label, decoded from the entry's fixed-width UTF-16 field with any
    /// trailing padding characters kept.
    pub name: String,
}

/// The decoded partition list, in on-disk slot order.
#[derive(Debug)]
pub struct PartitionTable {
    pub partitions: Vec<Partition>,
}

/// The ASCII bytes of the header tag `EFI PART`.
pub open spec fn gpt_signature() -> Seq<u8> {
    seq![0x45u8, 0x46u8, 0x49u8, 0x20u8, 0x50u8, 0x41u8, 0x52u8, 0x54u8]
}

/// The boot sector is valid: the buffer covers it and it ends in `0x55, 0xAA`.
pub open spec fn boot_sector_ok(s: Seq<u8>) -> bool {
    s.len() >= 512 && s[510] == 0x55u8 && s[511] == 0xaau8
}

/// Validates the protective boot sector at the start of the buffer.
pub fn verify_mbr(buff: &Vec<u8>) -> (r: Result<(), GPTError>)
    ensures
        match r {
            Ok(()) => boot_sector_ok(buff@),
            Err(GPTError::BufferTooShort) => buff@.len() < 512,
            Err(GPTError::InvalidBootSignature) => buff@.len() >= 512 && !(buff@[510] == 0x55u8
                && buff@[511] == 0xaau8),
            Err(_) => false,
        },
{
    if buff.len() < SECT_SIZE {
        return Err(GPTError::BufferTooShort);
    }

    if buff[510] != 0x55 || buff[511] != 0xaa {
        return Err(GPTError::InvalidBootSignature);
    }

    Ok(())
}

/// The buffer carries the `EFI PART` tag at the start of the header sector.
pub open spec fn gpt_signature_ok(s: Seq<u8>) -> bool
    recommends
        s.len() >= 0x210,
{
    s.subrange(512, 520) == gpt_signature()
}

/// The header size declared at byte offset 524, read little-endian.
pub open spec fn declared_header_size(s: Seq<u8>) -> u32
    recommends
        s.len() >= 0x210,
{
    spec_u32_from_le_bytes(s.subrange(524, 528))
}

/// The declared header covers every fixed field (the last one ends at byte
/// 0x5C of the header) and lies inside the buffer.
pub open spec fn header_fits(s: Seq<u8>) -> bool
    recommends
        s.len() >= 0x210,
{
    &&& declared_header_size(s) >= 0x5C
    &&& 512 + declared_header_size(s) <= s.len()
}

/// Every field of `h` equals the little-endian read of its fixed offset in
/// the buffer (offsets are relative to the header sector at byte 512).
pub open spec fn header_matches(h: GptHeader, s: Seq<u8>) -> bool {
    &&& h.signature@ == s.subrange(512, 520)
    &&& h.revision@ == s.subrange(520, 524)
    &&& h.size == spec_u32_from_le_bytes(s.subrange(524, 528))
    &&& h.head_crc32 == spec_u32_from_le_bytes(s.subrange(528, 532))
    &&& h.my_lba == spec_u64_from_le_bytes(s.subrange(536, 544))
    &&& h.alt_lba == spec_u64_from_le_bytes(s.subrange(544, 552))
    &&& h.first_usable_lba == spec_u64_from_le_bytes(s.subrange(552, 560))
    &&& h.last_usable_lba == spec_u64_from_le_bytes(s.subrange(560, 568))
    &&& h.guid@ == s.subrange(568, 584)
    &&& h.partition_lba == spec_u64_from_le_bytes(s.subrange(584, 592))
    &&& h.num_partitions == spec_u32_from_le_bytes(s.subrange(592, 596))
    &&& h.size_part_entry == spec_u32_from_le_bytes(s.subrange(596, 600))
    &&& h.part_crc32 == spec_u32_from_le_bytes(s.subrange(600, 604))
}

/// Decodes the header found in the sector after the boot sector.  The buffer
/// must cover one boot sector plus a minimal header region, carry the
/// `EFI PART` tag, and declare a header size that covers every fixed field
/// and stays inside the buffer; each failed check is a typed error and every
/// field of a returned header is pinned to its on-disk bytes.
pub fn get_gpt_header(buff: &Vec<u8>) -> (r: Result<GptHeader, GPTError>)
    ensures
        match r {
            Ok(h) => buff@.len() >= 0x210 && gpt_signature_ok(buff@) && header_fits(buff@)
                && header_matches(h, buff@),
            Err(GPTError::BufferTooShort) => buff@.len() < 0x210 || (gpt_signature_ok(buff@)
                && !header_fits(buff@)),
            Err(GPTError::InvalidGptSignature) => buff@.len() >= 0x210 && !gpt_signature_ok(buff@),
            Err(_) => false,
        },
{
    if buff.len() < 0x210 {
        return Err(GPTError::BufferTooShort);
    }

    let b = buff.as_slice();
    let sig_ok = b[512] == 0x45 && b[513] == 0x46 && b[514] == 0x49 && b[515] == 0x20 && b[516]
        == 0x50 && b[517] == 0x41 && b[518] == 0x52 && b[519] == 0x54;
    proof {
        assert(gpt_signature_ok(buff@) <==> (buff@[512] == 0x45u8 && buff@[513] == 0x46u8
            && buff@[514] == 0x49u8 && buff@[515] == 0x20u8 && buff@[516] == 0x50u8 && buff@[517]
            == 0x41u8 && buff@[518] == 0x52u8 && buff@[519] == 0x54u8)) by {
            if buff@[512] == 0x45u8 && buff@[513] == 0x46u8 && buff@[514] == 0x49u8 && buff@[515]
                == 0x20u8 && buff@[516] == 0x50u8 && buff@[517] == 0x41u8 && buff@[518] == 0x52u8
                && buff@[519] == 0x54u8 {
                assert(buff@.subrange(512, 520) =~= gpt_signature());
            }
            if buff@.subrange(512, 520) == gpt_signature() {
                assert(forall|k: int| 0 <= k < 8 ==> buff@.subrange(512, 520)[k]
                    == #[trigger] gpt_signature()[k]);
            }
        }
    }
    if !sig_ok {
        return Err(GPTError::InvalidGptSignature);
    }

    let head_len = u32_from_le_bytes(slice_subrange(b, 524, 528));
    if head_len < 0x5C {
        return Err(GPTError::BufferTooShort);
    }
    if buff.len() - 512 < head_len as usize {
        return Err(GPTError::BufferTooShort);
    }

    Ok(
        GptHeader {
            signature: slice_to_vec(slice_subrange(b, 512, 520)),
            revision: slice_to_vec(slice_subrange(b, 520, 524)),
            size: head_len,
            head_crc32: u32_from_le_bytes(slice_subrange(b, 528, 532)),
            my_lba: u64_from_le_bytes(slice_subrange(b, 536, 544)),
            alt_lba: u64_from_le_bytes(slice_subrange(b, 544, 552)),
            first_usable_lba: u64_from_le_bytes(slice_subrange(b, 552, 560)),
            last_usable_lba: u64_from_le_bytes(slice_subrange(b, 560, 568)),
            guid: slice_to_vec(slice_subrange(b, 568, 584)),
            partition_lba: u64_from_le_bytes(slice_subrange(b, 584, 592)),
            num_partitions: u32_from_le_bytes(slice_subrange(b, 592, 596)),
            size_part_entry: u32_from_le_bytes(slice_subrange(b, 596, 600)),
            part_crc32: u32_from_le_bytes(slice_subrange(b, 600, 604)),
        },
    )
}

/// Byte offset where the partition array begins.
pub open spec fn table_start(h: GptHeader) -> int {
    512 * h.partition_lba
}

/// Byte offset just past the partition array.
pub open spec fn table_end(h: GptHeader) -> int {
    table_start(h) + h.num_partitions * h.size_part_entry
}

/// The whole partition array described by the header lies inside the buffer.
pub open spec fn table_in_bounds(h: GptHeader, s: Seq<u8>) -> bool {
    table_end(h) <= s.len()
}

/// Slot `i` of a partition array whose slots are `esz` bytes wide.
pub open spec fn entry_chunk(table: Seq<u8>, esz: int, i: int) -> Seq<u8> {
    table.subrange(i * esz, (i + 1) * esz)
}

/// The all-zero type identifier that marks an unused slot.
pub open spec fn zero_guid() -> Seq<u8> {
    Seq::new(16, |i: int| 0u8)
}

/// A slot is used when its type identifier is not all zero.
pub open spec fn slot_used(c: Seq<u8>) -> bool {
    c.subrange(0, 16) != zero_guid()
}

/// The indices of the used slots among the first `n`, in slot order.
pub open spec fn kept_slots(table: Seq<u8>, esz: int, n: int) -> Seq<int>
    decreases n,
{
    if n <= 0 {
        seq![]
    } else if slot_used(entry_chunk(table, esz, n - 1)) {
        kept_slots(table, esz, n - 1).push(n - 1)
    } else {
        kept_slots(table, esz, n - 1)
    }
}

/// The name field: whatever follows the fixed-width fields of a slot.
pub open spec fn name_bytes(c: Seq<u8>) -> Seq<u8> {
    c.subrange(0x38, c.len() as int)
}

/// The slot's name field decodes as UTF-16.
pub open spec fn entry_name_ok(c: Seq<u8>) -> bool {
    name_bytes(c).len() % 2 == 0 && utf16_valid(name_units(name_bytes(c)))
}

/// Every slot of the array has a decodable name field.
pub open spec fn all_names_ok(table: Seq<u8>, esz: int, n: int) -> bool {
    forall|i: int| 0 <= i < n ==> entry_name_ok(#[trigger] entry_chunk(table, esz, i))
}

/// Every field of `p` equals the read of its fixed offset in the slot bytes.
pub open spec fn entry_matches(p: Partition, c: Seq<u8>) -> bool {
    &&& p.type_guid@ == c.subrange(0, 16)
    &&& p.guid@ == c.subrange(16, 32)
    &&& p.start_lba == spec_u64_from_le_bytes(c.subrange(0x20, 0x28))
    &&& p.end_lba == spec_u64_from_le_bytes(c.subrange(0x28, 0x30))
    &&& p.attributes == spec_u64_from_le_bytes(c.subrange(0x30, 0x38))
    &&& p.name@ == utf16_decode(name_units(name_bytes(c)))
}

/// Copies the partition array out of the buffer.  The array's start and end
/// offsets are derived from header fields that an adversary controls, so the
/// bounds are checked in wide arithmetic before any byte is touched.
pub fn get_partition_table_buf(buff: &Vec<u8>, header: &GptHeader) -> (r: Result<
    Vec<u8>,
    GPTError,
>)
    ensures
        match r {
            Ok(t) => table_in_bounds(*header, buff@) && t@ == buff@.subrange(
                table_start(*header),
                table_end(*header),
            ),
            Err(GPTError::BufferTooShort) => !table_in_bounds(*header, buff@),
            Err(_) => false,
        },
{
    let start: u128 = 512u128 * (header.partition_lba as u128);
    proof {
        assert((header.num_partitions as int) * (header.size_part_entry as int)
            < 0x1_0000_0000_0000_0000int) by (nonlinear_arith)
            requires
                0 <= header.num_partitions as int,
                (header.num_partitions as int) < 0x1_0000_0000,
                0 <= header.size_part_entry as int,
                (header.size_part_entry as int) < 0x1_0000_0000,
        ;
    }
    let count: u64 = (header.num_partitions as u64) * (header.size_part_entry as u64);
    let end: u128 = start + (count as u128);
    if end > buff.len() as u128 {
        return Err(GPTError::BufferTooShort);
    }

    let s = start as usize;
    let e = end as usize;
    let mut t: Vec<u8> = Vec::new();
    let mut i = s;
    proof {
        assert(buff@.subrange(s as int, s as int) =~= Seq::<u8>::empty());
    }
    while i < e
        invariant
            s <= i <= e <= buff@.len(),
            t@ == buff@.subrange(s as int, i as int),
        decreases e - i,
    {
        let byte = buff[i];
        proof {
            assert(buff@.subrange(s as int, i as int + 1) =~= buff@.subrange(
                s as int,
                i as int,
            ).push(buff@[i as int]));
        }
        t.push(byte);
        i = i + 1;
    }
    Ok(t)
}

/// True exactly when every byte of the vector is zero.
fn vec_all_zero(v: &Vec<u8>) -> (r: bool)
    ensures
        r == (forall|k: int| 0 <= k < v@.len() ==> v@[k] == 0u8),
{
    let mut k: usize = 0;
    let mut all_zero = true;
    while k < v.len()
        invariant
            k <= v@.len(),
            all_zero == (forall|j: int| 0 <= j < k ==> v@[j] == 0u8),
        decreases v@.len() - k,
    {
        if v[k] != 0 {
            all_zero = false;
        }
        k = k + 1;
    }
    all_zero
}

/// Decodes the partition array described by the header: the array is located
/// and bounds-checked, each slot's fields are read at their fixed offsets,
/// and unused slots (all-zero type identifier) are discarded.  The resulting
/// list keeps on-disk slot order.
pub fn get_partition_table(buff: &Vec<u8>, header: GptHeader) -> (r: Result<
    PartitionTable,
    GPTError,
>)
    ensures
        ({
            let table = buff@.subrange(table_start(header), table_end(header));
            let esz = header.size_part_entry as int;
            let n = header.num_partitions as int;
            match r {
                Ok(t) => {
                    &&& table_in_bounds(header, buff@)
                    &&& header.size_part_entry >= 128
                    &&& all_names_ok(table, esz, n)
                    &&& t.partitions@.len() == kept_slots(table, esz, n).len()
                    &&& forall|k: int|
                        0 <= k < t.partitions@.len() ==> entry_matches(
                            #[trigger] t.partitions@[k],
                            entry_chunk(table, esz, kept_slots(table, esz, n)[k]),
                        )
                },
                Err(GPTError::BufferTooShort) => !table_in_bounds(header, buff@)
                    || header.size_part_entry < 128,
                Err(GPTError::InvalidNameEncoding) => table_in_bounds(header, buff@)
                    && header.size_part_entry >= 128 && !all_names_ok(table, esz, n),
                Err(_) => false,
            }
        }),
{
    let table_buf = match get_partition_table_buf(buff, &header) {
        Ok(t) => t,
        Err(e) => {
            return Err(e);
        },
    };
    if header.size_part_entry < 128 {
        return Err(GPTError::BufferTooShort);
    }

    let esz: usize = header.size_part_entry as usize;
    let n: usize = header.num_partitions as usize;
    let ghost gtable: Seq<u8> = table_buf@;
    let tlen: usize = table_buf.len();
    let ts = table_buf.as_slice();
    proof {
        assert(gtable.len() == n * esz);
    }

    let mut parts: Vec<Partition> = Vec::new();
    let mut i: usize = 0;
    while i < n
        invariant
            i <= n,
            esz == header.size_part_entry as int,
            esz >= 128,
            n == header.num_partitions as int,
            ts@ == gtable,
            tlen == gtable.len(),
            gtable.len() == n * esz,
            table_in_bounds(header, buff@),
            gtable == buff@.subrange(table_start(header), table_end(header)),
            forall|k: int| 0 <= k < i ==> entry_name_ok(#[trigger] entry_chunk(gtable, esz as int, k)),
            parts@.len() == kept_slots(gtable, esz as int, i as int).len(),
            forall|k: int|
                0 <= k < parts@.len() ==> entry_matches(
                    #[trigger] parts@[k],
                    entry_chunk(gtable, esz as int, kept_slots(gtable, esz as int, i as int)[k]),
                ),
        decreases n - i,
    {
        proof {
            lemma_mul_nonnegative(i as int, esz as int);
            lemma_mul_inequality(i as int, n as int, esz as int);
            lemma_mul_inequality(i as int + 1, n as int, esz as int);
            assert((i as int) * (esz as int) + esz == (i as int + 1) * (esz as int))
                by (nonlinear_arith);
        }
        let off: usize = i * esz;
        let ghost chunk = entry_chunk(gtable, esz as int, i as int);
        proof {
            assert(chunk.len() == esz);
            assert(ts@.subrange(off as int, off + 16) =~= chunk.subrange(0, 16));
            assert(ts@.subrange(off + 16, off + 32) =~= chunk.subrange(16, 32));
            assert(ts@.subrange(off + 0x20, off + 0x28) =~= chunk.subrange(0x20, 0x28));
            assert(ts@.subrange(off + 0x28, off + 0x30) =~= chunk.subrange(0x28, 0x30));
            assert(ts@.subrange(off + 0x30, off + 0x38) =~= chunk.subrange(0x30, 0x38));
            assert(ts@.subrange(off + 0x38, off + esz) =~= name_bytes(chunk));
        }
        let type_guid = slice_to_vec(slice_subrange(ts, off, off + 16));
        let guid = slice_to_vec(slice_subrange(ts, off + 16, off + 32));
        let start_lba = u64_from_le_bytes(slice_subrange(ts, off + 0x20, off + 0x28));
        let end_lba = u64_from_le_bytes(slice_subrange(ts, off + 0x28, off + 0x30));
        let attributes = u64_from_le_bytes(slice_subrange(ts, off + 0x30, off + 0x38));
        let name = match read_name(slice_subrange(ts, off + 0x38, off + esz)) {
            Ok(s) => s,
            Err(_) => {
                proof {
                    assert(!entry_name_ok(entry_chunk(gtable, esz as int, i as int)));
                    assert(!all_names_ok(gtable, esz as int, n as int));
                }
                return Err(GPTError::InvalidNameEncoding);
            },
        };

        let used = !vec_all_zero(&type_guid);
        proof {
            if forall|k: int| 0 <= k < type_guid@.len() ==> type_guid@[k] == 0u8 {
                assert(chunk.subrange(0, 16) =~= zero_guid());
            } else {
                let w = choose|k: int| 0 <= k < type_guid@.len() && type_guid@[k] != 0u8;
                assert(chunk.subrange(0, 16)[w] != zero_guid()[w]);
            }
            assert(used == slot_used(chunk));
        }
        if used {
            let p = Partition { type_guid, guid, start_lba, end_lba, attributes, name };
            proof {
                assert(entry_matches(p, chunk));
            }
            parts.push(p);
        }
        proof {
            assert(kept_slots(gtable, esz as int, i as int + 1) == if slot_used(chunk) {
                kept_slots(gtable, esz as int, i as int).push(i as int)
            } else {
                kept_slots(gtable, esz as int, i as int)
            });
        }
        i = i + 1;
    }
    Ok(PartitionTable { partitions: parts })
}

impl Partition {
    /// The partition's size in whole megabytes, computed with exact integer
    /// arithmetic from the inclusive block range.
    pub fn size_mb(&self) -> (r: u64)
        requires
            self.start_lba <= self.end_lba,
        ensures
            r == (self.end_lba - self.start_lba) * 512 / 1024 / 1024,
    {
        proof {
            let x = self.end_lba - self.start_lba;
            lemma_div_denominator(x * 512, 1024, 1024);
            lemma_div_denominator(x * 512, 512, 2048);
            lemma_div_multiples_vanish(x, 512);
            assert(512 * x == x * 512);
        }
        (self.end_lba - self.start_lba) / 2048
    }
}

} // verus!
