//! Laws of the decoding pipeline that relate several functions: the filter
//! behaviour of the partition-table decoder and the round trip from encoded
//! field values back through the decoders.
use vstd::prelude::*;
use vstd::bytes::{lemma_auto_spec_u32_to_from_le_bytes, lemma_auto_spec_u64_to_from_le_bytes,
    spec_u32_from_le_bytes, spec_u32_to_le_bytes, spec_u64_to_le_bytes};

use crate::gpt::{all_names_ok, boot_sector_ok, entry_chunk, entry_name_ok, gpt_signature,
    gpt_signature_ok, header_fits, kept_slots, name_bytes, slot_used, table_end, table_start,
    zero_guid, GptHeader, PartitionTable};
use crate::name::{name_units, utf16_valid};

verus! {

/// A header that declares zero partition slots yields an empty partition
/// list: the slot filter keeps nothing out of an empty slot range.
pub proof fn lemma_zero_count_gives_empty_list(table: Seq<u8>, esz: int, t: PartitionTable)
    requires
        t.partitions@.len() == kept_slots(table, esz, 0).len(),
    ensures
        t.partitions@.len() == 0,
{
}

/// Of two slots where the first is unused (all-zero type identifier) and the
/// second used, exactly the second is kept, in its original slot position.
pub proof fn lemma_unused_slot_skipped(table: Seq<u8>, esz: int)
    requires
        !slot_used(entry_chunk(table, esz, 0)),
        slot_used(entry_chunk(table, esz, 1)),
    ensures
        kept_slots(table, esz, 2) == seq![1int],
{
    assert(kept_slots(table, esz, 0) == Seq::<int>::empty());
    assert(kept_slots(table, esz, 1) == Seq::<int>::empty());
    assert(kept_slots(table, esz, 2) == kept_slots(table, esz, 1).push(1));
    assert(kept_slots(table, esz, 2) =~= seq![1int]);
}

/// The slot filter keeps only indices of used slots, each in range, and
/// keeps them strictly increasing: on-disk slot order is preserved.
pub proof fn lemma_kept_slots_properties(table: Seq<u8>, esz: int, n: int)
    ensures
        forall|k: int|
            0 <= k < kept_slots(table, esz, n).len() ==> {
                let i = #[trigger] kept_slots(table, esz, n)[k];
                0 <= i < n && slot_used(entry_chunk(table, esz, i))
            },
        forall|a: int, b: int|
            0 <= a < b < kept_slots(table, esz, n).len() ==> kept_slots(table, esz, n)[a]
                < kept_slots(table, esz, n)[b],
    decreases n,
{
    if n > 0 {
        lemma_kept_slots_properties(table, esz, n - 1);
        let prev = kept_slots(table, esz, n - 1);
        let cur = kept_slots(table, esz, n);
        if slot_used(entry_chunk(table, esz, n - 1)) {
            assert(cur == prev.push(n - 1));
            assert forall|k: int| 0 <= k < cur.len() implies {
                let i = #[trigger] cur[k];
                0 <= i < n && slot_used(entry_chunk(table, esz, i))
            } by {
                if k < prev.len() {
                    assert(cur[k] == prev[k]);
                } else {
                    assert(cur[k] == n - 1);
                }
            }
            assert forall|a: int, b: int| 0 <= a < b < cur.len() implies cur[a] < cur[b] by {
                if b < prev.len() {
                    assert(cur[a] == prev[a] && cur[b] == prev[b]);
                } else {
                    assert(cur[b] == n - 1);
                    assert(cur[a] == prev[a] && prev[a] < n - 1);
                }
            }
        } else {
            assert(cur == prev);
        }
    }
}

/// A decoded partition list holds no unused slot: each entry's type
/// identifier differs from the all-zero marker.
pub proof fn lemma_decoded_entries_used(table: Seq<u8>, esz: int, n: int, t: PartitionTable)
    requires
        t.partitions@.len() == kept_slots(table, esz, n).len(),
        forall|k: int|
            0 <= k < t.partitions@.len() ==> crate::gpt::entry_matches(
                #[trigger] t.partitions@[k],
                entry_chunk(table, esz, kept_slots(table, esz, n)[k]),
            ),
    ensures
        forall|k: int|
            0 <= k < t.partitions@.len() ==> (#[trigger] t.partitions@[k]).type_guid@
                != zero_guid(),
{
    lemma_kept_slots_properties(table, esz, n);
}

/// The protective boot sector of a synthetic image: zeros with the two-byte
/// signature at its end.
pub open spec fn boot_block() -> Seq<u8> {
    Seq::new(
        512,
        |i: int|
            if i == 510 {
                0x55u8
            } else if i == 511 {
                0xaau8
            } else {
                0u8
            },
    )
}

/// The fixed fields of a header, laid out as they stand on disk from the
/// start of the header sector (0x5C bytes; four reserved zero bytes follow
/// the checksum field).
pub open spec fn encode_header(
    revision: Seq<u8>,
    size: u32,
    head_crc32: u32,
    my_lba: u64,
    alt_lba: u64,
    first_usable_lba: u64,
    last_usable_lba: u64,
    disk_guid: Seq<u8>,
    partition_lba: u64,
    num_partitions: u32,
    size_part_entry: u32,
    part_crc32: u32,
) -> Seq<u8> {
    gpt_signature() + revision + spec_u32_to_le_bytes(size) + spec_u32_to_le_bytes(head_crc32)
        + Seq::new(4, |i: int| 0u8) + spec_u64_to_le_bytes(my_lba) + spec_u64_to_le_bytes(alt_lba)
        + spec_u64_to_le_bytes(first_usable_lba) + spec_u64_to_le_bytes(last_usable_lba)
        + disk_guid + spec_u64_to_le_bytes(partition_lba) + spec_u32_to_le_bytes(num_partitions)
        + spec_u32_to_le_bytes(size_part_entry) + spec_u32_to_le_bytes(part_crc32)
}

/// One partition slot, laid out as it stands on disk: two identifiers, the
/// block range, the attribute bits and the fixed-width name field.
pub open spec fn encode_entry(
    type_guid: Seq<u8>,
    unique_guid: Seq<u8>,
    start_lba: u64,
    end_lba: u64,
    attributes: u64,
    name_field: Seq<u8>,
) -> Seq<u8> {
    type_guid + unique_guid + spec_u64_to_le_bytes(start_lba) + spec_u64_to_le_bytes(end_lba)
        + spec_u64_to_le_bytes(attributes) + name_field
}

/// A minimal synthetic image: the boot sector, the header sector padded to
/// its full 512 bytes, and one partition-array sector holding one slot.
pub open spec fn synth_image(header_block: Seq<u8>, entry_block: Seq<u8>) -> Seq<u8> {
    boot_block() + header_block + Seq::new(420, |i: int| 0u8) + entry_block
}

/// Round trip: a synthetic image built from known header and partition field
/// values decodes back to exactly those values.  The header declares its
/// partition array at block 2 with one slot of 128 bytes; every other field
/// is arbitrary, so no logical-block address, attribute bitset or identifier
/// value is changed or truncated by encoding followed by decoding.
pub proof fn lemma_round_trip(
    revision: Seq<u8>,
    size: u32,
    head_crc32: u32,
    my_lba: u64,
    alt_lba: u64,
    first_usable_lba: u64,
    last_usable_lba: u64,
    disk_guid: Seq<u8>,
    part_crc32: u32,
    type_guid: Seq<u8>,
    unique_guid: Seq<u8>,
    start_lba: u64,
    end_lba: u64,
    attributes: u64,
    name_field: Seq<u8>,
)
    requires
        revision.len() == 4,
        disk_guid.len() == 16,
        type_guid.len() == 16,
        unique_guid.len() == 16,
        name_field.len() == 72,
        0x5C <= size <= 0x280,
        type_guid != zero_guid(),
        utf16_valid(name_units(name_field)),
    ensures
        ({
            let hb = encode_header(
                revision,
                size,
                head_crc32,
                my_lba,
                alt_lba,
                first_usable_lba,
                last_usable_lba,
                disk_guid,
                2u64,
                1u32,
                128u32,
                part_crc32,
            );
            let eb = encode_entry(
                type_guid,
                unique_guid,
                start_lba,
                end_lba,
                attributes,
                name_field,
            );
            let s = synth_image(hb, eb);
            let table = s.subrange(1024, 1152);
            &&& s.len() == 1152
            &&& boot_sector_ok(s)
            &&& gpt_signature_ok(s)
            &&& header_fits(s)
            &&& forall|h: GptHeader|
                crate::gpt::header_matches(h, s) ==> h.signature@ == gpt_signature()
                    && h.revision@ == revision && h.size == size && h.head_crc32 == head_crc32
                    && h.my_lba == my_lba && h.alt_lba == alt_lba && h.first_usable_lba
                    == first_usable_lba && h.last_usable_lba == last_usable_lba && h.guid@
                    == disk_guid && h.partition_lba == 2 && h.num_partitions == 1
                    && h.size_part_entry == 128 && h.part_crc32 == part_crc32 && table_start(h)
                    == 1024 && table_end(h) == 1152
            &&& all_names_ok(table, 128, 1)
            &&& kept_slots(table, 128, 1) == seq![0int]
            &&& forall|p: crate::gpt::Partition|
                crate::gpt::entry_matches(p, entry_chunk(table, 128, 0)) ==> p.type_guid@
                    == type_guid && p.guid@ == unique_guid && p.start_lba == start_lba && p.end_lba
                    == end_lba && p.attributes == attributes && p.name@
                    == crate::name::utf16_decode(name_units(name_field))
        }),
{
    lemma_auto_spec_u32_to_from_le_bytes();
    lemma_auto_spec_u64_to_from_le_bytes();
    let hb = encode_header(
        revision,
        size,
        head_crc32,
        my_lba,
        alt_lba,
        first_usable_lba,
        last_usable_lba,
        disk_guid,
        2u64,
        1u32,
        128u32,
        part_crc32,
    );
    let eb = encode_entry(type_guid, unique_guid, start_lba, end_lba, attributes, name_field);
    let s = synth_image(hb, eb);
    assert(hb.len() == 0x5C);
    assert(eb.len() == 128);
    assert(s.len() == 1152);

    assert(boot_sector_ok(s));
    assert(s.subrange(512, 520) =~= gpt_signature());
    assert(s.subrange(520, 524) =~= revision);
    assert(s.subrange(524, 528) =~= spec_u32_to_le_bytes(size));
    assert(s.subrange(528, 532) =~= spec_u32_to_le_bytes(head_crc32));
    assert(s.subrange(536, 544) =~= spec_u64_to_le_bytes(my_lba));
    assert(s.subrange(544, 552) =~= spec_u64_to_le_bytes(alt_lba));
    assert(s.subrange(552, 560) =~= spec_u64_to_le_bytes(first_usable_lba));
    assert(s.subrange(560, 568) =~= spec_u64_to_le_bytes(last_usable_lba));
    assert(s.subrange(568, 584) =~= disk_guid);
    assert(s.subrange(584, 592) =~= spec_u64_to_le_bytes(2u64));
    assert(s.subrange(592, 596) =~= spec_u32_to_le_bytes(1u32));
    assert(s.subrange(596, 600) =~= spec_u32_to_le_bytes(128u32));
    assert(s.subrange(600, 604) =~= spec_u32_to_le_bytes(part_crc32));
    assert(spec_u32_from_le_bytes(s.subrange(524, 528)) == size);
    assert(header_fits(s));

    let table = s.subrange(1024, 1152);
    assert(table =~= eb);
    let chunk = entry_chunk(table, 128, 0);
    assert(chunk =~= eb);
    assert(chunk.subrange(0, 16) =~= type_guid);
    assert(chunk.subrange(16, 32) =~= unique_guid);
    assert(chunk.subrange(0x20, 0x28) =~= spec_u64_to_le_bytes(start_lba));
    assert(chunk.subrange(0x28, 0x30) =~= spec_u64_to_le_bytes(end_lba));
    assert(chunk.subrange(0x30, 0x38) =~= spec_u64_to_le_bytes(attributes));
    assert(name_bytes(chunk) =~= name_field);
    assert(entry_name_ok(chunk));
    assert(all_names_ok(table, 128, 1));
    assert(slot_used(chunk));
    assert(kept_slots(table, 128, 0) == Seq::<int>::empty());
    assert(kept_slots(table, 128, 1) =~= seq![0int]);
}

} // verus!
