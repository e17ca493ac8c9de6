//! The byte layout of an archive, as the builder writes it.
use vstd::prelude::*;
use vstd::bytes::{spec_u32_to_le_bytes, spec_u64_to_le_bytes};

use crate::binary::cstr_bytes;
use crate::checksum::crc32_of;
use crate::ident_seq;

verus! {

/// One record of the entry table.
pub open spec fn entry_record(index: u32, name: Seq<char>, size: u64, crc: u32) -> Seq<u8> {
    spec_u32_to_le_bytes(index) + cstr_bytes(name) + spec_u64_to_le_bytes(size)
        + spec_u32_to_le_bytes(crc)
}

/// The entry table for files named `names`, numbered from 1, where the file at
/// position `k` has size and checksum `vals[k]` (without the terminating zero index).
pub open spec fn table_with(names: Seq<Seq<char>>, vals: Seq<(u64, u32)>) -> Seq<u8>
    decreases names.len(),
{
    if names.len() == 0 {
        Seq::empty()
    } else {
        let k = names.len() - 1;
        table_with(names.drop_last(), vals) + entry_record(
            names.len() as u32,
            names[k],
            vals[k].0,
            vals[k].1,
        )
    }
}

/// The contents of all files, one after the other.
pub open spec fn contents_of(datas: Seq<Seq<u8>>) -> Seq<u8>
    decreases datas.len(),
{
    if datas.len() == 0 {
        Seq::empty()
    } else {
        contents_of(datas.drop_last()) + datas.last()
    }
}

/// The names of the files.
pub open spec fn names_of(files: Seq<(Seq<char>, Seq<u8>)>) -> Seq<Seq<char>> {
    files.map_values(|f: (Seq<char>, Seq<u8>)| f.0)
}

/// The contents of the files.
pub open spec fn datas_of(files: Seq<(Seq<char>, Seq<u8>)>) -> Seq<Seq<u8>> {
    files.map_values(|f: (Seq<char>, Seq<u8>)| f.1)
}

/// The size and CRC-32 of each file.
pub open spec fn sums_of(files: Seq<(Seq<char>, Seq<u8>)>) -> Seq<(u64, u32)> {
    files.map_values(|f: (Seq<char>, Seq<u8>)| (f.1.len() as u64, crc32_of(f.1)))
}

/// The header: identifier, version, author id, timestamp, the required-content
/// list (an empty one, from version 2 on), name, metadata text, author name and
/// the addon format version 1.
pub open spec fn header_bytes(
    version: u8,
    steamid: u64,
    timestamp: u64,
    name: Seq<char>,
    metadata: Seq<char>,
    author: Seq<char>,
) -> Seq<u8> {
    ident_seq() + seq![version] + spec_u64_to_le_bytes(steamid) + spec_u64_to_le_bytes(timestamp)
        + (if version > 1 {
        seq![0u8]
    } else {
        Seq::empty()
    }) + cstr_bytes(name) + cstr_bytes(metadata) + cstr_bytes(author) + spec_u32_to_le_bytes(1)
}

/// A whole uncompressed archive: the header, the entry table ended by a zero
/// index, and the contents of the files in table order.
pub open spec fn archive_bytes(
    version: u8,
    steamid: u64,
    timestamp: u64,
    name: Seq<char>,
    metadata: Seq<char>,
    author: Seq<char>,
    files: Seq<(Seq<char>, Seq<u8>)>,
) -> Seq<u8> {
    header_bytes(version, steamid, timestamp, name, metadata, author) + table_with(
        names_of(files),
        sums_of(files),
    ) + spec_u32_to_le_bytes(0) + contents_of(datas_of(files))
}

/// The table depends on the first `names.len()` values only.
pub proof fn lemma_table_vals(names: Seq<Seq<char>>, v1: Seq<(u64, u32)>, v2: Seq<(u64, u32)>)
    requires
        names.len() <= v1.len(),
        names.len() <= v2.len(),
        forall|j: int| 0 <= j < names.len() ==> v1[j] == v2[j],
    ensures
        table_with(names, v1) == table_with(names, v2),
    decreases names.len(),
{
    if names.len() > 0 {
        lemma_table_vals(names.drop_last(), v1, v2);
    }
}

/// The length of the table does not depend on the values.
pub proof fn lemma_table_len(names: Seq<Seq<char>>, v1: Seq<(u64, u32)>, v2: Seq<(u64, u32)>)
    requires
        names.len() <= v1.len(),
        names.len() <= v2.len(),
    ensures
        table_with(names, v1).len() == table_with(names, v2).len(),
    decreases names.len(),
{
    vstd::bytes::lemma_auto_spec_u64_to_from_le_bytes();
    vstd::bytes::lemma_auto_spec_u32_to_from_le_bytes();
    if names.len() > 0 {
        lemma_table_len(names.drop_last(), v1, v2);
    }
}

/// Where the size field of entry `k` starts within the table.
pub open spec fn patch_offset(names: Seq<Seq<char>>, vals: Seq<(u64, u32)>, k: int) -> int {
    (table_with(names.take(k), vals).len() + 4 + cstr_bytes(names[k]).len()) as int
}

/// Setting the size and checksum of entry `k` rewrites the twelve bytes at its
/// patch offset and nothing else.
pub proof fn lemma_table_patch(
    names: Seq<Seq<char>>,
    vals: Seq<(u64, u32)>,
    k: int,
    v: (u64, u32),
)
    requires
        0 <= k < names.len() <= vals.len(),
    ensures
        ({
            let t = table_with(names, vals);
            let o = patch_offset(names, vals, k);
            &&& o + 12 <= t.len()
            &&& table_with(names, vals.update(k, v)) == t.subrange(0, o) + spec_u64_to_le_bytes(v.0)
                + spec_u32_to_le_bytes(v.1) + t.subrange(o + 12, t.len() as int)
        }),
    decreases names.len(),
{
    let n = names.len();
    let t = table_with(names, vals);
    let o = patch_offset(names, vals, k);
    let prev = names.drop_last();
    let w = vals.update(k, v);
    vstd::bytes::lemma_auto_spec_u64_to_from_le_bytes();
    vstd::bytes::lemma_auto_spec_u32_to_from_le_bytes();
    if k == n - 1 {
        assert(names.take(k) =~= prev);
        lemma_table_vals(prev, vals, w);
        let base = table_with(prev, vals);
        assert(t == base + entry_record(n as u32, names[k], vals[k].0, vals[k].1));
        assert(table_with(names, w) == base + entry_record(n as u32, names[k], v.0, v.1));
        assert(table_with(names, w) =~= t.subrange(0, o) + spec_u64_to_le_bytes(v.0)
            + spec_u32_to_le_bytes(v.1) + t.subrange(o + 12, t.len() as int));
    } else {
        lemma_table_patch(prev, vals, k, v);
        assert(prev.take(k) =~= names.take(k));
        assert(prev[k] == names[k]);
        let tp = table_with(prev, vals);
        let last = entry_record(n as u32, names[n - 1], vals[n - 1].0, vals[n - 1].1);
        assert(w[n - 1] == vals[n - 1]);
        assert(t == tp + last);
        assert(table_with(names, w) == table_with(prev, w) + last);
        assert(table_with(names, w) =~= t.subrange(0, o) + spec_u64_to_le_bytes(v.0)
            + spec_u32_to_le_bytes(v.1) + t.subrange(o + 12, t.len() as int));
    }
}

} // verus!
