//! Laws that relate the builder and the reader.
use vstd::prelude::*;
use vstd::bytes::{
    lemma_auto_spec_u32_to_from_le_bytes, lemma_auto_spec_u64_to_from_le_bytes,
    spec_u32_to_le_bytes, spec_u64_to_le_bytes,
};
use vstd::utf8::{encode_utf8, encode_utf8_decode_utf8, encode_utf8_valid_utf8};

use crate::addon_metadata::{
    addon_tag_name, addon_type_name, decode_metadata, escape_char, escaped, hex_digit, hex_value,
    is_control, is_ws, json_of, list_items, lower, member_value, members, parse_list, parse_str,
    present_tags, quoted, quoted_list, skip_ws, str_body, tag_from_name, tag_pair,
    type_from_name, unescape, FoundFields, MetadataModel,
};
use crate::binary::{cstr_bytes, cstr_len, read_cstr_at, read_u32_at, read_u64_at, read_u8_at, writable_cstr};
use crate::checksum::crc32_of;
use crate::compression::lzma_decoded;
use crate::gma_builder::{add_tag, all_writable, archive_of, metadata_of, BuilderModel};
use crate::gma_reader::{
    entry_contents, load_model, parse_entries, parse_header, skip_required, EntryModel, FileModel,
    HeaderModel,
};
use crate::layout::{
    archive_bytes, contents_of, datas_of, entry_record, header_bytes, names_of, sums_of,
    table_with,
};
use crate::{ident_seq, valid_version, AddonTag, AddonType};

verus! {

proof fn lemma_read_u32_of(d: Seq<u8>, p: int, v: u32)
    requires
        0 <= p,
        p + 4 <= d.len(),
        d.subrange(p, p + 4) == spec_u32_to_le_bytes(v),
    ensures
        read_u32_at(d, p) == Ok::<(u32, int), crate::error::Error>((v, p + 4)),
{
    lemma_auto_spec_u32_to_from_le_bytes();
    assert(spec_u32_to_le_bytes(v).len() == 4);
}

proof fn lemma_read_u64_of(d: Seq<u8>, p: int, v: u64)
    requires
        0 <= p,
        p + 8 <= d.len(),
        d.subrange(p, p + 8) == spec_u64_to_le_bytes(v),
    ensures
        read_u64_at(d, p) == Ok::<(u64, int), crate::error::Error>((v, p + 8)),
{
    lemma_auto_spec_u64_to_from_le_bytes();
}

proof fn lemma_cstr_len_of(d: Seq<u8>, p: int, k: nat)
    requires
        0 <= p,
        p + k < d.len(),
        forall|i: int| p <= i < p + k ==> d[i] != 0,
        d[p + k] == 0,
    ensures
        cstr_len(d, p) == k,
    decreases k,
{
    if k > 0 {
        lemma_cstr_len_of(d, p + 1, (k - 1) as nat);
    }
}

/// A null-terminated string written at `p` reads back as itself.
proof fn lemma_read_cstr_of(d: Seq<u8>, p: int, s: Seq<char>)
    requires
        0 <= p,
        writable_cstr(s),
        p + cstr_bytes(s).len() <= d.len(),
        d.subrange(p, p + cstr_bytes(s).len()) == cstr_bytes(s),
    ensures
        read_cstr_at(d, p) == Ok::<(Seq<char>, int), crate::error::Error>(
            (s, p + cstr_bytes(s).len()),
        ),
{
    let e = encode_utf8(s);
    let k = e.len();
    assert forall|i: int| p <= i < p + k implies d[i] != 0 by {
        assert(d[i] == d.subrange(p, p + cstr_bytes(s).len())[i - p]);
        assert(e[i - p] != 0) by {
            if e[i - p] == 0 {
                assert(e.contains(0u8));
            }
        }
    }
    assert(d[p + k] == d.subrange(p, p + cstr_bytes(s).len())[k as int]);
    lemma_cstr_len_of(d, p, k);
    assert(d.subrange(p, p + k) =~= e) by {
        assert forall|i: int| 0 <= i < k implies d.subrange(p, p + k)[i] == e[i] by {
            assert(d.subrange(p, p + k)[i] == d.subrange(p, p + cstr_bytes(s).len())[i]);
        }
    }
    encode_utf8_valid_utf8(s);
    encode_utf8_decode_utf8(s);
}

/// The length of the table of the first `j` files is the length of a prefix
/// of the table, and that prefix is that table.
proof fn lemma_table_prefix(names: Seq<Seq<char>>, vals: Seq<(u64, u32)>, j: int)
    requires
        0 <= j <= names.len(),
    ensures
        table_with(names.take(j), vals).len() <= table_with(names, vals).len(),
        table_with(names, vals).subrange(0, table_with(names.take(j), vals).len() as int)
            == table_with(names.take(j), vals),
    decreases names.len(),
{
    if j == names.len() {
        assert(names.take(j) =~= names);
        assert(table_with(names, vals).subrange(0, table_with(names, vals).len() as int)
            =~= table_with(names, vals));
    } else {
        let prev = names.drop_last();
        lemma_table_prefix(prev, vals, j);
        assert(prev.take(j) =~= names.take(j));
        let t = table_with(names, vals);
        let tp = table_with(prev, vals);
        let tj = table_with(names.take(j), vals);
        assert(t.subrange(0, tj.len() as int) =~= tp.subrange(0, tj.len() as int));
    }
}

proof fn lemma_contents_prefix(datas: Seq<Seq<u8>>, j: int)
    requires
        0 <= j <= datas.len(),
    ensures
        contents_of(datas.take(j)).len() <= contents_of(datas).len(),
        contents_of(datas).subrange(0, contents_of(datas.take(j)).len() as int) == contents_of(
            datas.take(j),
        ),
    decreases datas.len(),
{
    if j == datas.len() {
        assert(datas.take(j) =~= datas);
        assert(contents_of(datas).subrange(0, contents_of(datas).len() as int) =~= contents_of(
            datas,
        ));
    } else {
        let prev = datas.drop_last();
        lemma_contents_prefix(prev, j);
        assert(prev.take(j) =~= datas.take(j));
        let c = contents_of(datas);
        let cp = contents_of(prev);
        let cj = contents_of(datas.take(j));
        assert(c.subrange(0, cj.len() as int) =~= cp.subrange(0, cj.len() as int));
    }
}

/// Where the contents of file `k` start in the data block.
pub open spec fn content_offset(files: Seq<(Seq<char>, Seq<u8>)>, k: int) -> int {
    contents_of(datas_of(files).take(k)).len() as int
}

/// The entries that the table of `files` lists.
pub open spec fn entries_of(files: Seq<(Seq<char>, Seq<u8>)>) -> Seq<EntryModel> {
    Seq::new(
        files.len(),
        |k: int|
            EntryModel {
                name: files[k].0,
                size: files[k].1.len() as u64,
                crc: crc32_of(files[k].1),
                offset: content_offset(files, k) as u64,
            },
    )
}

/// Reading the table written for `files`, from entry `j` on.
proof fn lemma_parse_entries_from(
    d: Seq<u8>,
    p: int,
    files: Seq<(Seq<char>, Seq<u8>)>,
    j: int,
)
    requires
        0 <= p,
        0 <= j <= files.len(),
        files.len() < 0x1_0000_0000,
        contents_of(datas_of(files)).len() <= u64::MAX,
        forall|k: int| 0 <= k < files.len() ==> writable_cstr(#[trigger] files[k].0),
        p + table_with(names_of(files), sums_of(files)).len() + 4 <= d.len(),
        d.subrange(p, p + table_with(names_of(files), sums_of(files)).len() + 4) == table_with(
            names_of(files),
            sums_of(files),
        ) + spec_u32_to_le_bytes(0),
    ensures
        parse_entries(
            d,
            p + table_with(names_of(files).take(j), sums_of(files)).len(),
            content_offset(files, j) as u64,
        ) == Ok::<(Seq<EntryModel>, int), crate::error::Error>(
            (
                entries_of(files).subrange(j, files.len() as int),
                p + table_with(names_of(files), sums_of(files)).len() + 4,
            ),
        ),
    decreases files.len() - j,
{
    let names = names_of(files);
    let sums = sums_of(files);
    let datas = datas_of(files);
    let t = table_with(names, sums);
    let n = files.len() as int;
    lemma_auto_spec_u32_to_from_le_bytes();
    lemma_auto_spec_u64_to_from_le_bytes();
    lemma_contents_prefix(datas, j);
    if j == n {
        assert(names.take(j) =~= names);
        let q = p + t.len();
        assert(d.subrange(q, q + 4) =~= spec_u32_to_le_bytes(0)) by {
            assert forall|i: int| 0 <= i < 4 implies d.subrange(q, q + 4)[i]
                == spec_u32_to_le_bytes(0)[i] by {
                assert(d.subrange(q, q + 4)[i] == d.subrange(p, p + t.len() + 4)[t.len() + i]);
            }
        }
        lemma_read_u32_of(d, q, 0);
        assert(entries_of(files).subrange(j, n) =~= Seq::<EntryModel>::empty());
    } else {
        let tj = table_with(names.take(j), sums);
        let tj1 = table_with(names.take(j + 1), sums);
        lemma_table_prefix(names, sums, j + 1);
        assert(names.take(j + 1).drop_last() =~= names.take(j));
        let index = (j + 1) as u32;
        let rec = entry_record(index, names[j], sums[j].0, sums[j].1);
        assert(tj1 == tj + rec);
        let pj = p + tj.len();
        // the record of entry j sits at pj
        assert(d.subrange(pj, pj + rec.len()) =~= rec) by {
            assert forall|i: int| 0 <= i < rec.len() implies d.subrange(pj, pj + rec.len())[i]
                == rec[i] by {
                assert(d.subrange(pj, pj + rec.len())[i] == d.subrange(p, p + t.len() + 4)[tj.len()
                    + i]);
                assert(t.subrange(0, tj1.len() as int)[tj.len() + i] == tj1[tj.len() + i]);
            }
        }
        let name = names[j];
        let cb = cstr_bytes(name);
        assert(name == files[j].0);
        assert(d.subrange(pj, pj + 4) =~= spec_u32_to_le_bytes(index)) by {
            assert forall|i: int| 0 <= i < 4 implies d.subrange(pj, pj + 4)[i]
                == spec_u32_to_le_bytes(index)[i] by {
                assert(d.subrange(pj, pj + 4)[i] == d.subrange(pj, pj + rec.len())[i]);
            }
        }
        lemma_read_u32_of(d, pj, index);
        let at1 = pj + 4;
        assert(d.subrange(at1, at1 + cb.len()) =~= cb) by {
            assert forall|i: int| 0 <= i < cb.len() implies d.subrange(at1, at1 + cb.len())[i]
                == cb[i] by {
                assert(d.subrange(at1, at1 + cb.len())[i] == d.subrange(pj, pj + rec.len())[4 + i]);
            }
        }
        lemma_read_cstr_of(d, at1, name);
        let at2 = at1 + cb.len();
        assert(d.subrange(at2, at2 + 8) =~= spec_u64_to_le_bytes(sums[j].0)) by {
            assert forall|i: int| 0 <= i < 8 implies d.subrange(at2, at2 + 8)[i]
                == spec_u64_to_le_bytes(sums[j].0)[i] by {
                assert(d.subrange(at2, at2 + 8)[i] == d.subrange(pj, pj + rec.len())[4 + cb.len()
                    + i]);
            }
        }
        lemma_read_u64_of(d, at2, sums[j].0);
        let at3 = at2 + 8;
        assert(d.subrange(at3, at3 + 4) =~= spec_u32_to_le_bytes(sums[j].1)) by {
            assert forall|i: int| 0 <= i < 4 implies d.subrange(at3, at3 + 4)[i]
                == spec_u32_to_le_bytes(sums[j].1)[i] by {
                assert(d.subrange(at3, at3 + 4)[i] == d.subrange(pj, pj + rec.len())[4 + cb.len() + 8
                    + i]);
            }
        }
        lemma_read_u32_of(d, at3, sums[j].1);
        let at4 = at3 + 4;
        assert(at4 == p + tj1.len());
        // the offset of the next entry
        lemma_contents_prefix(datas, j + 1);
        assert(datas.take(j + 1).drop_last() =~= datas.take(j));
        assert(datas[j] == files[j].1);
        let off = content_offset(files, j) as u64;
        assert(content_offset(files, j + 1) == content_offset(files, j) + files[j].1.len());
        assert(off.wrapping_add(sums[j].0) == content_offset(files, j + 1) as u64);
        lemma_parse_entries_from(d, p, files, j + 1);
        assert(entries_of(files).subrange(j, n) =~= seq![
            EntryModel { name, size: sums[j].0, crc: sums[j].1, offset: off },
        ] + entries_of(files).subrange(j + 1, n));
    }
}

/// When a prefix of `d` is `a + x`, then `x` stands right after `a`.
proof fn lemma_peel<A>(d: Seq<A>, a: Seq<A>, x: Seq<A>)
    requires
        (a.len() + x.len()) as int <= d.len(),
        d.subrange(0, (a.len() + x.len()) as int) == a + x,
    ensures
        d.subrange(a.len() as int, (a.len() + x.len()) as int) == x,
        d.subrange(0, a.len() as int) == a,
{
    assert(d.subrange(a.len() as int, (a.len() + x.len()) as int) =~= (a + x).subrange(
        a.len() as int,
        (a.len() + x.len()) as int,
    ));
    assert(d.subrange(0, a.len() as int) =~= (a + x).subrange(0, a.len() as int));
}

/// The name, metadata text, author name, addon version and table written from
/// position `r` on read back as themselves.
proof fn lemma_parse_tail(
    d: Seq<u8>,
    r: int,
    version: u8,
    steamid: u64,
    timestamp: u64,
    name: Seq<char>,
    meta: Seq<char>,
    author: Seq<char>,
    files: Seq<(Seq<char>, Seq<u8>)>,
)
    requires
        0 <= r,
        writable_cstr(name),
        writable_cstr(meta),
        writable_cstr(author),
        forall|k: int| 0 <= k < files.len() ==> writable_cstr(#[trigger] files[k].0),
        files.len() < 0x1_0000_0000,
        contents_of(datas_of(files)).len() <= u64::MAX,
        ({
            let nb = cstr_bytes(name);
            let mb = cstr_bytes(meta);
            let ab = cstr_bytes(author);
            let t = table_with(names_of(files), sums_of(files));
            let r2 = r + nb.len();
            let r3 = r2 + mb.len();
            let r4 = r3 + ab.len();
            &&& r4 + 4 + t.len() + 4 <= d.len()
            &&& d.subrange(r, r2) == nb
            &&& d.subrange(r2, r3) == mb
            &&& d.subrange(r3, r4) == ab
            &&& d.subrange(r4, r4 + 4) == spec_u32_to_le_bytes(1)
            &&& d.subrange(r4 + 4, r4 + 4 + t.len() + 4) == t + spec_u32_to_le_bytes(0)
        }),
    ensures
        crate::gma_reader::parse_strings_and_table(d, r, version, steamid, timestamp) == Ok::<
            HeaderModel,
            crate::error::Error,
        >(
            HeaderModel {
                version,
                steamid,
                timestamp,
                name,
                metadata: meta,
                author,
                entries: entries_of(files),
                data_start: r + cstr_bytes(name).len() + cstr_bytes(meta).len() + cstr_bytes(
                    author,
                ).len() + 4 + table_with(names_of(files), sums_of(files)).len() + 4,
            },
        ),
{
    let nb = cstr_bytes(name);
    let mb = cstr_bytes(meta);
    let ab = cstr_bytes(author);
    let r2 = r + nb.len();
    let r3 = r2 + mb.len();
    let r4 = r3 + ab.len();
    lemma_read_cstr_of(d, r, name);
    lemma_read_cstr_of(d, r2, meta);
    lemma_read_cstr_of(d, r3, author);
    lemma_read_u32_of(d, r4, 1);
    lemma_parse_entries_from(d, r4 + 4, files, 0);
    assert(names_of(files).take(0) =~= Seq::<Seq<char>>::empty());
    assert(datas_of(files).take(0) =~= Seq::<Seq<u8>>::empty());
    assert(entries_of(files).subrange(0, files.len() as int) =~= entries_of(files));
}

/// Reading the archive written from these fields gives them back, with the
/// entries that its table lists.
#[verifier::rlimit(100)]
proof fn lemma_parse_archive(
    version: u8,
    steamid: u64,
    timestamp: u64,
    name: Seq<char>,
    meta: Seq<char>,
    author: Seq<char>,
    files: Seq<(Seq<char>, Seq<u8>)>,
)
    requires
        valid_version(version),
        writable_cstr(name),
        writable_cstr(meta),
        writable_cstr(author),
        forall|k: int| 0 <= k < files.len() ==> writable_cstr(#[trigger] files[k].0),
        files.len() < 0x1_0000_0000,
        contents_of(datas_of(files)).len() <= u64::MAX,
    ensures
        parse_header(archive_bytes(version, steamid, timestamp, name, meta, author, files))
            == Ok::<HeaderModel, crate::error::Error>(
            HeaderModel {
                version,
                steamid,
                timestamp,
                name,
                metadata: meta,
                author,
                entries: entries_of(files),
                data_start: (header_bytes(version, steamid, timestamp, name, meta, author).len()
                    + table_with(names_of(files), sums_of(files)).len() + 4) as int,
            },
        ),
{
    let d = archive_bytes(version, steamid, timestamp, name, meta, author, files);
    let h = header_bytes(version, steamid, timestamp, name, meta, author);
    let t = table_with(names_of(files), sums_of(files));
    let z = spec_u32_to_le_bytes(0);
    let c = contents_of(datas_of(files));
    let sb = spec_u64_to_le_bytes(steamid);
    let tb = spec_u64_to_le_bytes(timestamp);
    let ob: Seq<u8> = if version > 1 {
        seq![0u8]
    } else {
        Seq::empty()
    };
    let nb = cstr_bytes(name);
    let mb = cstr_bytes(meta);
    let ab = cstr_bytes(author);
    let one = spec_u32_to_le_bytes(1);
    assert(one.len() == 4) by {
        lemma_auto_spec_u32_to_from_le_bytes();
    }
    assert(z.len() == 4) by {
        lemma_auto_spec_u32_to_from_le_bytes();
    }
    assert(sb.len() == 8 && tb.len() == 8) by {
        lemma_auto_spec_u64_to_from_le_bytes();
    }
    let at1 = ident_seq() + seq![version];
    let at2 = at1 + sb;
    let at3 = at2 + tb;
    let at4 = at3 + ob;
    let at5 = at4 + nb;
    let at6 = at5 + mb;
    let at7 = at6 + ab;
    assert(h == at7 + one);
    assert(d == h + (t + z + c)) by {
        assert(d =~= h + (t + z + c));
    }
    assert(d.subrange(0, d.len() as int) =~= d);
    lemma_peel(d, h, t + z + c);
    lemma_peel(d, at7, one);
    lemma_peel(d, at6, ab);
    lemma_peel(d, at5, mb);
    lemma_peel(d, at4, nb);
    lemma_peel(d, at3, ob);
    lemma_peel(d, at2, tb);
    lemma_peel(d, at1, sb);
    lemma_peel(d, ident_seq(), seq![version]);
    assert(d[4] == d.subrange(4, 5)[0]);
    assert(read_u8_at(d, 4) == Ok::<(u8, int), crate::error::Error>((version, 5)));
    lemma_read_u64_of(d, 5, steamid);
    lemma_read_u64_of(d, 13, timestamp);
    let r: int = at4.len() as int;
    if version > 1 {
        let empty = Seq::<char>::empty();
        assert(encode_utf8(empty) =~= Seq::<u8>::empty());
        assert(cstr_bytes(empty) =~= seq![0u8]);
        assert(d.subrange(21, 22) == cstr_bytes(empty));
        lemma_read_cstr_of(d, 21, empty);
        assert(skip_required(d, 21) == Ok::<int, crate::error::Error>(22));
    }
    let p: int = h.len() as int;
    assert((t + z + c).subrange(0, t.len() + 4int) =~= t + z);
    assert(d.subrange(p, p + t.len() + 4) =~= t + z) by {
        assert(d.subrange(p, p + t.len() + 4) =~= d.subrange(p, d.len() as int).subrange(
            0,
            t.len() + 4int,
        ));
    }
    lemma_parse_tail(d, r, version, steamid, timestamp, name, meta, author, files);
}

/// The contents that the reader gives for entry `k` are the bytes that were
/// written for file `k`.
proof fn lemma_entry_contents(d: Seq<u8>, start: int, files: Seq<(Seq<char>, Seq<u8>)>, k: int)
    requires
        0 <= start,
        0 <= k < files.len(),
        contents_of(datas_of(files)).len() <= u64::MAX,
        start + contents_of(datas_of(files)).len() == d.len(),
        d.subrange(start, d.len() as int) == contents_of(datas_of(files)),
    ensures
        entry_contents(d, start, entries_of(files)[k].offset, entries_of(files)[k].size)
            == files[k].1,
{
    let datas = datas_of(files);
    let c = contents_of(datas);
    lemma_contents_prefix(datas, k + 1);
    assert(datas.take(k + 1).drop_last() =~= datas.take(k));
    assert(datas[k] == files[k].1);
    let off = content_offset(files, k);
    let size: int = files[k].1.len() as int;
    assert(contents_of(datas.take(k + 1)) == contents_of(datas.take(k)) + datas[k]);
    assert(off + size <= c.len());
    assert(entries_of(files)[k].offset == off);
    assert(entries_of(files)[k].size == size);
    if size > 0 {
        assert(d.subrange(start + off, start + off + size) =~= files[k].1) by {
            assert forall|i: int| 0 <= i < size implies d.subrange(start + off, start + off + size)[i]
                == files[k].1[i] by {
                assert(d.subrange(start + off, start + off + size)[i] == c[off + i]);
                assert(c.subrange(0, contents_of(datas.take(k + 1)).len() as int)[off + i]
                    == contents_of(datas.take(k + 1))[off + i]);
            }
        }
    } else {
        assert(files[k].1 =~= Seq::<u8>::empty());
    }
}

/// Tag eviction: after tags `t1`, `t2`, `t3` are added to a builder without
/// tags, it holds `t3` and `t2`, and `t1` is gone; after `t1` alone it holds `t1`.
pub proof fn law_tag_eviction(t1: AddonTag, t2: AddonTag, t3: AddonTag)
    ensures
        ({
            let none = (None::<AddonTag>, None::<AddonTag>);
            let s1 = add_tag(none, None, t1);
            let s2 = add_tag(s1, Some(t1), t2);
            let s3 = add_tag(s2, Some(t2), t3);
            &&& present_tags(s3) == seq![t3, t2]
            &&& present_tags(s1) == seq![t1]
        }),
{
    let none = (None::<AddonTag>, None::<AddonTag>);
    let s1 = add_tag(none, None, t1);
    let s2 = add_tag(s1, Some(t1), t2);
    let s3 = add_tag(s2, Some(t2), t3);
    assert(present_tags(s3) =~= seq![t3, t2]);
    assert(present_tags(s1) =~= seq![t1]);
}

/// Version gating: in what the builder writes, the byte after the timestamp
/// opens the name for version 1, and is the empty required-content list for
/// later versions, which the reader skips exactly from version 2 on.
pub proof fn law_version_gating(m: BuilderModel)
    requires
        m.name is Some,
        all_writable(m),
    ensures
        archive_of(m) matches Ok(b) && (if m.version > 1 {
            b[21] == 0 && b.subrange(22, 22 + cstr_bytes(m.name->0).len() as int) == cstr_bytes(m.name->0)
        } else {
            b.subrange(21, 21 + cstr_bytes(m.name->0).len() as int) == cstr_bytes(m.name->0)
        }),
{
    lemma_auto_spec_u64_to_from_le_bytes();
    let meta = json_of(metadata_of(m));
    let h = header_bytes(m.version, m.steamid, m.timestamp, m.name->0, meta, m.author);
    let b = archive_of(m)->Ok_0;
    let nb = cstr_bytes(m.name->0);
    let ob: Seq<u8> = if m.version > 1 {
        seq![0u8]
    } else {
        Seq::empty()
    };
    let pre = ident_seq() + seq![m.version] + spec_u64_to_le_bytes(m.steamid) + spec_u64_to_le_bytes(
        m.timestamp,
    );
    assert(pre.len() == 21);
    assert(b.subrange(21 + ob.len() as int, 21 + ob.len() as int + nb.len() as int) =~= nb);
    if m.version > 1 {
        assert(b[21] == ob[0]);
    }
}

/// A stream that starts with neither `GMAD` nor valid LZMA data fails with a
/// compression error, never giving an archive.
pub proof fn law_malformed_header(data: Seq<u8>)
    requires
        data.len() >= 4,
        data.subrange(0, 4) != ident_seq(),
        lzma_decoded(data) is None,
    ensures
        load_model(data) == Err::<FileModel, crate::error::Error>(crate::error::Error::CompressionError),
{
}

/// Metadata fallback: metadata text that is not a JSON object (its first
/// character that is not white space is not `{`) is read back as the
/// description, with no type and no tags; the archive opens all the same.
pub proof fn law_metadata_fallback(d: Seq<u8>)
    requires
        parse_header(d) is Ok,
        ({
            let text = parse_header(d)->Ok_0.metadata;
            let p = skip_ws(text, 0);
            !(0 <= p < text.len() && text[p] == '{')
        }),
    ensures
        load_model(d) matches Ok(f) && f.description == parse_header(d)->Ok_0.metadata
            && f.addon_type is None && f.tags.len() == 0,
{
}

proof fn lemma_lower_of_lower_case(s: Seq<char>)
    requires
        forall|i: int| 0 <= i < s.len() ==> 'a' <= #[trigger] s[i] <= 'z',
    ensures
        lower(s) == s,
{
    assert(lower(s) =~= s);
}

/// The canonical name of a type names that type.
proof fn lemma_type_name_round_trip(t: AddonType)
    ensures
        type_from_name(addon_type_name(t)) == Some(t),
{
    reveal_strlit("gamemode");
    reveal_strlit("map");
    reveal_strlit("weapon");
    reveal_strlit("vehicle");
    reveal_strlit("npc");
    reveal_strlit("entity");
    reveal_strlit("tool");
    reveal_strlit("effects");
    reveal_strlit("model");
    reveal_strlit("servercontent");
    lemma_lower_of_lower_case(addon_type_name(t));
    match t {
        AddonType::Gamemode => {
        },
        AddonType::GameMap => {
            assert("map"@.len() != "gamemode"@.len());
        },
        AddonType::Weapon => {
            assert("weapon"@.len() != "gamemode"@.len());
            assert("weapon"@.len() != "map"@.len());
        },
        AddonType::Vehicle => {
            assert("vehicle"@.len() != "gamemode"@.len());
            assert("vehicle"@.len() != "map"@.len());
            assert("vehicle"@.len() != "weapon"@.len());
        },
        AddonType::NPC => {
            assert("npc"@.len() != "gamemode"@.len());
            assert("npc"@[0] != "map"@[0]);
            assert("npc"@.len() != "weapon"@.len());
            assert("npc"@.len() != "vehicle"@.len());
        },
        AddonType::Entity => {
            assert("entity"@.len() != "gamemode"@.len());
            assert("entity"@.len() != "map"@.len());
            assert("entity"@[0] != "weapon"@[0]);
            assert("entity"@.len() != "vehicle"@.len());
            assert("entity"@.len() != "npc"@.len());
        },
        AddonType::Tool => {
            assert("tool"@.len() != "gamemode"@.len());
            assert("tool"@.len() != "map"@.len());
            assert("tool"@.len() != "weapon"@.len());
            assert("tool"@.len() != "vehicle"@.len());
            assert("tool"@.len() != "npc"@.len());
            assert("tool"@.len() != "entity"@.len());
        },
        AddonType::Effects => {
            assert("effects"@.len() != "gamemode"@.len());
            assert("effects"@.len() != "map"@.len());
            assert("effects"@.len() != "weapon"@.len());
            assert("effects"@[0] != "vehicle"@[0]);
            assert("effects"@.len() != "npc"@.len());
            assert("effects"@.len() != "entity"@.len());
            assert("effects"@.len() != "tool"@.len());
        },
        AddonType::Model => {
            assert("model"@.len() != "gamemode"@.len());
            assert("model"@.len() != "map"@.len());
            assert("model"@.len() != "weapon"@.len());
            assert("model"@.len() != "vehicle"@.len());
            assert("model"@.len() != "npc"@.len());
            assert("model"@.len() != "entity"@.len());
            assert("model"@.len() != "tool"@.len());
            assert("model"@.len() != "effects"@.len());
        },
        AddonType::ServerContent => {
            assert("servercontent"@.len() != "gamemode"@.len());
            assert("servercontent"@.len() != "map"@.len());
            assert("servercontent"@.len() != "weapon"@.len());
            assert("servercontent"@.len() != "vehicle"@.len());
            assert("servercontent"@.len() != "npc"@.len());
            assert("servercontent"@.len() != "entity"@.len());
            assert("servercontent"@.len() != "tool"@.len());
            assert("servercontent"@.len() != "effects"@.len());
            assert("servercontent"@.len() != "model"@.len());
        },
    }
}

/// The canonical name of a tag names that tag.
proof fn lemma_tag_name_round_trip(t: AddonTag)
    ensures
        tag_from_name(addon_tag_name(t)) == Some(t),
{
    reveal_strlit("fun");
    reveal_strlit("roleplay");
    reveal_strlit("scenic");
    reveal_strlit("movie");
    reveal_strlit("realism");
    reveal_strlit("cartoon");
    reveal_strlit("water");
    reveal_strlit("comic");
    reveal_strlit("build");
    lemma_lower_of_lower_case(addon_tag_name(t));
    match t {
        AddonTag::Fun => {
        },
        AddonTag::Roleplay => {
            assert("roleplay"@.len() != "fun"@.len());
        },
        AddonTag::Scenic => {
            assert("scenic"@.len() != "fun"@.len());
            assert("scenic"@.len() != "roleplay"@.len());
        },
        AddonTag::Movie => {
            assert("movie"@.len() != "fun"@.len());
            assert("movie"@.len() != "roleplay"@.len());
            assert("movie"@.len() != "scenic"@.len());
        },
        AddonTag::Realism => {
            assert("realism"@.len() != "fun"@.len());
            assert("realism"@.len() != "roleplay"@.len());
            assert("realism"@.len() != "scenic"@.len());
            assert("realism"@.len() != "movie"@.len());
        },
        AddonTag::Cartoon => {
            assert("cartoon"@.len() != "fun"@.len());
            assert("cartoon"@.len() != "roleplay"@.len());
            assert("cartoon"@.len() != "scenic"@.len());
            assert("cartoon"@.len() != "movie"@.len());
            assert("cartoon"@[0] != "realism"@[0]);
        },
        AddonTag::Water => {
            assert("water"@.len() != "fun"@.len());
            assert("water"@.len() != "roleplay"@.len());
            assert("water"@.len() != "scenic"@.len());
            assert("water"@[0] != "movie"@[0]);
            assert("water"@.len() != "realism"@.len());
            assert("water"@.len() != "cartoon"@.len());
        },
        AddonTag::Comic => {
            assert("comic"@.len() != "fun"@.len());
            assert("comic"@.len() != "roleplay"@.len());
            assert("comic"@.len() != "scenic"@.len());
            assert("comic"@[0] != "movie"@[0]);
            assert("comic"@.len() != "realism"@.len());
            assert("comic"@.len() != "cartoon"@.len());
            assert("comic"@[0] != "water"@[0]);
        },
        AddonTag::Build => {
            assert("build"@.len() != "fun"@.len());
            assert("build"@.len() != "roleplay"@.len());
            assert("build"@.len() != "scenic"@.len());
            assert("build"@[0] != "movie"@[0]);
            assert("build"@.len() != "realism"@.len());
            assert("build"@.len() != "cartoon"@.len());
            assert("build"@[0] != "water"@[0]);
            assert("build"@[0] != "comic"@[0]);
        },
    }
}

/// Escaping works character by character from the front as well.
proof fn lemma_escaped_front(t: Seq<char>)
    requires
        t.len() > 0,
    ensures
        escaped(t) == escape_char(t[0]) + escaped(t.drop_first()),
    decreases t.len(),
{
    if t.len() > 1 {
        lemma_escaped_front(t.drop_last());
        assert(t.drop_last().drop_first() =~= t.drop_first().drop_last());
        assert(t.drop_last()[0] == t[0]);
        assert(t.drop_first().last() == t.last());
    } else {
        assert(t.drop_first() =~= Seq::<char>::empty());
        assert(t.drop_last() =~= Seq::<char>::empty());
    }
}

proof fn lemma_hex_digit_value(n: u32)
    requires
        n < 16,
    ensures
        hex_value(hex_digit(n)) == Some(n),
{
}

/// The escape sequence of `c` at `p` reads back as `c`.
proof fn lemma_escape_char_reads(s: Seq<char>, p: int, c: char)
    requires
        0 <= p,
        p + escape_char(c).len() <= s.len(),
        s.subrange(p, p + escape_char(c).len()) == escape_char(c),
    ensures
        s[p] != '"',
        str_body(s, p) == match str_body(s, p + escape_char(c).len()) {
            Some((rest, e)) => Some((seq![c] + rest, e)),
            None => None,
        },
{
    let ec = escape_char(c);
    assert forall|i: int| 0 <= i < ec.len() implies s[p + i] == ec[i] by {
        assert(s.subrange(p, p + ec.len())[i] == s[p + i]);
    }
    let n = ec.len() as int;
    if c == '\x08' || c == '\x0C' || c == '\n' || c == '\r' || c == '\t' || c == '\\' || c
        == '"' {
        assert(s[p] == '\\');
        assert(unescape(s, p + 1) == Some((c, p + 2)));
    } else if is_control(c) {
        let v = c as u32;
        lemma_hex_digit_value(v / 16);
        lemma_hex_digit_value(v % 16);
        assert(v < 128);
        assert(((v / 16) * 16 + v % 16) == v);
        assert((((v / 16) * 16 + v % 16) as u8) as char == c);
        assert(s[p] == '\\');
        assert(s[p + 1] == 'u');
        assert(hex_value(s[p + 2]) == Some(0u32));
        assert(hex_value(s[p + 3]) == Some(0u32));
        assert(hex_value(s[p + 4]) == Some(v / 16));
        assert(hex_value(s[p + 5]) == Some(v % 16));
        assert(unescape(s, p + 1) == Some((c, p + 6)));
    } else {
        assert(ec == seq![c]);
        assert(s[p + 0] == ec[0]);
    }
}

/// A JSON string body that was escaped from `t` reads back as `t`.
proof fn lemma_str_body_escaped(s: Seq<char>, p: int, t: Seq<char>)
    requires
        0 <= p,
        p + escaped(t).len() + 1 <= s.len(),
        s.subrange(p, p + escaped(t).len() + 1) == escaped(t).push('"'),
    ensures
        str_body(s, p) == Some((t, p + escaped(t).len() + 1)),
    decreases t.len(),
{
    if t.len() == 0 {
        assert(s[p] == s.subrange(p, p + 1)[0]);
    } else {
        lemma_escaped_front(t);
        let ec = escape_char(t[0]);
        let rest = t.drop_first();
        assert(s.subrange(p, p + ec.len()) =~= ec) by {
            assert forall|i: int| 0 <= i < ec.len() implies s.subrange(p, p + ec.len())[i]
                == ec[i] by {
                assert(s.subrange(p, p + ec.len())[i] == s.subrange(
                    p,
                    p + escaped(t).len() + 1,
                )[i]);
            }
        }
        lemma_escape_char_reads(s, p, t[0]);
        let q = p + ec.len();
        assert(s.subrange(q, q + escaped(rest).len() + 1) =~= escaped(rest).push('"')) by {
            assert forall|i: int| 0 <= i < escaped(rest).len() + 1 implies s.subrange(
                q,
                q + escaped(rest).len() + 1,
            )[i] == escaped(rest).push('"')[i] by {
                assert(s.subrange(q, q + escaped(rest).len() + 1)[i] == s.subrange(
                    p,
                    p + escaped(t).len() + 1,
                )[ec.len() + i]);
            }
        }
        lemma_str_body_escaped(s, q, rest);
        assert(seq![t[0]] + rest =~= t);
    }
}

/// A JSON string literal written from `t` reads back as `t`.
proof fn lemma_parse_quoted(s: Seq<char>, p: int, t: Seq<char>)
    requires
        0 <= p,
        p + quoted(t).len() <= s.len(),
        s.subrange(p, p + quoted(t).len()) == quoted(t),
    ensures
        parse_str(s, p) == Some((t, p + quoted(t).len())),
{
    let q = quoted(t);
    assert(s[p] == q[0]);
    assert(s.subrange(p + 1, p + q.len()) =~= escaped(t).push('"')) by {
        assert forall|i: int| 0 <= i < q.len() - 1 implies s.subrange(p + 1, p + q.len())[i]
            == escaped(t).push('"')[i] by {
            assert(s.subrange(p + 1, p + q.len())[i] == s.subrange(p, p + q.len())[1 + i]);
        }
    }
    lemma_str_body_escaped(s, p + 1, t);
}

/// A list of two or more strings is its first string, a comma and the rest.
proof fn lemma_quoted_list_front(items: Seq<Seq<char>>)
    requires
        items.len() >= 2,
    ensures
        quoted_list(items) == quoted(items[0]) + seq![','] + quoted_list(items.drop_first()),
    decreases items.len(),
{
    if items.len() > 2 {
        let prev = items.drop_last();
        let tail = items.drop_first();
        lemma_quoted_list_front(prev);
        assert(prev.drop_first() =~= tail.drop_last());
        assert(tail.last() == items.last());
        assert(prev[0] == items[0]);
        assert(quoted_list(tail) == quoted_list(tail.drop_last()) + seq![','] + quoted(tail.last()));
        assert(quoted_list(items) == quoted_list(prev) + seq![','] + quoted(items.last()));
        assert(quoted_list(items) =~= quoted(items[0]) + seq![','] + quoted_list(tail));
    } else {
        assert(items.drop_last() =~= seq![items[0]]);
        assert(items.drop_first() =~= seq![items[1]]);
        assert(quoted_list(items.drop_last()) == quoted(items[0]));
        assert(quoted_list(items.drop_first()) == quoted(items[1]));
        assert(items.last() == items[1]);
    }
}

/// The items of a written list, and its closing bracket, read back.
proof fn lemma_list_items(s: Seq<char>, p: int, items: Seq<Seq<char>>)
    requires
        0 <= p,
        items.len() >= 1,
        p + quoted_list(items).len() + 1 <= s.len(),
        s.subrange(p, p + quoted_list(items).len() + 1) == quoted_list(items).push(']'),
    ensures
        list_items(s, p) == Some((items, p + quoted_list(items).len() + 1)),
    decreases items.len(),
{
    let ql = quoted_list(items);
    let q0 = quoted(items[0]);
    if items.len() == 1 {
        assert(ql == q0);
    } else {
        lemma_quoted_list_front(items);
    }
    assert(s.subrange(p, p + q0.len()) =~= q0) by {
        assert forall|i: int| 0 <= i < q0.len() implies s.subrange(p, p + q0.len())[i] == q0[i] by {
            assert(s.subrange(p, p + q0.len())[i] == s.subrange(p, p + ql.len() + 1)[i]);
        }
    }
    lemma_parse_quoted(s, p, items[0]);
    let r = p + q0.len();
    assert(s[r] == s.subrange(p, p + ql.len() + 1)[q0.len() as int]);
    if items.len() == 1 {
        assert(s[r] == ']');
    } else {
        let rest = items.drop_first();
        let qr = quoted_list(rest);
        assert(s[r] == ',');
        assert(rest.len() >= 1);
        assert(s.subrange(r + 1, r + 1 + qr.len() + 1) =~= qr.push(']')) by {
            assert forall|i: int| 0 <= i < qr.len() + 1 implies s.subrange(
                r + 1,
                r + 1 + qr.len() + 1,
            )[i] == qr.push(']')[i] by {
                assert(s.subrange(r + 1, r + 1 + qr.len() + 1)[i] == s.subrange(
                    p,
                    p + ql.len() + 1,
                )[q0.len() + 1 + i]);
            }
        }
        assert(quoted(rest[0])[0] == '"');
        assert(qr[0] == '"') by {
            if rest.len() >= 2 {
                lemma_quoted_list_front(rest);
            }
        }
        assert(s.subrange(r + 1, r + 1 + qr.len() + 1)[0] == s[r + 1]);
        assert(s[r + 1] == qr[0]);
        lemma_list_items(s, r + 1, rest);
        assert(seq![items[0]] + rest =~= items);
    }
}

/// A written list of strings reads back.
proof fn lemma_parse_list(s: Seq<char>, p: int, items: Seq<Seq<char>>)
    requires
        0 <= p,
        p + quoted_list(items).len() + 2 <= s.len(),
        s.subrange(p, p + quoted_list(items).len() + 2) == seq!['['] + quoted_list(items) + seq![']'],
    ensures
        parse_list(s, p) == Some((items, p + quoted_list(items).len() + 2)),
{
    let ql = quoted_list(items);
    let w = seq!['['] + ql + seq![']'];
    assert(s[p] == w[0]);
    if items.len() == 0 {
        assert(s[p + 1] == w[1]);
        assert(items =~= Seq::<Seq<char>>::empty());
    } else {
        assert(ql[0] == '"') by {
            if items.len() >= 2 {
                lemma_quoted_list_front(items);
            }
        }
        assert(s[p + 1] == w[1]);
        assert(s.subrange(p + 1, p + 1 + ql.len() + 1) =~= ql.push(']')) by {
            assert forall|i: int| 0 <= i < ql.len() + 1 implies s.subrange(
                p + 1,
                p + 1 + ql.len() + 1,
            )[i] == ql.push(']')[i] by {
                assert(s.subrange(p + 1, p + 1 + ql.len() + 1)[i] == s.subrange(
                    p,
                    p + ql.len() + 2,
                )[1 + i]);
            }
        }
        lemma_list_items(s, p + 1, items);
    }
}

/// A member name followed by its colon.
pub open spec fn key_part(k: Seq<char>) -> Seq<char> {
    quoted(k) + seq![':']
}

/// Whether every character of `k` is a lower-case ASCII letter.
pub open spec fn is_word(k: Seq<char>) -> bool {
    forall|i: int| 0 <= i < k.len() ==> 'a' <= #[trigger] k[i] <= 'z'
}

proof fn lemma_escaped_word(k: Seq<char>)
    requires
        is_word(k),
    ensures
        escaped(k) == k,
    decreases k.len(),
{
    if k.len() > 0 {
        lemma_escaped_word(k.drop_last());
        assert(escape_char(k.last()) == seq![k.last()]);
        assert(k.drop_last().push(k.last()) =~= k);
    }
}

/// One member of an object: its name, colon and value, then a comma and
/// the next name, or the closing brace.
proof fn lemma_member(
    s: Seq<char>,
    p: int,
    key: Seq<char>,
    acc: FoundFields,
    acc2: FoundFields,
    vend: int,
    last: bool,
)
    requires
        0 <= p,
        p + key_part(key).len() < s.len(),
        s.subrange(p, p + key_part(key).len()) == key_part(key),
        !is_ws(s[p + key_part(key).len()]),
        member_value(s, p + key_part(key).len(), key, acc) == Some((acc2, vend)),
        p < vend < s.len(),
        last ==> s[vend] == '}',
        !last ==> s[vend] == ',' && vend + 1 < s.len() && s[vend + 1] == '"',
    ensures
        members(s, p, acc) == if last {
            Some((acc2, vend + 1))
        } else {
            members(s, vend + 1, acc2)
        },
{
    let qk = quoted(key);
    assert(s.subrange(p, p + qk.len()) =~= qk) by {
        assert forall|i: int| 0 <= i < qk.len() implies s.subrange(p, p + qk.len())[i] == qk[i] by {
            assert(s.subrange(p, p + qk.len())[i] == s.subrange(p, p + key_part(key).len())[i]);
        }
    }
    lemma_parse_quoted(s, p, key);
    let q = p + qk.len();
    assert(s[q] == s.subrange(p, p + key_part(key).len())[qk.len() as int]);
    assert(s[q] == ':');
    assert(skip_ws(s, q) == q);
    assert(skip_ws(s, q + 1) == q + 1);
    assert(skip_ws(s, vend) == vend);
    if !last {
        assert(skip_ws(s, vend + 1) == vend + 1);
    }
}

/// The record's JSON text, member by member.
proof fn lemma_json_shape(m: MetadataModel)
    ensures
        json_of(m) == seq!['{'] + (match m.title {
            Some(t) => key_part("title"@) + quoted(t) + seq![','],
            None => Seq::empty(),
        }) + key_part("description"@) + quoted(m.description) + seq![','] + key_part("type"@)
            + quoted(m.addon_type) + seq![','] + key_part("tags"@) + (seq!['['] + quoted_list(m.tags)
            + seq![']']) + seq!['}'],
{
    reveal_strlit("title");
    reveal_strlit("description");
    reveal_strlit("type");
    reveal_strlit("tags");
    reveal_strlit("{");
    reveal_strlit(",");
    reveal_strlit("\"title\":");
    reveal_strlit("\"description\":");
    reveal_strlit(",\"type\":");
    reveal_strlit(",\"tags\":[");
    reveal_strlit("]}");
    lemma_escaped_word("title"@);
    lemma_escaped_word("description"@);
    lemma_escaped_word("type"@);
    lemma_escaped_word("tags"@);
    assert(key_part("title"@) =~= "\"title\":"@);
    assert(key_part("description"@) =~= "\"description\":"@);
    assert(seq![','] + key_part("type"@) =~= ",\"type\":"@);
    assert(seq![','] + key_part("tags"@) + seq!['['] =~= ",\"tags\":["@);
    assert(json_of(m) =~= seq!['{'] + (match m.title {
        Some(t) => key_part("title"@) + quoted(t) + seq![','],
        None => Seq::empty(),
    }) + key_part("description"@) + quoted(m.description) + seq![','] + key_part("type"@)
        + quoted(m.addon_type) + seq![','] + key_part("tags"@) + (seq!['['] + quoted_list(m.tags)
        + seq![']']) + seq!['}']);
}

proof fn lemma_first_of_quoted(t: Seq<char>)
    ensures
        quoted(t)[0] == '"',
        key_part(t)[0] == '"',
{
}

/// The fields after a string member named `key` with value `v`.
pub open spec fn with_string(acc: FoundFields, key: Seq<char>, v: Seq<char>) -> FoundFields {
    if key == "title"@ {
        FoundFields { title: Some(v), ..acc }
    } else if key == "description"@ {
        FoundFields { description: Some(v), ..acc }
    } else {
        FoundFields { addon_type: Some(v), ..acc }
    }
}

/// A member whose value is a string, followed by a comma and another member.
proof fn lemma_string_member(s: Seq<char>, p: int, key: Seq<char>, v: Seq<char>, acc: FoundFields)
    requires
        key == "title"@ || key == "description"@ || key == "type"@,
        0 <= p,
        ({
            let k = key_part(key).len() as int;
            let vend = p + k + quoted(v).len();
            &&& vend + 1 < s.len()
            &&& s.subrange(p, p + k) == key_part(key)
            &&& s.subrange(p + k, vend) == quoted(v)
            &&& s[vend] == ','
            &&& s[vend + 1] == '"'
        }),
    ensures
        members(s, p, acc) == members(
            s,
            p + key_part(key).len() + quoted(v).len() + 1,
            with_string(acc, key, v),
        ),
{
    reveal_strlit("title");
    reveal_strlit("description");
    reveal_strlit("type");
    reveal_strlit("tags");
    let k = key_part(key).len() as int;
    let vend = p + k + quoted(v).len();
    lemma_first_of_quoted(v);
    assert(s[p + k] == s.subrange(p + k, vend)[0]);
    lemma_parse_quoted(s, p + k, v);
    reveal(member_value);
    assert(member_value(s, p + k, key, acc) == Some((with_string(acc, key, v), vend)));
    lemma_member(s, p, key, acc, with_string(acc, key, v), vend, false);
}

/// The tags member, followed by the closing brace.
proof fn lemma_tags_member(s: Seq<char>, p: int, tags: Seq<Seq<char>>, acc: FoundFields)
    requires
        0 <= p,
        ({
            let k = key_part("tags"@).len() as int;
            let l = seq!['['] + quoted_list(tags) + seq![']'];
            let vend = p + k + l.len();
            &&& vend < s.len()
            &&& s.subrange(p, p + k) == key_part("tags"@)
            &&& s.subrange(p + k, vend) == l
            &&& s[vend] == '}'
        }),
    ensures
        members(s, p, acc) == Some(
            (
                FoundFields { tags: Some(tags), ..acc },
                p + key_part("tags"@).len() + quoted_list(tags).len() + 3,
            ),
        ),
{
    reveal_strlit("title");
    reveal_strlit("description");
    reveal_strlit("type");
    reveal_strlit("tags");
    let k = key_part("tags"@).len() as int;
    let l = seq!['['] + quoted_list(tags) + seq![']'];
    let vend = p + k + l.len();
    assert(s[p + k] == s.subrange(p + k, vend)[0]);
    lemma_parse_list(s, p + k, tags);
    reveal(member_value);
    assert(member_value(s, p + k, "tags"@, acc) == Some((FoundFields { tags: Some(tags), ..acc }, vend)));
    lemma_member(s, p, "tags"@, acc, FoundFields { tags: Some(tags), ..acc }, vend, true);
}

/// Metadata round trip: the JSON text of any metadata record decodes to that record.
#[verifier::rlimit(100)]
pub proof fn law_metadata_round_trip(m: MetadataModel)
    ensures
        decode_metadata(json_of(m)) == Some(m),
{
    lemma_json_shape(m);
    let s = json_of(m);
    let kt = key_part("title"@);
    let kd = key_part("description"@);
    let ky = key_part("type"@);
    let kg = key_part("tags"@);
    let qd = quoted(m.description);
    let qy = quoted(m.addon_type);
    let l = seq!['['] + quoted_list(m.tags) + seq![']'];
    let comma = seq![','];
    let at0 = seq!['{'];
    let at1 = match m.title {
        Some(t) => at0 + kt + quoted(t) + comma,
        None => at0,
    };
    let at2 = at1 + kd;
    let at3 = at2 + qd;
    let at4 = at3 + comma;
    let at5 = at4 + ky;
    let at6 = at5 + qy;
    let at7 = at6 + comma;
    let at8 = at7 + kg;
    let at9 = at8 + l;
    assert(s =~= at9 + seq!['}']);
    assert(s.subrange(0, s.len() as int) =~= s);
    lemma_peel(s, at9, seq!['}']);
    lemma_peel(s, at8, l);
    lemma_peel(s, at7, kg);
    lemma_peel(s, at6, comma);
    lemma_peel(s, at5, qy);
    lemma_peel(s, at4, ky);
    lemma_peel(s, at3, comma);
    lemma_peel(s, at2, qd);
    lemma_peel(s, at1, kd);
    lemma_first_of_quoted("description"@);
    lemma_first_of_quoted("type"@);
    lemma_first_of_quoted("tags"@);
    assert(s[0] == '{');
    assert(skip_ws(s, 0) == 0);
    let none = FoundFields { title: None, description: None, addon_type: None, tags: None };
    let acc1 = FoundFields { title: m.title, ..none };
    assert(s[at1.len() as int] == s.subrange(at1.len() as int, at2.len() as int)[0]);
    match m.title {
        Some(t) => {
            let t1 = at0 + kt;
            let t2 = t1 + quoted(t);
            lemma_peel(s, t2, comma);
            lemma_peel(s, t1, quoted(t));
            lemma_peel(s, at0, kt);
            lemma_first_of_quoted("title"@);
            assert(s[1] == s.subrange(1, t1.len() as int)[0]);
            assert(s[t2.len() as int] == s.subrange(t2.len() as int, at1.len() as int)[0]);
            lemma_string_member(s, 1, "title"@, t, none);
            assert(with_string(none, "title"@, t) == acc1);
        },
        None => {
            assert(acc1 == none);
        },
    }
    assert(skip_ws(s, 1) == 1);
    assert(members(s, 1, none) == members(s, at1.len() as int, acc1));
    assert(s[at3.len() as int] == s.subrange(at3.len() as int, at4.len() as int)[0]);
    assert(s[at4.len() as int] == s.subrange(at4.len() as int, at5.len() as int)[0]);
    lemma_string_member(s, at1.len() as int, "description"@, m.description, acc1);
    let acc2 = with_string(acc1, "description"@, m.description);
    assert(s[at6.len() as int] == s.subrange(at6.len() as int, at7.len() as int)[0]);
    assert(s[at7.len() as int] == s.subrange(at7.len() as int, at8.len() as int)[0]);
    lemma_string_member(s, at4.len() as int, "type"@, m.addon_type, acc2);
    let acc3 = with_string(acc2, "type"@, m.addon_type);
    assert(s[at9.len() as int] == s.subrange(at9.len() as int, s.len() as int)[0]);
    lemma_tags_member(s, at7.len() as int, m.tags, acc3);
    assert(skip_ws(s, s.len() as int) == s.len());
    reveal_strlit("title");
    reveal_strlit("description");
    reveal_strlit("type");
}

/// Tags written by name read back as the same tags.
proof fn lemma_tags_round_trip(slots: (Option<AddonTag>, Option<AddonTag>))
    ensures
        present_tags(tag_pair(present_tags(slots).map_values(|t: AddonTag| addon_tag_name(t))))
            == present_tags(slots),
{
    let names = present_tags(slots).map_values(|t: AddonTag| addon_tag_name(t));
    match slots.0 {
        Some(a) => lemma_tag_name_round_trip(a),
        None => {},
    }
    match slots.1 {
        Some(b) => lemma_tag_name_round_trip(b),
        None => {},
    }
    assert(present_tags(tag_pair(names)) =~= present_tags(slots));
}

/// Round trip: an archive written by a builder with a name, a supported
/// version and strings free of null bytes reads back with the same version,
/// author id, timestamp, name, description, type, tags and author, and with
/// one entry per file, in order, carrying its name, size and CRC-32, whose
/// contents are the file's bytes.
pub proof fn law_round_trip(m: BuilderModel)
    requires
        m.name is Some,
        valid_version(m.version),
        all_writable(m),
        m.files.len() < 0x1_0000_0000,
        contents_of(datas_of(m.files)).len() <= u64::MAX,
    ensures
        archive_of(m) matches Ok(b) && load_model(b) matches Ok(f) && !f.compressed && f.version
            == m.version && f.steamid == m.steamid && f.timestamp == m.timestamp && f.name
            == m.name->0 && f.description == m.description && f.addon_type == Some(m.addon_type)
            && f.tags == present_tags(m.tags) && f.author == m.author && f.entries.len()
            == m.files.len() && (forall|k: int|
            0 <= k < m.files.len() ==> {
                &&& #[trigger] f.entries[k].name == m.files[k].0
                &&& f.entries[k].size == m.files[k].1.len()
                &&& f.entries[k].crc == crc32_of(m.files[k].1)
                &&& entry_contents(f.data, f.data_start, f.entries[k].offset, f.entries[k].size)
                    == m.files[k].1
            }),
{
    let name = m.name->0;
    let meta = json_of(metadata_of(m));
    let files = m.files;
    let b = archive_bytes(m.version, m.steamid, m.timestamp, name, meta, m.author, files);
    let h = header_bytes(m.version, m.steamid, m.timestamp, name, meta, m.author);
    let t = table_with(names_of(files), sums_of(files));
    let z = spec_u32_to_le_bytes(0);
    let c = contents_of(datas_of(files));
    assert(b.subrange(0, 4) =~= ident_seq());
    lemma_parse_archive(m.version, m.steamid, m.timestamp, name, meta, m.author, files);
    law_metadata_round_trip(metadata_of(m));
    lemma_type_name_round_trip(m.addon_type);
    lemma_tags_round_trip(m.tags);
    assert(z.len() == 4) by {
        lemma_auto_spec_u32_to_from_le_bytes();
    }
    let start = (h.len() + t.len() + 4) as int;
    assert(b =~= h + t + z + c);
    assert(b.subrange(start, b.len() as int) =~= c);
    let f = load_model(b)->Ok_0;
    assert forall|k: int| 0 <= k < m.files.len() implies {
        &&& #[trigger] f.entries[k].name == m.files[k].0
        &&& f.entries[k].size == m.files[k].1.len()
        &&& f.entries[k].crc == crc32_of(m.files[k].1)
        &&& entry_contents(f.data, f.data_start, f.entries[k].offset, f.entries[k].size)
            == m.files[k].1
    } by {
        let datas = datas_of(files);
        lemma_contents_prefix(datas, k + 1);
        assert(datas.take(k + 1).drop_last() =~= datas.take(k));
        assert(datas[k] == files[k].1);
        lemma_entry_contents(b, start, files, k);
    }
}

/// The required-content strings `rs`, each null-terminated, one after the other.
pub open spec fn required_bytes(rs: Seq<Seq<char>>) -> Seq<u8>
    decreases rs.len(),
{
    if rs.len() == 0 {
        Seq::empty()
    } else {
        cstr_bytes(rs[0]) + required_bytes(rs.drop_first())
    }
}

/// A list of non-empty strings ended by an empty one is skipped as a whole.
proof fn lemma_skip_required_list(d: Seq<u8>, p: int, rs: Seq<Seq<char>>)
    requires
        0 <= p,
        forall|i: int| 0 <= i < rs.len() ==> (#[trigger] rs[i]).len() > 0 && writable_cstr(rs[i]),
        p + required_bytes(rs).len() + 1 <= d.len(),
        d.subrange(p, p + required_bytes(rs).len() + 1) == required_bytes(rs).push(0u8),
    ensures
        skip_required(d, p) == Ok::<int, crate::error::Error>(p + required_bytes(rs).len() + 1),
    decreases rs.len(),
{
    let req = required_bytes(rs);
    if rs.len() == 0 {
        let empty = Seq::<char>::empty();
        assert(encode_utf8(empty) =~= Seq::<u8>::empty());
        assert(cstr_bytes(empty) =~= seq![0u8]);
        assert(d.subrange(p, p + 1) =~= cstr_bytes(empty));
        lemma_read_cstr_of(d, p, empty);
    } else {
        let cb = cstr_bytes(rs[0]);
        let rest = rs.drop_first();
        assert(req == cb + required_bytes(rest));
        assert(d.subrange(p, p + cb.len()) =~= cb) by {
            assert forall|i: int| 0 <= i < cb.len() implies d.subrange(p, p + cb.len())[i] == cb[i] by {
                assert(d.subrange(p, p + cb.len())[i] == d.subrange(p, p + req.len() + 1)[i]);
            }
        }
        lemma_read_cstr_of(d, p, rs[0]);
        let q = p + cb.len();
        let rb = required_bytes(rest);
        assert(d.subrange(q, q + rb.len() + 1) =~= rb.push(0u8)) by {
            assert forall|i: int| 0 <= i < rb.len() + 1 implies d.subrange(q, q + rb.len() + 1)[i]
                == rb.push(0u8)[i] by {
                assert(d.subrange(q, q + rb.len() + 1)[i] == d.subrange(p, p + req.len() + 1)[cb.len()
                    + i]);
            }
        }
        assert forall|i: int| 0 <= i < rest.len() implies (#[trigger] rest[i]).len() > 0
            && writable_cstr(rest[i]) by {
            assert(rest[i] == rs[i + 1]);
        }
        lemma_skip_required_list(d, q, rest);
    }
}

/// Version gating, reading side: in an archive of version 2 or 3, the list of
/// required-content strings after the timestamp, however many non-empty
/// strings it holds before its empty one, is skipped, and the name, metadata
/// text and author name that follow it are read.
#[verifier::rlimit(100)]
pub proof fn law_required_content_skipped(
    version: u8,
    steamid: u64,
    timestamp: u64,
    rs: Seq<Seq<char>>,
    name: Seq<char>,
    meta: Seq<char>,
    author: Seq<char>,
)
    requires
        2 <= version <= 3,
        forall|i: int| 0 <= i < rs.len() ==> (#[trigger] rs[i]).len() > 0 && writable_cstr(rs[i]),
        writable_cstr(name),
        writable_cstr(meta),
        writable_cstr(author),
    ensures
        parse_header(
            ident_seq() + seq![version] + spec_u64_to_le_bytes(steamid) + spec_u64_to_le_bytes(
                timestamp,
            ) + required_bytes(rs).push(0u8) + cstr_bytes(name) + cstr_bytes(meta) + cstr_bytes(
                author,
            ) + spec_u32_to_le_bytes(1) + spec_u32_to_le_bytes(0),
        ) matches Ok(h) && h.version == version && h.steamid == steamid && h.timestamp == timestamp
            && h.name == name && h.metadata == meta && h.author == author && h.entries.len() == 0,
{
    let sb = spec_u64_to_le_bytes(steamid);
    let tb = spec_u64_to_le_bytes(timestamp);
    let rq = required_bytes(rs).push(0u8);
    let nb = cstr_bytes(name);
    let mb = cstr_bytes(meta);
    let ab = cstr_bytes(author);
    let one = spec_u32_to_le_bytes(1);
    let z = spec_u32_to_le_bytes(0);
    assert(one.len() == 4 && z.len() == 4) by {
        lemma_auto_spec_u32_to_from_le_bytes();
    }
    assert(sb.len() == 8 && tb.len() == 8) by {
        lemma_auto_spec_u64_to_from_le_bytes();
    }
    let at1 = ident_seq() + seq![version];
    let at2 = at1 + sb;
    let at3 = at2 + tb;
    let at4 = at3 + rq;
    let at5 = at4 + nb;
    let at6 = at5 + mb;
    let at7 = at6 + ab;
    let at8 = at7 + one;
    let d = at8 + z;
    assert(d.subrange(0, d.len() as int) =~= d);
    lemma_peel(d, at8, z);
    lemma_peel(d, at7, one);
    lemma_peel(d, at6, ab);
    lemma_peel(d, at5, mb);
    lemma_peel(d, at4, nb);
    lemma_peel(d, at3, rq);
    lemma_peel(d, at2, tb);
    lemma_peel(d, at1, sb);
    lemma_peel(d, ident_seq(), seq![version]);
    assert(d[4] == d.subrange(4, 5)[0]);
    lemma_read_u64_of(d, 5, steamid);
    lemma_read_u64_of(d, 13, timestamp);
    lemma_skip_required_list(d, 21, rs);
    let files = Seq::<(Seq<char>, Seq<u8>)>::empty();
    assert(names_of(files) =~= Seq::<Seq<char>>::empty());
    assert(datas_of(files) =~= Seq::<Seq<u8>>::empty());
    assert(table_with(names_of(files), sums_of(files)) =~= Seq::<u8>::empty());
    assert(z =~= Seq::<u8>::empty() + z);
    lemma_parse_tail(d, at4.len() as int, version, steamid, timestamp, name, meta, author, files);
}

} // verus!
