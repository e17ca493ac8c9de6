//! Building archives: the builder collects the addon's fields and files and
//! writes them in the archive layout.
use vstd::prelude::*;
use vstd::bytes::{
    spec_u32_to_le_bytes, spec_u64_to_le_bytes, u32_to_le_bytes, u64_to_le_bytes,
};

use crate::addon_metadata::{
    addon_tag_name, addon_type_name, json_of, present_tags, AddonMetadata, MetadataModel,
};
use crate::binary::{cstr_bytes, writable_cstr, BinaryWriter};
use crate::checksum::{crc32, crc32_of};
use crate::compression::{compress, lzma_encoded};
use crate::error::Error;
use crate::layout::{
    archive_bytes, contents_of, datas_of, header_bytes, lemma_table_len, lemma_table_patch,
    names_of, patch_offset, sums_of, table_with,
};
use crate::{ident_seq, AddonTag, AddonType, IDENT};

verus! {

/// The two tag slots after `t` is added to `slots`, where `latest` is the tag
/// added last: a free slot is filled, first slot first; when both are taken,
/// the tag added last moves to the second slot and `t` takes the first.
pub open spec fn add_tag(
    slots: (Option<AddonTag>, Option<AddonTag>),
    latest: Option<AddonTag>,
    t: AddonTag,
) -> (Option<AddonTag>, Option<AddonTag>) {
    if slots.0 is None {
        (Some(t), slots.1)
    } else if slots.1 is None {
        (slots.0, Some(t))
    } else {
        (Some(t), latest)
    }
}

/// What a builder holds.
pub ghost struct BuilderModel {
    pub version: u8,
    pub steamid: u64,
    pub timestamp: u64,
    pub name: Option<Seq<char>>,
    pub description: Seq<char>,
    pub author: Seq<char>,
    pub files: Seq<(Seq<char>, Seq<u8>)>,
    pub addon_type: AddonType,
    pub tags: (Option<AddonTag>, Option<AddonTag>),
    pub latest_tag: Option<AddonTag>,
    pub compression: bool,
}

/// The metadata record that a builder writes.
pub open spec fn metadata_of(m: BuilderModel) -> MetadataModel {
    MetadataModel {
        title: m.name,
        description: m.description,
        addon_type: addon_type_name(m.addon_type),
        tags: present_tags(m.tags).map_values(|t: AddonTag| addon_tag_name(t)),
    }
}

/// Whether every string that the archive holds can be written: none holds a null byte.
pub open spec fn all_writable(m: BuilderModel) -> bool {
    &&& writable_cstr(m.name->0)
    &&& writable_cstr(json_of(metadata_of(m)))
    &&& writable_cstr(m.author)
    &&& forall|k: int| 0 <= k < m.files.len() ==> writable_cstr(#[trigger] m.files[k].0)
}

/// The uncompressed archive that a builder with a name writes.
pub open spec fn archive_of(m: BuilderModel) -> Result<Seq<u8>, Error> {
    if all_writable(m) {
        Ok(
            archive_bytes(
                m.version,
                m.steamid,
                m.timestamp,
                m.name->0,
                json_of(metadata_of(m)),
                m.author,
                m.files,
            ),
        )
    } else {
        Err(Error::InvalidString)
    }
}

/// Relies on `std::time::SystemTime::now`: the whole seconds since the UNIX
/// epoch, or 0 for a clock set before it.
#[verifier::external_body]
fn seconds_since_epoch() -> (r: u64) {
    std::time::SystemTime::now().duration_since(std::time::UNIX_EPOCH).map(|d| d.as_secs()).unwrap_or(0)
}

struct BuilderFile {
    filename: String,
    contents: Vec<u8>,
}

/// The size and checksum of an entry, written over its placeholder.
struct FilePatchInfo {
    filesize: u64,
    crc: u32,
}

/// Collects the fields and files of an addon and writes them as an archive.
pub struct GMABuilder {
    version: u8,
    steamid: u64,
    timestamp: u64,
    name: Option<String>,
    description: String,
    author: String,
    files: Vec<BuilderFile>,
    addon_type: AddonType,
    addon_tags: (Option<AddonTag>, Option<AddonTag>),
    latest_tag: Option<AddonTag>,
    compression: bool,
}

impl View for GMABuilder {
    type V = BuilderModel;

    closed spec fn view(&self) -> BuilderModel {
        BuilderModel {
            version: self.version,
            steamid: self.steamid,
            timestamp: self.timestamp,
            name: match self.name {
                Some(n) => Some(n@),
                None => None,
            },
            description: self.description@,
            author: self.author@,
            files: self.files@.map_values(|f: BuilderFile| (f.filename@, f.contents@)),
            addon_type: self.addon_type,
            tags: self.addon_tags,
            latest_tag: self.latest_tag,
            compression: self.compression,
        }
    }
}

impl GMABuilder {
    /// A builder with version 3, author id 0, the current time, no name, an empty
    /// description, author `unknown`, type `Tool`, no tags, no files and no compression.
    pub fn new() -> (r: Self)
        ensures
            r@.version == 3,
            r@.steamid == 0,
            r@.name is None,
            r@.description == Seq::<char>::empty(),
            r@.author == "unknown"@,
            r@.files == Seq::<(Seq<char>, Seq<u8>)>::empty(),
            r@.addon_type == AddonType::Tool,
            r@.tags == (None::<AddonTag>, None::<AddonTag>),
            r@.latest_tag is None,
            r@.compression == false,
    {
        let r = GMABuilder {
            version: 3,
            steamid: 0,
            timestamp: seconds_since_epoch(),
            name: None,
            description: String::new(),
            author: "unknown".to_owned(),
            files: Vec::new(),
            addon_type: AddonType::Tool,
            addon_tags: (None, None),
            latest_tag: None,
            compression: false,
        };
        assert(r@.files =~= Seq::<(Seq<char>, Seq<u8>)>::empty());
        r
    }

    /// Whether a name has been set; writing needs one.
    pub fn has_name(&self) -> (r: bool)
        ensures
            r == self@.name is Some,
    {
        self.name.is_some()
    }

    /// Sets the archive format version.
    pub fn version(&mut self, version: u8) -> (r: &mut Self)
        ensures
            r@ == (BuilderModel { version, ..old(self)@ }),
            final(self)@ == final(r)@,
    {
        self.version = version;
        self
    }

    /// Sets the author's Steam id.
    pub fn steamid(&mut self, steamid: u64) -> (r: &mut Self)
        ensures
            r@ == (BuilderModel { steamid, ..old(self)@ }),
            final(self)@ == final(r)@,
    {
        self.steamid = steamid;
        self
    }

    /// Sets the timestamp, in seconds since the UNIX epoch.
    pub fn timestamp(&mut self, timestamp: u64) -> (r: &mut Self)
        ensures
            r@ == (BuilderModel { timestamp, ..old(self)@ }),
            final(self)@ == final(r)@,
    {
        self.timestamp = timestamp;
        self
    }

    /// Sets the name of the addon, which an archive must have.
    pub fn name(&mut self, name: &str) -> (r: &mut Self)
        ensures
            r@ == (BuilderModel { name: Some(name@), ..old(self)@ }),
            final(self)@ == final(r)@,
    {
        self.name = Some(name.to_owned());
        self
    }

    /// Sets the description of the addon.
    pub fn description(&mut self, description: &str) -> (r: &mut Self)
        ensures
            r@ == (BuilderModel { description: description@, ..old(self)@ }),
            final(self)@ == final(r)@,
    {
        self.description = description.to_owned();
        self
    }

    /// Sets the name of the author.
    pub fn author(&mut self, author: &str) -> (r: &mut Self)
        ensures
            r@ == (BuilderModel { author: author@, ..old(self)@ }),
            final(self)@ == final(r)@,
    {
        self.author = author.to_owned();
        self
    }

    /// Turns LZMA compression of the whole archive on or off.
    pub fn compression(&mut self, c: bool) -> (r: &mut Self)
        ensures
            r@ == (BuilderModel { compression: c, ..old(self)@ }),
            final(self)@ == final(r)@,
    {
        self.compression = c;
        self
    }

    /// Sets the addon type.
    pub fn addon_type(&mut self, addon_type: AddonType) -> (r: &mut Self)
        ensures
            r@ == (BuilderModel { addon_type, ..old(self)@ }),
            final(self)@ == final(r)@,
    {
        self.addon_type = addon_type;
        self
    }

    /// Adds a tag. At most two are kept: a free slot is filled first; when
    /// both are taken the tag added last moves to the second slot, the new
    /// tag takes the first, and the other tag is dropped.
    pub fn addon_tag(&mut self, addon_tag: AddonTag) -> (r: &mut Self)
        ensures
            r@ == (BuilderModel {
                tags: add_tag(old(self)@.tags, old(self)@.latest_tag, addon_tag),
                latest_tag: Some(addon_tag),
                ..old(self)@
            }),
            final(self)@ == final(r)@,
    {
        if self.addon_tags.0.is_none() {
            self.addon_tags.0 = Some(addon_tag);
        } else if self.addon_tags.1.is_none() {
            self.addon_tags.1 = Some(addon_tag);
        } else {
            self.addon_tags = (Some(addon_tag), self.latest_tag);
        }
        self.latest_tag = Some(addon_tag);
        self
    }

    /// Adds a file named `filename` with the given contents.
    pub fn file_from_bytes(&mut self, filename: &str, bytes: Vec<u8>) -> (r: &mut Self)
        ensures
            r@ == (BuilderModel { files: old(self)@.files.push((filename@, bytes@)), ..old(self)@ }),
            final(self)@ == final(r)@,
    {
        let ghost prev = self.files@;
        self.files.push(BuilderFile { filename: filename.to_owned(), contents: bytes });
        assert(self.files@.map_values(|f: BuilderFile| (f.filename@, f.contents@)) =~= prev.map_values(
            |f: BuilderFile| (f.filename@, f.contents@),
        ).push((filename@, bytes@)));
        self
    }

    /// Consumes the builder and gives the bytes of the archive, compressed as
    /// a whole when compression is on. The builder must have a name.
    pub fn write_to(self) -> (r: Result<Vec<u8>, Error>)
        requires
            self@.name is Some,
        ensures
            match archive_of(self@) {
                Ok(b) => if self@.compression {
                    r matches Ok(x) && x@ == lzma_encoded(b)
                } else {
                    r matches Ok(x) && x@ == b
                },
                Err(e) => r matches Err(x) && x == e,
            },
    {
        let compression = self.compression;
        let bytes = Self::write_to_gen(self)?;
        if compression {
            compress(bytes.as_slice())
        } else {
            Ok(bytes)
        }
    }

    /// Writes the uncompressed archive: the header; the entry table with
    /// placeholders for sizes and checksums, whose offsets are kept; the
    /// contents of the files; then each placeholder is overwritten in turn.
    fn write_to_gen(self) -> (r: Result<Vec<u8>, Error>)
        requires
            self@.name is Some,
        ensures
            match archive_of(self@) {
                Ok(b) => r matches Ok(v) && v@ == b,
                Err(e) => r matches Err(x) && x == e,
            },
    {
        proof {
            vstd::bytes::lemma_auto_spec_u64_to_from_le_bytes();
            vstd::bytes::lemma_auto_spec_u32_to_from_le_bytes();
        }
        let ghost m = self@;
        let name: &String = match &self.name {
            Some(n) => n,
            None => {
                return Err(Error::InvalidString);
            },
        };
        let mut writer: Vec<u8> = Vec::new();
        Self::write_ident(&mut writer)?;
        writer.write_u8(self.version)?;
        writer.write_u64(self.steamid)?;
        writer.write_u64(self.timestamp)?;
        if self.version > 1 {
            // the list of required content: only its terminating empty string
            writer.write_u8(0)?;
        }
        writer.write_c_string(name.as_str())?;
        let mut tags: Vec<AddonTag> = Vec::new();
        match self.addon_tags.0 {
            Some(t) => tags.push(t),
            None => {},
        }
        match self.addon_tags.1 {
            Some(t) => tags.push(t),
            None => {},
        }
        assert(tags@ =~= present_tags(m.tags));
        let metadata = AddonMetadata::new(
            name.clone(),
            self.description.clone(),
            &self.addon_type,
            tags.as_slice(),
        );
        assert(metadata@ =~= metadata_of(m));
        let metadata_json = metadata.to_json();
        writer.write_c_string(metadata_json.as_str())?;
        writer.write_c_string(self.author.as_str())?;
        writer.write_u32(1)?;
        let ghost h = writer@;
        let ghost meta = json_of(metadata_of(m));
        assert(h =~= header_bytes(m.version, m.steamid, m.timestamp, m.name->0, meta, m.author));

        let n = self.files.len();
        let ghost names = names_of(m.files);
        let ghost datas = datas_of(m.files);
        let ghost sums = sums_of(m.files);
        let ghost zeros = Seq::new(n as nat, |k: int| (0u64, 0u32));
        let mut patch_offsets: Vec<usize> = Vec::with_capacity(n);
        let mut i: usize = 0;
        assert(writer@ =~= h + table_with(names.take(0), zeros));
        while i < n
            invariant
                i <= n == self.files@.len(),
                m == self@,
                names == names_of(m.files),
                zeros == Seq::new(n as nat, |k: int| (0u64, 0u32)),
                writer@ == h + table_with(names.take(i as int), zeros),
                patch_offsets@.len() == i,
                forall|k: int|
                    0 <= k < i ==> #[trigger] patch_offsets@[k] == h.len() + patch_offset(
                        names,
                        zeros,
                        k,
                    ),
                forall|k: int| 0 <= k < i ==> writable_cstr(#[trigger] m.files[k].0),
            decreases n - i,
        {
            assert(names[i as int] == self.files@[i as int].filename@);
            assert(m.files[i as int].0 == names[i as int]);
            let ghost before = writer@;
            let (_, off) = Self::write_incomplete_file_entry(&mut writer, (i + 1) as u32, &self.files[i])?;
            patch_offsets.push(off);
            proof {
                let next = names.take(i + 1);
                assert(next.drop_last() =~= names.take(i as int));
                assert(next[i as int] == names[i as int]);
                assert(table_with(next, zeros) == table_with(names.take(i as int), zeros)
                    + crate::layout::entry_record((i + 1) as u32, names[i as int], 0u64, 0u32));
                assert(writer@ =~= h + table_with(next, zeros));
            }
            i = i + 1;
        }
        assert(names.take(n as int) =~= names);
        writer.write_u32(0)?;
        let ghost t0 = writer@;

        let mut patch_info: Vec<FilePatchInfo> = Vec::with_capacity(n);
        let mut i: usize = 0;
        assert(writer@ =~= t0 + contents_of(datas.take(0)));
        while i < n
            invariant
                i <= n == self.files@.len(),
                m == self@,
                datas == datas_of(m.files),
                sums == sums_of(m.files),
                writer@ == t0 + contents_of(datas.take(i as int)),
                patch_info@.len() == i,
                forall|k: int|
                    0 <= k < i ==> (#[trigger] patch_info@[k]).filesize == sums[k].0
                        && patch_info@[k].crc == sums[k].1,
            decreases n - i,
        {
            assert(datas[i as int] == self.files@[i as int].contents@);
            let (_, info) = Self::write_file_contents(&mut writer, &self.files[i]);
            patch_info.push(info);
            proof {
                let next = datas.take(i + 1);
                assert(next.drop_last() =~= datas.take(i as int));
                assert(writer@ =~= t0 + contents_of(next));
            }
            i = i + 1;
        }
        assert(datas.take(n as int) =~= datas);
        assert(patch_info@.len() == patch_offsets@.len());

        let ghost z = spec_u32_to_le_bytes(0);
        let ghost c = contents_of(datas);
        let mut i: usize = 0;
        assert(Seq::new(n as nat, |j: int| if j < 0 { sums[j] } else { (0u64, 0u32) }) =~= zeros);
        while i < n
            invariant
                i <= n == self.files@.len(),
                m == self@,
                names == names_of(m.files),
                sums == sums_of(m.files),
                zeros == Seq::new(n as nat, |k: int| (0u64, 0u32)),
                patch_offsets@.len() == n,
                patch_info@.len() == n,
                forall|k: int|
                    0 <= k < n ==> #[trigger] patch_offsets@[k] == h.len() + patch_offset(
                        names,
                        zeros,
                        k,
                    ),
                forall|k: int|
                    0 <= k < n ==> (#[trigger] patch_info@[k]).filesize == sums[k].0
                        && patch_info@[k].crc == sums[k].1,
                writer@ == h + table_with(
                    names,
                    Seq::new(n as nat, |j: int| if j < i { sums[j] } else { (0u64, 0u32) }),
                ) + z + c,
            decreases n - i,
        {
            let ghost vals = Seq::new(n as nat, |j: int| if j < i { sums[j] } else { (0u64, 0u32) });
            let ghost t = table_with(names, vals);
            proof {
                lemma_table_patch(names, vals, i as int, sums[i as int]);
                lemma_table_len(names.take(i as int), zeros, vals);
                assert(patch_offsets@[i as int] == h.len() + patch_offset(names, vals, i as int));
            }
            let ghost w = writer@;
            Self::apply_file_entry_patch(&mut writer, patch_offsets[i], &patch_info[i]);
            proof {
                let o = patch_offset(names, vals, i as int);
                let nv = Seq::new(n as nat, |j: int| if j < i + 1 { sums[j] } else { (0u64, 0u32) });
                assert(nv =~= vals.update(i as int, sums[i as int]));
                let t2 = table_with(names, nv);
                assert(t2 == t.subrange(0, o) + spec_u64_to_le_bytes(sums[i as int].0)
                    + spec_u32_to_le_bytes(sums[i as int].1) + t.subrange(o + 12, t.len() as int));
                assert(w =~= h + t + z + c);
                assert(w.subrange(0, h.len() + o) =~= h + t.subrange(0, o));
                assert(w.subrange(h.len() + o + 12, w.len() as int) =~= t.subrange(o + 12, t.len() as int) + z + c);
                assert(writer@ =~= h + t2 + z + c);
            }
            i = i + 1;
        }
        assert(Seq::new(n as nat, |j: int| if j < n { sums[j] } else { (0u64, 0u32) }) =~= sums);
        assert(writer@ =~= archive_bytes(m.version, m.steamid, m.timestamp, m.name->0, meta, m.author, m.files));
        Ok(writer)
    }

    fn write_ident(writer: &mut Vec<u8>) -> (r: Result<usize, Error>)
        ensures
            r == Ok::<usize, Error>(4usize),
            final(writer)@ == old(writer)@ + ident_seq(),
    {
        writer.write_u8(IDENT[0])?;
        writer.write_u8(IDENT[1])?;
        writer.write_u8(IDENT[2])?;
        writer.write_u8(IDENT[3])?;
        assert(writer@ =~= old(writer)@ + ident_seq());
        Ok(4)
    }

    /// Writes the index and name of an entry and placeholders for its size and
    /// checksum; returns the bytes written and where the placeholders start.
    fn write_incomplete_file_entry(
        writer: &mut Vec<u8>,
        file_number: u32,
        bfile: &BuilderFile,
    ) -> (r: Result<(usize, usize), Error>)
        ensures
            writable_cstr(bfile.filename@) ==> (r matches Ok((n, off)) && final(writer)@ == old(
                writer,
            )@ + spec_u32_to_le_bytes(file_number) + cstr_bytes(bfile.filename@)
                + spec_u64_to_le_bytes(0) + spec_u32_to_le_bytes(0) && off == old(writer)@.len()
                + 4 + cstr_bytes(bfile.filename@).len()),
            !writable_cstr(bfile.filename@) ==> r == Err::<(usize, usize), Error>(
                Error::InvalidString,
            ),
    {
        proof {
            vstd::bytes::lemma_auto_spec_u64_to_from_le_bytes();
            vstd::bytes::lemma_auto_spec_u32_to_from_le_bytes();
        }
        let start = writer.len();
        writer.write_u32(file_number)?;
        let n = writer.write_c_string(bfile.filename.as_str())?;
        let offset_to_patch_start = writer.len();
        writer.write_u64(0)?;
        writer.write_u32(0)?;
        assert(n == cstr_bytes(bfile.filename@).len());
        assert(offset_to_patch_start + 12 == writer@.len());
        Ok((writer.len() - start, offset_to_patch_start))
    }

    /// Appends the contents of a file; returns the bytes written and its size and checksum.
    fn write_file_contents(writer: &mut Vec<u8>, bfile: &BuilderFile) -> (r: (usize, FilePatchInfo))
        ensures
            final(writer)@ == old(writer)@ + bfile.contents@,
            r.0 == bfile.contents@.len(),
            r.1.filesize == bfile.contents@.len() as u64,
            r.1.crc == crc32_of(bfile.contents@),
    {
        let data = bfile.contents.as_slice();
        let crc = crc32(data);
        let mut i: usize = 0;
        while i < data.len()
            invariant
                i <= data@.len(),
                data@ == bfile.contents@,
                writer@ == old(writer)@ + data@.subrange(0, i as int),
            decreases data@.len() - i,
        {
            writer.push(data[i]);
            i = i + 1;
            assert(data@.subrange(0, i as int) =~= data@.subrange(0, i - 1).push(data@[i - 1]));
        }
        assert(data@.subrange(0, data@.len() as int) =~= data@);
        (data.len(), FilePatchInfo { filesize: data.len() as u64, crc })
    }

    /// Writes the size and checksum of an entry over its placeholders at `patch_offset`.
    fn apply_file_entry_patch(writer: &mut Vec<u8>, patch_offset: usize, patch_info: &FilePatchInfo)
        requires
            patch_offset + 12 <= old(writer)@.len(),
        ensures
            final(writer)@ == old(writer)@.subrange(0, patch_offset as int) + spec_u64_to_le_bytes(
                patch_info.filesize,
            ) + spec_u32_to_le_bytes(patch_info.crc) + old(writer)@.subrange(
                patch_offset + 12,
                old(writer)@.len() as int,
            ),
    {
        proof {
            vstd::bytes::lemma_auto_spec_u64_to_from_le_bytes();
            vstd::bytes::lemma_auto_spec_u32_to_from_le_bytes();
        }
        let total = writer.len();
        let mut b = u64_to_le_bytes(patch_info.filesize);
        let mut c = u32_to_le_bytes(patch_info.crc);
        b.append(&mut c);
        let ghost patch = b@;
        assert(patch =~= spec_u64_to_le_bytes(patch_info.filesize) + spec_u32_to_le_bytes(
            patch_info.crc,
        ));
        let mut k: usize = 0;
        while k < 12
            invariant
                k <= 12,
                b@ == patch,
                patch.len() == 12,
                patch_offset + 12 <= old(writer)@.len(),
                total == old(writer)@.len(),
                writer@.len() == old(writer)@.len(),
                forall|j: int|
                    0 <= j < writer@.len() && !(patch_offset <= j < patch_offset + k) ==> writer@[j]
                        == old(writer)@[j],
                forall|j: int|
                    patch_offset <= j < patch_offset + k ==> writer@[j] == patch[j - patch_offset],
            decreases 12 - k,
        {
            writer.set(patch_offset + k, b[k]);
            k = k + 1;
        }
        assert(writer@ =~= old(writer)@.subrange(0, patch_offset as int) + patch + old(
            writer,
        )@.subrange(patch_offset + 12, old(writer)@.len() as int));
    }
}

} // verus!
