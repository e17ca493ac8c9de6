//! Parsing of archives: the header, the entry table, and access to entry contents.
use vstd::prelude::*;
use vstd::slice::slice_to_vec;

use crate::binary::{
    cstr_len, read_cstr_at, read_u32_at, read_u64_at, read_u8_at, BinaryReader, ByteReader,
};
use crate::compression::{decompress, lzma_decoded};
use crate::addon_metadata::{metadata_fields, present_tags, AddonMetadata};
use crate::error::Error;
use crate::{ident_seq, valid_version, AddonTag, AddonType, IDENT};

verus! {

/// What the table of an archive says of one entry.
pub ghost struct EntryModel {
    pub name: Seq<char>,
    pub size: u64,
    pub crc: u32,
    /// Where the contents start, counted from the end of the table.
    pub offset: u64,
}

/// One entry of an archive: its name, size, checksum and place in the data block.
#[derive(Debug)]
pub struct FileEntry {
    filename: String,
    filesize: u64,
    crc: u32,
    offset: u64,
}

impl View for FileEntry {
    type V = EntryModel;

    closed spec fn view(&self) -> EntryModel {
        EntryModel {
            name: self.filename@,
            size: self.filesize,
            crc: self.crc,
            offset: self.offset,
        }
    }
}

impl FileEntry {
    /// The full filename of this entry, e.g. `lua/autorun/cl_myscript.lua`.
    pub fn filename(&self) -> (r: &str)
        ensures
            r@ == self@.name,
    {
        self.filename.as_str()
    }

    /// The size of the contents.
    pub fn size(&self) -> (r: u64)
        ensures
            r == self@.size,
    {
        self.filesize
    }

    /// The CRC-32 of the contents, as the table states it.
    pub fn crc(&self) -> (r: u32)
        ensures
            r == self@.crc,
    {
        self.crc
    }

    /// Where the contents start, counted from the first byte after the table.
    pub fn offset(&self) -> (r: u64)
        ensures
            r == self@.offset,
    {
        self.offset
    }
}

/// The position after the list of required-content strings that starts at `p`:
/// strings are read until an empty one.
pub open spec fn skip_required(d: Seq<u8>, p: int) -> Result<int, Error>
    decreases d.len() - p,
{
    match read_cstr_at(d, p) {
        Err(e) => Err(e),
        Ok((s, q)) => if s.len() == 0 || q <= p || q > d.len() {
            Ok(q)
        } else {
            skip_required(d, q)
        },
    }
}

/// The entries of the table that starts at `p`, up to its terminating zero index,
/// with `offset` the place of the first entry's contents; and the position after the table.
pub open spec fn parse_entries(d: Seq<u8>, p: int, offset: u64) -> Result<
    (Seq<EntryModel>, int),
    Error,
>
    decreases d.len() - p,
{
    match read_u32_at(d, p) {
        Err(e) => Err(e),
        Ok((index, at1)) => if index == 0 {
            Ok((Seq::empty(), at1))
        } else {
            match read_cstr_at(d, at1) {
                Err(e) => Err(e),
                Ok((name, at2)) => match read_u64_at(d, at2) {
                    Err(e) => Err(e),
                    Ok((size, at3)) => match read_u32_at(d, at3) {
                        Err(e) => Err(e),
                        Ok((crc, at4)) => if at4 <= p {
                            Err(Error::IOError)
                        } else {
                            match parse_entries(d, at4, offset.wrapping_add(size)) {
                                Err(e) => Err(e),
                                Ok((rest, q)) => Ok(
                                    (
                                        seq![EntryModel { name, size, crc, offset }] + rest,
                                        q,
                                    ),
                                ),
                            }
                        },
                    },
                },
            }
        },
    }
}

/// The fields of an archive's header and table, as stored.
pub ghost struct HeaderModel {
    pub version: u8,
    pub steamid: u64,
    pub timestamp: u64,
    pub name: Seq<char>,
    pub metadata: Seq<char>,
    pub author: Seq<char>,
    pub entries: Seq<EntryModel>,
    pub data_start: int,
}

/// The result of parsing the uncompressed archive `d`.
pub open spec fn parse_header(d: Seq<u8>) -> Result<HeaderModel, Error> {
    if d.len() < 4 {
        Err(Error::IOError)
    } else if d.subrange(0, 4) != ident_seq() {
        Err(Error::InvalidIdent)
    } else {
        match read_u8_at(d, 4) {
            Err(e) => Err(e),
            Ok((version, p)) => if !valid_version(version) {
                Err(Error::InvalidVersion(version))
            } else {
                match read_u64_at(d, p) {
                    Err(e) => Err(e),
                    Ok((steamid, p)) => match read_u64_at(d, p) {
                        Err(e) => Err(e),
                        Ok((timestamp, p)) => match (if version > 1 {
                            skip_required(d, p)
                        } else {
                            Ok(p)
                        }) {
                            Err(e) => Err(e),
                            Ok(p) => parse_strings_and_table(d, p, version, steamid, timestamp),
                        },
                    },
                }
            },
        }
    }
}

/// The part of `parse_header` from the addon name on.
pub open spec fn parse_strings_and_table(
    d: Seq<u8>,
    p: int,
    version: u8,
    steamid: u64,
    timestamp: u64,
) -> Result<HeaderModel, Error> {
    match read_cstr_at(d, p) {
        Err(e) => Err(e),
        Ok((name, p)) => match read_cstr_at(d, p) {
            Err(e) => Err(e),
            Ok((metadata, p)) => match read_cstr_at(d, p) {
                Err(e) => Err(e),
                Ok((author, p)) => match read_u32_at(d, p) {
                    Err(e) => Err(e),
                    Ok((_addon_version, p)) => match parse_entries(d, p, 0) {
                        Err(e) => Err(e),
                        Ok((entries, p)) => Ok(
                            HeaderModel {
                                version,
                                steamid,
                                timestamp,
                                name,
                                metadata,
                                author,
                                entries,
                                data_start: p,
                            },
                        ),
                    },
                },
            },
        },
    }
}

/// The uncompressed archive held in `data`, and whether it had to be
/// decompressed: a stream that does not start with `GMAD` is taken as LZMA.
pub open spec fn stream_of(data: Seq<u8>) -> Result<(Seq<u8>, bool), Error> {
    if data.len() < 4 {
        Err(Error::IOError)
    } else if data.subrange(0, 4) == ident_seq() {
        Ok((data, false))
    } else {
        match lzma_decoded(data) {
            Some(d) => Ok((d, true)),
            None => Err(Error::CompressionError),
        }
    }
}

proof fn lemma_cstr_len_bound(d: Seq<u8>, p: int)
    requires
        0 <= p <= d.len(),
    ensures
        p + cstr_len(d, p) <= d.len(),
    decreases d.len() - p,
{
    if p < d.len() && d[p] != 0 {
        lemma_cstr_len_bound(d, p + 1);
    }
}

/// The next position of a successful string read is no smaller than the start,
/// stays within the stream, and is larger when the string is not empty.
proof fn lemma_read_cstr_advances(d: Seq<u8>, p: int)
    requires
        0 <= p <= d.len(),
    ensures
        read_cstr_at(d, p) matches Ok((s, q)) ==> p <= q <= d.len() && (s.len() > 0 ==> q > p),
{
    lemma_cstr_len_bound(d, p);
    let e = p + cstr_len(d, p);
    if e == p {
        assert(d.subrange(p, e) =~= Seq::<u8>::empty());
        assert(vstd::utf8::decode_utf8(Seq::<u8>::empty()) =~= Seq::<char>::empty());
    }
}

proof fn lemma_skip_required_bound(d: Seq<u8>, p: int)
    requires
        0 <= p <= d.len(),
    ensures
        skip_required(d, p) matches Ok(q) ==> p <= q <= d.len(),
    decreases d.len() - p,
{
    lemma_read_cstr_advances(d, p);
    if let Ok((s, q)) = read_cstr_at(d, p) {
        if !(s.len() == 0 || q <= p || q > d.len()) {
            lemma_skip_required_bound(d, q);
        }
    }
}

/// Parses an archive out of a stream held in memory.
pub struct GMAFileReader {
    reader: ByteReader,
    compressed: bool,
}

impl GMAFileReader {
    pub closed spec fn bytes(&self) -> Seq<u8> {
        self.reader.bytes()
    }

    pub closed spec fn pos(&self) -> int {
        self.reader.pos() as int
    }

    pub closed spec fn is_compressed(&self) -> bool {
        self.compressed
    }

    /// Takes the stream: when it does not start with `GMAD` it is decompressed
    /// as a whole, and the reader works on the result.
    pub fn new(data: Vec<u8>) -> (r: Result<Self, Error>)
        ensures
            match stream_of(data@) {
                Ok((d, c)) => r matches Ok(g) && g.bytes() == d && g.pos() == 0
                    && g.is_compressed() == c,
                Err(e) => r matches Err(x) && x == e,
            },
    {
        if data.len() < 4 {
            return Err(Error::IOError);
        }
        let is_plain = data[0] == IDENT[0] && data[1] == IDENT[1] && data[2] == IDENT[2]
            && data[3] == IDENT[3];
        assert(is_plain <==> data@.subrange(0, 4) == ident_seq()) by {
            if is_plain {
                assert(data@.subrange(0, 4) =~= ident_seq());
            }
            if data@.subrange(0, 4) == ident_seq() {
                assert(data@.subrange(0, 4)[0] == data@[0]);
                assert(data@.subrange(0, 4)[1] == data@[1]);
                assert(data@.subrange(0, 4)[2] == data@[2]);
                assert(data@.subrange(0, 4)[3] == data@[3]);
            }
        }
        if is_plain {
            Ok(GMAFileReader { reader: ByteReader::new(data), compressed: false })
        } else {
            let d = decompress(data.as_slice())?;
            Ok(GMAFileReader { reader: ByteReader::new(d), compressed: true })
        }
    }

    fn read_ident(&mut self) -> (r: Result<(), Error>)
        requires
            old(self).pos() == 0,
        ensures
            final(self).bytes() == old(self).bytes(),
            old(self).bytes().len() < 4 ==> r == Err::<(), Error>(Error::IOError),
            old(self).bytes().len() >= 4 && old(self).bytes().subrange(0, 4) != ident_seq()
                ==> r == Err::<(), Error>(Error::InvalidIdent),
            old(self).bytes().len() >= 4 && old(self).bytes().subrange(0, 4) == ident_seq()
                ==> r is Ok && final(self).pos() == 4,
            final(self).is_compressed() == old(self).is_compressed(),
    {
        let ghost d = self.bytes();
        let (_, a) = self.reader.read_u8()?;
        let (_, b) = self.reader.read_u8()?;
        let (_, c) = self.reader.read_u8()?;
        let (_, e) = self.reader.read_u8()?;
        assert(d.len() >= 4);
        if a == IDENT[0] && b == IDENT[1] && c == IDENT[2] && e == IDENT[3] {
            assert(d.subrange(0, 4) =~= ident_seq());
            Ok(())
        } else {
            assert(d.subrange(0, 4)[0] == d[0]);
            assert(d.subrange(0, 4)[1] == d[1]);
            assert(d.subrange(0, 4)[2] == d[2]);
            assert(d.subrange(0, 4)[3] == d[3]);
            Err(Error::InvalidIdent)
        }
    }

    fn read_version(&mut self) -> (r: Result<u8, Error>)
        ensures
            final(self).bytes() == old(self).bytes(),
            final(self).is_compressed() == old(self).is_compressed(),
            match read_u8_at(old(self).bytes(), old(self).pos()) {
                Ok((v, q)) => final(self).pos() == q && if valid_version(v) {
                    r == Ok::<u8, Error>(v)
                } else {
                    r == Err::<u8, Error>(Error::InvalidVersion(v))
                },
                Err(e) => r == Err::<u8, Error>(e),
            },
    {
        let (_, version) = self.reader.read_u8()?;
        if version < 1 || version > 3 {
            Err(Error::InvalidVersion(version))
        } else {
            Ok(version)
        }
    }

    fn read_steamid(&mut self) -> (r: Result<u64, Error>)
        ensures
            final(self).bytes() == old(self).bytes(),
            final(self).is_compressed() == old(self).is_compressed(),
            match read_u64_at(old(self).bytes(), old(self).pos()) {
                Ok((v, q)) => r == Ok::<u64, Error>(v) && final(self).pos() == q,
                Err(e) => r == Err::<u64, Error>(e),
            },
    {
        Ok(self.reader.read_u64()?.1)
    }

    fn read_timestamp(&mut self) -> (r: Result<u64, Error>)
        ensures
            final(self).bytes() == old(self).bytes(),
            final(self).is_compressed() == old(self).is_compressed(),
            match read_u64_at(old(self).bytes(), old(self).pos()) {
                Ok((v, q)) => r == Ok::<u64, Error>(v) && final(self).pos() == q,
                Err(e) => r == Err::<u64, Error>(e),
            },
    {
        Ok(self.reader.read_u64()?.1)
    }

    /// Reads the required-content strings, up to and including the empty one
    /// that ends the list.
    fn read_required_content(&mut self) -> (r: Result<Vec<String>, Error>)
        requires
            old(self).pos() <= old(self).bytes().len(),
        ensures
            final(self).bytes() == old(self).bytes(),
            final(self).is_compressed() == old(self).is_compressed(),
            match skip_required(old(self).bytes(), old(self).pos()) {
                Ok(q) => r is Ok && final(self).pos() == q,
                Err(e) => r matches Err(x) && x == e,
            },
    {
        let ghost d = self.bytes();
        let ghost start = self.pos();
        let mut v: Vec<String> = Vec::new();
        loop
            invariant
                self.bytes() == d,
                d == old(self).bytes(),
                start == old(self).pos(),
                self.is_compressed() == old(self).is_compressed(),
                0 <= self.pos() <= d.len(),
                skip_required(d, start) == skip_required(d, self.pos()),
            decreases d.len() - self.pos(),
        {
            let ghost p = self.pos();
            proof {
                lemma_read_cstr_advances(d, p);
            }
            let (_, s) = self.reader.read_c_string()?;
            if s.as_str().is_empty() {
                return Ok(v);
            }
            v.push(s);
        }
    }

    fn read_string(&mut self) -> (r: Result<String, Error>)
        ensures
            final(self).bytes() == old(self).bytes(),
            final(self).is_compressed() == old(self).is_compressed(),
            match read_cstr_at(old(self).bytes(), old(self).pos()) {
                Ok((s, q)) => r matches Ok(x) && x@ == s && final(self).pos() == q,
                Err(e) => r matches Err(x) && x == e,
            },
    {
        Ok(self.reader.read_c_string()?.1)
    }

    fn read_name(&mut self) -> (r: Result<String, Error>)
        ensures
            final(self).bytes() == old(self).bytes(),
            final(self).is_compressed() == old(self).is_compressed(),
            match read_cstr_at(old(self).bytes(), old(self).pos()) {
                Ok((s, q)) => r matches Ok(x) && x@ == s && final(self).pos() == q,
                Err(e) => r matches Err(x) && x == e,
            },
    {
        self.read_string()
    }

    fn read_desc(&mut self) -> (r: Result<String, Error>)
        ensures
            final(self).bytes() == old(self).bytes(),
            final(self).is_compressed() == old(self).is_compressed(),
            match read_cstr_at(old(self).bytes(), old(self).pos()) {
                Ok((s, q)) => r matches Ok(x) && x@ == s && final(self).pos() == q,
                Err(e) => r matches Err(x) && x == e,
            },
    {
        self.read_string()
    }

    fn read_author(&mut self) -> (r: Result<String, Error>)
        ensures
            final(self).bytes() == old(self).bytes(),
            final(self).is_compressed() == old(self).is_compressed(),
            match read_cstr_at(old(self).bytes(), old(self).pos()) {
                Ok((s, q)) => r matches Ok(x) && x@ == s && final(self).pos() == q,
                Err(e) => r matches Err(x) && x == e,
            },
    {
        self.read_string()
    }

    fn read_addon_version(&mut self) -> (r: Result<u32, Error>)
        ensures
            final(self).bytes() == old(self).bytes(),
            final(self).is_compressed() == old(self).is_compressed(),
            match read_u32_at(old(self).bytes(), old(self).pos()) {
                Ok((v, q)) => r == Ok::<u32, Error>(v) && final(self).pos() == q,
                Err(e) => r == Err::<u32, Error>(e),
            },
    {
        Ok(self.reader.read_u32()?.1)
    }

    fn read_file_entries(&mut self) -> (r: Result<Vec<FileEntry>, Error>)
        requires
            old(self).pos() <= old(self).bytes().len(),
        ensures
            final(self).bytes() == old(self).bytes(),
            final(self).is_compressed() == old(self).is_compressed(),
            match parse_entries(old(self).bytes(), old(self).pos(), 0) {
                Ok((es, q)) => r matches Ok(v) && v@.map_values(|e: FileEntry| e@) == es
                    && final(self).pos() == q,
                Err(e) => r matches Err(x) && x == e,
            },
    {
        let ghost d = self.bytes();
        let ghost start = self.pos();
        let mut entries: Vec<FileEntry> = Vec::new();
        let mut current_offset: u64 = 0;
        loop
            invariant
                self.bytes() == d,
                d == old(self).bytes(),
                start == old(self).pos(),
                self.is_compressed() == old(self).is_compressed(),
                0 <= self.pos() <= d.len(),
                parse_entries(d, start, 0) == match parse_entries(d, self.pos(), current_offset) {
                    Ok((rest, q)) => Ok::<(Seq<EntryModel>, int), Error>(
                        (entries@.map_values(|e: FileEntry| e@) + rest, q),
                    ),
                    Err(e) => Err(e),
                },
            decreases d.len() - self.pos(),
        {
            let ghost p = self.pos();
            let ghost models = entries@.map_values(|e: FileEntry| e@);
            let (_, index) = self.reader.read_u32()?;
            if index == 0 {
                assert(models + Seq::<EntryModel>::empty() =~= models);
                return Ok(entries);
            }
            let ghost at1 = self.pos();
            proof {
                lemma_read_cstr_advances(d, at1);
            }
            let (_, filename) = self.reader.read_c_string()?;
            let (_, filesize) = self.reader.read_u64()?;
            let (_, crc) = self.reader.read_u32()?;
            let entry = FileEntry { filename, filesize, crc, offset: current_offset };
            current_offset = current_offset.wrapping_add(filesize);
            entries.push(entry);
            proof {
                let m = entry@;
                assert(entries@.map_values(|e: FileEntry| e@) =~= models.push(m));
                match parse_entries(d, self.pos(), current_offset) {
                    Ok((rest, q)) => {
                        assert(models.push(m) + rest =~= models + (seq![m] + rest));
                    },
                    Err(e) => {},
                }
            }
        }
    }

    /// Parses the header and the entry table.
    pub fn read_gma(self) -> (r: Result<GMAFile, Error>)
        requires
            self.pos() == 0,
        ensures
            match parse_header(self.bytes()) {
                Ok(h) => r matches Ok(f) && f@ == file_model(h, self.bytes(), self.is_compressed()),
                Err(e) => r matches Err(x) && x == e,
            },
    {
        let mut this = self;
        let ghost d = this.bytes();
        this.read_ident()?;
        let version = this.read_version()?;
        let steamid = this.read_steamid()?;
        let timestamp = this.read_timestamp()?;
        if version > 1 {
            proof {
                lemma_skip_required_bound(d, this.pos() as int);
            }
            this.read_required_content()?;
        }
        proof {
            lemma_read_cstr_advances(d, this.pos());
        }
        let name = this.read_name()?;
        proof {
            lemma_read_cstr_advances(d, this.pos());
        }
        let metadata_str = this.read_desc()?;
        proof {
            lemma_read_cstr_advances(d, this.pos());
        }
        let author = this.read_author()?;
        let _addon_version = this.read_addon_version()?;
        let entries = this.read_file_entries()?;
        let file_data_start = this.reader.position();
        let (description, addon_type, addon_tags) = resolve_metadata(metadata_str);
        let GMAFileReader { reader, compressed } = this;
        Ok(GMAFile {
            version,
            steamid,
            timestamp,
            name,
            description,
            addon_type,
            addon_tags,
            author,
            entries,
            file_data_start,
            data: reader.into_data(),
            compressed,
        })
    }
}

/// The description, type and tags of an archive from its metadata text: the
/// decoded record's, or the raw text as the description when it does not decode.
fn resolve_metadata(text: String) -> (r: (String, Option<AddonType>, Vec<AddonTag>))
    ensures
        (r.0@, r.1, r.2@) == metadata_fields(text@),
{
    match AddonMetadata::from_json(text.as_str()) {
        Some(metadata) => {
            let ty = metadata.get_type();
            let mut tags: Vec<AddonTag> = Vec::new();
            let (t1, t2) = metadata.get_tags();
            if let Some(t1) = t1 {
                tags.push(t1);
            }
            if let Some(t2) = t2 {
                tags.push(t2);
            }
            assert(tags@ =~= present_tags((t1, t2)));
            let desc = metadata.get_description().to_owned();
            (desc, ty, tags)
        },
        None => (text, None, Vec::new()),
    }
}

/// What an open archive holds.
pub ghost struct FileModel {
    pub version: u8,
    pub steamid: u64,
    pub timestamp: u64,
    pub name: Seq<char>,
    pub description: Seq<char>,
    pub addon_type: Option<AddonType>,
    pub tags: Seq<AddonTag>,
    pub author: Seq<char>,
    pub entries: Seq<EntryModel>,
    pub data_start: int,
    pub data: Seq<u8>,
    pub compressed: bool,
}

/// The open archive whose uncompressed bytes `d` parse to `h`.
pub open spec fn file_model(h: HeaderModel, d: Seq<u8>, compressed: bool) -> FileModel {
    let (description, addon_type, tags) = metadata_fields(h.metadata);
    FileModel {
        version: h.version,
        steamid: h.steamid,
        timestamp: h.timestamp,
        name: h.name,
        description,
        addon_type,
        tags,
        author: h.author,
        entries: h.entries,
        data_start: h.data_start,
        data: d,
        compressed,
    }
}

/// The result of opening the archive stored in `data`.
pub open spec fn load_model(data: Seq<u8>) -> Result<FileModel, Error> {
    match stream_of(data) {
        Err(e) => Err(e),
        Ok((d, c)) => match parse_header(d) {
            Err(e) => Err(e),
            Ok(h) => Ok(file_model(h, d, c)),
        },
    }
}

/// The contents of an entry at `offset` with `size` bytes, in an archive whose
/// data block starts at `start`: cut short where the bytes end.
pub open spec fn entry_contents(d: Seq<u8>, start: int, offset: u64, size: u64) -> Seq<u8> {
    let s = start + offset;
    let e = if s + size <= d.len() { s + size } else { d.len() as int };
    if s >= d.len() {
        Seq::empty()
    } else {
        d.subrange(s, e)
    }
}

/// An opened archive: its header fields, its entries, and the bytes that hold
/// their contents.
#[derive(Debug)]
pub struct GMAFile {
    version: u8,
    steamid: u64,
    timestamp: u64,
    name: String,
    description: String,
    addon_type: Option<AddonType>,
    addon_tags: Vec<AddonTag>,
    author: String,
    entries: Vec<FileEntry>,
    file_data_start: usize,
    data: Vec<u8>,
    compressed: bool,
}

impl View for GMAFile {
    type V = FileModel;

    closed spec fn view(&self) -> FileModel {
        FileModel {
            version: self.version,
            steamid: self.steamid,
            timestamp: self.timestamp,
            name: self.name@,
            description: self.description@,
            addon_type: self.addon_type,
            tags: self.addon_tags@,
            author: self.author@,
            entries: self.entries@.map_values(|e: FileEntry| e@),
            data_start: self.file_data_start as int,
            data: self.data@,
            compressed: self.compressed,
        }
    }
}

impl GMAFile {
    /// The archive format version.
    pub fn version(&self) -> (r: u8)
        ensures
            r == self@.version,
    {
        self.version
    }

    /// The app id of Garry's Mod, which every archive belongs to.
    pub fn appid(&self) -> (r: u32)
        ensures
            r == 4000,
    {
        4000
    }

    /// The author's Steam id; the game does not use it and it is usually 0.
    pub fn author_steamid(&self) -> (r: u64)
        ensures
            r == self@.steamid,
    {
        self.steamid
    }

    /// Seconds since the UNIX epoch at which the archive was made.
    pub fn timestamp(&self) -> (r: u64)
        ensures
            r == self@.timestamp,
    {
        self.timestamp
    }

    /// The name of the addon.
    pub fn name(&self) -> (r: &str)
        ensures
            r@ == self@.name,
    {
        self.name.as_str()
    }

    /// The description of the addon.
    pub fn description(&self) -> (r: &str)
        ensures
            r@ == self@.description,
    {
        self.description.as_str()
    }

    /// The type of the addon, if the metadata names a known one.
    pub fn addon_type(&self) -> (r: Option<AddonType>)
        ensures
            r == self@.addon_type,
    {
        self.addon_type
    }

    /// The tags of the addon.
    pub fn addon_tags(&self) -> (r: &[AddonTag])
        ensures
            r@ == self@.tags,
    {
        self.addon_tags.as_slice()
    }

    /// Whether the addon carries `tag`.
    pub fn contains_tag(&self, tag: AddonTag) -> (r: bool)
        ensures
            r == self@.tags.contains(tag),
    {
        let mut i: usize = 0;
        while i < self.addon_tags.len()
            invariant
                i <= self.addon_tags@.len(),
                forall|k: int| 0 <= k < i ==> self.addon_tags@[k] != tag,
            decreases self.addon_tags@.len() - i,
        {
            if self.addon_tags[i] == tag {
                return true;
            }
            i = i + 1;
        }
        false
    }

    /// The name of the addon's author.
    pub fn author(&self) -> (r: &str)
        ensures
            r@ == self@.author,
    {
        self.author.as_str()
    }

    /// Whether the stream was LZMA-compressed.
    pub fn compressed(&self) -> (r: bool)
        ensures
            r == self@.compressed,
    {
        self.compressed
    }

    /// The entries, in table order.
    pub fn entries(&self) -> (r: &[FileEntry])
        ensures
            r@.map_values(|e: FileEntry| e@) == self@.entries,
    {
        self.entries.as_slice()
    }

    /// The contents of `entry`: `entry.size()` bytes from its place in the data
    /// block, fewer where the archive ends first.
    pub fn read_entry(&self, entry: &FileEntry) -> (r: Vec<u8>)
        ensures
            r@ == entry_contents(self@.data, self@.data_start, entry@.offset, entry@.size),
    {
        let len = self.data.len();
        if self.file_data_start >= len || entry.offset >= (len - self.file_data_start) as u64 {
            return Vec::new();
        }
        let s = self.file_data_start + entry.offset as usize;
        let e = if entry.filesize <= (len - s) as u64 {
            s + entry.filesize as usize
        } else {
            len
        };
        let mut out: Vec<u8> = Vec::new();
        let mut i = s;
        while i < e
            invariant
                s <= i <= e <= len == self.data@.len(),
                out@ == self.data@.subrange(s as int, i as int),
            decreases e - i,
        {
            out.push(self.data[i]);
            i = i + 1;
        }
        out
    }
}

/// Opens the archive stored in `data`, decompressing it first when it does not
/// start with `GMAD`.
pub fn load(data: Vec<u8>) -> (r: Result<GMAFile, Error>)
    ensures
        match load_model(data@) {
            Ok(m) => r matches Ok(f) && f@ == m,
            Err(e) => r matches Err(x) && x == e,
        },
{
    let reader = GMAFileReader::new(data)?;
    reader.read_gma()
}

/// Opens the archive held in a byte slice.
pub fn load_from_memory(data: &[u8]) -> (r: Result<GMAFile, Error>)
    ensures
        match load_model(data@) {
            Ok(m) => r matches Ok(f) && f@ == m,
            Err(e) => r matches Err(x) && x == e,
        },
{
    load(slice_to_vec(data))
}

} // verus!
