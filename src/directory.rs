use vstd::prelude::*;
use crate::bytes::{
    copy_range, lemma_le16, lemma_le32, le16, le32, read_u16, read_u32, u16_at, u32_at, write_bytes, write_pair, write_u16,
    write_u32, write_u8,
};
use crate::error::{BadMagicReason, ZipError};
use crate::external::{crc32, crc32_of, deflate, deflate_of, inflate, inflate_of, sha1, sha1_of, sha256, sha256_of, utf8_string};
use crate::extra::{extras_bytes, parse_extra_list, Extra, ExtraList};
use crate::file::{emitted_method, emitted_size, lfh_bytes, parse_lfh, ZipFile, ZipFileView};
use crate::zip::ZipModel;
use vstd::utf8::{decode_utf8, valid_utf8};
use vstd::string::StringSliceAdditionalSpecFns;

verus! {

/// The compression methods a ZIP record can name; only `Store` and `Deflate` are processed.
#[derive(Debug, Clone, Copy, PartialEq, Eq, Structural)]
pub enum CompressionMethod {
    Store,
    Shrink,
    Implode,
    Deflate,
    Deflate64,
    BZIP2,
    LZMA,
    XZ,
    JPEG,
    WavPack,
    PPMd,
    AES,
}

pub open spec fn method_code(m: CompressionMethod) -> u16 {
    match m {
        CompressionMethod::Store => 0,
        CompressionMethod::Shrink => 1,
        CompressionMethod::Implode => 6,
        CompressionMethod::Deflate => 8,
        CompressionMethod::Deflate64 => 9,
        CompressionMethod::BZIP2 => 12,
        CompressionMethod::LZMA => 14,
        CompressionMethod::XZ => 95,
        CompressionMethod::JPEG => 96,
        CompressionMethod::WavPack => 97,
        CompressionMethod::PPMd => 98,
        CompressionMethod::AES => 99,
    }
}

/// The method with a given number, if there is one.
pub open spec fn method_of_code(c: u16) -> Option<CompressionMethod> {
    if c == 0 {
        Some(CompressionMethod::Store)
    } else if c == 1 {
        Some(CompressionMethod::Shrink)
    } else if c == 6 {
        Some(CompressionMethod::Implode)
    } else if c == 8 {
        Some(CompressionMethod::Deflate)
    } else if c == 9 {
        Some(CompressionMethod::Deflate64)
    } else if c == 12 {
        Some(CompressionMethod::BZIP2)
    } else if c == 14 {
        Some(CompressionMethod::LZMA)
    } else if c == 95 {
        Some(CompressionMethod::XZ)
    } else if c == 96 {
        Some(CompressionMethod::JPEG)
    } else if c == 97 {
        Some(CompressionMethod::WavPack)
    } else if c == 98 {
        Some(CompressionMethod::PPMd)
    } else if c == 99 {
        Some(CompressionMethod::AES)
    } else {
        None
    }
}

pub proof fn lemma_method_code_round_trip(m: CompressionMethod)
    ensures
        method_of_code(method_code(m)) == Some(m),
{
}

impl CompressionMethod {
    pub fn code(&self) -> (r: u16)
        ensures
            r == method_code(*self),
    {
        match self {
            CompressionMethod::Store => 0,
            CompressionMethod::Shrink => 1,
            CompressionMethod::Implode => 6,
            CompressionMethod::Deflate => 8,
            CompressionMethod::Deflate64 => 9,
            CompressionMethod::BZIP2 => 12,
            CompressionMethod::LZMA => 14,
            CompressionMethod::XZ => 95,
            CompressionMethod::JPEG => 96,
            CompressionMethod::WavPack => 97,
            CompressionMethod::PPMd => 98,
            CompressionMethod::AES => 99,
        }
    }

    pub fn from_code(c: u16) -> (r: Option<CompressionMethod>)
        ensures
            r == method_of_code(c),
    {
        if c == 0 {
            Some(CompressionMethod::Store)
        } else if c == 1 {
            Some(CompressionMethod::Shrink)
        } else if c == 6 {
            Some(CompressionMethod::Implode)
        } else if c == 8 {
            Some(CompressionMethod::Deflate)
        } else if c == 9 {
            Some(CompressionMethod::Deflate64)
        } else if c == 12 {
            Some(CompressionMethod::BZIP2)
        } else if c == 14 {
            Some(CompressionMethod::LZMA)
        } else if c == 95 {
            Some(CompressionMethod::XZ)
        } else if c == 96 {
            Some(CompressionMethod::JPEG)
        } else if c == 97 {
            Some(CompressionMethod::WavPack)
        } else if c == 98 {
            Some(CompressionMethod::PPMd)
        } else if c == 99 {
            Some(CompressionMethod::AES)
        } else {
            None
        }
    }
}

/// A directory entry's name ends with `/`.
pub open spec fn is_dir_name(n: Seq<u8>) -> bool {
    n.len() > 0 && n.last() == 47u8
}

/// An entry name as raw bytes.
#[derive(Debug, Clone)]
pub struct Name {
    pub inner: Vec<u8>,
}

impl View for Name {
    type V = Seq<u8>;

    open spec fn view(&self) -> Seq<u8> {
        self.inner@
    }
}

impl From<&str> for Name {
    fn from(value: &str) -> (r: Name)
        ensures
            r@ == value.spec_bytes(),
    {
        let b = value.as_bytes();
        Name { inner: copy_range(b, 0, b.len()) }
    }
}

impl From<String> for Name {
    fn from(value: String) -> (r: Name)
        ensures
            r@ == vstd::utf8::encode_utf8(value@),
    {
        let b = value.as_str().as_bytes();
        Name { inner: copy_range(b, 0, b.len()) }
    }
}

impl vstd::std_specs::convert::FromSpecImpl<String> for Name {
    open spec fn obeys_from_spec() -> bool {
        false
    }

    open spec fn from_spec(v: String) -> Name {
        arbitrary()
    }
}

impl vstd::std_specs::convert::FromSpecImpl<&str> for Name {
    open spec fn obeys_from_spec() -> bool {
        false
    }

    open spec fn from_spec(v: &str) -> Name {
        arbitrary()
    }
}

impl Name {
    /// The name as text; an error carrying `pos` when it is not UTF-8.
    pub fn into_string(self, pos: u64) -> (r: Result<String, ZipError>)
        ensures
            match r {
                Ok(s) => valid_utf8(self@) && s@ == decode_utf8(self@),
                Err(e) => !valid_utf8(self@) && e == ZipError::NameNotUtf8 { pos },
            },
    {
        match utf8_string(self.inner) {
            Some(s) => Ok(s),
            None => Err(ZipError::NameNotUtf8 { pos }),
        }
    }

    pub fn is_dir(&self) -> (r: bool)
        ensures
            r == is_dir_name(self@),
    {
        self.inner.len() > 0 && self.inner[self.inner.len() - 1] == 47u8
    }
}

/// A one-byte boolean as the snapshot form stores it.
#[derive(Debug, Clone, Copy, PartialEq, Eq, Structural)]
pub struct Bool {
    pub value: bool,
}

impl Default for Bool {
    fn default() -> (r: Bool)
        ensures
            r.value,
    {
        Bool { value: true }
    }
}

impl From<bool> for Bool {
    fn from(value: bool) -> (r: Bool)
        ensures
            r.value == value,
    {
        Bool { value }
    }
}

impl vstd::std_specs::convert::FromSpecImpl<bool> for Bool {
    open spec fn obeys_from_spec() -> bool {
        true
    }

    open spec fn from_spec(v: bool) -> Bool {
        Bool { value: v }
    }
}

pub const CDE_SIGNATURE: u32 = 0x02014b50;

pub const DIR_ATTRIBUTES: u32 = 0x41ED0010;

pub const FILE_ATTRIBUTES: u32 = 0x81A40000;

/// One archive member: its central-directory record, its local header and its payload.
#[derive(Debug)]
pub struct Directory {
    pub created_zip_spec: u8,
    pub created_os: u8,
    pub extract_zip_spec: u8,
    pub extract_os: u8,
    pub compression_method: CompressionMethod,
    /// Whether `data` holds the DEFLATE stream rather than the plain bytes.
    pub compressed: Bool,
    pub last_modification_time: u16,
    pub last_modification_date: u16,
    pub crc_32_uncompressed_data: u32,
    pub compressed_size: u32,
    pub uncompressed_size: u32,
    pub number_of_starts: u16,
    pub internal_file_attributes: u16,
    pub offset_of_local_file_header: u32,
    pub file_name: Name,
    pub extra_fields: ExtraList,
    pub file_comment: Vec<u8>,
    pub file: ZipFile,
    pub data: Vec<u8>,
}

/// The mathematical content of an entry.
pub struct DirectoryView {
    pub created_zip_spec: u8,
    pub created_os: u8,
    pub extract_zip_spec: u8,
    pub extract_os: u8,
    pub compression_method: CompressionMethod,
    pub compressed: bool,
    pub last_modification_time: u16,
    pub last_modification_date: u16,
    pub crc_32_uncompressed_data: u32,
    pub compressed_size: u32,
    pub uncompressed_size: u32,
    pub number_of_starts: u16,
    pub internal_file_attributes: u16,
    pub offset_of_local_file_header: u32,
    pub file_name: Seq<u8>,
    pub extra_fields: Seq<Extra>,
    pub file_comment: Seq<u8>,
    pub file: ZipFileView,
    pub data: Seq<u8>,
}

impl View for Directory {
    type V = DirectoryView;

    open spec fn view(&self) -> DirectoryView {
        DirectoryView {
            created_zip_spec: self.created_zip_spec,
            created_os: self.created_os,
            extract_zip_spec: self.extract_zip_spec,
            extract_os: self.extract_os,
            compression_method: self.compression_method,
            compressed: self.compressed.value,
            last_modification_time: self.last_modification_time,
            last_modification_date: self.last_modification_date,
            crc_32_uncompressed_data: self.crc_32_uncompressed_data,
            compressed_size: self.compressed_size,
            uncompressed_size: self.uncompressed_size,
            number_of_starts: self.number_of_starts,
            internal_file_attributes: self.internal_file_attributes,
            offset_of_local_file_header: self.offset_of_local_file_header,
            file_name: self.file_name@,
            extra_fields: self.extra_fields@,
            file_comment: self.file_comment@,
            file: self.file@,
            data: self.data@,
        }
    }
}

/// The external attributes written for an entry, derived from its name.
pub open spec fn external_attributes(name: Seq<u8>) -> u32 {
    if is_dir_name(name) {
        DIR_ATTRIBUTES
    } else {
        FILE_ATTRIBUTES
    }
}

/// The fixed part of a central-directory record, up to and including the local-header offset.
#[verifier::opaque]
pub open spec fn cde_fixed_bytes(d: DirectoryView, model: ZipModel) -> Seq<u8> {
    let dir = is_dir_name(d.file_name);
    le32(CDE_SIGNATURE) + seq![d.created_zip_spec, d.created_os] + seq![d.extract_zip_spec, d.extract_os]
        + le16(0) + le16(
        method_code(emitted_method(d.compression_method, model, d.uncompressed_size)),
    ) + (if model == ZipModel::Bin {
        seq![if d.compressed { 1u8 } else { 0u8 }]
    } else {
        Seq::empty()
    }) + le16(d.last_modification_time) + le16(d.last_modification_date) + le32(
        emitted_size(d.crc_32_uncompressed_data, model, dir),
    ) + le32(emitted_size(d.compressed_size, model, dir || d.uncompressed_size == 0)) + le32(
        emitted_size(d.uncompressed_size, model, dir),
    ) + le16(d.file_name.len() as u16) + le16(extras_bytes(d.extra_fields).len() as u16) + le16(
        d.file_comment.len() as u16,
    ) + le16(d.number_of_starts) + le16(d.internal_file_attributes) + le32(
        external_attributes(d.file_name),
    ) + le32(d.offset_of_local_file_header)
}

/// The on-wire form of an entry: the directory record, and in the snapshot form also the
/// local header and the payload.
#[verifier::opaque]
pub open spec fn cde_bytes(d: DirectoryView, model: ZipModel) -> Seq<u8> {
    cde_fixed_bytes(d, model) + d.file_name + extras_bytes(d.extra_fields) + d.file_comment + (
    if model == ZipModel::Bin {
        lfh_bytes(d.file, model, d.uncompressed_size) + if is_dir_name(d.file_name) {
            Seq::empty()
        } else {
            d.data
        }
    } else {
        Seq::empty()
    })
}

/// In the archive form, a directory entry's record carries zero CRC and sizes and the directory
/// attributes, whatever values the entry holds.
#[verifier::rlimit(60)]
pub proof fn lemma_directory_emit(d: DirectoryView)
    requires
        is_dir_name(d.file_name),
    ensures
        ({
            let b = cde_bytes(d, ZipModel::Package);
            &&& u32_at(b, 16) == 0
            &&& u32_at(b, 20) == 0
            &&& u32_at(b, 24) == 0
            &&& u32_at(b, 38) == DIR_ATTRIBUTES
        }),
{
    reveal(cde_bytes);
    reveal(cde_fixed_bytes);
    let f = cde_fixed_bytes(d, ZipModel::Package);
    let b = cde_bytes(d, ZipModel::Package);
    assert(f.len() == 46);
    assert(b.subrange(0, 46) =~= f);
    assert(b.subrange(16, 20) =~= le32(0));
    assert(b.subrange(20, 24) =~= le32(0));
    assert(b.subrange(24, 28) =~= le32(0));
    assert(b.subrange(38, 42) =~= le32(DIR_ATTRIBUTES));
    lemma_le32(b, 16, 0);
    lemma_le32(b, 20, 0);
    lemma_le32(b, 24, 0);
    lemma_le32(b, 38, DIR_ATTRIBUTES);
}

/// In the archive form, an entry that declares no uncompressed bytes is written as `Store` with
/// zero sizes, whatever method and compressed size it holds.
#[verifier::rlimit(60)]
pub proof fn lemma_empty_emit(d: DirectoryView)
    requires
        d.uncompressed_size == 0,
    ensures
        ({
            let b = cde_bytes(d, ZipModel::Package);
            &&& u16_at(b, 10) == 0
            &&& u32_at(b, 20) == 0
            &&& u32_at(b, 24) == 0
        }),
{
    reveal(cde_bytes);
    reveal(cde_fixed_bytes);
    let f = cde_fixed_bytes(d, ZipModel::Package);
    let b = cde_bytes(d, ZipModel::Package);
    assert(f.len() == 46);
    assert(b.subrange(0, 46) =~= f);
    assert(b.subrange(10, 12) =~= le16(0));
    assert(b.subrange(20, 24) =~= le32(0));
    assert(b.subrange(24, 28) =~= le32(0));
    lemma_le16(b, 10, 0);
    lemma_le32(b, 20, 0);
    lemma_le32(b, 24, 0);
}

/// Reads an entry at `p`: the entry and the position after its record.  In the archive form
/// the local header is found at `base` plus the record's offset (`base` is where the archive
/// starts within `b`) and the payload through the header's payload position; in the snapshot
/// form both follow inline.
#[verifier::opaque]
pub open spec fn parse_cde(b: Seq<u8>, p: int, model: ZipModel, base: int) -> Result<(DirectoryView, int), ZipError> {
    let k: int = if model == ZipModel::Bin { 1 } else { 0 };
    if p < 0 || p + 4 > b.len() {
        Err(ZipError::Io { pos: p as u64 })
    } else if u32_at(b, p) != CDE_SIGNATURE {
        Err(ZipError::BadMagic { pos: p as u64, reason: BadMagicReason::Signature })
    } else if p + 46 + k > b.len() {
        Err(ZipError::Io { pos: p as u64 })
    } else if method_of_code(u16_at(b, p + 10)) is None {
        Err(ZipError::BadMagic { pos: (p + 10) as u64, reason: BadMagicReason::CompressionMethod })
    } else {
        let m = method_of_code(u16_at(b, p + 10)).unwrap();
        let nlen = u16_at(b, p + 28 + k) as int;
        let elen = u16_at(b, p + 30 + k);
        let clen = u16_at(b, p + 32 + k) as int;
        let csize = u32_at(b, p + 20 + k);
        let usize = u32_at(b, p + 24 + k);
        let name = b.subrange(p + 46 + k, p + 46 + k + nlen);
        if p + 46 + k + nlen > b.len() {
            Err(ZipError::Io { pos: p as u64 })
        } else {
            match parse_extra_list(b, p + 46 + k + nlen, elen) {
                Err(e) => Err(e),
                Ok((extras, q)) => if q + clen > b.len() {
                    Err(ZipError::Io { pos: p as u64 })
                } else {
                    let q2 = q + clen;
                    let lfh_pos = if model == ZipModel::Bin {
                        q2
                    } else {
                        base + u32_at(b, p + 42 + k)
                    };
                    if lfh_pos > b.len() {
                        Err(ZipError::Io { pos: p as u64 })
                    } else {
                    match parse_lfh(b, lfh_pos, model, usize) {
                        Err(e) => Err(e),
                        Ok((f, q3)) => {
                            let dir = is_dir_name(name);
                            let dpos = if model == ZipModel::Bin {
                                q3
                            } else {
                                f.data_position as int
                            };
                            if !dir && dpos + csize > b.len() {
                                Err(ZipError::Io { pos: p as u64 })
                            } else {
                                Ok(
                                    (
                                        DirectoryView {
                                            created_zip_spec: b[p + 4],
                                            created_os: b[p + 5],
                                            extract_zip_spec: b[p + 6],
                                            extract_os: b[p + 7],
                                            compression_method: m,
                                            compressed: if model == ZipModel::Bin {
                                                b[p + 12] != 0
                                            } else {
                                                m == CompressionMethod::Deflate
                                            },
                                            last_modification_time: u16_at(b, p + 12 + k),
                                            last_modification_date: u16_at(b, p + 14 + k),
                                            crc_32_uncompressed_data: u32_at(b, p + 16 + k),
                                            compressed_size: csize,
                                            uncompressed_size: usize,
                                            number_of_starts: u16_at(b, p + 34 + k),
                                            internal_file_attributes: u16_at(b, p + 36 + k),
                                            offset_of_local_file_header: u32_at(b, p + 42 + k),
                                            file_name: name,
                                            extra_fields: extras,
                                            file_comment: b.subrange(q, q2),
                                            file: f,
                                            data: if dir {
                                                Seq::empty()
                                            } else {
                                                b.subrange(dpos, dpos + csize)
                                            },
                                        },
                                        if model != ZipModel::Bin {
                                            q2
                                        } else if dir {
                                            q3
                                        } else {
                                            q3 + csize
                                        },
                                    ),
                                )
                            }
                        },
                    }
                    }
                },
            }
        }
    }
}

impl Directory {
    /// Appends the entry's on-wire form for `model`.
    #[verifier::rlimit(60)]
    pub fn write(&self, out: &mut Vec<u8>, model: ZipModel)
        ensures
            final(out)@ == old(out)@ + cde_bytes(self@, model),
    {
        reveal(cde_bytes);
        reveal(cde_fixed_bytes);
        let dir = self.is_dir();
        let norm = model != ZipModel::Bin;
        let mut v: Vec<u8> = Vec::new();
        write_u32(&mut v, CDE_SIGNATURE);
        assert(v@ =~= le32(CDE_SIGNATURE));
        write_pair(&mut v, self.created_zip_spec, self.created_os);
        write_pair(&mut v, self.extract_zip_spec, self.extract_os);
        write_u16(&mut v, 0);
        let method = if norm && self.uncompressed_size == 0 {
            CompressionMethod::Store
        } else {
            self.compression_method
        };
        write_u16(&mut v, method.code());
        if model == ZipModel::Bin {
            write_u8(&mut v, if self.compressed.value { 1 } else { 0 });
        } else {
            assert(v@ + Seq::<u8>::empty() =~= v@);
        }
        write_u16(&mut v, self.last_modification_time);
        write_u16(&mut v, self.last_modification_date);
        write_u32(&mut v, if norm && dir { 0 } else { self.crc_32_uncompressed_data });
        write_u32(&mut v, if norm && (dir || self.uncompressed_size == 0) { 0 } else { self.compressed_size });
        write_u32(&mut v, if norm && dir { 0 } else { self.uncompressed_size });
        write_u16(&mut v, self.file_name.inner.len() as u16);
        write_u16(&mut v, self.extra_fields.bytes());
        write_u16(&mut v, self.file_comment.len() as u16);
        write_u16(&mut v, self.number_of_starts);
        write_u16(&mut v, self.internal_file_attributes);
        write_u32(&mut v, if dir { DIR_ATTRIBUTES } else { FILE_ATTRIBUTES });
        write_u32(&mut v, self.offset_of_local_file_header);
        assert(v@ == cde_fixed_bytes(self@, model));
        write_bytes(&mut v, self.file_name.inner.as_slice());
        self.extra_fields.write(&mut v);
        write_bytes(&mut v, self.file_comment.as_slice());
        zip_file_writer(&self.file, &mut v, model, self.uncompressed_size);
        data_write(&self.data, &mut v, model, dir);
        assert(v@ =~= cde_bytes(self@, model));
        write_bytes(out, v.as_slice());
    }

    /// Reads an entry at `p` in the form `model`.
    #[verifier::rlimit(60)]
    pub fn parse(b: &[u8], p: usize, model: ZipModel, base: usize) -> (r: Result<(Directory, usize), ZipError>)
        ensures
            match r {
                Ok((d, q)) => parse_cde(b@, p as int, model, base as int) == Ok::<(DirectoryView, int), ZipError>(
                    (d@, q as int),
                ),
                Err(x) => parse_cde(b@, p as int, model, base as int) == Err::<(DirectoryView, int), ZipError>(
                    x,
                ),
            },
    {
        reveal(parse_cde);
        let n: usize = b.len();
        let k: usize = if model == ZipModel::Bin { 1 } else { 0 };
        if p > n || n - p < 4 {
            return Err(ZipError::Io { pos: p as u64 });
        }
        if read_u32(b, p) != CDE_SIGNATURE {
            return Err(ZipError::BadMagic { pos: p as u64, reason: BadMagicReason::Signature });
        }
        if n - p < 46 + k {
            return Err(ZipError::Io { pos: p as u64 });
        }
        let m = match CompressionMethod::from_code(read_u16(b, p + 10)) {
            Some(m) => m,
            None => {
                return Err(
                    ZipError::BadMagic {
                        pos: (p + 10) as u64,
                        reason: BadMagicReason::CompressionMethod,
                    },
                );
            },
        };
        let compressed = compressed_parse(b, p + 12, model, m);
        let nlen = read_u16(b, p + 28 + k) as usize;
        let elen = read_u16(b, p + 30 + k);
        let clen = read_u16(b, p + 32 + k) as usize;
        let csize = read_u32(b, p + 20 + k);
        let usize = read_u32(b, p + 24 + k);
        let lfh_offset = read_u32(b, p + 42 + k);
        if n - p - 46 - k < nlen {
            return Err(ZipError::Io { pos: p as u64 });
        }
        let file_name = Name { inner: copy_range(b, p + 46 + k, nlen) };
        let (extra_fields, q) = match ExtraList::parse(b, p + 46 + k + nlen, elen) {
            Ok(v) => v,
            Err(e) => {
                return Err(e);
            },
        };
        proof {
            crate::extra::lemma_parse_extra_list_bounds(b@, (p + 46 + k + nlen) as int, elen);
        }
        if n - q < clen {
            return Err(ZipError::Io { pos: p as u64 });
        }
        let file_comment = copy_range(b, q, clen);
        let q2 = q + clen;
        if model != ZipModel::Bin && (base > n || lfh_offset as usize > n - base) {
            return Err(ZipError::Io { pos: p as u64 });
        }
        let (file, q3) = match zip_file_parse(b, q2, model, base, lfh_offset, usize) {
            Ok(v) => v,
            Err(e) => {
                return Err(e);
            },
        };
        let dir = file_name.is_dir();
        let (data, end) = match data_parse(b, model, !dir, if model == ZipModel::Bin {
            q3 as u64
        } else {
            file.data_position
        }, csize) {
            Some(v) => v,
            None => {
                return Err(ZipError::Io { pos: p as u64 });
            },
        };
        let d = Directory {
            created_zip_spec: b[p + 4],
            created_os: b[p + 5],
            extract_zip_spec: b[p + 6],
            extract_os: b[p + 7],
            compression_method: m,
            compressed,
            last_modification_time: read_u16(b, p + 12 + k),
            last_modification_date: read_u16(b, p + 14 + k),
            crc_32_uncompressed_data: read_u32(b, p + 16 + k),
            compressed_size: csize,
            uncompressed_size: usize,
            number_of_starts: read_u16(b, p + 34 + k),
            internal_file_attributes: read_u16(b, p + 36 + k),
            offset_of_local_file_header: lfh_offset,
            file_name,
            extra_fields,
            file_comment,
            file,
            data,
        };
        let next = if model != ZipModel::Bin {
            q2
        } else if dir {
            q3
        } else {
            end
        };
        Ok((d, next))
    }

    pub fn is_dir(&self) -> (r: bool)
        ensures
            r == is_dir_name(self.file_name@),
    {
        self.file_name.is_dir()
    }

    pub fn is_file(name: &Name) -> (r: bool)
        ensures
            r == !is_dir_name(name@),
    {
        !name.is_dir()
    }
}

/// Whether the payload is held compressed: stored as a byte at `p` in the snapshot form,
/// else derived from the method.
pub fn compressed_parse(b: &[u8], p: usize, model: ZipModel, compression_method: CompressionMethod) -> (r: Bool)
    requires
        model == ZipModel::Bin ==> p < b@.len(),
    ensures
        r.value == if model == ZipModel::Bin {
            b@[p as int] != 0
        } else {
            compression_method == CompressionMethod::Deflate
        },
{
    if model == ZipModel::Bin {
        return Bool { value: b[p] != 0 };
    }
    Bool { value: compression_method == CompressionMethod::Deflate }
}

/// The local header of an entry: inline at `q` in the snapshot form, else at `base` plus
/// `offset_of_local_file_header`; with the position after it.
pub fn zip_file_parse(b: &[u8], q: usize, model: ZipModel, base: usize, offset_of_local_file_header: u32, uncompressed_size: u32) -> (r: Result<(ZipFile, usize), ZipError>)
    requires
        model != ZipModel::Bin ==> base + offset_of_local_file_header <= b@.len(),
    ensures
        ({
            let at: int = if model == ZipModel::Bin { q as int } else { base + offset_of_local_file_header };
            match r {
                Ok((f, e)) => parse_lfh(b@, at, model, uncompressed_size) == Ok::<(ZipFileView, int), ZipError>((f@, e as int)),
                Err(x) => parse_lfh(b@, at, model, uncompressed_size) == Err::<(ZipFileView, int), ZipError>(x),
            }
        }),
{
    let n: usize = b.len();
    let at: usize = if model == ZipModel::Bin { q } else { base + offset_of_local_file_header as usize };
    ZipFile::parse(b, at, model, uncompressed_size)
}

/// Writes the local header inline; only the snapshot form does.
pub fn zip_file_writer(value: &ZipFile, out: &mut Vec<u8>, model: ZipModel, uncompressed_size: u32)
    ensures
        final(out)@ == old(out)@ + if model == ZipModel::Bin {
            lfh_bytes(value@, model, uncompressed_size)
        } else {
            Seq::empty()
        },
{
    if model == ZipModel::Bin {
        value.write(out, model, uncompressed_size);
    } else {
        assert(old(out)@ + Seq::<u8>::empty() =~= old(out)@);
    }
}

/// The payload of a file entry: `compressed_size` bytes at `data_position`, with the position
/// after them; a directory has none.  `None` when the input is too short.
pub fn data_parse(b: &[u8], model: ZipModel, is_file: bool, data_position: u64, compressed_size: u32) -> (r: Option<(Vec<u8>, usize)>)
    ensures
        !is_file ==> (r matches Some((d, _)) && d@ == Seq::<u8>::empty()),
        is_file ==> match r {
            Some((d, e)) => data_position + compressed_size <= b@.len() && d@ == b@.subrange(
                data_position as int,
                data_position + compressed_size,
            ) && e == data_position + compressed_size,
            None => data_position + compressed_size > b@.len(),
        },
{
    let n: usize = b.len();
    if !is_file {
        let none: Vec<u8> = Vec::new();
        assert(none@ =~= Seq::<u8>::empty());
        return Some((none, 0));
    }
    if data_position > n as u64 || (n - data_position as usize) < compressed_size as usize {
        return None;
    }
    let at = data_position as usize;
    Some((copy_range(b, at, compressed_size as usize), at + compressed_size as usize))
}

/// Writes the payload inline; only the snapshot form does, and only for a file.
pub fn data_write(value: &Vec<u8>, out: &mut Vec<u8>, model: ZipModel, is_dir: bool)
    ensures
        final(out)@ == old(out)@ + if model == ZipModel::Bin && !is_dir {
            value@
        } else {
            Seq::empty()
        },
{
    if model == ZipModel::Bin && !is_dir {
        write_bytes(out, value.as_slice());
    } else {
        assert(old(out)@ + Seq::<u8>::empty() =~= old(out)@);
    }
}

/// The byte counts that the steps of compressions and decompressions reported, in order.
pub struct ByteProgress {
    pub reports: Vec<usize>,
}

impl ByteProgress {
    pub fn new() -> (r: ByteProgress)
        ensures
            r.reports@ == Seq::<usize>::empty(),
    {
        ByteProgress { reports: Vec::new() }
    }
}

/// An entry after a successful `decompressed` that inflated its payload to `u`: the payload
/// is `u`, held uncompressed, and the compressed size is its length.
pub open spec fn decompressed_view(d: DirectoryView, u: Seq<u8>) -> DirectoryView {
    DirectoryView {
        compressed: false,
        compressed_size: u.len() as u32,
        file: ZipFileView { compressed_size: u.len() as u32, ..d.file },
        data: u,
        ..d
    }
}

/// What `decompressed` does: nothing to an uncompressed entry; an empty compressed payload
/// becomes an empty plain one; otherwise the payload is inflated, or `None` when it cannot be.
pub open spec fn spec_decompress(d: DirectoryView) -> Option<DirectoryView> {
    if !d.compressed {
        Some(d)
    } else if d.data.len() == 0 {
        Some(decompressed_view(d, Seq::empty()))
    } else {
        match inflate_of(d.data) {
            Some(u) => Some(decompressed_view(d, u)),
            None => None,
        }
    }
}

/// An entry after `put_data` with `stream`.
pub open spec fn put_data_view(d: DirectoryView, stream: Seq<u8>) -> DirectoryView {
    DirectoryView {
        compressed: false,
        compressed_size: stream.len() as u32,
        uncompressed_size: stream.len() as u32,
        file: ZipFileView {
            compressed_size: stream.len() as u32,
            uncompressed_size: stream.len() as u32,
            ..d.file
        },
        data: stream,
        ..d
    }
}

/// Decompressing what compressing a non-empty payload produced (held compressed, not empty,
/// inflating to the payload) gives back that payload, held uncompressed.
pub proof fn lemma_compress_then_decompress(before: DirectoryView, after: DirectoryView)
    requires
        after.compressed,
        after.data.len() > 0,
        inflate_of(after.data) == Some(before.data),
    ensures
        spec_decompress(after) matches Some(v) && v.data == before.data && !v.compressed,
{
}

/// An entry after `compress`: an uncompressed Deflate entry gets its CRC (zero when CRC is off
/// or the payload empty), both sizes
/// and the DEFLATE form of its payload; any other entry is left as it is.
#[verifier::opaque]
pub open spec fn spec_compress(d: DirectoryView, crc32_computer: bool, level: u8) -> DirectoryView {
    if !d.compressed && d.compression_method == CompressionMethod::Deflate {
        let u = d.data;
        let c = if u.len() > 0 {
            deflate_of(u, level)
        } else {
            Seq::empty()
        };
        let crc: u32 = if crc32_computer && u.len() > 0 {
            crc32_of(u)
        } else {
            0
        };
        DirectoryView {
            compressed: true,
            crc_32_uncompressed_data: crc,
            compressed_size: c.len() as u32,
            uncompressed_size: u.len() as u32,
            file: ZipFileView {
                crc_32_uncompressed_data: crc,
                compressed_size: c.len() as u32,
                uncompressed_size: u.len() as u32,
                ..d.file
            },
            data: c,
            ..d
        }
    } else {
        d
    }
}

pub fn clone_bytes(v: &Vec<u8>) -> (r: Vec<u8>)
    ensures
        r@ == v@,
{
    let r = copy_range(v.as_slice(), 0, v.len());
    assert(r@ =~= v@);
    r
}

impl Name {
    pub fn duplicate(&self) -> (r: Name)
        ensures
            r@ == self@,
    {
        Name { inner: clone_bytes(&self.inner) }
    }
}

impl ExtraList {
    pub fn duplicate(&self) -> (r: ExtraList)
        ensures
            r@ == self@,
    {
        let mut v: Vec<Extra> = Vec::new();
        let mut i: usize = 0;
        while i < self.0.len()
            invariant
                i <= self@.len(),
                v@ == self@.subrange(0, i as int),
            decreases self@.len() - i,
        {
            v.push(self.0[i]);
            i += 1;
            assert(v@ =~= self@.subrange(0, i as int));
        }
        assert(v@ =~= self@);
        ExtraList(v)
    }
}

impl ZipFile {
    pub fn duplicate(&self) -> (r: ZipFile)
        ensures
            r@ == self@,
    {
        ZipFile {
            extract_os: self.extract_os,
            compression_method: self.compression_method,
            last_modification_time: self.last_modification_time,
            last_modification_date: self.last_modification_date,
            crc_32_uncompressed_data: self.crc_32_uncompressed_data,
            compressed_size: self.compressed_size,
            uncompressed_size: self.uncompressed_size,
            file_name: self.file_name.duplicate(),
            extra_fields: self.extra_fields.duplicate(),
            data_position: self.data_position,
        }
    }
}

impl Directory {
    /// A deep copy of the entry, payload included.
    pub fn try_clone(&self) -> (r: Directory)
        ensures
            r@ == self@,
    {
        Directory {
            created_zip_spec: self.created_zip_spec,
            created_os: self.created_os,
            extract_zip_spec: self.extract_zip_spec,
            extract_os: self.extract_os,
            compression_method: self.compression_method,
            compressed: self.compressed,
            last_modification_time: self.last_modification_time,
            last_modification_date: self.last_modification_date,
            crc_32_uncompressed_data: self.crc_32_uncompressed_data,
            compressed_size: self.compressed_size,
            uncompressed_size: self.uncompressed_size,
            number_of_starts: self.number_of_starts,
            internal_file_attributes: self.internal_file_attributes,
            offset_of_local_file_header: self.offset_of_local_file_header,
            file_name: self.file_name.duplicate(),
            extra_fields: self.extra_fields.duplicate(),
            file_comment: clone_bytes(&self.file_comment),
            file: self.file.duplicate(),
            data: clone_bytes(&self.data),
        }
    }

    /// The payload as currently held (compressed or not, see `compressed`).
    pub fn data(&self) -> (r: &[u8])
        ensures
            r@ == self.data@,
    {
        self.data.as_slice()
    }

    /// Mutable access to the payload; everything else in the entry stays as it was.
    pub fn data_mut(&mut self) -> (r: &mut Vec<u8>)
        ensures
            *r == old(self).data,
            final(self)@ == (DirectoryView { data: final(r)@, ..old(self)@ }),
    {
        &mut self.data
    }

    pub fn compressed(&self) -> (r: bool)
        ensures
            r == self.compressed.value,
    {
        self.compressed.value
    }

    /// Inflates a compressed payload in place; `callback_fun` records the inflated length when
    /// there was a stream to inflate.
    pub fn decompressed_callback(&mut self, callback_fun: &mut ByteProgress) -> (r: Result<(), ZipError>)
        ensures
            match spec_decompress(old(self)@) {
                Some(v) => r is Ok && final(self)@ == v,
                None => r == Err::<(), ZipError>(ZipError::Decode { pos: 0 }) && final(self)@
                    == old(self)@,
            },
            final(callback_fun).reports@ == if old(self).compressed.value && old(self).data@.len()
                > 0 && r is Ok {
                old(callback_fun).reports@.push(final(self).data@.len() as usize)
            } else {
                old(callback_fun).reports@
            },
    {
        if self.compressed.value {
            if self.data.len() == 0 {
                assert(self.data@ =~= Seq::<u8>::empty());
                self.compressed = Bool { value: false };
                self.compressed_size = 0;
                self.file.compressed_size = 0;
                return Ok(());
            }
            match inflate(self.data.as_slice()) {
                Some(u) => {
                    callback_fun.reports.push(u.len());
                    self.compressed_size = u.len() as u32;
                    self.file.compressed_size = u.len() as u32;
                    self.data = u;
                    self.compressed = Bool { value: false };
                },
                None => {
                    return Err(ZipError::Decode { pos: 0 });
                },
            }
        }
        Ok(())
    }

    pub fn decompressed(&mut self) -> (r: Result<(), ZipError>)
        ensures
            match spec_decompress(old(self)@) {
                Some(v) => r is Ok && final(self)@ == v,
                None => r == Err::<(), ZipError>(ZipError::Decode { pos: 0 }) && final(self)@
                    == old(self)@,
            },
    {
        let mut quiet = ByteProgress::new();
        self.decompressed_callback(&mut quiet)
    }

    /// A copy of the payload bytes.
    pub fn copy_data(&self) -> (r: Vec<u8>)
        ensures
            r@ == self.data@,
    {
        clone_bytes(&self.data)
    }

    /// The SHA-1 and SHA-256 digests of the payload as currently held.
    pub fn sha_value(&self) -> (r: (Vec<u8>, Vec<u8>))
        ensures
            r.0@ == sha1_of(self.data@),
            r.1@ == sha256_of(self.data@),
            r.0@.len() == 20,
            r.1@.len() == 32,
    {
        (sha1(self.data.as_slice()), sha256(self.data.as_slice()))
    }

    /// Compresses an uncompressed Deflate entry with DEFLATE at `compression_level`, setting its
    /// CRC (zero unless `crc32_computer`, and zero for an empty payload) and sizes in both
    /// headers; `callback_fun` records the compressed length when a non-empty payload was
    /// compressed, and nothing otherwise.
    pub fn compress_callback(
        &mut self,
        crc32_computer: bool,
        compression_level: u8,
        callback_fun: &mut ByteProgress,
    )
        ensures
            final(self)@ == spec_compress(old(self)@, crc32_computer, compression_level),
            final(self).file_name@ == old(self).file_name@,
            final(self).compression_method == old(self).compression_method,
            !old(self).compressed.value && old(self).compression_method
                == CompressionMethod::Deflate ==> {
                &&& final(self).compressed.value
                &&& final(self).compressed_size == final(self).data@.len() as u32
                &&& final(self).uncompressed_size == old(self).data@.len() as u32
                &&& final(self).file.compressed_size == final(self).compressed_size
                &&& final(self).file.uncompressed_size == final(self).uncompressed_size
                &&& final(self).file.crc_32_uncompressed_data == final(self).crc_32_uncompressed_data
                &&& crc32_computer && old(self).data@.len() > 0
                    ==> final(self).crc_32_uncompressed_data == crc32_of(old(self).data@)
                &&& !crc32_computer ==> final(self).crc_32_uncompressed_data == 0
                &&& old(self).data@.len() == 0 ==> final(self).crc_32_uncompressed_data == 0
                    && final(self).compressed_size == 0 && final(self).uncompressed_size == 0
                    && final(self).data@.len() == 0
                &&& old(self).data@.len() > 0 ==> inflate_of(final(self).data@) == Some(
                    old(self).data@,
                ) && final(self).data@.len() > 0
            },
            (old(self).compressed.value || old(self).compression_method
                != CompressionMethod::Deflate) ==> final(self)@ == old(self)@,
            final(callback_fun).reports@ == if !old(self).compressed.value
                && old(self).compression_method == CompressionMethod::Deflate
                && old(self).data@.len() > 0 {
                old(callback_fun).reports@.push(final(self).data@.len() as usize)
            } else {
                old(callback_fun).reports@
            },
    {
        reveal(spec_compress);
        if !self.compressed.value && self.compression_method == CompressionMethod::Deflate {
            let uncompressed_size = self.data.len();
            let crc = if crc32_computer && uncompressed_size > 0 {
                crc32(self.data.as_slice())
            } else {
                0
            };
            let c = if uncompressed_size > 0 {
                let c = deflate(self.data.as_slice(), compression_level);
                callback_fun.reports.push(c.len());
                c
            } else {
                Vec::new()
            };
            assert(uncompressed_size == 0 ==> c@ =~= Seq::<u8>::empty());
            self.crc_32_uncompressed_data = crc;
            self.file.crc_32_uncompressed_data = crc;
            self.uncompressed_size = uncompressed_size as u32;
            self.file.uncompressed_size = uncompressed_size as u32;
            self.compressed_size = c.len() as u32;
            self.file.compressed_size = c.len() as u32;
            self.data = c;
            self.compressed = Bool { value: true };
        }
    }

    pub fn compress(&mut self, crc32_computer: bool, compression_level: u8)
        ensures
            final(self)@ == spec_compress(old(self)@, crc32_computer, compression_level),
            final(self).file_name@ == old(self).file_name@,
            final(self).compression_method == old(self).compression_method,
            !old(self).compressed.value && old(self).compression_method
                == CompressionMethod::Deflate ==> {
                &&& final(self).compressed.value
                &&& final(self).compressed_size == final(self).data@.len() as u32
                &&& final(self).uncompressed_size == old(self).data@.len() as u32
                &&& final(self).file.compressed_size == final(self).compressed_size
                &&& final(self).file.uncompressed_size == final(self).uncompressed_size
                &&& final(self).file.crc_32_uncompressed_data == final(self).crc_32_uncompressed_data
                &&& crc32_computer && old(self).data@.len() > 0
                    ==> final(self).crc_32_uncompressed_data == crc32_of(old(self).data@)
                &&& !crc32_computer ==> final(self).crc_32_uncompressed_data == 0
                &&& old(self).data@.len() == 0 ==> final(self).crc_32_uncompressed_data == 0
                    && final(self).compressed_size == 0 && final(self).uncompressed_size == 0
                    && final(self).data@.len() == 0
                &&& old(self).data@.len() > 0 ==> inflate_of(final(self).data@) == Some(
                    old(self).data@,
                ) && final(self).data@.len() > 0
            },
            (old(self).compressed.value || old(self).compression_method
                != CompressionMethod::Deflate) ==> final(self)@ == old(self)@,
    {
        let mut quiet = ByteProgress::new();
        self.compress_callback(crc32_computer, compression_level, &mut quiet)
    }

    /// Replaces the payload with uncompressed bytes and records their length as both sizes.
    pub fn put_data(&mut self, stream: Vec<u8>)
        ensures
            final(self)@ == put_data_view(old(self)@, stream@),
    {
        let length = stream.len() as u32;
        self.compressed_size = length;
        self.uncompressed_size = length;
        self.file.compressed_size = length;
        self.file.uncompressed_size = length;
        self.compressed = Bool { value: false };
        self.data = stream;
    }
}

} // verus!
