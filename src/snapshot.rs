use vstd::prelude::*;
use crate::bytes::{le16, le32, le64, lemma_le16, lemma_le32, lemma_le64, u16_at, u32_at, u64_at};
use crate::directory::{
    cde_bytes, cde_fixed_bytes, external_attributes, is_dir_name, lemma_method_code_round_trip,
    method_code, parse_cde, DirectoryView, CDE_SIGNATURE,
};
use crate::file::{lfh_bytes, parse_lfh, ZipFileView, LFH_SIGNATURE};
use crate::zip::{
    bin_bytes, entries_bytes, lemma_find_name, names_unique, parse_archive, parse_entries, upsert,
    FastZipView, ZipModel, BIN_HEADER,
};
use vstd::utf8::valid_utf8;
use crate::extra::{extra_bytes, extras_bytes, opt_bytes, parse_extra, parse_extra_list, parse_extras_from, spec_field_size, Extra};

verus! {

/// `x` stands in `b` at `p`.
pub open spec fn holds_at(b: Seq<u8>, p: int, x: Seq<u8>) -> bool {
    0 <= p && p + x.len() <= b.len() && b.subrange(p, p + x.len()) == x
}

pub proof fn lemma_part(b: Seq<u8>, p: int, x: Seq<u8>, i: int, j: int)
    requires
        holds_at(b, p, x),
        0 <= i <= j <= x.len(),
    ensures
        holds_at(b, p + i, x.subrange(i, j)),
{
    assert(b.subrange(p + i, p + j) =~= x.subrange(i, j)) by {
        assert forall|k: int| 0 <= k < j - i implies b.subrange(p + i, p + j)[k] == x.subrange(i, j)[k] by {
            assert(b.subrange(p, p + x.len())[i + k] == b[p + i + k]);
        }
    }
}

pub proof fn lemma_u16_in(b: Seq<u8>, p: int, x: Seq<u8>, i: int, v: u16)
    requires
        holds_at(b, p, x),
        0 <= i,
        i + 2 <= x.len(),
        x.subrange(i, i + 2) == le16(v),
    ensures
        u16_at(b, p + i) == v,
{
    lemma_part(b, p, x, i, i + 2);
    lemma_le16(b, p + i, v);
}

pub proof fn lemma_u32_in(b: Seq<u8>, p: int, x: Seq<u8>, i: int, v: u32)
    requires
        holds_at(b, p, x),
        0 <= i,
        i + 4 <= x.len(),
        x.subrange(i, i + 4) == le32(v),
    ensures
        u32_at(b, p + i) == v,
{
    lemma_part(b, p, x, i, i + 4);
    lemma_le32(b, p + i, v);
}

proof fn lemma_u64_in(b: Seq<u8>, p: int, x: Seq<u8>, i: int, v: u64)
    requires
        holds_at(b, p, x),
        0 <= i,
        i + 8 <= x.len(),
        x.subrange(i, i + 8) == le64(v),
    ensures
        u64_at(b, p + i) == v,
{
    lemma_part(b, p, x, i, i + 8);
    lemma_le64(b, p + i, v);
}

proof fn lemma_byte_in(b: Seq<u8>, p: int, x: Seq<u8>, i: int)
    requires
        holds_at(b, p, x),
        0 <= i < x.len(),
    ensures
        b[p + i] == x[i],
{
    assert(b.subrange(p, p + x.len())[i] == b[p + i]);
}

/// An extra record that reads back as written: an extended timestamp carries its
/// modification time and no creation time, as the fixed flags 0x03 promise.
pub open spec fn extra_canonical(e: Extra) -> bool {
    match e {
        Extra::UnixExtendedTimestamp { mtime, ctime, .. } => mtime is Some && ctime is None,
        _ => true,
    }
}

proof fn lemma_extra_len(e: Extra)
    ensures
        extra_bytes(e).len() == 4 + spec_field_size(e),
{
    match e {
        Extra::UnixExtendedTimestamp { mtime, atime, ctime } => {
            assert(opt_bytes(mtime).len() == if mtime is Some { 4int } else { 0 });
            assert(opt_bytes(atime).len() == if atime is Some { 4int } else { 0 });
            assert(opt_bytes(ctime).len() == if ctime is Some { 4int } else { 0 });
        },
        _ => {},
    }
}

/// A canonical record reads back as itself, ending where it was written to end.
#[verifier::rlimit(80)]
pub proof fn lemma_extra_round_trip(b: Seq<u8>, p: int, e: Extra)
    requires
        holds_at(b, p, extra_bytes(e)),
        extra_canonical(e),
    ensures
        parse_extra(b, p) == Ok::<(Extra, int), crate::error::ZipError>((e, p + extra_bytes(e).len())),
{
    reveal(parse_extra);
    lemma_extra_len(e);
    let x = extra_bytes(e);
    assert(x.subrange(0, 2) =~= le16(crate::extra::spec_header_id(e)));
    lemma_u16_in(b, p, x, 0, crate::extra::spec_header_id(e));
    assert(x.subrange(2, 4) =~= le16(spec_field_size(e) as u16));
    lemma_u16_in(b, p, x, 2, spec_field_size(e) as u16);
    match e {
        Extra::NTFS { mtime, atime, ctime } => {
            assert(x.subrange(8, 10) =~= le16(1));
            lemma_u16_in(b, p, x, 8, 1);
            assert(x.subrange(10, 12) =~= le16(24));
            lemma_u16_in(b, p, x, 10, 24);
            assert(x.subrange(12, 20) =~= le64(mtime));
            lemma_u64_in(b, p, x, 12, mtime);
            assert(x.subrange(20, 28) =~= le64(atime));
            lemma_u64_in(b, p, x, 20, atime);
            assert(x.subrange(28, 36) =~= le64(ctime));
            lemma_u64_in(b, p, x, 28, ctime);
        },
        Extra::UnixExtendedTimestamp { mtime, atime, ctime } => {
            lemma_byte_in(b, p, x, 4);
            assert(x[4] == 3u8);
            assert(3u8 & 1u8 != 0) by (bit_vector);
            assert(3u8 & 2u8 != 0) by (bit_vector);
            assert(3u8 & 4u8 == 0) by (bit_vector);
            assert(3u8 & 0xf8u8 == 0) by (bit_vector);
            let m = mtime.unwrap();
            assert(x.subrange(5, 9) =~= le32(m as u32));
            lemma_u32_in(b, p, x, 5, m as u32);
            assert((m as u32) as i32 == m) by (bit_vector);
            if let Some(a) = atime {
                assert(x.subrange(9, 13) =~= le32(a as u32));
                lemma_u32_in(b, p, x, 9, a as u32);
                assert((a as u32) as i32 == a) by (bit_vector);
            }
        },
        Extra::UnixAttrs { uid, gid } => {
            assert(x.subrange(6, 10) =~= le32(uid));
            lemma_u32_in(b, p, x, 6, uid);
            assert(x.subrange(11, 15) =~= le32(gid));
            lemma_u32_in(b, p, x, 11, gid);
        },
    }
}

proof fn lemma_extras_cons(x: Extra, rest: Seq<Extra>)
    ensures
        extras_bytes(seq![x] + rest) == extra_bytes(x) + extras_bytes(rest),
    decreases rest.len(),
{
    let s = seq![x] + rest;
    if rest.len() == 0 {
        assert(s.drop_last() =~= Seq::<Extra>::empty());
        assert(extras_bytes(s.drop_last()) == Seq::<u8>::empty());
        assert(extras_bytes(rest) == Seq::<u8>::empty());
        assert(s.last() == x);
        assert(extras_bytes(s) =~= extra_bytes(x) + extras_bytes(rest));
    } else {
        assert(s.drop_last() =~= seq![x] + rest.drop_last());
        lemma_extras_cons(x, rest.drop_last());
        assert(s.last() == rest.last());
        assert(extras_bytes(s) == extras_bytes(s.drop_last()) + extra_bytes(s.last()));
        assert(extras_bytes(rest) == extras_bytes(rest.drop_last()) + extra_bytes(rest.last()));
        assert(extras_bytes(s) =~= extra_bytes(x) + extras_bytes(rest));
    }
}

/// Extra records that read back as written, in a list that fits its 16-bit length field.
pub open spec fn extras_ok(xs: Seq<Extra>) -> bool {
    &&& forall|i: int| 0 <= i < xs.len() ==> extra_canonical(#[trigger] xs[i])
    &&& extras_bytes(xs).len() <= 0xffff
}

proof fn lemma_extras_from(b: Seq<u8>, q: int, xs: Seq<Extra>)
    requires
        holds_at(b, q, extras_bytes(xs)),
        xs.len() > 0,
        forall|i: int| 0 <= i < xs.len() ==> extra_canonical(#[trigger] xs[i]),
    ensures
        parse_extras_from(b, q, q + extras_bytes(xs).len()) == Ok::<(Seq<Extra>, int), crate::error::ZipError>((xs, q + extras_bytes(xs).len())),
    decreases xs.len(),
{
    let x = xs[0];
    let rest = xs.drop_first();
    assert(xs =~= seq![x] + rest);
    lemma_extras_cons(x, rest);
    let target = q + extras_bytes(xs).len();
    lemma_part(b, q, extras_bytes(xs), 0, extra_bytes(x).len() as int);
    assert(extras_bytes(xs).subrange(0, extra_bytes(x).len() as int) =~= extra_bytes(x));
    lemma_extra_round_trip(b, q, x);
    lemma_extra_len(x);
    let q2 = q + extra_bytes(x).len();
    if rest.len() == 0 {
        assert(extras_bytes(rest) =~= Seq::<u8>::empty());
        assert(seq![x] =~= xs);
    } else {
        lemma_part(b, q, extras_bytes(xs), extra_bytes(x).len() as int, extras_bytes(xs).len() as int);
        assert(extras_bytes(xs).subrange(extra_bytes(x).len() as int, extras_bytes(xs).len() as int) =~= extras_bytes(rest));
        assert forall|i: int| 0 <= i < rest.len() implies extra_canonical(#[trigger] rest[i]) by {
            assert(rest[i] == xs[i + 1]);
        }
        lemma_extras_from(b, q2, rest);
        lemma_extras_nonempty(rest);
    }
}

proof fn lemma_extras_nonempty(xs: Seq<Extra>)
    requires
        xs.len() > 0,
    ensures
        extras_bytes(xs).len() > 0,
{
    lemma_extra_len(xs.last());
}

/// A list that reads back as written, ending where it was written to end.
pub proof fn lemma_extra_list_round_trip(b: Seq<u8>, p: int, xs: Seq<Extra>)
    requires
        holds_at(b, p, extras_bytes(xs)),
        extras_ok(xs),
    ensures
        parse_extra_list(b, p, extras_bytes(xs).len() as u16) == Ok::<(Seq<Extra>, int), crate::error::ZipError>((xs, p + extras_bytes(xs).len())),
{
    if xs.len() == 0 {
        assert(extras_bytes(xs).len() == 0);
        assert(xs =~= Seq::<Extra>::empty());
    } else {
        lemma_extras_nonempty(xs);
        lemma_extras_from(b, p, xs);
    }
}

/// A local header whose name and extra fields fit their length fields and read back.
pub open spec fn lfh_ok(f: ZipFileView) -> bool {
    f.file_name.len() <= 0xffff && extras_ok(f.extra_fields)
}

/// In the snapshot form a local header reads back as itself.
#[verifier::rlimit(80)]
pub proof fn lemma_lfh_round_trip(b: Seq<u8>, p: int, f: ZipFileView, u: u32)
    requires
        holds_at(b, p, lfh_bytes(f, ZipModel::Bin, u)),
        lfh_ok(f),
    ensures
        parse_lfh(b, p, ZipModel::Bin, u) == Ok::<(ZipFileView, int), crate::error::ZipError>(
            (f, p + lfh_bytes(f, ZipModel::Bin, u).len()),
        ),
{
    reveal(lfh_bytes);
    reveal(parse_lfh);
    let x = lfh_bytes(f, ZipModel::Bin, u);
    let n = f.file_name.len() as int;
    let xs = f.extra_fields;
    let e = extras_bytes(xs).len() as int;
    assert(x.len() == 38 + n + e);
    assert(x.subrange(0, 4) =~= le32(LFH_SIGNATURE));
    lemma_u32_in(b, p, x, 0, LFH_SIGNATURE);
    lemma_byte_in(b, p, x, 5);
    assert(x.subrange(8, 10) =~= le16(method_code(f.compression_method)));
    lemma_u16_in(b, p, x, 8, method_code(f.compression_method));
    lemma_method_code_round_trip(f.compression_method);
    assert(x.subrange(10, 12) =~= le16(f.last_modification_time));
    lemma_u16_in(b, p, x, 10, f.last_modification_time);
    assert(x.subrange(12, 14) =~= le16(f.last_modification_date));
    lemma_u16_in(b, p, x, 12, f.last_modification_date);
    assert(x.subrange(14, 18) =~= le32(f.crc_32_uncompressed_data));
    lemma_u32_in(b, p, x, 14, f.crc_32_uncompressed_data);
    assert(x.subrange(18, 22) =~= le32(f.compressed_size));
    lemma_u32_in(b, p, x, 18, f.compressed_size);
    assert(x.subrange(22, 26) =~= le32(f.uncompressed_size));
    lemma_u32_in(b, p, x, 22, f.uncompressed_size);
    assert(x.subrange(26, 28) =~= le16(n as u16));
    lemma_u16_in(b, p, x, 26, n as u16);
    assert(x.subrange(28, 30) =~= le16(e as u16));
    lemma_u16_in(b, p, x, 28, e as u16);
    lemma_part(b, p, x, 30, 30 + n);
    assert(x.subrange(30, 30 + n) =~= f.file_name);
    lemma_part(b, p, x, 30 + n, 30 + n + e);
    assert(x.subrange(30 + n, 30 + n + e) =~= extras_bytes(xs));
    lemma_extra_list_round_trip(b, p + 30 + n, xs);
    assert(x.subrange(30 + n + e, 38 + n + e) =~= le64(f.data_position));
    lemma_u64_in(b, p, x, 30 + n + e, f.data_position);
}

/// An entry whose variable parts fit their length fields and read back, and whose payload is
/// as long as its compressed size says (a directory has none).
pub open spec fn entry_ok(d: DirectoryView) -> bool {
    &&& d.file_name.len() <= 0xffff
    &&& extras_ok(d.extra_fields)
    &&& d.file_comment.len() <= 0xffff
    &&& lfh_ok(d.file)
    &&& is_dir_name(d.file_name) ==> d.data.len() == 0
    &&& !is_dir_name(d.file_name) ==> d.data.len() == d.compressed_size
}

proof fn lemma_cde_fixed_len(d: DirectoryView)
    ensures
        cde_fixed_bytes(d, ZipModel::Bin).len() == 47,
{
    reveal(cde_fixed_bytes);
}

#[verifier::rlimit(80)]
proof fn lemma_cde_fixed(b: Seq<u8>, p: int, d: DirectoryView)
    requires
        holds_at(b, p, cde_fixed_bytes(d, ZipModel::Bin)),
    ensures
        u32_at(b, p) == CDE_SIGNATURE,
        b[p + 4] == d.created_zip_spec,
        b[p + 5] == d.created_os,
        b[p + 6] == d.extract_zip_spec,
        b[p + 7] == d.extract_os,
        u16_at(b, p + 10) == method_code(d.compression_method),
        b[p + 12] == if d.compressed { 1u8 } else { 0u8 },
        u16_at(b, p + 13) == d.last_modification_time,
        u16_at(b, p + 15) == d.last_modification_date,
        u32_at(b, p + 17) == d.crc_32_uncompressed_data,
        u32_at(b, p + 21) == d.compressed_size,
        u32_at(b, p + 25) == d.uncompressed_size,
        u16_at(b, p + 29) == d.file_name.len() as u16,
        u16_at(b, p + 31) == extras_bytes(d.extra_fields).len() as u16,
        u16_at(b, p + 33) == d.file_comment.len() as u16,
        u16_at(b, p + 35) == d.number_of_starts,
        u16_at(b, p + 37) == d.internal_file_attributes,
        u32_at(b, p + 43) == d.offset_of_local_file_header,
{
    reveal(cde_fixed_bytes);
    let fx = cde_fixed_bytes(d, ZipModel::Bin);
    let n = d.file_name.len() as int;
    let e = extras_bytes(d.extra_fields).len() as int;
    let c = d.file_comment.len() as int;
    assert(fx.subrange(0, 4) =~= le32(CDE_SIGNATURE));
    lemma_u32_in(b, p, fx, 0, CDE_SIGNATURE);
    lemma_byte_in(b, p, fx, 4);
    lemma_byte_in(b, p, fx, 5);
    lemma_byte_in(b, p, fx, 6);
    lemma_byte_in(b, p, fx, 7);
    assert(fx.subrange(10, 12) =~= le16(method_code(d.compression_method)));
    lemma_u16_in(b, p, fx, 10, method_code(d.compression_method));
    lemma_method_code_round_trip(d.compression_method);
    lemma_byte_in(b, p, fx, 12);
    assert(fx.subrange(13, 15) =~= le16(d.last_modification_time));
    lemma_u16_in(b, p, fx, 13, d.last_modification_time);
    assert(fx.subrange(15, 17) =~= le16(d.last_modification_date));
    lemma_u16_in(b, p, fx, 15, d.last_modification_date);
    assert(fx.subrange(17, 21) =~= le32(d.crc_32_uncompressed_data));
    lemma_u32_in(b, p, fx, 17, d.crc_32_uncompressed_data);
    assert(fx.subrange(21, 25) =~= le32(d.compressed_size));
    lemma_u32_in(b, p, fx, 21, d.compressed_size);
    assert(fx.subrange(25, 29) =~= le32(d.uncompressed_size));
    lemma_u32_in(b, p, fx, 25, d.uncompressed_size);
    assert(fx.subrange(29, 31) =~= le16(n as u16));
    lemma_u16_in(b, p, fx, 29, n as u16);
    assert(fx.subrange(31, 33) =~= le16(e as u16));
    lemma_u16_in(b, p, fx, 31, e as u16);
    assert(fx.subrange(33, 35) =~= le16(c as u16));
    lemma_u16_in(b, p, fx, 33, c as u16);
    assert(fx.subrange(35, 37) =~= le16(d.number_of_starts));
    lemma_u16_in(b, p, fx, 35, d.number_of_starts);
    assert(fx.subrange(37, 39) =~= le16(d.internal_file_attributes));
    lemma_u16_in(b, p, fx, 37, d.internal_file_attributes);
    assert(fx.subrange(43, 47) =~= le32(d.offset_of_local_file_header));
    lemma_u32_in(b, p, fx, 43, d.offset_of_local_file_header);
}

/// In the snapshot form an entry reads back as itself.
#[verifier::rlimit(80)]
pub proof fn lemma_cde_round_trip(b: Seq<u8>, p: int, d: DirectoryView)
    requires
        holds_at(b, p, cde_bytes(d, ZipModel::Bin)),
        entry_ok(d),
    ensures
        parse_cde(b, p, ZipModel::Bin, 0) == Ok::<(DirectoryView, int), crate::error::ZipError>(
            (d, p + cde_bytes(d, ZipModel::Bin).len()),
        ),
{
    reveal(cde_bytes);
    reveal(parse_cde);
    lemma_cde_fixed_len(d);
    let x = cde_bytes(d, ZipModel::Bin);
    let fx = cde_fixed_bytes(d, ZipModel::Bin);
    let n = d.file_name.len() as int;
    let e = extras_bytes(d.extra_fields).len() as int;
    let c = d.file_comment.len() as int;
    let lfh = lfh_bytes(d.file, ZipModel::Bin, d.uncompressed_size);
    let l = lfh.len() as int;
    let dir = is_dir_name(d.file_name);
    assert(x.subrange(0, 47) =~= fx);
    lemma_part(b, p, x, 0, 47);
    lemma_method_code_round_trip(d.compression_method);
    lemma_cde_fixed(b, p, d);
    lemma_part(b, p, x, 47, 47 + n);
    assert(x.subrange(47, 47 + n) =~= d.file_name);
    lemma_part(b, p, x, 47 + n, 47 + n + e);
    assert(x.subrange(47 + n, 47 + n + e) =~= extras_bytes(d.extra_fields));
    lemma_extra_list_round_trip(b, p + 47 + n, d.extra_fields);
    lemma_part(b, p, x, 47 + n + e, 47 + n + e + c);
    assert(x.subrange(47 + n + e, 47 + n + e + c) =~= d.file_comment);
    lemma_part(b, p, x, 47 + n + e + c, 47 + n + e + c + l);
    assert(x.subrange(47 + n + e + c, 47 + n + e + c + l) =~= lfh);
    lemma_lfh_round_trip(b, p + 47 + n + e + c, d.file, d.uncompressed_size);
    let q3 = p + 47 + n + e + c + l;
    if !dir {
        lemma_part(b, p, x, 47 + n + e + c + l, x.len() as int);
        assert(x.subrange(47 + n + e + c + l, x.len() as int) =~= d.data);
        assert(b.subrange(q3, q3 + d.compressed_size) == d.data);
    } else {
        assert(d.data =~= Seq::<u8>::empty());
    }
    assert(x.len() == 47 + n + e + c + l + d.data.len());
}

proof fn lemma_entries_cons(d: DirectoryView, rest: Seq<DirectoryView>)
    ensures
        entries_bytes(seq![d] + rest, ZipModel::Bin) == cde_bytes(d, ZipModel::Bin) + entries_bytes(rest, ZipModel::Bin),
    decreases rest.len(),
{
    let s = seq![d] + rest;
    if rest.len() == 0 {
        assert(s.drop_last() =~= Seq::<DirectoryView>::empty());
        assert(entries_bytes(s.drop_last(), ZipModel::Bin) == Seq::<u8>::empty());
        assert(entries_bytes(rest, ZipModel::Bin) == Seq::<u8>::empty());
        assert(s.last() == d);
        assert(entries_bytes(s, ZipModel::Bin) =~= cde_bytes(d, ZipModel::Bin) + entries_bytes(rest, ZipModel::Bin));
    } else {
        assert(s.drop_last() =~= seq![d] + rest.drop_last());
        lemma_entries_cons(d, rest.drop_last());
        assert(s.last() == rest.last());
        assert(entries_bytes(s, ZipModel::Bin) =~= cde_bytes(d, ZipModel::Bin) + entries_bytes(rest, ZipModel::Bin));
    }
}

/// An entry that can pass through the snapshot form: it reads back, its name is text, and it
/// holds compressed bytes only under Deflate.
pub open spec fn snapshot_entry_ok(d: DirectoryView) -> bool {
    entry_ok(d) && valid_utf8(d.file_name) && crate::zip::held_ok(d)
}

proof fn lemma_entries_round_trip(b: Seq<u8>, q: int, acc: Seq<DirectoryView>, s: Seq<DirectoryView>)
    requires
        holds_at(b, q, entries_bytes(s, ZipModel::Bin)),
        forall|i: int| 0 <= i < s.len() ==> snapshot_entry_ok(#[trigger] s[i]),
        names_unique(acc + s),
    ensures
        parse_entries(b, q, s.len(), ZipModel::Bin, 0, acc) == Ok::<(Seq<DirectoryView>, int), crate::error::ZipError>(
            (acc + s, q + entries_bytes(s, ZipModel::Bin).len()),
        ),
    decreases s.len(),
{
    if s.len() == 0 {
        assert(acc + s =~= acc);
        assert(entries_bytes(s, ZipModel::Bin).len() == 0);
    } else {
        let d = s[0];
        let rest = s.drop_first();
        assert(s =~= seq![d] + rest);
        lemma_entries_cons(d, rest);
        let x = entries_bytes(s, ZipModel::Bin);
        let k = cde_bytes(d, ZipModel::Bin).len() as int;
        lemma_part(b, q, x, 0, k);
        assert(x.subrange(0, k) =~= cde_bytes(d, ZipModel::Bin));
        assert(snapshot_entry_ok(s[0]));
        lemma_cde_round_trip(b, q, d);
        lemma_part(b, q, x, k, x.len() as int);
        assert(x.subrange(k, x.len() as int) =~= entries_bytes(rest, ZipModel::Bin));
        lemma_find_name(acc, d.file_name);
        if find_name_found(acc, d) {
            let i = crate::zip::find_name(acc, d.file_name);
            assert((acc + s)[i] == acc[i]);
            assert((acc + s)[acc.len() as int] == d);
        }
        assert(upsert(acc, d) == acc.push(d));
        assert(acc.push(d) + rest =~= acc + s);
        assert forall|i: int| 0 <= i < rest.len() implies snapshot_entry_ok(#[trigger] rest[i]) by {
            assert(rest[i] == s[i + 1]);
        }
        lemma_entries_round_trip(b, q + k, acc.push(d), rest);
    }
}

spec fn find_name_found(acc: Seq<DirectoryView>, d: DirectoryView) -> bool {
    crate::zip::find_name(acc, d.file_name) >= 0
}

/// An archive that can pass through the snapshot form: counts and lengths fit their fields,
/// names are unique text, and every entry reads back.
pub open spec fn snapshot_ok(z: FastZipView) -> bool {
    &&& z.comment.len() <= 0xffff
    &&& z.entries.len() <= 0xffff
    &&& names_unique(z.entries)
    &&& forall|i: int| 0 <= i < z.entries.len() ==> snapshot_entry_ok(#[trigger] z.entries[i])
}

/// Reading back the snapshot form of an archive gives the same model: `from_bin` after
/// `to_bin` restores every field and every entry, payload and compression state included.
#[verifier::rlimit(80)]
pub proof fn lemma_snapshot_round_trip(z: FastZipView)
    requires
        snapshot_ok(z),
    ensures
        parse_archive(bin_bytes(z), ZipModel::Bin) == Ok::<FastZipView, crate::error::ZipError>(z),
{
    reveal(parse_archive);
    let b = bin_bytes(z);
    let c = z.comment.len() as int;
    assert(holds_at(b, 0, b)) by {
        assert(b.subrange(0, b.len() as int) =~= b);
    }
    assert(b.subrange(1, 3) =~= le16(z.number_of_disk));
    lemma_u16_in(b, 0, b, 1, z.number_of_disk);
    assert(b.subrange(3, 5) =~= le16(z.directory_starts));
    lemma_u16_in(b, 0, b, 3, z.directory_starts);
    assert(b.subrange(5, 7) =~= le16(z.number_of_directory_disk));
    lemma_u16_in(b, 0, b, 5, z.number_of_directory_disk);
    assert(b.subrange(7, 9) =~= le16(z.entries.len() as u16));
    lemma_u16_in(b, 0, b, 7, z.entries.len() as u16);
    assert(b.subrange(9, 13) =~= le32(z.size));
    lemma_u32_in(b, 0, b, 9, z.size);
    assert(b.subrange(13, 17) =~= le32(z.offset));
    lemma_u32_in(b, 0, b, 13, z.offset);
    assert(b.subrange(17, 19) =~= le16(c as u16));
    lemma_u16_in(b, 0, b, 17, c as u16);
    assert(b.subrange(BIN_HEADER as int, BIN_HEADER + c) =~= z.comment);
    lemma_part(b, 0, b, BIN_HEADER + c, b.len() as int);
    assert(b.subrange(BIN_HEADER + c, b.len() as int) =~= entries_bytes(z.entries, ZipModel::Bin));
    assert(Seq::<DirectoryView>::empty() + z.entries =~= z.entries);
    lemma_entries_round_trip(b, BIN_HEADER + c, Seq::empty(), z.entries);
}

} // verus!
