use vstd::prelude::*;
use crate::bytes::{le16, le32, u16_at, u32_at};
use crate::directory::{
    cde_bytes, cde_fixed_bytes, is_dir_name, lemma_method_code_round_trip, method_code,
    method_of_code, parse_cde, spec_compress, CompressionMethod, DirectoryView, CDE_SIGNATURE,
};
use crate::external::inflate_of;
use crate::extra::extras_bytes;
use crate::file::{emitted_method, emitted_size, lfh_bytes, parse_lfh, ZipFileView, LFH_SIGNATURE};
use crate::snapshot::{
    extras_ok, holds_at, lemma_extra_list_round_trip, lemma_part, lemma_u16_in, lemma_u32_in,
    lfh_ok,
};
use crate::zip::{
    compressed_all, eligible, entries_bytes, entry_names, eocd_bytes, in_tail, lemma_eocd_scan,
    lemma_find_name, lemma_local_block_offset, local_block, locals, names_unique, package_bytes,
    packaged, parse_archive, parse_entries, placed, upsert, FastZipView, ZipModel, EOCD_SIGNATURE,
};
use vstd::utf8::valid_utf8;

verus! {

#[verifier::rlimit(80)]
proof fn lemma_cde_fixed_package(b: Seq<u8>, p: int, d: DirectoryView)
    requires
        holds_at(b, p, cde_fixed_bytes(d, ZipModel::Package)),
    ensures
        cde_fixed_bytes(d, ZipModel::Package).len() == 46,
        u32_at(b, p) == CDE_SIGNATURE,
        u16_at(b, p + 10) == method_code(
            emitted_method(d.compression_method, ZipModel::Package, d.uncompressed_size),
        ),
        u32_at(b, p + 16) == emitted_size(
            d.crc_32_uncompressed_data,
            ZipModel::Package,
            is_dir_name(d.file_name),
        ),
        u32_at(b, p + 20) == emitted_size(
            d.compressed_size,
            ZipModel::Package,
            is_dir_name(d.file_name) || d.uncompressed_size == 0,
        ),
        u32_at(b, p + 24) == emitted_size(
            d.uncompressed_size,
            ZipModel::Package,
            is_dir_name(d.file_name),
        ),
        u16_at(b, p + 28) == d.file_name.len() as u16,
        u16_at(b, p + 30) == extras_bytes(d.extra_fields).len() as u16,
        u16_at(b, p + 32) == d.file_comment.len() as u16,
        u32_at(b, p + 42) == d.offset_of_local_file_header,
{
    reveal(cde_fixed_bytes);
    let fx = cde_fixed_bytes(d, ZipModel::Package);
    let dir = is_dir_name(d.file_name);
    let m = emitted_method(d.compression_method, ZipModel::Package, d.uncompressed_size);
    assert(fx.subrange(0, 4) =~= le32(CDE_SIGNATURE));
    lemma_u32_in(b, p, fx, 0, CDE_SIGNATURE);
    assert(fx.subrange(10, 12) =~= le16(method_code(m)));
    lemma_u16_in(b, p, fx, 10, method_code(m));
    let crc = emitted_size(d.crc_32_uncompressed_data, ZipModel::Package, dir);
    assert(fx.subrange(16, 20) =~= le32(crc));
    lemma_u32_in(b, p, fx, 16, crc);
    let cs = emitted_size(d.compressed_size, ZipModel::Package, dir || d.uncompressed_size == 0);
    assert(fx.subrange(20, 24) =~= le32(cs));
    lemma_u32_in(b, p, fx, 20, cs);
    let us = emitted_size(d.uncompressed_size, ZipModel::Package, dir);
    assert(fx.subrange(24, 28) =~= le32(us));
    lemma_u32_in(b, p, fx, 24, us);
    assert(fx.subrange(28, 30) =~= le16(d.file_name.len() as u16));
    lemma_u16_in(b, p, fx, 28, d.file_name.len() as u16);
    assert(fx.subrange(30, 32) =~= le16(extras_bytes(d.extra_fields).len() as u16));
    lemma_u16_in(b, p, fx, 30, extras_bytes(d.extra_fields).len() as u16);
    assert(fx.subrange(32, 34) =~= le16(d.file_comment.len() as u16));
    lemma_u16_in(b, p, fx, 32, d.file_comment.len() as u16);
    assert(fx.subrange(42, 46) =~= le32(d.offset_of_local_file_header));
    lemma_u32_in(b, p, fx, 42, d.offset_of_local_file_header);
}

/// A local header written by `package` reads back, and the payload position it yields is where
/// the header ends.
#[verifier::rlimit(80)]
pub proof fn lemma_lfh_package(b: Seq<u8>, o: int, f: ZipFileView, u: u32, u2: u32)
    requires
        holds_at(b, o, lfh_bytes(f, ZipModel::Package, u)),
        lfh_ok(f),
    ensures
        parse_lfh(b, o, ZipModel::Parse, u2) matches Ok((g, e)) && e == o + lfh_bytes(
            f,
            ZipModel::Package,
            u,
        ).len() && g.data_position == e as u64,
{
    reveal(lfh_bytes);
    reveal(parse_lfh);
    let x = lfh_bytes(f, ZipModel::Package, u);
    let n = f.file_name.len() as int;
    let e = extras_bytes(f.extra_fields).len() as int;
    let m = emitted_method(f.compression_method, ZipModel::Package, u);
    assert(x.len() == 30 + n + e);
    assert(x.subrange(0, 4) =~= le32(LFH_SIGNATURE));
    lemma_u32_in(b, o, x, 0, LFH_SIGNATURE);
    assert(x.subrange(8, 10) =~= le16(method_code(m)));
    lemma_u16_in(b, o, x, 8, method_code(m));
    lemma_method_code_round_trip(m);
    assert(x.subrange(26, 28) =~= le16(n as u16));
    lemma_u16_in(b, o, x, 26, n as u16);
    assert(x.subrange(28, 30) =~= le16(e as u16));
    lemma_u16_in(b, o, x, 28, e as u16);
    lemma_part(b, o, x, 30 + n, 30 + n + e);
    assert(x.subrange(30 + n, 30 + n + e) =~= extras_bytes(f.extra_fields));
    lemma_extra_list_round_trip(b, o + 30 + n, f.extra_fields);
}

proof fn lemma_cde_package_parts(b: Seq<u8>, q: int, d: DirectoryView)
    requires
        holds_at(b, q, cde_bytes(d, ZipModel::Package)),
    ensures
        holds_at(b, q, cde_fixed_bytes(d, ZipModel::Package)),
        holds_at(b, q + 46, d.file_name),
        holds_at(b, q + 46 + d.file_name.len(), extras_bytes(d.extra_fields)),
        q + 46 + d.file_name.len() + extras_bytes(d.extra_fields).len() + d.file_comment.len()
            <= b.len(),
        cde_bytes(d, ZipModel::Package).len() == 46 + d.file_name.len() + extras_bytes(
            d.extra_fields,
        ).len() + d.file_comment.len(),
{
    reveal(cde_bytes);
    let x = cde_bytes(d, ZipModel::Package);
    let fx = cde_fixed_bytes(d, ZipModel::Package);
    lemma_cde_fixed_len_package(d);
    let n = d.file_name.len() as int;
    let e = extras_bytes(d.extra_fields).len() as int;
    let c = d.file_comment.len() as int;
    assert(x.subrange(0, 46) =~= fx);
    lemma_part(b, q, x, 0, 46);
    lemma_part(b, q, x, 46, 46 + n);
    assert(x.subrange(46, 46 + n) =~= d.file_name);
    lemma_part(b, q, x, 46 + n, 46 + n + e);
    assert(x.subrange(46 + n, 46 + n + e) =~= extras_bytes(d.extra_fields));
}

proof fn lemma_cde_fixed_len_package(d: DirectoryView)
    ensures
        cde_fixed_bytes(d, ZipModel::Package).len() == 46,
{
    reveal(cde_fixed_bytes);
}

proof fn lemma_local_block_parts(b: Seq<u8>, o: int, d: DirectoryView)
    requires
        holds_at(b, o, local_block(d)),
    ensures
        holds_at(b, o, lfh_bytes(d.file, ZipModel::Package, d.uncompressed_size)),
        !is_dir_name(d.file_name) && d.uncompressed_size != 0 ==> holds_at(
            b,
            o + lfh_bytes(d.file, ZipModel::Package, d.uncompressed_size).len(),
            d.data,
        ),
{
    reveal(local_block);
    let lb = local_block(d);
    let lfh = lfh_bytes(d.file, ZipModel::Package, d.uncompressed_size);
    let l = lfh.len() as int;
    lemma_part(b, o, lb, 0, l);
    assert(lb.subrange(0, l) =~= lfh);
    if !is_dir_name(d.file_name) && d.uncompressed_size != 0 {
        lemma_part(b, o, lb, l, lb.len() as int);
        assert(lb.subrange(l, lb.len() as int) =~= d.data);
    }
}

/// The payload `package` writes for a file entry: none when the entry is empty.
pub open spec fn written_payload(d: DirectoryView) -> Seq<u8> {
    if d.uncompressed_size == 0 {
        Seq::empty()
    } else {
        d.data
    }
}

/// An entry record written by `package` reads back in the archive form with its name, and a
/// file entry with the payload `package` wrote and its CRC, given its local block where its
/// offset points.
#[verifier::rlimit(100)]
pub proof fn lemma_cde_package(b: Seq<u8>, q: int, d: DirectoryView)
    requires
        holds_at(b, q, cde_bytes(d, ZipModel::Package)),
        d.file_name.len() <= 0xffff,
        extras_ok(d.extra_fields),
        d.file_comment.len() <= 0xffff,
        lfh_ok(d.file),
        holds_at(b, d.offset_of_local_file_header as int, local_block(d)),
        !is_dir_name(d.file_name) && d.uncompressed_size != 0 ==> d.data.len()
            == d.compressed_size,
        b.len() <= 0xffff_ffff,
    ensures
        parse_cde(b, q, ZipModel::Parse, 0) matches Ok((y, e)) && e == q + cde_bytes(
            d,
            ZipModel::Package,
        ).len() && y.file_name == d.file_name && (!is_dir_name(d.file_name) ==> y.data
            == written_payload(d) && y.crc_32_uncompressed_data == d.crc_32_uncompressed_data)
            && y.compressed == (emitted_method(
            d.compression_method,
            ZipModel::Package,
            d.uncompressed_size,
        ) == CompressionMethod::Deflate) && y.compression_method == emitted_method(
            d.compression_method,
            ZipModel::Package,
            d.uncompressed_size,
        ),
{
    lemma_cde_package_parts(b, q, d);
    lemma_cde_fixed_package(b, q, d);
    lemma_method_code_round_trip(
        emitted_method(d.compression_method, ZipModel::Package, d.uncompressed_size),
    );
    let n = d.file_name.len() as int;
    lemma_extra_list_round_trip(b, q + 46 + n, d.extra_fields);
    let o = d.offset_of_local_file_header as int;
    lemma_local_block_parts(b, o, d);
    let dir = is_dir_name(d.file_name);
    let u2 = emitted_size(d.uncompressed_size, ZipModel::Package, dir);
    lemma_lfh_package(b, o, d.file, d.uncompressed_size, u2);
    assert(b.subrange(q + 46, q + 46 + n) == d.file_name);
    let l = lfh_bytes(d.file, ZipModel::Package, d.uncompressed_size).len() as int;
    assert(b.subrange(o + l, o + l) =~= Seq::<u8>::empty());
    reveal(parse_cde);
}

proof fn lemma_locals_prefix(s: Seq<DirectoryView>, j: int)
    requires
        0 <= j <= s.len(),
    ensures
        locals(s.take(j)).len() <= locals(s).len(),
        locals(s).subrange(0, locals(s.take(j)).len() as int) == locals(s.take(j)),
    decreases s.len(),
{
    if j == s.len() {
        assert(s.take(j) =~= s);
        assert(locals(s).subrange(0, locals(s).len() as int) =~= locals(s));
    } else {
        let t = s.drop_last();
        assert(t.take(j) =~= s.take(j));
        lemma_locals_prefix(t, j);
        assert(locals(s) == locals(t) + local_block(s.last()));
        assert(locals(s).subrange(0, locals(s.take(j)).len() as int) =~= locals(t).subrange(
            0,
            locals(t.take(j)).len() as int,
        ));
    }
}

proof fn lemma_centrals_prefix(s: Seq<DirectoryView>, j: int)
    requires
        0 <= j <= s.len(),
    ensures
        entries_bytes(s.take(j), ZipModel::Package).len() <= entries_bytes(
            s,
            ZipModel::Package,
        ).len(),
        entries_bytes(s, ZipModel::Package).subrange(
            0,
            entries_bytes(s.take(j), ZipModel::Package).len() as int,
        ) == entries_bytes(s.take(j), ZipModel::Package),
    decreases s.len(),
{
    if j == s.len() {
        assert(s.take(j) =~= s);
        assert(entries_bytes(s, ZipModel::Package).subrange(
            0,
            entries_bytes(s, ZipModel::Package).len() as int,
        ) =~= entries_bytes(s, ZipModel::Package));
    } else {
        let t = s.drop_last();
        assert(t.take(j) =~= s.take(j));
        lemma_centrals_prefix(t, j);
        assert(entries_bytes(s, ZipModel::Package) == entries_bytes(t, ZipModel::Package)
            + cde_bytes(s.last(), ZipModel::Package));
        assert(entries_bytes(s, ZipModel::Package).subrange(
            0,
            entries_bytes(s.take(j), ZipModel::Package).len() as int,
        ) =~= entries_bytes(t, ZipModel::Package).subrange(
            0,
            entries_bytes(t.take(j), ZipModel::Package).len() as int,
        ));
    }
}

/// The block of entry `j` stands in `locals(s)` right after the blocks before it.
proof fn lemma_local_at(s: Seq<DirectoryView>, j: int)
    requires
        0 <= j < s.len(),
    ensures
        holds_at(locals(s), locals(s.take(j)).len() as int, local_block(s[j])),
{
    lemma_locals_prefix(s, j + 1);
    let t = s.take(j + 1);
    assert(t.drop_last() =~= s.take(j));
    let a = locals(s.take(j)).len() as int;
    let bl = local_block(s[j]);
    assert(locals(t) == locals(s.take(j)) + bl);
    assert(locals(s).subrange(a, a + bl.len()) =~= bl) by {
        assert forall|k: int| 0 <= k < bl.len() implies locals(s).subrange(a, a + bl.len())[k]
            == bl[k] by {
            assert(locals(s).subrange(0, locals(t).len() as int)[a + k] == locals(t)[a + k]);
        }
    }
}

proof fn lemma_central_at(s: Seq<DirectoryView>, j: int)
    requires
        0 <= j < s.len(),
    ensures
        holds_at(
            entries_bytes(s, ZipModel::Package),
            entries_bytes(s.take(j), ZipModel::Package).len() as int,
            cde_bytes(s[j], ZipModel::Package),
        ),
        entries_bytes(s.take(j + 1), ZipModel::Package).len() == entries_bytes(
            s.take(j),
            ZipModel::Package,
        ).len() + cde_bytes(s[j], ZipModel::Package).len(),
{
    lemma_centrals_prefix(s, j + 1);
    let t = s.take(j + 1);
    assert(t.drop_last() =~= s.take(j));
    let a = entries_bytes(s.take(j), ZipModel::Package).len() as int;
    let bl = cde_bytes(s[j], ZipModel::Package);
    let all = entries_bytes(s, ZipModel::Package);
    assert(entries_bytes(t, ZipModel::Package) == entries_bytes(s.take(j), ZipModel::Package)
        + bl);
    assert(all.subrange(a, a + bl.len()) =~= bl) by {
        assert forall|k: int| 0 <= k < bl.len() implies all.subrange(a, a + bl.len())[k]
            == bl[k] by {
            assert(all.subrange(0, entries_bytes(t, ZipModel::Package).len() as int)[a + k]
                == entries_bytes(t, ZipModel::Package)[a + k]);
        }
    }
}

/// What re-reading keeps of an entry: its name, whether it is held compressed (as the method
/// `package` wrote says), and for a file the payload `package` wrote and the CRC.
pub open spec fn reread(y: DirectoryView, d: DirectoryView) -> bool {
    &&& y.file_name == d.file_name
    &&& !is_dir_name(d.file_name) ==> y.data == written_payload(d) && y.crc_32_uncompressed_data
        == d.crc_32_uncompressed_data
    &&& y.compressed == (emitted_method(d.compression_method, ZipModel::Package, d.uncompressed_size)
        == CompressionMethod::Deflate)
}

/// The uncompressed payload an entry stands for: its bytes, inflated when it holds them
/// compressed.
pub open spec fn plain_payload(d: DirectoryView) -> Option<Seq<u8>> {
    if d.compressed {
        inflate_of(d.data)
    } else {
        Some(d.data)
    }
}

/// An entry that `package` can write so that it reads back: its variable parts fit their
/// length fields, its extra fields read back, its name is text, and a file's sizes agree with
/// its payload (a compressed one is held under Deflate and, when it declares no bytes,
/// inflates to none).
pub open spec fn package_entry_ok(d: DirectoryView) -> bool {
    &&& d.file_name.len() <= 0xffff
    &&& extras_ok(d.extra_fields)
    &&& d.file_comment.len() <= 0xffff
    &&& lfh_ok(d.file)
    &&& valid_utf8(d.file_name)
    &&& d.data.len() <= 0xffff_ffff
    &&& !is_dir_name(d.file_name) && !eligible(d) && d.uncompressed_size != 0 ==> d.data.len()
        == d.compressed_size
    &&& !is_dir_name(d.file_name) && d.compressed ==> d.compression_method
        == CompressionMethod::Deflate
    &&& !is_dir_name(d.file_name) && d.compressed && d.uncompressed_size == 0 ==> inflate_of(
        d.data,
    ) == Some(Seq::<u8>::empty())
    &&& !is_dir_name(d.file_name) && !d.compressed && d.uncompressed_size == 0 ==> d.data.len()
        == 0
}

proof fn lemma_plain_kept(zj: DirectoryView, crc: bool, level: u8, off: u32, y: DirectoryView)
    requires
        package_entry_ok(zj),
        !is_dir_name(zj.file_name),
        eligible(zj) && zj.data.len() > 0 ==> inflate_of(spec_compress(zj, crc, level).data)
            == Some(zj.data),
        reread(
            y,
            DirectoryView { offset_of_local_file_header: off, ..spec_compress(zj, crc, level) },
        ),
    ensures
        plain_payload(y) == plain_payload(zj),
{
    reveal(spec_compress);
    if !eligible(zj) && !zj.compressed && zj.uncompressed_size == 0 {
        assert(zj.data =~= Seq::<u8>::empty());
    }
    if eligible(zj) && zj.data.len() == 0 {
        assert(zj.data =~= Seq::<u8>::empty());
    }
}

proof fn lemma_compress_keeps(d: DirectoryView, crc: bool, level: u8)
    ensures
        spec_compress(d, crc, level).file_name == d.file_name,
        spec_compress(d, crc, level).extra_fields == d.extra_fields,
        spec_compress(d, crc, level).file_comment == d.file_comment,
        spec_compress(d, crc, level).file.file_name == d.file.file_name,
        spec_compress(d, crc, level).file.extra_fields == d.file.extra_fields,
        eligible(d) ==> spec_compress(d, crc, level).compressed_size == spec_compress(
            d,
            crc,
            level,
        ).data.len() as u32,
        eligible(d) ==> spec_compress(d, crc, level).uncompressed_size == d.data.len() as u32,
        !eligible(d) ==> spec_compress(d, crc, level) == d,
{
    reveal(spec_compress);
}

#[verifier::rlimit(100)]
proof fn lemma_entries_package(
    b: Seq<u8>,
    cd: int,
    p: Seq<DirectoryView>,
    i: int,
    acc: Seq<DirectoryView>,
)
    requires
        0 <= i <= p.len(),
        b.len() <= 0xffff_ffff,
        holds_at(b, cd, entries_bytes(p, ZipModel::Package)),
        names_unique(p),
        acc.len() == i,
        forall|j: int| 0 <= j < i ==> reread(#[trigger] acc[j], p[j]),
        forall|j: int|
            0 <= j < p.len() ==> {
                let d = #[trigger] p[j];
                &&& d.file_name.len() <= 0xffff
                &&& extras_ok(d.extra_fields)
                &&& d.file_comment.len() <= 0xffff
                &&& lfh_ok(d.file)
                &&& valid_utf8(d.file_name)
                &&& holds_at(b, d.offset_of_local_file_header as int, local_block(d))
                &&& !is_dir_name(d.file_name) && d.uncompressed_size != 0 ==> d.data.len()
                    == d.compressed_size
            },
    ensures
        parse_entries(
            b,
            cd + entries_bytes(p.take(i), ZipModel::Package).len(),
            (p.len() - i) as nat,
            ZipModel::Parse,
            0,
            acc,
        ) matches Ok((ys, _)) && ys.len() == p.len() && forall|j: int|
            0 <= j < p.len() ==> reread(#[trigger] ys[j], p[j]),
    decreases p.len() - i,
{
    let q = cd + entries_bytes(p.take(i), ZipModel::Package).len();
    if i == p.len() {
        assert(acc.len() == p.len());
    } else {
        lemma_central_at(p, i);
        lemma_centrals_prefix(p, i);
        let all = entries_bytes(p, ZipModel::Package);
        lemma_part(
            b,
            cd,
            all,
            entries_bytes(p.take(i), ZipModel::Package).len() as int,
            (entries_bytes(p.take(i), ZipModel::Package).len() + cde_bytes(
                p[i],
                ZipModel::Package,
            ).len()) as int,
        );
        let d = p[i];
        lemma_cde_package(b, q, d);
        let y = parse_cde(b, q, ZipModel::Parse, 0)->Ok_0.0;
        assert(crate::zip::held_ok(y));
        lemma_find_name(acc, y.file_name);
        if crate::zip::find_name(acc, y.file_name) >= 0 {
            let k = crate::zip::find_name(acc, y.file_name);
            assert(acc[k].file_name == p[k].file_name);
        }
        assert(upsert(acc, y) == acc.push(y));
        let acc2 = acc.push(y);
        assert forall|j: int| 0 <= j < i + 1 implies reread(#[trigger] acc2[j], p[j]) by {
            if j < i {
                assert(acc2[j] == acc[j]);
            }
        }
        lemma_entries_package(b, cd, p, i + 1, acc2);
    }
}

/// The archive conditions under which `package` output reads back: the comment and entry
/// count fit their fields, names are unique text, every entry can be written to read back, the
/// output fits 32-bit offsets, and no other end-of-central-directory signature stands in the
/// scanned tail of the output.
pub open spec fn repackage_ok(z: FastZipView, level: u8) -> bool {
    let b = package_bytes(z, level);
    &&& z.comment.len() <= 0xffff
    &&& z.entries.len() <= 0xffff
    &&& names_unique(z.entries)
    &&& forall|j: int| 0 <= j < z.entries.len() ==> package_entry_ok(#[trigger] z.entries[j])
    &&& b.len() <= 0xffff_ffff
    &&& forall|q: int| #[trigger]
        in_tail(b, q) ==> q == b.len() - eocd_bytes(packaged(z, level)).len()
}

#[verifier::rlimit(100)]
proof fn lemma_placed_entries(z: FastZipView, level: u8)
    requires
        repackage_ok(z, level),
    ensures
        names_unique(packaged(z, level).entries),
        packaged(z, level).entries.len() == z.entries.len(),
        forall|j: int|
            0 <= j < z.entries.len() ==> #[trigger] packaged(z, level).entries[j].file_name
                == z.entries[j].file_name,
        forall|j: int|
            0 <= j < packaged(z, level).entries.len() ==> {
                let d = #[trigger] packaged(z, level).entries[j];
                &&& d.file_name.len() <= 0xffff
                &&& extras_ok(d.extra_fields)
                &&& d.file_comment.len() <= 0xffff
                &&& lfh_ok(d.file)
                &&& valid_utf8(d.file_name)
                &&& holds_at(
                    package_bytes(z, level),
                    d.offset_of_local_file_header as int,
                    local_block(d),
                )
                &&& !is_dir_name(d.file_name) && d.uncompressed_size != 0 ==> d.data.len()
                    == d.compressed_size
            },
{
    let f = packaged(z, level);
    let c = compressed_all(z.entries, z.crc32_computer, level);
    let p = f.entries;
    let l = locals(c);
    let b = package_bytes(z, level);
    assert(b.subrange(0, l.len() as int) =~= l);
    assert forall|j: int| 0 <= j < p.len() implies {
        let d = #[trigger] p[j];
        &&& d.file_name.len() <= 0xffff
        &&& extras_ok(d.extra_fields)
        &&& d.file_comment.len() <= 0xffff
        &&& lfh_ok(d.file)
        &&& valid_utf8(d.file_name)
        &&& holds_at(b, d.offset_of_local_file_header as int, local_block(d))
        &&& !is_dir_name(d.file_name) && d.uncompressed_size != 0 ==> d.data.len()
            == d.compressed_size
    } by {
        let zj = z.entries[j];
        assert(package_entry_ok(zj));
        lemma_compress_keeps(zj, z.crc32_computer, level);
        assert(c[j] == spec_compress(zj, z.crc32_computer, level));
        let off = locals(c.take(j)).len();
        lemma_locals_prefix(c, j);
        lemma_local_at(c, j);
        lemma_part(b, 0, l, off as int, (off + local_block(c[j]).len()) as int);
        lemma_local_block_offset(c[j], off as u32);
        assert(p[j] == DirectoryView { offset_of_local_file_header: off as u32, ..c[j] });
        if !is_dir_name(c[j].file_name) && eligible(zj) && c[j].uncompressed_size != 0 {
            reveal(local_block);
            assert(c[j].data.len() <= local_block(c[j]).len());
        }
    }
    assert forall|j: int| 0 <= j < z.entries.len() implies #[trigger] p[j].file_name
        == z.entries[j].file_name by {
        lemma_compress_keeps(z.entries[j], z.crc32_computer, level);
    }
    assert forall|a: int, k: int| 0 <= a < k < p.len() implies #[trigger] p[a].file_name
        != #[trigger] p[k].file_name by {
        lemma_compress_keeps(z.entries[a], z.crc32_computer, level);
        lemma_compress_keeps(z.entries[k], z.crc32_computer, level);
    }
}

#[verifier::rlimit(80)]
proof fn lemma_package_tail(z: FastZipView, level: u8)
    requires
        repackage_ok(z, level),
    ensures
        ({
            let b = package_bytes(z, level);
            let l = locals(compressed_all(z.entries, z.crc32_computer, level)).len() as int;
            let at = b.len() - eocd_bytes(packaged(z, level)).len();
            &&& crate::zip::eocd_distance(b) == Ok::<u64, crate::error::ZipError>(
                (b.len() - at) as u64,
            )
            &&& 0 <= l <= at
            &&& at + 22 + z.comment.len() == b.len()
            &&& u32_at(b, at) == EOCD_SIGNATURE
            &&& u16_at(b, at + 10) == z.entries.len() as u16
            &&& u32_at(b, at + 16) == l
            &&& u32_at(b, at + 12) == at - l
            &&& u16_at(b, at + 20) == z.comment.len() as u16
            &&& b.subrange(at + 22, b.len() as int) == z.comment
            &&& holds_at(b, l, entries_bytes(packaged(z, level).entries, ZipModel::Package))
        }),
{
    let f = packaged(z, level);
    let c = compressed_all(z.entries, z.crc32_computer, level);
    let p = f.entries;
    let l = locals(c);
    let cb = entries_bytes(p, ZipModel::Package);
    let e = eocd_bytes(f);
    let b = package_bytes(z, level);
    let n = z.entries.len() as int;
    assert(b == l + cb + e);
    assert(b.subrange(l.len() as int, (l.len() + cb.len()) as int) =~= cb);
    let at = (l.len() + cb.len()) as int;
    assert(b.subrange(at, at + e.len()) =~= e);
    assert(e.len() == 22 + z.comment.len());
    assert(e.subrange(0, 4) =~= le32(EOCD_SIGNATURE));
    lemma_u32_in(b, at, e, 0, EOCD_SIGNATURE);
    assert(in_tail(b, at));
    lemma_eocd_scan(b, Some(at));
    assert(e.subrange(10, 12) =~= le16(n as u16));
    lemma_u16_in(b, at, e, 10, n as u16);
    assert(e.subrange(12, 16) =~= le32(f.size));
    lemma_u32_in(b, at, e, 12, f.size);
    assert(e.subrange(16, 20) =~= le32(f.offset));
    lemma_u32_in(b, at, e, 16, f.offset);
    assert(e.subrange(20, 22) =~= le16(z.comment.len() as u16));
    lemma_u16_in(b, at, e, 20, z.comment.len() as u16);
    lemma_part(b, at, e, 22, e.len() as int);
    assert(e.subrange(22, e.len() as int) =~= z.comment);
}

#[verifier::rlimit(80)]
proof fn lemma_plain_all(z: FastZipView, level: u8, ys: Seq<DirectoryView>)
    requires
        repackage_ok(z, level),
        forall|j: int|
            0 <= j < z.entries.len() && eligible(#[trigger] z.entries[j])
                && z.entries[j].data.len() > 0 ==> inflate_of(packaged(z, level).entries[j].data)
                == Some(z.entries[j].data),
        ys.len() == z.entries.len(),
        forall|j: int|
            0 <= j < z.entries.len() ==> reread(#[trigger] ys[j], packaged(z, level).entries[j]),
    ensures
        forall|j: int|
            0 <= j < ys.len() && !is_dir_name(z.entries[j].file_name) ==> plain_payload(
                #[trigger] ys[j],
            ) == plain_payload(z.entries[j]),
{
    let p = packaged(z, level).entries;
    let c = compressed_all(z.entries, z.crc32_computer, level);
    assert forall|j: int| 0 <= j < ys.len() && !is_dir_name(z.entries[j].file_name) implies plain_payload(
        #[trigger] ys[j],
    ) == plain_payload(z.entries[j]) by {
        let off = locals(c.take(j)).len() as u32;
        assert(p[j] == DirectoryView { offset_of_local_file_header: off, ..c[j] });
        assert(package_entry_ok(z.entries[j]));
        lemma_plain_kept(z.entries[j], z.crc32_computer, level, off, ys[j]);
    }
}

/// Reading back what `package` wrote gives the entries in the same order under the same
/// names, and every file entry with the payload bytes and CRC that `package` wrote for it.
///
/// Given that each payload `package` compresses inflates back to the bytes it started from
/// (which `package` ensures), every file entry also reads back with the same uncompressed
/// payload.
#[verifier::rlimit(80)]
pub proof fn lemma_repackage_round_trip(z: FastZipView, level: u8)
    requires
        repackage_ok(z, level),
        forall|j: int|
            0 <= j < z.entries.len() && eligible(#[trigger] z.entries[j])
                && z.entries[j].data.len() > 0 ==> inflate_of(packaged(z, level).entries[j].data)
                == Some(z.entries[j].data),
    ensures
        parse_archive(package_bytes(z, level), ZipModel::Parse) matches Ok(y) && entry_names(
            y.entries,
        ) == entry_names(z.entries) && y.comment == z.comment && y.entries.len()
            == z.entries.len() && (forall|j: int|
            0 <= j < y.entries.len() ==> reread(
                #[trigger] y.entries[j],
                packaged(z, level).entries[j],
            )) && (forall|j: int|
            0 <= j < y.entries.len() && !is_dir_name(z.entries[j].file_name) ==> plain_payload(
                #[trigger] y.entries[j],
            ) == plain_payload(z.entries[j])),
{
    let b = package_bytes(z, level);
    let p = packaged(z, level).entries;
    let n = z.entries.len() as int;
    let l = locals(compressed_all(z.entries, z.crc32_computer, level)).len() as int;
    lemma_package_tail(z, level);
    lemma_placed_entries(z, level);
    assert(p.take(0) =~= Seq::<DirectoryView>::empty());
    assert(entries_bytes(p.take(0), ZipModel::Package).len() == 0);
    lemma_entries_package(b, l, p, 0, Seq::empty());
    let ys = parse_entries(b, l, n as nat, ZipModel::Parse, 0, Seq::empty())->Ok_0.0;
    assert(entry_names(ys) =~= entry_names(z.entries)) by {
        assert forall|j: int| 0 <= j < n implies entry_names(ys)[j] == entry_names(
            z.entries,
        )[j] by {
            assert(reread(ys[j], p[j]));
        }
    }
    lemma_plain_all(z, level, ys);
    reveal(parse_archive);
}

} // verus!
