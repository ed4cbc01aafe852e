use vstd::prelude::*;
use crate::bytes::{read_u16, read_u32, u16_at, u32_at, le16, le32, write_u8, write_u16, write_u32, write_bytes, copy_range};
use crate::error::{BadMagicReason, ZipError};
use crate::directory::{
    clone_bytes, cde_bytes, is_dir_name, parse_cde, put_data_view, spec_compress, Bool,
    ByteProgress, CompressionMethod, Directory, DirectoryView, Name,
};
use crate::extra::ExtraList;
use crate::file::{lfh_bytes, ZipFile, ZipFileView};
use vstd::string::StringSliceAdditionalSpecFns;
use crate::external::{
    index_names, inflate_of, names_insert, names_new, names_position, names_remove_at,
    utf8_string,
};
use vstd::utf8::valid_utf8;
use crate::text::{percent_text, percent_text_of};
use indexmap::IndexSet;

verus! {

/// Which of the three wire forms a codec reads or writes.
#[derive(Debug, Clone, Copy, PartialEq, Eq, Structural)]
pub enum ZipModel {
    /// Reading a conformant archive: records are found through offsets.
    Parse,
    /// Writing a conformant archive.
    Package,
    /// The snapshot form: every record inline, model state kept verbatim.
    Bin,
}

/// The three record signatures of the archive form.
#[derive(Debug, Clone, Copy, PartialEq, Eq, Structural)]
pub enum Magic {
    EoCd,
    Directory,
    File,
}

impl Magic {
    pub fn value(&self) -> (r: u32)
        ensures
            r == match *self {
                Magic::EoCd => EOCD_SIGNATURE,
                Magic::Directory => 0x02014b50u32,
                Magic::File => 0x04034b50u32,
            },
    {
        match self {
            Magic::EoCd => EOCD_SIGNATURE,
            Magic::Directory => 0x02014b50,
            Magic::File => 0x04034b50,
        }
    }
}

impl Default for Magic {
    fn default() -> (r: Magic)
        ensures
            r == Magic::EoCd,
    {
        Magic::EoCd
    }
}

pub const EOCD_SIGNATURE: u32 = 0x06054b50;

/// The fixed length of an end-of-central-directory record.
pub const EOCD_MIN: usize = 22;

/// The largest tail that can hold an end-of-central-directory record: the fixed part and a
/// comment of at most 65535 bytes.
pub const EOCD_MAX: usize = 65557;

pub open spec fn sig_at(b: Seq<u8>, p: int) -> bool {
    0 <= p && p + 4 <= b.len() && u32_at(b, p) == EOCD_SIGNATURE
}

/// The first `i` in `[i, end)` with a signature at `start + i`.
pub open spec fn first_sig(b: Seq<u8>, start: int, i: int, end: int) -> Option<int>
    decreases end - i,
{
    if i >= end {
        None
    } else if sig_at(b, start + i) {
        Some(i)
    } else {
        first_sig(b, start, i + 1, end)
    }
}

pub open spec fn min(a: int, b: int) -> int {
    if a < b { a } else { b }
}

/// Scans windows of the tail that double from `s` bytes: in each, the first signature from the
/// window's start wins; the distance from the end is returned.
pub open spec fn scan_from(b: Seq<u8>, s: int) -> Option<int>
    decreases EOCD_MAX - s,
{
    let s1 = min(s, EOCD_MAX as int);
    match first_sig(b, b.len() - s1, 0, s1 - 3) {
        Some(i) => Some(s1 - i),
        None => if s1 >= EOCD_MAX || s1 >= b.len() || s1 < 1 {
            None
        } else {
            scan_from(b, min(min(s1 * 2, b.len() as int), EOCD_MAX as int))
        },
    }
}

/// The distance from the end of `b` to its end-of-central-directory signature.
pub open spec fn eocd_distance(b: Seq<u8>) -> Result<u64, ZipError> {
    if b.len() < EOCD_MIN {
        Err(ZipError::BadMagic { pos: 0, reason: BadMagicReason::TooShort })
    } else {
        match scan_from(b, EOCD_MIN as int) {
            Some(d) => Ok(d as u64),
            None => Err(ZipError::BadMagic { pos: 0, reason: BadMagicReason::EocdNotFound }),
        }
    }
}

/// Signatures within the tail of `b` that a scan can see.
pub open spec fn in_tail(b: Seq<u8>, q: int) -> bool {
    b.len() - EOCD_MAX <= q && sig_at(b, q)
}

proof fn lemma_first_sig(b: Seq<u8>, start: int, i: int, end: int, j: Option<int>)
    requires
        j matches Some(jj) ==> i <= jj < end && sig_at(b, start + jj),
        forall|k: int| i <= k < end && #[trigger] sig_at(b, start + k) ==> j == Some(k),
    ensures
        first_sig(b, start, i, end) == j,
    decreases end - i,
{
    if i < end {
        if !sig_at(b, start + i) {
            lemma_first_sig(b, start, i + 1, end, j);
        }
    }
}

proof fn lemma_scan_from(b: Seq<u8>, s: int, p: Option<int>)
    requires
        EOCD_MIN <= s <= min(EOCD_MAX as int, b.len() as int),
        p matches Some(pp) ==> in_tail(b, pp),
        forall|q: int| #[trigger] in_tail(b, q) ==> p == Some(q),
    ensures
        scan_from(b, s) == match p {
            Some(pp) => Some(b.len() - pp),
            None => None::<int>,
        },
    decreases EOCD_MAX - s,
{
    let start = b.len() - s;
    let found: Option<int> = match p {
        Some(pp) => if pp >= start {
            Some(pp - start)
        } else {
            None
        },
        None => None,
    };
    assert forall|k: int| 0 <= k < s - 3 && #[trigger] sig_at(b, start + k) implies found == Some(k) by {
        assert(in_tail(b, start + k));
    }
    lemma_first_sig(b, start, 0, s - 3, found);
    if found is None && s < EOCD_MAX && s < b.len() {
        lemma_scan_from(b, min(min(s * 2, b.len() as int), EOCD_MAX as int), p);
    }
}

/// When the last 65557 bytes of `b` hold exactly one end-of-central-directory signature, the
/// scan returns its distance from the end; when they hold none, the scan fails.
pub proof fn lemma_eocd_scan(b: Seq<u8>, p: Option<int>)
    requires
        b.len() >= EOCD_MIN,
        p matches Some(pp) ==> in_tail(b, pp),
        forall|q: int| #[trigger] in_tail(b, q) ==> p == Some(q),
    ensures
        match p {
            Some(pp) => eocd_distance(b) == Ok::<u64, ZipError>((b.len() - pp) as u64),
            None => eocd_distance(b) == Err::<u64, ZipError>(
                ZipError::BadMagic { pos: 0, reason: BadMagicReason::EocdNotFound },
            ),
        },
{
    lemma_scan_from(b, EOCD_MIN as int, p);
}

/// Finds the end-of-central-directory record by scanning the tail backwards in doubling
/// windows; returns its distance from the end of `b`.
pub fn parse_eocd_offset(b: &[u8]) -> (r: Result<u64, ZipError>)
    ensures
        r == eocd_distance(b@),
{
    let file_size: usize = b.len();
    if file_size < EOCD_MIN {
        return Err(ZipError::BadMagic { pos: 0, reason: BadMagicReason::TooShort });
    }
    let mut search_size: usize = EOCD_MIN;
    loop
        invariant
            file_size == b@.len(),
            EOCD_MIN <= search_size <= file_size,
            search_size <= EOCD_MAX,
            file_size >= EOCD_MIN,
            scan_from(b@, EOCD_MIN as int) == scan_from(b@, search_size as int),
        decreases EOCD_MAX - search_size,
    {
        let start = file_size - search_size;
        let mut i: usize = 0;
        while i < search_size - 3
            invariant
                file_size == b@.len(),
                start == file_size - search_size,
                EOCD_MIN <= search_size <= file_size,
                search_size <= EOCD_MAX,
                scan_from(b@, EOCD_MIN as int) == scan_from(b@, search_size as int),
                i <= search_size - 3,
                first_sig(b@, start as int, 0, search_size - 3) == first_sig(
                    b@,
                    start as int,
                    i as int,
                    search_size - 3,
                ),
            decreases search_size - 3 - i,
        {
            if read_u32(b, start + i) == EOCD_SIGNATURE {
                return Ok((search_size - i) as u64);
            }
            i += 1;
        }
        if search_size >= EOCD_MAX || search_size >= file_size {
            return Err(ZipError::BadMagic { pos: 0, reason: BadMagicReason::EocdNotFound });
        }
        let doubled = if search_size <= file_size / 2 {
            search_size * 2
        } else {
            file_size
        };
        search_size = if doubled < EOCD_MAX {
            doubled
        } else {
            EOCD_MAX
        };
    }
}

/// The position of the entry named `n`, or -1; the last such entry if there were several.
pub open spec fn find_name(s: Seq<DirectoryView>, n: Seq<u8>) -> int
    decreases s.len(),
{
    if s.len() == 0 {
        -1
    } else if s.last().file_name == n {
        s.len() - 1
    } else {
        find_name(s.drop_last(), n)
    }
}

/// No two entries share a name.
pub open spec fn names_unique(s: Seq<DirectoryView>) -> bool {
    forall|i: int, j: int|
        0 <= i < j < s.len() ==> #[trigger] s[i].file_name != #[trigger] s[j].file_name
}

/// The entry names in order.
pub open spec fn entry_names(s: Seq<DirectoryView>) -> Seq<Seq<u8>> {
    s.map_values(|d: DirectoryView| d.file_name)
}

/// Keyed insertion: an entry with the same name is replaced where it stands, else the new
/// entry goes to the end.
pub open spec fn upsert(s: Seq<DirectoryView>, d: DirectoryView) -> Seq<DirectoryView> {
    let i = find_name(s, d.file_name);
    if i >= 0 {
        s.update(i, d)
    } else {
        s.push(d)
    }
}

/// Removal by name that keeps the order of the other entries.
pub open spec fn remove_named(s: Seq<DirectoryView>, n: Seq<u8>) -> Seq<DirectoryView> {
    let i = find_name(s, n);
    if i >= 0 {
        s.remove(i)
    } else {
        s
    }
}

pub proof fn lemma_find_name(s: Seq<DirectoryView>, n: Seq<u8>)
    ensures
        -1 <= find_name(s, n) < s.len(),
        find_name(s, n) >= 0 ==> s[find_name(s, n)].file_name == n,
        find_name(s, n) == -1 ==> forall|i: int| 0 <= i < s.len() ==> #[trigger] s[i].file_name != n,
        names_unique(s) ==> forall|i: int|
            0 <= i < s.len() && #[trigger] s[i].file_name == n ==> find_name(s, n) == i,
    decreases s.len(),
{
    if s.len() > 0 {
        lemma_find_name(s.drop_last(), n);
        if s.last().file_name != n {
            assert forall|i: int| 0 <= i < s.len() - 1 implies s[i] == s.drop_last()[i] by {}
        }
    }
}

/// The position of `n` in a list of names, or -1.
pub open spec fn find_in(ns: Seq<Seq<u8>>, n: Seq<u8>) -> int
    decreases ns.len(),
{
    if ns.len() == 0 {
        -1
    } else if ns.last() == n {
        ns.len() - 1
    } else {
        find_in(ns.drop_last(), n)
    }
}

/// The names left by a run of insertions (`true`) and removals (`false`) on `ns`: a name
/// keeps the place of its first surviving insertion.
pub open spec fn surviving(ns: Seq<Seq<u8>>, ops: Seq<(bool, Seq<u8>)>) -> Seq<Seq<u8>>
    decreases ops.len(),
{
    if ops.len() == 0 {
        ns
    } else {
        let before = surviving(ns, ops.drop_last());
        let n = ops.last().1;
        let i = find_in(before, n);
        if ops.last().0 {
            if i >= 0 { before } else { before.push(n) }
        } else {
            if i >= 0 { before.remove(i) } else { before }
        }
    }
}

/// The entries after a run of insertions and removals, as `add_file`, `save_file`,
/// `add_directory` and `remove_file` make them.
pub open spec fn replay(s: Seq<DirectoryView>, ops: Seq<(bool, DirectoryView)>) -> Seq<DirectoryView>
    decreases ops.len(),
{
    if ops.len() == 0 {
        s
    } else {
        let before = replay(s, ops.drop_last());
        let d = ops.last().1;
        if ops.last().0 {
            upsert(before, d)
        } else {
            remove_named(before, d.file_name)
        }
    }
}

proof fn lemma_find_in_names(s: Seq<DirectoryView>, n: Seq<u8>)
    ensures
        find_in(entry_names(s), n) == find_name(s, n),
    decreases s.len(),
{
    if s.len() > 0 {
        assert(entry_names(s.drop_last()) =~= entry_names(s).drop_last());
        lemma_find_name_in_names_step(s, n);
        lemma_find_in_names(s.drop_last(), n);
    }
}

proof fn lemma_find_name_in_names_step(s: Seq<DirectoryView>, n: Seq<u8>)
    requires
        s.len() > 0,
    ensures
        entry_names(s).last() == s.last().file_name,
{
}

/// One insertion or removal changes the order of names as `surviving` says, and names stay
/// unique.
pub proof fn lemma_op_order(s: Seq<DirectoryView>, insert: bool, d: DirectoryView)
    requires
        names_unique(s),
    ensures
        ({
            let r = if insert { upsert(s, d) } else { remove_named(s, d.file_name) };
            &&& names_unique(r)
            &&& entry_names(r) == surviving(entry_names(s), seq![(insert, d.file_name)])
        }),
{
    lemma_find_name(s, d.file_name);
    lemma_find_in_names(s, d.file_name);
    let ops = seq![(insert, d.file_name)];
    assert(ops.drop_last() =~= Seq::<(bool, Seq<u8>)>::empty());
    assert(surviving(entry_names(s), ops.drop_last()) == entry_names(s));
    let i = find_name(s, d.file_name);
    if insert {
        let r = upsert(s, d);
        if i >= 0 {
            assert(entry_names(r) =~= entry_names(s));
        } else {
            assert(entry_names(r) =~= entry_names(s).push(d.file_name));
        }
        assert forall|a: int, b: int| 0 <= a < b < r.len() implies #[trigger] r[a].file_name
            != #[trigger] r[b].file_name by {
            if i < 0 && b == s.len() {
                assert(s[a].file_name != d.file_name);
            }
        }
    } else {
        let r = remove_named(s, d.file_name);
        if i >= 0 {
            assert(entry_names(r) =~= entry_names(s).remove(i));
            assert forall|a: int, b: int| 0 <= a < b < r.len() implies #[trigger] r[a].file_name
                != #[trigger] r[b].file_name by {
                let a2 = if a < i { a } else { a + 1 };
                let b2 = if b < i { b } else { b + 1 };
                assert(r[a] == s[a2]);
                assert(r[b] == s[b2]);
            }
        }
    }
}

/// For any run of insertions and removals, the entries come out in the order of the surviving
/// insertions: each name where it was first inserted, removed names gone.
pub proof fn lemma_insertion_order(s: Seq<DirectoryView>, ops: Seq<(bool, DirectoryView)>)
    requires
        names_unique(s),
    ensures
        names_unique(replay(s, ops)),
        entry_names(replay(s, ops)) == surviving(
            entry_names(s),
            ops.map_values(|o: (bool, DirectoryView)| (o.0, o.1.file_name)),
        ),
    decreases ops.len(),
{
    let f = |o: (bool, DirectoryView)| (o.0, o.1.file_name);
    if ops.len() > 0 {
        lemma_insertion_order(s, ops.drop_last());
        let before = replay(s, ops.drop_last());
        lemma_op_order(before, ops.last().0, ops.last().1);
        assert(ops.map_values(f).drop_last() =~= ops.drop_last().map_values(f));
        let single = seq![(ops.last().0, ops.last().1.file_name)];
        assert(single.drop_last() =~= Seq::<(bool, Seq<u8>)>::empty());
        assert(surviving(entry_names(before), single.drop_last()) == entry_names(before));
        assert(ops.map_values(f).last() == single.last());
    } else {
        assert(ops.map_values(f) =~= Seq::<(bool, Seq<u8>)>::empty());
    }
}

/// An entry holds compressed bytes only under Deflate.
pub open spec fn held_ok(d: DirectoryView) -> bool {
    d.compressed ==> d.compression_method == CompressionMethod::Deflate
}

/// The entries of an archive: a vector in insertion order beside an index from name to
/// position.
pub struct IndexDirectory {
    names: IndexSet<Vec<u8>>,
    entries: Vec<Directory>,
}

impl View for IndexDirectory {
    type V = Seq<DirectoryView>;

    closed spec fn view(&self) -> Seq<DirectoryView> {
        self.entries@.map_values(|d: Directory| d@)
    }
}

impl IndexDirectory {
    /// The index holds exactly the entries' names, in the same order, each once.
    pub closed spec fn wf(&self) -> bool {
        &&& index_names(self.names).len() == self.entries@.len()
        &&& forall|i: int|
            0 <= i < self.entries@.len() ==> index_names(self.names)[i]
                == #[trigger] self.entries@[i].file_name@
        &&& forall|i: int, j: int|
            0 <= i < j < self.entries@.len() ==> #[trigger] index_names(self.names)[i]
                != #[trigger] index_names(self.names)[j]
        &&& forall|i: int| 0 <= i < self.entries@.len() ==> held_ok(#[trigger] self.entries@[i]@)
    }

    /// Every entry holds compressed bytes only under Deflate.
    pub proof fn lemma_held_ok(&self)
        requires
            self.wf(),
        ensures
            forall|i: int| 0 <= i < self@.len() ==> held_ok(#[trigger] self@[i]),
    {
        assert forall|i: int| 0 <= i < self@.len() implies held_ok(#[trigger] self@[i]) by {
            assert(self@[i] == self.entries@[i]@);
        }
    }

    /// Entry names are unique.
    pub proof fn lemma_unique(&self)
        requires
            self.wf(),
        ensures
            names_unique(self@),
    {
        assert forall|i: int, j: int| 0 <= i < j < self@.len() implies #[trigger] self@[i].file_name
            != #[trigger] self@[j].file_name by {
            assert(index_names(self.names)[i] == self.entries@[i].file_name@);
            assert(index_names(self.names)[j] == self.entries@[j].file_name@);
        }
    }

    pub fn new() -> (r: IndexDirectory)
        ensures
            r.wf(),
            r@ == Seq::<DirectoryView>::empty(),
    {
        let r = IndexDirectory { names: names_new(), entries: Vec::new() };
        assert(r@ =~= Seq::<DirectoryView>::empty());
        r
    }

    pub fn len(&self) -> (r: usize)
        requires
            self.wf(),
        ensures
            r == self@.len(),
    {
        self.entries.len()
    }

    /// The entry at position `i`.
    pub fn get_index(&self, i: usize) -> (r: &Directory)
        requires
            self.wf(),
            i < self@.len(),
        ensures
            r@ == self@[i as int],
    {
        &self.entries[i]
    }

    /// The position of the entry named `name`.
    pub fn position(&self, name: &[u8]) -> (r: Option<usize>)
        requires
            self.wf(),
        ensures
            match r {
                Some(i) => i < self@.len() && find_name(self@, name@) == i,
                None => find_name(self@, name@) == -1,
            },
    {
        proof {
            self.lemma_unique();
            lemma_find_name(self@, name@);
        }
        let r = names_position(&self.names, name);
        proof {
            if let Some(i) = r {
                assert(self@[i as int].file_name == name@);
            } else {
                if find_name(self@, name@) >= 0 {
                    let k = find_name(self@, name@);
                    assert(index_names(self.names)[k] == self.entries@[k].file_name@);
                }
            }
        }
        r
    }

    /// The entry named `name`, if any.
    pub fn get(&self, name: &[u8]) -> (r: Option<&Directory>)
        requires
            self.wf(),
        ensures
            match r {
                Some(d) => find_name(self@, name@) >= 0 && d@ == self@[find_name(self@, name@)],
                None => find_name(self@, name@) == -1,
            },
    {
        match self.position(name) {
            Some(i) => Some(&self.entries[i]),
            None => None,
        }
    }

    /// Inserts an entry under its own name, replacing one of the same name in place.
    pub fn insert(&mut self, dir: Directory)
        requires
            old(self).wf(),
            held_ok(dir@),
        ensures
            final(self).wf(),
            final(self)@ == upsert(old(self)@, dir@),
    {
        proof {
            lemma_find_name(self@, dir@.file_name);
        }
        match self.position(dir.file_name.inner.as_slice()) {
            Some(i) => {
                let ghost before = self.entries@;
                self.entries.set(i, dir);
                proof {
                    assert(self.entries@ == before.update(i as int, dir));
                    assert(self@ =~= upsert(old(self)@, dir@));
                }
            },
            None => {
                let key = crate::directory::clone_bytes(&dir.file_name.inner);
                proof {
                    if index_names(self.names).contains(key@) {
                        let k = choose|k: int| 0 <= k < index_names(self.names).len() && index_names(self.names)[k] == key@;
                        assert(self@[k].file_name == dir@.file_name);
                    }
                }
                names_insert(&mut self.names, key);
                self.entries.push(dir);
                proof {
                    assert(self@ =~= upsert(old(self)@, dir@));
                }
            },
        }
    }

    /// Replaces the payload of the entry at `i` (see `Directory::put_data`).
    pub fn put_data_at(&mut self, i: usize, stream: Vec<u8>)
        requires
            old(self).wf(),
            i < old(self)@.len(),
        ensures
            final(self).wf(),
            final(self)@ == old(self)@.update(i as int, put_data_view(old(self)@[i as int], stream@)),
    {
        self.entries[i].put_data(stream);
        proof {
            assert(self@ =~= old(self)@.update(i as int, put_data_view(old(self)@[i as int], stream@)));
        }
    }

    /// Compresses the entry at `i` (see `Directory::compress`).
    pub fn compress_at(&mut self, i: usize, crc32_computer: bool, compression_level: u8)
        requires
            old(self).wf(),
            i < old(self)@.len(),
        ensures
            final(self).wf(),
            final(self)@ == old(self)@.update(
                i as int,
                spec_compress(old(self)@[i as int], crc32_computer, compression_level),
            ),
            eligible(old(self)@[i as int]) && old(self)@[i as int].data.len() > 0 ==> inflate_of(
                final(self)@[i as int].data,
            ) == Some(old(self)@[i as int].data),
    {
        self.entries[i].compress(crc32_computer, compression_level);
        proof {
            assert(self@ =~= old(self)@.update(
                i as int,
                spec_compress(old(self)@[i as int], crc32_computer, compression_level),
            ));
        }
    }

    /// Records where the local header of the entry at `i` was written.
    pub fn set_offset_at(&mut self, i: usize, offset: u32)
        requires
            old(self).wf(),
            i < old(self)@.len(),
        ensures
            final(self).wf(),
            final(self)@ == old(self)@.update(
                i as int,
                DirectoryView { offset_of_local_file_header: offset, ..old(self)@[i as int] },
            ),
    {
        self.entries[i].offset_of_local_file_header = offset;
        proof {
            assert(self@ =~= old(self)@.update(
                i as int,
                DirectoryView { offset_of_local_file_header: offset, ..old(self)@[i as int] },
            ));
        }
    }

    /// Removes the entry named `name`, keeping the order of the others.
    pub fn remove(&mut self, name: &[u8])
        requires
            old(self).wf(),
        ensures
            final(self).wf(),
            final(self)@ == remove_named(old(self)@, name@),
    {
        match self.position(name) {
            Some(i) => {
                let ghost before = self.entries@;
                names_remove_at(&mut self.names, i);
                self.entries.remove(i);
                proof {
                    assert(self.entries@ == before.remove(i as int));
                    assert(self@ =~= remove_named(old(self)@, name@));
                    assert forall|j: int| 0 <= j < self.entries@.len() implies index_names(self.names)[j]
                        == #[trigger] self.entries@[j].file_name@ by {
                        if j < i {
                            assert(index_names(old(self).names)[j] == before[j].file_name@);
                        } else {
                            assert(index_names(old(self).names)[j + 1] == before[j + 1].file_name@);
                        }
                    }
                }
            },
            None => {},
        }
    }
}

/// Reads `count` entries from `q` (local-header offsets counted from `base`), checking each
/// name is UTF-8 and inserting each by name into `acc`.
pub open spec fn parse_entries(b: Seq<u8>, q: int, count: nat, model: ZipModel, base: int, acc: Seq<DirectoryView>) -> Result<(Seq<DirectoryView>, int), ZipError>
    decreases count,
{
    if count == 0 {
        Ok((acc, q))
    } else {
        match parse_cde(b, q, model, base) {
            Err(e) => Err(e),
            Ok((d, q2)) => if !valid_utf8(d.file_name) {
                Err(ZipError::NameNotUtf8 { pos: q as u64 })
            } else if !held_ok(d) {
                Err(ZipError::BadMagic { pos: q as u64, reason: BadMagicReason::CompressedNotDeflate })
            } else {
                parse_entries(b, q2, (count - 1) as nat, model, base, upsert(acc, d))
            },
        }
    }
}

/// The entries' records one after another.
pub open spec fn entries_bytes(s: Seq<DirectoryView>, model: ZipModel) -> Seq<u8>
    decreases s.len(),
{
    if s.len() == 0 {
        Seq::empty()
    } else {
        entries_bytes(s.drop_last(), model) + cde_bytes(s.last(), model)
    }
}

impl IndexDirectory {
    /// Reads `count` entries starting at `q`.
    pub fn parse(b: &[u8], q: usize, model: ZipModel, count: u16, base: usize) -> (r: Result<(IndexDirectory, usize), ZipError>)
        ensures
            match r {
                Ok((d, e)) => d.wf() && parse_entries(b@, q as int, count as nat, model, base as int, Seq::empty()) == Ok::<(Seq<DirectoryView>, int), ZipError>((d@, e as int)),
                Err(x) => parse_entries(b@, q as int, count as nat, model, base as int, Seq::empty()) == Err::<(Seq<DirectoryView>, int), ZipError>(x),
            },
    {
        let mut dirs = IndexDirectory::new();
        let mut at = q;
        let mut k: u16 = 0;
        while k < count
            invariant
                k <= count,
                dirs.wf(),
                parse_entries(b@, q as int, count as nat, model, base as int, Seq::empty()) == parse_entries(b@, at as int, (count - k) as nat, model, base as int, dirs@),
            decreases count - k,
        {
            let (d, next) = match Directory::parse(b, at, model, base) {
                Ok(v) => v,
                Err(e) => {
                    return Err(e);
                },
            };
            if utf8_string(clone_bytes(&d.file_name.inner)).is_none() {
                return Err(ZipError::NameNotUtf8 { pos: at as u64 });
            }
            if d.compressed.value && d.compression_method != CompressionMethod::Deflate {
                return Err(
                    ZipError::BadMagic {
                        pos: at as u64,
                        reason: BadMagicReason::CompressedNotDeflate,
                    },
                );
            }
            dirs.insert(d);
            at = next;
            k += 1;
        }
        Ok((dirs, at))
    }

    /// Appends every entry's record in order.
    pub fn write(&self, out: &mut Vec<u8>, model: ZipModel)
        requires
            self.wf(),
        ensures
            final(out)@ == old(out)@ + entries_bytes(self@, model),
    {
        let mut i: usize = 0;
        while i < self.len()
            invariant
                self.wf(),
                i <= self@.len(),
                out@ == old(out)@ + entries_bytes(self@.take(i as int), model),
            decreases self@.len() - i,
        {
            self.get_index(i).write(out, model);
            proof {
                assert(self@.take(i + 1).drop_last() =~= self@.take(i as int));
                assert(out@ =~= old(out)@ + entries_bytes(self@.take(i + 1), model));
            }
            i += 1;
        }
        assert(self@.take(self@.len() as int) =~= self@);
    }
}

/// A ZIP archive held in memory: the end-of-central-directory fields and the entries.
pub struct FastZip {
    /// Whether `package` computes CRC-32 values when it compresses (else it writes zero).
    pub crc32_computer: Bool,
    /// Distance from the end of the parsed input to its end-of-central-directory record.
    pub eocd_offset: u64,
    pub number_of_disk: u16,
    pub directory_starts: u16,
    pub number_of_directory_disk: u16,
    /// Size of the central directory last written or read.
    pub size: u32,
    /// Offset of the central directory last written or read.
    pub offset: u32,
    pub comment: Vec<u8>,
    pub directories: IndexDirectory,
}

/// The model state of an archive.
pub struct FastZipView {
    pub crc32_computer: bool,
    pub number_of_disk: u16,
    pub directory_starts: u16,
    pub number_of_directory_disk: u16,
    pub size: u32,
    pub offset: u32,
    pub comment: Seq<u8>,
    pub entries: Seq<DirectoryView>,
}

impl View for FastZip {
    type V = FastZipView;

    open spec fn view(&self) -> FastZipView {
        FastZipView {
            crc32_computer: self.crc32_computer.value,
            number_of_disk: self.number_of_disk,
            directory_starts: self.directory_starts,
            number_of_directory_disk: self.number_of_directory_disk,
            size: self.size,
            offset: self.offset,
            comment: self.comment@,
            entries: self.directories@,
        }
    }
}

/// Size of the fixed part of the snapshot header.
pub const BIN_HEADER: usize = 19;

/// Reads an archive in the form `model` (`Parse` or `Bin`).
#[verifier::opaque]
pub open spec fn parse_archive(b: Seq<u8>, model: ZipModel) -> Result<FastZipView, ZipError> {
    if model == ZipModel::Bin {
        if b.len() < BIN_HEADER {
            Err(ZipError::Io { pos: 0 })
        } else {
            let clen = u16_at(b, 17) as int;
            if BIN_HEADER + clen > b.len() {
                Err(ZipError::Io { pos: 0 })
            } else {
                match parse_entries(b, BIN_HEADER + clen, u16_at(b, 7) as nat, model, 0, Seq::empty()) {
                    Err(e) => Err(e),
                    Ok((entries, _)) => Ok(
                        FastZipView {
                            crc32_computer: b[0] != 0,
                            number_of_disk: u16_at(b, 1),
                            directory_starts: u16_at(b, 3),
                            number_of_directory_disk: u16_at(b, 5),
                            size: u32_at(b, 9),
                            offset: u32_at(b, 13),
                            comment: b.subrange(BIN_HEADER as int, BIN_HEADER + clen),
                            entries,
                        },
                    ),
                }
            }
        }
    } else {
        match eocd_distance(b) {
            Err(e) => Err(e),
            Ok(d) => if d > b.len() {
                Err(ZipError::Io { pos: 0 })
            } else {
                let e = b.len() - d;
                if e + EOCD_MIN > b.len() {
                    Err(ZipError::Io { pos: e as u64 })
                } else if u32_at(b, e) != EOCD_SIGNATURE {
                    Err(ZipError::BadMagic { pos: e as u64, reason: BadMagicReason::Signature })
                } else {
                    let clen = u16_at(b, e + 20) as int;
                    let size = u32_at(b, e + 12) as int;
                    let offset = u32_at(b, e + 16) as int;
                    if e + EOCD_MIN + clen > b.len() || size > e || offset > e - size {
                        Err(ZipError::Io { pos: e as u64 })
                    } else {
                        match parse_entries(b, e - size, u16_at(b, e + 10) as nat, model, e - size - offset, Seq::empty()) {
                            Err(x) => Err(x),
                            Ok((entries, _)) => Ok(
                                FastZipView {
                                    crc32_computer: true,
                                    number_of_disk: u16_at(b, e + 4),
                                    directory_starts: u16_at(b, e + 6),
                                    number_of_directory_disk: u16_at(b, e + 8),
                                    size: u32_at(b, e + 12),
                                    offset: u32_at(b, e + 16),
                                    comment: b.subrange(e + EOCD_MIN, e + EOCD_MIN + clen),
                                    entries,
                                },
                            ),
                        }
                    }
                }
            },
        }
    }
}

/// The snapshot form of an archive.
pub open spec fn bin_bytes(z: FastZipView) -> Seq<u8> {
    seq![if z.crc32_computer { 1u8 } else { 0u8 }] + le16(z.number_of_disk) + le16(z.directory_starts)
        + le16(z.number_of_directory_disk) + le16(z.entries.len() as u16) + le32(z.size) + le32(
        z.offset,
    ) + le16(z.comment.len() as u16) + z.comment + entries_bytes(z.entries, ZipModel::Bin)
}

/// Bytes that are printable ASCII or one of tab, line feed, vertical tab, carriage return.
pub open spec fn is_text_byte(c: u8) -> bool {
    (0x20 <= c <= 0x7e) || c == 9 || c == 10 || c == 11 || c == 13
}

pub open spec fn non_text_count(s: Seq<u8>) -> nat
    decreases s.len(),
{
    if s.len() == 0 {
        0
    } else {
        non_text_count(s.drop_last()) + if is_text_byte(s.last()) { 0nat } else { 1nat }
    }
}

/// The sample is binary when more than 30% of its bytes are not text.
pub open spec fn spec_is_binary(s: Seq<u8>) -> bool {
    10 * non_text_count(s) > 3 * s.len()
}

/// The entry `add_file` makes for `data` under `name`.
pub open spec fn new_entry_view(data: Seq<u8>, name: Seq<u8>) -> DirectoryView {
    let len = data.len() as u32;
    DirectoryView {
        created_zip_spec: 0x1e,
        created_os: 3,
        extract_zip_spec: 0x0e,
        extract_os: 0,
        compression_method: CompressionMethod::Deflate,
        compressed: false,
        last_modification_time: 39620,
        last_modification_date: 23170,
        crc_32_uncompressed_data: 0,
        compressed_size: len,
        uncompressed_size: len,
        number_of_starts: 0,
        internal_file_attributes: if spec_is_binary(data.take(min(data.len() as int, 1024))) {
            0
        } else {
            1
        },
        offset_of_local_file_header: 0,
        file_name: name,
        extra_fields: Seq::empty(),
        file_comment: Seq::empty(),
        file: ZipFileView {
            extract_os: 0,
            compression_method: CompressionMethod::Deflate,
            last_modification_time: 39620,
            last_modification_date: 23170,
            crc_32_uncompressed_data: 0,
            compressed_size: len,
            uncompressed_size: len,
            file_name: name,
            extra_fields: Seq::empty(),
            data_position: 0,
        },
        data,
    }
}

impl FastZip {
    pub open spec fn wf(&self) -> bool {
        self.directories.wf()
    }

    pub fn enable_crc32_computer(&mut self)
        ensures
            final(self)@ == (FastZipView { crc32_computer: true, ..old(self)@ }),
            final(self).wf() == old(self).wf(),
    {
        self.crc32_computer = Bool { value: true };
    }

    pub fn disable_crc32_computer(&mut self)
        ensures
            final(self)@ == (FastZipView { crc32_computer: false, ..old(self)@ }),
            final(self).wf() == old(self).wf(),
    {
        self.crc32_computer = Bool { value: false };
    }

    /// Reads a conformant archive: scans for the end-of-central-directory record and reads the
    /// entries its central directory lists, each with its local header and payload.
    #[verifier::rlimit(60)]
    pub fn parse(b: &[u8]) -> (r: Result<FastZip, ZipError>)
        ensures
            match r {
                Ok(z) => z.wf() && parse_archive(b@, ZipModel::Parse) == Ok::<FastZipView, ZipError>(z@)
                    && eocd_distance(b@) == Ok::<u64, ZipError>(z.eocd_offset),
                Err(e) => parse_archive(b@, ZipModel::Parse) == Err::<FastZipView, ZipError>(e),
            },
    {
        reveal(parse_archive);
        let n: usize = b.len();
        let d = match parse_eocd_offset(b) {
            Ok(d) => d,
            Err(e) => {
                return Err(e);
            },
        };
        if d > n as u64 {
            return Err(ZipError::Io { pos: 0 });
        }
        let e = n - d as usize;
        if n - e < EOCD_MIN {
            return Err(ZipError::Io { pos: e as u64 });
        }
        if read_u32(b, e) != EOCD_SIGNATURE {
            return Err(ZipError::BadMagic { pos: e as u64, reason: BadMagicReason::Signature });
        }
        let clen = read_u16(b, e + 20) as usize;
        if n - e - EOCD_MIN < clen {
            return Err(ZipError::Io { pos: e as u64 });
        }
        let size = read_u32(b, e + 12);
        let offset = read_u32(b, e + 16);
        if size as usize > e || offset as usize > e - size as usize {
            return Err(ZipError::Io { pos: e as u64 });
        }
        let comment = copy_range(b, e + EOCD_MIN, clen);
        let start = e - size as usize;
        let base = start - offset as usize;
        let (directories, _) = match IndexDirectory::parse(b, start, ZipModel::Parse, read_u16(b, e + 10), base) {
            Ok(v) => v,
            Err(x) => {
                return Err(x);
            },
        };
        Ok(FastZip {
            crc32_computer: Bool { value: true },
            eocd_offset: d,
            number_of_disk: read_u16(b, e + 4),
            directory_starts: read_u16(b, e + 6),
            number_of_directory_disk: read_u16(b, e + 8),
            size,
            offset,
            comment,
            directories,
        })
    }

    /// Reads the snapshot form.
    #[verifier::rlimit(60)]
    pub fn from_bin(b: &[u8]) -> (r: Result<FastZip, ZipError>)
        ensures
            match r {
                Ok(z) => z.wf() && parse_archive(b@, ZipModel::Bin) == Ok::<FastZipView, ZipError>(z@),
                Err(e) => parse_archive(b@, ZipModel::Bin) == Err::<FastZipView, ZipError>(e),
            },
    {
        reveal(parse_archive);
        let n: usize = b.len();
        if n < BIN_HEADER {
            return Err(ZipError::Io { pos: 0 });
        }
        let clen = read_u16(b, 17) as usize;
        if n - BIN_HEADER < clen {
            return Err(ZipError::Io { pos: 0 });
        }
        let comment = copy_range(b, BIN_HEADER, clen);
        let (directories, _) = match IndexDirectory::parse(b, BIN_HEADER + clen, ZipModel::Bin, read_u16(b, 7), 0) {
            Ok(v) => v,
            Err(x) => {
                return Err(x);
            },
        };
        Ok(FastZip {
            crc32_computer: Bool { value: b[0] != 0 },
            eocd_offset: 0,
            number_of_disk: read_u16(b, 1),
            directory_starts: read_u16(b, 3),
            number_of_directory_disk: read_u16(b, 5),
            size: read_u32(b, 9),
            offset: read_u32(b, 13),
            comment,
            directories,
        })
    }

    /// Appends the snapshot form.
    pub fn to_bin(&self, out: &mut Vec<u8>)
        requires
            self.wf(),
        ensures
            final(out)@ == old(out)@ + bin_bytes(self@),
    {
        let mut v: Vec<u8> = Vec::new();
        write_u8(&mut v, if self.crc32_computer.value { 1 } else { 0 });
        assert(v@ =~= seq![if self.crc32_computer.value { 1u8 } else { 0u8 }]);
        write_u16(&mut v, self.number_of_disk);
        write_u16(&mut v, self.directory_starts);
        write_u16(&mut v, self.number_of_directory_disk);
        write_u16(&mut v, self.directories.len() as u16);
        write_u32(&mut v, self.size);
        write_u32(&mut v, self.offset);
        write_u16(&mut v, self.comment.len() as u16);
        write_bytes(&mut v, self.comment.as_slice());
        self.directories.write(&mut v, ZipModel::Bin);
        assert(v@ == bin_bytes(self@));
        write_bytes(out, v.as_slice());
    }

    /// Whether a sample of a payload looks binary rather than text.
    pub fn is_binary(data: &[u8]) -> (r: bool)
        ensures
            r == spec_is_binary(data@),
    {
        let mut count: usize = 0;
        let mut i: usize = 0;
        while i < data.len()
            invariant
                i <= data@.len(),
                count == non_text_count(data@.take(i as int)),
                count <= i,
            decreases data@.len() - i,
        {
            let c = data[i];
            proof {
                assert(data@.take(i + 1).drop_last() =~= data@.take(i as int));
            }
            if !((0x20 <= c && c <= 0x7e) || c == 9 || c == 10 || c == 11 || c == 13) {
                count += 1;
            }
            i += 1;
        }
        assert(data@.take(data@.len() as int) =~= data@);
        (count as u128) * 10 > (data.len() as u128) * 3
    }

    /// Adds a file entry for `data` under `file_name` (method Deflate, not yet compressed),
    /// replacing an entry of the same name in place.
    pub fn add_file(&mut self, data: Vec<u8>, file_name: &str)
        requires
            old(self).wf(),
        ensures
            final(self).wf(),
            final(self)@ == (FastZipView {
                entries: upsert(old(self)@.entries, new_entry_view(data@, file_name.spec_bytes())),
                ..old(self)@
            }),
    {
        let length = data.len();
        let size = length as u32;
        let sample_len: usize = if length < 1024 { length } else { 1024 };
        let sample = copy_range(data.as_slice(), 0, sample_len);
        assert(sample@ =~= data@.take(min(data@.len() as int, 1024)));
        let internal_file_attributes: u16 = if Self::is_binary(sample.as_slice()) { 0 } else { 1 };
        let name = Name::from(file_name);
        let directory = Directory {
            compressed: Bool { value: false },
            created_zip_spec: 0x1e,
            created_os: 0x03,
            extract_zip_spec: 0x0e,
            extract_os: 0,
            compression_method: CompressionMethod::Deflate,
            last_modification_time: 39620,
            last_modification_date: 23170,
            crc_32_uncompressed_data: 0,
            compressed_size: size,
            uncompressed_size: size,
            number_of_starts: 0,
            internal_file_attributes,
            offset_of_local_file_header: 0,
            file_name: name.duplicate(),
            extra_fields: ExtraList(Vec::new()),
            file_comment: Vec::new(),
            file: ZipFile {
                extract_os: 0,
                compression_method: CompressionMethod::Deflate,
                last_modification_time: 39620,
                last_modification_date: 23170,
                crc_32_uncompressed_data: 0,
                compressed_size: size,
                uncompressed_size: size,
                file_name: name,
                extra_fields: ExtraList(Vec::new()),
                data_position: 0,
            },
            data,
        };
        assert(directory@ =~= new_entry_view(directory.data@, file_name.spec_bytes()));
        self.directories.insert(directory);
    }

    /// Replaces the payload of the entry named `file_name`, or adds a new entry.
    pub fn save_file(&mut self, data: Vec<u8>, file_name: &str)
        requires
            old(self).wf(),
        ensures
            final(self).wf(),
            ({
                let s = old(self)@.entries;
                let i = find_name(s, file_name.spec_bytes());
                final(self)@ == (FastZipView {
                    entries: if i >= 0 {
                        s.update(i, put_data_view(s[i], data@))
                    } else {
                        upsert(s, new_entry_view(data@, file_name.spec_bytes()))
                    },
                    ..old(self)@
                })
            }),
    {
        match self.directories.position(file_name.as_bytes()) {
            Some(i) => self.directories.put_data_at(i, data),
            None => self.add_file(data, file_name),
        }
    }

    /// Inserts an entry by name after giving its local header the entry's name; fails when the
    /// name is not UTF-8 or the entry holds compressed bytes under a method other than Deflate.
    pub fn add_directory(&mut self, dir: Directory) -> (r: Result<(), ZipError>)
        requires
            old(self).wf(),
        ensures
            final(self).wf(),
            valid_utf8(dir@.file_name) && held_ok(dir@) ==> r is Ok && final(self)@ == (FastZipView {
                entries: upsert(old(self)@.entries, DirectoryView {
                    file: ZipFileView { file_name: dir@.file_name, ..dir@.file },
                    ..dir@
                }),
                ..old(self)@
            }),
            !valid_utf8(dir@.file_name) ==> r == Err::<(), ZipError>(ZipError::NameNotUtf8 { pos: 0 })
                && final(self)@ == old(self)@,
            valid_utf8(dir@.file_name) && !held_ok(dir@) ==> r == Err::<(), ZipError>(
                ZipError::BadMagic { pos: 0, reason: BadMagicReason::CompressedNotDeflate },
            ) && final(self)@ == old(self)@,
    {
        let mut dir = dir;
        dir.file.file_name = dir.file_name.duplicate();
        if utf8_string(clone_bytes(&dir.file_name.inner)).is_none() {
            return Err(ZipError::NameNotUtf8 { pos: 0 });
        }
        if dir.compressed.value && dir.compression_method != CompressionMethod::Deflate {
            return Err(ZipError::BadMagic { pos: 0, reason: BadMagicReason::CompressedNotDeflate });
        }
        self.directories.insert(dir);
        Ok(())
    }

    /// Removes the entry named `file_name`; the others keep their order.
    pub fn remove_file(&mut self, file_name: &str)
        requires
            old(self).wf(),
        ensures
            final(self).wf(),
            final(self)@ == (FastZipView {
                entries: remove_named(old(self)@.entries, file_name.spec_bytes()),
                ..old(self)@
            }),
    {
        self.directories.remove(file_name.as_bytes());
    }
}

/// The reports `package_with_callback` made, in order: the total of bytes to compress, the
/// running count of compressed bytes produced, and that count as a percentage of the total.
pub struct PackageProgress {
    pub reports: Vec<(usize, usize, String)>,
}

impl PackageProgress {
    pub fn new() -> (r: PackageProgress)
        ensures
            r.reports@ == Seq::<(usize, usize, String)>::empty(),
    {
        PackageProgress { reports: Vec::new() }
    }
}

/// A report with its text as characters.
pub open spec fn report_view(r: (usize, usize, String)) -> (usize, usize, Seq<char>) {
    (r.0, r.1, r.2@)
}

pub open spec fn reports_view(v: Seq<(usize, usize, String)>) -> Seq<(usize, usize, Seq<char>)> {
    v.map_values(|r: (usize, usize, String)| report_view(r))
}

/// Whether `package` compresses this entry and so reports progress for it.
pub open spec fn reports_progress(d: DirectoryView) -> bool {
    eligible(d) && d.data.len() > 0
}

/// The compressed bytes `package` produces for the entries of `s` that it compresses.
pub open spec fn produced(s: Seq<DirectoryView>, crc32_computer: bool, level: u8) -> nat
    decreases s.len(),
{
    if s.len() == 0 {
        0
    } else {
        produced(s.drop_last(), crc32_computer, level) + if reports_progress(s.last()) {
            spec_compress(s.last(), crc32_computer, level).data.len()
        } else {
            0
        }
    }
}

/// The text of a running count as a percentage of `total`.
pub open spec fn percent_of(total: usize, sum: usize) -> Seq<char> {
    percent_text_of(
        (percent_hundredths(total, sum) / 100) as u128,
        (percent_hundredths(total, sum) % 100) as u128,
    )
}

/// The reports `package` makes for the entries `s`: one per entry it compresses, carrying
/// `total`, the running count of produced bytes (saturating) and its percentage.
pub open spec fn package_reports(s: Seq<DirectoryView>, crc32_computer: bool, level: u8, total: usize) -> Seq<(usize, usize, Seq<char>)>
    decreases s.len(),
{
    if s.len() == 0 {
        Seq::empty()
    } else {
        let prev = package_reports(s.drop_last(), crc32_computer, level, total);
        if reports_progress(s.last()) {
            let sum = min(produced(s, crc32_computer, level) as int, usize::MAX as int) as usize;
            prev.push((total, sum, percent_of(total, sum)))
        } else {
            prev
        }
    }
}

/// When nothing is left to compress, `package` reports nothing.
pub proof fn lemma_no_reports_without_work(s: Seq<DirectoryView>, crc32_computer: bool, level: u8, total: usize)
    requires
        eligible_total(s) == 0,
    ensures
        package_reports(s, crc32_computer, level, total) == Seq::<(usize, usize, Seq<char>)>::empty(),
    decreases s.len(),
{
    if s.len() > 0 {
        lemma_no_reports_without_work(s.drop_last(), crc32_computer, level, total);
    }
}

/// Turns per-entry byte counts into running totals for a `PackageProgress`.
pub struct ProgressAdapter {
    pub total: usize,
    pub sum: usize,
}

/// A running count as hundredths of a percent of `total`, rounded to nearest.
pub open spec fn percent_hundredths(total: usize, sum: usize) -> int {
    if total == 0 {
        0
    } else {
        (sum * 10000 + total / 2) / total as int
    }
}

impl ProgressAdapter {
    /// Adds `x` to the running count (saturating) and returns the count and its percentage.
    pub fn advance(&mut self, x: usize) -> (r: (usize, String))
        ensures
            final(self).total == old(self).total,
            final(self).sum == min(old(self).sum + x, usize::MAX as int),
            r.0 == final(self).sum,
            r.1@ == percent_of(old(self).total, final(self).sum),
    {
        self.sum = self.sum.saturating_add(x);
        let h: u128 = if self.total == 0 {
            0
        } else {
            ((self.sum as u128) * 10000 + (self.total as u128) / 2) / (self.total as u128)
        };
        (self.sum, percent_text(h / 100, h % 100))
    }
}

/// An entry that `package` compresses first.
pub open spec fn eligible(d: DirectoryView) -> bool {
    !d.compressed && d.compression_method == CompressionMethod::Deflate
}

/// The total payload length of the entries that `package` will compress.
pub open spec fn eligible_total(s: Seq<DirectoryView>) -> nat
    decreases s.len(),
{
    if s.len() == 0 {
        0
    } else {
        eligible_total(s.drop_last()) + if eligible(s.last()) { s.last().data.len() } else { 0 }
    }
}

/// A local header and, for a file that is not empty, its payload, as `package` writes them
/// (an empty entry is written as `Store` with no payload).
#[verifier::opaque]
pub open spec fn local_block(d: DirectoryView) -> Seq<u8> {
    lfh_bytes(d.file, ZipModel::Package, d.uncompressed_size) + if is_dir_name(d.file_name)
        || d.uncompressed_size == 0 {
        Seq::empty()
    } else {
        d.data
    }
}

/// An entry that declares no uncompressed bytes gets a local block that is its local header
/// alone, with method `Store` and a zero compressed size.
pub proof fn lemma_empty_local_block(d: DirectoryView)
    requires
        d.uncompressed_size == 0,
    ensures
        local_block(d) == lfh_bytes(d.file, ZipModel::Package, 0),
        u16_at(local_block(d), 8) == 0,
        u32_at(local_block(d), 18) == 0,
{
    reveal(local_block);
    reveal(lfh_bytes);
    let x = lfh_bytes(d.file, ZipModel::Package, 0);
    assert(local_block(d) =~= x);
    assert(x.subrange(8, 10) =~= le16(0));
    assert(x.subrange(18, 22) =~= le32(0));
    crate::bytes::lemma_le16(x, 8, 0);
    crate::bytes::lemma_le32(x, 18, 0);
}

/// A local block does not depend on the recorded local-header offset.
pub proof fn lemma_local_block_offset(d: DirectoryView, offset: u32)
    ensures
        local_block(DirectoryView { offset_of_local_file_header: offset, ..d }) == local_block(d),
{
    reveal(local_block);
}

pub open spec fn locals(s: Seq<DirectoryView>) -> Seq<u8>
    decreases s.len(),
{
    if s.len() == 0 {
        Seq::empty()
    } else {
        locals(s.drop_last()) + local_block(s.last())
    }
}

/// The entries after the compression step of `package`.
pub open spec fn compressed_all(s: Seq<DirectoryView>, crc32_computer: bool, level: u8) -> Seq<DirectoryView> {
    s.map_values(|d: DirectoryView| spec_compress(d, crc32_computer, level))
}

/// The entries with each local-header offset set to where its block starts.
pub open spec fn placed(c: Seq<DirectoryView>) -> Seq<DirectoryView> {
    Seq::new(
        c.len(),
        |i: int| DirectoryView { offset_of_local_file_header: locals(c.take(i)).len() as u32, ..c[i] },
    )
}

/// The archive state after `package`.
pub open spec fn packaged(z: FastZipView, level: u8) -> FastZipView {
    let c = compressed_all(z.entries, z.crc32_computer, level);
    let p = placed(c);
    FastZipView {
        size: entries_bytes(p, ZipModel::Package).len() as u32,
        number_of_directory_disk: c.len() as u16,
        offset: locals(c).len() as u32,
        entries: p,
        ..z
    }
}

/// An end-of-central-directory record.
pub open spec fn eocd_bytes(z: FastZipView) -> Seq<u8> {
    le32(EOCD_SIGNATURE) + le16(z.number_of_disk) + le16(z.directory_starts) + le16(
        z.number_of_directory_disk,
    ) + le16(z.entries.len() as u16) + le32(z.size) + le32(z.offset) + le16(
        z.comment.len() as u16,
    ) + z.comment
}

/// The archive that `package` writes: local blocks, central directory, end record.
pub open spec fn package_bytes(z: FastZipView, level: u8) -> Seq<u8> {
    let f = packaged(z, level);
    locals(compressed_all(z.entries, z.crc32_computer, level)) + entries_bytes(f.entries, ZipModel::Package) + eocd_bytes(f)
}

impl Directory {
    /// Appends the entry's local header and, for a non-empty file, its payload, as `package`
    /// writes them.
    pub fn write_local(&self, out: &mut Vec<u8>)
        ensures
            final(out)@ == old(out)@ + local_block(self@),
    {
        reveal(local_block);
        self.file.write(out, ZipModel::Package, self.uncompressed_size);
        if !self.is_dir() && self.uncompressed_size != 0 {
            write_bytes(out, self.data.as_slice());
        } else {
            assert(final(out)@ + Seq::<u8>::empty() =~= final(out)@);
        }
        assert(final(out)@ =~= old(out)@ + local_block(self@));
    }
}

impl FastZip {
    /// The total payload length of the entries that still need compressing (saturating).
    pub fn computer_un_compress_size(&self) -> (r: usize)
        requires
            self.wf(),
        ensures
            r == min(eligible_total(self@.entries) as int, usize::MAX as int),
    {
        let mut total: usize = 0;
        let mut i: usize = 0;
        while i < self.directories.len()
            invariant
                self.wf(),
                i <= self@.entries.len(),
                total == min(eligible_total(self@.entries.take(i as int)) as int, usize::MAX as int),
            decreases self@.entries.len() - i,
        {
            let d = self.directories.get_index(i);
            proof {
                assert(self@.entries.take(i + 1).drop_last() =~= self@.entries.take(i as int));
            }
            if !d.compressed.value && d.compression_method == CompressionMethod::Deflate {
                total = total.saturating_add(d.data.len());
            }
            i += 1;
        }
        assert(self@.entries.take(self@.entries.len() as int) =~= self@.entries);
        total
    }

    /// A progress adapter over `total` bytes.
    pub fn create_adapter(total: usize) -> (r: ProgressAdapter)
        ensures
            r.total == total,
            r.sum == 0,
    {
        ProgressAdapter { total, sum: 0 }
    }

    /// Appends the end-of-central-directory record.
    pub fn write_eocd(&self, out: &mut Vec<u8>)
        requires
            self.wf(),
        ensures
            final(out)@ == old(out)@ + eocd_bytes(self@),
    {
        let mut v: Vec<u8> = Vec::new();
        write_u32(&mut v, Magic::EoCd.value());
        assert(v@ =~= le32(EOCD_SIGNATURE));
        write_u16(&mut v, self.number_of_disk);
        write_u16(&mut v, self.directory_starts);
        write_u16(&mut v, self.number_of_directory_disk);
        write_u16(&mut v, self.directories.len() as u16);
        write_u32(&mut v, self.size);
        write_u32(&mut v, self.offset);
        write_u16(&mut v, self.comment.len() as u16);
        write_bytes(&mut v, self.comment.as_slice());
        assert(v@ == eocd_bytes(self@));
        write_bytes(out, v.as_slice());
    }

    /// Writes the archive: compresses what is not yet compressed, then each entry's local header
    /// and payload, then the central directory and the end record.
    pub fn package(&mut self, compression_level: u8) -> (r: Vec<u8>)
        requires
            old(self).wf(),
        ensures
            final(self).wf(),
            final(self)@ == packaged(old(self)@, compression_level),
            r@ == package_bytes(old(self)@, compression_level),
            forall|j: int|
                0 <= j < old(self)@.entries.len() && eligible(#[trigger] old(self)@.entries[j])
                    && old(self)@.entries[j].data.len() > 0 ==> inflate_of(
                    final(self)@.entries[j].data,
                ) == Some(old(self)@.entries[j].data),
    {
        let mut quiet = PackageProgress::new();
        self.package_with_callback(compression_level, &mut quiet)
    }

    /// One step of `package`: compresses the entry at `i`, reports progress, records its
    /// offset and writes its local block to `out` and its record to `header`.
    #[verifier::rlimit(60)]
    fn package_entry(
        &mut self,
        i: usize,
        crc32_computer: bool,
        compression_level: u8,
        out: &mut Vec<u8>,
        header: &mut Vec<u8>,
        adapter: &mut ProgressAdapter,
        total: usize,
        callback: &mut PackageProgress,
    )
        requires
            old(self).wf(),
            i < old(self)@.entries.len(),
            old(adapter).total == total,
        ensures
            final(adapter).total == total,
            final(adapter).sum == if reports_progress(old(self)@.entries[i as int]) {
                min(old(adapter).sum + spec_compress(old(self)@.entries[i as int], crc32_computer, compression_level).data.len(), usize::MAX as int)
            } else {
                old(adapter).sum as int
            },
            reports_view(final(callback).reports@) == if reports_progress(old(self)@.entries[i as int]) {
                reports_view(old(callback).reports@).push((total, final(adapter).sum, percent_of(total, final(adapter).sum)))
            } else {
                reports_view(old(callback).reports@)
            },
            final(self).wf(),
            final(self)@ == (FastZipView {
                entries: old(self)@.entries.update(i as int, DirectoryView {
                    offset_of_local_file_header: old(out)@.len() as u32,
                    ..spec_compress(old(self)@.entries[i as int], crc32_computer, compression_level)
                }),
                ..old(self)@
            }),
            final(out)@ == old(out)@ + local_block(final(self)@.entries[i as int]),
            final(header)@ == old(header)@ + cde_bytes(final(self)@.entries[i as int], ZipModel::Package),
            eligible(old(self)@.entries[i as int]) && old(self)@.entries[i as int].data.len() > 0
                ==> inflate_of(final(self)@.entries[i as int].data) == Some(
                old(self)@.entries[i as int].data,
            ),
    {
        let was_eligible = {
            let d = self.directories.get_index(i);
            !d.compressed.value && d.compression_method == CompressionMethod::Deflate && d.data.len() > 0
        };
        self.directories.compress_at(i, crc32_computer, compression_level);
        if was_eligible {
            let produced = self.directories.get_index(i).data.len();
            let (sum, text) = adapter.advance(produced);
            let ghost before = callback.reports@;
            callback.reports.push((total, sum, text));
            proof {
                assert(reports_view(callback.reports@) =~= reports_view(before).push((total, sum, text@)));
            }
        }
        let offset = out.len() as u32;
        self.directories.set_offset_at(i, offset);
        proof {
            assert(self@.entries =~= old(self)@.entries.update(i as int, DirectoryView {
                offset_of_local_file_header: old(out)@.len() as u32,
                ..spec_compress(old(self)@.entries[i as int], crc32_computer, compression_level)
            }));
        }
        let d = self.directories.get_index(i);
        d.write_local(out);
        d.write(header, ZipModel::Package);
    }

    /// `package`, recording in `callback` the progress of the compression step.
    #[verifier::rlimit(80)]
    pub fn package_with_callback(&mut self, compression_level: u8, callback: &mut PackageProgress) -> (r: Vec<u8>)
        requires
            old(self).wf(),
        ensures
            reports_view(final(callback).reports@) == reports_view(old(callback).reports@) + package_reports(
                old(self)@.entries,
                old(self)@.crc32_computer,
                compression_level,
                min(eligible_total(old(self)@.entries) as int, usize::MAX as int) as usize,
            ),
            final(self).wf(),
            final(self)@ == packaged(old(self)@, compression_level),
            r@ == package_bytes(old(self)@, compression_level),
            forall|j: int|
                0 <= j < old(self)@.entries.len() && eligible(#[trigger] old(self)@.entries[j])
                    && old(self)@.entries[j].data.len() > 0 ==> inflate_of(
                    final(self)@.entries[j].data,
                ) == Some(old(self)@.entries[j].data),
    {
        let ghost z = self@;
        let ghost c = compressed_all(z.entries, z.crc32_computer, compression_level);
        let ghost p = placed(c);
        let total = self.computer_un_compress_size();
        let mut adapter = Self::create_adapter(total);
        let crc32_computer = self.crc32_computer.value;
        let mut out: Vec<u8> = Vec::new();
        let mut header: Vec<u8> = Vec::new();
        let count = self.directories.len();
        let mut i: usize = 0;
        while i < count
            invariant
                self.wf(),
                count == z.entries.len(),
                i <= count,
                c == compressed_all(z.entries, z.crc32_computer, compression_level),
                p == placed(c),
                c.len() == count,
                p.len() == count,
                crc32_computer == z.crc32_computer,
                self@ == (FastZipView { entries: self@.entries, ..z }),
                self@.entries.len() == count,
                forall|j: int| 0 <= j < i ==> #[trigger] self@.entries[j] == p[j],
                forall|j: int| i <= j < count ==> #[trigger] self@.entries[j] == z.entries[j],
                out@ == locals(c.take(i as int)),
                forall|j: int|
                    0 <= j < i && eligible(#[trigger] z.entries[j]) && z.entries[j].data.len() > 0
                        ==> inflate_of(self@.entries[j].data) == Some(z.entries[j].data),
                header@ == entries_bytes(p.take(i as int), ZipModel::Package),
                total == min(eligible_total(z.entries) as int, usize::MAX as int),
                adapter.total == total,
                adapter.sum == min(produced(z.entries.take(i as int), crc32_computer, compression_level) as int, usize::MAX as int),
                reports_view(callback.reports@) == reports_view(old(callback).reports@) + package_reports(
                    z.entries.take(i as int), crc32_computer, compression_level, total),
            decreases count - i,
        {
            let ghost before = self@.entries;
            let ghost out0 = out@;
            let ghost header0 = header@;
            self.package_entry(i, crc32_computer, compression_level, &mut out, &mut header, &mut adapter, total, callback);
            proof {
                assert(c[i as int] == spec_compress(z.entries[i as int], z.crc32_computer, compression_level));
                assert(self@.entries[i as int] == p[i as int]);
                assert(forall|j: int| 0 <= j < count && j != i ==> self@.entries[j] == before[j]);
            }
            proof {
                let t = z.entries.take(i + 1);
                assert(t.drop_last() =~= z.entries.take(i as int));
                assert(t.last() == z.entries[i as int]);
                assert(reports_view(callback.reports@) =~= reports_view(old(callback).reports@) + package_reports(
                    t, crc32_computer, compression_level, total));
                lemma_local_block_offset(c[i as int], out0.len() as u32);
                assert(c.take(i + 1).drop_last() =~= c.take(i as int));
                assert(p.take(i + 1).drop_last() =~= p.take(i as int));
                assert(out@ =~= locals(c.take(i + 1)));
                assert(header@ =~= entries_bytes(p.take(i + 1), ZipModel::Package));
            }
            i += 1;
        }
        proof {
            assert(z.entries.take(count as int) =~= z.entries);
            assert(c.take(count as int) =~= c);
            assert(p.take(count as int) =~= p);
            assert(self@.entries =~= p);
        }
        let files_size = out.len();
        write_bytes(&mut out, header.as_slice());
        self.size = header.len() as u32;
        self.number_of_directory_disk = self.directories.len() as u16;
        self.offset = files_size as u32;
        self.write_eocd(&mut out);
        proof {
            assert(self@ == packaged(z, compression_level));
        }
        out
    }
}

} // verus!
