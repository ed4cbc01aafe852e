use vstd::prelude::*;
use crate::bytes::{le16, le32, le64, read_u16, read_u32, read_u64, u16_at, u32_at, u64_at, write_u16, write_u32, write_u64, write_u8};
use crate::error::{BadMagicReason, ZipError};

verus! {

broadcast use vstd::layout::layout_of_primitives;

/// One tagged extra-field record.
#[derive(Debug, Clone, Copy, PartialEq, Eq)]
pub enum Extra {
    /// Header id 0x000A: three Windows FILETIMEs.
    NTFS { mtime: u64, atime: u64, ctime: u64 },
    /// Header id 0x5455: up to three Unix times in seconds.
    UnixExtendedTimestamp { mtime: Option<i32>, atime: Option<i32>, ctime: Option<i32> },
    /// Header id 0x7875: Unix owner and group.
    UnixAttrs { uid: u32, gid: u32 },
}

/// An ordered list of extra-field records.
#[derive(Debug, Clone)]
pub struct ExtraList(pub Vec<Extra>);

impl View for ExtraList {
    type V = Seq<Extra>;

    open spec fn view(&self) -> Seq<Extra> {
        self.0@
    }
}

pub open spec fn opt_size(o: Option<i32>) -> int {
    if o is Some { 4 } else { 0 }
}

pub open spec fn spec_header_id(e: Extra) -> u16 {
    match e {
        Extra::NTFS { .. } => 0x000a,
        Extra::UnixExtendedTimestamp { .. } => 0x5455,
        Extra::UnixAttrs { .. } => 0x7875,
    }
}

/// The length of a record's payload, after its four header bytes.
pub open spec fn spec_field_size(e: Extra) -> int {
    match e {
        Extra::NTFS { .. } => 32,
        Extra::UnixExtendedTimestamp { mtime, atime, ctime } => 1 + opt_size(mtime) + opt_size(
            atime,
        ) + opt_size(ctime),
        Extra::UnixAttrs { .. } => 11,
    }
}

pub open spec fn opt_bytes(o: Option<i32>) -> Seq<u8> {
    match o {
        Some(v) => le32(v as u32),
        None => Seq::empty(),
    }
}

/// The on-wire form of one record; an extended timestamp always carries flags 0x03.
pub open spec fn extra_bytes(e: Extra) -> Seq<u8> {
    le16(spec_header_id(e)) + le16(spec_field_size(e) as u16) + match e {
        Extra::NTFS { mtime, atime, ctime } => le32(0) + le16(1) + le16(24) + le64(mtime) + le64(
            atime,
        ) + le64(ctime),
        Extra::UnixExtendedTimestamp { mtime, atime, ctime } => seq![3u8] + opt_bytes(mtime)
            + opt_bytes(atime) + opt_bytes(ctime),
        Extra::UnixAttrs { uid, gid } => seq![1u8, 4u8] + le32(uid) + seq![4u8] + le32(gid),
    }
}

/// The on-wire form of a list: the records one after another.
pub open spec fn extras_bytes(s: Seq<Extra>) -> Seq<u8>
    decreases s.len(),
{
    if s.len() == 0 {
        Seq::empty()
    } else {
        extras_bytes(s.drop_last()) + extra_bytes(s.last())
    }
}

pub open spec fn io_error(p: int) -> ZipError {
    ZipError::Io { pos: p as u64 }
}

/// Reads one record at `p`: the record and the position after it.
#[verifier::opaque]
pub open spec fn parse_extra(b: Seq<u8>, p: int) -> Result<(Extra, int), ZipError> {
    if p + 2 > b.len() {
        Err(io_error(p))
    } else if u16_at(b, p) != 0x000a && u16_at(b, p) != 0x5455 && u16_at(b, p) != 0x7875 {
        Err(
            ZipError::BadMagic {
                pos: (p + 2) as u64,
                reason: BadMagicReason::ExtraId(u16_at(b, p)),
            },
        )
    } else if p + 4 > b.len() {
        Err(io_error(p))
    } else {
        let id = u16_at(b, p);
        let length = u16_at(b, p + 2) as int;
        if id == 0x000a {
            if p + 10 > b.len() {
                Err(io_error(p))
            } else if u16_at(b, p + 8) != 1 {
                Err(ZipError::BadMagic { pos: (p + 10) as u64, reason: BadMagicReason::NtfsTag })
            } else if p + 12 > b.len() {
                Err(io_error(p))
            } else if u16_at(b, p + 10) != 24 {
                Err(ZipError::BadMagic { pos: (p + 12) as u64, reason: BadMagicReason::NtfsSize })
            } else {
                let rem = length - 8;
                let n: int = if rem > 16 {
                    3
                } else if rem > 8 {
                    2
                } else if rem > 0 {
                    1
                } else {
                    0
                };
                let end = p + 12 + 8 * n;
                if end > b.len() {
                    Err(io_error(p))
                } else {
                    Ok(
                        (
                            Extra::NTFS {
                                mtime: if n >= 1 { u64_at(b, p + 12) } else { 0 },
                                atime: if n >= 2 { u64_at(b, p + 20) } else { 0 },
                                ctime: if n >= 3 { u64_at(b, p + 28) } else { 0 },
                            },
                            end,
                        ),
                    )
                }
            }
        } else if id == 0x5455 {
            if p + 5 > b.len() {
                Err(io_error(p))
            } else {
                let flags = b[p + 4];
                let hm = flags & 1u8 != 0;
                let r1 = length - 1 - (if hm { 4int } else { 0 });
                let ha = flags & 2u8 != 0 && r1 > 0;
                let r2 = r1 - (if ha { 4int } else { 0 });
                let hc = flags & 4u8 != 0 && r2 > 0;
                let r3 = r2 - (if hc { 4int } else { 0 });
                let qa = p + 5 + (if hm { 4int } else { 0 });
                let qc = qa + (if ha { 4int } else { 0 });
                let qe = qc + (if hc { 4int } else { 0 });
                let end = qe + (if r3 > 0 { 4int } else { 0 });
                if end > b.len() {
                    Err(io_error(p))
                } else if flags & 0xf8u8 != 0 {
                    Err(
                        ZipError::BadMagic {
                            pos: end as u64,
                            reason: BadMagicReason::TimestampFlags,
                        },
                    )
                } else {
                    Ok(
                        (
                            Extra::UnixExtendedTimestamp {
                                mtime: if hm { Some(u32_at(b, p + 5) as i32) } else { None },
                                atime: if ha { Some(u32_at(b, qa) as i32) } else { None },
                                ctime: if hc { Some(u32_at(b, qc) as i32) } else { None },
                            },
                            end,
                        ),
                    )
                }
            }
        } else {
            if p + 15 > b.len() {
                Err(io_error(p))
            } else {
                Ok((Extra::UnixAttrs { uid: u32_at(b, p + 6), gid: u32_at(b, p + 11) }, p + 15))
            }
        }
    }
}

/// Reads records from `q` until the position reaches `target`.
pub open spec fn parse_extras_from(b: Seq<u8>, q: int, target: int) -> Result<
    (Seq<Extra>, int),
    ZipError,
>
    decreases b.len() - q,
{
    match parse_extra(b, q) {
        Err(e) => Err(e),
        Ok((e, q2)) => if q2 >= target {
            Ok((seq![e], q2))
        } else if q < q2 <= b.len() {
            match parse_extras_from(b, q2, target) {
                Ok((rest, q3)) => Ok((seq![e] + rest, q3)),
                Err(x) => Err(x),
            }
        } else {
            Err(io_error(q))
        },
    }
}

/// Reads an extra-field list whose declared length is `len`.
pub open spec fn parse_extra_list(b: Seq<u8>, p: int, len: u16) -> Result<
    (Seq<Extra>, int),
    ZipError,
> {
    if len == 0 {
        Ok((Seq::empty(), p))
    } else {
        parse_extras_from(b, p, p + len)
    }
}

proof fn lemma_parse_extra_advances(b: Seq<u8>, p: int)
    ensures
        parse_extra(b, p) matches Ok((_, q)) ==> p + 5 <= q <= b.len(),
{
    reveal(parse_extra);
}

proof fn lemma_parse_extras_from_bounds(b: Seq<u8>, q: int, target: int)
    ensures
        parse_extras_from(b, q, target) matches Ok((_, e)) ==> q < e <= b.len(),
    decreases b.len() - q,
{
    lemma_parse_extra_advances(b, q);
    if let Ok((_, q2)) = parse_extra(b, q) {
        if q2 < target && q < q2 <= b.len() {
            lemma_parse_extras_from_bounds(b, q2, target);
        }
    }
}

/// A list that was read ends after its start and within the input.
pub proof fn lemma_parse_extra_list_bounds(b: Seq<u8>, p: int, len: u16)
    ensures
        parse_extra_list(b, p, len) matches Ok((_, e)) ==> p <= e && (len > 0 ==> e <= b.len()),
{
    if len > 0 {
        lemma_parse_extras_from_bounds(b, p, p + len);
    }
}

impl Extra {
    pub fn optional_field_size<T: Sized>(field: &Option<T>) -> (r: u16)
        requires
            vstd::layout::size_of::<T>() <= 0xffff,
        ensures
            r == (if field is Some { vstd::layout::size_of::<T>() } else { 0 }),
    {
        match field {
            None => 0,
            Some(_) => core::mem::size_of::<T>() as u16,
        }
    }

    /// The record's length on the wire, header included.
    pub fn size(&self) -> (r: u16)
        ensures
            r == 4 + spec_field_size(*self),
    {
        2 + 2 + self.field_size()
    }

    pub fn field_size(&self) -> (r: u16)
        ensures
            r == spec_field_size(*self),
    {
        match self {
            Extra::NTFS { .. } => 32,
            Extra::UnixExtendedTimestamp { atime, ctime, mtime } => {
                1 + Self::optional_field_size(mtime) + Self::optional_field_size(atime)
                    + Self::optional_field_size(ctime)
            },
            Extra::UnixAttrs { .. } => 11,
        }
    }

    pub fn header_id(&self) -> (r: u16)
        ensures
            r == spec_header_id(*self),
    {
        match self {
            Extra::NTFS { .. } => 0x000a,
            Extra::UnixExtendedTimestamp { .. } => 0x5455,
            Extra::UnixAttrs { .. } => 0x7875,
        }
    }

    /// `if_present` when `val` holds a value, else zero.
    pub fn if_present(val: Option<i32>, if_present: u8) -> (r: u8)
        ensures
            r == (if val is Some { if_present } else { 0 }),
    {
        match val {
            Some(_) => if_present,
            None => 0,
        }
    }

    /// Appends the record's on-wire form.
    pub fn write(&self, out: &mut Vec<u8>)
        ensures
            final(out)@ == old(out)@ + extra_bytes(*self),
    {
        let start = Ghost(out@);
        write_u16(out, self.header_id());
        write_u16(out, self.field_size());
        match self {
            Extra::NTFS { mtime, atime, ctime } => {
                write_u32(out, 0);
                write_u16(out, 1);
                write_u16(out, 24);
                write_u64(out, *mtime);
                write_u64(out, *atime);
                write_u64(out, *ctime);
            },
            Extra::UnixExtendedTimestamp { mtime, atime, ctime } => {
                write_u8(out, 3);
                write_opt(out, *mtime);
                write_opt(out, *atime);
                write_opt(out, *ctime);
            },
            Extra::UnixAttrs { uid, gid } => {
                write_u8(out, 1);
                write_u8(out, 4);
                write_u32(out, *uid);
                write_u8(out, 4);
                write_u32(out, *gid);
            },
        }
        assert(out@ =~= start@ + extra_bytes(*self));
    }

    /// Reads one record at `p`.
    #[verifier::rlimit(60)]
    pub fn parse(b: &[u8], p: usize) -> (r: Result<(Extra, usize), ZipError>)
        ensures
            match r {
                Ok((e, q)) => parse_extra(b@, p as int) == Ok::<(Extra, int), ZipError>(
                    (e, q as int),
                ),
                Err(x) => parse_extra(b@, p as int) == Err::<(Extra, int), ZipError>(x),
            },
    {
        reveal(parse_extra);
        let n: usize = b.len();
        if p > n || n - p < 2 {
            return Err(ZipError::Io { pos: p as u64 });
        }
        let id = read_u16(b, p);
        if id != 0x000a && id != 0x5455 && id != 0x7875 {
            return Err(ZipError::BadMagic { pos: (p + 2) as u64, reason: BadMagicReason::ExtraId(id) });
        }
        if n - p < 4 {
            return Err(ZipError::Io { pos: p as u64 });
        }
        let length = read_u16(b, p + 2) as usize;
        if id == 0x000a {
            if n - p < 10 {
                return Err(ZipError::Io { pos: p as u64 });
            }
            if read_u16(b, p + 8) != 1 {
                return Err(
                    ZipError::BadMagic { pos: (p + 10) as u64, reason: BadMagicReason::NtfsTag },
                );
            }
            if n - p < 12 {
                return Err(ZipError::Io { pos: p as u64 });
            }
            if read_u16(b, p + 10) != 24 {
                return Err(
                    ZipError::BadMagic { pos: (p + 12) as u64, reason: BadMagicReason::NtfsSize },
                );
            }
            let k: usize = if length > 24 {
                3
            } else if length > 16 {
                2
            } else if length > 8 {
                1
            } else {
                0
            };
            if n - p < 12 + 8 * k {
                return Err(ZipError::Io { pos: p as u64 });
            }
            let mtime = if k >= 1 { read_u64(b, p + 12) } else { 0 };
            let atime = if k >= 2 { read_u64(b, p + 20) } else { 0 };
            let ctime = if k >= 3 { read_u64(b, p + 28) } else { 0 };
            Ok((Extra::NTFS { mtime, atime, ctime }, p + 12 + 8 * k))
        } else if id == 0x5455 {
            if n - p < 5 {
                return Err(ZipError::Io { pos: p as u64 });
            }
            let flags = b[p + 4];
            let hm = flags & 1u8 != 0;
            let mut rem: i64 = length as i64 - 1;
            let mut size: usize = 5;
            let mut mtime: Option<i32> = None;
            let mut atime: Option<i32> = None;
            let mut ctime: Option<i32> = None;
            if hm {
                rem = rem - 4;
                size = size + 4;
            }
            let ha = flags & 2u8 != 0 && rem > 0;
            let oa = size;
            if ha {
                rem = rem - 4;
                size = size + 4;
            }
            let hc = flags & 4u8 != 0 && rem > 0;
            let oc = size;
            if hc {
                rem = rem - 4;
                size = size + 4;
            }
            if rem > 0 {
                size = size + 4;
            }
            if n - p < size {
                return Err(ZipError::Io { pos: p as u64 });
            }
            if flags & 0xf8u8 != 0 {
                return Err(
                    ZipError::BadMagic {
                        pos: (p + size) as u64,
                        reason: BadMagicReason::TimestampFlags,
                    },
                );
            }
            if hm {
                mtime = Some(#[verifier::truncate] (read_u32(b, p + 5) as i32));
            }
            if ha {
                atime = Some(#[verifier::truncate] (read_u32(b, p + oa) as i32));
            }
            if hc {
                ctime = Some(#[verifier::truncate] (read_u32(b, p + oc) as i32));
            }
            Ok((Extra::UnixExtendedTimestamp { mtime, atime, ctime }, p + size))
        } else {
            if n - p < 15 {
                return Err(ZipError::Io { pos: p as u64 });
            }
            let uid = read_u32(b, p + 6);
            let gid = read_u32(b, p + 11);
            Ok((Extra::UnixAttrs { uid, gid }, p + 15))
        }
    }
}

fn write_opt(out: &mut Vec<u8>, o: Option<i32>)
    ensures
        final(out)@ == old(out)@ + opt_bytes(o),
{
    match o {
        Some(v) => write_u32(out, v as u32),
        None => {
            assert(old(out)@ + opt_bytes(o) =~= old(out)@);
        },
    }
}

impl From<Vec<Extra>> for ExtraList {
    fn from(value: Vec<Extra>) -> (r: ExtraList)
        ensures
            r@ == value@,
    {
        ExtraList(value)
    }
}

impl vstd::std_specs::convert::FromSpecImpl<Vec<Extra>> for ExtraList {
    open spec fn obeys_from_spec() -> bool {
        true
    }

    open spec fn from_spec(v: Vec<Extra>) -> ExtraList {
        ExtraList(v)
    }
}

impl ExtraList {
    /// The length of the list on the wire, found by writing it to a scratch buffer.
    pub fn bytes(&self) -> (r: u16)
        ensures
            r == extras_bytes(self@).len() as u16,
    {
        let mut scratch: Vec<u8> = Vec::new();
        self.write(&mut scratch);
        assert(scratch@ =~= extras_bytes(self@));
        scratch.len() as u16
    }

    /// Appends every record in order.
    pub fn write(&self, out: &mut Vec<u8>)
        ensures
            final(out)@ == old(out)@ + extras_bytes(self@),
    {
        let mut i: usize = 0;
        while i < self.0.len()
            invariant
                i <= self@.len(),
                out@ == old(out)@ + extras_bytes(self@.subrange(0, i as int)),
            decreases self@.len() - i,
        {
            let ghost before = out@;
            self.0[i].write(out);
            proof {
                let s = self@.subrange(0, i + 1);
                assert(s.drop_last() =~= self@.subrange(0, i as int));
                assert(out@ =~= old(out)@ + extras_bytes(s));
            }
            i += 1;
        }
        assert(self@.subrange(0, self@.len() as int) =~= self@);
    }

    /// Reads records from `p` until at least `len` bytes are consumed.
    pub fn parse(b: &[u8], p: usize, len: u16) -> (r: Result<(ExtraList, usize), ZipError>)
        ensures
            match r {
                Ok((l, q)) => parse_extra_list(b@, p as int, len) == Ok::<
                    (Seq<Extra>, int),
                    ZipError,
                >((l@, q as int)),
                Err(x) => parse_extra_list(b@, p as int, len) == Err::<(Seq<Extra>, int), ZipError>(
                    x,
                ),
            },
    {
        let mut list: Vec<Extra> = Vec::new();
        if len == 0 {
            assert(list@ =~= Seq::<Extra>::empty());
            return Ok((ExtraList(list), p));
        }
        let target: Ghost<int> = Ghost(p + len);
        let mut q = p;
        loop
            invariant
                p <= q,
                len > 0,
                q > p ==> q - p < len,
                target@ == p + len,
                parse_extras_from(b@, p as int, target@) == match parse_extras_from(
                    b@,
                    q as int,
                    target@,
                ) {
                    Ok((rest, e)) => Ok((list@ + rest, e)),
                    Err(x) => Err(x),
                },
            decreases b@.len() - q,
        {
            proof {
                lemma_parse_extra_advances(b@, q as int);
            }
            let res = Extra::parse(b, q);
            assert(parse_extras_from(b@, q as int, target@) == match parse_extra(b@, q as int) {
                Err(e) => Err(e),
                Ok((e, q2)) => if q2 >= target@ {
                    Ok((seq![e], q2))
                } else if q < q2 <= b@.len() {
                    match parse_extras_from(b@, q2, target@) {
                        Ok((rest, q3)) => Ok((seq![e] + rest, q3)),
                        Err(x) => Err(x),
                    }
                } else {
                    Err(io_error(q as int))
                },
            });
            match res {
                Err(x) => {
                    return Err(x);
                },
                Ok((e, q2)) => {
                    let ghost prev = list@;
                    list.push(e);
                    if q2 - p >= len as usize {
                        assert(list@ =~= prev + seq![e]);
                        return Ok((ExtraList(list), q2));
                    }
                    proof {
                        assert(list@ =~= prev + seq![e]);
                        match parse_extras_from(b@, q2 as int, target@) {
                            Ok((rest, e3)) => {
                                assert(prev + (seq![e] + rest) =~= list@ + rest);
                            },
                            Err(_) => {},
                        }
                    }
                    q = q2;
                },
            }
        }
    }
}

} // verus!
