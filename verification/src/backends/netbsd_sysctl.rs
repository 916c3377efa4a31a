//! Kernel-table query. The kernel is asked twice: first for the size of the
//! process table, then to fill a buffer of that size. The table may grow in
//! between, so a fill can fail for want of room; the request is then enlarged
//! and put again, a bounded number of times. The filled buffer is a flat run of
//! fixed-size records.

use crate::backends::{named_record, record_of};
use crate::text::{decode_lossy, utf8_lossy};
use vstd::prelude::*;
use vstd::slice::slice_subrange;

verus! {

/// Enumerates processes by querying the kernel's process table.
pub struct NetBsdSysctlBackend;

/// No query puts more fill requests than this.
pub const MAX_ATTEMPTS: u32 = 8;

/// Records of room that every buffer has beyond the declared element count.
pub const SLACK_RECORDS: usize = 64;

/// Elements added to the doubled count when a fill found the buffer too small.
pub const GROWTH_MARGIN: usize = 128;

/// The kernel takes the element count as a C `int`.
pub const MAX_COUNT: usize = 0x7fff_ffff;

/// Where the fields of one record lie.
pub struct Layout {
    pub size: int,
    pub pid_offset: int,
    pub name_offset: int,
    pub name_width: int,
    pub big_endian: bool,
}

impl Layout {
    /// Both fields lie inside the record; the process id takes four bytes.
    pub open spec fn valid(self) -> bool {
        &&& 0 <= self.pid_offset
        &&& self.pid_offset + 4 <= self.size
        &&& 0 <= self.name_offset
        &&& 0 <= self.name_width
        &&& self.name_offset + self.name_width <= self.size
    }
}

/// The layout of the kernel's process record, checked once when it is made.
#[derive(Clone, Copy, Debug)]
pub struct RecordLayout {
    size: usize,
    pid_offset: usize,
    name_offset: usize,
    name_width: usize,
    big_endian: bool,
}

impl View for RecordLayout {
    type V = Layout;

    closed spec fn view(&self) -> Layout {
        Layout {
            size: self.size as int,
            pid_offset: self.pid_offset as int,
            name_offset: self.name_offset as int,
            name_width: self.name_width as int,
            big_endian: self.big_endian,
        }
    }
}

impl RecordLayout {
    #[verifier::type_invariant]
    spec fn inv(self) -> bool {
        self@.valid()
    }

    /// A layout of `size` bytes per record, with a four-byte process id at
    /// `pid_offset` in the given byte order and a NUL-terminated name in the
    /// `name_width` bytes at `name_offset`. `None` if a field leaves the record.
    pub fn new(
        size: usize,
        pid_offset: usize,
        name_offset: usize,
        name_width: usize,
        big_endian: bool,
    ) -> (r: Option<RecordLayout>)
        ensures
            match r {
                Some(layout) => layout@.valid() && layout@ == (Layout {
                    size: size as int,
                    pid_offset: pid_offset as int,
                    name_offset: name_offset as int,
                    name_width: name_width as int,
                    big_endian,
                }),
                None => !(Layout {
                    size: size as int,
                    pid_offset: pid_offset as int,
                    name_offset: name_offset as int,
                    name_width: name_width as int,
                    big_endian,
                }).valid(),
            },
    {
        if size < 4 || pid_offset > size - 4 || name_offset > size || name_width > size
            - name_offset {
            None
        } else {
            Some(RecordLayout { size, pid_offset, name_offset, name_width, big_endian })
        }
    }

    pub fn size(&self) -> (r: usize)
        ensures
            r == self@.size,
            r >= 4,
    {
        proof {
            use_type_invariant(self);
        }
        self.size
    }
}

/// Bytes of buffer for `count` declared elements of `record_size` bytes each.
pub open spec fn capacity_of(count: int, record_size: int) -> int {
    (count + SLACK_RECORDS) * record_size
}

/// Whether a request for `count` elements can be put: the count fits a C `int`
/// and the buffer's size fits `usize`.
pub open spec fn representable(count: int, record_size: int) -> bool {
    1 <= count <= MAX_COUNT && capacity_of(count, record_size) <= usize::MAX
}

/// The element count that the first request declares when the size probe
/// reported `probed` bytes: as many records as that holds, and at least one.
pub open spec fn first_count(probed: int, record_size: int) -> int {
    if probed / record_size == 0 {
        1
    } else {
        probed / record_size
    }
}

/// The element count after a fill that found the buffer too small.
pub open spec fn grown(count: int) -> int {
    2 * count + GROWTH_MARGIN
}

/// One fill request, as the protocol sees it.
pub struct Request {
    pub attempt: int,
    pub count: int,
    pub record_size: int,
}

impl Request {
    pub open spec fn valid(self) -> bool {
        &&& 1 <= self.attempt <= MAX_ATTEMPTS
        &&& 1 <= self.record_size
        &&& representable(self.count, self.record_size)
    }

    pub open spec fn capacity(self) -> int {
        capacity_of(self.count, self.record_size)
    }
}

/// Why a fill request failed.
#[derive(Clone, Copy, Debug, PartialEq, Eq, Structural)]
pub enum FillFailure {
    /// The kernel reported that the buffer cannot hold the table.
    BufferTooSmall,
    /// Any other error.
    Other,
}

/// The request that follows `req` once it failed for `cause`, if the query goes
/// on: only a buffer found too small is tried again, only below the attempt
/// ceiling, and only while the enlarged request can be put.
pub open spec fn next_request(req: Request, cause: FillFailure) -> Option<Request> {
    if cause == FillFailure::BufferTooSmall && req.attempt < MAX_ATTEMPTS && representable(
        grown(req.count),
        req.record_size,
    ) {
        Some(
            Request {
                attempt: req.attempt + 1,
                count: grown(req.count),
                record_size: req.record_size,
            },
        )
    } else {
        None
    }
}

/// A fill request to put to the kernel: a buffer of `capacity()` bytes and a
/// declared element count of `count()`.
#[derive(Debug)]
pub struct FillRequest {
    attempt: u32,
    count: usize,
    record_size: usize,
}

impl View for FillRequest {
    type V = Request;

    closed spec fn view(&self) -> Request {
        Request {
            attempt: self.attempt as int,
            count: self.count as int,
            record_size: self.record_size as int,
        }
    }
}

/// What to do once the size probe has answered.
#[derive(Debug)]
pub enum Plan {
    /// The table is empty: there is nothing to fetch.
    Empty,
    /// Put this request.
    Fill(FillRequest),
    /// The table is too large for a request to describe it.
    TooLarge,
}

impl FillRequest {
    #[verifier::type_invariant]
    spec fn inv(self) -> bool {
        self@.valid()
    }

    fn make(attempt: u32, count: usize, record_size: usize) -> (r: Option<FillRequest>)
        requires
            1 <= attempt <= MAX_ATTEMPTS,
            1 <= record_size,
        ensures
            match r {
                Some(req) => representable(count as int, record_size as int) && req@ == (Request {
                    attempt: attempt as int,
                    count: count as int,
                    record_size: record_size as int,
                }),
                None => !representable(count as int, record_size as int),
            },
    {
        if count < 1 || count > MAX_COUNT {
            return None;
        }
        match (count + SLACK_RECORDS).checked_mul(record_size) {
            Some(_) => Some(FillRequest { attempt, count, record_size }),
            None => None,
        }
    }

    /// Which attempt of its query this is, counted from 1.
    pub fn attempt(&self) -> (r: u32)
        ensures
            r == self@.attempt,
            1 <= r <= MAX_ATTEMPTS,
    {
        proof {
            use_type_invariant(self);
        }
        self.attempt
    }

    /// The element count to declare.
    pub fn count(&self) -> (r: i32)
        ensures
            r == self@.count,
            r >= 1,
    {
        proof {
            use_type_invariant(self);
        }
        self.count as i32
    }

    /// The size in bytes of the buffer to hand over.
    pub fn capacity(&self) -> (r: usize)
        ensures
            r == self@.capacity(),
    {
        proof {
            use_type_invariant(self);
        }
        (self.count + SLACK_RECORDS) * self.record_size
    }

    /// The request to put after this one failed for `cause`, or `None` where the
    /// failure is to be reported. Each retry asks for strictly more room, and the
    /// attempt ceiling is never passed.
    pub fn retry(&self, cause: FillFailure) -> (r: Option<FillRequest>)
        ensures
            match r {
                Some(next) => next_request(self@, cause) == Some(next@) && next@.capacity()
                    > self@.capacity(),
                None => next_request(self@, cause) is None,
            },
    {
        proof {
            use_type_invariant(self);
        }
        match cause {
            FillFailure::Other => None,
            FillFailure::BufferTooSmall => {
                if self.attempt >= MAX_ATTEMPTS || self.count > (MAX_COUNT - GROWTH_MARGIN) / 2 {
                    None
                } else {
                    let r = FillRequest::make(
                        self.attempt + 1,
                        2 * self.count + GROWTH_MARGIN,
                        self.record_size,
                    );
                    proof {
                        lemma_growth(self@.count, self@.record_size);
                    }
                    r
                }
            },
        }
    }
}

/// A grown request asks for strictly more room.
pub proof fn lemma_growth(count: int, record_size: int)
    requires
        1 <= count,
        1 <= record_size,
    ensures
        grown(count) > count,
        capacity_of(grown(count), record_size) > capacity_of(count, record_size),
{
    assert((grown(count) + SLACK_RECORDS) * record_size > (count + SLACK_RECORDS) * record_size)
        by (nonlinear_arith)
        requires
            grown(count) > count,
            1 <= record_size,
    ;
}

/// The request of the `k`-th retry after `first`, for as long as the kernel
/// keeps finding the buffer too small.
pub open spec fn nth_retry(first: Request, k: nat) -> Option<Request>
    decreases k,
{
    if k == 0 {
        Some(first)
    } else {
        match nth_retry(first, (k - 1) as nat) {
            Some(prev) => next_request(prev, FillFailure::BufferTooSmall),
            None => None,
        }
    }
}

/// The retry ceiling: a query that starts with its first attempt and is always
/// told that the buffer is too small puts its `k`-th retry as attempt `k + 1`,
/// each with strictly more room than the one before, and puts no request at
/// all after `MAX_ATTEMPTS` of them.
pub proof fn law_retry_ceiling(first: Request, k: nat)
    requires
        first.valid(),
        first.attempt == 1,
    ensures
        nth_retry(first, k) matches Some(req) ==> req.valid() && req.attempt == k + 1,
        k >= MAX_ATTEMPTS ==> nth_retry(first, k) is None,
        k > 0 && nth_retry(first, k) is Some ==> nth_retry(first, (k - 1) as nat) is Some
            && nth_retry(first, (k - 1) as nat)->0.capacity() < nth_retry(first, k)->0.capacity(),
    decreases k,
{
    if k > 0 {
        law_retry_ceiling(first, (k - 1) as nat);
        match nth_retry(first, (k - 1) as nat) {
            Some(prev) => {
                lemma_growth(prev.count, prev.record_size);
            },
            None => {},
        }
    }
}

/// The bytes of `field` before its first NUL; all of it if it holds none.
pub open spec fn c_string(field: Seq<u8>) -> Seq<u8> {
    field.subrange(0, nul_index(field, 0))
}

/// The first index at or after `from` that holds a NUL, or the length of `field`.
pub open spec fn nul_index(field: Seq<u8>, from: int) -> int
    decreases field.len() - from,
{
    if 0 <= from < field.len() && field[from] != 0 {
        nul_index(field, from + 1)
    } else {
        from
    }
}

/// The process id that four bytes hold in the given byte order, as a signed
/// 32-bit number in two's complement.
pub open spec fn pid_value(b: Seq<u8>, big_endian: bool) -> i32 {
    let u = if big_endian {
        b[0] * 0x100_0000 + b[1] * 0x1_0000 + b[2] * 0x100 + b[3]
    } else {
        b[3] * 0x100_0000 + b[2] * 0x1_0000 + b[1] * 0x100 + b[0]
    };
    if u >= 0x8000_0000 {
        (u - 0x1_0000_0000) as i32
    } else {
        u as i32
    }
}

/// The name field of a record as text: its C string, decoded leniently.
pub open spec fn name_text(field: Seq<u8>) -> Seq<char> {
    utf8_lossy(c_string(field))
}

/// The process that record `i` of `bytes` describes, if it has a name.
pub open spec fn record_at(bytes: Seq<u8>, layout: Layout, i: int) -> Option<(i32, Seq<char>)> {
    let rec = bytes.subrange(i * layout.size, (i + 1) * layout.size);
    record_of(
        pid_value(rec.subrange(layout.pid_offset, layout.pid_offset + 4), layout.big_endian),
        name_text(rec.subrange(layout.name_offset, layout.name_offset + layout.name_width)),
    )
}

/// The processes that the first `n` records of `bytes` describe, in order.
pub open spec fn records(bytes: Seq<u8>, layout: Layout, n: int) -> Seq<(i32, Seq<char>)>
    decreases n,
{
    if n <= 0 {
        Seq::empty()
    } else {
        match record_at(bytes, layout, n - 1) {
            Some(r) => records(bytes, layout, n - 1).push(r),
            None => records(bytes, layout, n - 1),
        }
    }
}

/// The processes that a buffer describes: those of its whole records. A
/// trailing partial record is left out.
pub open spec fn table(bytes: Seq<u8>, layout: Layout) -> Seq<(i32, Seq<char>)> {
    records(bytes, layout, bytes.len() as int / layout.size)
}

/// The part of a buffer of `len` bytes that the kernel wrote, when it reports
/// `written` bytes.
pub open spec fn written_prefix(len: int, written: int) -> int {
    if written < len {
        written
    } else {
        len
    }
}

fn read_pid(b: &[u8], big_endian: bool) -> (r: i32)
    requires
        b@.len() == 4,
    ensures
        r == pid_value(b@, big_endian),
{
    let (b0, b1, b2, b3): (u8, u8, u8, u8) = if big_endian {
        (b[0], b[1], b[2], b[3])
    } else {
        (b[3], b[2], b[1], b[0])
    };
    let u: i64 = (b0 as i64) * 0x100_0000 + (b1 as i64) * 0x1_0000 + (b2 as i64) * 0x100 + (
    b3 as i64);
    if u >= 0x8000_0000 {
        (u - 0x1_0000_0000) as i32
    } else {
        u as i32
    }
}

fn nul_position(field: &[u8]) -> (r: usize)
    ensures
        r == nul_index(field@, 0),
        r <= field@.len(),
{
    let mut i: usize = 0;
    while i < field.len() && field[i] != 0
        invariant
            i <= field@.len(),
            nul_index(field@, i as int) == nul_index(field@, 0),
        decreases field@.len() - i,
    {
        i = i + 1;
    }
    i
}

impl NetBsdSysctlBackend {
    /// The first step of a query, once the size probe has reported `probed`
    /// bytes for the whole table.
    pub fn plan(layout: &RecordLayout, probed: usize) -> (r: Plan)
        ensures
            match r {
                Plan::Empty => probed == 0,
                Plan::Fill(req) => probed > 0 && req@.valid() && req@ == (Request {
                    attempt: 1,
                    count: first_count(probed as int, layout@.size),
                    record_size: layout@.size,
                }),
                Plan::TooLarge => probed > 0 && !representable(
                    first_count(probed as int, layout@.size),
                    layout@.size,
                ),
            },
    {
        if probed == 0 {
            return Plan::Empty;
        }
        let size = layout.size();
        let whole: usize = probed / size;
        let count: usize = if whole == 0 {
            1
        } else {
            whole
        };
        match FillRequest::make(1, count, size) {
            Some(req) => Plan::Fill(req),
            None => Plan::TooLarge,
        }
    }

    /// Decodes the buffer of a successful fill of which the kernel reports
    /// `written` bytes: only the written part is read, record by record.
    pub fn decode(layout: &RecordLayout, buf: &[u8], written: usize) -> (out: Vec<(i32, String)>)
        ensures
            out.deep_view() == table(
                buf@.subrange(0, written_prefix(buf@.len() as int, written as int)),
                layout@,
            ),
    {
        proof {
            use_type_invariant(layout);
        }
        let usable: usize = if written < buf.len() {
            written
        } else {
            buf.len()
        };
        let data = slice_subrange(buf, 0, usable);
        let size: usize = layout.size;
        let n: usize = usable / size;
        let mut out: Vec<(i32, String)> = Vec::new();
        let mut i: usize = 0;
        let mut base: usize = 0;
        assert(n * size <= usable) by (nonlinear_arith)
            requires
                n == usable / size,
                size > 0,
        ;
        while i < n
            invariant
                i <= n,
                base == i * size,
                n * size <= data@.len() == usable,
                size == layout.size,
                layout@.valid(),
                out.deep_view() == records(data@, layout@, i as int),
            decreases n - i,
        {
            assert(base + size == (i + 1) * size && (i + 1) * size <= n * size)
                by (nonlinear_arith)
                requires
                    i < n,
                    base == i * size,
                    size >= 0,
            ;
            let rec = slice_subrange(data, base, base + size);
            let pid = read_pid(
                slice_subrange(rec, layout.pid_offset, layout.pid_offset + 4),
                layout.big_endian,
            );
            let field = slice_subrange(
                rec,
                layout.name_offset,
                layout.name_offset + layout.name_width,
            );
            let text = decode_lossy(slice_subrange(field, 0, nul_position(field)));
            let ghost before = out.deep_view();
            match named_record(pid, text.as_str()) {
                Some(r) => {
                    out.push(r);
                    assert(out.deep_view() =~= before.push(r.deep_view()));
                },
                None => {},
            }
            i = i + 1;
            base = base + size;
        }
        out
    }
}

} // verus!
