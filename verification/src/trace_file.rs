//! The binary trace file: a 24-byte header followed by 40-byte event records,
//! every integer in the byte order of the machine that writes the file.
use vstd::prelude::*;
use vstd::bytes::*;
use vstd::slice::slice_subrange;

verus! {

/// Length in bytes of an encoded [`FileHeader`].
pub const HEADER_SIZE: usize = 24;

/// Length in bytes of an encoded [`EventRecord`].
pub const RECORD_SIZE: usize = 40;

/// The four bytes every trace file starts with: `b"ojo\0"`.
pub open spec fn magic_bytes() -> Seq<u8> {
    seq![111u8, 106u8, 111u8, 0u8]
}

/// The order in which the bytes of an integer are stored.
#[derive(Debug, Clone, Copy, PartialEq, Eq, Structural)]
pub enum ByteOrder {
    /// Least significant byte first.
    Little,
    /// Most significant byte first.
    Big,
}

/// The 8 bytes of `x` in byte order `o`.
pub open spec fn u64_bytes(o: ByteOrder, x: u64) -> Seq<u8> {
    match o {
        ByteOrder::Little => spec_u64_to_le_bytes(x),
        ByteOrder::Big => spec_u64_to_le_bytes(x).reverse(),
    }
}

/// The integer that 8 bytes in byte order `o` stand for.
pub open spec fn u64_of(o: ByteOrder, b: Seq<u8>) -> u64 {
    match o {
        ByteOrder::Little => spec_u64_from_le_bytes(b),
        ByteOrder::Big => spec_u64_from_le_bytes(b.reverse()),
    }
}

/// The bytes of an integer are 8 and read back as the integer.
pub proof fn lemma_u64_bytes(o: ByteOrder, x: u64)
    ensures
        u64_bytes(o, x).len() == 8,
        u64_of(o, u64_bytes(o, x)) == x,
{
    lemma_auto_spec_u64_to_from_le_bytes();
    let le = spec_u64_to_le_bytes(x);
    assert(le.len() == 8);
    if o == ByteOrder::Big {
        assert(le.reverse().len() == 8);
        assert(le.reverse().reverse() =~= le);
    }
}

/// The bytes of `b` in reverse order.
fn reversed(b: &[u8]) -> (r: Vec<u8>)
    ensures
        r@ == b@.reverse(),
{
    let n: usize = b.len();
    let mut r: Vec<u8> = Vec::new();
    let mut i: usize = n;
    while i > 0
        invariant
            n == b@.len(),
            i <= n,
            r@.len() == n - i,
            forall|j: int| 0 <= j < r@.len() ==> r@[j] == b@[n - 1 - j],
        decreases i,
    {
        i = i - 1;
        r.push(b[i]);
    }
    if n > 0 {
        assert(r@ =~= b@.reverse());
    } else {
        assert(r@ =~= b@.reverse());
    }
    r
}

/// Encodes `x` in byte order `o`.
pub fn u64_to_bytes(o: ByteOrder, x: u64) -> (r: Vec<u8>)
    ensures
        r@ == u64_bytes(o, x),
{
    let v = u64_to_le_bytes(x);
    match o {
        ByteOrder::Little => v,
        ByteOrder::Big => reversed(v.as_slice()),
    }
}

/// Decodes 8 bytes in byte order `o`.
pub fn u64_from_bytes(o: ByteOrder, b: &[u8]) -> (x: u64)
    requires
        b@.len() == 8,
    ensures
        x == u64_of(o, b@),
{
    match o {
        ByteOrder::Little => u64_from_le_bytes(b),
        ByteOrder::Big => {
            let r = reversed(b);
            assert(r@.len() == 8);
            u64_from_le_bytes(r.as_slice())
        },
    }
}

/// `u16::to_ne_bytes` of 1: `[1, 0]` on a little-endian machine, `[0, 1]` on a
/// big-endian one. Which of the two the machine gives is left unsaid.
#[verifier::external_body]
fn native_bytes_of_one() -> (r: [u8; 2])
    ensures
        r@ == seq![1u8, 0u8] || r@ == seq![0u8, 1u8],
{
    1u16.to_ne_bytes()
}

/// The byte order of this machine, in which trace files are written and read.
pub fn native_byte_order() -> (o: ByteOrder) {
    let b = native_bytes_of_one();
    if b[0] == 1u8 {
        ByteOrder::Little
    } else {
        ByteOrder::Big
    }
}

/// Binary file header (24 bytes).
#[derive(Debug, Clone, Copy)]
pub struct FileHeader {
    /// `b"ojo\0"`.
    pub magic: [u8; 4],
    /// Format version, 1.
    pub version: u8,
    /// Always zero.
    pub reserved: [u8; 3],
    /// Unix timestamp of the batch start, in nanoseconds.
    pub batch_start_ns: u64,
    /// Version of the event schema the records use.
    pub schema_version: u64,
}

/// Binary event record: the record format of both the API and the files.
#[derive(Debug, Clone, Copy, PartialEq, Eq)]
pub struct EventRecord {
    /// Time since the batch start, in nanoseconds.
    pub ts_delta_ns: u64,
    pub flow_id: u64,
    pub event_type: u64,
    pub primary: u64,
    pub secondary: u64,
}

impl FileHeader {
    /// The 24 bytes that encode this header in byte order `o`.
    pub open spec fn spec_bytes(self, o: ByteOrder) -> Seq<u8> {
        self.magic@ + seq![self.version] + self.reserved@ + u64_bytes(o, self.batch_start_ns) + u64_bytes(
            o,
            self.schema_version,
        )
    }

    /// The header is the one a writer of this format produces for its fields.
    pub open spec fn is_standard(self) -> bool {
        &&& self.magic@ == magic_bytes()
        &&& self.version == 1
        &&& self.reserved@ == seq![0u8, 0u8, 0u8]
    }

    /// A version-1 header with the given batch start and schema version.
    pub fn new(batch_start_ns: u64, schema_version: u64) -> (h: FileHeader)
        ensures
            h.is_standard(),
            h.batch_start_ns == batch_start_ns,
            h.schema_version == schema_version,
    {
        let h = FileHeader {
            magic: [111u8, 106u8, 111u8, 0u8],
            version: 1,
            reserved: [0u8, 0u8, 0u8],
            batch_start_ns,
            schema_version,
        };
        assert(h.magic@ =~= magic_bytes());
        assert(h.reserved@ =~= seq![0u8, 0u8, 0u8]);
        h
    }

    /// Encodes the header in byte order `o`.
    pub fn to_bytes(&self, o: ByteOrder) -> (r: Vec<u8>)
        ensures
            r@ == self.spec_bytes(o),
            r@.len() == HEADER_SIZE,
    {
        proof {
            lemma_u64_bytes(o, self.batch_start_ns);
            lemma_u64_bytes(o, self.schema_version);
        }
        let mut v: Vec<u8> = Vec::new();
        v.push(self.magic[0]);
        v.push(self.magic[1]);
        v.push(self.magic[2]);
        v.push(self.magic[3]);
        v.push(self.version);
        v.push(self.reserved[0]);
        v.push(self.reserved[1]);
        v.push(self.reserved[2]);
        let mut a = u64_to_bytes(o, self.batch_start_ns);
        let mut b = u64_to_bytes(o, self.schema_version);
        v.append(&mut a);
        v.append(&mut b);
        assert(v@ =~= self.spec_bytes(o));
        v
    }
}

/// The header that 24 bytes in byte order `o` encode.
pub open spec fn header_from_bytes(o: ByteOrder, b: Seq<u8>) -> FileHeader {
    FileHeader {
        magic: [b[0], b[1], b[2], b[3]],
        version: b[4],
        reserved: [b[5], b[6], b[7]],
        batch_start_ns: u64_of(o, b.subrange(8, 16)),
        schema_version: u64_of(o, b.subrange(16, 24)),
    }
}

impl EventRecord {
    /// The 40 bytes that encode this record in byte order `o`.
    pub open spec fn spec_bytes(self, o: ByteOrder) -> Seq<u8> {
        u64_bytes(o, self.ts_delta_ns) + u64_bytes(o, self.flow_id) + u64_bytes(o, self.event_type)
            + u64_bytes(o, self.primary) + u64_bytes(o, self.secondary)
    }

    /// Encodes the record in byte order `o`.
    pub fn to_bytes(&self, o: ByteOrder) -> (r: Vec<u8>)
        ensures
            r@ == self.spec_bytes(o),
    {
        let mut v = u64_to_bytes(o, self.ts_delta_ns);
        let mut b = u64_to_bytes(o, self.flow_id);
        let mut c = u64_to_bytes(o, self.event_type);
        let mut d = u64_to_bytes(o, self.primary);
        let mut e = u64_to_bytes(o, self.secondary);
        v.append(&mut b);
        v.append(&mut c);
        v.append(&mut d);
        v.append(&mut e);
        v
    }
}

/// The record that 40 bytes in byte order `o` encode.
pub open spec fn record_from_bytes(o: ByteOrder, b: Seq<u8>) -> EventRecord {
    EventRecord {
        ts_delta_ns: u64_of(o, b.subrange(0, 8)),
        flow_id: u64_of(o, b.subrange(8, 16)),
        event_type: u64_of(o, b.subrange(16, 24)),
        primary: u64_of(o, b.subrange(24, 32)),
        secondary: u64_of(o, b.subrange(32, 40)),
    }
}

/// The bytes of a sequence of records, one after the other.
pub open spec fn records_bytes(o: ByteOrder, rs: Seq<EventRecord>) -> Seq<u8>
    decreases rs.len(),
{
    if rs.len() == 0 {
        Seq::empty()
    } else {
        records_bytes(o, rs.drop_last()) + rs.last().spec_bytes(o)
    }
}

/// The records that a record area holds: one per whole 40-byte chunk.
pub open spec fn records_from_bytes(o: ByteOrder, b: Seq<u8>) -> Seq<EventRecord> {
    Seq::new(
        b.len() / 40,
        |i: int| record_from_bytes(o, b.subrange(40 * i, 40 * i + 40)),
    )
}

/// The bytes of a trace file with the given header and records, in byte order `o`.
pub open spec fn trace_file_bytes(o: ByteOrder, h: FileHeader, rs: Seq<EventRecord>) -> Seq<u8> {
    h.spec_bytes(o) + records_bytes(o, rs)
}

/// Why bytes could not be read as a trace file.
#[derive(Debug, Clone, Copy, PartialEq, Eq)]
pub enum LoadError {
    /// Fewer bytes than a header.
    TooShort,
    /// The first four bytes are not `b"ojo\0"`.
    InvalidMagic([u8; 4]),
    /// The header's format version is not 1.
    UnsupportedVersion(u8),
    /// What follows the header is not a whole number of records.
    BadLength { content_len: usize, record_size: usize },
}

/// What reading `b` as a trace file in byte order `o` gives: the header and the
/// records, or the error.
pub open spec fn spec_decode_trace_file(o: ByteOrder, b: Seq<u8>) -> Result<(FileHeader, Seq<EventRecord>), LoadError> {
    if b.len() < 24 {
        Err(LoadError::TooShort)
    } else if b.subrange(0, 4) != magic_bytes() {
        Err(LoadError::InvalidMagic([b[0], b[1], b[2], b[3]]))
    } else if b[4] != 1 {
        Err(LoadError::UnsupportedVersion(b[4]))
    } else if (b.len() - 24) % 40 != 0 {
        Err(LoadError::BadLength { content_len: (b.len() - 24) as usize, record_size: 40 })
    } else {
        Ok((header_from_bytes(o, b.subrange(0, 24)), records_from_bytes(o, b.subrange(24, b.len() as int))))
    }
}

/// Decodes a header from its 24 bytes in byte order `o`.
pub fn decode_header(o: ByteOrder, b: &[u8]) -> (h: FileHeader)
    requires
        b@.len() == HEADER_SIZE,
    ensures
        h == header_from_bytes(o, b@),
{
    let batch = u64_from_bytes(o, slice_subrange(b, 8, 16));
    let schema = u64_from_bytes(o, slice_subrange(b, 16, 24));
    FileHeader {
        magic: [b[0], b[1], b[2], b[3]],
        version: b[4],
        reserved: [b[5], b[6], b[7]],
        batch_start_ns: batch,
        schema_version: schema,
    }
}

/// Decodes a record from its 40 bytes in byte order `o`.
pub fn decode_record(o: ByteOrder, b: &[u8]) -> (r: EventRecord)
    requires
        b@.len() == RECORD_SIZE,
    ensures
        r == record_from_bytes(o, b@),
{
    EventRecord {
        ts_delta_ns: u64_from_bytes(o, slice_subrange(b, 0, 8)),
        flow_id: u64_from_bytes(o, slice_subrange(b, 8, 16)),
        event_type: u64_from_bytes(o, slice_subrange(b, 16, 24)),
        primary: u64_from_bytes(o, slice_subrange(b, 24, 32)),
        secondary: u64_from_bytes(o, slice_subrange(b, 32, 40)),
    }
}

/// Reads a trace file: checks its length, magic and version, then decodes the header and every record.
pub fn decode_trace_file(b: &[u8], o: ByteOrder) -> (r: Result<(FileHeader, Vec<EventRecord>), LoadError>)
    ensures
        match (r, spec_decode_trace_file(o, b@)) {
            (Ok((h, rs)), Ok((sh, srs))) => h == sh && rs@ == srs,
            (Err(e), Err(se)) => e == se,
            _ => false,
        },
{
    let n: usize = b.len();
    if n < HEADER_SIZE {
        return Err(LoadError::TooShort);
    }
    if !(b[0] == 111u8 && b[1] == 106u8 && b[2] == 111u8 && b[3] == 0u8) {
        proof {
            if b@.subrange(0, 4) == magic_bytes() {
                assert(b@.subrange(0, 4)[0] == b@[0]);
                assert(b@.subrange(0, 4)[1] == b@[1]);
                assert(b@.subrange(0, 4)[2] == b@[2]);
                assert(b@.subrange(0, 4)[3] == b@[3]);
            }
        }
        return Err(LoadError::InvalidMagic([b[0], b[1], b[2], b[3]]));
    }
    assert(b@.subrange(0, 4) =~= magic_bytes());
    if b[4] != 1u8 {
        return Err(LoadError::UnsupportedVersion(b[4]));
    }
    let content_len: usize = n - HEADER_SIZE;
    if content_len % RECORD_SIZE != 0 {
        return Err(LoadError::BadLength { content_len, record_size: RECORD_SIZE });
    }
    let header = decode_header(o, slice_subrange(b, 0, HEADER_SIZE));
    let content = slice_subrange(b, HEADER_SIZE, n);
    let count: usize = content_len / RECORD_SIZE;
    let mut records: Vec<EventRecord> = Vec::new();
    let mut i: usize = 0;
    while i < count
        invariant
            content@ == b@.subrange(24, n as int),
            content@.len() == content_len,
            count == content_len / 40,
            content_len % 40 == 0,
            i <= count,
            records@ == records_from_bytes(o, content@).subrange(0, i as int),
        decreases count - i,
    {
        let start: usize = i * RECORD_SIZE;
        let chunk = slice_subrange(content, start, start + RECORD_SIZE);
        let rec = decode_record(o, chunk);
        records.push(rec);
        i = i + 1;
        assert(records@ =~= records_from_bytes(o, content@).subrange(0, i as int));
    }
    assert(records@ =~= records_from_bytes(o, content@));
    Ok((header, records))
}

/// Encodes a trace file in byte order `o`: the header, then each record in order.
pub fn encode_trace_file(header: &FileHeader, records: &[EventRecord], o: ByteOrder) -> (r: Vec<u8>)
    ensures
        r@ == trace_file_bytes(o, *header, records@),
{
    let mut v = header.to_bytes(o);
    let mut i: usize = 0;
    while i < records.len()
        invariant
            i <= records@.len(),
            v@ == header.spec_bytes(o) + records_bytes(o, records@.subrange(0, i as int)),
        decreases records@.len() - i,
    {
        let mut b = records[i].to_bytes(o);
        v.append(&mut b);
        let ghost prefix = records@.subrange(0, i + 1);
        assert(prefix.drop_last() =~= records@.subrange(0, i as int));
        i = i + 1;
        assert(v@ =~= header.spec_bytes(o) + records_bytes(o, records@.subrange(0, i as int)));
    }
    assert(records@.subrange(0, i as int) =~= records@);
    v
}

/// A record's bytes are 40 long.
pub proof fn lemma_record_len(o: ByteOrder, r: EventRecord)
    ensures
        r.spec_bytes(o).len() == 40,
{
    lemma_u64_bytes(o, r.ts_delta_ns);
    lemma_u64_bytes(o, r.flow_id);
    lemma_u64_bytes(o, r.event_type);
    lemma_u64_bytes(o, r.primary);
    lemma_u64_bytes(o, r.secondary);
}

/// A header's bytes are 24 long.
pub proof fn lemma_header_len(o: ByteOrder, h: FileHeader)
    ensures
        h.spec_bytes(o).len() == 24,
{
    lemma_u64_bytes(o, h.batch_start_ns);
    lemma_u64_bytes(o, h.schema_version);
}

/// The bytes of `n` records are `40 * n` long, and chunk `i` encodes record `i`.
pub proof fn lemma_records_bytes(o: ByteOrder, rs: Seq<EventRecord>)
    ensures
        records_bytes(o, rs).len() == 40 * rs.len(),
        forall|i: int|
            0 <= i < rs.len() ==> #[trigger] records_bytes(o, rs).subrange(40 * i, 40 * i + 40)
                == rs[i].spec_bytes(o),
    decreases rs.len(),
{
    if rs.len() > 0 {
        let init = rs.drop_last();
        lemma_records_bytes(o, init);
        lemma_record_len(o, rs.last());
        let all = records_bytes(o, rs);
        assert forall|i: int| 0 <= i < rs.len() implies #[trigger] all.subrange(40 * i, 40 * i + 40)
            == rs[i].spec_bytes(o) by {
            if i < init.len() {
                assert(all.subrange(40 * i, 40 * i + 40) =~= records_bytes(o, init).subrange(40 * i, 40 * i + 40));
                assert(init[i] == rs[i]);
            } else {
                assert(all.subrange(40 * i, 40 * i + 40) =~= rs.last().spec_bytes(o));
            }
        }
    }
}

/// Decoding the bytes of a record gives the record back.
pub proof fn lemma_record_roundtrip(o: ByteOrder, r: EventRecord)
    ensures
        r.spec_bytes(o).len() == 40,
        record_from_bytes(o, r.spec_bytes(o)) == r,
{
    lemma_record_len(o, r);
    lemma_u64_bytes(o, r.ts_delta_ns);
    lemma_u64_bytes(o, r.flow_id);
    lemma_u64_bytes(o, r.event_type);
    lemma_u64_bytes(o, r.primary);
    lemma_u64_bytes(o, r.secondary);
    let b = r.spec_bytes(o);
    assert(b.subrange(0, 8) =~= u64_bytes(o, r.ts_delta_ns));
    assert(b.subrange(8, 16) =~= u64_bytes(o, r.flow_id));
    assert(b.subrange(16, 24) =~= u64_bytes(o, r.event_type));
    assert(b.subrange(24, 32) =~= u64_bytes(o, r.primary));
    assert(b.subrange(32, 40) =~= u64_bytes(o, r.secondary));
}

/// Decoding the bytes of a header gives the header back.
pub proof fn lemma_header_roundtrip(o: ByteOrder, h: FileHeader)
    ensures
        h.spec_bytes(o).len() == 24,
        header_from_bytes(o, h.spec_bytes(o)) == h,
{
    lemma_u64_bytes(o, h.batch_start_ns);
    lemma_u64_bytes(o, h.schema_version);
    let b = h.spec_bytes(o);
    assert(b.subrange(8, 16) =~= u64_bytes(o, h.batch_start_ns));
    assert(b.subrange(16, 24) =~= u64_bytes(o, h.schema_version));
    let g = header_from_bytes(o, b);
    assert(g.magic@ =~= h.magic@);
    assert(g.reserved@ =~= h.reserved@);
    assert(g.magic == h.magic);
    assert(g.reserved == h.reserved);
}

/// Reading a written trace file in the byte order it was written in gives back its
/// header and every record, in order, for any header that starts with the trace
/// magic and has version 1.
pub proof fn lemma_trace_file_roundtrip(o: ByteOrder, h: FileHeader, rs: Seq<EventRecord>)
    requires
        h.magic@ == magic_bytes(),
        h.version == 1,
    ensures
        spec_decode_trace_file(o, trace_file_bytes(o, h, rs)) == Ok::<(FileHeader, Seq<EventRecord>), LoadError>((h, rs)),
{
    lemma_header_roundtrip(o, h);
    lemma_records_bytes(o, rs);
    let b = trace_file_bytes(o, h, rs);
    assert(b.subrange(0, 24) =~= h.spec_bytes(o));
    assert(b.subrange(0, 4) =~= h.magic@);
    assert(b[4] == h.version);
    let content = b.subrange(24, b.len() as int);
    assert(content =~= records_bytes(o, rs));
    let decoded = records_from_bytes(o, content);
    assert forall|i: int| 0 <= i < rs.len() implies decoded[i] == rs[i] by {
        lemma_record_roundtrip(o, rs[i]);
        assert(content.subrange(40 * i, 40 * i + 40) == rs[i].spec_bytes(o));
    }
    assert(decoded =~= rs);
}

/// The bytes of two runs of records are the bytes of the first run followed by those
/// of the second: every record is written once, in order.
pub proof fn lemma_records_bytes_concat(o: ByteOrder, a: Seq<EventRecord>, b: Seq<EventRecord>)
    ensures
        records_bytes(o, a + b) == records_bytes(o, a) + records_bytes(o, b),
    decreases b.len(),
{
    if b.len() == 0 {
        assert(a + b =~= a);
        assert(records_bytes(o, a) + records_bytes(o, b) =~= records_bytes(o, a));
    } else {
        let ab = a + b;
        assert(ab.drop_last() =~= a + b.drop_last());
        assert(ab.last() == b.last());
        lemma_records_bytes_concat(o, a, b.drop_last());
        assert(records_bytes(o, ab) =~= records_bytes(o, a) + records_bytes(o, b));
    }
}

} // verus!
