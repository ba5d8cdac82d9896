use vstd::prelude::*;
use crate::error::{VectorStoreError, is_invalid_binary, invalid_binary};
use crate::text::{decimal, with_decimal};

verus! {

/// Number of components of every reference vector.
pub const VECTOR_DIM: usize = 14;

/// Size of the header: magic, version, dimension and row count, each a `u32`.
pub const HEADER_SIZE: usize = 16;

/// First header field of every store file ("RCEV" read little-endian).
pub const BINARY_MAGIC: u32 = 0x5645_4352;

/// The only layout version this library reads.
pub const BINARY_VERSION: u32 = 1;

/// Number of little-endian bytes in a `u32` header field.
pub const U32_SIZE: usize = 4;

/// Number of bytes of one `f32` vector component.
pub const F32_SIZE: usize = 4;

/// Number of bytes of one row's vector: `VECTOR_DIM` components of `F32_SIZE` bytes.
pub const ROW_BYTES: usize = 56;

/// The value of the little-endian `u32` stored in `bytes[start..start + 4]`.
pub open spec fn le_u32_at(bytes: Seq<u8>, start: int) -> int {
    bytes[start] + 256 * bytes[start + 1] + 65536 * bytes[start + 2] + 16777216 * bytes[start
        + 3]
}

/// The four little-endian bytes of `x`.
pub open spec fn le_bytes(x: u32) -> Seq<u8> {
    seq![
        (x % 256) as u8,
        ((x / 256) % 256) as u8,
        ((x / 65536) % 256) as u8,
        (x / 16777216) as u8,
    ]
}

/// Why a byte string is not a store file, checked in this order.
pub enum StoreFault {
    HeaderTooShort,
    UnexpectedMagic(int),
    UnsupportedVersion(int),
    WrongDimension(int),
    VectorsOverflow,
    OffsetOverflow,
    LabelsOverflow,
    UnexpectedSize { got: int, expected: int },
}

/// Header fields, read at their fixed offsets.
pub open spec fn header_magic(b: Seq<u8>) -> int {
    le_u32_at(b, 0)
}

pub open spec fn header_version(b: Seq<u8>) -> int {
    le_u32_at(b, 4)
}

pub open spec fn header_dim(b: Seq<u8>) -> int {
    le_u32_at(b, 8)
}

pub open spec fn header_rows(b: Seq<u8>) -> int {
    le_u32_at(b, 12)
}

/// Offset of the label section of a store with `rows` rows.
pub open spec fn labels_offset(rows: int) -> int {
    HEADER_SIZE + rows * ROW_BYTES
}

/// Total size of a store file with `rows` rows.
pub open spec fn file_size(rows: int) -> int {
    labels_offset(rows) + rows
}

/// The first fault of `b` as a store file, or `None` when `b` is a well-formed store.
pub open spec fn store_fault(b: Seq<u8>) -> Option<StoreFault> {
    if b.len() < HEADER_SIZE {
        Some(StoreFault::HeaderTooShort)
    } else if header_magic(b) != BINARY_MAGIC {
        Some(StoreFault::UnexpectedMagic(header_magic(b)))
    } else if header_version(b) != BINARY_VERSION {
        Some(StoreFault::UnsupportedVersion(header_version(b)))
    } else if header_dim(b) != VECTOR_DIM {
        Some(StoreFault::WrongDimension(header_dim(b)))
    } else if header_rows(b) * ROW_BYTES > usize::MAX {
        Some(StoreFault::VectorsOverflow)
    } else if labels_offset(header_rows(b)) > usize::MAX {
        Some(StoreFault::OffsetOverflow)
    } else if file_size(header_rows(b)) > usize::MAX {
        Some(StoreFault::LabelsOverflow)
    } else if b.len() != file_size(header_rows(b)) {
        Some(StoreFault::UnexpectedSize { got: b.len() as int, expected: file_size(header_rows(b)) })
    } else {
        None
    }
}

/// `e` is the error that reports fault `f`.
pub open spec fn reports(e: VectorStoreError, f: StoreFault) -> bool {
    match f {
        StoreFault::HeaderTooShort => is_invalid_binary(e, "header too short"@),
        StoreFault::UnexpectedMagic(m) => is_invalid_binary(
            e,
            "unexpected magic value "@ + decimal(m as nat),
        ),
        StoreFault::UnsupportedVersion(v) => is_invalid_binary(
            e,
            "unsupported version "@ + decimal(v as nat),
        ),
        StoreFault::WrongDimension(d) => e == VectorStoreError::InvalidVectorLength {
            expected: VECTOR_DIM,
            got: d as usize,
        },
        StoreFault::VectorsOverflow => is_invalid_binary(e, "vectors payload overflow"@),
        StoreFault::OffsetOverflow => is_invalid_binary(e, "binary offset overflow"@),
        StoreFault::LabelsOverflow => is_invalid_binary(e, "labels payload overflow"@),
        StoreFault::UnexpectedSize { got, expected } => is_invalid_binary(
            e,
            "unexpected file size: got "@ + decimal(got as nat) + ", expected "@ + decimal(
                expected as nat,
            ),
        ),
    }
}

/// What a well-formed store holds: its dimension, its row count, the raw
/// little-endian `f32` bytes of all vectors row after row, and one label byte per row.
pub struct StoreModel {
    pub dim: nat,
    pub rows: nat,
    pub vectors: Seq<u8>,
    pub labels: Seq<u8>,
}

/// The contents of the well-formed store file `b`.
pub open spec fn store_model(b: Seq<u8>) -> StoreModel {
    let rows = header_rows(b);
    StoreModel {
        dim: VECTOR_DIM as nat,
        rows: rows as nat,
        vectors: b.subrange(HEADER_SIZE as int, labels_offset(rows)),
        labels: b.subrange(labels_offset(rows), b.len() as int),
    }
}

/// The bytes of a store file holding the vector bytes `vectors` and the labels `labels`.
pub open spec fn store_bytes(vectors: Seq<u8>, labels: Seq<u8>) -> Seq<u8> {
    le_bytes(BINARY_MAGIC) + le_bytes(BINARY_VERSION) + le_bytes(VECTOR_DIM as u32) + le_bytes(
        labels.len() as u32,
    ) + vectors + labels
}

/// Reads the little-endian `u32` at `start`; fails with "truncated header" when the
/// four bytes are not all inside `bytes`.
pub fn parse_u32_le(bytes: &[u8], start: usize) -> (r: Result<u32, VectorStoreError>)
    requires
        start + U32_SIZE <= usize::MAX,
    ensures
        start + U32_SIZE <= bytes@.len() ==> r == Ok::<u32, VectorStoreError>(
            le_u32_at(bytes@, start as int) as u32,
        ),
        start + U32_SIZE <= bytes@.len() ==> le_u32_at(bytes@, start as int) <= u32::MAX,
        start + U32_SIZE <= bytes@.len() ==> (r matches Ok(v) && v == bytes@[start as int] + 256
            * bytes@[start + 1] + 65536 * bytes@[start + 2] + 16777216 * bytes@[start + 3]),
        start + U32_SIZE > bytes@.len() ==> (r matches Err(e) && is_invalid_binary(
            e,
            "truncated header"@,
        )),
{
    let end = start + U32_SIZE;
    if end > bytes.len() {
        return Err(invalid_binary("truncated header"));
    }
    let b0 = bytes[start] as u32;
    let b1 = bytes[start + 1] as u32;
    let b2 = bytes[start + 2] as u32;
    let b3 = bytes[start + 3] as u32;
    Ok(b0 + 256 * b1 + 65536 * b2 + 16777216 * b3)
}

/// Number of `f32` values in a vector section of `len` bytes; fails when `len` is not
/// a whole number of values.
pub fn f32_count(len: usize) -> (r: Result<usize, VectorStoreError>)
    ensures
        len % F32_SIZE == 0 ==> r == Ok::<usize, VectorStoreError>(len / F32_SIZE),
        len % 4 == 0 <==> r is Ok,
        r matches Ok(count) ==> 4 * count == len,
        len % F32_SIZE != 0 ==> (r matches Err(e) && is_invalid_binary(
            e,
            "vectors section has invalid byte size"@,
        )),
{
    if len % F32_SIZE != 0 {
        return Err(invalid_binary("vectors section has invalid byte size"));
    }
    Ok(len / F32_SIZE)
}

/// Checks the layout of the store file `bytes` and returns its row count.
pub fn check_layout(bytes: &[u8]) -> (r: Result<usize, VectorStoreError>)
    ensures
        store_fault(bytes@) is None <==> r is Ok,
        r matches Ok(rows) ==> rows == header_rows(bytes@),
        r matches Ok(rows) ==> rows == bytes@[12] + 256 * bytes@[13] + 65536 * bytes@[14]
            + 16777216 * bytes@[15],
        r matches Err(e) ==> reports(e, store_fault(bytes@)->0),
{
    if bytes.len() < HEADER_SIZE {
        return Err(invalid_binary("header too short"));
    }
    let magic = match parse_u32_le(bytes, 0) {
        Ok(v) => v,
        Err(e) => return Err(e),
    };
    if magic != BINARY_MAGIC {
        return Err(
            VectorStoreError::InvalidBinary(with_decimal("unexpected magic value ", magic as u64)),
        );
    }
    let version = match parse_u32_le(bytes, 4) {
        Ok(v) => v,
        Err(e) => return Err(e),
    };
    if version != BINARY_VERSION {
        return Err(
            VectorStoreError::InvalidBinary(with_decimal("unsupported version ", version as u64)),
        );
    }
    let dim = match parse_u32_le(bytes, 8) {
        Ok(v) => v as usize,
        Err(e) => return Err(e),
    };
    if dim != VECTOR_DIM {
        return Err(VectorStoreError::InvalidVectorLength { expected: VECTOR_DIM, got: dim });
    }
    let rows = match parse_u32_le(bytes, 12) {
        Ok(v) => v as usize,
        Err(e) => return Err(e),
    };
    let vectors_bytes = match rows.checked_mul(dim) {
        Some(n) => match n.checked_mul(F32_SIZE) {
            Some(m) => m,
            None => return Err(invalid_binary("vectors payload overflow")),
        },
        None => return Err(invalid_binary("vectors payload overflow")),
    };
    let labels_offset = match HEADER_SIZE.checked_add(vectors_bytes) {
        Some(n) => n,
        None => return Err(invalid_binary("binary offset overflow")),
    };
    let labels_end = match labels_offset.checked_add(rows) {
        Some(n) => n,
        None => return Err(invalid_binary("labels payload overflow")),
    };
    if bytes.len() != labels_end {
        let mut reason = with_decimal("unexpected file size: got ", bytes.len() as u64);
        let expected = with_decimal(", expected ", labels_end as u64);
        reason.append(expected.as_str());
        assert(reason@ == "unexpected file size: got "@ + decimal(bytes@.len()) + ", expected "@
            + decimal(labels_end as nat));
        return Err(VectorStoreError::InvalidBinary(reason));
    }
    Ok(rows)
}

/// Appends the four little-endian bytes of `x`.
pub fn push_u32_le(out: &mut Vec<u8>, x: u32)
    ensures
        final(out)@ == old(out)@ + le_bytes(x),
        final(out)@.len() == old(out)@.len() + 4,
        final(out)@.subrange(0, old(out)@.len() as int) == old(out)@,
        final(out)@[old(out)@.len() as int] == x % 256,
        final(out)@[old(out)@.len() as int + 1] == (x / 256) % 256,
        final(out)@[old(out)@.len() as int + 2] == (x / 65536) % 256,
        final(out)@[old(out)@.len() as int + 3] == x / 16777216,
{
    out.push((x % 256) as u8);
    out.push(((x / 256) % 256) as u8);
    out.push(((x / 65536) % 256) as u8);
    out.push((x / 16777216) as u8);
    assert(final(out)@ =~= old(out)@ + le_bytes(x));
}

/// Appends all of `bytes`.
fn push_all(out: &mut Vec<u8>, bytes: &[u8])
    ensures
        final(out)@ == old(out)@ + bytes@,
{
    let ghost start = out@;
    let mut i: usize = 0;
    while i < bytes.len()
        invariant
            i <= bytes@.len(),
            out@ == start + bytes@.subrange(0, i as int),
        decreases bytes@.len() - i,
    {
        out.push(bytes[i]);
        i += 1;
        assert(out@ =~= start + bytes@.subrange(0, i as int));
    }
    assert(bytes@.subrange(0, bytes@.len() as int) =~= bytes@);
}

/// The store file holding `vectors` (the little-endian `f32` bytes of every row's
/// vector, row after row) and one label byte per row.
pub fn encode_store(vectors: &[u8], labels: &[u8]) -> (file: Vec<u8>)
    requires
        vectors@.len() == labels@.len() * ROW_BYTES,
        labels@.len() <= u32::MAX,
        file_size(labels@.len() as int) <= usize::MAX,
    ensures
        file@ == store_bytes(vectors@, labels@),
{
    let mut file: Vec<u8> = Vec::new();
    push_u32_le(&mut file, BINARY_MAGIC);
    push_u32_le(&mut file, BINARY_VERSION);
    push_u32_le(&mut file, VECTOR_DIM as u32);
    push_u32_le(&mut file, labels.len() as u32);
    push_all(&mut file, vectors);
    push_all(&mut file, labels);
    file
}

/// The little-endian bytes of `x` read back as a `u32` give `x`.
pub proof fn lemma_le_bytes_value(x: u32)
    ensures
        le_u32_at(le_bytes(x), 0) == x,
{
    let b = le_bytes(x);
    assert(b[0] == x % 256 && b[1] == (x / 256) % 256 && b[2] == (x / 65536) % 256 && b[3] == x
        / 16777216);
    assert((x % 256) + 256 * ((x / 256) % 256) + 65536 * ((x / 65536) % 256) + 16777216 * (x
        / 16777216) == x) by (nonlinear_arith);
}

/// Four bytes read as a little-endian `u32` and written back give the same bytes.
pub proof fn lemma_le_value_bytes(b: Seq<u8>, start: int)
    requires
        0 <= start,
        start + 4 <= b.len(),
    ensures
        le_u32_at(b, start) <= u32::MAX,
        le_bytes(le_u32_at(b, start) as u32) == b.subrange(start, start + 4),
{
    let b0 = b[start];
    let b1 = b[start + 1];
    let b2 = b[start + 2];
    let b3 = b[start + 3];
    let x = le_u32_at(b, start);
    assert(x == b0 + 256 * b1 + 65536 * b2 + 16777216 * b3);
    assert(x % 256 == b0 && (x / 256) % 256 == b1 && (x / 65536) % 256 == b2 && x / 16777216
        == b3) by (nonlinear_arith)
        requires
            x == b0 + 256 * b1 + 65536 * b2 + 16777216 * b3,
            0 <= b0 < 256,
            0 <= b1 < 256,
            0 <= b2 < 256,
            0 <= b3 < 256,
    ;
    assert(le_bytes(x as u32) =~= b.subrange(start, start + 4));
}

/// Writing a store and reading it back: the written file is well formed and holds the
/// rows, vector bytes and labels it was written from.
pub proof fn law_encode_then_parse(vectors: Seq<u8>, labels: Seq<u8>)
    requires
        vectors.len() == labels.len() * ROW_BYTES,
        labels.len() <= u32::MAX,
        file_size(labels.len() as int) <= usize::MAX,
    ensures
        store_fault(store_bytes(vectors, labels)) is None,
        store_model(store_bytes(vectors, labels)) == (StoreModel {
            dim: VECTOR_DIM as nat,
            rows: labels.len(),
            vectors,
            labels,
        }),
{
    let b = store_bytes(vectors, labels);
    lemma_le_bytes_value(BINARY_MAGIC);
    lemma_le_bytes_value(BINARY_VERSION);
    lemma_le_bytes_value(VECTOR_DIM as u32);
    lemma_le_bytes_value(labels.len() as u32);
    let h0 = le_bytes(BINARY_MAGIC);
    let h1 = le_bytes(BINARY_VERSION);
    let h2 = le_bytes(VECTOR_DIM as u32);
    let h3 = le_bytes(labels.len() as u32);
    assert(b.len() == file_size(labels.len() as int));
    assert forall|j: int| 0 <= j < 4 implies b[j] == h0[j] && b[4 + j] == h1[j] && b[8 + j]
        == h2[j] && b[12 + j] == h3[j] by {}
    assert(header_magic(b) == BINARY_MAGIC);
    assert(header_version(b) == BINARY_VERSION);
    assert(header_dim(b) == VECTOR_DIM);
    assert(header_rows(b) == labels.len());
    assert(b.subrange(HEADER_SIZE as int, labels_offset(labels.len() as int)) =~= vectors);
    assert(b.subrange(labels_offset(labels.len() as int), b.len() as int) =~= labels);
}

/// Reading a well-formed store and writing its contents back gives the same bytes:
/// every well-formed file is the one written for its contents.
pub proof fn law_parse_then_encode(b: Seq<u8>)
    requires
        store_fault(b) is None,
    ensures
        store_bytes(store_model(b).vectors, store_model(b).labels) == b,
{
    let m = store_model(b);
    lemma_le_value_bytes(b, 0);
    lemma_le_value_bytes(b, 4);
    lemma_le_value_bytes(b, 8);
    lemma_le_value_bytes(b, 12);
    assert(m.labels.len() == header_rows(b));
    assert(store_bytes(m.vectors, m.labels) =~= b);
}

/// The row count of a store file, read as the little-endian `u32` in bytes 12..16.
pub open spec fn count_field(b: Seq<u8>) -> int {
    b[12] + 256 * b[13] + 65536 * b[14] + 16777216 * b[15]
}

/// The store file layout, byte by byte: a byte string is a well-formed store exactly
/// when it starts with 52 43 45 56 (the magic), 01 00 00 00 (version 1) and
/// 0e 00 00 00 (dimension 14), followed by the little-endian row count `n` in bytes
/// 12..16, and is `16 + 57 n` bytes long (a size that fits in `usize`). Such a store has
/// `n` rows of dimension 14, its vectors are bytes `16 .. 16 + 56 n` and its labels the
/// last `n` bytes.
pub proof fn law_store_file_layout(b: Seq<u8>)
    ensures
        store_fault(b) is None <==> {
            &&& b.len() >= 16
            &&& b[0] == 0x52 && b[1] == 0x43 && b[2] == 0x45 && b[3] == 0x56
            &&& b[4] == 1 && b[5] == 0 && b[6] == 0 && b[7] == 0
            &&& b[8] == 14 && b[9] == 0 && b[10] == 0 && b[11] == 0
            &&& b.len() == 16 + 57 * count_field(b)
            &&& 16 + 57 * count_field(b) <= usize::MAX
        },
        store_fault(b) is None ==> {
            &&& store_model(b).rows == count_field(b)
            &&& store_model(b).dim == 14
            &&& store_model(b).vectors == b.subrange(16, 16 + 56 * count_field(b))
            &&& store_model(b).labels == b.subrange(16 + 56 * count_field(b), b.len() as int)
        },
{
    if b.len() >= 16 {
        lemma_le_value_bytes(b, 0);
        lemma_le_value_bytes(b, 4);
        lemma_le_value_bytes(b, 8);
        let m = le_bytes(BINARY_MAGIC);
        let v = le_bytes(BINARY_VERSION);
        let d = le_bytes(VECTOR_DIM as u32);
        assert(m[0] == 0x52 && m[1] == 0x43 && m[2] == 0x45 && m[3] == 0x56);
        assert(v[0] == 1 && v[1] == 0 && v[2] == 0 && v[3] == 0);
        assert(d[0] == 14 && d[1] == 0 && d[2] == 0 && d[3] == 0);
        if header_magic(b) == BINARY_MAGIC {
            assert(b.subrange(0, 4) == m);
            assert(b[0] == b.subrange(0, 4)[0] && b[1] == b.subrange(0, 4)[1] && b[2] == b.subrange(
                0,
                4,
            )[2] && b[3] == b.subrange(0, 4)[3]);
        }
        if header_version(b) == BINARY_VERSION {
            assert(b.subrange(4, 8) == v);
            assert(b[4] == b.subrange(4, 8)[0] && b[5] == b.subrange(4, 8)[1] && b[6] == b.subrange(
                4,
                8,
            )[2] && b[7] == b.subrange(4, 8)[3]);
        }
        if header_dim(b) == VECTOR_DIM {
            assert(b.subrange(8, 12) == d);
            assert(b[8] == b.subrange(8, 12)[0] && b[9] == b.subrange(8, 12)[1] && b[10]
                == b.subrange(8, 12)[2] && b[11] == b.subrange(8, 12)[3]);
        }
    }
}

/// The bytes written for a store, byte by byte: 52 43 45 56, 01 00 00 00, 0e 00 00 00,
/// then the row count `n` little-endian (`n % 256`, `n / 256 % 256`, `n / 65536 % 256`,
/// `n / 16777216`), then the vector bytes, then the label bytes: `16 + 57 n` bytes.
pub proof fn law_store_bytes_layout(vectors: Seq<u8>, labels: Seq<u8>)
    requires
        vectors.len() == labels.len() * 56,
        labels.len() <= u32::MAX,
    ensures
        ({
            let f = store_bytes(vectors, labels);
            let n = labels.len() as int;
            &&& f.len() == 16 + 57 * n
            &&& f[0] == 0x52 && f[1] == 0x43 && f[2] == 0x45 && f[3] == 0x56
            &&& f[4] == 1 && f[5] == 0 && f[6] == 0 && f[7] == 0
            &&& f[8] == 14 && f[9] == 0 && f[10] == 0 && f[11] == 0
            &&& f[12] == n % 256 && f[13] == (n / 256) % 256 && f[14] == (n / 65536) % 256
                && f[15] == n / 16777216
            &&& count_field(f) == n
            &&& f.subrange(16, 16 + 56 * n) == vectors
            &&& f.subrange(16 + 56 * n, f.len() as int) == labels
        }),
{
    let f = store_bytes(vectors, labels);
    let n = labels.len() as int;
    lemma_le_bytes_value(labels.len() as u32);
    let h3 = le_bytes(labels.len() as u32);
    assert(f[12] == h3[0] && f[13] == h3[1] && f[14] == h3[2] && f[15] == h3[3]);
    assert(f.subrange(16, 16 + 56 * n) =~= vectors);
    assert(f.subrange(16 + 56 * n, f.len() as int) =~= labels);
}

} // verus!
