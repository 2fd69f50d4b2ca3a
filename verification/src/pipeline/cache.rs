//! Decode-once cache for RAW frames: the blob format, and which frame has a
//! blob.
//!
//! A blob is a header of four 32-bit numbers (magic, version, width, height)
//! and the frame's interleaved 16-bit RGB samples, all in one byte order. A
//! cache lives for one run, and keeps to one byte order throughout.

use vstd::prelude::*;
use crate::paths::{path_key, reads_equal, same_path, splits_alike};
use crate::pipeline::frames::{marked, raw_frames, PipelineProgress};
use crate::text::{decimal, law_padding_keeps_the_number, numeral};

verus! {

/// Magic number of a blob.
pub const BLOB_MAGIC: u32 = 0x5a53_4642;

/// Version of the blob layout.
pub const BLOB_VERSION: u32 = 1;

/// Length of a blob's header in bytes.
pub const HEADER_LEN: usize = 16;

/// The order of the bytes of a number.
#[derive(Debug, Clone, Copy, PartialEq, Eq, Structural)]
pub enum ByteOrder {
    /// The low byte comes first.
    Little,
    /// The high byte comes first.
    Big,
}

/// Byte `i` of a 16-bit number.
pub open spec fn byte16(order: ByteOrder, x: u16, i: int) -> u8 {
    if (i == 0) == (order == ByteOrder::Little) {
        (x % 256) as u8
    } else {
        (x / 256) as u8
    }
}

/// The bytes of 16-bit numbers, one after the other.
pub open spec fn words_bytes(order: ByteOrder, words: Seq<u16>) -> Seq<u8> {
    Seq::new(2 * words.len(), |i: int| byte16(order, words[i / 2], i % 2))
}

/// The bytes of a 32-bit number.
#[verifier::opaque]
pub open spec fn bytes32(order: ByteOrder, x: u32) -> Seq<u8> {
    let a = (x % 256) as u8;
    let b = (x / 256 % 256) as u8;
    let c = (x / 65536 % 256) as u8;
    let d = (x / 16777216) as u8;
    match order {
        ByteOrder::Little => seq![a, b, c, d],
        ByteOrder::Big => seq![d, c, b, a],
    }
}

/// The 32-bit number whose bytes stand at `at`.
#[verifier::opaque]
pub open spec fn value32(order: ByteOrder, data: Seq<u8>, at: int) -> int {
    match order {
        ByteOrder::Little => data[at] + 256 * data[at + 1] + 65536 * data[at + 2] + 16777216
            * data[at + 3],
        ByteOrder::Big => data[at + 3] + 256 * data[at + 2] + 65536 * data[at + 1] + 16777216
            * data[at],
    }
}

/// A blob's bytes.
pub open spec fn blob_bytes(order: ByteOrder, width: u32, height: u32, rgb16: Seq<u16>) -> Seq<u8> {
    bytes32(order, BLOB_MAGIC) + bytes32(order, BLOB_VERSION) + bytes32(order, width) + bytes32(
        order,
        height,
    ) + words_bytes(order, rgb16)
}

/// `bytemuck::cast_slice::<u16, u8>`: the memory of the numbers, read as
/// bytes. The machine decides the byte order, the same for all of them.
#[verifier::external_body]
fn cast_to_bytes(words: &[u16]) -> (r: Vec<u8>)
    ensures
        r@ == words_bytes(ByteOrder::Little, words@) || r@ == words_bytes(
            ByteOrder::Big,
            words@,
        ),
{
    bytemuck::cast_slice::<u16, u8>(words).to_vec()
}

/// `bytemuck::cast_slice_mut::<u16, u8>`, filled from a byte slice: the
/// numbers whose memory holds those bytes. The machine decides the byte order,
/// the same for all of them.
#[verifier::external_body]
fn cast_from_bytes(words: &mut Vec<u16>, bytes: &[u8])
    requires
        bytes@.len() == 2 * old(words)@.len(),
    ensures
        final(words)@.len() == old(words)@.len(),
        bytes@ == words_bytes(ByteOrder::Little, final(words)@) || bytes@ == words_bytes(
            ByteOrder::Big,
            final(words)@,
        ),
{
    bytemuck::cast_slice_mut::<u16, u8>(words.as_mut_slice()).copy_from_slice(bytes);
}

proof fn lemma_same_either_order(words: Seq<u16>)
    requires
        forall|i: int| 0 <= i < words.len() ==> (#[trigger] words[i]) % 256 == words[i] / 256,
    ensures
        words_bytes(ByteOrder::Little, words) == words_bytes(ByteOrder::Big, words),
{
    assert(words_bytes(ByteOrder::Little, words) =~= words_bytes(ByteOrder::Big, words));
}

/// The byte order in which `bytes` holds `words`: the first number whose two
/// bytes differ tells.
fn order_held(words: &[u16], bytes: &[u8]) -> (r: ByteOrder)
    requires
        bytes@ == words_bytes(ByteOrder::Little, words@) || bytes@ == words_bytes(
            ByteOrder::Big,
            words@,
        ),
    ensures
        bytes@ == words_bytes(r, words@),
{
    let n: usize = words.len();
    let len: usize = bytes.len();
    let mut i: usize = 0;
    while i < n
        invariant
            i <= n,
            n == words@.len(),
            len == bytes@.len(),
            bytes@.len() == 2 * n,
            bytes@ == words_bytes(ByteOrder::Little, words@) || bytes@ == words_bytes(
                ByteOrder::Big,
                words@,
            ),
            forall|k: int| 0 <= k < i ==> (#[trigger] words@[k]) % 256 == words@[k] / 256,
        decreases n - i,
    {
        let low: u16 = words[i] % 256;
        let high: u16 = words[i] / 256;
        if low != high {
            assert(bytes@[2 * i] == words_bytes(ByteOrder::Little, words@)[2 * i] || bytes@[2 * i]
                == words_bytes(ByteOrder::Big, words@)[2 * i]);
            if bytes[2 * i] as u16 == low {
                return ByteOrder::Little;
            } else {
                return ByteOrder::Big;
            }
        }
        i = i + 1;
    }
    proof {
        lemma_same_either_order(words@);
    }
    ByteOrder::Little
}

/// Whether numbers lie in memory in this order: cast to bytes, the number 1
/// gives its bytes in it.
pub closed spec fn is_native_order(order: ByteOrder) -> bool {
    exists|one: &[u16], bytes: Vec<u8>|
        one@ == seq![1u16] && #[trigger] call_ensures(cast_to_bytes, (one,), bytes) && bytes@
            == words_bytes(order, one@)
}

/// The byte order of this machine, by the layout of the number 1.
fn native_order() -> (r: ByteOrder)
    ensures
        is_native_order(r),
{
    let mut one: Vec<u16> = Vec::new();
    one.push(1);
    let bytes = cast_to_bytes(one.as_slice());
    assert(one@ =~= seq![1u16]);
    order_held(one.as_slice(), bytes.as_slice())
}

fn push32(out: &mut Vec<u8>, order: ByteOrder, x: u32)
    ensures
        final(out)@ == old(out)@ + bytes32(order, x),
{
    let a: u8 = (x % 256) as u8;
    let b: u8 = (x / 256 % 256) as u8;
    let c: u8 = (x / 65536 % 256) as u8;
    let d: u8 = (x / 16777216) as u8;
    reveal(bytes32);
    match order {
        ByteOrder::Little => {
            out.push(a);
            out.push(b);
            out.push(c);
            out.push(d);
        },
        ByteOrder::Big => {
            out.push(d);
            out.push(c);
            out.push(b);
            out.push(a);
        },
    }
    assert(out@ =~= old(out)@ + bytes32(order, x));
}

/// The blob of a decoded frame, in the given byte order.
pub fn write_blob(order: ByteOrder, width: u32, height: u32, rgb16: &[u16]) -> (r: Vec<u8>)
    requires
        HEADER_LEN + 2 * rgb16@.len() <= usize::MAX,
    ensures
        r@ == blob_bytes(order, width, height, rgb16@),
{
    let mut out: Vec<u8> = Vec::new();
    push32(&mut out, order, BLOB_MAGIC);
    push32(&mut out, order, BLOB_VERSION);
    push32(&mut out, order, width);
    push32(&mut out, order, height);
    let mut payload = cast_to_bytes(rgb16);
    if order_held(rgb16, payload.as_slice()) != order {
        swap_pairs(&mut payload);
        assert(payload@ =~= words_bytes(order, rgb16@));
    }
    out.append(&mut payload);
    assert(out@ =~= blob_bytes(order, width, height, rgb16@));
    out
}

/// Swaps the two bytes of every pair.
fn swap_pairs(bytes: &mut Vec<u8>)
    requires
        old(bytes)@.len() % 2 == 0,
    ensures
        final(bytes)@.len() == old(bytes)@.len(),
        forall|i: int|
            0 <= i < old(bytes)@.len() ==> #[trigger] final(bytes)@[i] == old(bytes)@[if i % 2 == 0 {
                i + 1
            } else {
                i - 1
            }],
{
    let n: usize = bytes.len();
    let mut i: usize = 0;
    while i < n
        invariant
            i <= n,
            i % 2 == 0,
            n % 2 == 0,
            n == bytes@.len(),
            n == old(bytes)@.len(),
            forall|k: int|
                0 <= k < i ==> #[trigger] bytes@[k] == old(bytes)@[if k % 2 == 0 {
                    k + 1
                } else {
                    k - 1
                }],
            forall|k: int| i <= k < n ==> #[trigger] bytes@[k] == old(bytes)@[k],
        decreases n - i,
    {
        let a: u8 = bytes[i];
        let b: u8 = bytes[i + 1];
        bytes[i] = b;
        bytes[i + 1] = a;
        i = i + 2;
    }
}

/// Swaps the two bytes of every number.
fn swap_words(words: &mut Vec<u16>)
    ensures
        final(words)@.len() == old(words)@.len(),
        forall|i: int|
            0 <= i < old(words)@.len() ==> #[trigger] final(words)@[i] == (old(words)@[i] % 256)
                * 256 + old(words)@[i] / 256,
{
    let n: usize = words.len();
    let mut i: usize = 0;
    while i < n
        invariant
            i <= n,
            n == words@.len(),
            n == old(words)@.len(),
            forall|k: int|
                0 <= k < i ==> #[trigger] words@[k] == (old(words)@[k] % 256) * 256 + old(words)@[k]
                    / 256,
            forall|k: int| i <= k < n ==> #[trigger] words@[k] == old(words)@[k],
        decreases n - i,
    {
        let x: u16 = words[i];
        words[i] = (x % 256) * 256 + x / 256;
        i = i + 1;
    }
}

/// Why a file is not a blob of this run.
#[derive(Debug, Clone, Copy, PartialEq, Eq)]
pub enum BlobError {
    /// The file is shorter than a header.
    Truncated { len: usize },
    /// The file does not start with the magic number.
    BadMagic,
    /// The layout version is not this one.
    UnsupportedVersion { version: u32 },
    /// The samples do not fill the frame exactly.
    PayloadLength { len: usize, expected: u128, width: u32, height: u32 },
}

/// The message of a blob error for the blob at `path`.
pub open spec fn blob_message(e: BlobError, path: Seq<char>) -> Seq<char> {
    let head = "frame cache blob "@ + path;
    match e {
        BlobError::Truncated { len } => head + " is truncated (only "@ + numeral(len as nat)
            + " bytes, need at least 16)"@,
        BlobError::BadMagic => head
            + " has bad magic (this is an ephemeral per-run cache — it should never be read back across runs)"@,
        BlobError::UnsupportedVersion { version } => head + " has unsupported version "@ + numeral(
            version as nat,
        ) + " (expected 1)"@,
        BlobError::PayloadLength { len, expected, width, height } => head + " payload is "@
            + numeral(len as nat) + " bytes, expected "@ + numeral(expected as nat) + " for "@
            + numeral(width as nat) + "x"@ + numeral(height as nat),
    }
}

impl BlobError {
    /// The message shown to the user, for the blob at `path`.
    pub fn message(&self, path: &str) -> (r: String)
        ensures
            r@ == blob_message(*self, path@),
    {
        let mut s = "frame cache blob ".to_owned();
        s.append(path);
        match self {
            BlobError::Truncated { len } => {
                s.append(" is truncated (only ");
                s.append(decimal(*len as u128).as_str());
                s.append(" bytes, need at least 16)");
            },
            BlobError::BadMagic => {
                s.append(
                    " has bad magic (this is an ephemeral per-run cache — it should never be read back across runs)",
                );
            },
            BlobError::UnsupportedVersion { version } => {
                s.append(" has unsupported version ");
                s.append(decimal(*version as u128).as_str());
                s.append(" (expected 1)");
            },
            BlobError::PayloadLength { len, expected, width, height } => {
                s.append(" payload is ");
                s.append(decimal(*len as u128).as_str());
                s.append(" bytes, expected ");
                s.append(decimal(*expected).as_str());
                s.append(" for ");
                s.append(decimal(*width as u128).as_str());
                s.append("x");
                s.append(decimal(*height as u128).as_str());
            },
        }
        s
    }
}

proof fn lemma_split32(a: u8, b: u8, c: u8, d: u8, r: u32)
    by (bit_vector)
    requires
        r == (a as u32) + 256 * (b as u32) + 65536 * (c as u32) + 16777216 * (d as u32),
    ensures
        r % 256 == a,
        (r / 256) % 256 == b,
        (r / 65536) % 256 == c,
        r / 16777216 == d,
{
}

fn read32(order: ByteOrder, data: &[u8], at: usize) -> (r: u32)
    requires
        at + 4 <= data@.len(),
    ensures
        r == value32(order, data@, at as int),
        bytes32(order, r) == data@.subrange(at as int, at + 4),
{
    let len: usize = data.len();
    let (a, b, c, d): (u8, u8, u8, u8) = match order {
        ByteOrder::Little => (data[at], data[at + 1], data[at + 2], data[at + 3]),
        ByteOrder::Big => (data[at + 3], data[at + 2], data[at + 1], data[at]),
    };
    let r: u32 = a as u32 + 256 * (b as u32) + 65536 * (c as u32) + 16777216 * (d as u32);
    assert(len == data@.len());
    proof {
        reveal(bytes32);
        reveal(value32);
        lemma_split32(a, b, c, d, r);
        let part = data@.subrange(at as int, at + 4);
        match order {
            ByteOrder::Little => {
                assert(part =~= seq![a, b, c, d]);
            },
            ByteOrder::Big => {
                assert(part =~= seq![d, c, b, a]);
            },
        }
    }
    r
}

/// The numbers that the bytes hold in the given byte order.
fn read_payload(order: ByteOrder, payload: &[u8]) -> (r: Vec<u16>)
    requires
        payload@.len() % 2 == 0,
    ensures
        payload@ == words_bytes(order, r@),
        r@.len() == payload@.len() / 2,
{
    let len: usize = payload.len();
    let mut words: Vec<u16> = vec![0u16; len / 2];
    cast_from_bytes(&mut words, payload);
    if order_held(words.as_slice(), payload) != order {
        swap_words(&mut words);
        assert(payload@ =~= words_bytes(order, words@));
    }
    words
}

proof fn lemma_bytes32_len(order: ByteOrder, x: u32)
    ensures
        bytes32(order, x).len() == 4,
{
    reveal(bytes32);
}

proof fn lemma_blob_from_parts(
    order: ByteOrder,
    width: u32,
    height: u32,
    rgb16: Seq<u16>,
    data: Seq<u8>,
)
    requires
        data.len() >= HEADER_LEN,
        data.subrange(0, 4) == bytes32(order, BLOB_MAGIC),
        data.subrange(4, 8) == bytes32(order, BLOB_VERSION),
        data.subrange(8, 12) == bytes32(order, width),
        data.subrange(12, 16) == bytes32(order, height),
        data.subrange(16, data.len() as int) == words_bytes(order, rgb16),
    ensures
        data == blob_bytes(order, width, height, rgb16),
{
    lemma_bytes32_len(order, BLOB_MAGIC);
    lemma_bytes32_len(order, BLOB_VERSION);
    lemma_bytes32_len(order, width);
    lemma_bytes32_len(order, height);
    let h1 = bytes32(order, BLOB_MAGIC) + bytes32(order, BLOB_VERSION);
    let h2 = h1 + bytes32(order, width);
    let h3 = h2 + bytes32(order, height);
    assert(data.subrange(0, 8) =~= h1);
    assert(data.subrange(0, 12) =~= h2);
    assert(data.subrange(0, 16) =~= h3);
    assert(data =~= h3 + words_bytes(order, rgb16));
}

/// Number of payload bytes of a frame of that size.
pub open spec fn payload_len(width: int, height: int) -> int {
    width * height * 6
}

/// Whether reading `data` as a blob fails with `e`. The checks come in the
/// order of the variants, and a later one only where the earlier ones passed.
pub open spec fn blob_refused(order: ByteOrder, data: Seq<u8>, e: BlobError) -> bool {
    match e {
        BlobError::Truncated { len } => len == data.len() && len < HEADER_LEN,
        BlobError::BadMagic => data.len() >= HEADER_LEN && value32(order, data, 0) != BLOB_MAGIC,
        BlobError::UnsupportedVersion { version } => {
            &&& data.len() >= HEADER_LEN
            &&& value32(order, data, 0) == BLOB_MAGIC
            &&& version == value32(order, data, 4)
            &&& version != BLOB_VERSION
        },
        BlobError::PayloadLength { len, expected, width, height } => {
            &&& data.len() >= HEADER_LEN
            &&& value32(order, data, 0) == BLOB_MAGIC
            &&& value32(order, data, 4) == BLOB_VERSION
            &&& width == value32(order, data, 8)
            &&& height == value32(order, data, 12)
            &&& len == data.len() - HEADER_LEN
            &&& expected == payload_len(width as int, height as int)
            &&& len != expected
        },
    }
}

/// Checks a blob's header and length: the frame's width and height.
fn check_header(order: ByteOrder, data: &[u8]) -> (r: Result<(u32, u32), BlobError>)
    ensures
        match r {
            Ok((width, height)) => {
                &&& data@.len() >= HEADER_LEN
                &&& data@.subrange(0, 4) == bytes32(order, BLOB_MAGIC)
                &&& data@.subrange(4, 8) == bytes32(order, BLOB_VERSION)
                &&& data@.subrange(8, 12) == bytes32(order, width)
                &&& data@.subrange(12, 16) == bytes32(order, height)
                &&& data@.len() - HEADER_LEN == payload_len(width as int, height as int)
            },
            Err(e) => blob_refused(order, data@, e),
        },
{
    let total: usize = data.len();
    if total < HEADER_LEN {
        return Err(BlobError::Truncated { len: total });
    }
    let magic: u32 = read32(order, data, 0);
    let version: u32 = read32(order, data, 4);
    if magic != BLOB_MAGIC {
        return Err(BlobError::BadMagic);
    }
    if version != BLOB_VERSION {
        return Err(BlobError::UnsupportedVersion { version });
    }
    let width: u32 = read32(order, data, 8);
    let height: u32 = read32(order, data, 12);
    let len: usize = total - HEADER_LEN;
    proof {
        assert(0 <= width * height <= 0xffff_ffff * 0xffff_ffff) by (nonlinear_arith)
            requires
                0 <= width <= 0xffff_ffff,
                0 <= height <= 0xffff_ffff,
        ;
    }
    let pixels: u128 = width as u128 * height as u128;
    let expected: u128 = pixels * 6;
    if len as u128 != expected {
        return Err(BlobError::PayloadLength { len, expected, width, height });
    }
    Ok((width, height))
}

/// Reads a blob back in the given byte order: its frame's width, height and
/// samples.
pub fn read_blob(order: ByteOrder, data: &[u8]) -> (r: Result<(u32, u32, Vec<u16>), BlobError>)
    ensures
        match r {
            Ok((width, height, rgb16)) => {
                &&& data@ == blob_bytes(order, width, height, rgb16@)
                &&& rgb16@.len() == width * height * 3
            },
            Err(e) => blob_refused(order, data@, e),
        },
{
    let (width, height) = match check_header(order, data) {
        Ok(size) => size,
        Err(e) => {
            return Err(e);
        },
    };
    let total: usize = data.len();
    let payload: &[u8] = vstd::slice::slice_subrange(data, HEADER_LEN, total);
    proof {
        assert(payload_len(width as int, height as int) == 2 * (width * height * 3))
            by (nonlinear_arith);
    }
    let rgb16 = read_payload(order, payload);
    proof {
        lemma_blob_from_parts(order, width, height, rgb16@, data@);
    }
    Ok((width, height, rgb16))
}

proof fn lemma_value_of_bytes(order: ByteOrder, x: u32, data: Seq<u8>, at: int)
    requires
        0 <= at,
        at + 4 <= data.len(),
        data.subrange(at, at + 4) == bytes32(order, x),
    ensures
        value32(order, data, at) == x,
{
    reveal(bytes32);
    reveal(value32);
    let part = data.subrange(at, at + 4);
    assert(data[at] == part[0]);
    assert(data[at + 1] == part[1]);
    assert(data[at + 2] == part[2]);
    assert(data[at + 3] == part[3]);
}

proof fn lemma_header(order: ByteOrder, width: u32, height: u32, rgb16: Seq<u16>)
    ensures
        ({
            let data = blob_bytes(order, width, height, rgb16);
            &&& data.len() == HEADER_LEN + 2 * rgb16.len()
            &&& value32(order, data, 0) == BLOB_MAGIC
            &&& value32(order, data, 4) == BLOB_VERSION
            &&& value32(order, data, 8) == width
            &&& value32(order, data, 12) == height
            &&& data.skip(16) == words_bytes(order, rgb16)
        }),
{
    let data = blob_bytes(order, width, height, rgb16);
    lemma_bytes32_len(order, BLOB_MAGIC);
    lemma_bytes32_len(order, BLOB_VERSION);
    lemma_bytes32_len(order, width);
    lemma_bytes32_len(order, height);
    assert(data.subrange(0, 4) =~= bytes32(order, BLOB_MAGIC));
    assert(data.subrange(4, 8) =~= bytes32(order, BLOB_VERSION));
    assert(data.subrange(8, 12) =~= bytes32(order, width));
    assert(data.subrange(12, 16) =~= bytes32(order, height));
    assert(data.skip(16) =~= words_bytes(order, rgb16));
    lemma_value_of_bytes(order, BLOB_MAGIC, data, 0);
    lemma_value_of_bytes(order, BLOB_VERSION, data, 4);
    lemma_value_of_bytes(order, width, data, 8);
    lemma_value_of_bytes(order, height, data, 12);
}

proof fn lemma_words_injective(order: ByteOrder, a: Seq<u16>, b: Seq<u16>)
    requires
        words_bytes(order, a) == words_bytes(order, b),
    ensures
        a == b,
{
    let x = words_bytes(order, a);
    let y = words_bytes(order, b);
    assert(x.len() == 2 * a.len() && y.len() == 2 * b.len());
    assert forall|i: int| 0 <= i < a.len() implies a[i] == b[i] by {
        lemma_word_bytes(order, a, i);
        lemma_word_bytes(order, b, i);
    }
    assert(a =~= b);
}

proof fn lemma_word_bytes(order: ByteOrder, words: Seq<u16>, i: int)
    requires
        0 <= i < words.len(),
    ensures
        words_bytes(order, words)[2 * i] == byte16(order, words[i], 0),
        words_bytes(order, words)[2 * i + 1] == byte16(order, words[i], 1),
{
    let lo = 2 * i;
    let hi = 2 * i + 1;
    assert(lo / 2 == i && lo % 2 == 0);
    assert(hi / 2 == i && hi % 2 == 1);
    assert(words_bytes(order, words)[lo] == byte16(order, words[lo / 2], lo % 2));
    assert(words_bytes(order, words)[hi] == byte16(order, words[hi / 2], hi % 2));
}

/// What is read back is what was written: reading a frame's blob in the order
/// it was written in is refused for no reason, and any frame that the blob may
/// be read as is that frame.
pub proof fn law_blob_round_trip(
    order: ByteOrder,
    width: u32,
    height: u32,
    rgb16: Seq<u16>,
    refusal: BlobError,
    read_width: u32,
    read_height: u32,
    read_rgb16: Seq<u16>,
)
    requires
        rgb16.len() == width * height * 3,
    ensures
        !blob_refused(order, blob_bytes(order, width, height, rgb16), refusal),
        blob_bytes(order, width, height, rgb16) == blob_bytes(
            order,
            read_width,
            read_height,
            read_rgb16,
        ) ==> read_width == width && read_height == height && read_rgb16 == rgb16,
{
    let data = blob_bytes(order, width, height, rgb16);
    lemma_header(order, width, height, rgb16);
    assert(payload_len(width as int, height as int) == 2 * (width * height * 3))
        by (nonlinear_arith);
    if data == blob_bytes(order, read_width, read_height, read_rgb16) {
        lemma_header(order, read_width, read_height, read_rgb16);
        lemma_words_injective(order, rgb16, read_rgb16);
    }
}

/// A blob read in the other byte order than it was written in is refused for
/// its magic number.
pub proof fn law_foreign_order_is_refused(
    order: ByteOrder,
    other: ByteOrder,
    width: u32,
    height: u32,
    rgb16: Seq<u16>,
)
    requires
        other != order,
    ensures
        blob_refused(other, blob_bytes(order, width, height, rgb16), BlobError::BadMagic),
{
    let data = blob_bytes(order, width, height, rgb16);
    lemma_header(order, width, height, rgb16);
    lemma_bytes32_len(order, BLOB_MAGIC);
    let head = data.subrange(0, 4);
    assert(head =~= bytes32(order, BLOB_MAGIC));
    assert(data[0] == head[0] && data[1] == head[1] && data[2] == head[2] && data[3] == head[3]);
    reveal(bytes32);
    reveal(value32);
}

/// One step of the decode pass. `S` is the type of texts.
#[derive(Debug, PartialEq, Eq)]
pub enum DecodeStep<S> {
    /// Decode the frame.
    Decode { frame: usize },
    /// Store the decoded frame under the blob name; nothing is stored where
    /// decoding failed.
    Store { frame: usize, blob_name: S },
    /// Report progress.
    Report(PipelineProgress),
}

impl View for DecodeStep<String> {
    type V = DecodeStep<Seq<char>>;

    open spec fn view(&self) -> DecodeStep<Seq<char>> {
        match *self {
            DecodeStep::Decode { frame } => DecodeStep::Decode { frame },
            DecodeStep::Store { frame, blob_name } => DecodeStep::Store {
                frame,
                blob_name: blob_name@,
            },
            DecodeStep::Report(p) => DecodeStep::Report(p),
        }
    }
}

/// File name of a frame's blob.
pub open spec fn blob_name(frame: int) -> Seq<char> {
    "rawcache_"@ + numeral(frame as nat) + ".bin"@
}

/// The steps for the first `upto` RAW frames of a run: each is decoded, then
/// stored, then reported.
pub open spec fn decode_steps(frames: Seq<int>, upto: int) -> Seq<DecodeStep<Seq<char>>>
    decreases upto,
{
    if upto <= 0 {
        Seq::empty()
    } else {
        let frame = frames[upto - 1];
        decode_steps(frames, upto - 1) + seq![
            DecodeStep::Decode { frame: frame as usize },
            DecodeStep::Store { frame: frame as usize, blob_name: blob_name(frame) },
            DecodeStep::Report(
                PipelineProgress::DecodeRaw { current: upto as usize, total: frames.len() as usize },
            ),
        ]
    }
}

/// Some decode steps, by what they hold.
pub open spec fn step_views(steps: Seq<DecodeStep<String>>) -> Seq<DecodeStep<Seq<char>>> {
    Seq::new(steps.len(), |i: int| steps[i]@)
}

/// A RAW frame is reported only once it has been decoded and stored: the three
/// steps of the frame with number `k` follow each other in that order.
pub proof fn law_report_follows_store(frames: Seq<int>, upto: int, k: int)
    requires
        0 <= k < upto <= frames.len(),
    ensures
        decode_steps(frames, upto).len() == 3 * upto,
        decode_steps(frames, upto)[3 * k] == (DecodeStep::<Seq<char>>::Decode {
            frame: frames[k] as usize,
        }),
        decode_steps(frames, upto)[3 * k + 1] == (DecodeStep::Store {
            frame: frames[k] as usize,
            blob_name: blob_name(frames[k]),
        }),
        decode_steps(frames, upto)[3 * k + 2] == DecodeStep::<Seq<char>>::Report(
            PipelineProgress::DecodeRaw { current: (k + 1) as usize, total: frames.len() as usize },
        ),
    decreases upto,
{
    if upto > 1 {
        law_report_follows_store(frames, upto - 1, if k < upto - 1 { k } else { 0 });
    }
    assert(decode_steps(frames, 0).len() == 0);
}

/// The progress events among some decode steps, in order.
pub open spec fn decode_events(steps: Seq<DecodeStep<Seq<char>>>) -> Seq<PipelineProgress>
    decreases steps.len(),
{
    if steps.len() == 0 {
        Seq::empty()
    } else {
        match steps.last() {
            DecodeStep::Report(p) => decode_events(steps.drop_last()).push(p),
            _ => decode_events(steps.drop_last()),
        }
    }
}

/// The decode pass reports each RAW frame once, from 1 on.
pub proof fn law_decoding_progress(frames: Seq<int>, upto: int)
    requires
        0 <= upto <= frames.len(),
    ensures
        decode_events(decode_steps(frames, upto)) == Seq::new(
            upto as nat,
            |k: int|
                PipelineProgress::DecodeRaw {
                    current: (k + 1) as usize,
                    total: frames.len() as usize,
                },
        ),
    decreases upto,
{
    let events = Seq::new(
        upto as nat,
        |k: int|
            PipelineProgress::DecodeRaw { current: (k + 1) as usize, total: frames.len() as usize },
    );
    if upto > 0 {
        law_decoding_progress(frames, upto - 1);
        let before = decode_steps(frames, upto - 1);
        let all = decode_steps(frames, upto);
        reveal_with_fuel(decode_events, 4);
        assert(all.drop_last().drop_last().drop_last() =~= before);
        assert(decode_events(all) =~= events);
    } else {
        assert(decode_events(decode_steps(frames, upto)) =~= events);
    }
}

/// The blobs of one run.
#[derive(Debug)]
pub struct FrameCache {
    order: ByteOrder,
    blobs: Vec<(String, String)>,
}

/// The blob of each path, the last recorded one where there are several. Two
/// spellings of one path share a blob.
pub open spec fn blob_map(recorded: Seq<(Seq<char>, Seq<char>)>) -> Map<
    (bool, Seq<Seq<char>>),
    Seq<char>,
>
    decreases recorded.len(),
{
    if recorded.len() == 0 {
        Map::empty()
    } else {
        blob_map(recorded.drop_last()).insert(path_key(recorded.last().0), recorded.last().1)
    }
}

/// The blob found among the recorded ones, where `same[i]` says whether the
/// path of number `i` is the one looked for: the last of those.
pub open spec fn found(recorded: Seq<(Seq<char>, Seq<char>)>, same: Seq<bool>) -> Option<Seq<char>>
    decreases recorded.len(),
{
    if recorded.len() == 0 {
        None
    } else if same[recorded.len() - 1] {
        Some(recorded.last().1)
    } else {
        found(recorded.drop_last(), same)
    }
}

/// Whether the platform may answer `same` where it is asked which recorded
/// paths equal `path`.
pub open spec fn reads_same(
    recorded: Seq<(Seq<char>, Seq<char>)>,
    path: Seq<char>,
    same: Seq<bool>,
) -> bool {
    &&& same.len() == recorded.len()
    &&& forall|i: int|
        0 <= i < recorded.len() ==> reads_equal((#[trigger] recorded[i]).0, path, same[i])
}

/// Whether every platform splits the recorded paths alike.
pub open spec fn all_split_alike(recorded: Seq<(Seq<char>, Seq<char>)>) -> bool {
    forall|i: int| 0 <= i < recorded.len() ==> splits_alike((#[trigger] recorded[i]).0)
}

/// A recorded blob is found again under every spelling of its path, until
/// another one is recorded for that path; what is recorded for one path does
/// not touch another's blob.
pub proof fn law_recorded_blob_is_found(
    recorded: Seq<(Seq<char>, Seq<char>)>,
    path: Seq<char>,
    blob: Seq<char>,
    asked: Seq<char>,
)
    ensures
        ({
            let before = blob_map(recorded);
            let after = blob_map(recorded.push((path, blob)));
            if path_key(asked) == path_key(path) {
                after.contains_key(path_key(asked)) && after[path_key(asked)] == blob
            } else {
                &&& after.contains_key(path_key(asked)) == before.contains_key(path_key(asked))
                &&& before.contains_key(path_key(asked)) ==> after[path_key(asked)]
                    == before[path_key(asked)]
            }
        }),
{
    assert(recorded.push((path, blob)).drop_last() =~= recorded);
}

proof fn lemma_found_from_end(recorded: Seq<(Seq<char>, Seq<char>)>, same: Seq<bool>, i: int)
    requires
        0 <= i < recorded.len(),
        same[i],
        forall|k: int| i < k < recorded.len() ==> !same[k],
    ensures
        found(recorded, same) == Some(recorded[i].1),
    decreases recorded.len(),
{
    if i < recorded.len() - 1 {
        lemma_found_from_end(recorded.drop_last(), same, i);
    }
}

proof fn lemma_found_nothing(recorded: Seq<(Seq<char>, Seq<char>)>, same: Seq<bool>)
    requires
        forall|k: int| 0 <= k < recorded.len() ==> !same[k],
    ensures
        found(recorded, same) is None,
    decreases recorded.len(),
{
    if recorded.len() > 0 {
        lemma_found_nothing(recorded.drop_last(), same);
    }
}

proof fn lemma_found_in_map(
    recorded: Seq<(Seq<char>, Seq<char>)>,
    path: Seq<char>,
    same: Seq<bool>,
)
    requires
        forall|i: int|
            0 <= i < recorded.len() ==> same[i] == (path_key((#[trigger] recorded[i]).0)
                == path_key(path)),
    ensures
        match found(recorded, same) {
            Some(blob) => blob_map(recorded).contains_key(path_key(path))
                && blob_map(recorded)[path_key(path)] == blob,
            None => !blob_map(recorded).contains_key(path_key(path)),
        },
    decreases recorded.len(),
{
    if recorded.len() > 0 {
        let init = recorded.drop_last();
        assert forall|i: int| 0 <= i < init.len() implies same[i] == (path_key(
            (#[trigger] init[i]).0,
        ) == path_key(path)) by {
            assert(init[i] == recorded[i]);
        }
        lemma_found_in_map(init, path, same);
        assert(recorded.last() == recorded[recorded.len() - 1]);
    }
}

impl View for FrameCache {
    type V = Seq<(Seq<char>, Seq<char>)>;

    /// The paths and their blobs, in the order they were recorded.
    closed spec fn view(&self) -> Seq<(Seq<char>, Seq<char>)> {
        Seq::new(self.blobs@.len(), |i: int| (self.blobs@[i].0@, self.blobs@[i].1@))
    }
}

impl FrameCache {
    /// The byte order of this cache's blobs.
    pub closed spec fn spec_order(self) -> ByteOrder {
        self.order
    }

    /// A cache without blobs, in this machine's byte order.
    pub fn new() -> (r: Self)
        ensures
            r@ == Seq::<(Seq<char>, Seq<char>)>::empty(),
            is_native_order(r.spec_order()),
    {
        FrameCache { order: native_order(), blobs: Vec::new() }
    }

    /// The byte order of this cache's blobs.
    pub fn order(&self) -> (r: ByteOrder)
        ensures
            r == self.spec_order(),
    {
        self.order
    }

    /// The decode pass over the frames of a run: each RAW frame, in frame
    /// order, is decoded, stored and then reported. `raw[i]` says whether frame
    /// `i` is RAW.
    pub fn build(raw: &Vec<bool>) -> (r: Vec<DecodeStep<String>>)
        ensures
            step_views(r@) == decode_steps(marked(raw@), marked(raw@).len() as int),
    {
        let frames = raw_frames(raw);
        let total: usize = frames.len();
        let mut steps: Vec<DecodeStep<String>> = Vec::new();
        let mut k: usize = 0;
        assert(step_views(steps@) =~= decode_steps(marked(raw@), 0));
        while k < total
            invariant
                k <= total,
                total == frames@.len(),
                total == marked(raw@).len(),
                forall|j: int| 0 <= j < total ==> #[trigger] frames@[j] == marked(raw@)[j],
                step_views(steps@) == decode_steps(marked(raw@), k as int),
            decreases total - k,
        {
            let ghost before = steps@;
            let frame: usize = frames[k];
            let mut name = "rawcache_".to_owned();
            name.append(decimal(frame as u128).as_str());
            name.append(".bin");
            steps.push(DecodeStep::Decode { frame });
            steps.push(DecodeStep::Store { frame, blob_name: name });
            steps.push(
                DecodeStep::Report(PipelineProgress::DecodeRaw { current: k + 1, total }),
            );
            k = k + 1;
            proof {
                assert(step_views(before) == decode_steps(marked(raw@), k - 1));
                assert(step_views(steps@) =~= decode_steps(marked(raw@), k as int));
            }
        }
        steps
    }

    /// Records that the frame at `path` is stored in the blob `blob`.
    pub fn record(&mut self, path: String, blob: String)
        ensures
            final(self)@ == old(self)@.push((path@, blob@)),
            final(self).spec_order() == old(self).spec_order(),
    {
        self.blobs.push((path, blob));
        assert(self@ =~= old(self)@.push((path@, blob@)));
    }

    /// The blob of the frame at `path`, however the path is spelled; a frame
    /// without one is loaded directly.
    pub fn lookup(&self, path: &str) -> (r: Option<&String>)
        ensures
            exists|same: Seq<bool>| #[trigger]
                reads_same(self@, path@, same) && (match r {
                    Some(blob) => found(self@, same) == Some(blob@),
                    None => found(self@, same) is None,
                }),
            all_split_alike(self@) && splits_alike(path@) ==> (match r {
                Some(blob) => blob_map(self@).contains_key(path_key(path@)) && blob_map(
                    self@,
                )[path_key(path@)] == blob@,
                None => !blob_map(self@).contains_key(path_key(path@)),
            }),
    {
        let n: usize = self.blobs.len();
        let mut same: Vec<bool> = Vec::new();
        let mut i: usize = 0;
        while i < n
            invariant
                i <= n,
                n == self.blobs@.len(),
                same@.len() == i,
                forall|k: int|
                    0 <= k < i ==> reads_equal((#[trigger] self@[k]).0, path@, same@[k]),
                all_split_alike(self@) && splits_alike(path@) ==> forall|k: int|
                    0 <= k < i ==> same@[k] == (path_key((#[trigger] self@[k]).0) == path_key(
                        path@,
                    )),
            decreases n - i,
        {
            let equal = same_path(self.blobs[i].0.as_str(), path);
            assert(self@[i as int].0 == self.blobs@[i as int].0@);
            same.push(equal);
            i = i + 1;
        }
        let ghost flags = same@;
        proof {
            assert(self@.len() == n);
            assert(reads_same(self@, path@, flags));
            if all_split_alike(self@) && splits_alike(path@) {
                lemma_found_in_map(self@, path@, flags);
            }
        }
        while i > 0
            invariant
                i <= n,
                n == self.blobs@.len(),
                n == self@.len(),
                same@ == flags,
                flags.len() == n,
                forall|k: int| i <= k < n ==> !flags[k],
                reads_same(self@, path@, flags),
                all_split_alike(self@) && splits_alike(path@) ==> (match found(self@, flags) {
                    Some(blob) => blob_map(self@).contains_key(path_key(path@)) && blob_map(
                        self@,
                    )[path_key(path@)] == blob,
                    None => !blob_map(self@).contains_key(path_key(path@)),
                }),
            decreases i,
        {
            i = i - 1;
            if same[i] {
                proof {
                    lemma_found_from_end(self@, flags, i as int);
                }
                return Some(&self.blobs[i].1);
            }
        }
        proof {
            lemma_found_nothing(self@, flags);
        }
        None
    }
}

/// Where a blob holds what: the magic number, the version, the width and the
/// height, four bytes each, then two bytes for each sample, in the frame's
/// order. The byte order says which byte of a number comes first.
pub proof fn law_blob_layout(
    order: ByteOrder,
    width: u32,
    height: u32,
    rgb16: Seq<u16>,
    field: int,
    i: int,
)
    requires
        0 <= field < 4,
    ensures
        ({
            let data = blob_bytes(order, width, height, rgb16);
            let at = 4 * field;
            let number = if order == ByteOrder::Little {
                data[at] + 256 * data[at + 1] + 65536 * data[at + 2] + 16777216 * data[at + 3]
            } else {
                data[at + 3] + 256 * data[at + 2] + 65536 * data[at + 1] + 16777216 * data[at]
            };
            &&& data.len() == 16 + 2 * rgb16.len()
            &&& field == 0 ==> number == 0x5a53_4642
            &&& field == 1 ==> number == 1
            &&& field == 2 ==> number == width
            &&& field == 3 ==> number == height
            &&& 0 <= i < rgb16.len() ==> rgb16[i] == if order == ByteOrder::Little {
                data[16 + 2 * i] + 256 * data[17 + 2 * i]
            } else {
                data[17 + 2 * i] + 256 * data[16 + 2 * i]
            }
        }),
{
    let data = blob_bytes(order, width, height, rgb16);
    lemma_header(order, width, height, rgb16);
    reveal(value32);
    if 0 <= i < rgb16.len() {
        lemma_word_bytes(order, rgb16, i);
        let payload = data.skip(16);
        assert(payload[2 * i] == data[16 + 2 * i]);
        assert(payload[2 * i + 1] == data[17 + 2 * i]);
    }
}

/// A file is refused for one reason at most, and one that is shorter than a
/// header for that.
pub proof fn law_one_reason_to_refuse(order: ByteOrder, data: Seq<u8>, e: BlobError, f: BlobError)
    requires
        blob_refused(order, data, e),
        blob_refused(order, data, f),
    ensures
        e == f,
        data.len() < 16 <==> e is Truncated,
        e matches BlobError::Truncated { len } ==> len == data.len(),
        e matches BlobError::PayloadLength { len, expected, width, height } ==> len + 16
            == data.len() && expected == 6 * (width * height),
{
    if let BlobError::PayloadLength { len, expected, width, height } = e {
        assert(width * height * 6 == 6 * (width * height));
    }
}

/// Of the blobs recorded for a path the last one is found, and none where none
/// was recorded.
pub proof fn law_last_recorded_blob_wins(
    recorded: Seq<(Seq<char>, Seq<char>)>,
    same: Seq<bool>,
    i: int,
)
    ensures
        0 <= i < recorded.len() && same[i] && (forall|k: int| i < k < recorded.len() ==> !same[k])
            ==> found(recorded, same) == Some(recorded[i].1),
        (forall|k: int| 0 <= k < recorded.len() ==> !same[k]) ==> found(recorded, same) is None,
{
    if 0 <= i < recorded.len() && same[i] && (forall|k: int| i < k < recorded.len() ==> !same[k]) {
        lemma_found_from_end(recorded, same, i);
    }
    if forall|k: int| 0 <= k < recorded.len() ==> !same[k] {
        lemma_found_nothing(recorded, same);
    }
}

/// Every frame has a blob name of its own.
pub proof fn law_blob_names_differ(a: int, b: int)
    requires
        0 <= a,
        0 <= b,
        a != b,
    ensures
        blob_name(a) != blob_name(b),
{
    if blob_name(a) == blob_name(b) {
        let head = "rawcache_"@;
        let tail = ".bin"@;
        let x = numeral(a as nat);
        let y = numeral(b as nat);
        assert(blob_name(a).len() == head.len() + x.len() + tail.len());
        assert(blob_name(b).len() == head.len() + y.len() + tail.len());
        assert(blob_name(a).subrange(head.len() as int, (head.len() + x.len()) as int) =~= x);
        assert(blob_name(b).subrange(head.len() as int, (head.len() + y.len()) as int) =~= y);
        law_padding_keeps_the_number(a as nat, b as nat, 0);
    }
}

/// A blob that was recorded is found again: right after it is recorded for a
/// path, a lookup of that path, in any spelling that every platform splits
/// alike, gives it.
pub proof fn law_recorded_blob_is_looked_up(
    cache: &mut FrameCache,
    path: String,
    blob: String,
    after: FrameCache,
    asked: &str,
    r: Option<&String>,
)
    requires
        call_ensures(FrameCache::record, (cache, path, blob), ()),
        after == *final(cache),
        call_ensures(FrameCache::lookup, (&after, asked), r),
        all_split_alike(after@),
        splits_alike(asked@),
        path_key(asked@) == path_key(path@),
    ensures
        r matches Some(found) && found@ == blob@,
        after.spec_order() == old(cache).spec_order(),
{
    law_recorded_blob_is_found(old(cache)@, path@, blob@, asked@);
}

/// What is written is read back: a blob that is read in the byte order it was
/// written in gives the frame's width, height and samples.
pub proof fn law_written_blob_is_read_back(
    order: ByteOrder,
    width: u32,
    height: u32,
    rgb16: &[u16],
    written: Vec<u8>,
    bytes: &[u8],
    r: Result<(u32, u32, Vec<u16>), BlobError>,
)
    requires
        rgb16@.len() == width * height * 3,
        call_ensures(write_blob, (order, width, height, rgb16), written),
        bytes@ == written@,
        call_ensures(read_blob, (order, bytes), r),
    ensures
        r matches Ok(frame) && frame.0 == width && frame.1 == height && frame.2@ == rgb16@,
{
    match r {
        Ok(frame) => {
            law_blob_round_trip(
                order,
                width,
                height,
                rgb16@,
                BlobError::BadMagic,
                frame.0,
                frame.1,
                frame.2@,
            );
        },
        Err(e) => {
            law_blob_round_trip(order, width, height, rgb16@, e, width, height, rgb16@);
        },
    }
}

} // verus!
