//! Byte-level building blocks: fixed-size fields, CompactSize length prefixes, and
//! sequences of items in the `Vector` / `Array` layouts of `zcash_encoding`.

use crate::error::{read_result_view, ReadError, ReadErrorView, WriteError};
use vstd::bytes::*;
use vstd::prelude::*;
use zcash_encoding::CompactSize;

verus! {

/// The largest length that a CompactSize prefix may carry (`zcash_encoding::MAX_COMPACT_SIZE`).
pub const MAX_COMPACT_SIZE: u64 = 0x0200_0000;

/// Reading exactly `n` bytes from the front of `s`, with no check on what they hold.
pub open spec fn spec_read_bytes(s: Seq<u8>, n: nat) -> Result<(Seq<u8>, nat), ReadErrorView> {
    if s.len() < n {
        Err(ReadErrorView::UnexpectedEof)
    } else {
        Ok((s.take(n as int), n))
    }
}

/// Reads the first `N` bytes of `input` into an array.
pub(crate) fn read_array<const N: usize>(input: &[u8]) -> (r: Result<([u8; N], usize), ReadError>)
    ensures
        read_result_view(r) == spec_read_bytes(input@, N as nat),
{
    let len = input.len();
    if len < N {
        return Err(ReadError::UnexpectedEof);
    }
    let mut a = [0u8; N];
    let mut i: usize = 0;
    while i < N
        invariant
            i <= N,
            N <= len,
            len == input@.len(),
            a@.len() == N,
            forall|j: int| 0 <= j < i ==> a@[j] == input@[j],
        decreases N - i,
    {
        let b = input[i];
        a[i] = b;
        i += 1;
    }
    assert(a@ =~= input@.take(N as int));
    Ok((a, N))
}

/// Appends `bytes` to `out`.
pub(crate) fn append_bytes(out: &mut Vec<u8>, bytes: &[u8])
    ensures
        final(out)@ == old(out)@ + bytes@,
{
    let len = bytes.len();
    let mut i: usize = 0;
    while i < len
        invariant
            i <= len,
            len == bytes@.len(),
            out@ == old(out)@ + bytes@.take(i as int),
        decreases len - i,
    {
        out.push(bytes[i]);
        i += 1;
        assert(out@ =~= old(out)@ + bytes@.take(i as int));
    }
    assert(bytes@.take(len as int) =~= bytes@);
}

/// The bytes the remaining input starts from once `n` bytes of it have been read.
pub(crate) fn rest_of(input: &[u8], n: usize) -> (r: &[u8])
    requires
        n <= input@.len(),
    ensures
        r@ == input@.skip(n as int),
{
    let r = vstd::slice::slice_subrange(input, n, input.len());
    assert(r@ =~= input@.skip(n as int));
    r
}

// ---------------------------------------------------------------------------
// CompactSize
// ---------------------------------------------------------------------------

/// The CompactSize encoding of `n`: one byte below 253, otherwise a marker byte
/// (253, 254, 255) followed by `n` as a little-endian `u16`, `u32` or `u64`.
pub open spec fn compact_size_encoding(n: nat) -> Seq<u8> {
    if n < 253 {
        seq![n as u8]
    } else if n <= 0xffff {
        seq![253u8] + spec_u16_to_le_bytes(n as u16)
    } else if n <= 0xffff_ffff {
        seq![254u8] + spec_u32_to_le_bytes(n as u32)
    } else {
        seq![255u8] + spec_u64_to_le_bytes(n as u64)
    }
}

/// Accepts a decoded length when it does not exceed [`MAX_COMPACT_SIZE`].
pub open spec fn compact_size_bounded(n: nat, k: nat) -> Result<(nat, nat), ReadErrorView> {
    if n > MAX_COMPACT_SIZE {
        Err(ReadErrorView::CompactSizeTooLarge)
    } else {
        Ok((n, k))
    }
}

/// Reading a CompactSize from the front of `s`: the value and the number of bytes it
/// takes. A value written with more bytes than it needs, or above [`MAX_COMPACT_SIZE`],
/// is refused.
pub open spec fn compact_size_parse(s: Seq<u8>) -> Result<(nat, nat), ReadErrorView> {
    if s.len() < 1 {
        Err(ReadErrorView::UnexpectedEof)
    } else if s[0] < 253 {
        compact_size_bounded(s[0] as nat, 1)
    } else if s[0] == 253 {
        if s.len() < 3 {
            Err(ReadErrorView::UnexpectedEof)
        } else {
            let n = spec_u16_from_le_bytes(s.subrange(1, 3));
            if n < 253 {
                Err(ReadErrorView::NonCanonicalCompactSize)
            } else {
                compact_size_bounded(n as nat, 3)
            }
        }
    } else if s[0] == 254 {
        if s.len() < 5 {
            Err(ReadErrorView::UnexpectedEof)
        } else {
            let n = spec_u32_from_le_bytes(s.subrange(1, 5));
            if n < 0x10000 {
                Err(ReadErrorView::NonCanonicalCompactSize)
            } else {
                compact_size_bounded(n as nat, 5)
            }
        }
    } else {
        if s.len() < 9 {
            Err(ReadErrorView::UnexpectedEof)
        } else {
            let n = spec_u64_from_le_bytes(s.subrange(1, 9));
            if n < 0x1_0000_0000 {
                Err(ReadErrorView::NonCanonicalCompactSize)
            } else {
                compact_size_bounded(n as nat, 9)
            }
        }
    }
}

/// Calls `zcash_encoding::CompactSize::read` on the byte slice `input`, which it reads
/// from the front. Claimed: the value and the bytes left over are those of
/// `compact_size_parse`; a read that ran out of input is `UnexpectedEof`, and the
/// crate's refusals "non-canonical CompactSize" and "CompactSize too large" are
/// `NonCanonicalCompactSize` and `CompactSizeTooLarge`.
#[verifier::external_body]
fn compact_size_read(input: &[u8]) -> (r: Result<(u64, &[u8]), ReadError>)
    ensures
        match compact_size_parse(input@) {
            Ok((n, k)) => r matches Ok((v, rest)) && v == n && rest@ == input@.skip(k as int),
            Err(e) => r matches Err(e2) && e2@ == e,
        },
{
    let mut rest = input;
    match CompactSize::read(&mut rest) {
        Ok(n) => Ok((n, rest)),
        Err(e) => match e.kind() {
            std::io::ErrorKind::UnexpectedEof => Err(ReadError::UnexpectedEof),
            _ => {
                if e.to_string() == "CompactSize too large" {
                    Err(ReadError::CompactSizeTooLarge)
                } else {
                    Err(ReadError::NonCanonicalCompactSize)
                }
            },
        },
    }
}

/// Calls `zcash_encoding::CompactSize::write` with a `Vec<u8>` as the writer. Claimed:
/// it succeeds and appends exactly `compact_size_encoding(n)`. The crate fails only when
/// its writer does, and std's `Write` for `Vec<u8>` appends, growing the vector as needed.
#[verifier::external_body]
pub(crate) fn compact_size_write(out: &mut Vec<u8>, n: usize) -> (r: Result<(), WriteError>)
    ensures
        r is Ok,
        final(out)@ == old(out)@ + compact_size_encoding(n as nat),
{
    match CompactSize::write(&mut *out, n) {
        Ok(()) => Ok(()),
        Err(_) => Err(WriteError::Io),
    }
}

/// Reads a CompactSize length prefix: the length and the number of bytes it took.
pub(crate) fn read_compact_size(input: &[u8]) -> (r: Result<(usize, usize), ReadError>)
    ensures
        match compact_size_parse(input@) {
            Ok((n, k)) => r matches Ok((v, c)) && v == n && c == k,
            Err(e) => r matches Err(e2) && e2@ == e,
        },
{
    let (n, rest) = compact_size_read(input)?;
    proof {
        lemma_compact_size_parse_facts(input@);
    }
    let consumed = input.len() - rest.len();
    Ok((n as usize, consumed))
}

/// What every accepted CompactSize satisfies: it fits in the input, takes at most nine
/// bytes, and carries at most [`MAX_COMPACT_SIZE`].
pub proof fn lemma_compact_size_parse_facts(s: Seq<u8>)
    ensures
        compact_size_parse(s) matches Ok((n, k)) ==> 1 <= k <= 9 && k <= s.len() && n
            <= MAX_COMPACT_SIZE,
{
}

/// Law: a CompactSize reads back as the length it was written from, for every length up
/// to [`MAX_COMPACT_SIZE`], whatever follows it.
pub proof fn lemma_compact_size_round_trip(n: nat, rest: Seq<u8>)
    requires
        n <= MAX_COMPACT_SIZE,
    ensures
        compact_size_parse(compact_size_encoding(n) + rest) == Ok::<(nat, nat), ReadErrorView>(
            (n, compact_size_encoding(n).len()),
        ),
        1 <= compact_size_encoding(n).len() <= 5,
{
    lemma_auto_spec_u16_to_from_le_bytes();
    lemma_auto_spec_u32_to_from_le_bytes();
    let e = compact_size_encoding(n);
    let s = e + rest;
    if n < 253 {
        assert(s[0] == n as u8);
    } else if n <= 0xffff {
        let b = spec_u16_to_le_bytes(n as u16);
        assert(s.subrange(1, 3) =~= b);
        assert(s[0] == 253u8);
    } else {
        let b = spec_u32_to_le_bytes(n as u32);
        assert(s.subrange(1, 5) =~= b);
        assert(s[0] == 254u8);
    }
}

/// Law: an accepted CompactSize is written back as exactly the bytes it was read from.
pub proof fn lemma_compact_size_canonical(s: Seq<u8>)
    ensures
        compact_size_parse(s) matches Ok((n, k)) ==> compact_size_encoding(n) == s.take(k as int),
{
    lemma_auto_spec_u16_to_from_le_bytes();
    lemma_auto_spec_u32_to_from_le_bytes();
    if let Ok((n, k)) = compact_size_parse(s) {
        if s[0] < 253 {
            assert(compact_size_encoding(n) =~= s.take(1));
        } else if s[0] == 253 {
            let t = s.subrange(1, 3);
            assert(spec_u16_to_le_bytes(spec_u16_from_le_bytes(t)) == t);
            assert(compact_size_encoding(n) =~= s.take(3));
        } else {
            let t = s.subrange(1, 5);
            assert(spec_u32_to_le_bytes(spec_u32_from_le_bytes(t)) == t);
            assert(compact_size_encoding(n) =~= s.take(5));
        }
    }
}

// ---------------------------------------------------------------------------
// Sequences of items
// ---------------------------------------------------------------------------

/// Reading `count` items one after another from the front of `s` with the item reader
/// `item` (the `Array` layout): the items and the bytes they took, or the error of the
/// first item that fails.
pub open spec fn spec_read_array<T>(
    s: Seq<u8>,
    count: nat,
    item: spec_fn(Seq<u8>) -> Result<(T, nat), ReadErrorView>,
) -> Result<(Seq<T>, nat), ReadErrorView>
    decreases count,
{
    if count == 0 {
        Ok((Seq::empty(), 0))
    } else {
        match spec_read_array(s, (count - 1) as nat, item) {
            Err(e) => Err(e),
            Ok((vs, n)) => match item(s.skip(n as int)) {
                Err(e) => Err(e),
                Ok((v, k)) => Ok((vs.push(v), n + k)),
            },
        }
    }
}

/// Reading a CompactSize count followed by that many items (the `Vector` layout).
pub open spec fn spec_read_vector<T>(
    s: Seq<u8>,
    item: spec_fn(Seq<u8>) -> Result<(T, nat), ReadErrorView>,
) -> Result<(Seq<T>, nat), ReadErrorView> {
    match compact_size_parse(s) {
        Err(e) => Err(e),
        Ok((count, k)) => match spec_read_array(s.skip(k as int), count, item) {
            Err(e) => Err(e),
            Ok((vs, n)) => Ok((vs, k + n)),
        },
    }
}

/// The items of `vs` encoded with `enc`, one after another (the `Array` layout).
pub open spec fn array_encoding<T>(vs: Seq<T>, enc: spec_fn(T) -> Seq<u8>) -> Seq<u8>
    decreases vs.len(),
{
    if vs.len() == 0 {
        Seq::empty()
    } else {
        array_encoding(vs.drop_last(), enc) + enc(vs.last())
    }
}

/// The CompactSize count of `vs` followed by its items (the `Vector` layout).
pub open spec fn vector_encoding<T>(vs: Seq<T>, enc: spec_fn(T) -> Seq<u8>) -> Seq<u8> {
    compact_size_encoding(vs.len()) + array_encoding(vs, enc)
}

/// An item reader reads back every item of `vs` from its encoding, whatever follows.
pub open spec fn reads_back_all<T>(
    vs: Seq<T>,
    enc: spec_fn(T) -> Seq<u8>,
    item: spec_fn(Seq<u8>) -> Result<(T, nat), ReadErrorView>,
) -> bool {
    forall|i: int, rest: Seq<u8>|
        #![trigger item(enc(vs[i]) + rest)]
        0 <= i < vs.len() ==> item(enc(vs[i]) + rest) == Ok::<(T, nat), ReadErrorView>(
            (vs[i], enc(vs[i]).len()),
        )
}

/// What an item reader accepts is written back as exactly the bytes it was read from,
/// and satisfies `good`.
pub open spec fn reads_canonically<T>(
    enc: spec_fn(T) -> Seq<u8>,
    item: spec_fn(Seq<u8>) -> Result<(T, nat), ReadErrorView>,
    good: spec_fn(T) -> bool,
) -> bool {
    forall|t: Seq<u8>|
        #![trigger item(t)]
        item(t) matches Ok((v, k)) ==> k <= t.len() && enc(v) == t.take(k as int) && good(v)
}

/// A sequence of items reads back from its `Array` encoding when each item does.
pub proof fn lemma_array_round_trip<T>(
    vs: Seq<T>,
    enc: spec_fn(T) -> Seq<u8>,
    item: spec_fn(Seq<u8>) -> Result<(T, nat), ReadErrorView>,
    rest: Seq<u8>,
)
    requires
        reads_back_all(vs, enc, item),
    ensures
        spec_read_array(array_encoding(vs, enc) + rest, vs.len(), item) == Ok::<
            (Seq<T>, nat),
            ReadErrorView,
        >((vs, array_encoding(vs, enc).len())),
    decreases vs.len(),
{
    if vs.len() > 0 {
        let p = vs.drop_last();
        let last = vs.last();
        assert(reads_back_all(p, enc, item)) by {
            assert forall|i: int, r: Seq<u8>| 0 <= i < p.len() implies #[trigger] item(
                enc(p[i]) + r,
            ) == Ok::<(T, nat), ReadErrorView>((p[i], enc(p[i]).len())) by {
                assert(p[i] == vs[i]);
            }
        }
        let tail = enc(last) + rest;
        lemma_array_round_trip(p, enc, item, tail);
        let s = array_encoding(vs, enc) + rest;
        assert(s =~= array_encoding(p, enc) + tail);
        let np = array_encoding(p, enc).len();
        assert(s.skip(np as int) =~= tail);
        assert(item(enc(vs[vs.len() - 1]) + rest) == Ok::<(T, nat), ReadErrorView>(
            (vs[vs.len() - 1], enc(vs[vs.len() - 1]).len()),
        ));
        assert(p.push(last) =~= vs);
        assert(array_encoding(vs, enc).len() == np + enc(last).len());
    } else {
        assert(vs =~= Seq::<T>::empty());
    }
}

/// A sequence of items read with a canonical item reader is written back as exactly the
/// bytes it was read from, has the count asked for, and each item satisfies `good`.
pub proof fn lemma_array_canonical<T>(
    s: Seq<u8>,
    count: nat,
    enc: spec_fn(T) -> Seq<u8>,
    item: spec_fn(Seq<u8>) -> Result<(T, nat), ReadErrorView>,
    good: spec_fn(T) -> bool,
)
    requires
        reads_canonically(enc, item, good),
    ensures
        spec_read_array(s, count, item) matches Ok((vs, n)) ==> {
            &&& vs.len() == count
            &&& n <= s.len()
            &&& array_encoding(vs, enc) == s.take(n as int)
            &&& forall|i: int| 0 <= i < vs.len() ==> #[trigger] good(vs[i])
        },
    decreases count,
{
    if count > 0 {
        lemma_array_canonical(s, (count - 1) as nat, enc, item, good);
        if let Ok((vs0, m)) = spec_read_array(s, (count - 1) as nat, item) {
            let t = s.skip(m as int);
            if let Ok((v, k)) = item(t) {
                let vs = vs0.push(v);
                assert(vs.drop_last() =~= vs0);
                assert(array_encoding(vs, enc) =~= s.take(m as int) + t.take(k as int));
                assert(s.take(m as int) + t.take(k as int) =~= s.take((m + k) as int));
                assert forall|i: int| 0 <= i < vs.len() implies #[trigger] good(vs[i]) by {
                    if i < vs0.len() {
                        assert(vs[i] == vs0[i]);
                    }
                }
            }
        }
    }
}

/// Law: a sequence of at most [`MAX_COMPACT_SIZE`] items reads back from its `Vector`
/// encoding when each item does, whatever follows.
pub proof fn lemma_vector_round_trip<T>(
    vs: Seq<T>,
    enc: spec_fn(T) -> Seq<u8>,
    item: spec_fn(Seq<u8>) -> Result<(T, nat), ReadErrorView>,
    rest: Seq<u8>,
)
    requires
        vs.len() <= MAX_COMPACT_SIZE,
        reads_back_all(vs, enc, item),
    ensures
        spec_read_vector(vector_encoding(vs, enc) + rest, item) == Ok::<
            (Seq<T>, nat),
            ReadErrorView,
        >((vs, vector_encoding(vs, enc).len())),
{
    let c = compact_size_encoding(vs.len());
    let body = array_encoding(vs, enc) + rest;
    let s = vector_encoding(vs, enc) + rest;
    assert(s =~= c + body);
    lemma_compact_size_round_trip(vs.len(), body);
    assert(s.skip(c.len() as int) =~= body);
    lemma_array_round_trip(vs, enc, item, rest);
}

/// Law: a sequence read in the `Vector` layout with a canonical item reader is written
/// back as exactly the bytes it was read from, and each item satisfies `good`.
pub proof fn lemma_vector_canonical<T>(
    s: Seq<u8>,
    enc: spec_fn(T) -> Seq<u8>,
    item: spec_fn(Seq<u8>) -> Result<(T, nat), ReadErrorView>,
    good: spec_fn(T) -> bool,
)
    requires
        reads_canonically(enc, item, good),
    ensures
        spec_read_vector(s, item) matches Ok((vs, n)) ==> {
            &&& n <= s.len()
            &&& vs.len() <= MAX_COMPACT_SIZE
            &&& vector_encoding(vs, enc) == s.take(n as int)
            &&& forall|i: int| 0 <= i < vs.len() ==> #[trigger] good(vs[i])
        },
{
    lemma_compact_size_parse_facts(s);
    lemma_compact_size_canonical(s);
    if let Ok((count, k)) = compact_size_parse(s) {
        let t = s.skip(k as int);
        lemma_array_canonical(t, count, enc, item, good);
        if let Ok((vs, n)) = spec_read_array(t, count, item) {
            assert(s.take(k as int) + t.take(n as int) =~= s.take((k + n) as int));
        }
    }
}

/// Once reading the first `i` items has failed, reading more items fails the same way.
pub proof fn lemma_array_error_persists<T>(
    s: Seq<u8>,
    i: nat,
    j: nat,
    item: spec_fn(Seq<u8>) -> Result<(T, nat), ReadErrorView>,
)
    requires
        i <= j,
        spec_read_array(s, i, item) is Err,
    ensures
        spec_read_array(s, j, item) == spec_read_array(s, i, item),
    decreases j - i,
{
    if i < j {
        lemma_array_error_persists(s, i, (j - 1) as nat, item);
    }
}

/// The `Array` encoding of the first `i + 1` items extends that of the first `i`.
pub proof fn lemma_array_encoding_step<T>(vs: Seq<T>, i: int, enc: spec_fn(T) -> Seq<u8>)
    requires
        0 <= i < vs.len(),
    ensures
        array_encoding(vs.take(i + 1), enc) == array_encoding(vs.take(i), enc) + enc(vs[i]),
{
    assert(vs.take(i + 1).drop_last() =~= vs.take(i));
}

/// Encoding the items of `vs` mapped by `f` is encoding `vs` with `f` applied first.
pub proof fn lemma_array_encoding_map<A, B>(
    vs: Seq<A>,
    f: spec_fn(A) -> B,
    enc: spec_fn(B) -> Seq<u8>,
    enc_f: spec_fn(A) -> Seq<u8>,
)
    requires
        forall|a: A| #[trigger] enc_f(a) == enc(f(a)),
    ensures
        array_encoding(vs.map_values(f), enc) == array_encoding(vs, enc_f),
    decreases vs.len(),
{
    if vs.len() > 0 {
        lemma_array_encoding_map(vs.drop_last(), f, enc, enc_f);
        assert(vs.map_values(f).drop_last() =~= vs.drop_last().map_values(f));
        assert(enc_f(vs.last()) == enc(f(vs.last())));
    }
}

/// Reading raw byte strings of `n` bytes each, as an item reader.
pub open spec fn bytes_reader(n: nat) -> spec_fn(Seq<u8>) -> Result<(Seq<u8>, nat), ReadErrorView> {
    |t: Seq<u8>| spec_read_bytes(t, n)
}

/// Writing raw byte strings as they are, as an item encoder.
pub open spec fn bytes_writer() -> spec_fn(Seq<u8>) -> Seq<u8> {
    |b: Seq<u8>| b
}

/// The byte strings held by a sequence of arrays.
pub open spec fn arrays_view<const N: usize>(v: Seq<[u8; N]>) -> Seq<Seq<u8>> {
    v.map_values(|a: [u8; N]| a@)
}

/// Reads `count` raw byte strings of `N` bytes each, one after another; the arrays and
/// the number of bytes read.
pub(crate) fn read_byte_arrays<const N: usize>(input: &[u8], count: usize) -> (r: Result<
    (Vec<[u8; N]>, usize),
    ReadError,
>)
    ensures
        match spec_read_array(input@, count as nat, bytes_reader(N as nat)) {
            Ok((vs, n)) => r matches Ok((v, c)) && arrays_view(v@) == vs && c == n,
            Err(e) => r matches Err(e2) && e2@ == e,
        },
{
    let mut items: Vec<[u8; N]> = Vec::new();
    let mut pos: usize = 0;
    let mut i: usize = 0;
    let len = input.len();
    assert(arrays_view(items@) =~= Seq::<Seq<u8>>::empty());
    while i < count
        invariant
            pos <= input@.len(),
            len == input@.len(),
            i <= count,
            spec_read_array(input@, i as nat, bytes_reader(N as nat)) == Ok::<
                (Seq<Seq<u8>>, nat),
                ReadErrorView,
            >((arrays_view(items@), pos as nat)),
        decreases count - i,
    {
        let rest = rest_of(input, pos);
        match read_array::<N>(rest) {
            Ok((a, n)) => {
                let ghost before = items@;
                items.push(a);
                assert(arrays_view(items@) =~= arrays_view(before).push(a@));
                pos = pos + n;
                i = i + 1;
            },
            Err(e) => {
                proof {
                    lemma_array_error_persists(
                        input@,
                        (i + 1) as nat,
                        count as nat,
                        bytes_reader(N as nat),
                    );
                }
                return Err(e);
            },
        }
    }
    Ok((items, pos))
}

/// Raw byte strings read back from themselves, and are read with the size asked for.
pub proof fn lemma_bytes_reads_canonically(n: nat)
    ensures
        reads_canonically(bytes_writer(), bytes_reader(n), |b: Seq<u8>| b.len() == n),
{
}

/// Byte strings of `n` bytes each read back from their concatenation.
pub proof fn lemma_bytes_read_back_all(vs: Seq<Seq<u8>>, n: nat)
    requires
        forall|i: int| 0 <= i < vs.len() ==> (#[trigger] vs[i]).len() == n,
    ensures
        reads_back_all(vs, bytes_writer(), bytes_reader(n)),
{
    assert forall|i: int, rest: Seq<u8>| 0 <= i < vs.len() implies #[trigger] bytes_reader(n)(
        bytes_writer()(vs[i]) + rest,
    ) == Ok::<(Seq<u8>, nat), ReadErrorView>((vs[i], bytes_writer()(vs[i]).len())) by {
        assert((vs[i] + rest).take(n as int) =~= vs[i]);
    }
}

/// Taking `a` bytes and then `b` more is taking `a + b` bytes.
pub proof fn lemma_take_then_take(s: Seq<u8>, a: nat, b: nat)
    requires
        a + b <= s.len(),
    ensures
        s.take(a as int) + s.skip(a as int).take(b as int) == s.take((a + b) as int),
        s.skip(a as int).skip(b as int) == s.skip((a + b) as int),
{
    assert(s.take(a as int) + s.skip(a as int).take(b as int) =~= s.take((a + b) as int));
    assert(s.skip(a as int).skip(b as int) =~= s.skip((a + b) as int));
}

/// Law: the CompactSize encoding of a length up to [`MAX_COMPACT_SIZE`] is the length
/// itself in one byte below 253; otherwise the marker 253 followed by the length as a
/// little-endian `u16`, or (above `0xffff`) the marker 254 followed by it as a
/// little-endian `u32`.
pub proof fn lemma_compact_size_encoding_layout(n: nat)
    requires
        n <= MAX_COMPACT_SIZE,
    ensures
        n < 253 ==> compact_size_encoding(n) == seq![n as u8],
        253 <= n <= 0xffff ==> {
            &&& compact_size_encoding(n).len() == 3
            &&& compact_size_encoding(n)[0] == 253u8
            &&& spec_u16_from_le_bytes(compact_size_encoding(n).subrange(1, 3)) == n
        },
        0xffff < n ==> {
            &&& compact_size_encoding(n).len() == 5
            &&& compact_size_encoding(n)[0] == 254u8
            &&& spec_u32_from_le_bytes(compact_size_encoding(n).subrange(1, 5)) == n
        },
{
    lemma_auto_spec_u16_to_from_le_bytes();
    lemma_auto_spec_u32_to_from_le_bytes();
    let e = compact_size_encoding(n);
    if 253 <= n <= 0xffff {
        assert(e.subrange(1, 3) =~= spec_u16_to_le_bytes(n as u16));
    } else if 0xffff < n {
        assert(e.subrange(1, 5) =~= spec_u32_to_le_bytes(n as u32));
    }
}

/// When every item of `vs` is encoded in `k` bytes, the `Array` encoding of `vs` takes
/// `k` bytes per item, and the `i`-th block of `k` bytes is the encoding of `vs[i]`: the
/// items keep their order.
pub proof fn lemma_array_encoding_uniform<T>(vs: Seq<T>, enc: spec_fn(T) -> Seq<u8>, k: nat)
    requires
        forall|i: int| 0 <= i < vs.len() ==> (#[trigger] enc(vs[i])).len() == k,
    ensures
        array_encoding(vs, enc).len() == k * vs.len(),
        forall|i: int|
            0 <= i < vs.len() ==> #[trigger] array_encoding(vs, enc).subrange(k * i, k * i + k)
                === enc(vs[i]) && k * i + k <= array_encoding(vs, enc).len(),
{
    lemma_array_encoding_uniform_len(vs, enc, k);
    assert forall|i: int| 0 <= i < vs.len() implies #[trigger] array_encoding(vs, enc).subrange(
        k * i,
        k * i + k,
    ) === enc(vs[i]) && k * i + k <= array_encoding(vs, enc).len() by {
        lemma_array_encoding_uniform_item(vs, enc, k, i);
    }
}

proof fn lemma_array_encoding_uniform_len<T>(vs: Seq<T>, enc: spec_fn(T) -> Seq<u8>, k: nat)
    requires
        forall|i: int| 0 <= i < vs.len() ==> (#[trigger] enc(vs[i])).len() == k,
    ensures
        array_encoding(vs, enc).len() == k * vs.len(),
    decreases vs.len(),
{
    if vs.len() > 0 {
        let p = vs.drop_last();
        assert forall|i: int| 0 <= i < p.len() implies (#[trigger] enc(p[i])).len() == k by {
            assert(enc(vs[i]).len() == k);
        }
        lemma_array_encoding_uniform_len(p, enc, k);
        assert(enc(vs[vs.len() - 1]).len() == k);
        assert(k * p.len() + k == k * vs.len()) by (nonlinear_arith)
            requires
                p.len() + 1 == vs.len(),
        ;
    }
}

proof fn lemma_array_encoding_uniform_item<T>(vs: Seq<T>, enc: spec_fn(T) -> Seq<u8>, k: nat, i: int)
    requires
        forall|j: int| 0 <= j < vs.len() ==> (#[trigger] enc(vs[j])).len() == k,
        0 <= i < vs.len(),
    ensures
        k * i + k <= array_encoding(vs, enc).len(),
        array_encoding(vs, enc).subrange(k * i, k * i + k) == enc(vs[i]),
    decreases vs.len(),
{
    let n = vs.len();
    let p = vs.drop_last();
    assert forall|j: int| 0 <= j < p.len() implies (#[trigger] enc(p[j])).len() == k by {
        assert(enc(vs[j]).len() == k);
    }
    lemma_array_encoding_uniform_len(p, enc, k);
    let a = array_encoding(p, enc);
    let e = array_encoding(vs, enc);
    assert(e == a + enc(vs[n - 1]));
    assert(enc(vs[n - 1]).len() == k);
    assert(k * (n - 1) + k == k * n) by (nonlinear_arith)
        requires
            n >= 1,
    ;
    assert(k * i + k <= k * n) by (nonlinear_arith)
        requires
            0 <= i < n,
    ;
    if i < n - 1 {
        lemma_array_encoding_uniform_item(p, enc, k, i);
        assert(p[i] == vs[i]);
        assert(e.subrange(k * i, k * i + k) =~= a.subrange(k * i, k * i + k));
    } else {
        assert(e.subrange(k * i, k * i + k) =~= enc(vs[n - 1]));
    }
}

/// The bytes of `a` keep their place when other bytes stand before and after it.
pub proof fn lemma_subrange_within(x: Seq<u8>, a: Seq<u8>, y: Seq<u8>, lo: int, hi: int)
    requires
        0 <= lo <= hi <= a.len(),
    ensures
        (x + a + y).subrange(x.len() + lo, x.len() + hi) == a.subrange(lo, hi),
{
    assert((x + a + y).subrange(x.len() + lo, x.len() + hi) =~= a.subrange(lo, hi));
}

} // verus!
