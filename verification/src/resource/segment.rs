//! Cutting a byte stream into segments, and a sealed segment into parts.

use vstd::prelude::*;

use crate::bytes;
use crate::bytes::be_bytes;
use crate::resource::{part_count, MAX_EFFICIENT_SIZE};

verus! {

/// Number of segments that a stream of `total` bytes is sent in.
pub open spec fn segment_count(total: nat) -> nat {
    if total <= MAX_EFFICIENT_SIZE {
        1
    } else {
        part_count(total, MAX_EFFICIENT_SIZE as nat)
    }
}

/// Where segment `index` (counted from one) of a stream of `total` bytes starts.
pub open spec fn segment_start(total: nat, index: nat) -> int {
    if total <= MAX_EFFICIENT_SIZE {
        0
    } else {
        (index - 1) * MAX_EFFICIENT_SIZE
    }
}

/// Where segment `index` (counted from one) of a stream of `total` bytes ends.
pub open spec fn segment_end(total: nat, index: nat) -> int {
    if total <= MAX_EFFICIENT_SIZE || index * MAX_EFFICIENT_SIZE >= total {
        total as int
    } else {
        index * MAX_EFFICIENT_SIZE
    }
}

/// The bytes of segment `index` (counted from one) of a stream.
pub open spec fn segment_bytes(stream: Seq<u8>, index: nat) -> Seq<u8> {
    stream.subrange(segment_start(stream.len(), index), segment_end(stream.len(), index))
}

/// The first `count` segments of a stream, one behind the other.
pub open spec fn first_segments(stream: Seq<u8>, count: nat) -> Seq<u8>
    decreases count,
{
    if count == 0 {
        Seq::empty()
    } else {
        first_segments(stream, (count - 1) as nat) + segment_bytes(stream, count)
    }
}

/// The segments of a stream lie inside it, each is small enough to be sent at once, and none but
/// the only segment of an empty stream is empty.
pub proof fn segment_in_bounds(total: nat, index: nat)
    requires
        1 <= index <= segment_count(total),
    ensures
        0 <= segment_start(total, index) <= segment_end(total, index) <= total,
        segment_end(total, index) - segment_start(total, index) <= MAX_EFFICIENT_SIZE,
        total > 0 ==> segment_start(total, index) < segment_end(total, index),
        segment_start(total, index) == (index - 1) * MAX_EFFICIENT_SIZE,
        index == segment_count(total) <==> segment_end(total, index) == total,
        segment_end(total, index) == (if total - segment_start(total, index)
            <= MAX_EFFICIENT_SIZE {
            total as int
        } else {
            segment_start(total, index) + MAX_EFFICIENT_SIZE
        }),
{
    assert(index * MAX_EFFICIENT_SIZE == (index - 1) * MAX_EFFICIENT_SIZE + MAX_EFFICIENT_SIZE)
        by (nonlinear_arith);
    if total > MAX_EFFICIENT_SIZE {
        chunk_in_bounds(total, MAX_EFFICIENT_SIZE as nat, index - 1);
    } else {
        assert((index - 1) * MAX_EFFICIENT_SIZE == 0) by (nonlinear_arith)
            requires
                index == 1,
        ;
    }
}

/// A stream has at least one segment.
proof fn some_segment(total: nat)
    ensures
        segment_count(total) >= 1,
{
    if total > MAX_EFFICIENT_SIZE {
        some_part(total, MAX_EFFICIENT_SIZE as nat);
    }
}

/// A stream that is not empty has at least one part.
pub proof fn some_part(len: nat, sdu: nat)
    requires
        sdu > 0,
        len > 0,
    ensures
        part_count(len, sdu) >= 1,
{
    vstd::arithmetic::div_mod::lemma_div_is_ordered(sdu as int, len + sdu - 1, sdu as int);
    vstd::arithmetic::div_mod::lemma_div_by_self(sdu as int);
}

/// The segments of a stream, one behind the other, are the stream.
pub proof fn segments_partition_stream(stream: Seq<u8>)
    ensures
        first_segments(stream, segment_count(stream.len())) == stream,
{
    some_segment(stream.len());
    first_segments_prefix(stream, segment_count(stream.len()));
    segment_in_bounds(stream.len(), segment_count(stream.len()));
    assert(stream.subrange(0, stream.len() as int) =~= stream);
}

/// The first segments of a stream are a prefix of it.
proof fn first_segments_prefix(stream: Seq<u8>, count: nat)
    requires
        count <= segment_count(stream.len()),
    ensures
        count == 0 ==> first_segments(stream, count) == Seq::<u8>::empty(),
        count > 0 ==> first_segments(stream, count) == stream.subrange(
            0,
            segment_end(stream.len(), count),
        ),
    decreases count,
{
    if count > 0 {
        segment_in_bounds(stream.len(), count);
        let prior = (count - 1) as nat;
        first_segments_prefix(stream, prior);
        if prior > 0 {
            segment_in_bounds(stream.len(), prior);
            assert(segment_end(stream.len(), prior) == segment_start(stream.len(), count));
        } else {
            assert(segment_start(stream.len(), 1) == 0) by (nonlinear_arith)
                requires
                    segment_start(stream.len(), 1) == (1 - 1) * MAX_EFFICIENT_SIZE,
            ;
        }
        assert(first_segments(stream, count) =~= stream.subrange(
            0,
            segment_end(stream.len(), count),
        ));
    }
}

/// Metadata as it precedes the data in a stream: its length in three bytes, then the metadata.
pub open spec fn metadata_blob(metadata: Option<Seq<u8>>) -> Seq<u8> {
    match metadata {
        Some(metadata) => be_bytes(metadata.len(), 3) + metadata,
        None => Seq::empty(),
    }
}

/// Part `i` of a sealed stream cut into pieces of `sdu` bytes.
pub open spec fn chunk(sealed: Seq<u8>, sdu: nat, i: int) -> Seq<u8> {
    sealed.subrange(
        i * sdu,
        if (i + 1) * sdu >= sealed.len() {
            sealed.len() as int
        } else {
            (i + 1) * sdu
        },
    )
}

/// All parts of a sealed stream.
pub open spec fn chunks(sealed: Seq<u8>, sdu: nat) -> Seq<Seq<u8>> {
    Seq::new(part_count(sealed.len(), sdu), |i: int| chunk(sealed, sdu, i))
}

/// Byte strings one behind the other.
pub open spec fn joined(parts: Seq<Seq<u8>>) -> Seq<u8>
    decreases parts.len(),
{
    if parts.len() == 0 {
        Seq::empty()
    } else {
        joined(parts.drop_last()) + parts.last()
    }
}

/// Every part begins inside the sealed stream, is not empty and has at most `sdu` bytes.
pub proof fn chunk_in_bounds(len: nat, sdu: nat, i: int)
    requires
        sdu > 0,
        0 <= i < part_count(len, sdu),
    ensures
        0 <= i * sdu < len,
        (i + 1) * sdu == i * sdu + sdu,
        i + 1 == part_count(len, sdu) <==> (i + 1) * sdu >= len,
{
    let n = part_count(len, sdu) as int;
    let d = sdu as int;
    let x = len + sdu - 1;
    vstd::arithmetic::div_mod::lemma_fundamental_div_mod(x, d);
    assert(i * d <= (n - 1) * d) by (nonlinear_arith)
        requires
            i <= n - 1,
            d > 0,
    ;
    assert((n - 1) * d == n * d - d) by (nonlinear_arith);
    assert(d * n == n * d) by (nonlinear_arith);
    assert((i + 1) * d == i * d + d) by (nonlinear_arith);
    assert(0 <= i * d) by (nonlinear_arith)
        requires
            i >= 0,
            d > 0,
    ;
    if i + 1 < n {
        assert((i + 1) * d <= (n - 1) * d) by (nonlinear_arith)
            requires
                i + 1 <= n - 1,
                d > 0,
        ;
    } else {
        assert((i + 1) * d == n * d);
    }
}

/// The parts of a sealed stream, one behind the other, are the stream.
pub proof fn chunks_partition_stream(sealed: Seq<u8>, sdu: nat)
    requires
        sdu > 0,
    ensures
        joined(chunks(sealed, sdu)) == sealed,
{
    let n = part_count(sealed.len(), sdu);
    if sealed.len() == 0 {
        assert(n == 0) by {
            vstd::arithmetic::div_mod::lemma_small_mod((sdu - 1) as nat, sdu);
            vstd::arithmetic::div_mod::lemma_basic_div(sdu - 1, sdu as int);
        }
        assert(joined(chunks(sealed, sdu)) =~= sealed);
    } else {
        some_part(sealed.len(), sdu);
        joined_prefix(sealed, sdu, n);
        chunk_in_bounds(sealed.len(), sdu, n - 1);
        assert(chunks(sealed, sdu).take(n as int) =~= chunks(sealed, sdu));
        assert(sealed.subrange(0, sealed.len() as int) =~= sealed);
    }
}

/// The first parts of a sealed stream are a prefix of it.
proof fn joined_prefix(sealed: Seq<u8>, sdu: nat, count: nat)
    requires
        sdu > 0,
        count <= part_count(sealed.len(), sdu),
    ensures
        joined(chunks(sealed, sdu).take(count as int)) == (if count == 0 {
            Seq::<u8>::empty()
        } else {
            sealed.subrange(
                0,
                if count * sdu >= sealed.len() {
                    sealed.len() as int
                } else {
                    (count * sdu) as int
                },
            )
        }),
    decreases count,
{
    let all = chunks(sealed, sdu);
    if count > 0 {
        let prior = (count - 1) as nat;
        joined_prefix(sealed, sdu, prior);
        chunk_in_bounds(sealed.len(), sdu, prior as int);
        if prior > 0 {
            chunk_in_bounds(sealed.len(), sdu, prior - 1);
        } else {
            assert(prior * sdu == 0) by (nonlinear_arith)
                requires
                    prior == 0,
            ;
        }
        assert(all.take(count as int).drop_last() =~= all.take(prior as int));
        assert(all.take(count as int).last() == chunk(sealed, sdu, prior as int));
        assert(joined(all.take(count as int)) =~= sealed.subrange(
            0,
            if count * sdu >= sealed.len() {
                sealed.len() as int
            } else {
                (count * sdu) as int
            },
        ));
    }
}

/// The metadata of a stream that begins with a metadata blob, and where the data behind it
/// begins; `None` when the blob does not fit the stream.
pub open spec fn leading_metadata(stream: Seq<u8>) -> Option<(Seq<u8>, nat)> {
    if stream.len() < 3 {
        None
    } else {
        let n = bytes::be_value(stream.subrange(0, 3));
        if 3 + n > stream.len() {
            None
        } else {
            Some((stream.subrange(3, 3 + n as int), 3 + n))
        }
    }
}

/// A stream that begins with a metadata blob yields that metadata.
pub proof fn metadata_round_trip(metadata: Seq<u8>, tail: Seq<u8>)
    requires
        metadata.len() < 16777216,
    ensures
        leading_metadata(metadata_blob(Some(metadata)) + tail) == Some(
            (metadata, metadata_blob(Some(metadata)).len()),
        ),
        metadata_blob(Some(metadata)).len() == 3 + metadata.len(),
{
    reveal_with_fuel(bytes::byte_span, 4);
    bytes::be_round_trip(metadata.len(), 3);
    let s = metadata_blob(Some(metadata)) + tail;
    assert(s.subrange(0, 3) =~= be_bytes(metadata.len(), 3));
    assert(s.subrange(3, 3 + metadata.len() as int) =~= metadata);
}

} // verus!
