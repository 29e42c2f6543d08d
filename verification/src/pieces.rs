//! The pieces of a torrent that are downloaded, one bit each: the first piece is the highest
//! bit of the first byte.
use vstd::arithmetic::div_mod::{
    lemma_div_is_ordered, lemma_div_multiples_vanish, lemma_fundamental_div_mod,
    lemma_hoist_over_denominator, lemma_mod_bound,
};
use vstd::prelude::*;

use crate::progress::{encode_dictionary, parse_dictionary, put_bytes, take_bytes};

verus! {

/// Whether bit `k` of a byte is set, counted from the highest.
pub open spec fn bit(byte: u8, k: int) -> bool {
    (byte >> ((7 - k) as u8)) & 1 == 1
}

/// Whether a piece is downloaded.
pub open spec fn has_piece(bits: Seq<u8>, piece: int) -> bool {
    0 <= piece && piece / 8 < bits.len() && bit(bits[piece / 8], piece % 8)
}

/// How many of the pieces from `start` up to but not including `end` are downloaded.
pub open spec fn pieces_between(bits: Seq<u8>, start: int, end: int) -> nat
    decreases end - start,
{
    if start >= end {
        0
    } else {
        pieces_between(bits, start, end - 1) + (if has_piece(bits, end - 1) {
            1nat
        } else {
            0nat
        })
    }
}

/// How many pieces are downloaded.
pub open spec fn piece_count(bits: Seq<u8>) -> nat {
    pieces_between(bits, 0, 8 * bits.len() as int)
}

pub proof fn pieces_between_bounds(bits: Seq<u8>, start: int, end: int)
    requires
        start <= end,
    ensures
        pieces_between(bits, start, end) <= end - start,
    decreases end - start,
{
    if start < end {
        pieces_between_bounds(bits, start, end - 1);
    }
}

/// Whether piece `k` of the eight in `byte` is set.
fn bit_set(byte: u8, k: u8) -> (set: bool)
    requires
        k < 8,
    ensures
        set == bit(byte, k as int),
{
    (byte >> (7 - k)) & 1 == 1
}

/// Whether piece `piece` is downloaded.
pub fn holds_piece(bits: &[u8], piece: usize) -> (held: bool)
    ensures
        held == has_piece(bits@, piece as int),
{
    let byte: usize = piece / 8;
    byte < bits.len() && bit_set(bits[byte], (piece % 8) as u8)
}

/// How many pieces are downloaded.
pub fn count_pieces(bits: &[u8]) -> (count: u64)
    requires
        8 * bits@.len() <= u64::MAX,
    ensures
        count == piece_count(bits@),
{
    let mut count: u64 = 0;
    let mut i: usize = 0;
    while i < bits.len()
        invariant
            i <= bits@.len(),
            8 * bits@.len() <= u64::MAX,
            count == pieces_between(bits@, 0, 8 * i),
            count <= 8 * i,
        decreases bits@.len() - i,
    {
        let mut k: u8 = 0;
        while k < 8
            invariant
                i < bits@.len(),
                k <= 8,
                8 * bits@.len() <= u64::MAX,
                count == pieces_between(bits@, 0, 8 * i + k),
                count <= 8 * i + k,
            decreases 8 - k,
        {
            proof {
                assert((8 * i + k) / 8 == i && (8 * i + k) % 8 == k);
            }
            if bit_set(bits[i], k) {
                count += 1;
            }
            k += 1;
        }
        i += 1;
    }
    count
}

proof fn clearing_a_bit(byte: u8, k: u8, j: u8)
    by (bit_vector)
    requires
        k < 8,
        j < 8,
    ensures
        ((byte & !(0x80u8 >> k)) >> ((7 - j) as u8)) & 1 == 1 <==> (j != k && (byte >> ((7
            - j) as u8)) & 1 == 1),
{
}

/// Marks piece `piece` as not downloaded.
fn clear_piece(bits: &mut Vec<u8>, piece: usize)
    ensures
        final(bits)@.len() == old(bits)@.len(),
        forall|i: int| #[trigger]
            has_piece(final(bits)@, i) == (has_piece(old(bits)@, i) && i != piece),
{
    let byte: usize = piece / 8;
    if byte < bits.len() {
        let k: u8 = (piece % 8) as u8;
        let ghost before = bits@;
        let old_byte: u8 = bits[byte];
        let new_byte: u8 = old_byte & !(0x80u8 >> k);
        bits.set(byte, new_byte);
        proof {
            assert forall|i: int| #[trigger] has_piece(bits@, i) == (has_piece(before, i) && i
                != piece) by {
                if 0 <= i && i / 8 == byte {
                    clearing_a_bit(old_byte, k, (i % 8) as u8);
                    assert(i == 8 * (i / 8) + i % 8);
                    assert(piece == 8 * byte + k);
                }
            }
        }
    }
}

/// A stretch of a torrent's bytes.
#[derive(Clone, Copy, Debug, PartialEq, Eq, Structural)]
pub struct ByteRange {
    pub start: usize,
    pub end: usize,
}

/// Whether a piece holds any byte of a range.
pub open spec fn piece_overlaps(piece: int, piece_length: int, range: ByteRange) -> bool {
    range.start < range.end && piece * piece_length < range.end && range.start < (piece + 1)
        * piece_length
}

/// Whether a piece holds any byte of any of the ranges.
pub open spec fn piece_in(piece: int, piece_length: int, ranges: Seq<ByteRange>) -> bool {
    exists|r: int| 0 <= r < ranges.len() && piece_overlaps(piece, piece_length, #[trigger] ranges[r])
}

proof fn overlap_by_division(piece: int, piece_length: int, start: int, end: int)
    requires
        0 < piece_length,
        0 <= piece,
        0 <= start < end,
    ensures
        (start / piece_length <= piece <= (end - 1) / piece_length) <==> (piece * piece_length < end
            && start < (piece + 1) * piece_length),
{
    lemma_fundamental_div_mod(start, piece_length);
    lemma_mod_bound(start, piece_length);
    lemma_fundamental_div_mod(end - 1, piece_length);
    lemma_mod_bound(end - 1, piece_length);
    let a = start / piece_length;
    let b = (end - 1) / piece_length;
    assert(a <= piece <==> start < (piece + 1) * piece_length) by (nonlinear_arith)
        requires
            0 < piece_length,
            start == piece_length * a + start % piece_length,
            0 <= start % piece_length < piece_length,
    ;
    assert(piece <= b <==> piece * piece_length < end) by (nonlinear_arith)
        requires
            0 < piece_length,
            end - 1 == piece_length * b + (end - 1) % piece_length,
            0 <= (end - 1) % piece_length < piece_length,
    ;
}

/// Marks every piece that holds any byte of `missing` as not downloaded.
pub fn clear_ranges(bits: &mut Vec<u8>, piece_length: usize, missing: &[ByteRange])
    requires
        piece_length > 0,
    ensures
        final(bits)@.len() == old(bits)@.len(),
        forall|i: int| #[trigger]
            has_piece(final(bits)@, i) == (has_piece(old(bits)@, i) && !piece_in(
                i,
                piece_length as int,
                missing@,
            )),
{
    let ghost before = bits@;
    let mut r: usize = 0;
    while r < missing.len()
        invariant
            piece_length > 0,
            r <= missing@.len(),
            bits@.len() == before.len(),
            forall|i: int| #[trigger]
                has_piece(bits@, i) == (has_piece(before, i) && !piece_in(
                    i,
                    piece_length as int,
                    missing@.take(r as int),
                )),
        decreases missing@.len() - r,
    {
        let range = missing[r];
        let ghost sofar = bits@;
        if range.start < range.end {
            let first: usize = range.start / piece_length;
            let last: usize = (range.end - 1) / piece_length;
            let mut piece: usize = first;
            let mut more = first <= last;
            while more
                invariant
                    first <= piece,
                    more ==> piece <= last,
                    !more ==> piece == last || first > last,
                    bits@.len() == sofar.len(),
                    forall|i: int| #[trigger]
                        has_piece(bits@, i) == (has_piece(sofar, i) && !(first <= i && (if more {
                            i < piece
                        } else {
                            i <= last
                        }))),
                decreases (if more { 1 + last - piece } else { 0 }),
            {
                clear_piece(bits, piece);
                if piece == last {
                    more = false;
                } else {
                    piece += 1;
                }
            }
            proof {
                assert forall|i: int| 0 <= i implies (first <= i <= last) == piece_overlaps(
                    i,
                    piece_length as int,
                    range,
                ) by {
                    overlap_by_division(i, piece_length as int, range.start as int, range.end as int);
                }
            }
        }
        proof {
            let now = missing@.take(r + 1);
            let was = missing@.take(r as int);
            assert forall|i: int| #[trigger] has_piece(bits@, i) == (has_piece(before, i)
                && !piece_in(i, piece_length as int, now)) by {
                if has_piece(before, i) {
                    assert(has_piece(sofar, i) == !piece_in(i, piece_length as int, was));
                    if piece_in(i, piece_length as int, was) {
                        let w = choose|w: int|
                            0 <= w < was.len() && piece_overlaps(
                                i,
                                piece_length as int,
                                #[trigger] was[w],
                            );
                        assert(now[w] == was[w]);
                    }
                    if piece_overlaps(i, piece_length as int, range) {
                        assert(now[r as int] == range);
                    }
                    if piece_in(i, piece_length as int, now) {
                        let w = choose|w: int|
                            0 <= w < now.len() && piece_overlaps(
                                i,
                                piece_length as int,
                                #[trigger] now[w],
                            );
                        if w < r {
                            assert(was[w] == now[w]);
                        }
                    }
                }
            }
        }
        r += 1;
    }
    proof {
        assert(missing@.take(missing@.len() as int) =~= missing@);
    }
}

/// Whether `kept` lists the pieces of `bits` but for those that hold any byte of `missing`.
pub open spec fn is_cleared(
    bits: Seq<u8>,
    kept: Seq<u8>,
    piece_length: int,
    missing: Seq<ByteRange>,
) -> bool {
    &&& kept.len() == bits.len()
    &&& forall|i: int| #[trigger]
        has_piece(kept, i) == (has_piece(bits, i) && !piece_in(i, piece_length, missing))
}

/// How many of the pieces from `start` up to but not including `end` are downloaded and hold
/// no byte of `missing`.
pub open spec fn kept_between(
    bits: Seq<u8>,
    piece_length: int,
    missing: Seq<ByteRange>,
    start: int,
    end: int,
) -> nat
    decreases end - start,
{
    if start >= end {
        0
    } else {
        kept_between(bits, piece_length, missing, start, end - 1) + (if has_piece(bits, end - 1)
            && !piece_in(end - 1, piece_length, missing) {
            1nat
        } else {
            0nat
        })
    }
}

/// How many downloaded pieces hold no byte of `missing`.
pub open spec fn kept_count(bits: Seq<u8>, piece_length: int, missing: Seq<ByteRange>) -> nat {
    kept_between(bits, piece_length, missing, 0, 8 * bits.len() as int)
}

/// Whether any downloaded piece holds a byte of `missing`.
pub open spec fn loses_pieces(bits: Seq<u8>, piece_length: int, missing: Seq<ByteRange>) -> bool {
    exists|i: int| #[trigger] has_piece(bits, i) && piece_in(i, piece_length, missing)
}

proof fn kept_is_counted(
    bits: Seq<u8>,
    kept: Seq<u8>,
    piece_length: int,
    missing: Seq<ByteRange>,
    end: int,
)
    requires
        is_cleared(bits, kept, piece_length, missing),
        0 <= end,
    ensures
        pieces_between(kept, 0, end) == kept_between(bits, piece_length, missing, 0, end),
        pieces_between(kept, 0, end) <= pieces_between(bits, 0, end),
        pieces_between(kept, 0, end) == pieces_between(bits, 0, end) <==> forall|i: int|
            0 <= i < end && #[trigger] has_piece(bits, i) ==> !piece_in(i, piece_length, missing),
    decreases end,
{
    if end > 0 {
        kept_is_counted(bits, kept, piece_length, missing, end - 1);
        let last = end - 1;
        assert(has_piece(kept, last) == (has_piece(bits, last) && !piece_in(
            last,
            piece_length,
            missing,
        )));
        if pieces_between(kept, 0, end) == pieces_between(bits, 0, end) {
            assert forall|i: int| 0 <= i < end && #[trigger] has_piece(bits, i) implies !piece_in(
                i,
                piece_length,
                missing,
            ) by {
                if i < last {
                    assert(pieces_between(kept, 0, last) == pieces_between(bits, 0, last));
                }
            }
        }
    }
}

/// Striking the pieces of missing bytes leaves exactly the other pieces listed, and counts
/// fewer only when it strikes a piece.
pub proof fn clearing_keeps_the_other_pieces(
    bits: Seq<u8>,
    kept: Seq<u8>,
    piece_length: int,
    missing: Seq<ByteRange>,
)
    requires
        is_cleared(bits, kept, piece_length, missing),
    ensures
        piece_count(kept) == kept_count(bits, piece_length, missing),
        piece_count(kept) <= piece_count(bits),
        piece_count(kept) != piece_count(bits) <==> loses_pieces(bits, piece_length, missing),
{
    let end = 8 * bits.len() as int;
    kept_is_counted(bits, kept, piece_length, missing, end);
    if loses_pieces(bits, piece_length, missing) {
        let i = choose|i: int| #[trigger] has_piece(bits, i) && piece_in(i, piece_length, missing);
        assert(0 <= i < end);
    }
}

/// Striking the pieces of the same missing bytes once more changes nothing.
pub proof fn clearing_again_changes_nothing(
    bits: Seq<u8>,
    kept: Seq<u8>,
    piece_length: int,
    missing: Seq<ByteRange>,
)
    requires
        is_cleared(bits, kept, piece_length, missing),
    ensures
        is_cleared(kept, kept, piece_length, missing),
        !loses_pieces(kept, piece_length, missing),
        kept_count(kept, piece_length, missing) == piece_count(kept),
{
    assert forall|i: int| #[trigger] has_piece(kept, i) implies !piece_in(i, piece_length, missing) by {
    }
    clearing_keeps_the_other_pieces(kept, kept, piece_length, missing);
}

/// What striking pieces from a progress file comes to.
#[derive(Debug, PartialEq, Eq)]
pub struct Forgotten {
    /// How many pieces the file still lists.
    pub present: u64,
    /// The bytes the file is to hold from now on, when they are to change.
    pub rewritten: Option<Vec<u8>>,
}

/// Whether striking the pieces that hold any of the `missing` bytes from a progress file
/// leaves `present` pieces listed, and the file `rewritten` if it changes.
pub open spec fn forgets(
    progress: Option<Seq<u8>>,
    info_hash: Seq<u8>,
    piece_length: int,
    missing: Seq<ByteRange>,
    write: bool,
    present: int,
    rewritten: Option<Seq<u8>>,
) -> bool {
    match listed_in(progress, info_hash) {
        Some(bits) => {
            &&& present == kept_count(bits, piece_length, missing)
            &&& match rewritten {
                Some(new) => {
                    &&& write && loses_pieces(bits, piece_length, missing)
                    &&& crate::progress::listed_bits(new, info_hash) matches Some(kept)
                    &&& is_cleared(bits, kept, piece_length, missing)
                    &&& crate::progress::parsed_entries(new) is Some
                    &&& crate::progress::parsed_entries(new)->0.remove(info_hash)
                        == crate::progress::parsed_entries(progress->0)->0.remove(info_hash)
                },
                None => !(write && loses_pieces(bits, piece_length, missing)),
            }
        },
        None => present == 0 && rewritten is None,
    }
}

/// What a progress file, if there is one, lists of a torrent.
pub open spec fn listed_in(progress: Option<Seq<u8>>, info_hash: Seq<u8>) -> Option<Seq<u8>> {
    match progress {
        Some(file) => crate::progress::listed_bits(file, info_hash),
        None => None,
    }
}

/// The bytes that an optional file holds.
pub open spec fn opt_bytes(file: Option<Vec<u8>>) -> Option<Seq<u8>> {
    match file {
        Some(file) => Some(file@),
        None => None,
    }
}

/// Strikes the pieces that hold any of the `missing` bytes from the progress file, or with
/// `write` false only works out the result. Nothing is listed without a progress file, and
/// the file is left alone when no piece it lists is struck.
pub fn forget_pieces(
    progress: &Option<Vec<u8>>,
    info_hash: &[u8; 20],
    piece_length: usize,
    missing: &[ByteRange],
    write: bool,
) -> (done: Forgotten)
    requires
        piece_length > 0,
        progress matches Some(file) ==> 8 * file@.len() <= u64::MAX,
    ensures
        forgets(
            opt_bytes(*progress),
            info_hash@,
            piece_length as int,
            missing@,
            write,
            done.present as int,
            opt_bytes(done.rewritten),
        ),
{
    let nothing = Forgotten { present: 0, rewritten: None };
    let file = match progress {
        Some(file) => file,
        None => {
            return nothing;
        },
    };
    let mut root = match parse_dictionary(file.as_slice()) {
        Some(root) => root,
        None => {
            return nothing;
        },
    };
    let ghost entries = crate::progress::entries_of(root)->0;
    let mut bits = match take_bytes(&mut root, info_hash.as_slice()) {
        Some(bits) => bits,
        None => {
            return nothing;
        },
    };
    let ghost before = bits@;
    let listed: u64 = count_pieces(bits.as_slice());
    clear_ranges(&mut bits, piece_length, missing);
    let present: u64 = count_pieces(bits.as_slice());
    proof {
        clearing_keeps_the_other_pieces(before, bits@, piece_length as int, missing@);
    }
    if write && present != listed {
        let ghost kept = bits@;
        put_bytes(&mut root, info_hash.as_slice(), bits);
        proof {
            let key = info_hash@;
            assert(entries.remove(key).insert(key, Some(kept)).remove(key) =~= entries.remove(key));
        }
        return Forgotten { present, rewritten: Some(encode_dictionary(&root)) };
    }
    Forgotten { present, rewritten: None }
}

/// Striking the pieces of the same missing bytes once more finds as many pieces and writes
/// nothing, whatever the progress file is: `again` and `changed` are what the second time
/// comes to, on the file as the first time leaves it.
pub proof fn forgetting_again_changes_nothing(
    progress: Option<Seq<u8>>,
    info_hash: Seq<u8>,
    piece_length: int,
    missing: Seq<ByteRange>,
    write: bool,
    present: int,
    rewritten: Option<Seq<u8>>,
    again: int,
    changed: Option<Seq<u8>>,
)
    requires
        forgets(progress, info_hash, piece_length, missing, write, present, rewritten),
        forgets(
            if rewritten is Some {
                rewritten
            } else {
                progress
            },
            info_hash,
            piece_length,
            missing,
            write,
            again,
            changed,
        ),
    ensures
        again == present,
        changed is None,
{
    if let Some(bits) = listed_in(progress, info_hash) {
        if let Some(new) = rewritten {
            let kept = crate::progress::listed_bits(new, info_hash)->0;
            clearing_again_changes_nothing(bits, kept, piece_length, missing);
            clearing_keeps_the_other_pieces(bits, kept, piece_length, missing);
        }
    }
}

/// The most segments a piece map has.
pub const PIECE_MAP_BUCKETS: usize = 200;

/// How many segments the map of `pieces` pieces has.
pub open spec fn bucket_count(pieces: int) -> int {
    if pieces < PIECE_MAP_BUCKETS {
        pieces
    } else {
        PIECE_MAP_BUCKETS as int
    }
}

/// The first piece of a segment.
pub open spec fn bucket_start(bucket: int, pieces: int) -> int {
    bucket * pieces / bucket_count(pieces)
}

/// How full a segment is, from 0 to 255.
pub open spec fn bucket_fill(bits: Seq<u8>, bucket: int, pieces: int) -> int {
    let start = bucket_start(bucket, pieces);
    let end = bucket_start(bucket + 1, pieces);
    (pieces_between(bits, start, end) as int) * 255 / (end - start)
}

/// The segments of a piece map follow one another without a gap, none is empty, and together
/// they hold every piece.
pub proof fn buckets_share_out_the_pieces(bucket: int, pieces: int)
    requires
        0 <= bucket < bucket_count(pieces),
        0 < pieces,
    ensures
        0 <= bucket_start(bucket, pieces) < bucket_start(bucket + 1, pieces) <= pieces,
        bucket_start(0, pieces) == 0,
        bucket_start(bucket_count(pieces), pieces) == pieces,
{
    let n = bucket_count(pieces);
    let a = bucket * pieces;
    let b = (bucket + 1) * pieces;
    assert(0 <= a && b == a + pieces && b <= n * pieces) by (nonlinear_arith)
        requires
            a == bucket * pieces,
            b == (bucket + 1) * pieces,
            0 <= bucket < n,
            0 < pieces,
    ;
    lemma_hoist_over_denominator(a, 1, n as nat);
    assert(a / n + 1 == (a + n) / n);
    lemma_div_is_ordered(a + n, b, n);
    lemma_div_is_ordered(0, a, n);
    assert(n * pieces == pieces * n) by (nonlinear_arith);
    lemma_div_multiples_vanish(pieces, n);
    lemma_div_is_ordered(b, n * pieces, n);
    assert(0 * pieces == 0) by (nonlinear_arith);
    assert(0int / n == 0) by (nonlinear_arith)
        requires
            n > 0,
    ;
}

/// Where segment `bucket` of a map of `pieces` pieces starts.
fn start_of(bucket: usize, pieces: usize) -> (start: usize)
    requires
        0 < pieces,
        bucket <= bucket_count(pieces as int),
    ensures
        start == bucket_start(bucket as int, pieces as int),
        start <= pieces,
{
    let n: usize = if pieces < PIECE_MAP_BUCKETS {
        pieces
    } else {
        PIECE_MAP_BUCKETS
    };
    proof {
        if bucket < n {
            buckets_share_out_the_pieces(bucket as int, pieces as int);
        } else {
            buckets_share_out_the_pieces(0, pieces as int);
        }
        assert(bucket * pieces <= 200 * usize::MAX) by (nonlinear_arith)
            requires
                0 <= bucket <= 200,
                0 <= pieces <= usize::MAX,
        ;
    }
    ((bucket as u128) * (pieces as u128) / (n as u128)) as usize
}

/// How many of the pieces from `start` up to but not including `end` are downloaded.
fn count_between(bits: &[u8], start: usize, end: usize) -> (count: usize)
    requires
        start <= end,
    ensures
        count == pieces_between(bits@, start as int, end as int),
        count <= end - start,
{
    let mut count: usize = 0;
    let mut i: usize = start;
    while i < end
        invariant
            start <= i <= end,
            count == pieces_between(bits@, start as int, i as int),
            count <= i - start,
        decreases end - i,
    {
        if holds_piece(bits, i) {
            count += 1;
        }
        i += 1;
    }
    count
}

/// Downsamples the pieces downloaded to a map of at most 200 segments, in piece order, each
/// 0 to 255 for how full it is.
pub fn piece_map(bits: &[u8], pieces: usize) -> (map: Vec<u8>)
    ensures
        map@.len() == bucket_count(pieces as int),
        forall|b: int|
            0 <= b < map@.len() ==> #[trigger] map@[b] == bucket_fill(bits@, b, pieces as int),
{
    let mut map: Vec<u8> = Vec::new();
    if pieces == 0 {
        return map;
    }
    let n: usize = if pieces < PIECE_MAP_BUCKETS {
        pieces
    } else {
        PIECE_MAP_BUCKETS
    };
    let mut b: usize = 0;
    while b < n
        invariant
            0 < pieces,
            n == bucket_count(pieces as int),
            b <= n,
            map@.len() == b,
            forall|c: int|
                0 <= c < b ==> #[trigger] map@[c] == bucket_fill(bits@, c, pieces as int),
        decreases n - b,
    {
        proof {
            buckets_share_out_the_pieces(b as int, pieces as int);
        }
        let start: usize = start_of(b, pieces);
        let end: usize = start_of(b + 1, pieces);
        let have: usize = count_between(bits, start, end);
        proof {
            fill_fits(have as int, end - start);
        }
        let fill: u128 = (have as u128) * 255 / ((end - start) as u128);
        map.push(fill as u8);
        b += 1;
    }
    map
}

proof fn fill_fits(have: int, total: int)
    requires
        0 <= have <= total,
        0 < total,
    ensures
        0 <= have * 255 / total <= 255,
{
    lemma_div_is_ordered(have * 255, total * 255, total);
    assert(total * 255 == 255 * total);
    lemma_div_multiples_vanish(255, total);
    assert(0 <= have * 255 / total) by (nonlinear_arith)
        requires
            0 <= have,
            0 < total,
    ;
}

/// A piece map is full everywhere once every piece is downloaded, and empty everywhere while
/// none is.
pub proof fn piece_map_shows_all_and_nothing(bits: Seq<u8>, bucket: int, pieces: int)
    requires
        0 <= bucket < bucket_count(pieces),
        0 < pieces,
    ensures
        (forall|i: int| 0 <= i < pieces ==> #[trigger] has_piece(bits, i)) ==> bucket_fill(
            bits,
            bucket,
            pieces,
        ) == 255,
        (forall|i: int| 0 <= i < pieces ==> !#[trigger] has_piece(bits, i)) ==> bucket_fill(
            bits,
            bucket,
            pieces,
        ) == 0,
        0 <= bucket_fill(bits, bucket, pieces) <= 255,
{
    buckets_share_out_the_pieces(bucket, pieces);
    let start = bucket_start(bucket, pieces);
    let end = bucket_start(bucket + 1, pieces);
    pieces_between_bounds(bits, start, end);
    fill_fits(pieces_between(bits, start, end) as int, end - start);
    let total = end - start;
    if forall|i: int| 0 <= i < pieces ==> #[trigger] has_piece(bits, i) {
        all_between(bits, start, end, true);
        assert(total * 255 == 255 * total);
        lemma_div_multiples_vanish(255, total);
    }
    if forall|i: int| 0 <= i < pieces ==> !#[trigger] has_piece(bits, i) {
        all_between(bits, start, end, false);
        assert(0int / total == 0) by (nonlinear_arith)
            requires
                total > 0,
        ;
    }
}

proof fn all_between(bits: Seq<u8>, start: int, end: int, held: bool)
    requires
        start <= end,
        forall|i: int| start <= i < end ==> #[trigger] has_piece(bits, i) == held,
    ensures
        pieces_between(bits, start, end) == (if held {
            end - start
        } else {
            0
        }),
    decreases end - start,
{
    if start < end {
        all_between(bits, start, end - 1, held);
    }
}

proof fn bits_of_a_byte(byte: u8)
    by (bit_vector)
    ensures
        byte == 128 * (byte >> 7 & 1) + 64 * (byte >> 6 & 1) + 32 * (byte >> 5 & 1) + 16 * (byte
            >> 4 & 1) + 8 * (byte >> 3 & 1) + 4 * (byte >> 2 & 1) + 2 * (byte >> 1 & 1) + (byte >> 0
            & 1),
        (byte >> 7 & 1) <= 1,
        (byte >> 6 & 1) <= 1,
        (byte >> 5 & 1) <= 1,
        (byte >> 4 & 1) <= 1,
        (byte >> 3 & 1) <= 1,
        (byte >> 2 & 1) <= 1,
        (byte >> 1 & 1) <= 1,
        (byte >> 0 & 1) <= 1,
{
}

/// What a piece counts for in its byte of the bitfield: `weight` when it is downloaded.
pub open spec fn worth(bits: Seq<u8>, piece: int, weight: int) -> int {
    if has_piece(bits, piece) {
        weight
    } else {
        0
    }
}

/// The bitfield is read from the highest bit of its first byte: each byte is the sum of what
/// its eight pieces count for, the first of them most, and past the last byte there is no
/// piece.
pub proof fn pieces_spell_the_bytes(bits: Seq<u8>, b: int)
    requires
        0 <= b < bits.len(),
    ensures
        bits[b] == worth(bits, 8 * b, 128) + worth(bits, 8 * b + 1, 64) + worth(
            bits,
            8 * b + 2,
            32,
        ) + worth(bits, 8 * b + 3, 16) + worth(bits, 8 * b + 4, 8) + worth(bits, 8 * b + 5, 4)
            + worth(bits, 8 * b + 6, 2) + worth(bits, 8 * b + 7, 1),
        forall|piece: int| piece < 0 || 8 * bits.len() <= piece ==> !#[trigger] has_piece(
            bits,
            piece,
        ),
{
    let byte = bits[b];
    bits_of_a_byte(byte);
    assert forall|k: int| 0 <= k < 8 implies #[trigger] has_piece(bits, 8 * b + k) == bit(
        byte,
        k,
    ) by {
        assert((8 * b + k) / 8 == b && (8 * b + k) % 8 == k);
    }
    assert(has_piece(bits, 8 * b + 0) == bit(byte, 0));
    assert(has_piece(bits, 8 * b + 1) == bit(byte, 1));
    assert(has_piece(bits, 8 * b + 2) == bit(byte, 2));
    assert(has_piece(bits, 8 * b + 3) == bit(byte, 3));
    assert(has_piece(bits, 8 * b + 4) == bit(byte, 4));
    assert(has_piece(bits, 8 * b + 5) == bit(byte, 5));
    assert(has_piece(bits, 8 * b + 6) == bit(byte, 6));
    assert(has_piece(bits, 8 * b + 7) == bit(byte, 7));
}

/// The pieces are counted one by one: as many as there are numbers of downloaded pieces in the
/// stretch.
pub proof fn counting_finds_every_piece(bits: Seq<u8>, start: int, end: int)
    requires
        start <= end,
    ensures
        vstd::set_lib::set_int_range(start, end).filter(
            |piece: int| has_piece(bits, piece),
        ).len() == pieces_between(bits, start, end),
        vstd::set_lib::set_int_range(start, end).filter(
            |piece: int| has_piece(bits, piece),
        ).finite(),
    decreases end - start,
{
    let held = |piece: int| has_piece(bits, piece);
    let here = vstd::set_lib::set_int_range(start, end).filter(held);
    vstd::set_lib::lemma_int_range(start, end);
    if start < end {
        counting_finds_every_piece(bits, start, end - 1);
        let before = vstd::set_lib::set_int_range(start, end - 1).filter(held);
        if held(end - 1) {
            assert(here =~= before.insert(end - 1));
        } else {
            assert(here =~= before);
        }
    } else {
        assert(here =~= Set::<int>::empty());
    }
}

/// Whether a piece holds a byte of a stretch is asked byte by byte: it does when some byte of
/// the stretch, divided by the piece length, falls on the piece.
pub proof fn a_piece_holds_the_bytes_that_fall_on_it(
    piece: int,
    piece_length: int,
    range: ByteRange,
)
    requires
        0 < piece_length,
    ensures
        piece_overlaps(piece, piece_length, range) && 0 <= piece <==> exists|p: int|
            range.start <= p < range.end && #[trigger] (p / piece_length) == piece,
{
    if piece_overlaps(piece, piece_length, range) && 0 <= piece {
        let first = piece * piece_length;
        let p = if first < range.start {
            range.start as int
        } else {
            first
        };
        assert(0 <= first) by (nonlinear_arith)
            requires
                0 <= piece,
                0 < piece_length,
                first == piece * piece_length,
        ;
        overlap_by_division(piece, piece_length, p, p + 1);
        assert(first < (piece + 1) * piece_length) by (nonlinear_arith)
            requires
                0 < piece_length,
                first == piece * piece_length,
        ;
        assert(p / piece_length == piece);
    }
    if exists|p: int| range.start <= p < range.end && #[trigger] (p / piece_length) == piece {
        let p = choose|p: int|
            range.start <= p < range.end && #[trigger] (p / piece_length) == piece;
        assert(0 <= p / piece_length) by (nonlinear_arith)
            requires
                0 <= p,
                0 < piece_length,
        ;
        overlap_by_division(piece, piece_length, p, p + 1);
        let first = piece * piece_length;
        assert(first < range.end);
        assert(range.start < (piece + 1) * piece_length);
    }
}

/// Each segment of a piece map covers its even share of the pieces, in piece order, and shows
/// how full it is out of 255, rounded down.
pub proof fn segments_show_their_share(bits: Seq<u8>, bucket: int, pieces: int)
    requires
        0 < pieces,
        0 <= bucket < bucket_count(pieces),
    ensures
        bucket_count(pieces) == (if pieces <= 200 {
            pieces
        } else {
            200
        }),
        ({
            let n = bucket_count(pieces);
            let start = bucket_start(bucket, pieces);
            let end = bucket_start(bucket + 1, pieces);
            let have = vstd::set_lib::set_int_range(start, end).filter(
                |piece: int| has_piece(bits, piece),
            ).len();
            let fill = bucket_fill(bits, bucket, pieces);
            &&& start * n <= bucket * pieces < (start + 1) * n
            &&& end * n <= (bucket + 1) * pieces < (end + 1) * n
            &&& start < end
            &&& fill * (end - start) <= 255 * have < (fill + 1) * (end - start)
        }),
{
    buckets_share_out_the_pieces(bucket, pieces);
    let n = bucket_count(pieces);
    let start = bucket_start(bucket, pieces);
    let end = bucket_start(bucket + 1, pieces);
    counting_finds_every_piece(bits, start, end);
    let have = pieces_between(bits, start, end) as int;
    let fill = bucket_fill(bits, bucket, pieces);
    division_rounds_down(bucket * pieces, n);
    division_rounds_down((bucket + 1) * pieces, n);
    division_rounds_down(have * 255, end - start);
    assert(255 * have == have * 255);
}

proof fn division_rounds_down(a: int, b: int)
    requires
        0 < b,
    ensures
        (a / b) * b <= a < (a / b + 1) * b,
{
    lemma_fundamental_div_mod(a, b);
    lemma_mod_bound(a, b);
    assert((a / b) * b == b * (a / b)) by (nonlinear_arith);
    assert((a / b + 1) * b == b * (a / b) + b) by (nonlinear_arith);
}

/// What forgetting leaves in a progress file: of this torrent, exactly the pieces that were listed
/// and of which no byte is missing; of every other torrent, what was there. The file changes only
/// if it may and a listed piece is missing, and the pieces left are counted either way.
pub proof fn forgetting_strikes_only_what_is_missing(
    file: Seq<u8>,
    info_hash: Seq<u8>,
    piece_length: int,
    missing: Seq<ByteRange>,
    write: bool,
    present: int,
    rewritten: Option<Seq<u8>>,
    other: Seq<u8>,
    piece: int,
)
    requires
        0 < piece_length,
        0 <= piece,
        other != info_hash,
        crate::progress::listed_bits(file, info_hash) is Some,
        forgets(Some(file), info_hash, piece_length, missing, write, present, rewritten),
    ensures
        ({
            let bits = crate::progress::listed_bits(file, info_hash)->0;
            let gone = exists|r: int, p: int|
                0 <= r < missing.len() && (#[trigger] missing[r]).start <= p < missing[r].end
                    && #[trigger] (p / piece_length) == piece;
            &&& present == vstd::set_lib::set_int_range(0, 8 * bits.len() as int).filter(
                |i: int| has_piece(bits, i) && !piece_in(i, piece_length, missing),
            ).len()
            &&& piece_in(piece, piece_length, missing) <==> gone
            &&& has_piece(bits, piece) && gone && write ==> rewritten is Some
            &&& rewritten is Some ==> write
            &&& rewritten matches Some(new) ==> crate::progress::listed_bits(new, info_hash) is Some
            &&& rewritten matches Some(new) ==> (has_piece(
                crate::progress::listed_bits(new, info_hash)->0,
                piece,
            ) <==> has_piece(bits, piece) && !gone)
            &&& rewritten matches Some(new) ==> crate::progress::listed_bits(new, other)
                == crate::progress::listed_bits(file, other)
        }),
{
    let bits = crate::progress::listed_bits(file, info_hash)->0;
    kept_pieces_are_counted(bits, piece_length, missing, 8 * bits.len() as int);
    a_piece_is_missing_byte_by_byte(piece, piece_length, missing);
    if rewritten is Some {
        let new = rewritten->0;
        let before = crate::progress::parsed_entries(file)->0;
        let after = crate::progress::parsed_entries(new)->0;
        assert(before.remove(info_hash).contains_key(other) == before.contains_key(other));
        assert(after.remove(info_hash).contains_key(other) == after.contains_key(other));
        if before.contains_key(other) {
            assert(before.remove(info_hash)[other] == before[other]);
            assert(after.remove(info_hash)[other] == after[other]);
        }
        assert(has_piece(crate::progress::listed_bits(new, info_hash)->0, piece) == (has_piece(
            bits,
            piece,
        ) && !piece_in(piece, piece_length, missing)));
    }
}

proof fn kept_pieces_are_counted(
    bits: Seq<u8>,
    piece_length: int,
    missing: Seq<ByteRange>,
    end: int,
)
    requires
        0 <= end,
    ensures
        vstd::set_lib::set_int_range(0, end).filter(
            |i: int| has_piece(bits, i) && !piece_in(i, piece_length, missing),
        ).len() == kept_between(bits, piece_length, missing, 0, end),
        vstd::set_lib::set_int_range(0, end).filter(
            |i: int| has_piece(bits, i) && !piece_in(i, piece_length, missing),
        ).finite(),
    decreases end,
{
    let stays = |i: int| has_piece(bits, i) && !piece_in(i, piece_length, missing);
    let here = vstd::set_lib::set_int_range(0, end).filter(stays);
    vstd::set_lib::lemma_int_range(0, end);
    if 0 < end {
        kept_pieces_are_counted(bits, piece_length, missing, end - 1);
        let before = vstd::set_lib::set_int_range(0, end - 1).filter(stays);
        if stays(end - 1) {
            assert(here =~= before.insert(end - 1));
        } else {
            assert(here =~= before);
        }
    } else {
        assert(here =~= Set::<int>::empty());
    }
}

proof fn a_piece_is_missing_byte_by_byte(piece: int, piece_length: int, missing: Seq<ByteRange>)
    requires
        0 < piece_length,
        0 <= piece,
    ensures
        piece_in(piece, piece_length, missing) <==> exists|r: int, p: int|
            0 <= r < missing.len() && (#[trigger] missing[r]).start <= p < missing[r].end
                && #[trigger] (p / piece_length) == piece,
{
    if piece_in(piece, piece_length, missing) {
        let r = choose|r: int|
            0 <= r < missing.len() && piece_overlaps(piece, piece_length, #[trigger] missing[r]);
        a_piece_holds_the_bytes_that_fall_on_it(piece, piece_length, missing[r]);
        let p = choose|p: int|
            missing[r].start <= p < missing[r].end && #[trigger] (p / piece_length) == piece;
        assert(missing[r].start <= p < missing[r].end && p / piece_length == piece);
    }
    if exists|r: int, p: int|
        0 <= r < missing.len() && (#[trigger] missing[r]).start <= p < missing[r].end
            && #[trigger] (p / piece_length) == piece {
        let (r, p) = choose|r: int, p: int|
            0 <= r < missing.len() && (#[trigger] missing[r]).start <= p < missing[r].end
                && #[trigger] (p / piece_length) == piece;
        assert(missing[r].start <= p < missing[r].end && p / piece_length == piece);
        a_piece_holds_the_bytes_that_fall_on_it(piece, piece_length, missing[r]);
    }
}

} // verus!
