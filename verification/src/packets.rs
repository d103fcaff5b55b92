//! Packets that carry as many tiles as they safely can.

use vstd::prelude::*;

use crate::fast_path::fragment_count;
use crate::pdu::{bitmap_header_bytes, write_bitmap_header, BITMAP_RECORD_SIZE};
use crate::wire::{lemma_word_back, word};

verus! {

/// Bytes of tiles beyond which a packet takes no further one.
pub const PACKET_LIMIT: usize = 14_000;

/// Most bytes of one tile.
pub const TILE_LIMIT: usize = 65553;

/// What the vectors hold.
pub open spec fn views(v: Seq<Vec<u8>>) -> Seq<Seq<u8>> {
    Seq::new(v.len(), |i: int| v[i]@)
}

/// The parts, one after the other.
pub open spec fn joined(parts: Seq<Seq<u8>>) -> Seq<u8>
    decreases parts.len(),
{
    if parts.len() == 0 {
        Seq::empty()
    } else {
        joined(parts.drop_last()) + parts.last()
    }
}

/// A packet with the given tiles.
pub open spec fn packet(tiles: Seq<Seq<u8>>) -> Seq<u8> {
    bitmap_header_bytes(tiles.len() as int) + joined(tiles)
}

/// The packets that carry the tiles after those in `open`, which the next packet already holds.
///
/// A tile goes into the packet at hand unless that holds tiles already and would exceed
/// [`PACKET_LIMIT`].
pub open spec fn packets(tiles: Seq<Seq<u8>>, open: Seq<Seq<u8>>) -> Seq<Seq<u8>>
    decreases tiles.len(),
{
    if tiles.len() == 0 {
        if open.len() == 0 {
            Seq::empty()
        } else {
            seq![packet(open)]
        }
    } else if open.len() > 0 && joined(open).len() + tiles[0].len() > PACKET_LIMIT {
        seq![packet(open)] + packets(tiles.skip(1), seq![tiles[0]])
    } else {
        packets(tiles.skip(1), open.push(tiles[0]))
    }
}

/// What packets carry after their headers.
pub open spec fn payloads(packets: Seq<Seq<u8>>) -> Seq<Seq<u8>> {
    Seq::new(packets.len(), |i: int| packets[i].skip(4))
}

proof fn lemma_joined_push(parts: Seq<Seq<u8>>, part: Seq<u8>)
    ensures
        joined(parts.push(part)) == joined(parts) + part,
{
    assert(parts.push(part).drop_last() =~= parts);
}

pub proof fn lemma_joined_one(part: Seq<u8>)
    ensures
        joined(seq![part]) == part,
{
    let one = seq![part];
    reveal_with_fuel(joined, 2);
    assert(one.drop_last() =~= Seq::empty());
    assert(joined(one) =~= part);
}

proof fn lemma_joined_front(part: Seq<u8>, parts: Seq<Seq<u8>>)
    ensures
        joined(seq![part] + parts) == part + joined(parts),
    decreases parts.len(),
{
    if parts.len() == 0 {
        assert(seq![part] + parts =~= seq![part]);
        lemma_joined_one(part);
        assert(part + joined(parts) =~= part);
    } else {
        lemma_joined_front(part, parts.drop_last());
        assert((seq![part] + parts).drop_last() =~= seq![part] + parts.drop_last());
        assert((seq![part] + parts).last() == parts.last());
        assert(part + joined(parts.drop_last()) + parts.last() =~= part + joined(parts));
    }
}

/// Whether the tiles from `a` on up to `b` may share a packet.
pub open spec fn share_packet(tiles: Seq<Seq<u8>>, a: int, b: int) -> bool {
    b - a <= 1 || joined(tiles.subrange(a, b)).len() <= PACKET_LIMIT
}

proof fn lemma_packets_of_runs(tiles: Seq<Seq<u8>>, from: int, to: int, i: int)
    requires
        0 <= from <= to <= tiles.len(),
        share_packet(tiles, from, to),
        0 <= i < packets(tiles.skip(to), tiles.subrange(from, to)).len(),
    ensures
        exists|a: int, b: int|
            0 <= a < b <= tiles.len() && share_packet(tiles, a, b) && packets(
                tiles.skip(to),
                tiles.subrange(from, to),
            )[i] == packet(#[trigger] tiles.subrange(a, b)),
    decreases tiles.len() - to,
{
    let open = tiles.subrange(from, to);
    let rest = tiles.skip(to);
    if rest.len() == 0 {
        assert(packets(rest, open)[i] == packet(tiles.subrange(from, to)));
    } else {
        assert(rest.skip(1) =~= tiles.skip(to + 1));
        assert(rest[0] == tiles[to]);
        if open.len() > 0 && joined(open).len() + rest[0].len() > PACKET_LIMIT {
            assert(seq![rest[0]] =~= tiles.subrange(to, to + 1));
            if i == 0 {
                assert(packets(rest, open)[i] == packet(tiles.subrange(from, to)));
            } else {
                lemma_packets_of_runs(tiles, to, to + 1, i - 1);
            }
        } else {
            assert(open.push(rest[0]) =~= tiles.subrange(from, to + 1));
            lemma_joined_push(open, rest[0]);
            lemma_packets_of_runs(tiles, from, to + 1, i);
        }
    }
}

/// Every packet holds tiles that follow each other, whole: one alone, or several that stay within
/// [`PACKET_LIMIT`].
pub proof fn lemma_packet_of_run(tiles: Seq<Seq<u8>>, i: int)
    requires
        0 <= i < packets(tiles, Seq::empty()).len(),
    ensures
        exists|a: int, b: int|
            0 <= a < b <= tiles.len() && share_packet(tiles, a, b) && packets(tiles, Seq::empty())[i]
                == packet(#[trigger] tiles.subrange(a, b)),
{
    assert(tiles.skip(0) =~= tiles);
    assert(tiles.subrange(0, 0) =~= Seq::empty());
    lemma_packets_of_runs(tiles, 0, 0, i);
}

/// The packets carry every tile, in order and nothing else; there is a packet unless there is no
/// tile; and each holds one tile alone or no more than [`PACKET_LIMIT`] bytes of tiles.
pub proof fn lemma_packets(tiles: Seq<Seq<u8>>, open: Seq<Seq<u8>>)
    requires
        open.len() <= 1 || joined(open).len() <= PACKET_LIMIT,
    ensures
        joined(payloads(packets(tiles, open))) == joined(open) + joined(tiles),
        packets(tiles, open).len() == 0 <==> tiles.len() == 0 && open.len() == 0,
        forall|i: int|
            0 <= i < packets(tiles, open).len() ==> {
                let p = #[trigger] packets(tiles, open)[i];
                ||| 4 <= p.len() <= 4 + PACKET_LIMIT
                ||| exists|k: int| 0 <= k < tiles.len() && p == packet(seq![#[trigger] tiles[k]])
                ||| open.len() == 1 && p == packet(open)
            },
    decreases tiles.len(),
{
    let all = packets(tiles, open);
    if tiles.len() == 0 {
        assert(joined(open) + joined(tiles) =~= joined(open));
        if open.len() == 0 {
            assert(payloads(all) =~= Seq::empty());
        } else {
            assert(packet(open).skip(4) =~= joined(open));
            assert(payloads(all) =~= seq![joined(open)]);
            lemma_joined_one(joined(open));
        }
    } else {
        let first = tiles[0];
        let rest = tiles.skip(1);
        lemma_joined_front(first, rest);
        assert(seq![first] + rest =~= tiles);
        if open.len() > 0 && joined(open).len() + first.len() > PACKET_LIMIT {
            let later = packets(rest, seq![first]);
            lemma_packets(rest, seq![first]);
            lemma_joined_one(first);
            assert(packet(open).skip(4) =~= joined(open));
            assert(payloads(all) =~= seq![joined(open)] + payloads(later));
            lemma_joined_front(joined(open), payloads(later));
            assert forall|i: int| 0 <= i < all.len() implies {
                let p = #[trigger] all[i];
                ||| 4 <= p.len() <= 4 + PACKET_LIMIT
                ||| exists|k: int| 0 <= k < tiles.len() && p == packet(seq![#[trigger] tiles[k]])
                ||| open.len() == 1 && p == packet(open)
            } by {
                if i > 0 {
                    let p = later[i - 1];
                    assert(all[i] == p);
                    if p == packet(seq![first]) {
                        assert(p == packet(seq![tiles[0]]));
                    } else if !(4 <= p.len() <= 4 + PACKET_LIMIT) {
                        let k = choose|k: int|
                            0 <= k < rest.len() && p == packet(seq![#[trigger] rest[k]]);
                        assert(p == packet(seq![tiles[k + 1]]));
                    }
                }
            }
        } else {
            lemma_joined_push(open, first);
            if open.len() == 0 {
                assert(joined(open) =~= Seq::empty());
                assert(open.push(first) =~= seq![first]);
            }
            lemma_packets(rest, open.push(first));
            assert(joined(open) + first + joined(rest) =~= joined(open) + (first + joined(rest)));
            assert forall|i: int| 0 <= i < all.len() implies {
                let p = #[trigger] all[i];
                ||| 4 <= p.len() <= 4 + PACKET_LIMIT
                ||| exists|k: int| 0 <= k < tiles.len() && p == packet(seq![#[trigger] tiles[k]])
                ||| open.len() == 1 && p == packet(open)
            } by {
                let p = all[i];
                if open.len() == 0 && p == packet(open.push(first)) {
                    assert(p == packet(seq![tiles[0]]));
                } else if !(4 <= p.len() <= 4 + PACKET_LIMIT) {
                    let k = choose|k: int| 0 <= k < rest.len() && p == packet(seq![#[trigger] rest[k]]);
                    assert(p == packet(seq![tiles[k + 1]]));
                }
            }
        }
    }
}

/// The packet with the tiles from number `from` to before number `to`, which take `len` bytes.
pub(crate) fn packet_of(tiles: &Vec<Vec<u8>>, from: usize, to: usize, len: usize) -> (r: Vec<u8>)
    requires
        from <= to <= tiles@.len(),
        to - from <= u16::MAX,
        len == joined(views(tiles@).subrange(from as int, to as int)).len(),
        len + 16 <= usize::MAX,
    ensures
        r@ == packet(views(tiles@).subrange(from as int, to as int)),
{
    let count: u16 = (to - from) as u16;
    let mut buffer: Vec<u8> = vec![0u8; len + 16];
    let header: usize = match write_bitmap_header(count, buffer.as_mut_slice()) {
        Some(n) => n,
        None => 0,
    };
    buffer.truncate(header);
    assert(buffer@ =~= bitmap_header_bytes(count as int));
    let ghost all = views(tiles@);
    let mut i: usize = from;
    assert(all.subrange(from as int, from as int) =~= Seq::empty());
    assert(buffer@ =~= bitmap_header_bytes(count as int) + joined(Seq::empty()));
    while i < to
        invariant
            from <= i <= to <= tiles@.len(),
            all == views(tiles@),
            buffer@ == bitmap_header_bytes(count as int) + joined(all.subrange(from as int, i as int)),
        decreases to - i,
    {
        let ghost before = buffer@;
        let mut tile: Vec<u8> = tiles[i].clone();
        buffer.append(&mut tile);
        proof {
            let done = all.subrange(from as int, i as int);
            lemma_joined_push(done, all[i as int]);
            assert(all.subrange(from as int, i + 1) =~= done.push(all[i as int]));
            assert(buffer@ =~= bitmap_header_bytes(count as int) + joined(
                all.subrange(from as int, i + 1),
            ));
        }
        i = i + 1;
    }
    buffer
}

/// Parts that are tiles take the bytes of their records at least.
pub proof fn lemma_joined_least(parts: Seq<Seq<u8>>)
    requires
        forall|i: int| 0 <= i < parts.len() ==> (#[trigger] parts[i]).len() >= BITMAP_RECORD_SIZE,
    ensures
        joined(parts).len() >= parts.len() * BITMAP_RECORD_SIZE,
    decreases parts.len(),
{
    if parts.len() > 0 {
        lemma_joined_least(parts.drop_last());
    }
}

/// Puts encoded tiles into packets.
pub fn pack_tiles(tiles: &Vec<Vec<u8>>) -> (r: Vec<Vec<u8>>)
    requires
        forall|i: int|
            0 <= i < tiles@.len() ==> BITMAP_RECORD_SIZE <= (#[trigger] tiles@[i])@.len() <= TILE_LIMIT,
    ensures
        views(r@) == packets(views(tiles@), Seq::empty()),
{
    let ghost all = views(tiles@);
    let mut out: Vec<Vec<u8>> = Vec::new();
    let mut start: usize = 0;
    let mut len: usize = 0;
    let mut i: usize = 0;
    proof {
        assert(all.skip(0) =~= all);
        assert(all.subrange(0, 0) =~= Seq::empty());
        assert(views(out@) + packets(all, Seq::empty()) =~= packets(all, Seq::empty()));
    }
    while i < tiles.len()
        invariant
            start <= i <= tiles@.len(),
            i > 0 ==> start < i,
            all == views(tiles@),
            forall|k: int|
                0 <= k < tiles@.len() ==> BITMAP_RECORD_SIZE <= (#[trigger] tiles@[k])@.len()
                    <= TILE_LIMIT,
            len == joined(all.subrange(start as int, i as int)).len(),
            len <= PACKET_LIMIT || i - start == 1 && len <= TILE_LIMIT,
            packets(all, Seq::empty()) == views(out@) + packets(
                all.skip(i as int),
                all.subrange(start as int, i as int),
            ),
        decreases tiles@.len() - i,
    {
        let size: usize = tiles[i].len();
        let ghost open = all.subrange(start as int, i as int);
        let ghost rest = all.skip(i as int);
        assert(rest[0] == all[i as int]);
        assert(all[i as int] == tiles@[i as int]@);
        assert(rest.skip(1) =~= all.skip(i + 1));
        if i > start && len + size > PACKET_LIMIT {
            proof {
                lemma_joined_least(open);
            }
            let full = packet_of(tiles, start, i, len);
            let ghost before = views(out@);
            out.push(full);
            proof {
                let one = seq![all[i as int]];
                assert(all.subrange(i as int, i + 1) =~= one);
                lemma_joined_one(all[i as int]);
                assert(views(out@) =~= before.push(packet(open)));
                assert(before + (seq![packet(open)] + packets(all.skip(i + 1), one)) =~= views(out@)
                    + packets(all.skip(i + 1), one));
            }
            start = i;
            len = size;
        } else {
            proof {
                lemma_joined_push(open, all[i as int]);
                assert(all.subrange(start as int, i + 1) =~= open.push(all[i as int]));
                if i == start {
                    assert(open =~= Seq::empty());
                }
            }
            len = len + size;
        }
        i = i + 1;
    }
    let ghost open = all.subrange(start as int, i as int);
    assert(all.skip(i as int) =~= Seq::empty());
    if i > start {
        proof {
            lemma_joined_least(open);
        }
        let full = packet_of(tiles, start, i, len);
        let ghost before = views(out@);
        out.push(full);
        assert(views(out@) =~= before + seq![packet(open)]);
    } else {
        assert(open =~= Seq::empty());
        assert(views(out@) + Seq::<Seq<u8>>::empty() =~= views(out@));
    }
    out
}

/// Whether the packets are the tiles between one cut and the next, from the first tile to the last.
pub open spec fn cut_at(packets: Seq<Seq<u8>>, tiles: Seq<Seq<u8>>, cuts: Seq<int>, from: int) -> bool {
    &&& cuts.len() == packets.len() + 1
    &&& cuts[0] == from
    &&& cuts.last() == tiles.len()
    &&& forall|i: int|
        0 <= i < packets.len() ==> {
            &&& from <= #[trigger] cuts[i] < cuts[i + 1] <= tiles.len()
            &&& share_packet(tiles, cuts[i], cuts[i + 1])
            &&& packets[i] == packet(tiles.subrange(cuts[i], cuts[i + 1]))
            &&& i + 1 < packets.len() ==> joined(tiles.subrange(cuts[i], cuts[i + 1])).len()
                + tiles[cuts[i + 1]].len() > PACKET_LIMIT
        }
}

proof fn lemma_cuts(tiles: Seq<Seq<u8>>, from: int, to: int) -> (cuts: Seq<int>)
    requires
        0 <= from <= to <= tiles.len(),
        from == to ==> to == 0,
        share_packet(tiles, from, to),
    ensures
        cut_at(packets(tiles.skip(to), tiles.subrange(from, to)), tiles, cuts, from),
    decreases tiles.len() - to,
{
    let open = tiles.subrange(from, to);
    let rest = tiles.skip(to);
    let all = packets(rest, open);
    if rest.len() == 0 {
        if open.len() == 0 {
            seq![from]
        } else {
            let cuts = seq![from, to];
            assert forall|i: int| 0 <= i < all.len() implies {
                &&& from <= #[trigger] cuts[i] < cuts[i + 1] <= tiles.len()
                &&& share_packet(tiles, cuts[i], cuts[i + 1])
                &&& all[i] == packet(tiles.subrange(cuts[i], cuts[i + 1]))
                &&& i + 1 < all.len() ==> joined(tiles.subrange(cuts[i], cuts[i + 1])).len()
                    + tiles[cuts[i + 1]].len() > PACKET_LIMIT
            } by {}
            cuts
        }
    } else {
        assert(rest.skip(1) =~= tiles.skip(to + 1));
        assert(rest[0] == tiles[to]);
        if open.len() > 0 && joined(open).len() + rest[0].len() > PACKET_LIMIT {
            assert(seq![rest[0]] =~= tiles.subrange(to, to + 1));
            let later = lemma_cuts(tiles, to, to + 1);
            let cuts = seq![from] + later;
            let after = packets(rest.skip(1), seq![rest[0]]);
            assert forall|i: int| 0 <= i < all.len() implies {
                &&& from <= #[trigger] cuts[i] < cuts[i + 1] <= tiles.len()
                &&& share_packet(tiles, cuts[i], cuts[i + 1])
                &&& all[i] == packet(tiles.subrange(cuts[i], cuts[i + 1]))
                &&& i + 1 < all.len() ==> joined(tiles.subrange(cuts[i], cuts[i + 1])).len()
                    + tiles[cuts[i + 1]].len() > PACKET_LIMIT
            } by {
                if i > 0 {
                    assert(all[i] == after[i - 1]);
                    assert(cuts[i] == later[i - 1] && cuts[i + 1] == later[i]);
                } else {
                    assert(cuts[1] == later[0]);
                }
            }
            assert(cuts.last() == later.last());
            cuts
        } else {
            assert(open.push(rest[0]) =~= tiles.subrange(from, to + 1));
            lemma_joined_push(open, rest[0]);
            lemma_cuts(tiles, from, to + 1)
        }
    }
}

/// No tile is lost, sent twice or out of its order: the packets cut the tiles into runs that follow each
/// other from the first tile to the last, and each holds its run whole: one alone, or several that stay
/// within [`PACKET_LIMIT`]. The tile that the next packet starts with would not have fitted in besides.
pub proof fn lemma_packets_cut(tiles: Seq<Seq<u8>>) -> (cuts: Seq<int>)
    ensures
        cut_at(packets(tiles, Seq::empty()), tiles, cuts, 0),
{
    assert(tiles.skip(0) =~= tiles);
    assert(tiles.subrange(0, 0) =~= Seq::empty());
    lemma_cuts(tiles, 0, 0)
}

/// A packet starts with the number of its kind, 1, and that of its tiles.
pub proof fn lemma_packet_counts(tiles: Seq<Seq<u8>>)
    requires
        tiles.len() <= u16::MAX,
    ensures
        word(packet(tiles), 0) == 1,
        word(packet(tiles), 2) == tiles.len(),
        packet(tiles).skip(4) == joined(tiles),
{
    lemma_word_back(1);
    lemma_word_back(tiles.len() as int);
    assert(packet(tiles).skip(4) =~= joined(tiles));
}

/// Packets of several tiles hold no more than 14000 bytes of them, so that each is sent in one part.
pub proof fn lemma_several_in_one_part(tiles: Seq<Seq<u8>>, a: int, b: int)
    requires
        0 <= a < b <= tiles.len(),
        share_packet(tiles, a, b),
    ensures
        b - a == 1 || packet(tiles.subrange(a, b)).len() <= 14_004,
        b - a > 1 ==> fragment_count(packet(tiles.subrange(a, b)).len() as int) == 1,
{
}

} // verus!
