//! Fast-path updates.

use vstd::prelude::*;
use vstd::slice::slice_subrange;

use crate::wire::{be16, le16};

verus! {

/// What an update changes on the client.
#[derive(Debug, Clone, Copy, PartialEq, Eq, Structural)]
pub enum UpdateCode {
    Bitmap,
    SurfaceCommands,
    HiddenPointer,
    DefaultPointer,
    PositionPointer,
    ColorPointer,
    CachedPointer,
    NewPointer,
}

impl UpdateCode {
    /// The number that stands for it in a packet.
    pub open spec fn number(self) -> u8 {
        match self {
            UpdateCode::Bitmap => 1,
            UpdateCode::SurfaceCommands => 4,
            UpdateCode::HiddenPointer => 5,
            UpdateCode::DefaultPointer => 6,
            UpdateCode::PositionPointer => 8,
            UpdateCode::ColorPointer => 9,
            UpdateCode::CachedPointer => 10,
            UpdateCode::NewPointer => 11,
        }
    }

    /// The number that stands for it in a packet.
    fn to_number(self) -> (r: u8)
        ensures
            r == self.number(),
    {
        match self {
            UpdateCode::Bitmap => 1,
            UpdateCode::SurfaceCommands => 4,
            UpdateCode::HiddenPointer => 5,
            UpdateCode::DefaultPointer => 6,
            UpdateCode::PositionPointer => 8,
            UpdateCode::ColorPointer => 9,
            UpdateCode::CachedPointer => 10,
            UpdateCode::NewPointer => 11,
        }
    }
}

/// An encoded update, ready to be cut into fragments.
#[derive(Debug, Clone)]
pub struct UpdateFragmenter {
    pub code: UpdateCode,
    pub data: Vec<u8>,
}

impl UpdateFragmenter {
    /// An update of the given kind.
    pub fn new(code: UpdateCode, data: Vec<u8>) -> (r: UpdateFragmenter)
        ensures
            r.code == code,
            r.data == data,
    {
        UpdateFragmenter { code, data }
    }

    /// Whether this is an update of the given kind with the given bytes.
    pub open spec fn is(self, code: UpdateCode, data: Seq<u8>) -> bool {
        self.code == code && self.data@ == data
    }
}

/// Most bytes of an update that one packet carries.
pub const MAX_FRAGMENT: usize = 16_374;

/// Which part of an update a packet carries.
#[derive(Debug, Clone, Copy, PartialEq, Eq, Structural)]
pub enum Fragmentation {
    Single,
    First,
    Next,
    Last,
}

impl Fragmentation {
    /// The number that stands for it in a packet.
    pub open spec fn number(self) -> u8 {
        match self {
            Fragmentation::Single => 0,
            Fragmentation::Last => 1,
            Fragmentation::First => 2,
            Fragmentation::Next => 3,
        }
    }

    /// The number that stands for it in a packet.
    fn to_number(self) -> (r: u8)
        ensures
            r == self.number(),
    {
        match self {
            Fragmentation::Single => 0,
            Fragmentation::Last => 1,
            Fragmentation::First => 2,
            Fragmentation::Next => 3,
        }
    }
}

/// A part of an update.
#[derive(Debug, Clone, Copy, PartialEq, Eq, Structural)]
pub struct Fragment {
    pub fragmentation: Fragmentation,
    pub from: usize,
    pub to: usize,
}

/// Number of packets that an update of this length takes: one at least.
pub open spec fn fragment_count(len: int) -> int {
    if len <= MAX_FRAGMENT {
        1
    } else {
        (len + MAX_FRAGMENT - 1) / MAX_FRAGMENT as int
    }
}

/// The part of number `i` of an update of the given length.
pub open spec fn fragment(len: int, i: int) -> Fragment {
    let n = fragment_count(len);
    Fragment {
        fragmentation: if n == 1 {
            Fragmentation::Single
        } else if i == 0 {
            Fragmentation::First
        } else if i == n - 1 {
            Fragmentation::Last
        } else {
            Fragmentation::Next
        },
        from: (i * MAX_FRAGMENT) as usize,
        to: (if (i + 1) * MAX_FRAGMENT < len {
            (i + 1) * MAX_FRAGMENT
        } else {
            len
        }) as usize,
    }
}

impl UpdateFragmenter {
    /// The parts in which the update is sent.
    pub fn fragments(&self) -> (r: Vec<Fragment>)
        ensures
            r@.len() == fragment_count(self.data@.len() as int),
            forall|i: int|
                0 <= i < r@.len() ==> #[trigger] r@[i] == fragment(self.data@.len() as int, i),
    {
        let len: usize = self.data.len();
        let mut out: Vec<Fragment> = Vec::new();
        if len <= MAX_FRAGMENT {
            out.push(Fragment { fragmentation: Fragmentation::Single, from: 0, to: len });
            return out;
        }
        let mut from: usize = 0;
        while len - from > MAX_FRAGMENT
            invariant
                MAX_FRAGMENT < len,
                from < len,
                from == out@.len() * MAX_FRAGMENT,
                out@.len() < fragment_count(len as int),
                forall|i: int| 0 <= i < out@.len() ==> #[trigger] out@[i] == fragment(len as int, i),
            decreases len - from,
        {
            let fragmentation = if from == 0 {
                Fragmentation::First
            } else {
                Fragmentation::Next
            };
            out.push(Fragment { fragmentation, from, to: from + MAX_FRAGMENT });
            from = from + MAX_FRAGMENT;
        }
        out.push(Fragment { fragmentation: Fragmentation::Last, from, to: len });
        out
    }
}

/// A part of an update on the wire: its kind and which part it is, the length of its bytes, and those.
pub open spec fn update_bytes(code: UpdateCode, fragmentation: Fragmentation, data: Seq<u8>) -> Seq<u8> {
    seq![(code.number() + 16 * fragmentation.number()) as u8] + le16(data.len() as int) + data
}

/// The start of a packet around `len` bytes: a fast-path packet in the clear, and the length of the whole
/// packet, in one byte where it fits there and else in two, the first of which has its highest bit set.
pub open spec fn packet_header(len: int) -> Seq<u8> {
    if len + 2 < 128 {
        seq![0u8, (len + 2) as u8]
    } else {
        seq![0u8] + be16(0x8000 + len + 3)
    }
}

/// The packet that carries a part of an update.
pub open spec fn packet(code: UpdateCode, fragmentation: Fragmentation, data: Seq<u8>) -> Seq<u8> {
    packet_header(data.len() as int + 3) + update_bytes(code, fragmentation, data)
}

/// Makes the packet that carries a part of an update.
fn make_packet(code: UpdateCode, fragmentation: Fragmentation, data: &[u8]) -> (r: Vec<u8>)
    requires
        data@.len() <= MAX_FRAGMENT,
    ensures
        r@ == packet(code, fragmentation, data@),
{
    let len: usize = data.len();
    let mut out: Vec<u8> = Vec::new();
    out.push(0);
    if len + 5 < 128 {
        out.push((len + 5) as u8);
    } else {
        out.push((128 + (len + 6) / 256) as u8);
        out.push(((len + 6) % 256) as u8);
    }
    assert(out@ =~= packet_header(len + 3));
    out.push(code.to_number() + 16 * fragmentation.to_number());
    out.push((len % 256) as u8);
    out.push((len / 256) as u8);
    out.extend_from_slice(data);
    assert(out@ =~= packet(code, fragmentation, data@));
    out
}

impl UpdateFragmenter {
    /// The packets in which the update is sent.
    pub fn packets(&self) -> (r: Vec<Vec<u8>>)
        ensures
            r@.len() == fragment_count(self.data@.len() as int),
            forall|i: int|
                #![trigger r@[i]]
                0 <= i < r@.len() ==> {
                    let part = fragment(self.data@.len() as int, i);
                    r@[i]@ == packet(
                        self.code,
                        part.fragmentation,
                        fragment_bytes(self.data@, part),
                    )
                },
    {
        let parts = self.fragments();
        let total: usize = self.data.len();
        let ghost len = total as int;
        let mut out: Vec<Vec<u8>> = Vec::new();
        let mut i: usize = 0;
        while i < parts.len()
            invariant
                len == total,
                total == self.data@.len(),
                i <= parts@.len(),
                parts@.len() == fragment_count(len),
                forall|k: int| 0 <= k < parts@.len() ==> #[trigger] parts@[k] == fragment(len, k),
                out@.len() == i,
                forall|k: int|
                    #![trigger out@[k]]
                    0 <= k < i ==> out@[k]@ == packet(
                        self.code,
                        parts@[k].fragmentation,
                        fragment_bytes(self.data@, parts@[k]),
                    ),
            decreases parts@.len() - i,
        {
            let part = parts[i];
            proof {
                lemma_fragment_within(len, i as int);
            }
            let bytes = slice_subrange(self.data.as_slice(), part.from, part.to);
            out.push(make_packet(self.code, part.fragmentation, bytes));
            i = i + 1;
        }
        out
    }
}

proof fn lemma_fragment_within(len: int, i: int)
    requires
        0 <= len <= usize::MAX,
        0 <= i < fragment_count(len),
    ensures
        0 <= fragment(len, i).from <= fragment(len, i).to <= len,
        fragment(len, i).to - fragment(len, i).from <= MAX_FRAGMENT,
{
}

/// The bytes of a part.
pub open spec fn fragment_bytes(data: Seq<u8>, part: Fragment) -> Seq<u8> {
    data.subrange(part.from as int, part.to as int)
}

/// What has been put together once the parts before number `n` have come in.
pub open spec fn reassembled(data: Seq<u8>, n: int) -> Seq<u8>
    decreases n,
{
    if n <= 0 {
        Seq::empty()
    } else {
        let part = fragment(data.len() as int, n - 1);
        match part.fragmentation {
            Fragmentation::Single | Fragmentation::First => fragment_bytes(data, part),
            Fragmentation::Next | Fragmentation::Last => reassembled(data, n - 1) + fragment_bytes(
                data,
                part,
            ),
        }
    }
}

proof fn lemma_reassembled_prefix(data: Seq<u8>, n: int)
    requires
        0 < n <= fragment_count(data.len() as int),
        data.len() <= usize::MAX,
    ensures
        reassembled(data, n) == data.take(fragment(data.len() as int, n - 1).to as int),
    decreases n,
{
    let len = data.len() as int;
    let part = fragment(len, n - 1);
    if n > 1 {
        lemma_reassembled_prefix(data, n - 1);
        assert(reassembled(data, n) =~= data.take(part.to as int));
    } else {
        assert(reassembled(data, n) =~= data.take(part.to as int));
    }
}

/// The parts of an update, put together again, are the update; and none is too long for its packet.
pub proof fn lemma_fragments_reassemble(data: Seq<u8>, i: int)
    requires
        data.len() <= usize::MAX,
        0 <= i < fragment_count(data.len() as int),
    ensures
        reassembled(data, fragment_count(data.len() as int)) == data,
        fragment_bytes(data, fragment(data.len() as int, i)).len() <= MAX_FRAGMENT,
{
    let n = fragment_count(data.len() as int);
    lemma_reassembled_prefix(data, n);
    assert(fragment(data.len() as int, n - 1).to == data.len());
    assert(data.take(data.len() as int) =~= data);
}

/// The length that a packet says it has: in its second byte, or where that has its highest bit set, in the
/// other bits of it and the third byte.
pub open spec fn declared_length(packet: Seq<u8>) -> int {
    if packet[1] < 128 {
        packet[1] as int
    } else {
        (packet[1] - 128) * 256 + packet[2]
    }
}

/// A packet says how long it is, and that it is a fast-path packet in the clear; it stays below 16 KiB. A
/// part that is the whole update has number 0, and of several parts the first has 2, the last 1 and those
/// between them 3.
pub proof fn lemma_packet_on_wire(code: UpdateCode, data: Seq<u8>, i: int)
    requires
        data.len() <= usize::MAX,
        0 <= i < fragment_count(data.len() as int),
    ensures
        ({
            let part = fragment(data.len() as int, i);
            let sent = packet(code, part.fragmentation, fragment_bytes(data, part));
            &&& sent[0] == 0
            &&& declared_length(sent) == sent.len()
            &&& sent.len() < 16384
            &&& fragment_count(data.len() as int) == 1 ==> part.fragmentation.number() == 0
            &&& fragment_count(data.len() as int) > 1 ==> part.fragmentation.number() == if i == 0 {
                2int
            } else if i + 1 == fragment_count(data.len() as int) {
                1
            } else {
                3
            }
        }),
{
    let part = fragment(data.len() as int, i);
    lemma_fragment_within(data.len() as int, i);
    let bytes = fragment_bytes(data, part);
    let len = bytes.len() as int;
    let sent = packet(code, part.fragmentation, bytes);
    assert(bytes.len() == part.to - part.from);
    if len + 5 < 128 {
        assert(sent[1] == len + 5);
    } else {
        assert(sent[1] == (0x8000 + len + 6) / 256 % 256);
        assert(sent[2] == (0x8000 + len + 6) % 256);
    }
}

/// The numbers of the kinds of updates.
pub proof fn lemma_update_numbers()
    ensures
        UpdateCode::Bitmap.number() == 1,
        UpdateCode::SurfaceCommands.number() == 4,
        UpdateCode::HiddenPointer.number() == 5,
        UpdateCode::DefaultPointer.number() == 6,
        UpdateCode::PositionPointer.number() == 8,
        UpdateCode::ColorPointer.number() == 9,
        UpdateCode::CachedPointer.number() == 10,
        UpdateCode::NewPointer.number() == 11,
{
}

} // verus!
