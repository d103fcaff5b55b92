//! Figures by which a test client and a test capture tell whether a picture comes through.

use vstd::prelude::*;
use vstd::slice::slice_subrange;

use crate::client::{decode_rectangle, read_rectangles};
use crate::fast_path::{
    fragment, fragment_bytes, fragment_count, lemma_fragments_reassemble, packet, reassembled,
    Fragmentation, UpdateCode,
};
use crate::frame::DesktopSize;
use crate::receive::{
    coded_of, coded_rectangles, decode_packet_header, decode_surface_command, decode_update,
    lemma_packets_read, models, packet_start, received_update, rgb24, surface_command, CodedModel,
    CodedRectangle,
};

verus! {

/// Colour bytes that a live desktop has at least.
pub const RICH_COLOR: u64 = 100_000;

/// Number of bytes among the first `n` that are not zero.
pub open spec fn non_zero(bytes: Seq<u8>, n: int) -> int
    decreases n,
{
    if n <= 0 {
        0
    } else {
        non_zero(bytes, n - 1) + if bytes[n - 1] > 0 {
            1int
        } else {
            0
        }
    }
}

/// Number of bytes that are not zero.
pub fn count_non_zero(bytes: &[u8]) -> (r: usize)
    ensures
        r == non_zero(bytes@, bytes@.len() as int),
        r <= bytes@.len(),
{
    let mut count: usize = 0;
    let mut i: usize = 0;
    while i < bytes.len()
        invariant
            i <= bytes@.len(),
            count <= i,
            count == non_zero(bytes@, i as int),
        decreases bytes@.len() - i,
    {
        if bytes[i] > 0 {
            count = count + 1;
        }
        i = i + 1;
    }
    count
}

/// The share of bytes that are not zero, in whole percent.
pub fn percent_non_zero(count: usize, total: usize) -> (r: usize)
    requires
        count * 100 <= usize::MAX,
    ensures
        r == count * 100 / (if total == 0 {
            1
        } else {
            total as int
        }),
{
    let whole: usize = if total == 0 {
        1
    } else {
        total
    };
    count * 100 / whole
}

/// What a test client has seen. Its figures stay at their largest value once they are there.
#[derive(Debug, Clone)]
pub struct Diagnostics {
    pub fastpath_count: u64,
    pub surface_bits_count: u64,
    pub non_zero_pixels: u64,
    /// Sizes of the rectangles that could not be decoded.
    pub failed: Vec<DesktopSize>,
    /// The parts of a surface command that have come in.
    pub reassembly: Vec<u8>,
}

/// What a test client has seen, over what the figures hold.
#[verifier::ext_equal]
pub struct Figures {
    pub fastpath_count: u64,
    pub surface_bits_count: u64,
    pub non_zero_pixels: u64,
    pub failed: Seq<DesktopSize>,
    pub reassembly: Seq<u8>,
}

impl View for Diagnostics {
    type V = Figures;

    open spec fn view(&self) -> Figures {
        Figures {
            fastpath_count: self.fastpath_count,
            surface_bits_count: self.surface_bits_count,
            non_zero_pixels: self.non_zero_pixels,
            failed: self.failed@,
            reassembly: self.reassembly@,
        }
    }
}

/// The sum, or the largest value where it is more.
pub open spec fn capped(a: u64, b: int) -> u64 {
    if a + b > u64::MAX {
        u64::MAX
    } else {
        (a + b) as u64
    }
}

/// The sum, or the largest value where it is more.
fn add_capped(a: u64, b: u64) -> (r: u64)
    ensures
        r == capped(a, b as int),
{
    if a > u64::MAX - b {
        u64::MAX
    } else {
        a + b
    }
}

impl Figures {
    /// With one more packet.
    pub open spec fn with_packet(self) -> Figures {
        Figures { fastpath_count: capped(self.fastpath_count, 1), ..self }
    }

    /// With one more rectangle, and the colours in it or, where it could not be decoded, its size.
    pub open spec fn with_rectangle(self, size: DesktopSize, colors: Option<Seq<u8>>) -> Figures {
        let counted = Figures { surface_bits_count: capped(self.surface_bits_count, 1), ..self };
        match colors {
            Some(colors) => Figures {
                non_zero_pixels: capped(self.non_zero_pixels, non_zero(colors, colors.len() as int)),
                ..counted
            },
            None => Figures { failed: self.failed.push(size), ..counted },
        }
    }

    /// With a part of a surface command.
    pub open spec fn with_part(self, fragmentation: Fragmentation, data: Seq<u8>) -> Figures {
        Figures {
            reassembly: if fragmentation is Single || fragmentation is First {
                data
            } else {
                self.reassembly + data
            },
            ..self
        }
    }

    /// With one more rectangle that is still encoded.
    pub open spec fn with_coded(self, rectangle: CodedModel) -> Figures {
        self.with_rectangle(
            DesktopSize { width: rectangle.width, height: rectangle.height },
            rgb24(rectangle.data, rectangle.width, rectangle.height),
        )
    }

    /// With the first `n` of the rectangles.
    pub open spec fn with_all(self, rectangles: Seq<CodedModel>, n: int) -> Figures
        decreases n,
    {
        if n <= 0 {
            self
        } else {
            self.with_all(rectangles, n - 1).with_coded(rectangles[n - 1])
        }
    }

    /// With the rectangles of the surface commands, up to what is no command.
    pub open spec fn with_commands(self, commands: Seq<u8>) -> Figures
        decreases commands.len(),
    {
        match surface_command(commands) {
            Some((rectangle, n)) if 0 < n <= commands.len() => {
                let counted = match rectangle {
                    Some(rectangle) => self.with_coded(rectangle),
                    None => self,
                };
                counted.with_commands(commands.skip(n))
            },
            _ => self,
        }
    }

    /// With a part of an update.
    pub open spec fn with_update(self, code: u8, part: u8, data: Seq<u8>) -> Figures {
        if code == UpdateCode::Bitmap.number() {
            match coded_rectangles(data) {
                Some(rectangles) => self.with_all(coded_of(rectangles), rectangles.len() as int),
                None => self,
            }
        } else if code == UpdateCode::SurfaceCommands.number() {
            let fragmentation = fragmentation_of(part);
            let taken = self.with_part(fragmentation, data);
            if fragmentation is Single || fragmentation is Last {
                taken.with_commands(taken.reassembly)
            } else {
                taken
            }
        } else {
            self
        }
    }

    /// With a packet, where it is a fast-path packet, and with what it carries, where that is a part of an
    /// update.
    pub open spec fn with_received(self, packet: Seq<u8>) -> Figures {
        match packet_start(packet) {
            Some(start) => match received_update(packet.skip(start)) {
                Some((code, part, data)) => self.with_packet().with_update(code, part, data),
                None => self.with_packet(),
            },
            None => self,
        }
    }
}

/// Which part of an update the number in a packet stands for.
pub open spec fn fragmentation_of(part: u8) -> Fragmentation {
    match part {
        0 => Fragmentation::Single,
        1 => Fragmentation::Last,
        2 => Fragmentation::First,
        _ => Fragmentation::Next,
    }
}

impl Diagnostics {
    /// A client that has seen nothing yet.
    pub fn new() -> (r: Diagnostics)
        ensures
            r@ == (Figures {
                fastpath_count: 0,
                surface_bits_count: 0,
                non_zero_pixels: 0,
                failed: Seq::empty(),
                reassembly: Seq::empty(),
            }),
    {
        Diagnostics {
            fastpath_count: 0,
            surface_bits_count: 0,
            non_zero_pixels: 0,
            failed: Vec::new(),
            reassembly: Vec::new(),
        }
    }

    /// Notes a fast-path packet.
    pub fn packet(&mut self)
        ensures
            final(self)@ == old(self)@.with_packet(),
    {
        self.fastpath_count = add_capped(self.fastpath_count, 1);
    }

    /// Notes a rectangle with what it was decoded to, or nothing where it could not be.
    pub fn rectangle(&mut self, size: DesktopSize, colors: Option<Vec<u8>>)
        ensures
            final(self)@ == old(self)@.with_rectangle(
                size,
                match colors {
                    Some(colors) => Some(colors@),
                    None => None,
                },
            ),
    {
        self.surface_bits_count = add_capped(self.surface_bits_count, 1);
        match colors {
            Some(colors) => {
                let count: usize = count_non_zero(colors.as_slice());
                self.non_zero_pixels = add_capped(self.non_zero_pixels, count as u64);
            },
            None => {
                self.failed.push(size);
            },
        }
    }

    /// Takes in a part of a surface command, and says whether the command is complete.
    pub fn reassemble(&mut self, fragmentation: Fragmentation, data: Vec<u8>) -> (r: bool)
        ensures
            r == (fragmentation is Single || fragmentation is Last),
            final(self)@ == old(self)@.with_part(fragmentation, data@),
    {
        let mut part: Vec<u8> = data;
        match fragmentation {
            Fragmentation::Single => {
                self.reassembly = part;
                true
            },
            Fragmentation::First => {
                self.reassembly = part;
                false
            },
            Fragmentation::Next => {
                self.reassembly.append(&mut part);
                false
            },
            Fragmentation::Last => {
                self.reassembly.append(&mut part);
                true
            },
        }
    }

    /// Decodes a rectangle and notes it.
    fn coded(&mut self, rectangle: &CodedRectangle)
        ensures
            final(self)@ == old(self)@.with_coded(rectangle@),
    {
        let size = DesktopSize { width: rectangle.width, height: rectangle.height };
        let colors = decode_rectangle(rectangle);
        self.rectangle(size, colors);
    }

    /// Notes the rectangles of the surface commands that have come in.
    fn commands(&mut self)
        ensures
            final(self)@ == old(self)@.with_commands(old(self).reassembly@),
    {
        let mut rest: Vec<u8> = self.reassembly.clone();
        let ghost whole = self@.with_commands(rest@);
        loop
            invariant
                self@.with_commands(rest@) == whole,
            ensures
                self@ == whole,
            decreases rest@.len(),
        {
            match decode_surface_command(rest.as_slice()) {
                Some((rectangle, n)) => {
                    if let Some(rectangle) = rectangle {
                        self.coded(&rectangle);
                    }
                    rest = tail(&rest, n);
                },
                None => {
                    break;
                },
            }
        }
    }

    /// Notes the rectangles of a bitmap update.
    fn bitmap(&mut self, data: &[u8])
        ensures
            final(self)@ == old(self)@.with_update(UpdateCode::Bitmap.number(), 0, data@),
    {
        if let Some(rectangles) = read_rectangles(data) {
            let ghost before = self@;
            let ghost all = models(rectangles@);
            assert(all.len() == coded_rectangles(data@)->0.len());
            let mut i: usize = 0;
            while i < rectangles.len()
                invariant
                    i <= rectangles@.len(),
                    all == models(rectangles@),
                    self@ == before.with_all(all, i as int),
                decreases rectangles@.len() - i,
            {
                self.coded(&rectangles[i]);
                i = i + 1;
            }
        }
    }

    /// Notes a packet and what it carries.
    pub fn receive(&mut self, packet: &[u8])
        ensures
            final(self)@ == old(self)@.with_received(packet@),
    {
        let start: usize = match decode_packet_header(packet) {
            Some(start) => start,
            None => return ,
        };
        self.packet();
        let update = slice_subrange(packet, start, packet.len());
        assert(update@ =~= packet@.skip(start as int));
        if let Some((code, part, data)) = decode_update(update) {
            if code == 1 {
                self.bitmap(data.as_slice());
            } else if code == 4 {
                let fragmentation = match part {
                    0 => Fragmentation::Single,
                    1 => Fragmentation::Last,
                    2 => Fragmentation::First,
                    _ => Fragmentation::Next,
                };
                if self.reassemble(fragmentation, data) {
                    self.commands();
                }
            }
        }
    }

    /// Whether what was seen has the colours of a live desktop.
    pub fn rich(&self) -> (r: bool)
        ensures
            r == (self.non_zero_pixels > RICH_COLOR),
    {
        self.non_zero_pixels > RICH_COLOR
    }
}

/// What a client has seen once the packets of an update before number `n` have come in.
pub open spec fn after_packets(seen: Figures, code: UpdateCode, data: Seq<u8>, n: int) -> Figures
    decreases n,
{
    if n <= 0 {
        seen
    } else {
        let part = fragment(data.len() as int, n - 1);
        after_packets(seen, code, data, n - 1).with_received(
            packet(code, part.fragmentation, fragment_bytes(data, part)),
        )
    }
}

proof fn lemma_commands_keep(seen: Figures, commands: Seq<u8>)
    ensures
        seen.with_commands(commands).reassembly == seen.reassembly,
    decreases commands.len(),
{
    if let Some((rectangle, n)) = surface_command(commands) {
        if 0 < n <= commands.len() {
            let counted = match rectangle {
                Some(rectangle) => seen.with_coded(rectangle),
                None => seen,
            };
            lemma_commands_keep(counted, commands.skip(n));
        }
    }
}

proof fn lemma_parts_taken(seen: Figures, data: Seq<u8>, n: int)
    requires
        data.len() <= usize::MAX,
        0 < n <= fragment_count(data.len() as int),
    ensures
        after_packets(seen, UpdateCode::SurfaceCommands, data, n).reassembly == reassembled(data, n),
    decreases n,
{
    let code = UpdateCode::SurfaceCommands;
    let part = fragment(data.len() as int, n - 1);
    let before = after_packets(seen, code, data, n - 1);
    if n > 1 {
        lemma_parts_taken(seen, data, n - 1);
    }
    lemma_packets_read(code, data, n - 1);
    let taken = before.with_packet().with_part(part.fragmentation, fragment_bytes(data, part));
    assert(fragmentation_of(part.fragmentation.number()) == part.fragmentation);
    lemma_commands_keep(taken, taken.reassembly);
}

/// A client that gets all packets of surface commands, in their order, has put the commands together as
/// the server made them, whatever it has seen before.
pub proof fn lemma_commands_arrive(seen: Figures, data: Seq<u8>)
    requires
        data.len() <= usize::MAX,
    ensures
        after_packets(
            seen,
            UpdateCode::SurfaceCommands,
            data,
            fragment_count(data.len() as int),
        ).reassembly == data,
{
    lemma_parts_taken(seen, data, fragment_count(data.len() as int));
    lemma_fragments_reassemble(data, 0);
}

/// The bytes from the given place on.
fn tail(bytes: &Vec<u8>, from: usize) -> (r: Vec<u8>)
    requires
        from <= bytes@.len(),
    ensures
        r@ == bytes@.skip(from as int),
{
    let mut out: Vec<u8> = Vec::new();
    out.extend_from_slice(slice_subrange(bytes.as_slice(), from, bytes.len()));
    assert(out@ =~= bytes@.skip(from as int));
    out
}

/// Bytes that are not zero are counted each once: there are none exactly where all are zero, as many as there
/// are bytes exactly where none is, and in two runs as many as in both.
pub proof fn lemma_non_zero(bytes: Seq<u8>, n: int, more: Seq<u8>)
    requires
        0 <= n <= bytes.len(),
    ensures
        0 <= non_zero(bytes, n) <= n,
        non_zero(bytes, n) == 0 <==> forall|k: int| 0 <= k < n ==> #[trigger] bytes[k] == 0,
        non_zero(bytes, n) == n <==> forall|k: int| 0 <= k < n ==> #[trigger] bytes[k] != 0,
        non_zero(bytes + more, (bytes.len() + more.len()) as int) == non_zero(bytes, bytes.len() as int)
            + non_zero(more, more.len() as int),
    decreases n,
{
    if n > 0 {
        lemma_non_zero(bytes, n - 1, more);
        assert(bytes[n - 1] == bytes[n - 1]);
    } else {
        lemma_non_zero_front(bytes, more, bytes.len() as int);
        lemma_non_zero_joined(bytes, more, more.len() as int);
    }
}

proof fn lemma_non_zero_front(bytes: Seq<u8>, more: Seq<u8>, n: int)
    requires
        0 <= n <= bytes.len(),
    ensures
        non_zero(bytes + more, n) == non_zero(bytes, n),
    decreases n,
{
    if n > 0 {
        lemma_non_zero_front(bytes, more, n - 1);
    }
}

proof fn lemma_non_zero_joined(bytes: Seq<u8>, more: Seq<u8>, n: int)
    requires
        0 <= n <= more.len(),
    ensures
        non_zero(bytes + more, bytes.len() + n) == non_zero(bytes, bytes.len() as int) + non_zero(
            more,
            n,
        ),
    decreases n,
{
    if n > 0 {
        lemma_non_zero_joined(bytes, more, n - 1);
    } else {
        lemma_non_zero_front(bytes, more, bytes.len() as int);
    }
}

/// Every rectangle is counted once, decoded or not.
pub proof fn lemma_rectangles_counted(seen: Figures, rectangles: Seq<CodedModel>, n: int)
    requires
        0 <= n <= rectangles.len(),
    ensures
        seen.surface_bits_count + n <= u64::MAX ==> seen.with_all(rectangles, n).surface_bits_count
            == seen.surface_bits_count + n,
        seen.with_all(rectangles, n).fastpath_count == seen.fastpath_count,
        seen.with_all(rectangles, n).reassembly == seen.reassembly,
    decreases n,
{
    if n > 0 {
        lemma_rectangles_counted(seen, rectangles, n - 1);
    }
}

} // verus!
