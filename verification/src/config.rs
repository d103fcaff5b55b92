//! How the environment sets the quality of the picture.

use vstd::arithmetic::power2::{lemma2_to64, pow2};
use vstd::prelude::*;

use crate::text::{
    chars_of, decimal, hex_digit, lemma_decimal_only_digits, lemma_decimal_parses, lemma_hex_parses,
    lemma_nothing_to_trim, lowered, parse, parsed, same, to_lowercase, trim, trimmed,
};
use crate::tiles::CompressionMode;

verus! {

/// Mask that keeps every colour.
pub const DEFAULT_MASK: u8 = 0xFF;

/// Columns of a tile unless the environment says otherwise.
pub const DEFAULT_TILE_W: usize = 320;

/// Rows of a tile unless the environment says otherwise.
pub const DEFAULT_TILE_H: usize = 32;

/// What the environment says of the picture.
#[derive(Debug, Clone)]
pub struct GraphicsEnv {
    /// `RDP_MODE`, every profile of which has the same defaults.
    pub mode: Option<String>,
    /// `RDP_COLOR`
    pub color: Option<String>,
    /// `RDP_BITS`
    pub bits: Option<String>,
    /// `RDP_MASK`
    pub mask: Option<String>,
    /// `RDP_TILE`
    pub tile: Option<String>,
    /// `RDP_TILE_W`
    pub tile_w: Option<String>,
    /// `RDP_TILE_H`
    pub tile_h: Option<String>,
}

/// The mask that a text without white space and capital letters stands for: a number of bits, the
/// name of a level, or the mask itself in hexadecimal digits.
pub open spec fn mask_named(clean: Seq<char>) -> u8 {
    if clean.len() >= 2 && clean[0] == '0' && clean[1] == 'x' {
        match parsed(clean.skip(2), 16, 255) {
            Some(n) => n as u8,
            None => DEFAULT_MASK,
        }
    } else if clean == "4bit"@ || clean == "4"@ {
        0xF0
    } else if clean == "5bit"@ || clean == "5"@ {
        0xF8
    } else if clean == "6bit"@ || clean == "6"@ {
        0xFC
    } else if clean == "7bit"@ || clean == "7"@ {
        0xFE
    } else if clean == "8bit"@ || clean == "8"@ || clean == "lossless"@ || clean == "max"@ {
        0xFF
    } else if clean == "3bit"@ || clean == "3"@ {
        0xE0
    } else {
        match parsed(clean, 16, 255) {
            Some(n) => n as u8,
            None => DEFAULT_MASK,
        }
    }
}

/// Whether a character parts the width of a tile from its height.
pub open spec fn separates(c: char) -> bool {
    c == 'x' || c == 'X' || c == '*' || c == ',' || c == ' '
}

/// Whether the character at `i` is the only one in the text that parts it.
pub open spec fn only_separator(s: Seq<char>, i: int) -> bool {
    &&& 0 <= i < s.len()
    &&& separates(s[i])
    &&& forall|k: int| 0 <= k < s.len() && k != i ==> !separates(#[trigger] s[k])
}

/// The number that a text spells, or the default.
pub open spec fn size_or(s: Seq<char>, default: int) -> int {
    match parsed(s, 10, usize::MAX as int) {
        Some(n) => n,
        None => default,
    }
}

/// A width made a multiple of four that is no less than eight.
pub open spec fn tile_width(w: int) -> int {
    (if w < 8 {
        8
    } else {
        w
    }) / 4 * 4
}

/// A height that is no less than four.
pub open spec fn tile_height(h: int) -> int {
    if h < 4 {
        4
    } else {
        h
    }
}

/// The size of a tile that a text such as `320x24` names.
pub open spec fn tile_named(s: Seq<char>) -> (int, int) {
    if exists|i: int| only_separator(s, i) {
        let i = choose|i: int| only_separator(s, i);
        (
            tile_width(size_or(trimmed(s.take(i)), DEFAULT_TILE_W as int)),
            tile_height(size_or(trimmed(s.skip(i + 1)), DEFAULT_TILE_H as int)),
        )
    } else {
        (DEFAULT_TILE_W as int, DEFAULT_TILE_H as int)
    }
}

impl GraphicsEnv {
    /// What is said of the colours.
    pub open spec fn color_text(self) -> Option<Seq<char>> {
        match (self.color, self.bits, self.mask) {
            (Some(s), _, _) => Some(s@),
            (None, Some(s), _) => Some(s@),
            (None, None, Some(s)) => Some(s@),
            (None, None, None) => None,
        }
    }

    /// The mask that is asked for.
    pub open spec fn mask_wanted(self) -> u8 {
        match self.color_text() {
            Some(s) => mask_named(lowered(trimmed(s))),
            None => DEFAULT_MASK,
        }
    }

    /// The size of a tile that is asked for.
    pub open spec fn tile_wanted(self) -> (int, int) {
        match self.tile {
            Some(s) => tile_named(s@),
            None => (
                tile_width(
                    match self.tile_w {
                        Some(s) => size_or(s@, DEFAULT_TILE_W as int),
                        None => DEFAULT_TILE_W as int,
                    },
                ),
                tile_height(
                    match self.tile_h {
                        Some(s) => size_or(s@, DEFAULT_TILE_H as int),
                        None => DEFAULT_TILE_H as int,
                    },
                ),
            ),
        }
    }
}

/// The mask that a text without white space and capital letters stands for.
fn parse_mask(clean: &str) -> (r: u8)
    ensures
        r == mask_named(clean@),
{
    let chars = chars_of(clean);
    if chars.len() >= 2 && chars[0] == '0' && chars[1] == 'x' {
        let rest = clean.substring_char(2, chars.len());
        assert(rest@ =~= clean@.skip(2));
        match parse(rest, 16, 255) {
            Some(n) => n as u8,
            None => DEFAULT_MASK,
        }
    } else if same(clean, "4bit") || same(clean, "4") {
        0xF0
    } else if same(clean, "5bit") || same(clean, "5") {
        0xF8
    } else if same(clean, "6bit") || same(clean, "6") {
        0xFC
    } else if same(clean, "7bit") || same(clean, "7") {
        0xFE
    } else if same(clean, "8bit") || same(clean, "8") || same(clean, "lossless") || same(clean, "max") {
        0xFF
    } else if same(clean, "3bit") || same(clean, "3") {
        0xE0
    } else {
        match parse(clean, 16, 255) {
            Some(n) => n as u8,
            None => DEFAULT_MASK,
        }
    }
}

/// The number that a text spells, or the default.
fn parse_size(s: &str, default: usize) -> (r: usize)
    ensures
        r == size_or(s@, default as int),
{
    match parse(s, 10, usize::MAX as u64) {
        Some(n) => n as usize,
        None => default,
    }
}

/// A width made a multiple of four that is no less than eight.
fn round_width(w: usize) -> (r: usize)
    ensures
        r == tile_width(w as int),
        r >= 8,
{
    let at_least: usize = if w < 8 {
        8
    } else {
        w
    };
    at_least / 4 * 4
}

/// A height that is no less than four.
fn round_height(h: usize) -> (r: usize)
    ensures
        r == tile_height(h as int),
        r >= 4,
{
    if h < 4 {
        4
    } else {
        h
    }
}

/// Where the only character stands that parts the text.
fn separator(chars: &Vec<char>) -> (r: Option<usize>)
    ensures
        match r {
            Some(i) => only_separator(chars@, i as int),
            None => forall|i: int| !only_separator(chars@, i),
        },
{
    let mut found: Option<usize> = None;
    let mut i: usize = 0;
    while i < chars.len()
        invariant
            i <= chars@.len(),
            match found {
                Some(at) => {
                    &&& at < i
                    &&& separates(chars@[at as int])
                    &&& forall|k: int| 0 <= k < i && k != at ==> !separates(#[trigger] chars@[k])
                },
                None => forall|k: int| 0 <= k < i ==> !separates(#[trigger] chars@[k]),
            },
        decreases chars@.len() - i,
    {
        let c = chars[i];
        if c == 'x' || c == 'X' || c == '*' || c == ',' || c == ' ' {
            match found {
                Some(at) => {
                    assert forall|k: int| !only_separator(chars@, k) by {
                        assert(separates(chars@[at as int]));
                        assert(separates(chars@[i as int]));
                    }
                    return None;
                },
                None => {
                    found = Some(i);
                },
            }
        }
        i = i + 1;
    }
    found
}

/// The size of a tile that a text names.
fn parse_tile(s: &str) -> (r: (usize, usize))
    ensures
        (r.0 as int, r.1 as int) == tile_named(s@),
        r.0 >= 8,
        r.1 >= 4,
{
    let chars = chars_of(s);
    let len: usize = chars.len();
    match separator(&chars) {
        Some(i) => {
            let left = s.substring_char(0, i);
            let right = s.substring_char(i + 1, len);
            proof {
                assert(only_separator(s@, i as int));
                let k = choose|k: int| only_separator(s@, k);
                assert(k == i) by {
                    assert(separates(s@[k]));
                    assert(separates(s@[i as int]));
                }
                assert(left@ =~= s@.take(k));
                assert(right@ =~= s@.skip(k + 1));
            }
            let w = trim(left);
            let h = trim(right);
            (
                round_width(parse_size(w.as_str(), DEFAULT_TILE_W)),
                round_height(parse_size(h.as_str(), DEFAULT_TILE_H)),
            )
        },
        None => (DEFAULT_TILE_W, DEFAULT_TILE_H),
    }
}

/// How frames are quantized and cut up, as the environment says.
pub fn get_compression_mode(env: &GraphicsEnv) -> (r: CompressionMode)
    ensures
        r.mask == env.mask_wanted(),
        (r.tile_w as int, r.tile_h as int) == env.tile_wanted(),
        r.tile_w >= 8,
        r.tile_w % 4 == 0,
        r.tile_h >= 4,
{
    let color: Option<&String> = match &env.color {
        Some(s) => Some(s),
        None => match &env.bits {
            Some(s) => Some(s),
            None => match &env.mask {
                Some(s) => Some(s),
                None => None,
            },
        },
    };
    let mask: u8 = match color {
        Some(s) => {
            let clean = trim(s.as_str());
            let small = to_lowercase(clean.as_str());
            parse_mask(small.as_str())
        },
        None => DEFAULT_MASK,
    };
    let (tile_w, tile_h): (usize, usize) = match &env.tile {
        Some(s) => parse_tile(s.as_str()),
        None => {
            let w: usize = match &env.tile_w {
                Some(s) => parse_size(s.as_str(), DEFAULT_TILE_W),
                None => DEFAULT_TILE_W,
            };
            let h: usize = match &env.tile_h {
                Some(s) => parse_size(s.as_str(), DEFAULT_TILE_H),
                None => DEFAULT_TILE_H,
            };
            (round_width(w), round_height(h))
        },
    };
    CompressionMode { mask, tile_w, tile_h }
}

/// A number of bits keeps as many of every colour: the mask of `n` bits has its `n` highest bits set, and the
/// number may stand alone or with `bit` behind it.
pub proof fn lemma_bits_kept(n: int)
    requires
        3 <= n <= 8,
    ensures
        (256 - mask_named(decimal(n))) * pow2(n as nat) == 256,
        mask_named(decimal(n) + "bit"@) == mask_named(decimal(n)),
        mask_named("lossless"@) == 0xFF,
        mask_named("max"@) == 0xFF,
{
    reveal_strlit("4bit");
    reveal_strlit("4");
    reveal_strlit("5bit");
    reveal_strlit("5");
    reveal_strlit("6bit");
    reveal_strlit("6");
    reveal_strlit("7bit");
    reveal_strlit("7");
    reveal_strlit("8bit");
    reveal_strlit("8");
    reveal_strlit("3bit");
    reveal_strlit("3");
    reveal_strlit("bit");
    reveal_strlit("lossless");
    reveal_strlit("max");
    lemma2_to64();
    assert("4bit"@[0] == '4' && "5bit"@[0] == '5' && "6bit"@[0] == '6' && "7bit"@[0] == '7');
    assert("8bit"@[0] == '8' && "3bit"@[0] == '3' && "4"@[0] == '4' && "5"@[0] == '5' && "6"@[0] == '6');
    assert("7"@[0] == '7' && "8"@[0] == '8' && "3"@[0] == '3');
    assert("lossless"@.len() == 8 && "max"@.len() == 3 && "max"@[0] == 'm' && "lossless"@[0] == 'l');
    let s = decimal(n);
    assert(s.len() == 1 && s[0] as int == '0' as int + n);
    let t = s + "bit"@;
    assert(t.len() == 4 && t[0] == s[0] && t[1] == 'b' && t[2] == 'i' && t[3] == 't');
    if n == 3 {
        assert(s =~= "3"@ && t =~= "3bit"@);
        assert(mask_named(s) == 224 && pow2(3) == 8);
    } else if n == 4 {
        assert(s =~= "4"@ && t =~= "4bit"@);
        assert(mask_named(s) == 240 && pow2(4) == 16);
    } else if n == 5 {
        assert(s =~= "5"@ && t =~= "5bit"@);
        assert(mask_named(s) == 248 && pow2(5) == 32);
    } else if n == 6 {
        assert(s =~= "6"@ && t =~= "6bit"@);
        assert(mask_named(s) == 252 && pow2(6) == 64);
    } else if n == 7 {
        assert(s =~= "7"@ && t =~= "7bit"@);
        assert(mask_named(s) == 254 && pow2(7) == 128);
    } else {
        assert(s =~= "8"@ && t =~= "8bit"@);
        assert(mask_named(s) == 255 && pow2(8) == 256);
    }
}

/// A mask can be given itself, in its two digits to the base of sixteen behind `0x`.
pub proof fn lemma_mask_spelled(n: int)
    requires
        0 <= n <= 255,
    ensures
        mask_named(seq!['0', 'x', hex_digit(n / 16), hex_digit(n % 16)]) == n,
{
    let s = seq!['0', 'x', hex_digit(n / 16), hex_digit(n % 16)];
    lemma_hex_parses(n);
    assert(s.skip(2) =~= seq![hex_digit(n / 16), hex_digit(n % 16)]);
}

/// A tile is as large as the text says: two numbers with one of the separators between them are its width,
/// cut to a multiple of four, and its height, but it has at least eight columns and four rows.
pub proof fn lemma_tile_spelled(w: int, c: char, h: int)
    requires
        0 <= w <= usize::MAX,
        0 <= h <= usize::MAX,
        c == 'x' || c == 'X' || c == '*' || c == ',' || c == ' ',
    ensures
        ({
            let (width, height) = tile_named(decimal(w) + seq![c] + decimal(h));
            &&& width % 4 == 0
            &&& width >= 8
            &&& w >= 8 ==> w - 4 < width <= w
            &&& w < 8 ==> width == 8
            &&& height == if h < 4 {
                4
            } else {
                h
            }
        }),
{
    let a = decimal(w);
    let b = decimal(h);
    let s = a + seq![c] + b;
    let i = a.len() as int;
    lemma_decimal_parses(w, usize::MAX as int);
    lemma_decimal_parses(h, usize::MAX as int);
    assert forall|k: int| 0 <= k < s.len() && k != i implies '0' as int <= #[trigger] s[k] as int
        <= '9' as int by {
        if k < i {
            lemma_decimal_only_digits(w, k);
        } else {
            lemma_decimal_only_digits(h, k - i - 1);
        }
    }
    assert(s[i] == c);
    assert(only_separator(s, i));
    let k = choose|k: int| only_separator(s, k);
    assert(k == i) by {
        assert(separates(s[k]));
        assert(separates(s[i]));
    }
    assert(s.take(i) =~= a);
    assert(s.skip(i + 1) =~= b);
    assert(a.len() > 0 && b.len() > 0);
    assert(a[0] == s[0] && a.last() == s[i - 1]);
    assert(b[0] == s[i + 1] && b.last() == s[s.len() - 1]);
    lemma_nothing_to_trim(a);
    lemma_nothing_to_trim(b);
}

/// What is said of the colours counts in the order `RDP_COLOR`, `RDP_BITS`, `RDP_MASK`, whatever its case and
/// the white space around it; without any of them every colour is kept.
pub proof fn lemma_colors_named(env: GraphicsEnv, other: GraphicsEnv)
    ensures
        env.color is None && env.bits is None && env.mask is None ==> env.mask_wanted() == 0xFF,
        env.color is Some && other.color is Some && lowered(trimmed(env.color->0@)) == lowered(
            trimmed(other.color->0@),
        ) ==> env.mask_wanted() == other.mask_wanted(),
        env.color is None && env.bits is Some && other.color is Some && other.color->0@
            == env.bits->0@ ==> env.mask_wanted() == other.mask_wanted(),
        env.color is None && env.bits is None && env.mask is Some && other.color is Some
            && other.color->0@ == env.mask->0@ ==> env.mask_wanted() == other.mask_wanted(),
{
}

} // verus!
