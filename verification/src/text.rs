//! Text as the command line, the environment and clients give it.

use vstd::prelude::*;

verus! {

/// The characters of a text.
pub fn chars_of(s: &str) -> (r: Vec<char>)
    ensures
        r@ == s@,
{
    let mut out: Vec<char> = Vec::new();
    for c in iter: s.chars()
        invariant
            out@ == s@.take(iter.index() as int),
            iter.seq() == s@,
    {
        out.push(c);
        assert(s@.take(iter.index() + 1) =~= s@.take(iter.index() as int).push(c));
    }
    assert(out@ =~= s@);
    out
}

/// Whether two texts are the same.
pub fn same(a: &str, b: &str) -> (r: bool)
    ensures
        r == (a@ == b@),
{
    a.to_owned() == b.to_owned()
}

/// Whether a character is white space in the sense of Unicode.
pub open spec fn white(c: char) -> bool {
    let n = c as u32;
    ||| 0x09 <= n <= 0x0D
    ||| n == 0x20
    ||| n == 0x85
    ||| n == 0xA0
    ||| n == 0x1680
    ||| 0x2000 <= n <= 0x200A
    ||| n == 0x2028
    ||| n == 0x2029
    ||| n == 0x202F
    ||| n == 0x205F
    ||| n == 0x3000
}

/// Whether a character is white space in the sense of Unicode.
pub fn is_white(c: char) -> (r: bool)
    ensures
        r == white(c),
{
    let n: u32 = c as u32;
    (0x09 <= n && n <= 0x0D) || n == 0x20 || n == 0x85 || n == 0xA0 || n == 0x1680 || (0x2000 <= n && n
        <= 0x200A) || n == 0x2028 || n == 0x2029 || n == 0x202F || n == 0x205F || n == 0x3000
}

/// The text from its first character on that is not white space.
pub open spec fn without_leading(s: Seq<char>) -> Seq<char>
    decreases s.len(),
{
    if s.len() > 0 && white(s[0]) {
        without_leading(s.skip(1))
    } else {
        s
    }
}

/// The text up to its last character that is not white space.
pub open spec fn without_trailing(s: Seq<char>) -> Seq<char>
    decreases s.len(),
{
    if s.len() > 0 && white(s.last()) {
        without_trailing(s.drop_last())
    } else {
        s
    }
}

/// The text without the white space around it.
pub open spec fn trimmed(s: Seq<char>) -> Seq<char> {
    without_trailing(without_leading(s))
}

proof fn lemma_without_leading(s: Seq<char>)
    ensures
        without_leading(s).len() > 0 ==> !white(without_leading(s)[0]),
    decreases s.len(),
{
    if s.len() > 0 && white(s[0]) {
        lemma_without_leading(s.skip(1));
    }
}

proof fn lemma_without_trailing(s: Seq<char>)
    ensures
        without_trailing(s).len() > 0 ==> !white(without_trailing(s).last()) && without_trailing(s)[0]
            == s[0],
        without_trailing(s).len() <= s.len(),
    decreases s.len(),
{
    if s.len() > 0 && white(s.last()) {
        lemma_without_trailing(s.drop_last());
    }
}

/// Text that has been trimmed has nothing more to trim.
pub proof fn lemma_trimmed_twice(s: Seq<char>)
    ensures
        trimmed(trimmed(s)) == trimmed(s),
{
    let front = without_leading(s);
    lemma_without_leading(s);
    lemma_without_trailing(front);
}

/// The text without the white space around it.
pub fn trim(s: &str) -> (r: String)
    ensures
        r@ == trimmed(s@),
{
    let chars = chars_of(s);
    let mut from: usize = 0;
    let mut to: usize = chars.len();
    assert(chars@.subrange(0, to as int) =~= chars@);
    while from < to && is_white(chars[from])
        invariant
            from <= to <= chars@.len(),
            to == chars@.len(),
            without_leading(chars@.subrange(from as int, to as int)) == without_leading(chars@),
        decreases to - from,
    {
        let ghost rest = chars@.subrange(from as int, to as int);
        assert(rest.skip(1) =~= chars@.subrange(from + 1, to as int));
        assert(rest[0] == chars@[from as int]);
        from = from + 1;
    }
    let ghost rest = chars@.subrange(from as int, to as int);
    assert(without_leading(chars@) == rest) by {
        if from < to {
            assert(rest[0] == chars@[from as int]);
        }
    }
    while from < to && is_white(chars[to - 1])
        invariant
            from <= to <= chars@.len(),
            without_trailing(chars@.subrange(from as int, to as int)) == without_trailing(rest),
        decreases to - from,
    {
        let ghost part = chars@.subrange(from as int, to as int);
        assert(part.drop_last() =~= chars@.subrange(from as int, to - 1));
        assert(part.last() == chars@[to - 1]);
        to = to - 1;
    }
    proof {
        let part = chars@.subrange(from as int, to as int);
        if from < to {
            assert(part.last() == chars@[to - 1]);
        }
    }
    s.substring_char(from, to).to_owned()
}

/// The small letter of a capital one in ASCII; any other character as it is.
pub open spec fn lower(c: char) -> char {
    if 'A' <= c && c <= 'Z' {
        ((c as u8) + 32) as char
    } else {
        c
    }
}

/// The text with the capital letters of ASCII made small.
pub open spec fn lowered(s: Seq<char>) -> Seq<char> {
    Seq::new(s.len(), |i: int| lower(s[i]))
}

/// The small letter of a capital one in ASCII.
pub fn to_lower(c: char) -> (r: char)
    ensures
        r == lower(c),
{
    if 'A' <= c && c <= 'Z' {
        ((c as u8) + 32) as char
    } else {
        c
    }
}

/// The text with the capital letters of ASCII made small.
pub fn to_lowercase(s: &str) -> (r: String)
    ensures
        r@ == lowered(s@),
{
    let chars = chars_of(s);
    let letters = "abcdefghijklmnopqrstuvwxyz";
    proof {
        reveal_strlit("abcdefghijklmnopqrstuvwxyz");
    }
    let mut out = String::new();
    let mut i: usize = 0;
    while i < chars.len()
        invariant
            i <= chars@.len(),
            chars@ == s@,
            letters@.len() == 26,
            forall|k: int| 0 <= k < 26 ==> #[trigger] letters@[k] as int == 'a' as int + k,
            out@ == lowered(s@.take(i as int)),
        decreases chars@.len() - i,
    {
        let c = chars[i];
        if 'A' <= c && c <= 'Z' {
            let at: usize = (c as u32 - 'A' as u32) as usize;
            let small = letters.substring_char(at, at + 1);
            assert(small@ =~= seq![lower(c)]);
            out.append(small);
        } else {
            let one = s.substring_char(i, i + 1);
            assert(one@ =~= seq![lower(c)]);
            out.append(one);
        }
        assert(out@ =~= lowered(s@.take(i + 1)));
        i = i + 1;
    }
    assert(s@.take(i as int) =~= s@);
    out
}

/// Whether two texts are the same but for the case of letters of ASCII.
pub fn same_ignoring_case(a: &str, b: &str) -> (r: bool)
    ensures
        r == (lowered(a@) == lowered(b@)),
{
    let left = chars_of(a);
    let right = chars_of(b);
    if left.len() != right.len() {
        assert(lowered(a@).len() != lowered(b@).len());
        return false;
    }
    let mut i: usize = 0;
    while i < left.len()
        invariant
            i <= left@.len(),
            left@ == a@,
            right@ == b@,
            left@.len() == right@.len(),
            forall|k: int| 0 <= k < i ==> lower(#[trigger] left@[k]) == lower(right@[k]),
        decreases left@.len() - i,
    {
        if to_lower(left[i]) != to_lower(right[i]) {
            assert(lowered(a@)[i as int] != lowered(b@)[i as int]);
            return false;
        }
        i = i + 1;
    }
    assert(lowered(a@) =~= lowered(b@));
    true
}

/// Where a character stands first.
pub open spec fn find(s: Seq<char>, c: char) -> Option<int>
    decreases s.len(),
{
    if s.len() == 0 {
        None
    } else if s[0] == c {
        Some(0)
    } else {
        match find(s.skip(1), c) {
            Some(i) => Some(i + 1),
            None => None,
        }
    }
}

/// The texts before and after the first place where the character stands.
pub open spec fn split_at_first(s: Seq<char>, c: char) -> Option<(Seq<char>, Seq<char>)> {
    match find(s, c) {
        Some(i) => Some((s.take(i), s.skip(i + 1))),
        None => None,
    }
}

/// The texts before and after the first place where the character stands.
pub fn split_once(s: &str, c: char) -> (r: Option<(String, String)>)
    ensures
        match r {
            Some((before, after)) => split_at_first(s@, c) == Some((before@, after@)),
            None => split_at_first(s@, c) is None,
        },
{
    let chars = chars_of(s);
    let len: usize = chars.len();
    let mut i: usize = 0;
    assert(chars@.skip(0) =~= chars@);
    while i < len && chars[i] != c
        invariant
            i <= len,
            len == chars@.len(),
            chars@ == s@,
            match find(chars@.skip(i as int), c) {
                Some(k) => find(s@, c) == Some(k + i),
                None => find(s@, c) is None,
            },
        decreases len - i,
    {
        assert(chars@.skip(i as int).skip(1) =~= chars@.skip(i + 1));
        assert(chars@.skip(i as int)[0] == chars@[i as int]);
        i = i + 1;
    }
    if i == len {
        assert(chars@.skip(i as int).len() == 0);
        return None;
    }
    assert(chars@.skip(i as int)[0] == c);
    assert(find(s@, c) == Some(i as int));
    let before = s.substring_char(0, i).to_owned();
    let after = s.substring_char(i + 1, len).to_owned();
    assert(before@ =~= s@.take(i as int));
    assert(after@ =~= s@.skip(i + 1));
    Some((before, after))
}

/// What a character is worth as a digit to a base of up to sixteen.
pub open spec fn digit(c: char, radix: int) -> Option<int> {
    let n = c as int;
    let value: int = if '0' as int <= n <= '9' as int {
        n - '0' as int
    } else if 'a' as int <= n <= 'f' as int {
        n - 'a' as int + 10
    } else if 'A' as int <= n <= 'F' as int {
        n - 'A' as int + 10
    } else {
        16
    };
    if value < radix {
        Some(value)
    } else {
        None
    }
}

/// The number that digits spell.
pub open spec fn digits(s: Seq<char>, radix: int) -> Option<int>
    decreases s.len(),
{
    if s.len() == 0 {
        Some(0)
    } else {
        match (digits(s.drop_last(), radix), digit(s.last(), radix)) {
            (Some(high), Some(low)) => Some(high * radix + low),
            _ => None,
        }
    }
}

/// The number that a text spells: digits, of which there is at least one, after a plus sign or none.
pub open spec fn number(s: Seq<char>, radix: int) -> Option<int> {
    let body = if s.len() > 0 && s[0] == '+' {
        s.skip(1)
    } else {
        s
    };
    if body.len() == 0 {
        None
    } else {
        digits(body, radix)
    }
}

/// The number that a text spells, if it is no greater than `max`.
pub open spec fn parsed(s: Seq<char>, radix: int, max: int) -> Option<int> {
    match number(s, radix) {
        Some(n) if n <= max => Some(n),
        _ => None,
    }
}

/// What a character is worth as a digit.
fn digit_of(c: char, radix: u32) -> (r: Option<u32>)
    requires
        2 <= radix <= 16,
    ensures
        match r {
            Some(v) => digit(c, radix as int) == Some(v as int) && v < radix,
            None => digit(c, radix as int) is None,
        },
{
    let n: u32 = c as u32;
    let value: u32 = if '0' as u32 <= n && n <= '9' as u32 {
        n - '0' as u32
    } else if 'a' as u32 <= n && n <= 'f' as u32 {
        n - 'a' as u32 + 10
    } else if 'A' as u32 <= n && n <= 'F' as u32 {
        n - 'A' as u32 + 10
    } else {
        16
    };
    if value < radix {
        Some(value)
    } else {
        None
    }
}

proof fn lemma_digits_grow(s: Seq<char>, radix: int, i: int)
    requires
        2 <= radix,
        0 <= i <= s.len(),
        digits(s, radix) is Some,
    ensures
        digits(s.take(i), radix) is Some,
        0 <= digits(s.take(i), radix)->0 <= digits(s, radix)->0,
    decreases s.len(),
{
    if i == s.len() {
        assert(s.take(i) =~= s);
        if s.len() > 0 {
            lemma_digits_grow(s.drop_last(), radix, s.len() - 1);
            assert(s.drop_last().take(s.len() - 1) =~= s.drop_last());
            let high = digits(s.drop_last(), radix)->0;
            assert(high * radix >= 0) by (nonlinear_arith)
                requires
                    high >= 0,
                    radix >= 2,
            ;
        }
    } else {
        lemma_digits_grow(s.drop_last(), radix, i);
        assert(s.drop_last().take(i) =~= s.take(i));
        lemma_digits_grow(s.drop_last(), radix, s.len() - 1);
        assert(s.drop_last().take(s.len() - 1) =~= s.drop_last());
        let high = digits(s.drop_last(), radix)->0;
        assert(high * radix >= high) by (nonlinear_arith)
            requires
                high >= 0,
                radix >= 2,
        ;
    }
}

/// The number that a text spells to the given base, if it is no greater than `max`.
pub fn parse(s: &str, radix: u32, max: u64) -> (r: Option<u64>)
    requires
        2 <= radix <= 16,
    ensures
        match r {
            Some(n) => parsed(s@, radix as int, max as int) == Some(n as int),
            None => parsed(s@, radix as int, max as int) is None,
        },
{
    let chars = chars_of(s);
    let len: usize = chars.len();
    let start: usize = if len > 0 && chars[0] == '+' {
        1
    } else {
        0
    };
    let ghost body = chars@.skip(start as int);
    assert(start == 0 ==> body =~= chars@);
    if start == len {
        return None;
    }
    let mut value: u64 = 0;
    let mut i: usize = start;
    assert(body.take(0) =~= Seq::empty());
    while i < len
        invariant
            start <= i <= len,
            start < len,
            len == chars@.len(),
            chars@ == s@,
            body == chars@.skip(start as int),
            body == if s@.len() > 0 && s@[0] == '+' {
                s@.skip(1)
            } else {
                s@
            },
            2 <= radix <= 16,
            value <= max,
            digits(body.take(i - start), radix as int) == Some(value as int),
        decreases len - i,
    {
        let ghost next = body.take(i - start + 1);
        proof {
            assert(next.drop_last() =~= body.take(i - start));
            assert(next.last() == chars@[i as int]);
        }
        match digit_of(chars[i], radix) {
            None => {
                proof {
                    if digits(body, radix as int) is Some {
                        lemma_digits_grow(body, radix as int, i - start + 1);
                    }
                }
                return None;
            },
            Some(d) => {
                assert(0 <= value * radix <= 16 * u64::MAX) by (nonlinear_arith)
                    requires
                        0 <= value <= u64::MAX,
                        0 <= radix <= 16,
                ;
                let wide: u128 = value as u128 * radix as u128 + d as u128;
                if wide > max as u128 {
                    proof {
                        if digits(body, radix as int) is Some {
                            lemma_digits_grow(body, radix as int, i - start + 1);
                        }
                    }
                    return None;
                }
                value = wide as u64;
            },
        }
        i = i + 1;
    }
    assert(body.take(len - start) =~= body);
    Some(value)
}

/// The digit that stands for a value below ten.
pub open spec fn decimal_digit(v: int) -> char {
    ('0' as u8 + v) as u8 as char
}

/// The decimal digits of a number.
pub open spec fn decimal(n: int) -> Seq<char>
    decreases n,
{
    if n < 10 {
        seq![decimal_digit(n)]
    } else {
        decimal(n / 10).push(decimal_digit(n % 10))
    }
}

/// A number is what its decimal digits spell.
pub proof fn lemma_decimal_parses(n: int, max: int)
    requires
        0 <= n <= max,
    ensures
        parsed(decimal(n), 10, max) == Some(n),
{
    lemma_decimal_digits(n);
    let s = decimal(n);
    assert(s[0] != '+');
}

proof fn lemma_decimal_digits(n: int)
    requires
        0 <= n,
    ensures
        digits(decimal(n), 10) == Some(n),
        decimal(n).len() > 0,
        decimal(n)[0] != '+',
    decreases n,
{
    let s = decimal(n);
    if n < 10 {
        assert(s.drop_last() =~= Seq::empty());
        assert(digits(s.drop_last(), 10) == Some(0int));
    } else {
        lemma_decimal_digits(n / 10);
        assert(s.drop_last() =~= decimal(n / 10));
    }
}

/// The decimal digits of a number.
pub fn to_decimal(n: u64) -> (r: String)
    ensures
        r@ == decimal(n as int),
    decreases n,
{
    proof {
        reveal_strlit("0123456789");
    }
    let last: usize = (n % 10) as usize;
    let tail = "0123456789".substring_char(last, last + 1);
    assert(tail@ =~= seq![decimal_digit(n as int % 10)]);
    if n < 10 {
        tail.to_owned()
    } else {
        let mut out = to_decimal(n / 10);
        out.append(tail);
        assert(out@ =~= decimal(n as int));
        out
    }
}

/// Whether two characters are the same but for the case of a letter of ASCII.
pub open spec fn alike(a: char, b: char) -> bool {
    ||| a == b
    ||| 'A' <= a && a <= 'Z' && b as int == a as int + 32
    ||| 'A' <= b && b <= 'Z' && a as int == b as int + 32
}

/// Texts with their capital letters made small are the same exactly where the texts are but for case.
pub proof fn lemma_lowered_alike(a: Seq<char>, b: Seq<char>)
    ensures
        lowered(a) == lowered(b) <==> a.len() == b.len() && forall|i: int|
            0 <= i < a.len() ==> alike(#[trigger] a[i], b[i]),
        lowered(lowered(a)) == lowered(a),
{
    assert forall|c: char, d: char| lower(c) == lower(d) <==> alike(c, d) by {
        lemma_lower_alike(c, d);
    }
    if lowered(a) == lowered(b) {
        assert(lowered(a).len() == lowered(b).len());
        assert forall|i: int| 0 <= i < a.len() implies alike(#[trigger] a[i], b[i]) by {
            assert(lowered(a)[i] == lowered(b)[i]);
            lemma_lower_alike(a[i], b[i]);
        }
    }
    if a.len() == b.len() && forall|i: int| 0 <= i < a.len() ==> alike(#[trigger] a[i], b[i]) {
        assert forall|i: int| 0 <= i < a.len() implies lowered(a)[i] == lowered(b)[i] by {
            lemma_lower_alike(a[i], b[i]);
        }
        assert(lowered(a) =~= lowered(b));
    }
    assert forall|i: int| 0 <= i < a.len() implies lowered(lowered(a))[i] == lowered(a)[i] by {
        lemma_lower_alike(a[i], a[i]);
    }
    assert(lowered(lowered(a)) =~= lowered(a));
}

proof fn lemma_lower_alike(c: char, d: char)
    ensures
        lower(c) == lower(d) <==> alike(c, d),
        lower(lower(c)) == lower(c),
{
    if 'A' <= c && c <= 'Z' {
        assert(lower(c) as int == c as int + 32);
    }
    if 'A' <= d && d <= 'Z' {
        assert(lower(d) as int == d as int + 32);
    }
}

proof fn lemma_find_at(s: Seq<char>, c: char, i: int)
    requires
        0 <= i < s.len(),
        s[i] == c,
        forall|k: int| 0 <= k < i ==> s[k] != c,
    ensures
        find(s, c) == Some(i),
    decreases i,
{
    if i > 0 {
        lemma_find_at(s.skip(1), c, i - 1);
    }
}

proof fn lemma_find_nowhere(s: Seq<char>, c: char)
    requires
        !s.contains(c),
    ensures
        find(s, c) is None,
    decreases s.len(),
{
    if s.len() > 0 {
        assert(s[0] != c);
        assert forall|k: int| 0 <= k < s.skip(1).len() implies s.skip(1)[k] != c by {
            assert(s[k + 1] != c);
        }
        lemma_find_nowhere(s.skip(1), c);
    }
}

/// A text is split at the first place where the character stands: what stands before it and after it is
/// given back, and a text without the character is not split.
pub proof fn lemma_split_back(before: Seq<char>, after: Seq<char>, c: char)
    requires
        !before.contains(c),
    ensures
        split_at_first(before + seq![c] + after, c) == Some((before, after)),
        split_at_first(before, c) is None,
{
    let whole = before + seq![c] + after;
    assert forall|k: int| 0 <= k < before.len() implies whole[k] != c by {
        assert(before.contains(before[k]));
    }
    lemma_find_at(whole, c, before.len() as int);
    assert(whole.take(before.len() as int) =~= before);
    assert(whole.skip(before.len() as int + 1) =~= after);
    lemma_find_nowhere(before, c);
}

/// Whether the text is nothing but white space.
pub open spec fn blank(s: Seq<char>) -> bool {
    forall|i: int| 0 <= i < s.len() ==> white(#[trigger] s[i])
}

proof fn lemma_leading_blank(s: Seq<char>) -> (n: int)
    ensures
        0 <= n <= s.len(),
        without_leading(s) == s.skip(n),
        blank(s.take(n)),
    decreases s.len(),
{
    if s.len() > 0 && white(s[0]) {
        let n = lemma_leading_blank(s.skip(1)) + 1;
        assert(s.skip(1).skip(n - 1) =~= s.skip(n));
        assert forall|i: int| 0 <= i < n implies white(#[trigger] s.take(n)[i]) by {
            if i > 0 {
                assert(s.skip(1).take(n - 1)[i - 1] == s.take(n)[i]);
            }
        }
        n
    } else {
        assert(s.skip(0) =~= s);
        0
    }
}

proof fn lemma_trailing_blank(s: Seq<char>) -> (n: int)
    ensures
        0 <= n <= s.len(),
        without_trailing(s) == s.take(n),
        blank(s.skip(n)),
    decreases s.len(),
{
    if s.len() > 0 && white(s.last()) {
        let n = lemma_trailing_blank(s.drop_last());
        assert(s.drop_last().take(n) =~= s.take(n));
        assert forall|i: int| 0 <= i < s.skip(n).len() implies white(#[trigger] s.skip(n)[i]) by {
            if n + i < s.len() - 1 {
                assert(s.drop_last().skip(n)[i] == s.skip(n)[i]);
            }
        }
        n
    } else {
        assert(s.take(s.len() as int) =~= s);
        s.len() as int
    }
}

/// Trimming takes white space off both ends and nothing else: the text is what was trimmed with nothing
/// but white space around it, and that neither starts nor ends with any.
pub proof fn lemma_trimmed_between(s: Seq<char>) -> (r: (Seq<char>, Seq<char>))
    ensures
        s == r.0 + trimmed(s) + r.1,
        blank(r.0),
        blank(r.1),
        trimmed(s).len() > 0 ==> !white(trimmed(s)[0]) && !white(trimmed(s).last()),
{
    let front = without_leading(s);
    let a = lemma_leading_blank(s);
    let b = lemma_trailing_blank(front);
    lemma_without_leading(s);
    lemma_without_trailing(front);
    assert(s =~= s.take(a) + front.take(b) + front.skip(b));
    (s.take(a), front.skip(b))
}

/// A number is written in digits and nothing else, of which there is at least one.
pub proof fn lemma_decimal_only_digits(n: int, i: int)
    requires
        0 <= n,
        0 <= i < decimal(n).len(),
    ensures
        '0' as int <= decimal(n)[i] as int <= '9' as int,
    decreases n,
{
    if n >= 10 && i < decimal(n).len() - 1 {
        lemma_decimal_only_digits(n / 10, i);
    }
}

/// Text that neither starts nor ends with white space has nothing to trim.
pub proof fn lemma_nothing_to_trim(s: Seq<char>)
    requires
        s.len() > 0 ==> !white(s[0]) && !white(s.last()),
    ensures
        trimmed(s) == s,
{
}

/// White space around a text that neither starts nor ends with any is what trimming takes off it.
pub proof fn lemma_trimmed_off(before: Seq<char>, s: Seq<char>, after: Seq<char>)
    requires
        blank(before),
        blank(after),
        s.len() > 0,
        !white(s[0]),
        !white(s.last()),
    ensures
        trimmed(before + s + after) == s,
    decreases before.len() + after.len(),
{
    let whole = before + s + after;
    if before.len() > 0 {
        assert(before[0] == whole[0]);
        assert(blank(before.skip(1))) by {
            assert forall|i: int| 0 <= i < before.skip(1).len() implies white(
                #[trigger] before.skip(1)[i],
            ) by {
                assert(before[i + 1] == before.skip(1)[i]);
            }
        }
        lemma_trimmed_off(before.skip(1), s, after);
        assert(whole.skip(1) =~= before.skip(1) + s + after);
    } else if after.len() > 0 {
        assert(after.last() == whole.last());
        assert(blank(after.drop_last())) by {
            assert forall|i: int| 0 <= i < after.drop_last().len() implies white(
                #[trigger] after.drop_last()[i],
            ) by {
                assert(after[i] == after.drop_last()[i]);
            }
        }
        lemma_trimmed_off(before, s, after.drop_last());
        assert(whole.drop_last() =~= before + s + after.drop_last());
        assert(whole[0] == s[0]);
        assert(without_leading(whole) == whole);
        assert(without_leading(whole.drop_last()) == whole.drop_last()) by {
            assert(whole.drop_last()[0] == s[0]);
        }
    } else {
        assert(whole =~= s);
        lemma_nothing_to_trim(s);
    }
}

/// The digit to the base of sixteen that stands for a value, in small letters.
pub open spec fn hex_digit(v: int) -> char {
    if v < 10 {
        ('0' as u8 + v) as u8 as char
    } else {
        ('a' as u8 + (v - 10)) as u8 as char
    }
}

/// A byte is what its two digits to the base of sixteen spell.
pub proof fn lemma_hex_parses(n: int)
    requires
        0 <= n <= 255,
    ensures
        parsed(seq![hex_digit(n / 16), hex_digit(n % 16)], 16, 255) == Some(n),
{
    let s = seq![hex_digit(n / 16), hex_digit(n % 16)];
    reveal_with_fuel(digits, 3);
    assert(s.drop_last() =~= seq![hex_digit(n / 16)]);
    assert(s.drop_last().drop_last() =~= Seq::empty());
    assert(digit(hex_digit(n / 16), 16) == Some(n / 16));
    assert(digit(hex_digit(n % 16), 16) == Some(n % 16));
    assert(s[0] != '+');
}

} // verus!
