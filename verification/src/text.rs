//! Text as sequences of characters: trimming, splitting, replacing, hex.
use vstd::prelude::*;
use vstd::string::*;
use vstd::utf8::*;

verus! {

/// `String::push` appends the given character to the end of the string.
pub assume_specification[ String::push ](s: &mut String, c: char)
    ensures
        final(s)@ == old(s)@.push(c),
;

/// The characters of Unicode's `White_Space` property.
pub open spec fn white_space(c: char) -> bool {
    ||| '\u{9}' <= c <= '\u{d}'
    ||| c == ' '
    ||| c == '\u{85}'
    ||| c == '\u{a0}'
    ||| c == '\u{1680}'
    ||| '\u{2000}' <= c <= '\u{200a}'
    ||| c == '\u{2028}'
    ||| c == '\u{2029}'
    ||| c == '\u{202f}'
    ||| c == '\u{205f}'
    ||| c == '\u{3000}'
}

/// Whether a character is white space.
pub fn is_white_space(c: char) -> (r: bool)
    ensures
        r == white_space(c),
{
    ('\u{9}' <= c && c <= '\u{d}') || c == ' ' || c == '\u{85}' || c == '\u{a0}' || c == '\u{1680}'
        || ('\u{2000}' <= c && c <= '\u{200a}') || c == '\u{2028}' || c == '\u{2029}' || c
        == '\u{202f}' || c == '\u{205f}' || c == '\u{3000}'
}

/// `s` without the white space it begins with.
pub open spec fn trimmed_start(s: Seq<char>) -> Seq<char>
    decreases s.len(),
{
    if s.len() > 0 && white_space(s.first()) {
        trimmed_start(s.drop_first())
    } else {
        s
    }
}

/// `s` without the white space it ends with.
pub open spec fn trimmed_end(s: Seq<char>) -> Seq<char>
    decreases s.len(),
{
    if s.len() > 0 && white_space(s.last()) {
        trimmed_end(s.drop_last())
    } else {
        s
    }
}

/// `s` without the white space at either end.
pub open spec fn trimmed(s: Seq<char>) -> Seq<char> {
    trimmed_end(trimmed_start(s))
}

/// The characters of a string.
pub fn chars_of(s: &str) -> (r: Vec<char>)
    ensures
        r@ == s@,
{
    let mut r: Vec<char> = Vec::new();
    for c in it: s.chars()
        invariant
            r@ == it.seq().take(it.index()),
            it.seq() == s@,
    {
        r.push(c);
    }
    r
}

/// The string that holds the given characters.
pub fn string_of(cs: &[char]) -> (r: String)
    ensures
        r@ == cs@,
{
    let mut r = String::new();
    for i in 0..cs.len()
        invariant
            r@ == cs@.take(i as int),
    {
        r.push(cs[i]);
    }
    r
}

/// Where the characters begin and end once the white space at either end is gone.
pub fn trim_bounds(cs: &[char]) -> (r: (usize, usize))
    ensures
        r.0 <= r.1 <= cs.len(),
        cs@.subrange(r.0 as int, r.1 as int) == trimmed(cs@),
{
    let n = cs.len();
    let mut i: usize = 0;
    assert(cs@.skip(0) == cs@);
    while i < n && is_white_space(cs[i])
        invariant
            0 <= i <= n,
            n == cs.len(),
            trimmed_start(cs@) == trimmed_start(cs@.skip(i as int)),
        decreases n - i,
    {
        assert(cs@.skip(i as int).drop_first() == cs@.skip(i + 1));
        i = i + 1;
    }
    let ghost rest = cs@.skip(i as int);
    assert(trimmed_start(cs@) == rest);
    let mut j: usize = n;
    assert(cs@.subrange(i as int, n as int) == rest);
    while j > i && is_white_space(cs[j - 1])
        invariant
            0 <= i <= j <= n,
            n == cs.len(),
            trimmed_end(rest) == trimmed_end(cs@.subrange(i as int, j as int)),
        decreases j,
    {
        assert(cs@.subrange(i as int, j as int).drop_last() == cs@.subrange(i as int, j - 1));
        j = j - 1;
    }
    (i, j)
}

/// The string without the white space at either end.
pub fn trim<'a>(s: &'a str) -> (r: &'a str)
    ensures
        r@ == trimmed(s@),
{
    let cs = chars_of(s);
    let (i, j) = trim_bounds(cs.as_slice());
    s.substring_char(i, j)
}

/// Nothing is trimmed of a text that neither begins nor ends with white space.
pub proof fn lemma_trimmed_fixed(s: Seq<char>)
    ensures
        trimmed(s) == s <==> (s.len() == 0 || (!white_space(s.first()) && !white_space(s.last()))),
        trimmed(trimmed(s)) == trimmed(s),
{
    lemma_trimmed_start(s);
    lemma_trimmed_end(trimmed_start(s));
    let t = trimmed(s);
    lemma_trimmed_start(t);
    lemma_trimmed_end(t);
    if s.len() > 0 {
        assert(trimmed_start(s).len() > 0 ==> trimmed_start(s).last() == s.last());
    }
    if t.len() > 0 {
        assert(t.first() == trimmed_start(s).first());
    }
}

proof fn lemma_trimmed_start(s: Seq<char>)
    ensures
        trimmed_start(s).len() <= s.len(),
        trimmed_start(s) == s.skip(s.len() - trimmed_start(s).len()),
        trimmed_start(s).len() > 0 ==> !white_space(trimmed_start(s).first()),
    decreases s.len(),
{
    if s.len() > 0 && white_space(s.first()) {
        lemma_trimmed_start(s.drop_first());
        assert(trimmed_start(s) =~= s.skip(s.len() - trimmed_start(s).len()));
    } else {
        assert(s.skip(0) =~= s);
    }
}

proof fn lemma_trimmed_end(s: Seq<char>)
    ensures
        trimmed_end(s).len() <= s.len(),
        trimmed_end(s) == s.take(trimmed_end(s).len() as int),
        trimmed_end(s).len() > 0 ==> !white_space(trimmed_end(s).last()),
    decreases s.len(),
{
    if s.len() > 0 && white_space(s.last()) {
        lemma_trimmed_end(s.drop_last());
        assert(trimmed_end(s) =~= s.take(trimmed_end(s).len() as int));
    } else {
        assert(s.take(s.len() as int) =~= s);
    }
}

/// An ASCII capital made small; any other character as it is.
pub open spec fn ascii_lower(c: char) -> char {
    if 'A' <= c <= 'Z' {
        (c as u8 + 32) as char
    } else {
        c
    }
}

/// `s` with its ASCII capitals made small.
pub open spec fn ascii_lowered(s: Seq<char>) -> Seq<char> {
    s.map_values(|c: char| ascii_lower(c))
}

/// The characters with the ASCII capitals among them made small.
pub fn to_ascii_lower(cs: &[char]) -> (r: Vec<char>)
    ensures
        r@ == ascii_lowered(cs@),
{
    let mut r: Vec<char> = Vec::new();
    for i in 0..cs.len()
        invariant
            r@ == ascii_lowered(cs@).take(i as int),
    {
        let c = cs[i];
        if 'A' <= c && c <= 'Z' {
            r.push((c as u8 + 32) as char);
        } else {
            r.push(c);
        }
    }
    r
}

/// Whether the characters are those of the given text.
pub fn is_text(cs: &[char], text: &str) -> (r: bool)
    ensures
        r == (cs@ == text@),
{
    let other = chars_of(text);
    if cs.len() != other.len() {
        return false;
    }
    for i in 0..cs.len()
        invariant
            cs.len() == other.len(),
            other@ == text@,
            forall|k: int| 0 <= k < i ==> cs@[k] == other@[k],
    {
        if cs[i] != other[i] {
            return false;
        }
    }
    assert(cs@ =~= text@);
    true
}

/// `part` stands in `s` from position `at` on.
pub open spec fn occurs_at(s: Seq<char>, part: Seq<char>, at: int) -> bool {
    &&& 0 <= at
    &&& at + part.len() <= s.len()
    &&& s.subrange(at, at + part.len()) == part
}

/// `part` stands somewhere in `s`.
pub open spec fn contains_text(s: Seq<char>, part: Seq<char>) -> bool {
    exists|at: int| occurs_at(s, part, at)
}

/// Whether `part` stands in `s` from position `at` on.
pub fn is_at(s: &[char], part: &[char], at: usize) -> (r: bool)
    ensures
        r == occurs_at(s@, part@, at as int),
{
    if part.len() > s.len() || at > s.len() - part.len() {
        return false;
    }
    let ghost window = s@.subrange(at as int, at + part@.len());
    for k in 0..part.len()
        invariant
            at + part.len() <= s.len(),
            window == s@.subrange(at as int, at + part@.len()),
            forall|m: int| 0 <= m < k ==> window[m] == part@[m],
    {
        if s[at + k] != part[k] {
            assert(window[k as int] != part@[k as int]);
            return false;
        }
        assert(window[k as int] == part@[k as int]);
    }
    assert(window =~= part@);
    true
}

/// Whether `part` stands somewhere in `s`.
pub fn has_text(s: &[char], part: &[char]) -> (r: bool)
    ensures
        r == contains_text(s@, part@),
{
    let mut at: usize = 0;
    if part.len() > s.len() {
        return false;
    }
    let last: usize = s.len() - part.len();
    loop
        invariant
            last == s.len() - part.len(),
            at <= last,
            forall|k: int| 0 <= k < at ==> !occurs_at(s@, part@, k),
        decreases last - at,
    {
        if is_at(s, part, at) {
            return true;
        }
        if at == last {
            return false;
        }
        at = at + 1;
    }
}

/// `s` with every occurrence of `from`, read from the left and without
/// overlaps, replaced by `to`.
pub open spec fn replaced(s: Seq<char>, from: Seq<char>, to: Seq<char>) -> Seq<char>
    decreases s.len(),
{
    if from.len() == 0 || s.len() == 0 {
        s
    } else if occurs_at(s, from, 0) {
        to + replaced(s.skip(from.len() as int), from, to)
    } else {
        seq![s.first()] + replaced(s.drop_first(), from, to)
    }
}

/// The text with every occurrence of `from` replaced by `to`.
pub fn replace(text: &str, from: &str, to: &str) -> (r: String)
    requires
        from@.len() > 0,
    ensures
        r@ == replaced(text@, from@, to@),
{
    let s = chars_of(text);
    let pattern = chars_of(from);
    let mut r = String::new();
    let mut i: usize = 0;
    assert(s@.skip(0) == s@);
    while i < s.len()
        invariant
            0 <= i <= s.len(),
            s@ == text@,
            pattern@ == from@,
            from@.len() > 0,
            r@ + replaced(s@.skip(i as int), from@, to@) == replaced(text@, from@, to@),
        decreases s.len() - i,
    {
        let ghost rest = s@.skip(i as int);
        let here = is_at(s.as_slice(), pattern.as_slice(), i);
        assert(here == occurs_at(rest, from@, 0)) by {
            if i + from@.len() <= s.len() {
                assert(rest.subrange(0, from@.len() as int) == s@.subrange(
                    i as int,
                    i + from@.len(),
                ));
            }
        }
        if here {
            assert(rest.skip(from@.len() as int) == s@.skip(i + from@.len()));
            r.append(to);
            i = i + pattern.len();
        } else {
            assert(rest.drop_first() == s@.skip(i + 1));
            let ghost before = r@;
            r.push(s[i]);
            assert(r@ == before + seq![rest.first()]);
            i = i + 1;
        }
        assert(r@ + replaced(s@.skip(i as int), from@, to@) == replaced(text@, from@, to@));
    }
    assert(s@.skip(i as int) == Seq::<char>::empty());
    r
}

/// The hexadecimal digit, in lower case, of a number below sixteen.
pub open spec fn hex_digit(n: int) -> char {
    "0123456789abcdef"@[n]
}

/// The bytes in hexadecimal, two lower-case digits each, the high one first.
pub open spec fn hex(bytes: Seq<u8>) -> Seq<char> {
    Seq::new(
        2 * bytes.len(),
        |i: int|
            if i % 2 == 0 {
                hex_digit(bytes[i / 2] as int / 16)
            } else {
                hex_digit(bytes[i / 2] as int % 16)
            },
    )
}

/// The bytes in lower-case hexadecimal.
pub fn to_hex(bytes: &[u8]) -> (r: String)
    ensures
        r@ == hex(bytes@),
{
    proof {
        reveal_strlit("0123456789abcdef");
    }
    let digits = chars_of("0123456789abcdef");
    let mut r = String::new();
    for i in 0..bytes.len()
        invariant
            digits@ == "0123456789abcdef"@,
            digits@.len() == 16,
            r@ == hex(bytes@).take(2 * i),
    {
        let b = bytes[i];
        r.push(digits[(b / 16) as usize]);
        r.push(digits[(b % 16) as usize]);
        assert(r@ =~= hex(bytes@).take(2 * (i + 1)));
    }
    assert(hex(bytes@).take(2 * bytes@.len() as int) =~= hex(bytes@));
    r
}

/// Texts with the same UTF-8 bytes are the same text.
pub proof fn lemma_utf8_determines_text(a: Seq<char>, b: Seq<char>)
    ensures
        encode_utf8(a) == encode_utf8(b) <==> a == b,
{
    encode_utf8_decode_utf8(a);
    encode_utf8_decode_utf8(b);
}

/// Hexadecimal text is made of digits and the letters from a to f.
pub proof fn lemma_hex_digits(bytes: Seq<u8>, i: int)
    requires
        0 <= i < hex(bytes).len(),
    ensures
        '0' <= hex(bytes)[i] <= '9' || 'a' <= hex(bytes)[i] <= 'f',
{
    reveal_strlit("0123456789abcdef");
    let b = bytes[i / 2] as int;
    let n = if i % 2 == 0 {
        b / 16
    } else {
        b % 16
    };
    assert(0 <= n < 16);
    assert(hex(bytes)[i] == "0123456789abcdef"@[n]);
}

/// Bytes can be read back from their hexadecimal text.
pub proof fn lemma_hex_injective(a: Seq<u8>, b: Seq<u8>)
    requires
        hex(a) == hex(b),
    ensures
        a == b,
{
    reveal_strlit("0123456789abcdef");
    assert(hex(a).len() == 2 * a.len() && hex(b).len() == 2 * b.len());
    assert forall|k: int| 0 <= k < a.len() implies a[k] == b[k] by {
        assert((2 * k) / 2 == k && (2 * k + 1) / 2 == k);
        assert(hex(a)[2 * k] == hex_digit(a[k] as int / 16));
        assert(hex(b)[2 * k] == hex_digit(b[k] as int / 16));
        assert(hex(a)[2 * k + 1] == hex_digit(a[k] as int % 16));
        assert(hex(b)[2 * k + 1] == hex_digit(b[k] as int % 16));
        lemma_hex_digit_injective(a[k] as int / 16, b[k] as int / 16);
        lemma_hex_digit_injective(a[k] as int % 16, b[k] as int % 16);
    }
    assert(a =~= b);
}

proof fn lemma_hex_digit_injective(m: int, n: int)
    requires
        0 <= m < 16,
        0 <= n < 16,
        hex_digit(m) == hex_digit(n),
    ensures
        m == n,
{
    reveal_strlit("0123456789abcdef");
}

/// White space is, by code point: tab to carriage return, space, next line,
/// no-break space, and the spaces and separators beyond Latin-1.
pub proof fn law_white_space(c: char)
    ensures
        white_space(c) <==> {
            let n = c as int;
            ||| 9 <= n <= 13
            ||| n == 32
            ||| n == 133
            ||| n == 160
            ||| n == 5760
            ||| 8192 <= n <= 8202
            ||| n == 8232
            ||| n == 8233
            ||| n == 8239
            ||| n == 8287
            ||| n == 12288
        },
{
}

/// Trimming takes white space away at both ends, nothing else and all of it:
/// what is left stands in the text with only white space before and after it,
/// and neither begins nor ends with white space.
pub proof fn law_trimming(s: Seq<char>)
    ensures
        exists|lead: int| #[trigger] trimmed_at(s, trimmed(s), lead),
        trimmed(s).len() > 0 ==> !white_space(trimmed(s).first()) && !white_space(
            trimmed(s).last(),
        ),
{
    lemma_trimmed_start(s);
    lemma_trimmed_start_drops(s);
    let t = trimmed_start(s);
    lemma_trimmed_end(t);
    lemma_trimmed_end_drops(t);
    let lead = s.len() - t.len();
    assert(s.subrange(lead, lead + trimmed(s).len()) =~= trimmed(s));
    assert forall|i: int| lead + trimmed(s).len() <= i < s.len() implies white_space(
        #[trigger] s[i],
    ) by {
        assert(s[i] == t[i - lead]);
    }
    assert(trimmed_at(s, trimmed(s), lead));
    if trimmed(s).len() > 0 {
        assert(trimmed(s).first() == t.first());
    }
}

/// `t` stands in `s` from `lead` on, with only white space before and after it.
pub open spec fn trimmed_at(s: Seq<char>, t: Seq<char>, lead: int) -> bool {
    &&& 0 <= lead
    &&& lead + t.len() <= s.len()
    &&& s.subrange(lead, lead + t.len()) == t
    &&& forall|i: int| 0 <= i < lead ==> white_space(#[trigger] s[i])
    &&& forall|i: int| lead + t.len() <= i < s.len() ==> white_space(#[trigger] s[i])
}

proof fn lemma_trimmed_start_drops(s: Seq<char>)
    ensures
        forall|i: int|
            0 <= i < s.len() - trimmed_start(s).len() ==> white_space(#[trigger] s[i]),
    decreases s.len(),
{
    if s.len() > 0 && white_space(s.first()) {
        let rest = s.drop_first();
        lemma_trimmed_start_drops(rest);
        assert forall|i: int| 0 <= i < s.len() - trimmed_start(s).len() implies white_space(
            #[trigger] s[i],
        ) by {
            if i > 0 {
                assert(s[i] == rest[i - 1]);
            }
        }
    }
}

proof fn lemma_trimmed_end_drops(s: Seq<char>)
    ensures
        forall|i: int| trimmed_end(s).len() <= i < s.len() ==> white_space(#[trigger] s[i]),
    decreases s.len(),
{
    if s.len() > 0 && white_space(s.last()) {
        let rest = s.drop_last();
        lemma_trimmed_end_drops(rest);
        assert forall|i: int| trimmed_end(s).len() <= i < s.len() implies white_space(
            #[trigger] s[i],
        ) by {
            if i < s.len() - 1 {
                assert(s[i] == rest[i]);
            }
        }
    }
}

/// Making small keeps every character's place and changes the capitals from A
/// to Z alone, each to the letter 32 code points on.
pub proof fn law_ascii_lowering(s: Seq<char>)
    ensures
        ascii_lowered(s).len() == s.len(),
        forall|i: int|
            0 <= i < s.len() ==> (#[trigger] ascii_lowered(s)[i]) as int == if 65 <= s[i] as int
                <= 90 {
                s[i] as int + 32
            } else {
                s[i] as int
            },
{
}

/// A text holds another exactly where it is some text, the other one, and some
/// text again.
pub proof fn law_holding_a_text(s: Seq<char>, part: Seq<char>)
    ensures
        contains_text(s, part) <==> exists|a: Seq<char>, b: Seq<char>| s == #[trigger] (a + part
            + b),
{
    if contains_text(s, part) {
        let at = choose|at: int| occurs_at(s, part, at);
        let a = s.take(at);
        let b = s.skip(at + part.len());
        assert(s.subrange(at, at + part.len()) == part);
        assert(s =~= a + part + b);
    }
    if exists|a: Seq<char>, b: Seq<char>| s == #[trigger] (a + part + b) {
        let (a, b) = choose|a: Seq<char>, b: Seq<char>| s == #[trigger] (a + part + b);
        assert(s.subrange(a.len() as int, (a.len() + part.len()) as int) =~= part);
        assert(occurs_at(s, part, a.len() as int));
    }
}

/// Where the first occurrence of `from` follows `a`, replacing puts `to` in its
/// place, keeps `a`, and goes on behind it.
pub proof fn law_replacing_the_first(a: Seq<char>, from: Seq<char>, b: Seq<char>, to: Seq<char>)
    requires
        from.len() > 0,
        forall|i: int|
            0 <= i < a.len() ==> (#[trigger] (a + from + b).subrange(i, i + from.len())) != from,
    ensures
        replaced(a + from + b, from, to) == a + to + replaced(b, from, to),
    decreases a.len(),
{
    let s = a + from + b;
    if a.len() == 0 {
        assert(s.subrange(0, from.len() as int) =~= from);
        assert(s.skip(from.len() as int) =~= b);
        assert(a + to + replaced(b, from, to) =~= to + replaced(b, from, to));
    } else {
        let rest = a.drop_first();
        let t = rest + from + b;
        assert(s.drop_first() =~= t);
        assert(s.subrange(0, 0int + from.len()) != from);
        assert forall|i: int| 0 <= i < rest.len() implies (#[trigger] t.subrange(
            i,
            i + from.len(),
        )) != from by {
            assert(t.subrange(i, i + from.len()) =~= s.subrange(i + 1, i + 1 + from.len()));
        }
        law_replacing_the_first(rest, from, b, to);
        assert(a =~= seq![a.first()] + rest);
        assert(replaced(s, from, to) =~= a + to + replaced(b, from, to));
    }
}

/// A text without an occurrence of `from` stays as it is.
pub proof fn law_replacing_nothing(s: Seq<char>, from: Seq<char>, to: Seq<char>)
    requires
        forall|i: int|
            0 <= i <= s.len() - from.len() ==> (#[trigger] s.subrange(i, i + from.len())) != from,
    ensures
        replaced(s, from, to) == s,
    decreases s.len(),
{
    if s.len() > 0 && from.len() > 0 {
        let rest = s.drop_first();
        assert(!occurs_at(s, from, 0)) by {
            if from.len() <= s.len() {
                assert(s.subrange(0, 0int + from.len()) != from);
            }
        }
        assert forall|i: int| 0 <= i <= rest.len() - from.len() implies (#[trigger] rest.subrange(
            i,
            i + from.len(),
        )) != from by {
            assert(rest.subrange(i, i + from.len()) =~= s.subrange(i + 1, i + 1 + from.len()));
        }
        law_replacing_nothing(rest, from, to);
        assert(replaced(s, from, to) =~= s);
    }
}

/// Every byte becomes two digits, 0 to 9 and a to f, of which the first counts
/// sixteen times the second.
pub proof fn law_hex(bytes: Seq<u8>, k: int)
    requires
        0 <= k < bytes.len(),
    ensures
        hex(bytes).len() == 2 * bytes.len(),
        ({
            let high = hex(bytes)[2 * k] as int;
            let low = hex(bytes)[2 * k + 1] as int;
            &&& 48 <= high <= 57 || 97 <= high <= 102
            &&& 48 <= low <= 57 || 97 <= low <= 102
            &&& bytes[k] as int == 16 * (if high <= 57 {
                high - 48
            } else {
                high - 87
            }) + (if low <= 57 {
                low - 48
            } else {
                low - 87
            })
        }),
{
    let b = bytes[k] as int;
    assert(0 <= b / 16 < 16 && 0 <= b % 16 < 16 && b == 16 * (b / 16) + b % 16);
    assert((2 * k) / 2 == k && (2 * k + 1) / 2 == k);
    assert((2 * k) % 2 == 0 && (2 * k + 1) % 2 == 1);
    assert(hex(bytes)[2 * k] == hex_digit(b / 16));
    assert(hex(bytes)[2 * k + 1] == hex_digit(b % 16));
    lemma_hex_value(b / 16);
    lemma_hex_value(b % 16);
}

proof fn lemma_hex_value(n: int)
    requires
        0 <= n < 16,
    ensures
        hex_digit(n) as int == if n < 10 {
            n + 48
        } else {
            n + 87
        },
{
    reveal_strlit("0123456789abcdef");
}

} // verus!
