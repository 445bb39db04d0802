//! Character and byte bookkeeping for haystacks: UTF-8 widths, byte offsets of characters and
//! decimal rendering of numbers.
use vstd::prelude::*;
use vstd::utf8::*;

verus! {

/// The number of bytes of the UTF-8 encoding of the first `i` characters of `chars`.
pub open spec fn byte_offset(chars: Seq<char>, i: int) -> nat {
    encode_utf8(chars.take(i)).len()
}

/// Encoding a sequence with one more character appends the encoding of that character.
pub proof fn lemma_encode_utf8_push(s: Seq<char>, c: char)
    ensures
        encode_utf8(s.push(c)) == encode_utf8(s) + encode_scalar(c as u32),
    decreases s.len(),
{
    if s.len() == 0 {
        assert(s.push(c).drop_first() =~= Seq::<char>::empty());
        assert(encode_utf8(Seq::<char>::empty()) =~= Seq::<u8>::empty());
        assert(encode_utf8(s.push(c)) =~= encode_scalar(c as u32) + encode_utf8(Seq::<char>::empty()));
    } else {
        lemma_encode_utf8_push(s.drop_first(), c);
        assert(s.push(c).drop_first() =~= s.drop_first().push(c));
        assert(encode_utf8(s.push(c)) =~= encode_scalar(s[0] as u32) + encode_utf8(
            s.drop_first().push(c),
        ));
    }
}

/// Encoding a concatenation is the concatenation of the encodings.
pub proof fn lemma_encode_utf8_append(a: Seq<char>, b: Seq<char>)
    ensures
        encode_utf8(a + b) == encode_utf8(a) + encode_utf8(b),
    decreases b.len(),
{
    if b.len() == 0 {
        assert(a + b =~= a);
        assert(encode_utf8(b) =~= Seq::<u8>::empty());
        assert(encode_utf8(a) + encode_utf8(b) =~= encode_utf8(a));
    } else {
        let bl = b.drop_last();
        let c = b.last();
        lemma_encode_utf8_append(a, bl);
        lemma_encode_utf8_push(a + bl, c);
        lemma_encode_utf8_push(bl, c);
        assert(a + b =~= (a + bl).push(c));
        assert(b =~= bl.push(c));
        assert(encode_utf8(a + b) =~= encode_utf8(a) + encode_utf8(b));
    }
}

/// The byte offset of the character after position `i` is the offset of `i` plus the width of
/// the character at `i`.
pub proof fn lemma_byte_offset_step(chars: Seq<char>, i: int)
    requires
        0 <= i < chars.len(),
    ensures
        byte_offset(chars, i + 1) == byte_offset(chars, i) + encode_scalar(chars[i] as u32).len(),
{
    assert(chars.take(i + 1) =~= chars.take(i).push(chars[i]));
    lemma_encode_utf8_push(chars.take(i), chars[i]);
}

/// Byte offsets grow strictly with the character index.
pub proof fn lemma_byte_offset_mono(chars: Seq<char>, i: int, j: int)
    requires
        0 <= i <= j <= chars.len(),
    ensures
        byte_offset(chars, i) + (j - i) <= byte_offset(chars, j),
    decreases j - i,
{
    if i < j {
        lemma_byte_offset_mono(chars, i, j - 1);
        lemma_byte_offset_step(chars, j - 1);
        lemma_width_bounds(chars[j - 1]);
    }
}

/// Every character is encoded with one to four bytes.
pub proof fn lemma_width_bounds(c: char)
    ensures
        1 <= encode_scalar(c as u32).len() <= 4,
{
    char_is_scalar(c);
}

/// The number of bytes of the UTF-8 encoding of `c`.
pub fn utf8_width(c: char) -> (r: usize)
    ensures
        r == encode_scalar(c as u32).len(),
        1 <= r <= 4,
{
    proof {
        char_is_scalar(c);
    }
    let v = c as u32;
    if v <= 0x7F {
        1
    } else if v <= 0x7FF {
        2
    } else if v <= 0xFFFF {
        3
    } else {
        4
    }
}

/// The characters of a string slice, in order.
pub fn str_chars(s: &str) -> (r: Vec<char>)
    ensures
        r@ == s@,
{
    let mut v: Vec<char> = Vec::new();
    for c in it: s.chars()
        invariant
            v@ == it.seq().take(it.index() as int),
            it.seq() == s@,
    {
        v.push(c);
        assert(it.seq().take(it.index() + 1) =~= v@);
    }
    assert(v@ =~= s@);
    v
}

/// The byte offsets of all characters of `chars` followed by the total byte length.
pub fn char_byte_offsets(chars: &Vec<char>) -> (r: Option<Vec<usize>>)
    ensures
        match r {
            Some(offs) => offs@.len() == chars@.len() + 1 && forall|i: int|
                0 <= i <= chars@.len() ==> #[trigger] offs@[i] == byte_offset(chars@, i),
            None => byte_offset(chars@, chars@.len() as int) > usize::MAX,
        },
{
    let mut offs: Vec<usize> = Vec::new();
    let mut acc: usize = 0;
    offs.push(0);
    assert(chars@.take(0) =~= Seq::<char>::empty());
    let mut i: usize = 0;
    while i < chars.len()
        invariant
            i <= chars@.len(),
            offs@.len() == i + 1,
            acc == byte_offset(chars@, i as int),
            forall|j: int| 0 <= j <= i ==> #[trigger] offs@[j] == byte_offset(chars@, j),
        decreases chars@.len() - i,
    {
        let w = utf8_width(chars[i]);
        proof {
            lemma_byte_offset_step(chars@, i as int);
        }
        if acc > usize::MAX - w {
            proof {
                lemma_byte_offset_mono(chars@, i as int + 1, chars@.len() as int);
            }
            return None;
        }
        acc = acc + w;
        offs.push(acc);
        i = i + 1;
    }
    Some(offs)
}

/// The byte offsets of all characters of a string followed by its byte length.
pub fn char_byte_offsets_of_str(s: &str, chars: &Vec<char>) -> (r: Vec<usize>)
    requires
        chars@ == s@,
    ensures
        r@.len() == chars@.len() + 1,
        forall|i: int| 0 <= i <= chars@.len() ==> #[trigger] r@[i] == byte_offset(chars@, i),
{
    let bytes = s.as_bytes();
    let n = bytes.len();
    assert(chars@.take(chars@.len() as int) =~= chars@);
    assert(byte_offset(chars@, chars@.len() as int) == n);
    match char_byte_offsets(chars) {
        Some(offs) => offs,
        None => {
            assert(false);
            Vec::new()
        },
    }
}

/// The decimal digit for `d`.
pub open spec fn digit_char(d: nat) -> char {
    (48 + d) as char
}

/// The decimal representation of `n`, most significant digit first.
pub open spec fn decimal(n: nat) -> Seq<char>
    decreases n,
{
    if n < 10 {
        seq![digit_char(n)]
    } else {
        decimal(n / 10).push(digit_char(n % 10))
    }
}

/// The value of a numeral in base `base` whose digits have the values `digit_value` gives,
/// read with the most significant digit first.
pub open spec fn numeral_value(s: Seq<char>, base: int) -> int
    decreases s.len(),
{
    if s.len() == 0 {
        0
    } else {
        base * numeral_value(s.drop_last(), base) + digit_value(s.last())
    }
}

/// The value of a decimal or lowercase hexadecimal digit.
pub open spec fn digit_value(c: char) -> int {
    if '0' <= c <= '9' {
        c as int - '0' as int
    } else {
        c as int - 'a' as int + 10
    }
}

/// A decimal numeral: one or more of the digits `0` to `9`, without a leading zero unless it
/// is the numeral of zero.
pub open spec fn decimal_numeral(s: Seq<char>) -> bool {
    &&& s.len() >= 1
    &&& forall|i: int| 0 <= i < s.len() ==> '0' <= #[trigger] s[i] <= '9'
    &&& (s.len() > 1 ==> s[0] != '0')
}

/// A lowercase hexadecimal numeral: one or more of the digits `0` to `9` and `a` to `f`,
/// without a leading zero unless it is the numeral of zero.
pub open spec fn hex_numeral(s: Seq<char>) -> bool {
    &&& s.len() >= 1
    &&& forall|i: int| 0 <= i < s.len() ==> ('0' <= #[trigger] s[i] <= '9' || 'a' <= s[i] <= 'f')
    &&& (s.len() > 1 ==> s[0] != '0')
}

/// The decimal rendering of `n` is a decimal numeral, most significant digit first, whose
/// value is `n`.
pub proof fn lemma_decimal_value(n: nat)
    ensures
        decimal_numeral(decimal(n)),
        numeral_value(decimal(n), 10) == n,
        n >= 1 ==> decimal(n)[0] != '0',
    decreases n,
{
    let s = decimal(n);
    assert('0' as int == 48 && '9' as int == 57);
    if n < 10 {
        assert(s.drop_last() =~= Seq::<char>::empty());
        assert(digit_char(n) as int == 48 + n);
        assert(digit_value(s.last()) == n);
        assert(numeral_value(s.drop_last(), 10) == 0);
        assert(numeral_value(s, 10) == 10 * numeral_value(s.drop_last(), 10) + digit_value(s.last()));
    } else {
        let q = n / 10;
        let d = n % 10;
        lemma_decimal_value(q);
        let t = decimal(q);
        assert(s == t.push(digit_char(d)));
        assert(s.drop_last() =~= t);
        assert(s.last() == digit_char(d));
        assert(digit_char(d) as int == 48 + d);
        assert(digit_value(s.last()) == d);
        assert(numeral_value(s, 10) == 10 * numeral_value(s.drop_last(), 10) + digit_value(s.last()));
        assert(n == 10 * q + d);
        assert(s[0] == t[0]);
        assert forall|i: int| 0 <= i < s.len() implies '0' <= #[trigger] s[i] <= '9' by {
            if i < t.len() {
                assert(s[i] == t[i]);
            }
        }
    }
}

/// The hexadecimal rendering of `n` is a lowercase hexadecimal numeral, most significant digit
/// first, whose value is `n`.
pub proof fn lemma_hex_value(n: nat)
    ensures
        hex_numeral(hex_digits(n)),
        numeral_value(hex_digits(n), 16) == n,
        n >= 1 ==> hex_digits(n)[0] != '0',
    decreases n,
{
    let s = hex_digits(n);
    assert('0' as int == 48 && '9' as int == 57 && 'a' as int == 97 && 'f' as int == 102);
    if n < 16 {
        assert(s.drop_last() =~= Seq::<char>::empty());
        if n < 10 {
            assert(hex_char(n) as int == 48 + n);
        } else {
            assert(hex_char(n) as int == 87 + n);
        }
        assert(digit_value(s.last()) == n);
        assert(numeral_value(s.drop_last(), 16) == 0);
        assert(numeral_value(s, 16) == 16 * numeral_value(s.drop_last(), 16) + digit_value(s.last()));
    } else {
        let q = n / 16;
        let d = n % 16;
        lemma_hex_value(q);
        let t = hex_digits(q);
        assert(s == t.push(hex_char(d)));
        assert(s.drop_last() =~= t);
        assert(s.last() == hex_char(d));
        if d < 10 {
            assert(hex_char(d) as int == 48 + d);
        } else {
            assert(hex_char(d) as int == 87 + d);
        }
        assert(digit_value(s.last()) == d);
        assert(numeral_value(s, 16) == 16 * numeral_value(s.drop_last(), 16) + digit_value(s.last()));
        assert(n == 16 * q + d);
        assert(s[0] == t[0]);
        assert forall|i: int| 0 <= i < s.len() implies ('0' <= #[trigger] s[i] <= '9' || 'a' <= s[i] <= 'f') by {
            if i < t.len() {
                assert(s[i] == t[i]);
            }
        }
    }
}

/// Renders `n` in decimal.
pub fn usize_to_decimal(n: usize) -> (r: Vec<char>)
    ensures
        r@ == decimal(n as nat),
        decimal_numeral(r@),
        numeral_value(r@, 10) == n,
    decreases n,
{
    proof {
        lemma_decimal_value(n as nat);
    }
    if n < 10 {
        let d = (48u8 + n as u8) as char;
        assert(d == digit_char(n as nat));
        let mut v = Vec::new();
        v.push(d);
        assert(v@ =~= decimal(n as nat));
        v
    } else {
        let mut v = usize_to_decimal(n / 10);
        let d = (48u8 + (n % 10) as u8) as char;
        assert(d == digit_char((n % 10) as nat));
        v.push(d);
        v
    }
}


/// The lowercase hexadecimal digit for `d`.
pub open spec fn hex_char(d: nat) -> char {
    if d < 10 {
        (48 + d) as char
    } else {
        (87 + d) as char
    }
}

/// The lowercase hexadecimal representation of `n`, most significant digit first.
pub open spec fn hex_digits(n: nat) -> Seq<char>
    decreases n,
{
    if n < 16 {
        seq![hex_char(n)]
    } else {
        hex_digits(n / 16).push(hex_char(n % 16))
    }
}

/// Renders `n` in lowercase hexadecimal.
pub fn u32_to_hex(n: u32) -> (r: Vec<char>)
    ensures
        r@ == hex_digits(n as nat),
        hex_numeral(r@),
        numeral_value(r@, 16) == n,
    decreases n,
{
    proof {
        lemma_hex_value(n as nat);
    }
    let d: u32 = n % 16;
    let c = if d < 10 {
        (48u8 + d as u8) as char
    } else {
        (87u8 + d as u8) as char
    };
    assert(c == hex_char(d as nat));
    if n < 16 {
        let mut v = Vec::new();
        v.push(c);
        assert(v@ =~= hex_digits(n as nat));
        v
    } else {
        let mut v = u32_to_hex(n / 16);
        v.push(c);
        v
    }
}

/// The escaped form of a character: tab, carriage return and line feed as `\t`, `\r`, `\n`;
/// quotes and the backslash behind a backslash; other printable ASCII characters as they are;
/// everything else as `\u{..}` with the hexadecimal code point (std's `char::escape_default`).
pub open spec fn escape_char(c: char) -> Seq<char> {
    if c == '\t' {
        seq!['\\', 't']
    } else if c == '\r' {
        seq!['\\', 'r']
    } else if c == '\n' {
        seq!['\\', 'n']
    } else if c == '\'' || c == '"' || c == '\\' {
        seq!['\\', c]
    } else if 0x20 <= (c as u32) && (c as u32) <= 0x7e {
        seq![c]
    } else {
        seq!['\\', 'u', '{'] + hex_digits(c as u32 as nat) + seq!['}']
    }
}

/// The escaped form of a character sequence, character by character (std's
/// `str::escape_default`).
pub open spec fn escaped(s: Seq<char>) -> Seq<char>
    decreases s.len(),
{
    if s.len() == 0 {
        Seq::empty()
    } else {
        escaped(s.drop_last()) + escape_char(s.last())
    }
}

/// Appends the escaped form of `c` to `v`.
fn push_escaped_char(v: &mut Vec<char>, c: char)
    ensures
        final(v)@ == old(v)@ + escape_char(c),
{
    if c == '\t' || c == '\r' || c == '\n' {
        v.push('\\');
        v.push(if c == '\t' { 't' } else if c == '\r' { 'r' } else { 'n' });
    } else if c == '\'' || c == '"' || c == '\\' {
        v.push('\\');
        v.push(c);
    } else if 0x20 <= (c as u32) && (c as u32) <= 0x7e {
        v.push(c);
    } else {
        v.push('\\');
        v.push('u');
        v.push('{');
        let h = u32_to_hex(c as u32);
        push_chars(v, &h);
        v.push('}');
    }
    assert(final(v)@ =~= old(v)@ + escape_char(c));
}

/// The escaped form of the characters (see [escaped]).
pub fn escape_default(s: &Vec<char>) -> (r: Vec<char>)
    ensures
        r@ == escaped(s@),
{
    let mut v: Vec<char> = Vec::new();
    let mut i: usize = 0;
    assert(s@.take(0) =~= Seq::<char>::empty());
    while i < s.len()
        invariant
            i <= s@.len(),
            v@ == escaped(s@.take(i as int)),
        decreases s@.len() - i,
    {
        push_escaped_char(&mut v, s[i]);
        assert(s@.take(i + 1).drop_last() =~= s@.take(i as int));
        i = i + 1;
    }
    assert(s@.take(i as int) =~= s@);
    v
}

/// Appends the characters of `s` to `v`.
pub fn push_str(v: &mut Vec<char>, s: &str)
    ensures
        final(v)@ == old(v)@ + s@,
{
    let cs = str_chars(s);
    let mut i: usize = 0;
    while i < cs.len()
        invariant
            i <= cs@.len(),
            cs@ == s@,
            v@ == old(v)@ + cs@.take(i as int),
        decreases cs@.len() - i,
    {
        v.push(cs[i]);
        i = i + 1;
        assert(v@ =~= old(v)@ + cs@.take(i as int));
    }
    assert(cs@.take(i as int) =~= cs@);
}

/// Appends the characters of `s` to `v`.
pub fn push_chars(v: &mut Vec<char>, s: &Vec<char>)
    ensures
        final(v)@ == old(v)@ + s@,
{
    let mut i: usize = 0;
    while i < s.len()
        invariant
            i <= s@.len(),
            v@ == old(v)@ + s@.take(i as int),
        decreases s@.len() - i,
    {
        v.push(s[i]);
        i = i + 1;
        assert(v@ =~= old(v)@ + s@.take(i as int));
    }
    assert(s@.take(i as int) =~= s@);
}

/// Builds a `String` holding exactly the given characters (std's `FromIterator<char>` for
/// `String`).
#[verifier::external_body]
pub(crate) fn string_from_chars(v: &Vec<char>) -> (s: String)
    ensures
        s@ == v@,
{
    String::from_iter(v.iter())
}

} // verus!
