//! Texts: numbers written out and read, white space, fixed beginnings.

use vstd::prelude::*;

verus! {

/// The digit of value `d`, in lower case.
pub open spec fn digit(d: nat) -> char {
    if d == 0 {
        '0'
    } else if d == 1 {
        '1'
    } else if d == 2 {
        '2'
    } else if d == 3 {
        '3'
    } else if d == 4 {
        '4'
    } else if d == 5 {
        '5'
    } else if d == 6 {
        '6'
    } else if d == 7 {
        '7'
    } else if d == 8 {
        '8'
    } else if d == 9 {
        '9'
    } else if d == 10 {
        'a'
    } else if d == 11 {
        'b'
    } else if d == 12 {
        'c'
    } else if d == 13 {
        'd'
    } else if d == 14 {
        'e'
    } else {
        'f'
    }
}

/// `n` in decimal, without leading zeros.
pub open spec fn decimal(n: nat) -> Seq<char>
    decreases n,
{
    if n < 10 {
        seq![digit(n)]
    } else {
        decimal(n / 10).push(digit(n % 10))
    }
}

/// The lowest `width` hexadecimal digits of `n`.
pub open spec fn hex_padded(n: nat, width: nat) -> Seq<char>
    decreases width,
{
    if width == 0 {
        Seq::empty()
    } else {
        hex_padded(n / 16, (width - 1) as nat).push(digit(n % 16))
    }
}

/// `n` in hexadecimal, without leading zeros.
pub open spec fn hex(n: nat) -> Seq<char>
    decreases n,
{
    if n < 16 {
        seq![digit(n)]
    } else {
        hex(n / 16).push(digit(n % 16))
    }
}

/// The digit of value `d` as a string.
pub fn digit_str(d: u64) -> (r: &'static str)
    requires
        d < 16,
    ensures
        r@ == seq![digit(d as nat)],
{
    let r = if d == 0 {
        "0"
    } else if d == 1 {
        "1"
    } else if d == 2 {
        "2"
    } else if d == 3 {
        "3"
    } else if d == 4 {
        "4"
    } else if d == 5 {
        "5"
    } else if d == 6 {
        "6"
    } else if d == 7 {
        "7"
    } else if d == 8 {
        "8"
    } else if d == 9 {
        "9"
    } else if d == 10 {
        "a"
    } else if d == 11 {
        "b"
    } else if d == 12 {
        "c"
    } else if d == 13 {
        "d"
    } else if d == 14 {
        "e"
    } else {
        "f"
    };
    proof {
        reveal_strlit("0");
        reveal_strlit("1");
        reveal_strlit("2");
        reveal_strlit("3");
        reveal_strlit("4");
        reveal_strlit("5");
        reveal_strlit("6");
        reveal_strlit("7");
        reveal_strlit("8");
        reveal_strlit("9");
        reveal_strlit("a");
        reveal_strlit("b");
        reveal_strlit("c");
        reveal_strlit("d");
        reveal_strlit("e");
        reveal_strlit("f");
    }
    assert(r@ =~= seq![digit(d as nat)]);
    r
}

/// Appends `n` in decimal.
pub fn push_decimal(out: &mut String, n: u64)
    ensures
        final(out)@ == old(out)@ + decimal(n as nat),
    decreases n,
{
    if n >= 10 {
        push_decimal(out, n / 10);
    }
    out.append(digit_str(n % 10));
    assert(out@ =~= old(out)@ + decimal(n as nat));
}

/// Appends the lowest `width` hexadecimal digits of `n`.
pub fn push_hex_padded(out: &mut String, n: u64, width: usize)
    ensures
        final(out)@ == old(out)@ + hex_padded(n as nat, width as nat),
    decreases width,
{
    if width == 0 {
        assert(out@ =~= old(out)@ + hex_padded(n as nat, 0));
        return ;
    }
    push_hex_padded(out, n / 16, width - 1);
    out.append(digit_str(n % 16));
    assert(out@ =~= old(out)@ + hex_padded(n as nat, width as nat));
}

/// Appends `n` in hexadecimal.
pub fn push_hex(out: &mut String, n: u64)
    ensures
        final(out)@ == old(out)@ + hex(n as nat),
    decreases n,
{
    if n >= 16 {
        push_hex(out, n / 16);
    }
    out.append(digit_str(n % 16));
    assert(out@ =~= old(out)@ + hex(n as nat));
}

/// The codes of characters, one byte each.
pub open spec fn char_bytes(s: Seq<char>) -> Seq<u8> {
    Seq::new(s.len(), |i: int| s[i] as u8)
}

/// Appends the bytes of `n` in decimal.
pub fn push_decimal_bytes(out: &mut Vec<u8>, n: u64)
    ensures
        final(out)@ == old(out)@ + char_bytes(decimal(n as nat)),
    decreases n,
{
    if n >= 10 {
        push_decimal_bytes(out, n / 10);
    }
    out.push(0x30 + (n % 10) as u8);
    assert(out@ =~= old(out)@ + char_bytes(decimal(n as nat)));
}

/// The encoding of a text in two parts.
pub proof fn lemma_encode_parts(a: Seq<char>, b: Seq<char>)
    ensures
        vstd::utf8::encode_utf8(a + b) == vstd::utf8::encode_utf8(a) + vstd::utf8::encode_utf8(b),
    decreases a.len(),
{
    let (ea, eb) = (vstd::utf8::encode_utf8(a), vstd::utf8::encode_utf8(b));
    if a.len() == 0 {
        assert(a + b =~= b);
        assert(ea + eb =~= eb);
    } else {
        assert((a + b).drop_first() =~= a.drop_first() + b);
        lemma_encode_parts(a.drop_first(), b);
        let first = vstd::utf8::encode_scalar(a[0] as u32);
        let rest = vstd::utf8::encode_utf8(a.drop_first());
        assert(first + (rest + eb) =~= (first + rest) + eb);
    }
}

/// The encoding of a character other than NUL holds no zero.
proof fn lemma_scalar_without_zero(c: char)
    requires
        c != '\0',
    ensures
        !vstd::utf8::encode_scalar(c as u32).contains(0),
{
    let v = c as u32;
    assert(v != 0);
    assert(v <= 0x7f && v != 0 ==> (v & 0x7f) as u8 != 0) by (bit_vector);
    assert(0xC0u8 | ((v >> 6) & 0x1F) as u8 != 0) by (bit_vector);
    assert(0xE0u8 | ((v >> 12) & 0x0F) as u8 != 0) by (bit_vector);
    assert(0xF0u8 | ((v >> 18) & 0x7) as u8 != 0) by (bit_vector);
    assert(0x80u8 | (v & 0x3F) as u8 != 0) by (bit_vector);
    assert(0x80u8 | ((v >> 6) & 0x3F) as u8 != 0) by (bit_vector);
    assert(0x80u8 | ((v >> 12) & 0x3F) as u8 != 0) by (bit_vector);
}

/// The encoding of a text without NUL holds no zero.
pub proof fn lemma_encoded_without_zero(s: Seq<char>)
    requires
        !s.contains('\0'),
    ensures
        forall|i: int|
            0 <= i < vstd::utf8::encode_utf8(s).len() ==> #[trigger] vstd::utf8::encode_utf8(s)[i]
                != 0,
    decreases s.len(),
{
    if s.len() > 0 {
        let first = vstd::utf8::encode_scalar(s[0] as u32);
        let rest = s.drop_first();
        assert(s.contains(s[0]));
        lemma_scalar_without_zero(s[0]);
        assert forall|i: int| 0 <= i < rest.len() implies #[trigger] rest[i] != '\0' by {
            assert(s.contains(s[i + 1]));
        }
        lemma_encoded_without_zero(rest);
        let all = vstd::utf8::encode_utf8(s);
        assert forall|i: int| 0 <= i < all.len() implies #[trigger] all[i] != 0 by {
            if i < first.len() {
                assert(first.contains(first[i]));
            } else {
                assert(all[i] == vstd::utf8::encode_utf8(rest)[i - first.len()]);
            }
        }
    }
}

/// Calls `std::str::from_utf8`, which gives the string that the bytes encode if
/// they are valid UTF-8, and an error otherwise.
#[verifier::external_body]
pub(crate) fn utf8_str(bytes: &[u8]) -> (r: Option<&str>)
    ensures
        match r {
            Some(s) => vstd::utf8::valid_utf8(bytes@) && vstd::utf8::encode_utf8(s@) == bytes@,
            None => !vstd::utf8::valid_utf8(bytes@),
        },
{
    std::str::from_utf8(bytes).ok()
}

/// The value of a digit in either case.
pub open spec fn digit_value(b: u8) -> nat {
    if 0x30 <= b <= 0x39 {
        (b - 0x30) as nat
    } else if 0x61 <= b <= 0x7a {
        (b - 0x61 + 10) as nat
    } else if 0x41 <= b <= 0x5a {
        (b - 0x41 + 10) as nat
    } else {
        255
    }
}

/// The number that digits add to one that was read, if it is not over a limit.
pub open spec fn number_from(acc: nat, s: Seq<u8>, radix: nat, max: nat) -> Option<nat>
    decreases s.len(),
{
    if s.len() == 0 {
        Some(acc)
    } else if digit_value(s[0]) >= radix || acc * radix + digit_value(s[0]) > max {
        None
    } else {
        number_from(acc * radix + digit_value(s[0]), s.skip(1), radix, max)
    }
}

/// The number that a text stands for: digits, at least one, with or without a
/// plus sign before them, and not over a limit.
pub open spec fn number(s: Seq<u8>, radix: nat, max: nat) -> Option<nat> {
    if s.len() == 0 || (s.len() == 1 && s[0] == 0x2b) {
        None
    } else if s[0] == 0x2b {
        number_from(0, s.skip(1), radix, max)
    } else {
        number_from(0, s, radix, max)
    }
}

/// Reads a number.
pub fn parse_number(s: &[u8], radix: u64, max: u64) -> (r: Option<u64>)
    requires
        2 <= radix <= 36,
        max <= 0xffff_ffff,
    ensures
        match number(s@, radix as nat, max as nat) {
            None => r is None,
            Some(n) => r == Some(n as u64) && n <= max,
        },
{
    let n: usize = s.len();
    if n == 0 || (n == 1 && s[0] == 0x2b) {
        return None;
    }
    let mut i: usize = 0;
    if s[0] == 0x2b {
        i = 1;
    }
    let ghost want = number(s@, radix as nat, max as nat);
    assert(s@.skip(0) =~= s@);
    let mut acc: u64 = 0;
    while i < n
        invariant
            i <= n,
            n == s@.len(),
            2 <= radix <= 36,
            acc <= max <= 0xffff_ffff,
            want == number(s@, radix as nat, max as nat),
            want == number_from(acc as nat, s@.skip(i as int), radix as nat, max as nat),
        decreases n - i,
    {
        let c = s[i];
        assert(s@.skip(i as int).skip(1) =~= s@.skip(i + 1));
        let d: u64 = if 0x30 <= c && c <= 0x39 {
            (c - 0x30) as u64
        } else if 0x61 <= c && c <= 0x7a {
            (c - 0x61) as u64 + 10
        } else if 0x41 <= c && c <= 0x5a {
            (c - 0x41) as u64 + 10
        } else {
            255
        };
        if d >= radix {
            return None;
        }
        assert(acc * radix <= 0xffff_ffff * 36) by (nonlinear_arith)
            requires
                acc <= 0xffff_ffff,
                radix <= 36,
        ;
        let next: u64 = acc * radix + d;
        if next > max {
            return None;
        }
        acc = next;
        i = i + 1;
    }
    Some(acc)
}

/// The first place from `i` on where a byte stands, or the length.
pub open spec fn index_of(s: Seq<u8>, i: int, c: u8) -> int
    decreases s.len() - i,
{
    if i >= s.len() {
        s.len() as int
    } else if s[i] == c {
        i
    } else {
        index_of(s, i + 1, c)
    }
}

/// Finds the first place from `i` on where a byte stands.
pub fn find_byte(s: &[u8], from: usize, c: u8) -> (r: usize)
    requires
        from <= s@.len(),
    ensures
        r == index_of(s@, from as int, c),
        from <= r <= s@.len(),
        r < s@.len() ==> s@[r as int] == c,
{
    let mut i: usize = from;
    while i < s.len()
        invariant
            from <= i <= s@.len(),
            index_of(s@, from as int, c) == index_of(s@, i as int, c),
        decreases s@.len() - i,
    {
        if s[i] == c {
            return i;
        }
        i = i + 1;
    }
    i
}

/// What a byte stands first behind other bytes.
pub proof fn lemma_index_of(s: Seq<u8>, i: int, k: int, c: u8)
    requires
        0 <= i <= k <= s.len(),
        forall|j: int| i <= j < k ==> #[trigger] s[j] != c,
        k < s.len() ==> s[k] == c,
    ensures
        index_of(s, i, c) == k,
    decreases k - i,
{
    if i < k {
        lemma_index_of(s, i + 1, k, c);
    }
}

/// Whether a character is white space.
pub open spec fn is_white(c: char) -> bool {
    let n = c as u32;
    ||| 0x09 <= n <= 0x0d
    ||| n == 0x20
    ||| n == 0x85
    ||| n == 0xa0
    ||| n == 0x1680
    ||| 0x2000 <= n <= 0x200a
    ||| n == 0x2028
    ||| n == 0x2029
    ||| n == 0x202f
    ||| n == 0x205f
    ||| n == 0x3000
}

/// Tells whether a character is white space.
pub fn white(c: char) -> (r: bool)
    ensures
        r == is_white(c),
{
    let n: u32 = c as u32;
    (0x09 <= n && n <= 0x0d) || n == 0x20 || n == 0x85 || n == 0xa0 || n == 0x1680 || (0x2000 <= n
        && n <= 0x200a) || n == 0x2028 || n == 0x2029 || n == 0x202f || n == 0x205f || n == 0x3000
}

/// A text without the white space at its beginning.
pub open spec fn trimmed_start(s: Seq<char>) -> Seq<char>
    decreases s.len(),
{
    if s.len() > 0 && is_white(s[0]) {
        trimmed_start(s.skip(1))
    } else {
        s
    }
}

/// A text without the white space at its end.
pub open spec fn trimmed_end(s: Seq<char>) -> Seq<char>
    decreases s.len(),
{
    if s.len() > 0 && is_white(s.last()) {
        trimmed_end(s.drop_last())
    } else {
        s
    }
}

/// A text without the white space at its ends.
pub open spec fn trimmed(s: Seq<char>) -> Seq<char> {
    trimmed_end(trimmed_start(s))
}

/// The codes of characters, with one that stands for nothing in place of those
/// that are not ASCII.
pub open spec fn ascii_codes(s: Seq<char>) -> Seq<u8> {
    Seq::new(
        s.len(),
        |i: int|
            if s[i] as u32 <= 0x7f {
                s[i] as u8
            } else {
                0xff
            },
    )
}

/// Cuts the white space off a text's ends.
pub fn trim(s: &str) -> (r: &str)
    ensures
        r@ == trimmed(s@),
{
    let n: usize = s.unicode_len();
    let ghost all = s@;
    let mut i: usize = 0;
    assert(all.skip(0) =~= all);
    while i < n && white(s.get_char(i))
        invariant
            i <= n,
            n == all.len(),
            s@ == all,
            trimmed_start(all) == trimmed_start(all.skip(i as int)),
        decreases n - i,
    {
        assert(all.skip(i as int).skip(1) =~= all.skip(i + 1));
        i = i + 1;
    }
    let ghost t = all.skip(i as int);
    assert(trimmed_start(all) == t);
    let mut j: usize = n;
    assert(t.take(n - i) =~= t);
    while j > i && white(s.get_char(j - 1))
        invariant
            i <= j <= n,
            n == all.len(),
            s@ == all,
            t == all.skip(i as int),
            trimmed_end(t) == trimmed_end(t.take(j - i)),
        decreases j,
    {
        assert(t.take(j - i).drop_last() =~= t.take(j - i - 1));
        j = j - 1;
    }
    let ghost u = t.take(j - i);
    assert(trimmed(all) == u) by {
        if j > i {
            assert(u.last() == all[j - 1]);
        }
    }
    assert(all.subrange(i as int, j as int) =~= u);
    s.substring_char(i, j)
}

/// The codes of a text's characters.
pub fn codes_of(s: &str) -> (r: Vec<u8>)
    ensures
        r@ == ascii_codes(s@),
{
    let n: usize = s.unicode_len();
    let mut r: Vec<u8> = Vec::new();
    let mut k: usize = 0;
    while k < n
        invariant
            k <= n,
            n == s@.len(),
            r@ == ascii_codes(s@).take(k as int),
        decreases n - k,
    {
        let v: u32 = s.get_char(k) as u32;
        r.push(if v <= 0x7f {
            v as u8
        } else {
            0xff
        });
        assert(r@ =~= ascii_codes(s@).take(k + 1));
        k = k + 1;
    }
    assert(r@ =~= ascii_codes(s@));
    r
}

/// The codes of a text without the white space at its ends.
pub fn trimmed_codes(s: &str) -> (r: Vec<u8>)
    ensures
        r@ == ascii_codes(trimmed(s@)),
{
    codes_of(trim(s))
}

/// A text behind a fixed beginning.
pub open spec fn begins_with(s: Seq<char>, prefix: Seq<char>) -> bool {
    s.len() >= prefix.len() && s.take(prefix.len() as int) == prefix
}

/// Tells whether a text has a fixed beginning.
pub fn starts_with(s: &str, prefix: &str) -> (r: bool)
    ensures
        r == begins_with(s@, prefix@),
{
    let n: usize = prefix.unicode_len();
    if s.unicode_len() < n {
        return false;
    }
    let mut i: usize = 0;
    while i < n
        invariant
            i <= n,
            n == prefix@.len(),
            n <= s@.len(),
            s@.take(i as int) == prefix@.take(i as int),
        decreases n - i,
    {
        if s.get_char(i) != prefix.get_char(i) {
            assert(s@.take(n as int)[i as int] != prefix@[i as int]);
            return false;
        }
        assert(s@.take(i + 1) =~= s@.take(i as int).push(s@[i as int]));
        assert(prefix@.take(i + 1) =~= prefix@.take(i as int).push(prefix@[i as int]));
        i = i + 1;
    }
    assert(prefix@.take(n as int) =~= prefix@);
    true
}

/// Puts a text behind another.
pub fn behind(prefix: &str, rest: &str) -> (r: String)
    ensures
        r@ == prefix@ + rest@,
{
    let mut s = prefix.to_owned();
    s.append(rest);
    s
}

/// Whether every character is an ASCII character.
pub open spec fn all_ascii(s: Seq<char>) -> bool {
    forall|i: int| 0 <= i < s.len() ==> (#[trigger] s[i]) as u32 <= 0x7f
}

/// Appends the bytes of an ASCII text.
pub fn push_str_bytes(out: &mut Vec<u8>, s: &str)
    requires
        all_ascii(s@),
    ensures
        final(out)@ == old(out)@ + char_bytes(s@),
{
    let codes = codes_of(s);
    assert(codes@ =~= char_bytes(s@));
    crate::bytes::push_bytes(out, codes.as_slice());
}

/// A number in decimal has only decimal digits, and at least one.
pub proof fn lemma_decimal(n: nat)
    ensures
        decimal(n).len() > 0,
        forall|i: int|
            0 <= i < decimal(n).len() ==> {
                &&& 0x30 <= (#[trigger] decimal(n)[i]) as u32 <= 0x39
                &&& 0x30 <= decimal(n)[i] as u8 <= 0x39
            },
    decreases n,
{
    if n >= 10 {
        lemma_decimal(n / 10);
    }
}

/// Reading digits in two parts.
proof fn lemma_number_push(acc: nat, s: Seq<u8>, d: u8, radix: nat, max: nat)
    ensures
        number_from(acc, s.push(d), radix, max) == (match number_from(acc, s, radix, max) {
            None => None,
            Some(a) => if digit_value(d) >= radix || a * radix + digit_value(d) > max {
                None
            } else {
                Some(a * radix + digit_value(d))
            },
        }),
    decreases s.len(),
{
    let p = s.push(d);
    if s.len() == 0 {
        assert(p[0] == d);
        assert(p.skip(1) =~= Seq::empty());
        reveal_with_fuel(number_from, 2);
    } else {
        assert(p[0] == s[0]);
        assert(p.skip(1) =~= s.skip(1).push(d));
        if digit_value(s[0]) < radix && acc * radix + digit_value(s[0]) <= max {
            lemma_number_push(acc * radix + digit_value(s[0]), s.skip(1), d, radix, max);
        }
    }
}

/// A number that was written in decimal reads back.
pub proof fn law_decimal_reads_back(n: nat, max: nat)
    requires
        n <= max,
    ensures
        number(ascii_codes(decimal(n)), 10, max) == Some(n),
{
    lemma_decimal(n);
    let s = ascii_codes(decimal(n));
    assert(s[0] == decimal(n)[0] as u8);
    lemma_decimal_from(n, max);
}

proof fn lemma_decimal_from(n: nat, max: nat)
    requires
        n <= max,
    ensures
        number_from(0, ascii_codes(decimal(n)), 10, max) == Some(n),
    decreases n,
{
    let s = ascii_codes(decimal(n));
    if n < 10 {
        assert(digit_value(s[0]) == n);
        assert(s.skip(1) =~= Seq::empty());
        reveal_with_fuel(number_from, 2);
    } else {
        lemma_decimal_from(n / 10, max);
        let c = digit(n % 10);
        let rest = ascii_codes(decimal(n / 10));
        assert(s =~= rest.push(c as u8));
        assert(digit_value(c as u8) == n % 10);
        lemma_number_push(0, rest, c as u8, 10, max);
    }
}

} // verus!
