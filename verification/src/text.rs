//! Characters, decimal and hexadecimal numbers, and searching within
//! strings: the ground the text grammars of this crate are built on.

use vstd::prelude::*;

verus! {

/// Whether `c` is a decimal digit.
pub open spec fn is_dec_digit(c: char) -> bool {
    '0' as u32 <= c as u32 && c as u32 <= '9' as u32
}

/// The value of a decimal digit.
pub open spec fn dec_val(c: char) -> nat {
    (c as u32 - '0' as u32) as nat
}

/// The digit character for a value below ten.
pub open spec fn dec_char(d: nat) -> char {
    if d == 0 {
        '0'
    } else if d == 1 {
        '1'
    } else if d == 2 {
        '2'
    } else if d == 3 {
        '3'
    } else if d == 4 {
        '4'
    } else if d == 5 {
        '5'
    } else if d == 6 {
        '6'
    } else if d == 7 {
        '7'
    } else if d == 8 {
        '8'
    } else {
        '9'
    }
}

/// Whether every character of `s` is a decimal digit.
pub open spec fn all_dec_digits(s: Seq<char>) -> bool {
    forall|i: int| 0 <= i < s.len() ==> is_dec_digit(#[trigger] s[i])
}

/// The number a digit string denotes.
pub open spec fn digits_val(s: Seq<char>) -> nat
    decreases s.len(),
{
    if s.len() == 0 {
        0
    } else {
        digits_val(s.drop_last()) * 10 + dec_val(s.last())
    }
}

/// The canonical decimal rendering of a number: no sign, no leading zeros.
pub open spec fn spec_dec_digits(n: nat) -> Seq<char>
    decreases n,
{
    if n < 10 {
        seq![dec_char(n)]
    } else {
        spec_dec_digits(n / 10).push(dec_char(n % 10))
    }
}

/// What parsing a decimal `u64` yields: the denoted number, when the string
/// is non-empty, all digits, and the number fits.
pub open spec fn spec_parse_u64(s: Seq<char>) -> Option<u64> {
    if s.len() > 0 && all_dec_digits(s) && digits_val(s) <= u64::MAX {
        Some(digits_val(s) as u64)
    } else {
        None
    }
}

/// What parsing a decimal `usize` yields.
pub open spec fn spec_parse_usize(s: Seq<char>) -> Option<usize> {
    if s.len() > 0 && all_dec_digits(s) && digits_val(s) <= usize::MAX {
        Some(digits_val(s) as usize)
    } else {
        None
    }
}

/// A digit character below ten denotes its value.
proof fn lemma_dec_char_val(d: nat)
    requires
        d < 10,
    ensures
        is_dec_digit(dec_char(d)),
        dec_val(dec_char(d)) == d,
{
}

/// The canonical decimal rendering is non-empty, all digits, and denotes
/// the number it was made from.
pub proof fn lemma_dec_digits(n: nat)
    ensures
        spec_dec_digits(n).len() >= 1,
        all_dec_digits(spec_dec_digits(n)),
        digits_val(spec_dec_digits(n)) == n,
    decreases n,
{
    if n < 10 {
        lemma_dec_char_val(n);
        let s = spec_dec_digits(n);
        assert(digits_val(Seq::<char>::empty()) == 0);
        assert(s.drop_last() =~= Seq::<char>::empty());
        assert(s.last() == dec_char(n));
    } else {
        lemma_dec_digits(n / 10);
        lemma_dec_char_val(n % 10);
        let rec = spec_dec_digits(n / 10);
        let s = spec_dec_digits(n);
        assert(s.drop_last() =~= rec);
        assert(s.last() == dec_char(n % 10));
        assert forall|i: int| 0 <= i < s.len() implies is_dec_digit(#[trigger] s[i]) by {
            if i < rec.len() {
                assert(s[i] == rec[i]);
            }
        }
    }
}

/// Parsing the canonical decimal rendering of a `u64` gives it back.
pub proof fn lemma_dec_round_trip_u64(n: u64)
    ensures
        spec_parse_u64(spec_dec_digits(n as nat)) == Some(n),
{
    lemma_dec_digits(n as nat);
}

/// Parsing the canonical decimal rendering of a `usize` gives it back.
pub proof fn lemma_dec_round_trip_usize(n: usize)
    ensures
        spec_parse_usize(spec_dec_digits(n as nat)) == Some(n),
{
    lemma_dec_digits(n as nat);
}

/// A digit prefix never denotes more than the whole digit string.
proof fn lemma_digits_val_prefix(s: Seq<char>, i: int)
    requires
        0 <= i <= s.len(),
    ensures
        digits_val(s.subrange(0, i)) <= digits_val(s),
    decreases s.len() - i,
{
    if i < s.len() {
        lemma_digits_val_prefix(s, i + 1);
        let a = s.subrange(0, i);
        let b = s.subrange(0, i + 1);
        assert(b.drop_last() =~= a);
        assert(b.last() == s[i]);
    } else {
        assert(s.subrange(0, i) =~= s);
    }
}

/// The digit string for a single character.
proof fn lemma_digits_val_step(s: Seq<char>, i: int)
    requires
        0 <= i < s.len(),
    ensures
        digits_val(s.subrange(0, i + 1)) == digits_val(s.subrange(0, i)) * 10 + dec_val(s[i]),
{
    let a = s.subrange(0, i);
    let b = s.subrange(0, i + 1);
    assert(b.drop_last() =~= a);
    assert(b.last() == s[i]);
}

/// Parses a decimal `u64`, exactly as [`spec_parse_u64`] says.
pub fn parse_u64(s: &str) -> (r: Option<u64>)
    ensures
        r == spec_parse_u64(s@),
{
    let len = s.unicode_len();
    if len == 0 {
        return None;
    }
    let mut i: usize = 0;
    let mut acc: u64 = 0;
    proof {
        assert(s@.subrange(0, 0) =~= Seq::<char>::empty());
    }
    while i < len
        invariant
            len == s@.len(),
            0 <= i <= len,
            all_dec_digits(s@.subrange(0, i as int)),
            acc == digits_val(s@.subrange(0, i as int)),
        decreases len - i,
    {
        let c = s.get_char(i);
        let cv = c as u32;
        if cv < '0' as u32 || cv > '9' as u32 {
            return None;
        }
        let d = (cv - '0' as u32) as u64;
        proof {
            lemma_digits_val_step(s@, i as int);
        }
        if acc > (u64::MAX - d) / 10 {
            proof {
                assert(digits_val(s@.subrange(0, i + 1)) > u64::MAX);
                lemma_digits_val_prefix(s@, i + 1);
            }
            return None;
        }
        acc = acc * 10 + d;
        proof {
            assert forall|q: int| 0 <= q < i + 1 implies is_dec_digit(
                #[trigger] s@.subrange(0, i + 1)[q],
            ) by {
                if q < i {
                    assert(s@.subrange(0, i + 1)[q] == s@.subrange(0, i as int)[q]);
                }
            }
        }
        i += 1;
    }
    proof {
        assert(s@.subrange(0, len as int) =~= s@);
    }
    Some(acc)
}

/// Parses a decimal `usize`, exactly as [`spec_parse_usize`] says.
pub fn parse_usize(s: &str) -> (r: Option<usize>)
    ensures
        r == spec_parse_usize(s@),
{
    let len = s.unicode_len();
    if len == 0 {
        return None;
    }
    let mut i: usize = 0;
    let mut acc: usize = 0;
    proof {
        assert(s@.subrange(0, 0) =~= Seq::<char>::empty());
    }
    while i < len
        invariant
            len == s@.len(),
            0 <= i <= len,
            all_dec_digits(s@.subrange(0, i as int)),
            acc == digits_val(s@.subrange(0, i as int)),
        decreases len - i,
    {
        let c = s.get_char(i);
        let cv = c as u32;
        if cv < '0' as u32 || cv > '9' as u32 {
            return None;
        }
        let d = (cv - '0' as u32) as usize;
        proof {
            lemma_digits_val_step(s@, i as int);
        }
        if acc > (usize::MAX - d) / 10 {
            proof {
                assert(digits_val(s@.subrange(0, i + 1)) > usize::MAX);
                lemma_digits_val_prefix(s@, i + 1);
            }
            return None;
        }
        acc = acc * 10 + d;
        proof {
            assert forall|q: int| 0 <= q < i + 1 implies is_dec_digit(
                #[trigger] s@.subrange(0, i + 1)[q],
            ) by {
                if q < i {
                    assert(s@.subrange(0, i + 1)[q] == s@.subrange(0, i as int)[q]);
                }
            }
        }
        i += 1;
    }
    proof {
        assert(s@.subrange(0, len as int) =~= s@);
    }
    Some(acc)
}

/// The one-character string for a digit value.
fn dec_digit_str(d: u64) -> (r: &'static str)
    requires
        d < 10,
    ensures
        r@ =~= seq![dec_char(d as nat)],
{
    proof {
        reveal_strlit("0");
        reveal_strlit("1");
        reveal_strlit("2");
        reveal_strlit("3");
        reveal_strlit("4");
        reveal_strlit("5");
        reveal_strlit("6");
        reveal_strlit("7");
        reveal_strlit("8");
        reveal_strlit("9");
    }
    if d == 0 {
        "0"
    } else if d == 1 {
        "1"
    } else if d == 2 {
        "2"
    } else if d == 3 {
        "3"
    } else if d == 4 {
        "4"
    } else if d == 5 {
        "5"
    } else if d == 6 {
        "6"
    } else if d == 7 {
        "7"
    } else if d == 8 {
        "8"
    } else {
        "9"
    }
}

/// Renders a `u64` in canonical decimal.
pub fn u64_to_dec(n: u64) -> (s: String)
    ensures
        s@ == spec_dec_digits(n as nat),
    decreases n,
{
    if n < 10 {
        let mut s = String::new();
        s.append(dec_digit_str(n));
        proof {
            assert(s@ =~= spec_dec_digits(n as nat));
        }
        s
    } else {
        let mut s = u64_to_dec(n / 10);
        s.append(dec_digit_str(n % 10));
        proof {
            assert(s@ =~= spec_dec_digits(n as nat));
        }
        s
    }
}

/// Renders a `usize` in canonical decimal.
pub fn usize_to_dec(n: usize) -> (s: String)
    ensures
        s@ == spec_dec_digits(n as nat),
{
    u64_to_dec(n as u64)
}

/// Whether `c` is a hexadecimal digit, either case.
pub open spec fn is_hex_digit(c: char) -> bool {
    ('0' as u32 <= c as u32 && c as u32 <= '9' as u32) || ('a' as u32 <= c as u32 && c as u32
        <= 'f' as u32) || ('A' as u32 <= c as u32 && c as u32 <= 'F' as u32)
}

/// The value of a hexadecimal digit.
pub open spec fn hex_val(c: char) -> nat {
    if '0' as u32 <= c as u32 && c as u32 <= '9' as u32 {
        (c as u32 - '0' as u32) as nat
    } else if 'a' as u32 <= c as u32 && c as u32 <= 'f' as u32 {
        (c as u32 - 'a' as u32 + 10) as nat
    } else if 'A' as u32 <= c as u32 && c as u32 <= 'F' as u32 {
        (c as u32 - 'A' as u32 + 10) as nat
    } else {
        0
    }
}

/// The lower-case digit character for a value below sixteen.
pub open spec fn hex_char(d: nat) -> char {
    if d < 10 {
        dec_char(d)
    } else if d == 10 {
        'a'
    } else if d == 11 {
        'b'
    } else if d == 12 {
        'c'
    } else if d == 13 {
        'd'
    } else if d == 14 {
        'e'
    } else {
        'f'
    }
}

/// Whether every character of `s` is a hexadecimal digit.
pub open spec fn all_hex_digits(s: Seq<char>) -> bool {
    forall|i: int| 0 <= i < s.len() ==> is_hex_digit(#[trigger] s[i])
}

/// The number a hexadecimal digit string denotes.
pub open spec fn hexits_val(s: Seq<char>) -> nat
    decreases s.len(),
{
    if s.len() == 0 {
        0
    } else {
        hexits_val(s.drop_last()) * 16 + hex_val(s.last())
    }
}

/// The canonical lower-case hexadecimal rendering of a number.
pub open spec fn spec_hex_digits(n: nat) -> Seq<char>
    decreases n,
{
    if n < 16 {
        seq![hex_char(n)]
    } else {
        spec_hex_digits(n / 16).push(hex_char(n % 16))
    }
}

/// What parsing a hexadecimal `usize` yields.
pub open spec fn spec_parse_hex_usize(s: Seq<char>) -> Option<usize> {
    if s.len() > 0 && all_hex_digits(s) && hexits_val(s) <= usize::MAX {
        Some(hexits_val(s) as usize)
    } else {
        None
    }
}

proof fn lemma_hex_char_val(d: nat)
    requires
        d < 16,
    ensures
        is_hex_digit(hex_char(d)),
        hex_val(hex_char(d)) == d,
        hex_char(d) as u32 != 'x' as u32,
{
}

/// The canonical hexadecimal rendering is non-empty, all digits, holds no
/// `x`, and denotes the number it was made from.
pub proof fn lemma_hex_digits(n: nat)
    ensures
        spec_hex_digits(n).len() >= 1,
        all_hex_digits(spec_hex_digits(n)),
        hexits_val(spec_hex_digits(n)) == n,
        forall|i: int|
            0 <= i < spec_hex_digits(n).len() ==> (#[trigger] spec_hex_digits(n)[i]) as u32
                != 'x' as u32,
    decreases n,
{
    if n < 16 {
        lemma_hex_char_val(n);
        let s = spec_hex_digits(n);
        assert(hexits_val(Seq::<char>::empty()) == 0);
        assert(s.drop_last() =~= Seq::<char>::empty());
        assert(s.last() == hex_char(n));
    } else {
        lemma_hex_digits(n / 16);
        lemma_hex_char_val(n % 16);
        let rec = spec_hex_digits(n / 16);
        let s = spec_hex_digits(n);
        assert(s.drop_last() =~= rec);
        assert(s.last() == hex_char(n % 16));
        assert forall|i: int| 0 <= i < s.len() implies is_hex_digit(#[trigger] s[i]) && (
        #[trigger] s[i]) as u32 != 'x' as u32 by {
            if i < rec.len() {
                assert(s[i] == rec[i]);
            }
        }
    }
}

proof fn lemma_hexits_val_prefix(s: Seq<char>, i: int)
    requires
        0 <= i <= s.len(),
    ensures
        hexits_val(s.subrange(0, i)) <= hexits_val(s),
    decreases s.len() - i,
{
    if i < s.len() {
        lemma_hexits_val_prefix(s, i + 1);
        let a = s.subrange(0, i);
        let b = s.subrange(0, i + 1);
        assert(b.drop_last() =~= a);
        assert(b.last() == s[i]);
    } else {
        assert(s.subrange(0, i) =~= s);
    }
}

proof fn lemma_hexits_val_step(s: Seq<char>, i: int)
    requires
        0 <= i < s.len(),
    ensures
        hexits_val(s.subrange(0, i + 1)) == hexits_val(s.subrange(0, i)) * 16 + hex_val(s[i]),
{
    let a = s.subrange(0, i);
    let b = s.subrange(0, i + 1);
    assert(b.drop_last() =~= a);
    assert(b.last() == s[i]);
}

/// Parses a hexadecimal `usize`, exactly as [`spec_parse_hex_usize`] says.
pub fn parse_hex_usize(s: &str) -> (r: Option<usize>)
    ensures
        r == spec_parse_hex_usize(s@),
{
    let len = s.unicode_len();
    if len == 0 {
        return None;
    }
    let mut i: usize = 0;
    let mut acc: usize = 0;
    proof {
        assert(s@.subrange(0, 0) =~= Seq::<char>::empty());
    }
    while i < len
        invariant
            len == s@.len(),
            0 <= i <= len,
            all_hex_digits(s@.subrange(0, i as int)),
            acc == hexits_val(s@.subrange(0, i as int)),
        decreases len - i,
    {
        let c = s.get_char(i);
        let cv = c as u32;
        let d: usize;
        if '0' as u32 <= cv && cv <= '9' as u32 {
            d = (cv - '0' as u32) as usize;
        } else if 'a' as u32 <= cv && cv <= 'f' as u32 {
            d = (cv - 'a' as u32 + 10) as usize;
        } else if 'A' as u32 <= cv && cv <= 'F' as u32 {
            d = (cv - 'A' as u32 + 10) as usize;
        } else {
            return None;
        }
        proof {
            lemma_hexits_val_step(s@, i as int);
        }
        if acc > (usize::MAX - d) / 16 {
            proof {
                assert(hexits_val(s@.subrange(0, i + 1)) > usize::MAX);
                lemma_hexits_val_prefix(s@, i + 1);
            }
            return None;
        }
        acc = acc * 16 + d;
        proof {
            assert forall|q: int| 0 <= q < i + 1 implies is_hex_digit(
                #[trigger] s@.subrange(0, i + 1)[q],
            ) by {
                if q < i {
                    assert(s@.subrange(0, i + 1)[q] == s@.subrange(0, i as int)[q]);
                }
            }
        }
        i += 1;
    }
    proof {
        assert(s@.subrange(0, len as int) =~= s@);
    }
    Some(acc)
}

/// The one-character string for a hexadecimal digit value.
pub(crate) fn hex_digit_str(d: u64) -> (r: &'static str)
    requires
        d < 16,
    ensures
        r@ =~= seq![hex_char(d as nat)],
{
    proof {
        reveal_strlit("a");
        reveal_strlit("b");
        reveal_strlit("c");
        reveal_strlit("d");
        reveal_strlit("e");
        reveal_strlit("f");
    }
    if d < 10 {
        dec_digit_str(d)
    } else if d == 10 {
        "a"
    } else if d == 11 {
        "b"
    } else if d == 12 {
        "c"
    } else if d == 13 {
        "d"
    } else if d == 14 {
        "e"
    } else {
        "f"
    }
}

/// Renders a `u64` in canonical lower-case hexadecimal, without a prefix.
pub fn u64_to_hex(n: u64) -> (s: String)
    ensures
        s@ == spec_hex_digits(n as nat),
    decreases n,
{
    if n < 16 {
        let mut s = String::new();
        s.append(hex_digit_str(n));
        proof {
            assert(s@ =~= spec_hex_digits(n as nat));
        }
        s
    } else {
        let mut s = u64_to_hex(n / 16);
        s.append(hex_digit_str(n % 16));
        proof {
            assert(s@ =~= spec_hex_digits(n as nat));
        }
        s
    }
}

/// Renders a `usize` in canonical lower-case hexadecimal.
pub fn usize_to_hex(n: usize) -> (s: String)
    ensures
        s@ == spec_hex_digits(n as nat),
{
    u64_to_hex(n as u64)
}

/// `s` with every leading `0x` removed.
pub open spec fn spec_strip_hex_prefix(s: Seq<char>) -> Seq<char>
    decreases s.len(),
{
    if s.len() >= 2 && s[0] == '0' && s[1] == 'x' {
        spec_strip_hex_prefix(s.skip(2))
    } else {
        s
    }
}

/// A canonical hexadecimal rendering has no `0x` prefix to strip.
pub proof fn lemma_strip_of_hex_digits(n: nat)
    ensures
        spec_strip_hex_prefix(spec_hex_digits(n)) == spec_hex_digits(n),
{
    lemma_hex_digits(n);
    let s = spec_hex_digits(n);
    if s.len() >= 2 {
        assert(s[1] as u32 != 'x' as u32);
        assert(s[1] != 'x');
    }
}

/// Removes every leading `0x` of a hexadecimal address.
pub fn strip_hex_prefix(s: &str) -> (r: &str)
    ensures
        r@ == spec_strip_hex_prefix(s@),
{
    let len = s.unicode_len();
    let mut i: usize = 0;
    proof {
        assert(s@.skip(0) =~= s@);
    }
    while i < len && s.get_char(i) == '0' && i + 1 < len && s.get_char(i + 1) == 'x'
        invariant
            len == s@.len(),
            0 <= i <= len,
            spec_strip_hex_prefix(s@.skip(i as int)) == spec_strip_hex_prefix(s@),
        decreases len - i,
    {
        proof {
            assert(s@.skip(i as int)[0] == s@[i as int]);
            assert(s@.skip(i as int)[1] == s@[i + 1]);
            assert(s@.skip(i as int).skip(2) =~= s@.skip(i + 2));
        }
        i += 2;
    }
    proof {
        let t = s@.skip(i as int);
        if t.len() >= 2 {
            assert(t[0] == s@[i as int]);
            assert(t[1] == s@[i + 1]);
        }
        assert(spec_strip_hex_prefix(t) == t);
        assert(s@.subrange(i as int, len as int) =~= t);
    }
    s.substring_char(i, len)
}

/// The index of the first `c` in `s`, or -1 when there is none.
pub open spec fn spec_find(s: Seq<char>, c: char) -> int
    decreases s.len(),
{
    if s.len() == 0 {
        -1
    } else if s[0] == c {
        0
    } else {
        let r = spec_find(s.drop_first(), c);
        if r < 0 {
            -1
        } else {
            r + 1
        }
    }
}

/// The index of the last `c` in `s`, or -1 when there is none.
pub open spec fn spec_rfind(s: Seq<char>, c: char) -> int
    decreases s.len(),
{
    if s.len() == 0 {
        -1
    } else if s.last() == c {
        s.len() - 1
    } else {
        spec_rfind(s.drop_last(), c)
    }
}

/// What the first-occurrence index means.
pub proof fn lemma_find(s: Seq<char>, c: char)
    ensures
        spec_find(s, c) >= -1,
        spec_find(s, c) >= 0 ==> 0 <= spec_find(s, c) < s.len() && s[spec_find(s, c)] == c
            && forall|q: int| 0 <= q < spec_find(s, c) ==> s[q] != c,
        spec_find(s, c) < 0 ==> forall|q: int| 0 <= q < s.len() ==> s[q] != c,
    decreases s.len(),
{
    if s.len() > 0 && s[0] != c {
        lemma_find(s.drop_first(), c);
        let t = s.drop_first();
        let r = spec_find(t, c);
        if r >= 0 {
            assert(s[r + 1] == t[r]);
            assert forall|q: int| 0 <= q < r + 1 implies s[q] != c by {
                if q > 0 {
                    assert(t[q - 1] == s[q]);
                }
            }
        } else {
            assert forall|q: int| 0 <= q < s.len() implies s[q] != c by {
                if q > 0 {
                    assert(t[q - 1] == s[q]);
                }
            }
        }
    }
}

/// A position holding `c` with none before it is the first occurrence.
pub proof fn lemma_find_is(s: Seq<char>, c: char, i: int)
    requires
        0 <= i < s.len(),
        s[i] == c,
        forall|q: int| 0 <= q < i ==> s[q] != c,
    ensures
        spec_find(s, c) == i,
{
    lemma_find(s, c);
    let r = spec_find(s, c);
    if r < 0 {
    } else if r < i {
    } else if r > i {
    }
}

/// A position holding `c` with none after it is the last occurrence.
pub proof fn lemma_rfind(s: Seq<char>, c: char)
    ensures
        spec_rfind(s, c) >= -1,
        spec_rfind(s, c) >= 0 ==> 0 <= spec_rfind(s, c) < s.len() && s[spec_rfind(s, c)] == c
            && forall|q: int| spec_rfind(s, c) < q < s.len() ==> s[q] != c,
        spec_rfind(s, c) < 0 ==> forall|q: int| 0 <= q < s.len() ==> s[q] != c,
    decreases s.len(),
{
    if s.len() > 0 && s.last() != c {
        lemma_rfind(s.drop_last(), c);
        let t = s.drop_last();
        let r = spec_rfind(t, c);
        if r >= 0 {
            assert(s[r] == t[r]);
            assert forall|q: int| r < q < s.len() implies s[q] != c by {
                if q < s.len() - 1 {
                    assert(t[q] == s[q]);
                }
            }
        } else {
            assert forall|q: int| 0 <= q < s.len() implies s[q] != c by {
                if q < s.len() - 1 {
                    assert(t[q] == s[q]);
                }
            }
        }
    }
}

pub proof fn lemma_rfind_is(s: Seq<char>, c: char, i: int)
    requires
        0 <= i < s.len(),
        s[i] == c,
        forall|q: int| i < q < s.len() ==> s[q] != c,
    ensures
        spec_rfind(s, c) == i,
{
    lemma_rfind(s, c);
}

/// Finds the first occurrence of `c` in `s`.
pub fn find_char(s: &str, c: char) -> (r: Option<usize>)
    ensures
        match r {
            Some(i) => i as int == spec_find(s@, c) && i < s@.len() && s@[i as int] == c,
            None => spec_find(s@, c) < 0,
        },
{
    let len = s.unicode_len();
    let mut i: usize = 0;
    while i < len
        invariant
            len == s@.len(),
            0 <= i <= len,
            forall|q: int| 0 <= q < i ==> s@[q] != c,
        decreases len - i,
    {
        if s.get_char(i) == c {
            proof {
                lemma_find_is(s@, c, i as int);
            }
            return Some(i);
        }
        i += 1;
    }
    proof {
        lemma_find(s@, c);
        if spec_find(s@, c) >= 0 {
            assert(s@[spec_find(s@, c)] == c);
        }
    }
    None
}

/// Finds the last occurrence of `c` in `s`.
pub fn rfind_char(s: &str, c: char) -> (r: Option<usize>)
    ensures
        match r {
            Some(i) => i as int == spec_rfind(s@, c) && i < s@.len() && s@[i as int] == c,
            None => spec_rfind(s@, c) < 0,
        },
{
    let len = s.unicode_len();
    let mut i: usize = len;
    while i > 0
        invariant
            len == s@.len(),
            0 <= i <= len,
            forall|q: int| i <= q < len ==> s@[q] != c,
        decreases i,
    {
        i -= 1;
        if s.get_char(i) == c {
            proof {
                lemma_rfind_is(s@, c, i as int);
            }
            return Some(i);
        }
    }
    proof {
        lemma_rfind(s@, c);
        if spec_rfind(s@, c) >= 0 {
            assert(s@[spec_rfind(s@, c)] == c);
        }
    }
    None
}

/// Whether two strings hold the same characters.
pub fn str_eq(a: &str, b: &str) -> (r: bool)
    ensures
        r == (a@ == b@),
{
    let alen = a.unicode_len();
    let blen = b.unicode_len();
    if alen != blen {
        return false;
    }
    let mut i: usize = 0;
    while i < alen
        invariant
            alen == a@.len(),
            a@.len() == b@.len(),
            0 <= i <= alen,
            forall|q: int| 0 <= q < i ==> a@[q] == b@[q],
        decreases alen - i,
    {
        if a.get_char(i) != b.get_char(i) {
            return false;
        }
        i += 1;
    }
    proof {
        assert(a@ =~= b@);
    }
    true
}

} // verus!
