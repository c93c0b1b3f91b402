//! Small verified text utilities: string equality and prefix tests,
//! suffix extraction, concatenation, lowercase-insensitive comparison,
//! hex encoding of bytes, and decimal parsing of small integers.

use vstd::prelude::*;
use vstd::string::StrSliceExecFns;
use vstd::string::StringExecFns;

verus! {

/// Whether `p` is a prefix of `s`.
pub open spec fn is_prefix_of(p: Seq<char>, s: Seq<char>) -> bool {
    p.len() <= s.len() && s.take(p.len() as int) == p
}

/// Whether `c` is an ASCII decimal digit.
pub open spec fn is_dec_digit(c: char) -> bool {
    48 <= c as int && c as int <= 57
}

/// The value of an ASCII decimal digit.
pub open spec fn dec_digit_val(c: char) -> int {
    c as int - 48
}

/// Whether `s` is a non-empty run of ASCII decimal digits.
pub open spec fn is_dec_seq(s: Seq<char>) -> bool {
    s.len() > 0 && forall|i: int| 0 <= i < s.len() ==> is_dec_digit(#[trigger] s[i])
}

/// The number denoted by a run of ASCII decimal digits.
pub open spec fn dec_val_of(s: Seq<char>) -> int
    decreases s.len(),
{
    if s.len() == 0 {
        0
    } else {
        dec_val_of(s.drop_last()) * 10 + dec_digit_val(s.last())
    }
}

/// The lowercase form of an ASCII letter; any other character is unchanged.
pub open spec fn lower_char(c: char) -> char {
    if 65 <= c as int && c as int <= 90 {
        ((c as u8) + 32) as char
    } else {
        c
    }
}

/// Characterwise ASCII lowercasing.
pub open spec fn lower_seq(s: Seq<char>) -> Seq<char> {
    s.map_values(|c: char| lower_char(c))
}

/// The lowercase hex digit for a value below sixteen.
pub open spec fn hex_char(n: u8) -> char {
    if n == 0 { '0' }
    else if n == 1 { '1' }
    else if n == 2 { '2' }
    else if n == 3 { '3' }
    else if n == 4 { '4' }
    else if n == 5 { '5' }
    else if n == 6 { '6' }
    else if n == 7 { '7' }
    else if n == 8 { '8' }
    else if n == 9 { '9' }
    else if n == 10 { 'a' }
    else if n == 11 { 'b' }
    else if n == 12 { 'c' }
    else if n == 13 { 'd' }
    else if n == 14 { 'e' }
    else { 'f' }
}

/// The lowercase hex encoding of a byte string, two digits per byte.
pub open spec fn hex_of(bytes: Seq<u8>) -> Seq<char>
    decreases bytes.len(),
{
    if bytes.len() == 0 {
        Seq::empty()
    } else {
        hex_of(bytes.drop_last()) + seq![
            hex_char(bytes.last() / 16),
            hex_char(bytes.last() % 16),
        ]
    }
}

/// Whether two strings hold the same characters.
pub fn str_eq(a: &str, b: &str) -> (r: bool)
    ensures
        r == (a@ == b@),
{
    let a_len = a.unicode_len();
    let b_len = b.unicode_len();
    if a_len != b_len {
        assert(a@ != b@) by {
            assert(a@.len() != b@.len());
        }
        return false;
    }
    let mut i: usize = 0;
    while i < a_len
        invariant
            a_len == a@.len(),
            b_len == b@.len(),
            a_len == b_len,
            0 <= i <= a_len,
            forall|j: int| 0 <= j < i ==> a@[j] == b@[j],
        decreases a_len - i,
    {
        if a.get_char(i) != b.get_char(i) {
            return false;
        }
        i += 1;
    }
    proof {
        assert(a@ =~= b@);
    }
    true
}

/// Whether `p` is a prefix of `s`.
pub fn str_starts_with(s: &str, p: &str) -> (r: bool)
    ensures
        r == is_prefix_of(p@, s@),
{
    let s_len = s.unicode_len();
    let p_len = p.unicode_len();
    if p_len > s_len {
        return false;
    }
    let mut i: usize = 0;
    while i < p_len
        invariant
            s_len == s@.len(),
            p_len == p@.len(),
            p_len <= s_len,
            0 <= i <= p_len,
            forall|j: int| 0 <= j < i ==> s@[j] == p@[j],
        decreases p_len - i,
    {
        if s.get_char(i) != p.get_char(i) {
            assert(s@.take(p@.len() as int)[i as int] != p@[i as int]);
            return false;
        }
        i += 1;
    }
    proof {
        assert(s@.take(p@.len() as int) =~= p@);
    }
    true
}

/// The characters of `s` from position `from` on, as an owned string.
pub fn suffix_string(s: &str, from: usize) -> (r: String)
    requires
        from <= s@.len(),
    ensures
        r@ == s@.skip(from as int),
{
    let len = s.unicode_len();
    let sub = s.substring_char(from, len);
    String::from_str(sub)
}

/// The concatenation of two strings, as an owned string.
pub fn concat_strs(a: &str, b: &str) -> (r: String)
    ensures
        r@ == a@ + b@,
{
    let mut r = String::from_str(a);
    r.append(b);
    r
}

/// Whether lowercasing `s` yields exactly `lower`.
pub fn str_eq_lowered(s: &str, lower: &str) -> (r: bool)
    ensures
        r == (lower_seq(s@) == lower@),
{
    let s_len = s.unicode_len();
    let l_len = lower.unicode_len();
    if s_len != l_len {
        assert(lower_seq(s@) != lower@) by {
            assert(lower_seq(s@).len() != lower@.len());
        }
        return false;
    }
    let mut i: usize = 0;
    while i < s_len
        invariant
            s_len == s@.len(),
            l_len == lower@.len(),
            s_len == l_len,
            0 <= i <= s_len,
            forall|j: int| 0 <= j < i ==> lower_seq(s@)[j] == lower@[j],
        decreases s_len - i,
    {
        let c = s.get_char(i);
        let cu = c as u32;
        let lc: char = if 65 <= cu && cu <= 90 {
            ((c as u8) + 32) as char
        } else {
            c
        };
        assert(lc == lower_char(s@[i as int]));
        if lc != lower.get_char(i) {
            assert(lower_seq(s@)[i as int] != lower@[i as int]);
            return false;
        }
        i += 1;
    }
    proof {
        assert(lower_seq(s@) =~= lower@);
    }
    true
}

/// `hex_of` of one more byte extends the encoding by that byte's two digits.
proof fn lemma_hex_of_step(bytes: Seq<u8>, i: int)
    requires
        0 <= i < bytes.len(),
    ensures
        hex_of(bytes.take(i + 1))
            == hex_of(bytes.take(i)) + seq![hex_char(bytes[i] / 16), hex_char(bytes[i] % 16)],
{
    assert(bytes.take(i + 1).drop_last() =~= bytes.take(i));
    assert(bytes.take(i + 1).last() == bytes[i]);
}

/// Appends the lowercase hex digit of a value below sixteen.
fn push_hex_char(s: &mut String, n: u8)
    requires
        n < 16,
    ensures
        final(s)@ == old(s)@ + seq![hex_char(n)],
{
    match n {
        0 => { proof { reveal_strlit("0"); assert("0"@ =~= seq!['0']); } s.append("0"); }
        1 => { proof { reveal_strlit("1"); assert("1"@ =~= seq!['1']); } s.append("1"); }
        2 => { proof { reveal_strlit("2"); assert("2"@ =~= seq!['2']); } s.append("2"); }
        3 => { proof { reveal_strlit("3"); assert("3"@ =~= seq!['3']); } s.append("3"); }
        4 => { proof { reveal_strlit("4"); assert("4"@ =~= seq!['4']); } s.append("4"); }
        5 => { proof { reveal_strlit("5"); assert("5"@ =~= seq!['5']); } s.append("5"); }
        6 => { proof { reveal_strlit("6"); assert("6"@ =~= seq!['6']); } s.append("6"); }
        7 => { proof { reveal_strlit("7"); assert("7"@ =~= seq!['7']); } s.append("7"); }
        8 => { proof { reveal_strlit("8"); assert("8"@ =~= seq!['8']); } s.append("8"); }
        9 => { proof { reveal_strlit("9"); assert("9"@ =~= seq!['9']); } s.append("9"); }
        10 => { proof { reveal_strlit("a"); assert("a"@ =~= seq!['a']); } s.append("a"); }
        11 => { proof { reveal_strlit("b"); assert("b"@ =~= seq!['b']); } s.append("b"); }
        12 => { proof { reveal_strlit("c"); assert("c"@ =~= seq!['c']); } s.append("c"); }
        13 => { proof { reveal_strlit("d"); assert("d"@ =~= seq!['d']); } s.append("d"); }
        14 => { proof { reveal_strlit("e"); assert("e"@ =~= seq!['e']); } s.append("e"); }
        _ => { proof { reveal_strlit("f"); assert("f"@ =~= seq!['f']); } s.append("f"); }
    }
}

/// The lowercase hex encoding of a byte string.
pub fn hex_string_of(bytes: &[u8]) -> (r: String)
    ensures
        r@ == hex_of(bytes@),
{
    let mut r = String::new();
    let mut i: usize = 0;
    while i < bytes.len()
        invariant
            0 <= i <= bytes@.len(),
            r@ == hex_of(bytes@.take(i as int)),
        decreases bytes@.len() - i,
    {
        let b = bytes[i];
        push_hex_char(&mut r, b / 16);
        push_hex_char(&mut r, b % 16);
        proof {
            lemma_hex_of_step(bytes@, i as int);
        }
        i += 1;
    }
    proof {
        assert(bytes@.take(bytes@.len() as int) =~= bytes@);
    }
    r
}

/// `dec_val_of` never goes below zero.
proof fn lemma_dec_val_nonneg(s: Seq<char>)
    requires
        forall|i: int| 0 <= i < s.len() ==> is_dec_digit(#[trigger] s[i]),
    ensures
        dec_val_of(s) >= 0,
    decreases s.len(),
{
    if s.len() > 0 {
        lemma_dec_val_nonneg(s.drop_last());
    }
}

/// Extending a digit run never shrinks its value.
proof fn lemma_dec_val_extend(s: Seq<char>, i: int)
    requires
        forall|j: int| 0 <= j < s.len() ==> is_dec_digit(#[trigger] s[j]),
        0 <= i <= s.len(),
    ensures
        dec_val_of(s) >= dec_val_of(s.take(i)),
    decreases s.len() - i,
{
    if i < s.len() {
        lemma_dec_val_nonneg(s.take(i));
        assert(s.take(i + 1).drop_last() =~= s.take(i));
        assert(dec_val_of(s.take(i + 1)) >= dec_val_of(s.take(i)));
        lemma_dec_val_extend(s, i + 1);
    } else {
        assert(s.take(i) =~= s);
    }
}

/// What `parse_u16` returns: the denoted value, if the string is a
/// non-empty run of ASCII decimal digits naming a number that fits.
pub open spec fn parse_u16_spec(s: Seq<char>) -> Option<u16> {
    if is_dec_seq(s) && dec_val_of(s) <= 65535 {
        Some(dec_val_of(s) as u16)
    } else {
        None
    }
}

/// Parses a non-empty run of ASCII decimal digits as a `u16`.
pub fn parse_u16(s: &str) -> (r: Option<u16>)
    ensures
        r == parse_u16_spec(s@),
{
    let len = s.unicode_len();
    if len == 0 {
        return None;
    }
    let mut acc: u32 = 0;
    let mut i: usize = 0;
    while i < len
        invariant
            len == s@.len(),
            0 <= i <= len,
            forall|j: int| 0 <= j < i ==> is_dec_digit(#[trigger] s@[j]),
            acc == dec_val_of(s@.take(i as int)),
            acc <= 65535,
        decreases len - i,
    {
        let c = s.get_char(i);
        let cu = c as u32;
        if !(48 <= cu && cu <= 57) {
            assert(!is_dec_digit(s@[i as int]));
            return None;
        }
        proof {
            assert(s@.take(i as int + 1).drop_last() =~= s@.take(i as int));
        }
        acc = acc * 10 + (cu - 48);
        if acc > 65535 {
            proof {
                if is_dec_seq(s@) {
                    lemma_dec_val_extend(s@, i as int + 1);
                }
            }
            return None;
        }
        i += 1;
    }
    proof {
        assert(s@.take(len as int) =~= s@);
    }
    Some(acc as u16)
}

} // verus!
