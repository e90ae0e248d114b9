use vstd::prelude::*;

verus! {

/// Radix of the short-code alphabet.
pub const BASE: u64 = 62;

/// The character for digit `d` (0..62): `0-9`, then `a-z`, then `A-Z`.
pub open spec fn digit_char(d: nat) -> char {
    if d < 10 {
        ((48 + d) as u8) as char
    } else if d < 36 {
        ((87 + d) as u8) as char
    } else {
        ((29 + d) as u8) as char
    }
}

/// The digit that character `c` stands for, or `None` outside the alphabet.
pub open spec fn digit_value(c: char) -> Option<nat> {
    if '0' <= c && c <= '9' {
        Some((c as u32 - 48) as nat)
    } else if 'a' <= c && c <= 'z' {
        Some((c as u32 - 87) as nat)
    } else if 'A' <= c && c <= 'Z' {
        Some((c as u32 - 29) as nat)
    } else {
        None
    }
}

/// Base-62 digits of `n`, most significant first, with no leading zero digit
/// (zero itself is the single digit `'0'`).
pub open spec fn encode_digits(n: nat) -> Seq<char>
    decreases n,
{
    if n < 62 {
        seq![digit_char(n)]
    } else {
        encode_digits(n / 62).push(digit_char(n % 62))
    }
}

/// The value of a base-62 string, or `None` if a character lies outside the
/// alphabet. The empty string has value zero.
pub open spec fn decode_value(s: Seq<char>) -> Option<nat>
    decreases s.len(),
{
    if s.len() == 0 {
        Some(0)
    } else {
        match (decode_value(s.drop_last()), digit_value(s.last())) {
            (Some(p), Some(d)) => Some(p * 62 + d),
            _ => None,
        }
    }
}

/// What `decode` returns: the value when it is valid and fits in an `i64`.
pub open spec fn decode_spec(s: Seq<char>) -> Option<i64> {
    match decode_value(s) {
        Some(v) => if v <= i64::MAX {
            Some(v as i64)
        } else {
            None
        },
        None => None,
    }
}

/// The characters of `v` (digits, least significant first) in reverse order.
pub open spec fn rev_chars(v: Seq<u8>) -> Seq<char> {
    Seq::new(v.len(), |i: int| digit_char(v[v.len() - 1 - i] as nat))
}

/// Relies on `String::push` of std: the character is appended at the end.
#[verifier::external_body]
pub(crate) fn push_char(s: &mut String, c: char)
    ensures
        final(s)@ == old(s)@.push(c),
{
    s.push(c)
}

proof fn lemma_digit_round_trip(d: nat)
    requires
        d < 62,
    ensures
        digit_value(digit_char(d)) == Some(d),
{
}

fn digit_to_char(d: u8) -> (c: char)
    requires
        d < 62,
    ensures
        c == digit_char(d as nat),
{
    if d < 10 {
        (48 + d) as char
    } else if d < 36 {
        (87 + d) as char
    } else {
        (29 + d) as char
    }
}

fn char_to_digit(c: char) -> (r: Option<u64>)
    ensures
        match digit_value(c) {
            Some(d) => r == Some(d as u64),
            None => r is None,
        },
{
    if '0' <= c && c <= '9' {
        Some(c as u64 - 48)
    } else if 'a' <= c && c <= 'z' {
        Some(c as u64 - 87)
    } else if 'A' <= c && c <= 'Z' {
        Some(c as u64 - 29)
    } else {
        None
    }
}

/// Encodes a non-negative identifier as its base-62 code.
pub fn encode(id: i64) -> (r: String)
    requires
        id >= 0,
    ensures
        r@ == encode_digits(id as nat),
{
    let mut num: u64 = id as u64;
    let mut rev: Vec<u8> = Vec::new();
    loop
        invariant_except_break
            encode_digits(id as nat) == encode_digits(num as nat) + rev_chars(rev@),
        invariant
            forall|i: int| 0 <= i < rev@.len() ==> rev@[i] < 62,
        ensures
            encode_digits(id as nat) == rev_chars(rev@),
            forall|i: int| 0 <= i < rev@.len() ==> rev@[i] < 62,
        decreases num,
    {
        let d: u8 = (num % BASE) as u8;
        let ghost old_rev = rev@;
        rev.push(d);
        assert(rev_chars(rev@) =~= seq![digit_char(d as nat)] + rev_chars(old_rev));
        if num < BASE {
            assert(encode_digits(num as nat) == seq![digit_char(d as nat)]);
            break;
        }
        assert(encode_digits(num as nat) == encode_digits((num / BASE) as nat).push(
            digit_char(d as nat),
        ));
        assert(encode_digits(num as nat) + rev_chars(old_rev) =~= encode_digits(
            (num / BASE) as nat,
        ) + rev_chars(rev@));
        num = num / BASE;
    }
    let mut out = String::new();
    let mut j: usize = rev.len();
    while j > 0
        invariant
            j <= rev@.len(),
            forall|i: int| 0 <= i < rev@.len() ==> rev@[i] < 62,
            out@ == rev_chars(rev@).take(rev@.len() - j),
        decreases j,
    {
        let c = digit_to_char(rev[j - 1]);
        push_char(&mut out, c);
        j = j - 1;
        assert(out@ =~= rev_chars(rev@).take(rev@.len() - j));
    }
    assert(out@ =~= rev_chars(rev@));
    out
}

/// Decodes a base-62 code. Returns `None` when a character lies outside the
/// alphabet or the value does not fit in an `i64`.
pub fn decode(code: &str) -> (r: Option<i64>)
    ensures
        r == decode_spec(code@),
{
    let n = code.unicode_len();
    let mut result: u64 = 0;
    let mut i: usize = 0;
    while i < n
        invariant
            i <= n,
            n == code@.len(),
            decode_value(code@.take(i as int)) == Some(result as nat),
        decreases n - i,
    {
        let c = code.get_char(i);
        proof {
            assert(code@.take(i + 1).drop_last() =~= code@.take(i as int));
            assert(code@.take(i + 1).last() == c);
        }
        let value = match char_to_digit(c) {
            Some(v) => v,
            None => {
                proof {
                    lemma_invalid_char_rejected(code@, i as int);
                }
                return None;
            },
        };
        let next = match result.checked_mul(BASE) {
            Some(m) => m.checked_add(value),
            None => None,
        };
        match next {
            Some(v) => {
                result = v;
            },
            None => {
                proof {
                    lemma_prefix_at_most_whole(code@, i + 1);
                }
                return None;
            },
        }
        i = i + 1;
    }
    assert(code@.take(n as int) =~= code@);
    if result > i64::MAX as u64 {
        None
    } else {
        Some(result as i64)
    }
}

/// A valid string has a value no smaller than that of any of its prefixes.
proof fn lemma_prefix_at_most_whole(s: Seq<char>, j: int)
    requires
        0 <= j <= s.len(),
    ensures
        decode_value(s) is Some ==> decode_value(s.take(j)) is Some && decode_value(s.take(j))->0
            <= decode_value(s)->0,
    decreases s.len(),
{
    if j == s.len() {
        assert(s.take(j) =~= s);
    } else if decode_value(s) is Some {
        let t = s.drop_last();
        assert(t.take(j) =~= s.take(j));
        lemma_prefix_at_most_whole(t, j);
    }
}

proof fn lemma_invalid_char_rejected(s: Seq<char>, k: int)
    requires
        0 <= k < s.len(),
        digit_value(s[k]) is None,
    ensures
        decode_value(s) is None,
    decreases s.len(),
{
    if k < s.len() - 1 {
        lemma_invalid_char_rejected(s.drop_last(), k);
    }
}

proof fn lemma_decode_value_of_encoding(n: nat)
    ensures
        decode_value(encode_digits(n)) == Some(n),
    decreases n,
{
    if n < 62 {
        lemma_digit_round_trip(n);
        assert(encode_digits(n).drop_last() =~= Seq::<char>::empty());
        assert(decode_value(Seq::<char>::empty()) == Some(0nat));
    } else {
        lemma_decode_value_of_encoding(n / 62);
        lemma_digit_round_trip(n % 62);
        assert(encode_digits(n).drop_last() =~= encode_digits(n / 62));
        assert(encode_digits(n).last() == digit_char(n % 62));
        assert((n / 62) * 62 + n % 62 == n) by (nonlinear_arith);
    }
}

proof fn lemma_leading_digit(n: nat)
    ensures
        encode_digits(n).len() >= 1,
        encode_digits(n)[0] == '0' <==> n == 0,
    decreases n,
{
    if n >= 62 {
        lemma_leading_digit(n / 62);
    }
}

/// Decoding the encoding of any non-negative identifier gives it back.
pub proof fn lemma_round_trip(id: i64)
    requires
        id >= 0,
    ensures
        decode_spec(encode_digits(id as nat)) == Some(id),
{
    lemma_decode_value_of_encoding(id as nat);
}

/// Zero encodes to the single zero digit, and no other identifier's code
/// starts with the zero digit.
pub proof fn lemma_no_leading_zero(id: i64)
    requires
        id >= 0,
    ensures
        encode_digits(0) == seq!['0'],
        encode_digits(id as nat).len() >= 1,
        encode_digits(id as nat)[0] == '0' <==> id == 0,
{
    lemma_leading_digit(id as nat);
}

/// A code holding any character outside the alphabet is rejected.
pub proof fn lemma_outside_alphabet_rejected(code: Seq<char>, k: int)
    requires
        0 <= k < code.len(),
        digit_value(code[k]) is None,
    ensures
        decode_spec(code) is None,
{
    lemma_invalid_char_rejected(code, k);
}

} // verus!
