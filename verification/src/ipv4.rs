//! Dotted-quad IPv4 literals: four decimal octets separated by dots, each
//! of one to three digits, without a leading zero, and at most 255.

use crate::text::{
    join, lemma_join_split, lemma_split_joined, lemma_split_single, span_texts, split,
    split_spans,
};
use vstd::prelude::*;

verus! {

/// Whether `c` is one of the ASCII digits `0` to `9`.
pub open spec fn is_digit(c: char) -> bool {
    48 <= c as int <= 57
}

/// Whether every character of `s` is an ASCII digit.
pub open spec fn all_digits(s: Seq<char>) -> bool {
    forall|i: int| 0 <= i < s.len() ==> is_digit(#[trigger] s[i])
}

/// The number that the digits of `s` write in base ten.
pub open spec fn decimal(s: Seq<char>) -> nat
    decreases s.len(),
{
    if s.len() == 0 {
        0
    } else {
        decimal(s.drop_last()) * 10 + (s.last() as int - 48) as nat
    }
}

/// The octet that `s` writes, if it writes one: one to three digits, no
/// leading zero on a longer field, value at most 255.
pub open spec fn octet_value(s: Seq<char>) -> Option<u8> {
    if 1 <= s.len() <= 3 && all_digits(s) && (s.len() == 1 || s[0] != '0') && decimal(s) <= 255 {
        Some(decimal(s) as u8)
    } else {
        None
    }
}

/// The 32-bit encoding of the address `a.b.c.d`: `a` is the most
/// significant byte, as the address travels on the network.
pub open spec fn encode(a: u8, b: u8, c: u8, d: u8) -> u32 {
    (a * 16777216 + b * 65536 + c * 256 + d) as u32
}

/// The encoded address that the dotted quad `s` writes, if it writes one.
pub open spec fn quad_value(s: Seq<char>) -> Option<u32> {
    let f = split(s, '.');
    if f.len() == 4 {
        match (octet_value(f[0]), octet_value(f[1]), octet_value(f[2]), octet_value(f[3])) {
            (Some(a), Some(b), Some(c), Some(d)) => Some(encode(a, b, c, d)),
            _ => None,
        }
    } else {
        None
    }
}

/// A character and its code determine each other.
pub proof fn lemma_char_code(c: char)
    ensures
        c as u32 == c as int,
        (c as int) as char == c,
{
}

/// The character that writes the digit `d`.
pub open spec fn digit_char(d: u8) -> char {
    (48 + d) as char
}

/// The shortest decimal text of an octet.
pub open spec fn octet_text(n: u8) -> Seq<char> {
    if n < 10 {
        seq![digit_char(n)]
    } else if n < 100 {
        seq![digit_char(n / 10), digit_char(n % 10)]
    } else {
        seq![digit_char(n / 100), digit_char((n / 10) % 10), digit_char(n % 10)]
    }
}

/// The dotted quad that writes the address `a.b.c.d`.
pub open spec fn quad_text(a: u8, b: u8, c: u8, d: u8) -> Seq<char> {
    octet_text(a) + seq!['.'] + octet_text(b) + seq!['.'] + octet_text(c) + seq!['.']
        + octet_text(d)
}

/// A field writes the octet `n` exactly when it is the shortest decimal
/// text of `n`.
pub proof fn lemma_octet_value_iff_text(s: Seq<char>, n: u8)
    ensures
        octet_value(s) == Some(n) <==> s == octet_text(n),
{
    reveal_with_fuel(decimal, 4);
    let t = octet_text(n);
    if s == t {
        if n < 10 {
            assert(t.drop_last() =~= Seq::<char>::empty());
        } else if n < 100 {
            assert(t.drop_last() =~= seq![digit_char(n / 10)]);
            assert(t.drop_last().drop_last() =~= Seq::<char>::empty());
        } else {
            assert(t.drop_last() =~= seq![digit_char(n / 100), digit_char((n / 10) % 10)]);
            assert(t.drop_last().drop_last() =~= seq![digit_char(n / 100)]);
            assert(t.drop_last().drop_last().drop_last() =~= Seq::<char>::empty());
        }
        assert(all_digits(t));
        assert(decimal(t) == n);
    }
    if octet_value(s) == Some(n) {
        lemma_char_code(s[0]);
        if s.len() > 1 {
            lemma_char_code(s[1]);
        }
        if s.len() > 2 {
            lemma_char_code(s[2]);
        }
        assert(is_digit(s[0]));
        if s.len() == 1 {
            assert(s.drop_last() =~= Seq::<char>::empty());
            assert(decimal(s) == s[0] as int - 48);
            assert(t[0] as int == s[0] as int);
            assert(s =~= t);
        } else if s.len() == 2 {
            assert(is_digit(s[1]));
            assert(s.drop_last() =~= seq![s[0]]);
            assert(s.drop_last().drop_last() =~= Seq::<char>::empty());
            assert(decimal(s) == (s[0] as int - 48) * 10 + (s[1] as int - 48));
            assert(t.len() == 2);
            assert(t[0] as int == s[0] as int);
            assert(t[1] as int == s[1] as int);
            assert(s =~= t);
        } else {
            assert(is_digit(s[1]));
            assert(is_digit(s[2]));
            assert(s.drop_last() =~= seq![s[0], s[1]]);
            assert(s.drop_last().drop_last() =~= seq![s[0]]);
            assert(s.drop_last().drop_last().drop_last() =~= Seq::<char>::empty());
            assert(decimal(s) == (s[0] as int - 48) * 100 + (s[1] as int - 48) * 10 + (s[2] as int
                - 48));
            assert(t.len() == 3);
            assert(t[0] as int == s[0] as int);
            assert(t[1] as int == s[1] as int);
            assert(t[2] as int == s[2] as int);
            assert(s =~= t);
        }
    }
}

/// A text writes an address exactly when it is the dotted quad of four
/// octets, each in its shortest decimal form; the address is then the
/// encoding of those octets.
pub proof fn lemma_quad_value_iff_text(s: Seq<char>, address: u32)
    ensures
        quad_value(s) == Some(address) <==> exists|a: u8, b: u8, c: u8, d: u8|
            s == #[trigger] quad_text(a, b, c, d) && address == encode(a, b, c, d),
{
    if quad_value(s) == Some(address) {
        let f = split(s, '.');
        let a = octet_value(f[0])->0;
        let b = octet_value(f[1])->0;
        let c = octet_value(f[2])->0;
        let d = octet_value(f[3])->0;
        lemma_octet_value_iff_text(f[0], a);
        lemma_octet_value_iff_text(f[1], b);
        lemma_octet_value_iff_text(f[2], c);
        lemma_octet_value_iff_text(f[3], d);
        lemma_join_split(s, '.');
        reveal_with_fuel(join, 5);
        let f3 = f.drop_last();
        let f2 = f3.drop_last();
        let f1 = f2.drop_last();
        assert(f3.last() == f[2]);
        assert(f2.last() == f[1]);
        assert(f1[0] == f[0]);
        assert(join(f, '.') == join(f3, '.') + seq!['.'] + f[3]);
        assert(join(f3, '.') == join(f2, '.') + seq!['.'] + f[2]);
        assert(join(f2, '.') == join(f1, '.') + seq!['.'] + f[1]);
        assert(join(f1, '.') == f[0]);
        assert(s == quad_text(a, b, c, d));
    }
    if exists|a: u8, b: u8, c: u8, d: u8|
        s == #[trigger] quad_text(a, b, c, d) && address == encode(a, b, c, d) {
        let (a, b, c, d) = choose|a: u8, b: u8, c: u8, d: u8|
            s == #[trigger] quad_text(a, b, c, d) && address == encode(a, b, c, d);
        lemma_quad_text_fields(a, b, c, d);
        lemma_octet_value_iff_text(octet_text(a), a);
        lemma_octet_value_iff_text(octet_text(b), b);
        lemma_octet_value_iff_text(octet_text(c), c);
        lemma_octet_value_iff_text(octet_text(d), d);
    }
}

/// The fields of a dotted quad are the texts of its four octets.
pub proof fn lemma_quad_text_fields(a: u8, b: u8, c: u8, d: u8)
    ensures
        split(quad_text(a, b, c, d), '.') == seq![
            octet_text(a),
            octet_text(b),
            octet_text(c),
            octet_text(d),
        ],
{
    let dot = seq!['.'];
    let (ta, tb, tc, td) = (octet_text(a), octet_text(b), octet_text(c), octet_text(d));
    lemma_split_single(ta, '.');
    lemma_split_single(tb, '.');
    lemma_split_single(tc, '.');
    lemma_split_single(td, '.');
    lemma_split_joined(ta, tb, '.');
    lemma_split_joined(ta + dot + tb, tc, '.');
    lemma_split_joined(ta + dot + tb + dot + tc, td, '.');
    assert(seq![ta] + seq![tb] + seq![tc] + seq![td] =~= seq![ta, tb, tc, td]);
}

/// Encodes four octets, first octet most significant.
pub fn pack(octets: [u8; 4]) -> (r: u32)
    ensures
        r == encode(octets[0], octets[1], octets[2], octets[3]),
{
    let a: u32 = octets[0] as u32;
    let b: u32 = octets[1] as u32;
    let c: u32 = octets[2] as u32;
    let d: u32 = octets[3] as u32;
    a * 16777216 + b * 65536 + c * 256 + d
}

/// Reads `s[lo..hi]` as one decimal octet.
pub fn parse_octet(s: &[char], lo: usize, hi: usize) -> (r: Option<u8>)
    requires
        lo <= hi <= s@.len(),
    ensures
        r == octet_value(s@.subrange(lo as int, hi as int)),
{
    let ghost field = s@.subrange(lo as int, hi as int);
    let n: usize = hi - lo;
    if n < 1 || n > 3 {
        return None;
    }
    assert(field[0] == s@[lo as int]);
    if n > 1 && s[lo] == '0' {
        return None;
    }
    let mut value: u32 = 0;
    let mut i: usize = lo;
    proof {
        assert(s@.subrange(lo as int, lo as int) =~= Seq::<char>::empty());
    }
    while i < hi
        invariant
            lo <= i <= hi <= s@.len(),
            hi - lo <= 3,
            field == s@.subrange(lo as int, hi as int),
            all_digits(s@.subrange(lo as int, i as int)),
            value == decimal(s@.subrange(lo as int, i as int)),
            i - lo == 0 ==> value == 0,
            i - lo == 1 ==> value <= 9,
            i - lo == 2 ==> value <= 99,
            i - lo == 3 ==> value <= 999,
        decreases hi - i,
    {
        let c = s[i];
        let code: u32 = c as u32;
        proof {
            lemma_char_code(c);
        }
        if code < 48 || code > 57 {
            proof {
                assert(field[i - lo] == c);
                assert(!is_digit(field[i - lo]));
            }
            return None;
        }
        proof {
            let t = s@.subrange(lo as int, i + 1);
            assert(t.drop_last() =~= s@.subrange(lo as int, i as int));
            assert(t.last() == c);
            assert forall|k: int| 0 <= k < t.len() implies is_digit(#[trigger] t[k]) by {
                if k < t.len() - 1 {
                    assert(t[k] == t.drop_last()[k]);
                }
            }
        }
        value = value * 10 + (code - 48);
        i += 1;
    }
    if value > 255 {
        None
    } else {
        Some(value as u8)
    }
}

/// Reads `s[lo..hi]` as a dotted quad and encodes the address.
pub fn parse_quad(s: &[char], lo: usize, hi: usize) -> (r: Option<u32>)
    requires
        lo <= hi <= s@.len(),
    ensures
        r == quad_value(s@.subrange(lo as int, hi as int)),
{
    let spans = split_spans(s, lo, hi, '.');
    if spans.len() != 4 {
        return None;
    }
    let ghost f = span_texts(s@, spans@);
    proof {
        assert(f[0] == s@.subrange(spans@[0].0 as int, spans@[0].1 as int));
        assert(f[1] == s@.subrange(spans@[1].0 as int, spans@[1].1 as int));
        assert(f[2] == s@.subrange(spans@[2].0 as int, spans@[2].1 as int));
        assert(f[3] == s@.subrange(spans@[3].0 as int, spans@[3].1 as int));
    }
    let a = match parse_octet(s, spans[0].0, spans[0].1) {
        Some(v) => v,
        None => { return None; },
    };
    let b = match parse_octet(s, spans[1].0, spans[1].1) {
        Some(v) => v,
        None => { return None; },
    };
    let c = match parse_octet(s, spans[2].0, spans[2].1) {
        Some(v) => v,
        None => { return None; },
    };
    let d = match parse_octet(s, spans[3].0, spans[3].1) {
        Some(v) => v,
        None => { return None; },
    };
    Some(pack([a, b, c, d]))
}

} // verus!
