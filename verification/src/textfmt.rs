//! Verified text building blocks: decimal and hexadecimal rendering of
//! integers, zero padding, fixed-point display, and substring search.
//!
//! Store basenames, commit summaries and harness environment values are all
//! assembled from these, so each renders exactly the character sequence its
//! specification names.

use vstd::prelude::*;
use vstd::string::{StrSliceExecFns, StringExecFns};

verus! {

/// The character for one digit value in base 16 (covers base 10 as well).
pub open spec fn digit_char(d: nat) -> char {
    if d == 0 {
        '0'
    } else if d == 1 {
        '1'
    } else if d == 2 {
        '2'
    } else if d == 3 {
        '3'
    } else if d == 4 {
        '4'
    } else if d == 5 {
        '5'
    } else if d == 6 {
        '6'
    } else if d == 7 {
        '7'
    } else if d == 8 {
        '8'
    } else if d == 9 {
        '9'
    } else if d == 10 {
        'a'
    } else if d == 11 {
        'b'
    } else if d == 12 {
        'c'
    } else if d == 13 {
        'd'
    } else if d == 14 {
        'e'
    } else {
        'f'
    }
}

/// The decimal rendering of `n`, most significant digit first.
pub open spec fn dec_digits(n: nat) -> Seq<char>
    decreases n,
{
    if n < 10 {
        seq![digit_char(n)]
    } else {
        dec_digits(n / 10) + seq![digit_char(n % 10)]
    }
}

/// `s` left-padded with `'0'` up to width `w`.
pub open spec fn zero_pad(s: Seq<char>, w: nat) -> Seq<char>
    decreases w - s.len(),
{
    if s.len() >= w {
        s
    } else {
        zero_pad(seq!['0'] + s, w)
    }
}

/// The hexadecimal rendering of one byte, two digits, as digest filenames use.
pub open spec fn hex_pair(b: nat) -> Seq<char> {
    seq![digit_char(b / 16), digit_char(b % 16)]
}

/// Two-digit-per-byte hexadecimal rendering of a byte string.
pub open spec fn hex_of_bytes(bytes: Seq<u8>) -> Seq<char>
    decreases bytes.len(),
{
    if bytes.len() == 0 {
        Seq::empty()
    } else {
        hex_of_bytes(bytes.drop_last()) + hex_pair(bytes.last() as nat)
    }
}

/// Per-byte hexadecimal rendering without a leading zero on bytes below 16,
/// as the collector's human-readable hash strings use.
pub open spec fn hex_of_bytes_short(bytes: Seq<u8>) -> Seq<char>
    decreases bytes.len(),
{
    if bytes.len() == 0 {
        Seq::empty()
    } else if bytes.last() < 16 {
        hex_of_bytes_short(bytes.drop_last()) + seq![digit_char(bytes.last() as nat)]
    } else {
        hex_of_bytes_short(bytes.drop_last()) + hex_pair(bytes.last() as nat)
    }
}

/// Whether `needle` occurs contiguously anywhere in `hay`.
pub open spec fn contains_seq(hay: Seq<char>, needle: Seq<char>) -> bool {
    exists|i: int|
        0 <= i && i + needle.len() <= hay.len() && #[trigger] hay.subrange(i, i + needle.len())
            == needle
}

/// One digit as a string slice.
fn digit_str(d: u64) -> (r: &'static str)
    requires
        d < 16,
    ensures
        r@ =~= seq![digit_char(d as nat)],
{
    proof {
        reveal_strlit("0");
        reveal_strlit("1");
        reveal_strlit("2");
        reveal_strlit("3");
        reveal_strlit("4");
        reveal_strlit("5");
        reveal_strlit("6");
        reveal_strlit("7");
        reveal_strlit("8");
        reveal_strlit("9");
        reveal_strlit("a");
        reveal_strlit("b");
        reveal_strlit("c");
        reveal_strlit("d");
        reveal_strlit("e");
        reveal_strlit("f");
    }
    match d {
        0 => "0",
        1 => "1",
        2 => "2",
        3 => "3",
        4 => "4",
        5 => "5",
        6 => "6",
        7 => "7",
        8 => "8",
        9 => "9",
        10 => "a",
        11 => "b",
        12 => "c",
        13 => "d",
        14 => "e",
        _ => "f",
    }
}

/// Renders `n` in decimal.
pub fn dec_u64(n: u64) -> (r: String)
    ensures
        r@ == dec_digits(n as nat),
    decreases n,
{
    if n < 10 {
        digit_str(n).to_owned()
    } else {
        let mut s = dec_u64(n / 10);
        s.append(digit_str(n % 10));
        s
    }
}

/// Renders `n` in decimal, left-padded with zeros to at least `width` digits.
pub fn dec_u64_pad(n: u64, width: usize) -> (r: String)
    ensures
        r@ == zero_pad(dec_digits(n as nat), width as nat),
{
    let mut s = dec_u64(n);
    while s.unicode_len() < width
        invariant
            zero_pad(s@, width as nat) == zero_pad(dec_digits(n as nat), width as nat),
            s@.len() >= dec_digits(n as nat).len(),
        decreases width - s@.len(),
    {
        let mut t = "0".to_owned();
        proof {
            reveal_strlit("0");
            assert("0"@ =~= seq!['0']);
        }
        t.append(s.as_str());
        s = t;
    }
    s
}

/// Renders a byte string as two-digit-per-byte hexadecimal.
pub fn bytes_hex(bytes: &Vec<u8>) -> (r: String)
    ensures
        r@ == hex_of_bytes(bytes@),
{
    let mut r = String::new();
    let mut i: usize = 0;
    while i < bytes.len()
        invariant
            i <= bytes.len(),
            r@ == hex_of_bytes(bytes@.subrange(0, i as int)),
        decreases bytes.len() - i,
    {
        let b = bytes[i];
        r.append(digit_str((b / 16) as u64));
        r.append(digit_str((b % 16) as u64));
        proof {
            assert(bytes@.subrange(0, i + 1).drop_last() =~= bytes@.subrange(0, i as int));
            assert(bytes@.subrange(0, i + 1).last() == bytes@[i as int]);
        }
        i = i + 1;
    }
    proof {
        assert(bytes@.subrange(0, bytes@.len() as int) =~= bytes@);
    }
    r
}

/// Renders a byte string as the collector's short hexadecimal form: one digit
/// for bytes below 16, two otherwise.
pub fn bytes_hex_short(bytes: &Vec<u8>) -> (r: String)
    ensures
        r@ == hex_of_bytes_short(bytes@),
{
    let mut r = String::new();
    let mut i: usize = 0;
    while i < bytes.len()
        invariant
            i <= bytes.len(),
            r@ == hex_of_bytes_short(bytes@.subrange(0, i as int)),
        decreases bytes.len() - i,
    {
        let b = bytes[i];
        if b >= 16 {
            r.append(digit_str((b / 16) as u64));
        }
        r.append(digit_str((b % 16) as u64));
        proof {
            assert(bytes@.subrange(0, i + 1).drop_last() =~= bytes@.subrange(0, i as int));
            assert(bytes@.subrange(0, i + 1).last() == bytes@[i as int]);
            if b < 16 {
                assert(b % 16 == b) by (nonlinear_arith)
                    requires b < 16;
            }
        }
        i = i + 1;
    }
    proof {
        assert(bytes@.subrange(0, bytes@.len() as int) =~= bytes@);
    }
    r
}

/// The views of a sequence of strings, for stating what a command line or
/// environment block holds.
pub open spec fn strs(v: Seq<String>) -> Seq<Seq<char>> {
    v.map_values(|s: String| s@)
}

/// Strict lexicographic order on byte strings: `x` comes before `y`.
pub open spec fn lex_lt(x: Seq<u8>, y: Seq<u8>) -> bool
    decreases x.len(),
{
    if y.len() == 0 {
        false
    } else if x.len() == 0 {
        true
    } else if x[0] < y[0] {
        true
    } else if x[0] > y[0] {
        false
    } else {
        lex_lt(x.drop_first(), y.drop_first())
    }
}

/// The lexicographic order is total: two byte strings are ordered one way,
/// the other way, or equal.
pub proof fn lemma_lex_total(x: Seq<u8>, y: Seq<u8>)
    ensures
        lex_lt(x, y) || lex_lt(y, x) || x == y,
    decreases x.len(),
{
    if y.len() == 0 {
        if x.len() == 0 {
            assert(x =~= y);
        } else {
            assert(lex_lt(y, x));
        }
    } else if x.len() == 0 {
        assert(lex_lt(x, y));
    } else if x[0] == y[0] {
        lemma_lex_total(x.drop_first(), y.drop_first());
        if !lex_lt(x.drop_first(), y.drop_first()) && !lex_lt(y.drop_first(), x.drop_first()) {
            assert(x.drop_first() == y.drop_first());
            assert(x.len() == y.len());
            assert forall|k: int| 0 <= k < x.len() implies x[k] == y[k] by {
                if k > 0 {
                    assert(x.drop_first()[k - 1] == x[k]);
                    assert(y.drop_first()[k - 1] == y[k]);
                }
            }
            assert(x =~= y);
        }
    }
}

/// Whether `a` comes strictly before `b` in byte-lexicographic order —
/// which, over the UTF-8 encodings this library compares, is also code-point
/// order.
pub fn bytes_lex_lt(a: &[u8], b: &[u8]) -> (r: bool)
    ensures
        r == lex_lt(a@, b@),
{
    let mut i: usize = 0;
    proof {
        assert(a@.subrange(0, a@.len() as int) =~= a@);
        assert(b@.subrange(0, b@.len() as int) =~= b@);
    }
    while i < a.len() && i < b.len()
        invariant
            i <= a@.len(),
            i <= b@.len(),
            lex_lt(a@, b@) == lex_lt(a@.subrange(i as int, a@.len() as int), b@.subrange(
                i as int,
                b@.len() as int,
            )),
        decreases a@.len() - i,
    {
        proof {
            let xs = a@.subrange(i as int, a@.len() as int);
            let ys = b@.subrange(i as int, b@.len() as int);
            assert(xs[0] == a@[i as int]);
            assert(ys[0] == b@[i as int]);
            assert(xs.drop_first() =~= a@.subrange(i + 1, a@.len() as int));
            assert(ys.drop_first() =~= b@.subrange(i + 1, b@.len() as int));
        }
        if a[i] < b[i] {
            return true;
        }
        if a[i] > b[i] {
            return false;
        }
        i = i + 1;
    }
    proof {
        let xs = a@.subrange(i as int, a@.len() as int);
        let ys = b@.subrange(i as int, b@.len() as int);
        if i >= a@.len() {
            assert(xs =~= Seq::<u8>::empty());
        } else {
            assert(ys =~= Seq::<u8>::empty());
        }
    }
    i >= a.len() && i < b.len()
}

/// Whether two string slices hold the same characters.
pub fn str_eq(a: &str, b: &str) -> (r: bool)
    ensures
        r == (a@ == b@),
{
    let a_owned = a.to_owned();
    let b_owned = b.to_owned();
    a_owned == b_owned
}

/// Whether `needle` occurs contiguously anywhere in `hay`.
pub fn str_contains(hay: &str, needle: &str) -> (r: bool)
    ensures
        r == contains_seq(hay@, needle@),
{
    let hay_len = hay.unicode_len();
    let needle_len = needle.unicode_len();
    if needle_len > hay_len {
        proof {
            assert(!contains_seq(hay@, needle@));
        }
        return false;
    }
    let mut i: usize = 0;
    while i <= hay_len - needle_len
        invariant
            needle_len == needle@.len(),
            hay_len == hay@.len(),
            needle_len <= hay_len,
            i <= hay_len - needle_len + 1,
            forall|k: int|
                0 <= k < i ==> #[trigger] hay@.subrange(k, k + needle@.len() as int) != needle@,
        decreases hay_len - needle_len - i + 1,
    {
        let mut j: usize = 0;
        let mut all_match = true;
        while j < needle_len
            invariant
                needle_len == needle@.len(),
                hay_len == hay@.len(),
                needle_len <= hay_len,
                i <= hay_len - needle_len,
                j <= needle_len,
                all_match <==> (forall|k: int| 0 <= k < j ==> hay@[i + k] == #[trigger] needle@[k]),
            decreases needle_len - j,
        {
            if hay.get_char(i + j) != needle.get_char(j) {
                all_match = false;
                proof {
                    assert(hay@[i + j as int] != needle@[j as int]);
                }
                j = needle_len;
            } else {
                j = j + 1;
            }
        }
        if all_match {
            proof {
                assert(hay@.subrange(i as int, i + needle@.len() as int) =~= needle@);
            }
            return true;
        }
        proof {
            assert(hay@.subrange(i as int, i + needle@.len() as int) != needle@);
        }
        i = i + 1;
    }
    proof {
        assert forall|k: int| 0 <= k && k + needle@.len() <= hay@.len() implies #[trigger] hay@
            .subrange(k, k + needle@.len() as int) != needle@ by {
            assert(k < i);
        }
    }
    false
}

} // verus!
