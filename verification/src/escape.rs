//! Escaping a signed envelope into a text safe for a cookie header.
//!
//! A byte is kept as it stands only when it is printable ASCII and outside
//! the unsafe set (controls, space, `"`, `<`, `>`, backtick, `#`, `?`, `{`,
//! `}`, `/`, `:`, `;`, `=`, `@`, `[`, `\`, `]`, `^`, `|`, and `%` itself);
//! every other byte travels as `%XX` with upper-case hex digits.

use vstd::prelude::*;
use vstd::utf8::{encode_utf8, is_ascii_chars, is_ascii_chars_encode_utf8};

verus! {

/// Whether a byte must travel escaped inside a cookie value.
pub open spec fn must_escape(b: u8) -> bool {
    ||| b < 0x21  // controls and space
    ||| b >= 0x7f  // delete and everything beyond ASCII
    ||| b == 0x22  // quotation mark
    ||| b == 0x3c  // less-than
    ||| b == 0x3e  // greater-than
    ||| b == 0x60  // backtick
    ||| b == 0x23  // number sign
    ||| b == 0x3f  // question mark
    ||| b == 0x7b  // left brace
    ||| b == 0x7d  // right brace
    ||| b == 0x2f  // slash
    ||| b == 0x3a  // colon
    ||| b == 0x3b  // semicolon
    ||| b == 0x3d  // equals sign
    ||| b == 0x40  // at sign
    ||| b == 0x5b  // left bracket
    ||| b == 0x5c  // backslash
    ||| b == 0x5d  // right bracket
    ||| b == 0x5e  // caret
    ||| b == 0x7c  // vertical bar
    ||| b == 0x25  // percent sign
}

/// The upper-case hex digit of a value below sixteen.
pub open spec fn hex_upper(n: int) -> char {
    if n == 0 {
        '0'
    } else if n == 1 {
        '1'
    } else if n == 2 {
        '2'
    } else if n == 3 {
        '3'
    } else if n == 4 {
        '4'
    } else if n == 5 {
        '5'
    } else if n == 6 {
        '6'
    } else if n == 7 {
        '7'
    } else if n == 8 {
        '8'
    } else if n == 9 {
        '9'
    } else if n == 10 {
        'A'
    } else if n == 11 {
        'B'
    } else if n == 12 {
        'C'
    } else if n == 13 {
        'D'
    } else if n == 14 {
        'E'
    } else {
        'F'
    }
}

/// The three-character escape of one byte.
pub open spec fn pct_triplet(b: u8) -> Seq<char> {
    seq!['%', hex_upper(b as int / 16), hex_upper(b as int % 16)]
}

/// How one byte appears in the escaped text.
pub open spec fn escape_byte(b: u8) -> Seq<char> {
    if must_escape(b) {
        pct_triplet(b)
    } else {
        seq![b as char]
    }
}

/// The escaped text of a byte sequence.
pub open spec fn escape_bytes(bs: Seq<u8>) -> Seq<char>
    decreases bs.len(),
{
    if bs.len() == 0 {
        Seq::empty()
    } else {
        escape_byte(bs[0]) + escape_bytes(bs.skip(1))
    }
}

/// Relies on `percent_encoding::percent_encode_byte`: a `%XX` triplet with
/// upper-case hex digits, for any byte.
pub assume_specification[ percent_encoding::percent_encode_byte ](byte: u8) -> (r: &'static str)
    ensures
        r@ == pct_triplet(byte),
;

/// Escaping distributes over concatenation.
proof fn lemma_escape_bytes_concat(a: Seq<u8>, b: Seq<u8>)
    ensures
        escape_bytes(a + b) == escape_bytes(a) + escape_bytes(b),
    decreases a.len(),
{
    if a.len() == 0 {
        assert(a + b =~= b);
        assert(escape_bytes(a) + escape_bytes(b) =~= escape_bytes(b));
    } else {
        lemma_escape_bytes_concat(a.skip(1), b);
        assert((a + b).skip(1) =~= a.skip(1) + b);
        assert(escape_byte(a[0]) + (escape_bytes(a.skip(1)) + escape_bytes(b)) =~= (escape_byte(
            a[0],
        ) + escape_bytes(a.skip(1))) + escape_bytes(b));
    }
}

/// Escaping one more byte extends the escaped text.
proof fn lemma_escape_bytes_snoc(bs: Seq<u8>, b: u8)
    ensures
        escape_bytes(bs.push(b)) == escape_bytes(bs) + escape_byte(b),
{
    lemma_escape_bytes_concat(bs, seq![b]);
    assert(bs.push(b) =~= bs + seq![b]);
    assert(seq![b].skip(1) =~= Seq::<u8>::empty());
    assert(escape_bytes(Seq::<u8>::empty()) =~= Seq::<char>::empty());
    assert(escape_bytes(seq![b]) =~= escape_byte(b) + Seq::<char>::empty());
    assert(escape_byte(b) + Seq::<char>::empty() =~= escape_byte(b));
}

/// Whether this byte must travel escaped.
fn must_escape_exec(b: u8) -> (r: bool)
    ensures
        r == must_escape(b),
{
    b < 0x21 || b >= 0x7f || b == 0x22 || b == 0x3c || b == 0x3e || b == 0x60 || b == 0x23 || b
        == 0x3f || b == 0x7b || b == 0x7d || b == 0x2f || b == 0x3a || b == 0x3b || b == 0x3d || b
        == 0x40 || b == 0x5b || b == 0x5c || b == 0x5d || b == 0x5e || b == 0x7c || b == 0x25
}

/// Escape the bytes of a signed envelope for use as a cookie value.
pub fn escape_cookie_value(s: &str) -> (r: Vec<char>)
    ensures
        r@ == escape_bytes(encode_utf8(s@)),
        is_ascii_chars(r@),
{
    let bytes = s.as_bytes_vec();
    let n = bytes.len();
    let mut out: Vec<char> = Vec::new();
    let mut i: usize = 0;
    while i < n
        invariant
            i <= n,
            n == bytes@.len(),
            bytes@ == encode_utf8(s@),
            out@ == escape_bytes(bytes@.take(i as int)),
            is_ascii_chars(out@),
        decreases n - i,
    {
        let b = bytes[i];
        let ghost before = out@;
        if must_escape_exec(b) {
            let t = percent_encoding::percent_encode_byte(b);
            let c0 = t.get_char(0);
            let c1 = t.get_char(1);
            let c2 = t.get_char(2);
            out.push(c0);
            out.push(c1);
            out.push(c2);
            proof {
                assert(out@ =~= before + pct_triplet(b));
                assert('\0' <= hex_upper(b as int / 16) <= '\u{7f}');
                assert('\0' <= hex_upper(b as int % 16) <= '\u{7f}');
            }
        } else {
            out.push(b as char);
            proof {
                assert(out@ =~= before + seq![b as char]);
                assert(b < 0x7f);
            }
        }
        proof {
            lemma_escape_bytes_snoc(bytes@.take(i as int), bytes@[i as int]);
            assert(bytes@.take(i + 1) =~= bytes@.take(i as int).push(bytes@[i as int]));
            assert(out@ =~= escape_bytes(bytes@.take(i + 1)));
        }
        i = i + 1;
    }
    proof {
        assert(bytes@.take(n as int) =~= bytes@);
    }
    out
}

/// Whether a byte spells a hex digit.
pub open spec fn is_hex_byte(b: u8) -> bool {
    (0x30 <= b <= 0x39) || (0x41 <= b <= 0x46) || (0x61 <= b <= 0x66)
}

/// The value of a hex-digit byte.
pub open spec fn hex_byte_val(b: u8) -> int {
    if 0x30 <= b <= 0x39 {
        b - 0x30
    } else if 0x41 <= b <= 0x46 {
        b - 0x41 + 10
    } else {
        b - 0x61 + 10
    }
}

/// Undo the escaping: every `%` followed by two hex digits becomes that
/// byte; everything else passes through unchanged.
pub open spec fn unescape_bytes(bs: Seq<u8>) -> Seq<u8>
    decreases bs.len(),
{
    if bs.len() == 0 {
        Seq::empty()
    } else if bs[0] == 0x25 && bs.len() >= 3 && is_hex_byte(bs[1]) && is_hex_byte(bs[2]) {
        seq![(hex_byte_val(bs[1]) * 16 + hex_byte_val(bs[2])) as u8] + unescape_bytes(bs.skip(3))
    } else {
        seq![bs[0]] + unescape_bytes(bs.skip(1))
    }
}

/// Whether this byte spells a hex digit.
fn is_hex_byte_exec(b: u8) -> (r: bool)
    ensures
        r == is_hex_byte(b),
{
    (0x30 <= b && b <= 0x39) || (0x41 <= b && b <= 0x46) || (0x61 <= b && b <= 0x66)
}

/// The value of a hex-digit byte.
fn hex_byte_val_exec(b: u8) -> (r: u8)
    requires
        is_hex_byte(b),
    ensures
        r == hex_byte_val(b),
        r < 16,
{
    if 0x30 <= b && b <= 0x39 {
        b - 0x30
    } else if 0x41 <= b && b <= 0x46 {
        b - 0x41 + 10
    } else {
        b - 0x61 + 10
    }
}

/// Undo cookie-value escaping on the bytes of a wire value.
pub fn unescape_cookie_value(s: &str) -> (r: Vec<u8>)
    ensures
        r@ == unescape_bytes(encode_utf8(s@)),
{
    let bytes = s.as_bytes_vec();
    let n = bytes.len();
    let mut out: Vec<u8> = Vec::new();
    let mut i: usize = 0;
    proof {
        assert(bytes@.skip(0) =~= bytes@);
        assert(out@ + unescape_bytes(bytes@) =~= unescape_bytes(bytes@));
    }
    while i < n
        invariant
            i <= n,
            n == bytes@.len(),
            bytes@ == encode_utf8(s@),
            unescape_bytes(bytes@) == out@ + unescape_bytes(bytes@.skip(i as int)),
        decreases n - i,
    {
        let b = bytes[i];
        let ghost before = out@;
        let ghost ti = bytes@.skip(i as int);
        proof {
            assert(ti[0] == bytes@[i as int]);
        }
        if b == 0x25 && n - i > 2 && is_hex_byte_exec(bytes[i + 1]) && is_hex_byte_exec(
            bytes[i + 2],
        ) {
            proof {
                assert(ti.len() >= 3);
                assert(ti[1] == bytes@[i + 1]);
                assert(ti[2] == bytes@[i + 2]);
            }
            let hi = hex_byte_val_exec(bytes[i + 1]);
            let lo = hex_byte_val_exec(bytes[i + 2]);
            out.push(hi * 16 + lo);
            proof {
                assert(ti.skip(3) =~= bytes@.skip(i + 3));
                assert(out@ =~= before + seq![(hex_byte_val(ti[1]) * 16 + hex_byte_val(
                    ti[2],
                )) as u8]);
                assert(unescape_bytes(ti) == seq![(hex_byte_val(ti[1]) * 16 + hex_byte_val(
                    ti[2],
                )) as u8] + unescape_bytes(bytes@.skip(i + 3)));
                assert(before + (seq![(hex_byte_val(ti[1]) * 16 + hex_byte_val(ti[2])) as u8]
                    + unescape_bytes(bytes@.skip(i + 3))) =~= out@ + unescape_bytes(
                    bytes@.skip(i + 3),
                ));
            }
            i = i + 3;
        } else {
            proof {
                if ti[0] == 0x25 && ti.len() >= 3 && is_hex_byte(ti[1]) && is_hex_byte(ti[2]) {
                    assert(ti[1] == bytes@[i + 1]);
                    assert(ti[2] == bytes@[i + 2]);
                    assert(false);
                }
            }
            out.push(b);
            proof {
                assert(ti.skip(1) =~= bytes@.skip(i + 1));
                assert(out@ =~= before + seq![ti[0]]);
                assert(unescape_bytes(ti) == seq![ti[0]] + unescape_bytes(bytes@.skip(i + 1)));
                assert(before + (seq![ti[0]] + unescape_bytes(bytes@.skip(i + 1))) =~= out@
                    + unescape_bytes(bytes@.skip(i + 1)));
            }
            i = i + 1;
        }
    }
    proof {
        assert(bytes@.skip(n as int).len() == 0);
        assert(unescape_bytes(bytes@.skip(n as int)) =~= Seq::<u8>::empty());
        assert(out@ + Seq::<u8>::empty() =~= out@);
    }
    out
}

/// The bytes of ASCII characters, one for one.
spec fn ascii_bytes(cs: Seq<char>) -> Seq<u8> {
    Seq::new(cs.len(), |i: int| cs[i] as u8)
}

/// For ASCII text, UTF-8 encoding is the one-for-one byte map.
proof fn lemma_encode_utf8_ascii(cs: Seq<char>)
    requires
        is_ascii_chars(cs),
    ensures
        encode_utf8(cs) == ascii_bytes(cs),
{
    is_ascii_chars_encode_utf8(cs);
    assert(encode_utf8(cs) =~= ascii_bytes(cs));
}

/// Escaped text is ASCII.
proof fn lemma_escape_bytes_ascii(bs: Seq<u8>)
    ensures
        is_ascii_chars(escape_bytes(bs)),
    decreases bs.len(),
{
    if bs.len() == 0 {
    } else {
        lemma_escape_bytes_ascii(bs.skip(1));
        let e = escape_byte(bs[0]);
        assert(is_ascii_chars(e)) by {
            if must_escape(bs[0]) {
                assert(e[0] == '%' && e[1] == hex_upper(bs[0] as int / 16) && e[2] == hex_upper(
                    bs[0] as int % 16,
                ));
            } else {
                assert(e[0] == bs[0] as char);
                assert(bs[0] < 0x7f);
            }
        }
        assert(escape_bytes(bs) =~= e + escape_bytes(bs.skip(1)));
        assert(is_ascii_chars(escape_bytes(bs)));
    }
}

/// Unescaping inverts escaping: the wire text of any byte sequence, read
/// back as bytes, unescapes to that same sequence.
pub proof fn lemma_unescape_escape(bs: Seq<u8>)
    ensures
        is_ascii_chars(escape_bytes(bs)),
        unescape_bytes(encode_utf8(escape_bytes(bs))) == bs,
    decreases bs.len(),
{
    lemma_escape_bytes_ascii(bs);
    lemma_encode_utf8_ascii(escape_bytes(bs));
    let w = ascii_bytes(escape_bytes(bs));
    if bs.len() == 0 {
        assert(w.len() == 0);
        assert(unescape_bytes(w) =~= bs);
    } else {
        let b0 = bs[0];
        let rest = bs.skip(1);
        lemma_unescape_escape(rest);
        lemma_escape_bytes_ascii(rest);
        lemma_encode_utf8_ascii(escape_bytes(rest));
        let wr = ascii_bytes(escape_bytes(rest));
        assert(escape_bytes(bs) == escape_byte(b0) + escape_bytes(rest));
        if must_escape(b0) {
            let hi = b0 as int / 16;
            let lo = b0 as int % 16;
            assert(0 <= hi < 16 && 0 <= lo < 16);
            assert(w.len() >= 3);
            assert(w[0] == '%' as u8);
            assert(w[1] == hex_upper(hi) as u8);
            assert(w[2] == hex_upper(lo) as u8);
            assert(w[0] == 0x25);
            assert(is_hex_byte(w[1]) && hex_byte_val(w[1]) == hi);
            assert(is_hex_byte(w[2]) && hex_byte_val(w[2]) == lo);
            assert((hex_byte_val(w[1]) * 16 + hex_byte_val(w[2])) as u8 == b0);
            assert(w.skip(3) =~= wr);
            assert(unescape_bytes(w) == seq![b0] + unescape_bytes(wr));
            assert(seq![b0] + rest =~= bs);
        } else {
            assert(w[0] == (b0 as char) as u8);
            assert(b0 < 0x7f);
            assert((b0 as char) as u8 == b0);
            assert(w[0] != 0x25);
            assert(w.skip(1) =~= wr);
            assert(unescape_bytes(w) == seq![b0] + unescape_bytes(wr));
            assert(seq![b0] + rest =~= bs);
        }
    }
}

} // verus!
