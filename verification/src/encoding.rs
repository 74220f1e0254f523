//! File names for points kept on disk (the Cold tier).
//!
//! A point id becomes a file name by percent-encoding: ASCII letters and
//! digits, `-`, `_` and `.` are kept; every other character is replaced by
//! `%XX` for each byte of its UTF-8 encoding (upper-case hex). Distinct ids
//! therefore get distinct file names, and no name holds a path separator.
use crate::text::{push_char, push_str, str_chars};
use vstd::prelude::*;
use vstd::utf8::{encode_scalar, encode_utf8, decode_utf8, encode_utf8_decode_utf8, leading_byte_width_1, has_width_1_encoding};

verus! {

/// A character kept as it is in a file name.
pub open spec fn is_safe_char(c: char) -> bool {
    let u = c as u32;
    (48 <= u <= 57) || (65 <= u <= 90) || (97 <= u <= 122) || u == 45 || u == 95 || u == 46
}

/// The upper-case hex digit of `n` (0 ≤ n < 16).
pub open spec fn hex_digit(n: int) -> char {
    if n < 10 {
        (48 + n) as char
    } else {
        (55 + n) as char
    }
}

/// `%XX` for each byte of `bs`.
pub open spec fn escape_bytes(bs: Seq<u8>) -> Seq<char>
    decreases bs.len(),
{
    if bs.len() == 0 {
        Seq::empty()
    } else {
        seq!['%', hex_digit(bs[0] as int / 16), hex_digit(bs[0] as int % 16)] + escape_bytes(bs.drop_first())
    }
}

/// The encoding of one character.
pub open spec fn encode_char(c: char) -> Seq<char> {
    if is_safe_char(c) {
        seq![c]
    } else {
        escape_bytes(encode_scalar(c as u32))
    }
}

/// The encoding of an id, character by character.
pub open spec fn encode_id(s: Seq<char>) -> Seq<char>
    decreases s.len(),
{
    if s.len() == 0 {
        Seq::empty()
    } else {
        encode_char(s[0]) + encode_id(s.drop_first())
    }
}

proof fn lemma_encode_push(s: Seq<char>, c: char)
    ensures
        encode_id(s.push(c)) == encode_id(s) + encode_char(c),
    decreases s.len(),
{
    if s.len() == 0 {
        assert(s.push(c).drop_first() =~= Seq::<char>::empty());
        assert(s.push(c)[0] == c);
        assert(encode_id(Seq::<char>::empty()) == Seq::<char>::empty());
        assert(encode_id(s.push(c)) =~= encode_char(c));
        assert(encode_id(s) == Seq::<char>::empty());
    } else {
        assert(s.push(c).drop_first() =~= s.drop_first().push(c));
        lemma_encode_push(s.drop_first(), c);
        assert(encode_id(s.push(c)) =~= encode_id(s) + encode_char(c));
    }
}

fn hex_char(n: u8) -> (c: char)
    requires
        n < 16,
    ensures
        c == hex_digit(n as int),
{
    if n < 10 {
        (48 + n) as char
    } else {
        (55 + n) as char
    }
}

/// The UTF-8 encoding of `c`.
fn char_utf8(c: char) -> (bytes: Vec<u8>)
    ensures
        bytes@ == encode_scalar(c as u32),
{
    let v = c as u32;
    let mut bytes: Vec<u8> = Vec::new();
    if v <= 0x7F {
        bytes.push((v & 0x7F) as u8);
    } else if v <= 0x7FF {
        bytes.push(0xC0 | ((v >> 6) & 0x1F) as u8);
        bytes.push(0x80 | (v & 0x3F) as u8);
    } else if v <= 0xFFFF {
        bytes.push(0xE0 | ((v >> 12) & 0x0F) as u8);
        bytes.push(0x80 | ((v >> 6) & 0x3F) as u8);
        bytes.push(0x80 | (v & 0x3F) as u8);
    } else {
        bytes.push(0xF0 | ((v >> 18) & 0x7) as u8);
        bytes.push(0x80 | ((v >> 12) & 0x3F) as u8);
        bytes.push(0x80 | ((v >> 6) & 0x3F) as u8);
        bytes.push(0x80 | (v & 0x3F) as u8);
    }
    proof {
        assert(bytes@ =~= encode_scalar(v));
    }
    bytes
}

fn is_safe(c: char) -> (b: bool)
    ensures
        b == is_safe_char(c),
{
    let u = c as u32;
    (48 <= u && u <= 57) || (65 <= u && u <= 90) || (97 <= u && u <= 122) || u == 45 || u == 95
        || u == 46
}

/// The file name of the point `id` in the Cold tier: its encoding
/// followed by `.json`.
pub fn cold_file_name(id: &str) -> (name: String)
    ensures
        name@ == encode_id(id@) + ".json"@,
{
    let cs = str_chars(id);
    let mut safe = String::new();
    let mut i: usize = 0;
    while i < cs.len()
        invariant
            i <= cs.len(),
            cs@ == id@,
            safe@ == encode_id(cs@.take(i as int)),
        decreases cs.len() - i,
    {
        let c = cs[i];
        let ghost before = safe@;
        proof {
            assert(cs@.take(i + 1) =~= cs@.take(i as int).push(c));
            lemma_encode_push(cs@.take(i as int), c);
        }
        if is_safe(c) {
            push_char(&mut safe, c);
            proof {
                assert(safe@ =~= before + encode_char(c));
            }
        } else {
            let bytes = char_utf8(c);
            proof {
                lemma_escape_len(bytes@);
            }
            let mut k: usize = 0;
            while k < bytes.len()
                invariant
                    k <= bytes.len(),
                    bytes@ == encode_scalar(c as u32),
                    safe@ == before + escape_bytes(bytes@).take(3 * k as int),
                    escape_bytes(bytes@).len() == 3 * bytes@.len(),
                decreases bytes.len() - k,
            {
                proof {
                    lemma_escape_at(bytes@, k as int);
                }
                let b = bytes[k];
                push_char(&mut safe, '%');
                push_char(&mut safe, hex_char(b / 16));
                push_char(&mut safe, hex_char(b % 16));
                proof {
                    assert(escape_bytes(bytes@).take(3 * (k + 1)) =~= escape_bytes(bytes@).take(3 * k as int).push('%').push(hex_digit(b as int / 16)).push(hex_digit(b as int % 16)));
                }
                k += 1;
            }
            proof {
                assert(escape_bytes(bytes@).take(3 * k as int) =~= escape_bytes(bytes@));
                assert(safe@ =~= before + encode_char(c));
            }
        }
        i += 1;
    }
    proof {
        assert(cs@.take(cs.len() as int) =~= cs@);
    }
    push_str(&mut safe, ".json");
    safe
}

proof fn lemma_escape_len(bs: Seq<u8>)
    ensures
        escape_bytes(bs).len() == 3 * bs.len(),
    decreases bs.len(),
{
    if bs.len() > 0 {
        lemma_escape_len(bs.drop_first());
    }
}

proof fn lemma_escape_at(bs: Seq<u8>, k: int)
    requires
        0 <= k < bs.len(),
    ensures
        escape_bytes(bs).len() == 3 * bs.len(),
        escape_bytes(bs)[3 * k] == '%',
        escape_bytes(bs)[3 * k + 1] == hex_digit(bs[k] as int / 16),
        escape_bytes(bs)[3 * k + 2] == hex_digit(bs[k] as int % 16),
    decreases bs.len(),
{
    lemma_escape_len(bs);
    lemma_escape_len(bs.drop_first());
    if k > 0 {
        lemma_escape_at(bs.drop_first(), k - 1);
    }
}


// ─── Laws ───────────────────────────────────────────────────────────

/// The value of an upper-case hex digit.
pub open spec fn hex_value(c: char) -> int {
    let u = c as u32;
    if u <= 57 {
        u - 48
    } else {
        u - 55
    }
}

/// Reads an encoded name back into bytes: `%XX` gives byte `XX`, any other
/// character its own (ASCII) byte.
pub open spec fn decode_name(s: Seq<char>) -> Seq<u8>
    decreases s.len(),
{
    if s.len() == 0 {
        Seq::empty()
    } else if s[0] == '%' && s.len() >= 3 {
        seq![(hex_value(s[1]) * 16 + hex_value(s[2])) as u8] + decode_name(s.skip(3))
    } else {
        seq![leading_byte_width_1(s[0] as u32)] + decode_name(s.skip(1))
    }
}

proof fn lemma_hex_roundtrip(n: int)
    requires
        0 <= n < 16,
    ensures
        hex_value(hex_digit(n)) == n,
        is_safe_char(hex_digit(n)),
{
}

proof fn lemma_decode_escaped(bs: Seq<u8>, y: Seq<char>)
    ensures
        decode_name(escape_bytes(bs) + y) == bs + decode_name(y),
    decreases bs.len(),
{
    if bs.len() == 0 {
        assert(escape_bytes(bs) + y =~= y);
        assert(bs + decode_name(y) =~= decode_name(y));
    } else {
        let b = bs[0];
        let rest = bs.drop_first();
        let s = escape_bytes(bs) + y;
        lemma_hex_roundtrip(b as int / 16);
        lemma_hex_roundtrip(b as int % 16);
        assert(s[0] == '%');
        assert(s[1] == hex_digit(b as int / 16));
        assert(s[2] == hex_digit(b as int % 16));
        assert(s.skip(3) =~= escape_bytes(rest) + y);
        lemma_decode_escaped(rest, y);
        assert((hex_value(s[1]) * 16 + hex_value(s[2])) as u8 == b);
        assert(decode_name(s) =~= bs + decode_name(y));
    }
}

proof fn lemma_decode_encoded(s: Seq<char>)
    ensures
        decode_name(encode_id(s)) == encode_utf8(s),
    decreases s.len(),
{
    if s.len() == 0 {
    } else {
        let c = s[0];
        let rest = s.drop_first();
        lemma_decode_encoded(rest);
        if is_safe_char(c) {
            let e = encode_id(s);
            assert(e =~= seq![c] + encode_id(rest));
            assert(e[0] == c);
            assert(e.skip(1) =~= encode_id(rest));
            assert(has_width_1_encoding(c as u32));
            assert(decode_name(e) =~= encode_utf8(s));
        } else {
            lemma_decode_escaped(encode_scalar(c as u32), encode_id(rest));
        }
    }
}

/// Distinct point ids get distinct Cold-tier file names.
pub proof fn law_cold_file_names_distinct(a: Seq<char>, b: Seq<char>)
    requires
        a != b,
    ensures
        encode_id(a) + ".json"@ != encode_id(b) + ".json"@,
{
    if encode_id(a) + ".json"@ == encode_id(b) + ".json"@ {
        let x = encode_id(a) + ".json"@;
        let y = encode_id(b) + ".json"@;
        assert(x.len() == encode_id(a).len() + ".json"@.len());
        assert(y.len() == encode_id(b).len() + ".json"@.len());
        assert(x.len() == y.len());
        assert(encode_id(a) =~= x.subrange(0, encode_id(a).len() as int));
        assert(encode_id(b) =~= x.subrange(0, encode_id(b).len() as int));
        lemma_decode_encoded(a);
        lemma_decode_encoded(b);
        encode_utf8_decode_utf8(a);
        encode_utf8_decode_utf8(b);
        assert(encode_id(a).len() == encode_id(b).len());
        assert(encode_id(a) == encode_id(b));
        assert(encode_utf8(a) == encode_utf8(b));
        assert(decode_utf8(encode_utf8(a)) == decode_utf8(encode_utf8(b)));
        assert(false);
    }
}

proof fn lemma_encoded_chars(s: Seq<char>)
    ensures
        forall|i: int| 0 <= i < encode_id(s).len() ==> is_safe_char(#[trigger] encode_id(s)[i]) || encode_id(s)[i] == '%',
    decreases s.len(),
{
    if s.len() > 0 {
        let c = s[0];
        lemma_encoded_chars(s.drop_first());
        lemma_escaped_chars(encode_scalar(c as u32));
        let e = encode_char(c);
        assert forall|i: int| 0 <= i < encode_id(s).len() implies is_safe_char(#[trigger] encode_id(s)[i]) || encode_id(s)[i] == '%' by {
            if i < e.len() {
                assert(encode_id(s)[i] == e[i]);
            } else {
                assert(encode_id(s)[i] == encode_id(s.drop_first())[i - e.len()]);
            }
        }
    }
}

proof fn lemma_escaped_chars(bs: Seq<u8>)
    ensures
        forall|i: int| 0 <= i < escape_bytes(bs).len() ==> is_safe_char(#[trigger] escape_bytes(bs)[i]) || escape_bytes(bs)[i] == '%',
    decreases bs.len(),
{
    if bs.len() > 0 {
        lemma_escaped_chars(bs.drop_first());
        lemma_hex_roundtrip(bs[0] as int / 16);
        lemma_hex_roundtrip(bs[0] as int % 16);
        let e = escape_bytes(bs);
        assert forall|i: int| 0 <= i < e.len() implies is_safe_char(#[trigger] e[i]) || e[i] == '%' by {
            if i >= 3 {
                assert(e[i] == escape_bytes(bs.drop_first())[i - 3]);
            }
        }
    }
}

/// A Cold-tier file name holds no path separator (`/` or `\`).
pub proof fn law_cold_file_name_has_no_separator(id: Seq<char>)
    ensures
        !(encode_id(id) + ".json"@).contains('/'),
        !(encode_id(id) + ".json"@).contains('\\'),
{
    reveal_strlit(".json");
    lemma_encoded_chars(id);
    let x = encode_id(id) + ".json"@;
    assert forall|i: int| 0 <= i < x.len() implies x[i] != '/' && x[i] != '\\' by {
        if i < encode_id(id).len() {
            assert(x[i] == encode_id(id)[i]);
        }
    }
}

} // verus!
