//! UTF-16 encoding and decoding, and the few `String` building blocks the
//! clipboard codecs need.

use vstd::prelude::*;
use vstd::utf8::*;
use vstd::string::*;

verus! {

// ---------------------------------------------------------------------------
// Little-endian 16-bit units
// ---------------------------------------------------------------------------

/// The two little-endian bytes of a 16-bit value.
pub open spec fn u16_le(x: u16) -> Seq<u8> {
    seq![(x % 256) as u8, (x / 256) as u8]
}

/// Little-endian bytes of a run of 16-bit units.
pub open spec fn units_le(us: Seq<u16>) -> Seq<u8>
    decreases us.len(),
{
    if us.len() == 0 {
        seq![]
    } else {
        u16_le(us[0]) + units_le(us.drop_first())
    }
}

/// The 16-bit units that a byte buffer holds, read pairwise as little-endian.
/// A trailing odd byte is not part of any unit.
pub open spec fn units_of(b: Seq<u8>) -> Seq<u16> {
    Seq::new(b.len() / 2, |i: int| (b[2 * i] + 256 * b[2 * i + 1]) as u16)
}

pub proof fn lemma_units_le_concat(a: Seq<u16>, b: Seq<u16>)
    ensures
        units_le(a + b) == units_le(a) + units_le(b),
    decreases a.len(),
{
    if a.len() == 0 {
        assert(a + b =~= b);
    } else {
        assert((a + b).drop_first() =~= a.drop_first() + b);
        lemma_units_le_concat(a.drop_first(), b);
    }
}

pub proof fn lemma_units_le_len(a: Seq<u16>)
    ensures
        units_le(a).len() == 2 * a.len(),
    decreases a.len(),
{
    if a.len() > 0 {
        lemma_units_le_len(a.drop_first());
    }
}

/// Reading back the bytes of `units_le(us)` gives `us` again.
pub proof fn lemma_units_of_units_le(us: Seq<u16>)
    ensures
        units_of(units_le(us)) == us,
    decreases us.len(),
{
    lemma_units_le_len(us);
    if us.len() > 0 {
        let rest = us.drop_first();
        lemma_units_of_units_le(rest);
        lemma_units_le_len(rest);
        let b = units_le(us);
        assert(b == u16_le(us[0]) + units_le(rest));
        assert forall|i: int| 0 <= i < us.len() implies #[trigger] units_of(b)[i] == us[i] by {
            if i == 0 {
                assert(b[0] == (us[0] % 256) as u8);
                assert(b[1] == (us[0] / 256) as u8);
            } else {
                assert(b[2 * i] == units_le(rest)[2 * (i - 1)]);
                assert(b[2 * i + 1] == units_le(rest)[2 * (i - 1) + 1]);
                assert(units_of(units_le(rest))[i - 1] == rest[i - 1]);
            }
        }
        assert(units_of(b) =~= us);
    }
}

pub proof fn lemma_units_le_single(x: u16)
    ensures
        units_le(seq![x]) == u16_le(x),
{
    assert(seq![x].drop_first() =~= Seq::<u16>::empty());
    assert(units_le(Seq::<u16>::empty()) == Seq::<u8>::empty());
    assert(seq![x][0] == x);
    assert(u16_le(x) + Seq::<u8>::empty() =~= u16_le(x));
}

pub proof fn lemma_units_le_pair(x: u16, y: u16)
    ensures
        units_le(seq![x, y]) == u16_le(x) + u16_le(y),
{
    assert(seq![x, y].drop_first() =~= seq![y]);
    lemma_units_le_single(y);
}

/// Appends the little-endian bytes of `x`.
pub fn push_unit_le(out: &mut Vec<u8>, x: u16)
    ensures
        final(out)@ == old(out)@ + u16_le(x),
{
    out.push((x % 256) as u8);
    out.push((x / 256) as u8);
    assert(final(out)@ =~= old(out)@ + u16_le(x));
}

// ---------------------------------------------------------------------------
// UTF-16 encoding
// ---------------------------------------------------------------------------

/// The UTF-16 code units of one scalar value.
pub open spec fn char_utf16(c: char) -> Seq<u16> {
    let v = c as u32;
    if v < 0x10000 {
        seq![v as u16]
    } else {
        seq![(0xD800 + (v - 0x10000) / 1024) as u16, (0xDC00 + (v - 0x10000) % 1024) as u16]
    }
}

/// UTF-16 encoding of a character sequence.
pub open spec fn utf16_encode(s: Seq<char>) -> Seq<u16>
    decreases s.len(),
{
    if s.len() == 0 {
        seq![]
    } else {
        char_utf16(s[0]) + utf16_encode(s.drop_first())
    }
}

/// UTF-16LE bytes of a character sequence, without a terminator.
pub open spec fn utf16le(s: Seq<char>) -> Seq<u8> {
    units_le(utf16_encode(s))
}

pub proof fn lemma_utf16_encode_push(s: Seq<char>, c: char)
    ensures
        utf16_encode(s.push(c)) == utf16_encode(s) + char_utf16(c),
    decreases s.len(),
{
    if s.len() == 0 {
        assert(s.push(c).drop_first() =~= seq![]);
        assert(utf16_encode(seq![]) =~= Seq::<u16>::empty());
        assert(char_utf16(c) + Seq::<u16>::empty() =~= char_utf16(c));
    } else {
        assert(s.push(c).drop_first() =~= s.drop_first().push(c));
        lemma_utf16_encode_push(s.drop_first(), c);
        assert(utf16_encode(s.push(c)) =~= char_utf16(s[0]) + (utf16_encode(s.drop_first())
            + char_utf16(c)));
    }
}

/// A character other than NUL never encodes to a zero unit.
pub proof fn lemma_utf16_encode_nonzero(s: Seq<char>)
    requires
        forall|i: int| 0 <= i < s.len() ==> s[i] != '\0',
    ensures
        forall|i: int| 0 <= i < utf16_encode(s).len() ==> utf16_encode(s)[i] != 0,
    decreases s.len(),
{
    if s.len() > 0 {
        lemma_utf16_encode_nonzero(s.drop_first());
        let c = s[0];
        char_is_scalar(c);
        char_u32_cast(c, c as u32);
        let e = utf16_encode(s);
        assert(e == char_utf16(c) + utf16_encode(s.drop_first()));
        assert forall|i: int| 0 <= i < e.len() implies e[i] != 0 by {
            if i >= char_utf16(c).len() {
                assert(e[i] == utf16_encode(s.drop_first())[i - char_utf16(c).len()]);
            } else {
                assert((c as u32) != 0) by {
                    if (c as u32) == 0 {
                        assert(((c as u32) as char) == ('\0' as u32) as char);
                    }
                };
            }
        }
    }
}

/// Appends the UTF-16LE units of one character.
pub fn push_char_utf16le(out: &mut Vec<u8>, c: char)
    ensures
        final(out)@ == old(out)@ + units_le(char_utf16(c)),
{
    let v = c as u32;
    proof {
        char_is_scalar(c);
    }
    if v < 0x10000 {
        push_unit_le(out, v as u16);
        proof {
            lemma_units_le_single(v as u16);
        }
    } else {
        let w = v - 0x10000;
        let hi = (0xD800 + w / 1024) as u16;
        let lo = (0xDC00 + w % 1024) as u16;
        push_unit_le(out, hi);
        push_unit_le(out, lo);
        proof {
            lemma_units_le_pair(hi, lo);
            assert(char_utf16(c) =~= seq![hi, lo]);
        }
    }
}

/// Appends the UTF-16LE encoding of `s`, without a terminator.
pub fn extend_utf16le(out: &mut Vec<u8>, s: &str)
    ensures
        final(out)@ == old(out)@ + utf16le(s@),
{
    let ghost start = out@;
    for c in it: s.chars()
        invariant
            it.seq() == s@,
            out@ == start + utf16le(it.seq().take(it.index() as int)),
    {
        proof {
            let i = it.index() as int;
            let pre = s@.take(i);
            assert(s@.take(i + 1) =~= pre.push(c));
            lemma_utf16_encode_push(pre, c);
            lemma_units_le_concat(utf16_encode(pre), char_utf16(c));
        }
        push_char_utf16le(out, c);
    }
    assert(s@.take(s@.len() as int) =~= s@);
}

// ---------------------------------------------------------------------------
// UTF-16 decoding, replacing unpaired surrogates
// ---------------------------------------------------------------------------

pub open spec fn is_high_surrogate(u: u16) -> bool {
    0xD800 <= u <= 0xDBFF
}

pub open spec fn is_low_surrogate(u: u16) -> bool {
    0xDC00 <= u <= 0xDFFF
}

pub open spec fn surrogate_pair_value(hi: u16, lo: u16) -> u32 {
    (0x10000 + (hi - 0xD800) * 1024 + (lo - 0xDC00)) as u32
}

/// Decoding of UTF-16 units. A surrogate that is not part of a well-formed
/// pair becomes U+FFFD and decoding carries on with the next unit.
pub open spec fn utf16_decode(u: Seq<u16>) -> Seq<char>
    decreases u.len(),
{
    if u.len() == 0 {
        seq![]
    } else if is_high_surrogate(u[0]) && u.len() >= 2 && is_low_surrogate(u[1]) {
        seq![surrogate_pair_value(u[0], u[1]) as char] + utf16_decode(u.skip(2))
    } else if 0xD800 <= u[0] <= 0xDFFF {
        seq!['\u{FFFD}'] + utf16_decode(u.skip(1))
    } else {
        seq![(u[0] as u32) as char] + utf16_decode(u.skip(1))
    }
}

/// Decoding undoes encoding, whatever follows the encoded text.
pub proof fn lemma_utf16_decode_encode(s: Seq<char>, t: Seq<u16>)
    ensures
        utf16_decode(utf16_encode(s) + t) == s + utf16_decode(t),
    decreases s.len(),
{
    if s.len() == 0 {
        assert(utf16_encode(s) + t =~= t);
        assert(s + utf16_decode(t) =~= utf16_decode(t));
    } else {
        let c = s[0];
        let rest = s.drop_first();
        lemma_utf16_decode_encode(rest, t);
        char_is_scalar(c);
        char_u32_cast(c, c as u32);
        let u = utf16_encode(s) + t;
        let v = c as u32;
        assert(u =~= char_utf16(c) + (utf16_encode(rest) + t));
        if v < 0x10000 {
            assert(u.skip(1) =~= utf16_encode(rest) + t);
            assert((((v as u16) as u32) as char) == c);
        } else {
            assert(u.skip(2) =~= utf16_encode(rest) + t);
            assert(surrogate_pair_value(u[0], u[1]) == v);
        }
        assert(s =~= seq![c] + rest);
        assert(seq![c] + (rest + utf16_decode(t)) =~= s + utf16_decode(t));
    }
}

pub proof fn lemma_utf16_decode_encode_all(s: Seq<char>)
    ensures
        utf16_decode(utf16_encode(s)) == s,
{
    lemma_utf16_decode_encode(s, seq![]);
    assert(utf16_encode(s) + Seq::<u16>::empty() =~= utf16_encode(s));
    assert(s + Seq::<char>::empty() =~= s);
}

/// `char::from_u32`: the character with the given scalar value, or `None`
/// when the value is not a Unicode scalar.
#[verifier::external_body]
pub(crate) fn char_from_u32(v: u32) -> (c: Option<char>)
    ensures
        c is Some <==> is_scalar(v),
        c matches Some(ch) ==> ch as u32 == v,
{
    char::from_u32(v)
}

/// `String::push`: appends one character.
#[verifier::external_body]
pub(crate) fn string_push(s: &mut String, c: char)
    ensures
        final(s)@ == old(s)@.push(c),
{
    s.push(c)
}

/// Decodes UTF-16 units into a `String`, replacing unpaired surrogates with
/// U+FFFD.
pub fn string_from_utf16_lossy(u: &[u16]) -> (s: String)
    ensures
        s@ == utf16_decode(u@),
{
    let mut out = String::new();
    let mut i: usize = 0;
    assert(u@.skip(0) =~= u@);
    assert(out@ + utf16_decode(u@) =~= utf16_decode(u@));
    while i < u.len()
        invariant
            i <= u.len(),
            out@ + utf16_decode(u@.skip(i as int)) == utf16_decode(u@),
        decreases u.len() - i,
    {
        let ghost rest = u@.skip(i as int);
        let x = u[i];
        if 0xD800 <= x && x <= 0xDBFF && i + 1 < u.len() && 0xDC00 <= u[i + 1] && u[i + 1]
            <= 0xDFFF {
            let y = u[i + 1];
            let v: u32 = 0x10000 + (x as u32 - 0xD800) * 1024 + (y as u32 - 0xDC00);
            let c = char_from_u32(v);
            proof {
                assert(is_scalar(v));
                assert(rest.skip(2) =~= u@.skip(i + 2));
            }
            string_push(&mut out, c.unwrap());
            proof {
                let cc = c.unwrap();
                char_u32_cast(cc, v);
                assert(out@ + utf16_decode(u@.skip(i + 2)) =~= old_out_helper(
                    out@.drop_last(),
                    cc,
                    utf16_decode(u@.skip(i + 2)),
                ));
            }
            i = i + 2;
        } else if 0xD800 <= x && x <= 0xDFFF {
            string_push(&mut out, '\u{FFFD}');
            proof {
                assert(rest.skip(1) =~= u@.skip(i + 1));
                assert(out@ + utf16_decode(u@.skip(i + 1)) =~= old_out_helper(
                    out@.drop_last(),
                    '\u{FFFD}',
                    utf16_decode(u@.skip(i + 1)),
                ));
            }
            i = i + 1;
        } else {
            let c = char_from_u32(x as u32);
            proof {
                assert(is_scalar(x as u32));
                assert(rest.skip(1) =~= u@.skip(i + 1));
            }
            string_push(&mut out, c.unwrap());
            proof {
                let cc = c.unwrap();
                char_u32_cast(cc, x as u32);
                assert(out@ + utf16_decode(u@.skip(i + 1)) =~= old_out_helper(
                    out@.drop_last(),
                    cc,
                    utf16_decode(u@.skip(i + 1)),
                ));
            }
            i = i + 1;
        }
    }
    assert(u@.skip(u.len() as int) =~= Seq::<u16>::empty());
    assert(out@ + Seq::<char>::empty() =~= out@);
    out
}

spec fn old_out_helper(prefix: Seq<char>, c: char, rest: Seq<char>) -> Seq<char> {
    prefix + (seq![c] + rest)
}

/// Whether two strings hold the same text.
pub fn str_eq(a: &str, b: &str) -> (eq: bool)
    ensures
        eq == (a@ == b@),
{
    let x = a.as_bytes();
    let y = b.as_bytes();
    proof {
        encode_utf8_decode_utf8(a@);
        encode_utf8_decode_utf8(b@);
    }
    if x.len() != y.len() {
        assert(x@ != y@);
        return false;
    }
    let n = x.len();
    let mut i: usize = 0;
    while i < n
        invariant
            n == x@.len() == y@.len(),
            x@ == a.spec_bytes(),
            y@ == b.spec_bytes(),
            i <= n,
            forall|k: int| 0 <= k < i ==> x@[k] == y@[k],
        decreases n - i,
    {
        if x[i] != y[i] {
            assert(x@ != y@);
            return false;
        }
        i = i + 1;
    }
    assert(x@ =~= y@);
    true
}

} // verus!
