//! The `CF_HTML` round trip: a payload built by `build_cf_html` parses back to
//! the fragment it wraps.

use vstd::prelude::*;
use vstd::utf8::*;
use vstd::string::*;
use crate::clipboard_formats::{
    alpha_run, cf_html_offsets, decimal_digits, decimal_value, digit_run, find_from,
    header_scan, is_ascii_alpha, is_ascii_digit, padded_decimal, spec_build_cf_html,
    spec_cf_html_fragment, spec_cf_html_header_len, spec_find_offset, spec_find_subslice,
    spec_header_text, spec_is_header_line, spec_parse_cf_html, starts_with_bom, pow10,
    lemma_decimal_digits_len_pow,
    CF_HTML_BODY_CLOSE, CF_HTML_BODY_OPEN, CF_HTML_END_FRAGMENT_FIELD, CF_HTML_END_FRAGMENT_KEY,
    CF_HTML_END_HTML_FIELD, CF_HTML_END_HTML_KEY, CF_HTML_END_MARKER, CF_HTML_HEADER_PREFIX,
    CF_HTML_SOURCE_URL_KEY, CF_HTML_START_FRAGMENT_FIELD, CF_HTML_START_FRAGMENT_KEY,
    CF_HTML_START_HTML_FIELD, CF_HTML_START_MARKER, CRLF,
};

verus! {

proof fn lemma_header_literals()
    ensures
        CF_HTML_HEADER_PREFIX.spec_bytes() =~= seq![
            86u8, 101, 114, 115, 105, 111, 110, 58, 48, 46, 57, 13, 10, 83, 116, 97, 114, 116,
            72, 84, 77, 76, 58,
        ],
        CF_HTML_END_HTML_KEY.spec_bytes() =~= seq![13u8, 10, 69, 110, 100, 72, 84, 77, 76, 58],
        CF_HTML_START_FRAGMENT_KEY.spec_bytes() =~= seq![
            13u8, 10, 83, 116, 97, 114, 116, 70, 114, 97, 103, 109, 101, 110, 116, 58,
        ],
        CF_HTML_END_FRAGMENT_KEY.spec_bytes() =~= seq![
            13u8, 10, 69, 110, 100, 70, 114, 97, 103, 109, 101, 110, 116, 58,
        ],
        CRLF.spec_bytes() =~= seq![13u8, 10],
        CF_HTML_START_HTML_FIELD.spec_bytes() =~= seq![83u8, 116, 97, 114, 116, 72, 84, 77, 76, 58],
        CF_HTML_END_HTML_FIELD.spec_bytes() =~= seq![69u8, 110, 100, 72, 84, 77, 76, 58],
        CF_HTML_START_FRAGMENT_FIELD.spec_bytes() =~= seq![
            83u8, 116, 97, 114, 116, 70, 114, 97, 103, 109, 101, 110, 116, 58,
        ],
        CF_HTML_END_FRAGMENT_FIELD.spec_bytes() =~= seq![
            69u8, 110, 100, 70, 114, 97, 103, 109, 101, 110, 116, 58,
        ],
        CF_HTML_BODY_OPEN.spec_bytes() =~= seq![
            60u8, 104, 116, 109, 108, 62, 60, 98, 111, 100, 121, 62, 13, 10,
        ],
        CF_HTML_START_MARKER.spec_bytes().len() == 20,
        CF_HTML_END_MARKER.spec_bytes().len() == 18,
        CF_HTML_BODY_CLOSE.spec_bytes().len() == 16,
        CF_HTML_SOURCE_URL_KEY.spec_bytes().len() == 10,
{
    reveal_strlit("Version:0.9\r\nStartHTML:");
    reveal_strlit("\r\nEndHTML:");
    reveal_strlit("\r\nStartFragment:");
    reveal_strlit("\r\nEndFragment:");
    reveal_strlit("\r\n");
    reveal_strlit("StartHTML:");
    reveal_strlit("EndHTML:");
    reveal_strlit("StartFragment:");
    reveal_strlit("EndFragment:");
    reveal_strlit("<html><body>\r\n");
    reveal_strlit("<!--StartFragment-->");
    reveal_strlit("<!--EndFragment-->");
    reveal_strlit("\r\n</body></html>");
    reveal_strlit("SourceURL:");
    assert(is_ascii(CF_HTML_HEADER_PREFIX));
    assert(is_ascii(CF_HTML_END_HTML_KEY));
    assert(is_ascii(CF_HTML_START_FRAGMENT_KEY));
    assert(is_ascii(CF_HTML_END_FRAGMENT_KEY));
    assert(is_ascii(CRLF));
    assert(is_ascii(CF_HTML_START_HTML_FIELD));
    assert(is_ascii(CF_HTML_END_HTML_FIELD));
    assert(is_ascii(CF_HTML_START_FRAGMENT_FIELD));
    assert(is_ascii(CF_HTML_END_FRAGMENT_FIELD));
    assert(is_ascii(CF_HTML_BODY_OPEN));
    assert(is_ascii(CF_HTML_START_MARKER));
    assert(is_ascii(CF_HTML_END_MARKER));
    assert(is_ascii(CF_HTML_BODY_CLOSE));
    assert(is_ascii(CF_HTML_SOURCE_URL_KEY));
}


proof fn lemma_literal_sizes()
    ensures
        CF_HTML_HEADER_PREFIX.spec_bytes().len() == 23,
        CF_HTML_END_HTML_KEY.spec_bytes().len() == 10,
        CF_HTML_START_FRAGMENT_KEY.spec_bytes().len() == 16,
        CF_HTML_END_FRAGMENT_KEY.spec_bytes().len() == 14,
        CRLF.spec_bytes() == seq![13u8, 10],
        CF_HTML_SOURCE_URL_KEY.spec_bytes().len() == 10,
        CF_HTML_BODY_OPEN.spec_bytes().len() == 14,
        CF_HTML_START_MARKER.spec_bytes().len() == 20,
        CF_HTML_END_MARKER.spec_bytes().len() == 18,
        CF_HTML_BODY_CLOSE.spec_bytes().len() == 16,
{
    lemma_header_literals();
}

// ---------------------------------------------------------------------------
// Searching
// ---------------------------------------------------------------------------

/// Positions whose byte differs from the needle's first byte cannot start a match.
proof fn lemma_find_skip(h: Seq<u8>, n: Seq<u8>, i: int, j: int)
    requires
        0 <= i <= j,
        n.len() > 0,
        forall|k: int| i <= k < j && k < h.len() ==> h[k] != n[0],
    ensures
        find_from(h, n, i) == find_from(h, n, j),
    decreases j - i,
{
    if i < j {
        if i + n.len() <= h.len() {
            assert(h.subrange(i, i + n.len())[0] == h[i]);
        }
        lemma_find_skip(h, n, i + 1, j);
    }
}

/// A needle that starts at `i` is found at `i`.
proof fn lemma_find_at(h: Seq<u8>, n: Seq<u8>, i: int)
    requires
        0 <= i,
        i + n.len() <= h.len(),
        h.subrange(i, i + n.len()) == n,
    ensures
        find_from(h, n, i) == Some(i as nat),
{
}

/// The search finds something no later than an occurrence at `q`.
proof fn lemma_find_bound(h: Seq<u8>, n: Seq<u8>, i: int, q: int)
    requires
        0 <= i <= q,
        q + n.len() <= h.len(),
        h.subrange(q, q + n.len()) == n,
    ensures
        find_from(h, n, i) matches Some(p) && i <= p <= q,
    decreases q - i,
{
    if h.subrange(i, i + n.len()) != n {
        lemma_find_bound(h, n, i + 1, q);
    }
}

// ---------------------------------------------------------------------------
// Runs of letters and digits
// ---------------------------------------------------------------------------

proof fn lemma_alpha_run_exact(line: Seq<u8>, m: int)
    requires
        0 <= m < line.len(),
        forall|k: int| 0 <= k < m ==> is_ascii_alpha(#[trigger] line[k]),
        !is_ascii_alpha(line[m]),
    ensures
        alpha_run(line) == m,
    decreases m,
{
    if m > 0 {
        let t = line.skip(1);
        assert forall|k: int| 0 <= k < m - 1 implies is_ascii_alpha(#[trigger] t[k]) by {
            assert(t[k] == line[k + 1]);
        }
        assert(t[m - 1] == line[m]);
        lemma_alpha_run_exact(t, m - 1);
    }
}

proof fn lemma_digit_run_exact(s: Seq<u8>, m: int)
    requires
        0 <= m < s.len(),
        forall|k: int| 0 <= k < m ==> is_ascii_digit(#[trigger] s[k]),
        !is_ascii_digit(s[m]),
    ensures
        digit_run(s) == m,
    decreases m,
{
    if m > 0 {
        let t = s.skip(1);
        assert forall|k: int| 0 <= k < m - 1 implies is_ascii_digit(#[trigger] t[k]) by {
            assert(t[k] == s[k + 1]);
        }
        assert(t[m - 1] == s[m]);
        lemma_digit_run_exact(t, m - 1);
    }
}

// ---------------------------------------------------------------------------
// Decimal numbers
// ---------------------------------------------------------------------------

proof fn lemma_decimal_digits_are_digits(n: nat)
    ensures
        forall|k: int|
            0 <= k < decimal_digits(n).len() ==> is_ascii_digit(#[trigger] decimal_digits(n)[k]),
    decreases n,
{
    let d = decimal_digits(n);
    if n >= 10 {
        lemma_decimal_digits_are_digits(n / 10);
        let e = decimal_digits(n / 10);
        assert(d == e.push((48 + n % 10) as u8));
        assert forall|k: int| 0 <= k < d.len() implies is_ascii_digit(#[trigger] d[k]) by {
            if k < e.len() {
                assert(d[k] == e[k]);
            } else {
                assert(d[k] == (48 + n % 10) as u8);
            }
        }
    } else {
        assert(d[0] == (48 + n) as u8);
    }
}

proof fn lemma_decimal_value_of_digits(n: nat)
    ensures
        decimal_value(decimal_digits(n)) == n,
    decreases n,
{
    let d = decimal_digits(n);
    if n >= 10 {
        lemma_decimal_value_of_digits(n / 10);
        assert(d.drop_last() =~= decimal_digits(n / 10));
        assert(d.last() == (48 + n % 10) as u8);
        assert(decimal_value(d) == decimal_value(d.drop_last()) * 10 + (d.last() - 48) as nat);
        assert((n / 10) * 10 + n % 10 == n);
    } else {
        assert(d.drop_last() =~= Seq::<u8>::empty());
        assert(decimal_value(Seq::<u8>::empty()) == 0);
        assert(d.last() == (48 + n) as u8);
    }
}

proof fn lemma_decimal_value_leading_zeros(z: Seq<u8>, d: Seq<u8>)
    requires
        forall|k: int| 0 <= k < z.len() ==> #[trigger] z[k] == 48,
    ensures
        decimal_value(z + d) == decimal_value(d),
    decreases z.len() + d.len(),
{
    if d.len() == 0 {
        assert(z + d =~= z);
        if z.len() > 0 {
            assert(z.drop_last() + d =~= z.drop_last());
            lemma_decimal_value_leading_zeros(z.drop_last(), d);
        }
    } else {
        assert((z + d).drop_last() =~= z + d.drop_last());
        assert((z + d).last() == d.last());
        lemma_decimal_value_leading_zeros(z, d.drop_last());
    }
}

/// A value below ten billion written in ten zero padded digits.
proof fn lemma_padded_ten(n: nat)
    requires
        n < 10_000_000_000,
    ensures
        padded_decimal(n, 10).len() == 10,
        forall|k: int| 0 <= k < 10 ==> is_ascii_digit(#[trigger] padded_decimal(n, 10)[k]),
        decimal_value(padded_decimal(n, 10)) == n,
{
    reveal_with_fuel(pow10, 11);
    lemma_decimal_digits_len_pow(n, 10);
    lemma_decimal_digits_are_digits(n);
    lemma_decimal_value_of_digits(n);
    let d = decimal_digits(n);
    if d.len() < 10 {
        let z = Seq::new((10 - d.len()) as nat, |i: int| 48u8);
        lemma_decimal_value_leading_zeros(z, d);
        assert(padded_decimal(n, 10) == z + d);
        assert forall|k: int| 0 <= k < 10 implies is_ascii_digit(#[trigger] padded_decimal(n, 10)[k]) by {
            if k >= z.len() {
                assert(padded_decimal(n, 10)[k] == d[k - z.len()]);
            }
        }
    }
}


// ---------------------------------------------------------------------------
// The fixed part of the header
// ---------------------------------------------------------------------------

/// The first 105 bytes of a header written by `header_text`: the four offset
/// lines, each value in ten digits.
spec fn main_header_layout(x: Seq<u8>, d1: nat, d2: nat, d3: nat, d4: nat) -> bool {
    &&& x.len() >= 105
    &&& x.subrange(0, 23) == CF_HTML_HEADER_PREFIX.spec_bytes()
    &&& x.subrange(23, 33) == padded_decimal(d1, 10)
    &&& x.subrange(33, 43) == CF_HTML_END_HTML_KEY.spec_bytes()
    &&& x.subrange(43, 53) == padded_decimal(d2, 10)
    &&& x.subrange(53, 69) == CF_HTML_START_FRAGMENT_KEY.spec_bytes()
    &&& x.subrange(69, 79) == padded_decimal(d3, 10)
    &&& x.subrange(79, 93) == CF_HTML_END_FRAGMENT_KEY.spec_bytes()
    &&& x.subrange(93, 103) == padded_decimal(d4, 10)
    &&& x.subrange(103, 105) == CRLF.spec_bytes()
}

proof fn lemma_bytes_of(x: Seq<u8>, a: int, b: int, p: Seq<u8>)
    requires
        0 <= a <= b <= x.len(),
        x.subrange(a, b) == p,
    ensures
        forall|k: int| a <= k < b ==> #[trigger] x[k] == p[k - a],
{
    assert forall|k: int| a <= k < b implies #[trigger] x[k] == p[k - a] by {
        assert(x.subrange(a, b)[k - a] == x[k]);
    }
}

/// The bytes of a main header, position by position.
proof fn lemma_layout_bytes(x: Seq<u8>, d1: nat, d2: nat, d3: nat, d4: nat)
    requires
        main_header_layout(x, d1, d2, d3, d4),
        d1 < 10_000_000_000,
        d2 < 10_000_000_000,
        d3 < 10_000_000_000,
        d4 < 10_000_000_000,
    ensures
        forall|k: int| 0 <= k < 23 ==> #[trigger] x[k] == CF_HTML_HEADER_PREFIX.spec_bytes()[k],
        forall|k: int| 23 <= k < 33 ==> is_ascii_digit(#[trigger] x[k]),
        forall|k: int| 33 <= k < 43 ==> #[trigger] x[k] == CF_HTML_END_HTML_KEY.spec_bytes()[k - 33],
        forall|k: int| 43 <= k < 53 ==> is_ascii_digit(#[trigger] x[k]),
        forall|k: int|
            53 <= k < 69 ==> #[trigger] x[k] == CF_HTML_START_FRAGMENT_KEY.spec_bytes()[k - 53],
        forall|k: int| 69 <= k < 79 ==> is_ascii_digit(#[trigger] x[k]),
        forall|k: int|
            79 <= k < 93 ==> #[trigger] x[k] == CF_HTML_END_FRAGMENT_KEY.spec_bytes()[k - 79],
        forall|k: int| 93 <= k < 103 ==> is_ascii_digit(#[trigger] x[k]),
        x[103] == 13,
        x[104] == 10,
{
    lemma_header_literals();
    lemma_padded_ten(d1);
    lemma_padded_ten(d2);
    lemma_padded_ten(d3);
    lemma_padded_ten(d4);
    lemma_bytes_of(x, 0, 23, CF_HTML_HEADER_PREFIX.spec_bytes());
    lemma_bytes_of(x, 23, 33, padded_decimal(d1, 10));
    lemma_bytes_of(x, 33, 43, CF_HTML_END_HTML_KEY.spec_bytes());
    lemma_bytes_of(x, 43, 53, padded_decimal(d2, 10));
    lemma_bytes_of(x, 53, 69, CF_HTML_START_FRAGMENT_KEY.spec_bytes());
    lemma_bytes_of(x, 69, 79, padded_decimal(d3, 10));
    lemma_bytes_of(x, 79, 93, CF_HTML_END_FRAGMENT_KEY.spec_bytes());
    lemma_bytes_of(x, 93, 103, padded_decimal(d4, 10));
    lemma_bytes_of(x, 103, 105, CRLF.spec_bytes());
    assert forall|k: int| 23 <= k < 33 implies is_ascii_digit(#[trigger] x[k]) by {
        assert(is_ascii_digit(padded_decimal(d1, 10)[k - 23]));
    }
    assert forall|k: int| 43 <= k < 53 implies is_ascii_digit(#[trigger] x[k]) by {
        assert(is_ascii_digit(padded_decimal(d2, 10)[k - 43]));
    }
    assert forall|k: int| 69 <= k < 79 implies is_ascii_digit(#[trigger] x[k]) by {
        assert(is_ascii_digit(padded_decimal(d3, 10)[k - 69]));
    }
    assert forall|k: int| 93 <= k < 103 implies is_ascii_digit(#[trigger] x[k]) by {
        assert(is_ascii_digit(padded_decimal(d4, 10)[k - 93]));
    }
}

/// The value after a key that is first found at `p`.
proof fn lemma_field_value(x: Seq<u8>, key: Seq<u8>, p: int, d: nat)
    requires
        key.len() > 0,
        0 <= p,
        p + key.len() + 11 <= x.len(),
        find_from(x, key, 0) == Some(p as nat),
        x.subrange(p + key.len(), p + key.len() + 10) == padded_decimal(d, 10),
        !is_ascii_digit(x[p + key.len() + 10]),
        d < 10_000_000_000,
        d <= usize::MAX,
    ensures
        spec_find_offset(x, key) == Some(d as usize),
{
    lemma_padded_ten(d);
    let start = p + key.len();
    let rest = x.skip(start);
    assert forall|k: int| 0 <= k < 10 implies is_ascii_digit(#[trigger] rest[k]) by {
        assert(rest[k] == x.subrange(start, start + 10)[k]);
    }
    assert(rest[10] == x[start + 10]);
    lemma_digit_run_exact(rest, 10);
    assert(rest.take(10) =~= padded_decimal(d, 10));
}

/// `StartFragment` read back from a main header is the value written into it.
#[verifier::spinoff_prover]
#[verifier::rlimit(40)]
proof fn lemma_field_start_fragment(x: Seq<u8>, d1: nat, d2: nat, d3: nat, d4: nat)
    requires
        main_header_layout(x, d1, d2, d3, d4),
        d1 < 10_000_000_000,
        d2 < 10_000_000_000,
        d3 < 10_000_000_000,
        d4 < 10_000_000_000,
        d3 <= usize::MAX,
    ensures
        spec_find_offset(x, CF_HTML_START_FRAGMENT_FIELD.spec_bytes()) == Some(d3 as usize),
{
    lemma_header_literals();
    lemma_layout_bytes(x, d1, d2, d3, d4);
    let n = CF_HTML_START_FRAGMENT_FIELD.spec_bytes();
    lemma_find_skip(x, n, 0, 13);
    assert(x.subrange(13, 27)[5] == x[18]);
    assert(x.subrange(13, 27) != n);
    assert(find_from(x, n, 13) == find_from(x, n, 14));
    lemma_find_skip(x, n, 14, 55);
    assert(x.subrange(55, 69) =~= n);
    lemma_find_at(x, n, 55);
    lemma_field_value(x, n, 55, d3);
}

/// `EndFragment` read back from a main header is the value written into it.
#[verifier::spinoff_prover]
#[verifier::rlimit(40)]
proof fn lemma_field_end_fragment(x: Seq<u8>, d1: nat, d2: nat, d3: nat, d4: nat)
    requires
        main_header_layout(x, d1, d2, d3, d4),
        d1 < 10_000_000_000,
        d2 < 10_000_000_000,
        d3 < 10_000_000_000,
        d4 < 10_000_000_000,
        d4 <= usize::MAX,
    ensures
        spec_find_offset(x, CF_HTML_END_FRAGMENT_FIELD.spec_bytes()) == Some(d4 as usize),
{
    lemma_header_literals();
    lemma_layout_bytes(x, d1, d2, d3, d4);
    let n = CF_HTML_END_FRAGMENT_FIELD.spec_bytes();
    lemma_find_skip(x, n, 0, 35);
    assert(x.subrange(35, 47)[3] == x[38]);
    assert(x.subrange(35, 47) != n);
    assert(find_from(x, n, 35) == find_from(x, n, 36));
    lemma_find_skip(x, n, 36, 81);
    assert(x.subrange(81, 93) =~= n);
    lemma_find_at(x, n, 81);
    lemma_field_value(x, n, 81, d4);
}

// ---------------------------------------------------------------------------
// Where the header ends
// ---------------------------------------------------------------------------

/// A header line ending in CRLF at `pos + off` is skipped by the scan.
proof fn lemma_scan_header_line(data: Seq<u8>, pos: int, off: int)
    requires
        0 <= pos,
        0 <= off,
        pos + off + 2 <= data.len(),
        forall|k: int| pos <= k < pos + off ==> #[trigger] data[k] != 13,
        data[pos + off] == 13,
        data[pos + off + 1] == 10,
        spec_is_header_line(data.subrange(pos, pos + off)),
    ensures
        header_scan(data, pos) == header_scan(data, pos + off + 2),
{
    let rest = data.skip(pos);
    let crlf = seq![13u8, 10u8];
    assert forall|k: int| 0 <= k < off && k < rest.len() implies rest[k] != crlf[0] by {
        assert(rest[k] == data[pos + k]);
    }
    lemma_find_skip(rest, crlf, 0, off);
    assert(rest.subrange(off, off + 2) =~= crlf);
    lemma_find_at(rest, crlf, off);
    assert(rest.take(off) =~= data.subrange(pos, pos + off));
}

/// From any position up to the start of the document, the scan ends no later
/// than where the document starts.
proof fn lemma_scan_tail(data: Seq<u8>, pos: int, s: int)
    requires
        0 <= pos <= s,
        s >= 2,
        s + 14 <= data.len(),
        data[s - 2] == 13,
        data[s - 1] == 10,
        data.subrange(s, s + 14) == CF_HTML_BODY_OPEN.spec_bytes(),
    ensures
        header_scan(data, pos) matches Some(h) && pos <= h <= s,
    decreases s - pos,
{
    lemma_header_literals();
    lemma_bytes_of(data, s, s + 14, CF_HTML_BODY_OPEN.spec_bytes());
    let rest = data.skip(pos);
    let crlf = seq![13u8, 10u8];
    let q = if pos <= s - 2 {
        s - 2 - pos
    } else {
        s + 12 - pos
    };
    assert(rest.subrange(q, q + 2) =~= crlf);
    lemma_find_bound(rest, crlf, 0, q);
    let off = find_from(rest, crlf, 0)->0 as int;
    assert(spec_find_subslice(rest, crlf) == Some(off as nat));
    let line = rest.take(off);
    if pos >= s - 1 {
        if off > 0 {
            assert(line[0] == data[pos]);
            assert(!is_ascii_alpha(line[0]));
        }
        assert(alpha_run(line) == 0);
        assert(!spec_is_header_line(line));
    } else if spec_is_header_line(line) {
        lemma_scan_tail(data, pos + off + 2, s);
    }
}

proof fn lemma_header_line_shape(line: Seq<u8>, m: int)
    requires
        0 < m < line.len(),
        forall|k: int| 0 <= k < m ==> is_ascii_alpha(#[trigger] line[k]),
        line[m] == 58,
    ensures
        spec_is_header_line(line),
{
    lemma_alpha_run_exact(line, m);
}

/// The scan skips the `Version`, `StartHTML` and `EndHTML` lines.
proof fn lemma_scan_first_lines(data: Seq<u8>, d1: nat, d2: nat, d3: nat, d4: nat)
    requires
        main_header_layout(data, d1, d2, d3, d4),
        d1 < 10_000_000_000,
        d2 < 10_000_000_000,
        d3 < 10_000_000_000,
        d4 < 10_000_000_000,
    ensures
        header_scan(data, 0) == header_scan(data, 55),
{
    lemma_header_literals();
    lemma_layout_bytes(data, d1, d2, d3, d4);

    let l1 = data.subrange(0, 11);
    assert forall|k: int| 0 <= k < 7 implies is_ascii_alpha(#[trigger] l1[k]) by {
        assert(l1[k] == data[k]);
    }
    assert(l1[7] == data[7]);
    lemma_header_line_shape(l1, 7);
    lemma_scan_header_line(data, 0, 11);

    let l2 = data.subrange(13, 33);
    assert forall|k: int| 0 <= k < 9 implies is_ascii_alpha(#[trigger] l2[k]) by {
        assert(l2[k] == data[13 + k]);
    }
    assert(l2[9] == data[22]);
    lemma_header_line_shape(l2, 9);
    lemma_scan_header_line(data, 13, 20);

    let l3 = data.subrange(35, 53);
    assert forall|k: int| 0 <= k < 7 implies is_ascii_alpha(#[trigger] l3[k]) by {
        assert(l3[k] == data[35 + k]);
    }
    assert(l3[7] == data[42]);
    lemma_header_line_shape(l3, 7);
    lemma_scan_header_line(data, 35, 18);
}

/// The scan skips the `StartFragment` and `EndFragment` lines.
proof fn lemma_scan_fragment_lines(data: Seq<u8>, d1: nat, d2: nat, d3: nat, d4: nat)
    requires
        main_header_layout(data, d1, d2, d3, d4),
        d1 < 10_000_000_000,
        d2 < 10_000_000_000,
        d3 < 10_000_000_000,
        d4 < 10_000_000_000,
    ensures
        header_scan(data, 55) == header_scan(data, 105),
{
    lemma_header_literals();
    lemma_layout_bytes(data, d1, d2, d3, d4);

    let l4 = data.subrange(55, 79);
    assert forall|k: int| 0 <= k < 13 implies is_ascii_alpha(#[trigger] l4[k]) by {
        assert(l4[k] == data[55 + k]);
    }
    assert(l4[13] == data[68]);
    lemma_header_line_shape(l4, 13);
    lemma_scan_header_line(data, 55, 24);

    let l5 = data.subrange(81, 103);
    assert forall|k: int| 0 <= k < 11 implies is_ascii_alpha(#[trigger] l5[k]) by {
        assert(l5[k] == data[81 + k]);
    }
    assert(l5[11] == data[92]);
    lemma_header_line_shape(l5, 11);
    lemma_scan_header_line(data, 81, 22);
}

/// The header of a payload that starts with a main header and whose document
/// starts at `s` ends somewhere after the offset lines and no later than `s`.
proof fn lemma_built_header_len(data: Seq<u8>, d1: nat, d2: nat, d3: nat, d4: nat, s: int)
    requires
        main_header_layout(data, d1, d2, d3, d4),
        d1 < 10_000_000_000,
        d2 < 10_000_000_000,
        d3 < 10_000_000_000,
        d4 < 10_000_000_000,
        105 <= s,
        s + 14 <= data.len(),
        data[s - 2] == 13,
        data[s - 1] == 10,
        data.subrange(s, s + 14) == CF_HTML_BODY_OPEN.spec_bytes(),
    ensures
        spec_cf_html_header_len(data) matches Some(h) && 105 <= h <= s,
{
    lemma_header_literals();
    assert(data[0] == data.subrange(0, 23)[0]);
    assert(!starts_with_bom(data));
    lemma_scan_first_lines(data, d1, d2, d3, d4);
    lemma_scan_fragment_lines(data, d1, d2, d3, d4);
    lemma_scan_tail(data, 105, s);
}

// ---------------------------------------------------------------------------
// The payload `build_cf_html` writes
// ---------------------------------------------------------------------------

/// The `SourceURL` line of a header, if there is one.
spec fn source_url_line(source_url: Option<Seq<u8>>) -> Seq<u8> {
    match source_url {
        Some(url) => CF_HTML_SOURCE_URL_KEY.spec_bytes() + url + CRLF.spec_bytes(),
        None => Seq::empty(),
    }
}

proof fn lemma_layout_prefix(x: Seq<u8>, y: Seq<u8>, d1: nat, d2: nat, d3: nat, d4: nat)
    requires
        main_header_layout(y, d1, d2, d3, d4),
        x.len() >= 105,
        x.subrange(0, 105) == y.subrange(0, 105),
    ensures
        main_header_layout(x, d1, d2, d3, d4),
{
    assert forall|k: int| 0 <= k < 105 implies #[trigger] x[k] == y[k] by {
        assert(x.subrange(0, 105)[k] == x[k]);
        assert(y.subrange(0, 105)[k] == y[k]);
    }
    assert(x.subrange(0, 23) =~= y.subrange(0, 23));
    assert(x.subrange(23, 33) =~= y.subrange(23, 33));
    assert(x.subrange(33, 43) =~= y.subrange(33, 43));
    assert(x.subrange(43, 53) =~= y.subrange(43, 53));
    assert(x.subrange(53, 69) =~= y.subrange(53, 69));
    assert(x.subrange(69, 79) =~= y.subrange(69, 79));
    assert(x.subrange(79, 93) =~= y.subrange(79, 93));
    assert(x.subrange(93, 103) =~= y.subrange(93, 103));
    assert(x.subrange(103, 105) =~= y.subrange(103, 105));
}

/// A header written with values below ten billion: the offset lines, then the
/// optional `SourceURL` line, ending in CRLF.
proof fn lemma_header_text_layout(
    d1: nat,
    d2: nat,
    d3: nat,
    d4: nat,
    source_url: Option<Seq<u8>>,
)
    requires
        d1 < 10_000_000_000,
        d2 < 10_000_000_000,
        d3 < 10_000_000_000,
        d4 < 10_000_000_000,
    ensures
        main_header_layout(spec_header_text(d1, d2, d3, d4, source_url), d1, d2, d3, d4),
        spec_header_text(d1, d2, d3, d4, source_url).len() == 105 + source_url_line(
            source_url,
        ).len(),
        spec_header_text(d1, d2, d3, d4, source_url)[103 + source_url_line(source_url).len() as int]
            == 13,
        spec_header_text(d1, d2, d3, d4, source_url)[104 + source_url_line(source_url).len() as int]
            == 10,
{
    lemma_literal_sizes();
    lemma_padded_ten(d1);
    lemma_padded_ten(d2);
    lemma_padded_ten(d3);
    lemma_padded_ten(d4);
    let a = CF_HTML_HEADER_PREFIX.spec_bytes();
    let b = CF_HTML_END_HTML_KEY.spec_bytes();
    let c = CF_HTML_START_FRAGMENT_KEY.spec_bytes();
    let e = CF_HTML_END_FRAGMENT_KEY.spec_bytes();
    let crlf = CRLF.spec_bytes();
    let p1 = padded_decimal(d1, 10);
    let p2 = padded_decimal(d2, 10);
    let p3 = padded_decimal(d3, 10);
    let p4 = padded_decimal(d4, 10);
    let m = a + p1 + b + p2 + c + p3 + e + p4 + crlf;
    let u = source_url_line(source_url);
    let h = spec_header_text(d1, d2, d3, d4, source_url);
    assert(h =~= m + u);
    assert(m.len() == 105);
    assert(h.subrange(0, 105) =~= m);
    assert(m.subrange(0, 105) =~= m);
    assert(m.subrange(0, 23) =~= a);
    assert(m.subrange(23, 33) =~= p1);
    assert(m.subrange(33, 43) =~= b);
    assert(m.subrange(43, 53) =~= p2);
    assert(m.subrange(53, 69) =~= c);
    assert(m.subrange(69, 79) =~= p3);
    assert(m.subrange(79, 93) =~= e);
    assert(m.subrange(93, 103) =~= p4);
    assert(m.subrange(103, 105) =~= crlf);
    assert(main_header_layout(m, d1, d2, d3, d4));
    lemma_layout_prefix(h, m, d1, d2, d3, d4);
    match source_url {
        Some(url) => {
            let k = CF_HTML_SOURCE_URL_KEY.spec_bytes();
            assert(u.len() == 12 + url.len());
            assert(h[103 + u.len() as int] == u[u.len() as int - 2]);
            assert(h[104 + u.len() as int] == u[u.len() as int - 1]);
            assert(u[u.len() as int - 2] == crlf[0]);
            assert(u[u.len() as int - 1] == crlf[1]);
        },
        None => {
            assert(u.len() == 0);
            assert(h[103] == m[103]);
            assert(h[104] == m[104]);
        },
    }
}

/// The bytes a `SourceURL` adds to a payload's length: none without one, and
/// the key, the URL and a CRLF with one.
pub open spec fn source_url_cost(source_url: Option<Seq<u8>>) -> nat {
    match source_url {
        Some(u) => 12 + u.len(),
        None => 0,
    }
}

/// The length of a built `CF_HTML` payload: 105 bytes of offset lines, the
/// `SourceURL` line if any, 68 bytes of markup around the fragment, and the
/// fragment; this holds while the offsets fit their ten digits.
pub proof fn lemma_cf_html_len(f: Seq<u8>, source_url: Option<Seq<u8>>)
    requires
        f.len() + source_url_cost(source_url) < 9_000_000_000,
    ensures
        spec_build_cf_html(f, source_url).len() == 173 + f.len() + source_url_cost(source_url),
{
    lemma_literal_sizes();
    let u = source_url_line(source_url);
    assert(u.len() == source_url_cost(source_url));
    lemma_header_text_layout(0, 0, 0, 0, source_url);
    let (s, eh, sf, ef) = cf_html_offsets(f.len(), source_url);
    assert(s == 105 + u.len());
    assert(eh == s + 68 + f.len());
    lemma_header_text_layout(s as nat, eh as nat, sf as nat, ef as nat, source_url);
}

/// A `CF_HTML` payload built for a non-empty fragment parses back to that
/// fragment, with or without a source URL, whenever the fragment and the URL
/// together stay under nine billion bytes and the payload fits a `usize`.
#[verifier::spinoff_prover]
#[verifier::rlimit(40)]
pub proof fn lemma_cf_html_round_trip(fragment: Seq<char>, source_url: Option<Seq<u8>>)
    requires
        fragment.len() > 0,
        encode_utf8(fragment).len() + source_url_cost(source_url) < 9_000_000_000,
        173 + encode_utf8(fragment).len() + source_url_cost(source_url) <= usize::MAX,
    ensures
        spec_parse_cf_html(spec_build_cf_html(encode_utf8(fragment), source_url)) == Some(
            fragment,
        ),
{
    lemma_cf_html_len(encode_utf8(fragment), source_url);
    lemma_literal_sizes();
    let f = encode_utf8(fragment);
    assert(f.len() > 0) by {
        assert(f == encode_scalar(fragment[0] as u32) + encode_utf8(fragment.drop_first()));
    }
    let u = source_url_line(source_url);
    lemma_header_text_layout(0, 0, 0, 0, source_url);
    let (s, eh, sf, ef) = cf_html_offsets(f.len(), source_url);
    assert(s == 105 + u.len());
    assert(sf == s + 34);
    assert(ef == sf + f.len());
    assert(eh == ef + 34);
    let data = spec_build_cf_html(f, source_url);
    let h = spec_header_text(s, eh, sf, ef, source_url);
    let bo = CF_HTML_BODY_OPEN.spec_bytes();
    assert(data == h + bo + CF_HTML_START_MARKER.spec_bytes() + f
        + CF_HTML_END_MARKER.spec_bytes() + CF_HTML_BODY_CLOSE.spec_bytes());
    lemma_header_text_layout(s as nat, eh as nat, sf as nat, ef as nat, source_url);
    assert(h.len() == s);
    assert(data.len() == eh);
    assert(data.subrange(0, 105) =~= h.subrange(0, 105));
    lemma_layout_prefix(data, h, s as nat, eh as nat, sf as nat, ef as nat);
    assert(data[s - 2] == h[s - 2]);
    assert(data[s - 1] == h[s - 1]);
    assert(data.subrange(s as int, s as int + 14) =~= bo);
    lemma_built_header_len(data, s as nat, eh as nat, sf as nat, ef as nat, s as int);
    let hl = spec_cf_html_header_len(data)->0;
    let header = data.take(hl as int);
    assert(header.subrange(0, 105) =~= data.subrange(0, 105));
    lemma_layout_prefix(header, data, s as nat, eh as nat, sf as nat, ef as nat);
    lemma_field_start_fragment(header, s as nat, eh as nat, sf as nat, ef as nat);
    lemma_field_end_fragment(header, s as nat, eh as nat, sf as nat, ef as nat);
    assert(data.subrange(sf as int, ef as int) =~= f);
    encode_utf8_valid_utf8(fragment);
    encode_utf8_decode_utf8(fragment);
    assert(spec_cf_html_fragment(data, header) == Some(fragment));
}

} // verus!
