//! Windows clipboard format encoding and decoding.
//!
//! Formats handled:
//! - `CF_HDROP`  -> a `DROPFILES` header followed by a double-NUL terminated file list
//! - `CF_DIB` / `CF_DIBV5` -> a bitmap header followed by bottom-up BGRA pixels
//! - `CF_HTML`   -> an ASCII `Version:0.9` header carrying byte offsets, then HTML
//! - `CF_RTF`    -> opaque bytes, no header
//! - `CF_UNICODETEXT` -> plain text, handled in `clipboard`

use vstd::prelude::*;
use vstd::utf8::*;
use vstd::string::*;
use crate::unicode::{
    string_push,
    char_utf16, extend_utf16le, lemma_units_le_concat, lemma_units_le_len,
    lemma_units_le_single, lemma_units_of_units_le, lemma_utf16_decode_encode_all,
    lemma_utf16_encode_nonzero, push_unit_le, string_from_utf16_lossy, u16_le, units_le, units_of,
    utf16_decode, utf16_encode, utf16le,
};

verus! {

/// Stored in `clip_formats.format`; read back by the window.
pub const FORMAT_TEXT: &'static str = "text";
pub const FORMAT_HTML: &'static str = "html";
pub const FORMAT_RTF: &'static str = "rtf";
pub const FORMAT_FILE: &'static str = "file";

// ---------------------------------------------------------------------------
// Little-endian integers
// ---------------------------------------------------------------------------

/// The four little-endian bytes of a 32-bit value.
pub open spec fn le32(x: u32) -> Seq<u8> {
    seq![
        (x % 256) as u8,
        ((x / 256) % 256) as u8,
        ((x / 65536) % 256) as u8,
        (x / 16777216) as u8,
    ]
}

/// The 32-bit value stored little-endian at `at`.
pub open spec fn read_le32(b: Seq<u8>, at: int) -> u32 {
    (b[at] + 256 * b[at + 1] + 65536 * b[at + 2] + 16777216 * b[at + 3]) as u32
}

/// `n` zero bytes.
pub open spec fn zeros(n: nat) -> Seq<u8> {
    Seq::new(n, |i: int| 0u8)
}

fn push_u32(out: &mut Vec<u8>, value: u32)
    ensures
        final(out)@ == old(out)@ + le32(value),
{
    out.push((value % 256) as u8);
    out.push(((value / 256) % 256) as u8);
    out.push(((value / 65536) % 256) as u8);
    out.push((value / 16777216) as u8);
    assert(final(out)@ =~= old(out)@ + le32(value));
}

fn push_i32(out: &mut Vec<u8>, value: i32)
    ensures
        final(out)@ == old(out)@ + le32(value as u32),
{
    push_u32(out, value as u32);
}

fn push_u16(out: &mut Vec<u8>, value: u16)
    ensures
        final(out)@ == old(out)@ + u16_le(value),
{
    push_unit_le(out, value);
}

fn push_zeros(out: &mut Vec<u8>, n: usize)
    ensures
        final(out)@ == old(out)@ + zeros(n as nat),
{
    let ghost start = out@;
    let mut i: usize = 0;
    while i < n
        invariant
            i <= n,
            out@ == start + zeros(i as nat),
        decreases n - i,
    {
        out.push(0u8);
        i = i + 1;
        assert(out@ =~= start + zeros(i as nat));
    }
}

pub(crate) fn extend_bytes(out: &mut Vec<u8>, bytes: &[u8])
    ensures
        final(out)@ == old(out)@ + bytes@,
{
    let ghost start = out@;
    let mut i: usize = 0;
    while i < bytes.len()
        invariant
            i <= bytes.len(),
            out@ == start + bytes@.take(i as int),
        decreases bytes.len() - i,
    {
        out.push(bytes[i]);
        i = i + 1;
        assert(out@ =~= start + bytes@.take(i as int));
    }
    assert(bytes@.take(bytes.len() as int) =~= bytes@);
}

fn read_u32_at(data: &[u8], at: usize) -> (v: u32)
    requires
        at + 4 <= data@.len(),
    ensures
        v == read_le32(data@, at as int),
{
    data[at] as u32 + (data[at + 1] as u32) * 256 + (data[at + 2] as u32) * 65536 + (data[at
        + 3] as u32) * 16777216
}

// ---------------------------------------------------------------------------
// CF_HDROP / DROPFILES
// ---------------------------------------------------------------------------

/// Size of the Win32 `DROPFILES` header in bytes:
/// `DWORD pFiles` (4) + `POINT pt` (8) + `BOOL fNC` (4) + `BOOL fWide` (4).
pub const DROPFILES_HEADER_SIZE: usize = 20;

#[derive(Debug, PartialEq, Eq)]
pub enum HdropError {
    TooShort,
    BadOffset(usize),
}

/// The views of a list of strings.
pub open spec fn string_views(v: Seq<String>) -> Seq<Seq<char>> {
    v.map_values(|s: String| s@)
}

/// The file entries of a wide list, read as 16-bit units from `start`.
///
/// Each entry runs up to a NUL unit. An empty entry ends the list, and so does
/// the end of the data; a final entry with no NUL after it is not part of the list.
pub open spec fn wide_scan(u: Seq<u16>, start: int, i: int) -> Seq<Seq<u16>>
    decreases u.len() - i,
{
    if i >= u.len() {
        seq![]
    } else if u[i] == 0 {
        if i == start {
            seq![]
        } else {
            seq![u.subrange(start, i)] + wide_scan(u, i + 1, i + 1)
        }
    } else {
        wide_scan(u, start, i + 1)
    }
}

/// The file entries of an ANSI list, read as bytes from `start`.
///
/// Entries are separated by NUL bytes and an empty entry ends the list. Unlike the
/// wide list, a final entry that runs to the end of the data is kept.
pub open spec fn ansi_scan(b: Seq<u8>, start: int, i: int) -> Seq<Seq<u8>>
    decreases b.len() - i,
{
    if i >= b.len() {
        if i == start {
            seq![]
        } else {
            seq![b.subrange(start, i)]
        }
    } else if b[i] == 0 {
        if i == start {
            seq![]
        } else {
            seq![b.subrange(start, i)] + ansi_scan(b, i + 1, i + 1)
        }
    } else {
        ansi_scan(b, start, i + 1)
    }
}

/// Each wide entry decoded from UTF-16.
pub open spec fn decode_wide_entries(es: Seq<Seq<u16>>) -> Seq<Seq<char>> {
    es.map_values(|e: Seq<u16>| utf16_decode(e))
}

/// Each ANSI entry decoded as lossy UTF-8.
pub open spec fn decode_ansi_entries(es: Seq<Seq<u8>>) -> Seq<Seq<char>> {
    es.map_values(|e: Seq<u8>| utf8_lossy(e))
}

/// Paths of a wide (UTF-16LE) file list.
pub open spec fn wide_list(list: Seq<u8>) -> Seq<Seq<char>> {
    decode_wide_entries(wide_scan(units_of(list), 0, 0))
}

/// Paths of an ANSI file list, each decoded as lossy UTF-8.
pub open spec fn ansi_list(list: Seq<u8>) -> Seq<Seq<char>> {
    decode_ansi_entries(ansi_scan(list, 0, 0))
}

/// What a `CF_HDROP` payload holds: the paths of its file list, or why it was
/// rejected.
pub open spec fn spec_parse_hdrop(data: Seq<u8>) -> Result<Seq<Seq<char>>, HdropError> {
    if data.len() < DROPFILES_HEADER_SIZE {
        Err(HdropError::TooShort)
    } else {
        let p_files = read_le32(data, 0);
        if p_files < DROPFILES_HEADER_SIZE || p_files > data.len() {
            Err(HdropError::BadOffset(p_files as usize))
        } else if read_le32(data, 16) != 0 {
            Ok(wide_list(data.skip(p_files as int)))
        } else {
            Ok(ansi_list(data.skip(p_files as int)))
        }
    }
}

/// A name for the text `String::from_utf8_lossy` makes of some bytes.
pub uninterp spec fn utf8_lossy(bytes: Seq<u8>) -> Seq<char>;

/// `String::from_utf8_lossy`: the bytes as text, with every invalid UTF-8
/// sequence replaced by U+FFFD. Valid UTF-8 comes back unchanged.
#[verifier::external_body]
pub(crate) fn string_from_utf8_lossy(bytes: &[u8]) -> (s: String)
    ensures
        s@ == utf8_lossy(bytes@),
        valid_utf8(bytes@) ==> s@ == decode_utf8(bytes@),
{
    String::from_utf8_lossy(bytes).into_owned()
}

/// Parses a `CF_HDROP` payload into the file paths it carries.
///
/// `pFiles` is the byte offset of the file list inside the payload and is not
/// always 20, so it is read rather than assumed. `fWide` selects UTF-16LE
/// (`TRUE`, what every current Windows app sets) or ANSI, which is decoded as
/// lossy UTF-8.
pub fn parse_hdrop(data: &[u8]) -> (res: Result<Vec<String>, HdropError>)
    ensures
        match spec_parse_hdrop(data@) {
            Ok(paths) => res is Ok && string_views(res->Ok_0@) == paths,
            Err(e) => res == Err::<Vec<String>, HdropError>(e),
        },
{
    if data.len() < DROPFILES_HEADER_SIZE {
        return Err(HdropError::TooShort);
    }
    let p_files = read_u32_at(data, 0) as usize;
    let f_wide = read_u32_at(data, 16) != 0;

    if p_files < DROPFILES_HEADER_SIZE || p_files > data.len() {
        return Err(HdropError::BadOffset(p_files));
    }
    let list = &data[p_files..data.len()];
    assert(list@ =~= data@.skip(p_files as int));
    if f_wide {
        Ok(decode_wide_list(list))
    } else {
        Ok(decode_ansi_list(list))
    }
}

fn unit_at(list: &[u8], k: usize) -> (u: u16)
    requires
        2 * k + 1 < list@.len(),
    ensures
        u == units_of(list@)[k as int],
{
    let len = list.len();
    assert(2 * k + 1 < len);
    list[2 * k] as u16 + (list[2 * k + 1] as u16) * 256
}

fn decode_wide_list(list: &[u8]) -> (paths: Vec<String>)
    ensures
        string_views(paths@) == wide_list(list@),
{
    let ghost u = units_of(list@);
    let n = list.len() / 2;
    let mut paths: Vec<String> = Vec::new();
    let mut current: Vec<u16> = Vec::new();
    let mut start: usize = 0;
    let mut k: usize = 0;
    while k < n
        invariant
            n == u.len(),
            u == units_of(list@),
            start <= k <= n,
            current@ == u.subrange(start as int, k as int),
            string_views(paths@) + decode_wide_entries(wide_scan(u, start as int, k as int))
                == decode_wide_entries(wide_scan(u, 0, 0)),
        decreases n - k,
    {
        let unit = unit_at(list, k);
        if unit == 0 {
            if current.len() == 0 {
                proof {
                    assert(wide_scan(u, start as int, k as int) =~= Seq::<Seq<u16>>::empty());
                    assert(decode_wide_entries(Seq::<Seq<u16>>::empty()) =~= Seq::<Seq<char>>::empty());
                    assert(string_views(paths@) + Seq::<Seq<char>>::empty() =~= string_views(
                        paths@,
                    ));
                }
                return paths;
            }
            let path = string_from_utf16_lossy(current.as_slice());
            let ghost before = paths@;
            paths.push(path);
            proof {
                let e = u.subrange(start as int, k as int);
                let rest = wide_scan(u, k + 1, k + 1);
                assert(wide_scan(u, start as int, k as int) == seq![e] + rest);
                assert(string_views(paths@) =~= string_views(before).push(utf16_decode(e)));
                assert(decode_wide_entries(seq![e] + rest) =~= seq![utf16_decode(e)]
                    + decode_wide_entries(rest));
                assert(string_views(paths@) + decode_wide_entries(rest) =~= string_views(before)
                    + decode_wide_entries(seq![e] + rest));
            }
            current.clear();
            start = k + 1;
        } else {
            current.push(unit);
            proof {
                assert(current@ =~= u.subrange(start as int, k + 1));
            }
        }
        k = k + 1;
    }
    proof {
        assert(wide_scan(u, start as int, k as int) =~= Seq::<Seq<u16>>::empty());
        assert(decode_wide_entries(Seq::<Seq<u16>>::empty()) =~= Seq::<Seq<char>>::empty());
        assert(string_views(paths@) + Seq::<Seq<char>>::empty() =~= string_views(paths@));
    }
    paths
}

fn decode_ansi_list(list: &[u8]) -> (paths: Vec<String>)
    ensures
        string_views(paths@) == ansi_list(list@),
{
    let ghost b = list@;
    let n = list.len();
    let mut paths: Vec<String> = Vec::new();
    let mut start: usize = 0;
    let mut i: usize = 0;
    while i < n
        invariant
            n == b.len(),
            b == list@,
            start <= i <= n,
            string_views(paths@) + decode_ansi_entries(ansi_scan(b, start as int, i as int))
                == decode_ansi_entries(ansi_scan(b, 0, 0)),
        decreases n - i,
    {
        if list[i] == 0 {
            if i == start {
                proof {
                    assert(ansi_scan(b, start as int, i as int) =~= Seq::<Seq<u8>>::empty());
                    assert(decode_ansi_entries(Seq::<Seq<u8>>::empty()) =~= Seq::<Seq<char>>::empty());
                    assert(string_views(paths@) + Seq::<Seq<char>>::empty() =~= string_views(
                        paths@,
                    ));
                }
                return paths;
            }
            let entry = &list[start..i];
            let path = string_from_utf8_lossy(entry);
            let ghost before = paths@;
            paths.push(path);
            proof {
                let e = b.subrange(start as int, i as int);
                assert(entry@ =~= e);
                let rest = ansi_scan(b, i + 1, i + 1);
                assert(ansi_scan(b, start as int, i as int) == seq![e] + rest);
                assert(string_views(paths@) =~= string_views(before).push(utf8_lossy(e)));
                assert(decode_ansi_entries(seq![e] + rest) =~= seq![utf8_lossy(e)]
                    + decode_ansi_entries(rest));
                assert(string_views(paths@) + decode_ansi_entries(rest) =~= string_views(before)
                    + decode_ansi_entries(seq![e] + rest));
            }
            start = i + 1;
        }
        i = i + 1;
    }
    if i > start {
        let entry = &list[start..i];
        let path = string_from_utf8_lossy(entry);
        let ghost before = paths@;
        paths.push(path);
        proof {
            let e = b.subrange(start as int, i as int);
            assert(entry@ =~= e);
            assert(ansi_scan(b, start as int, i as int) == seq![e]);
            assert(decode_ansi_entries(seq![e]) =~= seq![utf8_lossy(e)]);
            assert(string_views(paths@) =~= string_views(before) + decode_ansi_entries(seq![e]));
        }
    } else {
        proof {
            assert(ansi_scan(b, start as int, i as int) =~= Seq::<Seq<u8>>::empty());
            assert(decode_ansi_entries(Seq::<Seq<u8>>::empty()) =~= Seq::<Seq<char>>::empty());
            assert(string_views(paths@) + Seq::<Seq<char>>::empty() =~= string_views(paths@));
        }
    }
    paths
}

/// The `DROPFILES` header this crate writes: `pFiles` = 20, `pt` = (0, 0),
/// `fNC` = FALSE, `fWide` = TRUE.
pub open spec fn hdrop_header() -> Seq<u8> {
    le32(DROPFILES_HEADER_SIZE as u32) + zeros(12) + le32(1)
}

/// Each path as UTF-16LE followed by a NUL unit.
pub open spec fn hdrop_entries(paths: Seq<Seq<char>>) -> Seq<u8>
    decreases paths.len(),
{
    if paths.len() == 0 {
        seq![]
    } else {
        utf16le(paths[0]) + seq![0u8, 0u8] + hdrop_entries(paths.drop_first())
    }
}

/// The `CF_HDROP` payload for a list of paths.
pub open spec fn spec_build_hdrop(paths: Seq<Seq<char>>) -> Seq<u8> {
    hdrop_header() + hdrop_entries(paths) + seq![0u8, 0u8]
}

pub proof fn lemma_hdrop_entries_push(paths: Seq<Seq<char>>, p: Seq<char>)
    ensures
        hdrop_entries(paths.push(p)) == hdrop_entries(paths) + utf16le(p) + seq![0u8, 0u8],
    decreases paths.len(),
{
    if paths.len() == 0 {
        assert(paths.push(p).drop_first() =~= paths);
        assert(hdrop_entries(paths.push(p)) =~= hdrop_entries(paths) + utf16le(p) + seq![
            0u8,
            0u8,
        ]);
    } else {
        assert(paths.push(p).drop_first() =~= paths.drop_first().push(p));
        lemma_hdrop_entries_push(paths.drop_first(), p);
        assert(hdrop_entries(paths.push(p)) =~= hdrop_entries(paths) + utf16le(p) + seq![
            0u8,
            0u8,
        ]);
    }
}

/// The 16-bit units of the entries that `hdrop_entries` writes.
pub open spec fn hdrop_units(paths: Seq<Seq<char>>) -> Seq<u16>
    decreases paths.len(),
{
    if paths.len() == 0 {
        seq![]
    } else {
        utf16_encode(paths[0]) + seq![0u16] + hdrop_units(paths.drop_first())
    }
}

proof fn lemma_hdrop_entries_units(paths: Seq<Seq<char>>)
    ensures
        hdrop_entries(paths) == units_le(hdrop_units(paths)),
    decreases paths.len(),
{
    if paths.len() > 0 {
        lemma_hdrop_entries_units(paths.drop_first());
        let e = utf16_encode(paths[0]);
        let rest = hdrop_units(paths.drop_first());
        lemma_units_le_concat(e + seq![0u16], rest);
        lemma_units_le_concat(e, seq![0u16]);
        lemma_units_le_single(0u16);
        assert(u16_le(0u16) =~= seq![0u8, 0u8]);
    }
}

proof fn lemma_wide_scan_shift(u: Seq<u16>, k: int, start: int, i: int)
    requires
        0 <= k <= start <= i,
        k <= u.len(),
    ensures
        wide_scan(u, start, i) == wide_scan(u.skip(k), start - k, i - k),
    decreases u.len() - i,
{
    if i >= u.len() {
        assert(u.skip(k).len() == u.len() - k);
    } else {
        assert(u.skip(k)[i - k] == u[i]);
    }
    if i >= u.len() {
    } else if u[i] == 0 {
        if i != start {
            lemma_wide_scan_shift(u, k, i + 1, i + 1);
            assert(u.subrange(start, i) =~= u.skip(k).subrange(start - k, i - k));
        }
    } else {
        lemma_wide_scan_shift(u, k, start, i + 1);
    }
}

proof fn lemma_wide_scan_entry(e: Seq<u16>, t: Seq<u16>, i: int)
    requires
        e.len() > 0,
        0 <= i <= e.len(),
        forall|j: int| 0 <= j < e.len() ==> e[j] != 0,
    ensures
        wide_scan(e + seq![0u16] + t, 0, i) == seq![e] + wide_scan(t, 0, 0),
    decreases e.len() - i,
{
    let u = e + seq![0u16] + t;
    if i < e.len() {
        lemma_wide_scan_entry(e, t, i + 1);
    } else {
        assert(u[i] == 0);
        assert(u.subrange(0, i) =~= e);
        let n = e.len() + 1;
        lemma_wide_scan_shift(u, n as int, n as int, n as int);
        assert(u.skip(n as int) =~= t);
    }
}

proof fn lemma_wide_scan_hdrop_units(paths: Seq<Seq<char>>)
    requires
        forall|i: int|
            0 <= i < paths.len() ==> #[trigger] paths[i].len() > 0 && !paths[i].contains('\0'),
    ensures
        wide_scan(hdrop_units(paths) + seq![0u16], 0, 0) == paths.map_values(
            |p: Seq<char>| utf16_encode(p),
        ),
    decreases paths.len(),
{
    if paths.len() == 0 {
        assert(hdrop_units(paths) + seq![0u16] =~= seq![0u16]);
        assert(paths.map_values(|p: Seq<char>| utf16_encode(p)) =~= Seq::<Seq<u16>>::empty());
    } else {
        let p = paths[0];
        let rest = paths.drop_first();
        assert forall|i: int| 0 <= i < rest.len() implies #[trigger] rest[i].len() > 0
            && !rest[i].contains('\0') by {
            assert(rest[i] == paths[i + 1]);
        }
        lemma_wide_scan_hdrop_units(rest);
        let e = utf16_encode(p);
        assert forall|j: int| 0 <= j < p.len() implies p[j] != '\0' by {
            if p[j] == '\0' {
                assert(p.contains('\0'));
            }
        }
        lemma_utf16_encode_nonzero(p);
        assert(e.len() > 0) by {
            assert(e == char_utf16(p[0]) + utf16_encode(p.drop_first()));
        }
        let t = hdrop_units(rest) + seq![0u16];
        assert(hdrop_units(paths) + seq![0u16] =~= e + seq![0u16] + t);
        lemma_wide_scan_entry(e, t, 0);
        assert(paths.map_values(|p: Seq<char>| utf16_encode(p)) =~= seq![e] + rest.map_values(
            |p: Seq<char>| utf16_encode(p),
        ));
    }
}

/// Law: a file list is written in the order it is given. The payload for no
/// paths is the `DROPFILES` header and the closing NUL unit; adding a path at
/// the end of the list adds its UTF-16LE text and a NUL unit just before the
/// closing NUL, after everything the shorter list wrote.
pub proof fn lemma_hdrop_writes_paths_in_order(paths: Seq<Seq<char>>, p: Seq<char>)
    ensures
        spec_build_hdrop(Seq::empty()) == hdrop_header() + seq![0u8, 0u8],
        spec_build_hdrop(paths.push(p)) == spec_build_hdrop(paths).drop_last().drop_last()
            + utf16le(p) + seq![0u8, 0u8, 0u8, 0u8],
{
    assert(hdrop_entries(Seq::<Seq<char>>::empty()) =~= Seq::<u8>::empty());
    assert(spec_build_hdrop(Seq::empty()) =~= hdrop_header() + seq![0u8, 0u8]);
    lemma_hdrop_entries_push(paths, p);
    let before = spec_build_hdrop(paths);
    assert(before.drop_last().drop_last() =~= hdrop_header() + hdrop_entries(paths));
    assert(spec_build_hdrop(paths.push(p)) =~= before.drop_last().drop_last() + utf16le(p) + seq![
        0u8,
        0u8,
        0u8,
        0u8,
    ]);
}

/// Law: the header of every written file list says where the list starts
/// (`pFiles` = 20, right after the header) and that it is wide (`fWide` set).
pub proof fn lemma_hdrop_header_fields(paths: Seq<Seq<char>>)
    ensures
        read_le32(spec_build_hdrop(paths), 0) == 20,
        read_le32(spec_build_hdrop(paths), 16) == 1,
{
    let b = spec_build_hdrop(paths);
    let h = hdrop_header();
    assert(h.len() == 20);
    assert(b =~= h + (hdrop_entries(paths) + seq![0u8, 0u8]));
    assert forall|k: int| 0 <= k < 4 implies b[k] == le32(20)[k] && b[16 + k] == le32(1)[k] by {
        assert(b[k] == h[k]);
        assert(b[16 + k] == h[16 + k]);
    }
    lemma_read_le32_of_le32(b, 0, 20);
    lemma_read_le32_of_le32(b, 16, 1);
}

/// Law: reading back a file list that `build_hdrop` wrote gives the same paths,
/// for every list of non-empty paths that contain no NUL character.
pub proof fn lemma_hdrop_round_trip(paths: Seq<Seq<char>>)
    requires
        forall|i: int|
            0 <= i < paths.len() ==> #[trigger] paths[i].len() > 0 && !paths[i].contains('\0'),
    ensures
        spec_parse_hdrop(spec_build_hdrop(paths)) == Ok::<Seq<Seq<char>>, HdropError>(paths),
{
    let data = spec_build_hdrop(paths);
    let units = hdrop_units(paths) + seq![0u16];
    lemma_hdrop_entries_units(paths);
    lemma_units_le_concat(hdrop_units(paths), seq![0u16]);
    lemma_units_le_single(0u16);
    assert(u16_le(0u16) =~= seq![0u8, 0u8]);
    lemma_units_le_len(units);
    assert(hdrop_header().len() == 20);
    assert(data.skip(20) =~= units_le(units));
    assert(read_le32(data, 0) == 20);
    assert(read_le32(data, 16) == 1);
    lemma_units_of_units_le(units);
    lemma_wide_scan_hdrop_units(paths);
    let encoded = paths.map_values(|p: Seq<char>| utf16_encode(p));
    assert forall|i: int| 0 <= i < paths.len() implies #[trigger] decode_wide_entries(
        encoded,
    )[i] == paths[i] by {
        lemma_utf16_decode_encode_all(paths[i]);
    }
    assert(decode_wide_entries(encoded) =~= paths);
}

/// Builds a `CF_HDROP` payload for the given paths, always as UTF-16LE.
pub fn build_hdrop(paths: &[String]) -> (out: Vec<u8>)
    ensures
        out@ == spec_build_hdrop(string_views(paths@)),
{
    let mut out: Vec<u8> = Vec::new();
    push_u32(&mut out, DROPFILES_HEADER_SIZE as u32);
    // pt stays (0, 0) and fNC stays FALSE; only fWide is set.
    push_zeros(&mut out, 12);
    push_i32(&mut out, 1);
    assert(out@ =~= hdrop_header());

    let ghost views = string_views(paths@);
    let mut i: usize = 0;
    while i < paths.len()
        invariant
            i <= paths.len(),
            views == string_views(paths@),
            out@ == hdrop_header() + hdrop_entries(views.take(i as int)),
        decreases paths.len() - i,
    {
        proof {
            assert(views.take(i + 1) =~= views.take(i as int).push(paths@[i as int]@));
            lemma_hdrop_entries_push(views.take(i as int), paths@[i as int]@);
        }
        extend_utf16le(&mut out, paths[i].as_str());
        push_unit_le(&mut out, 0);
        i = i + 1;
        assert(out@ =~= hdrop_header() + hdrop_entries(views.take(i as int)));
    }
    assert(views.take(paths.len() as int) =~= views);
    // The list ends with an extra NUL, so an empty list is still one NUL.
    push_unit_le(&mut out, 0);
    assert(out@ =~= spec_build_hdrop(views));
    out
}

} // verus!

verus! {

// ---------------------------------------------------------------------------
// CF_DIB / CF_DIBV5
// ---------------------------------------------------------------------------

/// `sizeof(BITMAPINFOHEADER)`
pub const BITMAPINFOHEADER_SIZE: usize = 40;

/// `sizeof(BITMAPV5HEADER)`
pub const BITMAPV5HEADER_SIZE: usize = 124;

/// `BI_RGB`
pub const BI_RGB: u32 = 0;

/// `BI_BITFIELDS`
pub const BI_BITFIELDS: u32 = 3;

/// `LCS_sRGB`, i.e. the bytes `sRGB` read as a little-endian `DWORD`.
pub const LCS_SRGB: u32 = 0x7352_4742;

/// `LCS_GM_IMAGES`
pub const LCS_GM_IMAGES: u32 = 4;

#[derive(Debug, PartialEq, Eq)]
pub enum DibError {
    /// The image is empty and cannot be represented by a DIB.
    EmptyImage,
    /// `rgba` was not exactly `width * height * 4` bytes.
    WrongPixelBuffer { expected: usize, actual: usize },
}

/// One RGBA pixel at byte offset `at`, reordered to BGRA.
pub open spec fn bgra_pixel(rgba: Seq<u8>, at: int) -> Seq<u8> {
    seq![rgba[at + 2], rgba[at + 1], rgba[at], rgba[at + 3]]
}

/// The first `n` pixels of the RGBA row starting at byte `row_start`, as BGRA.
pub open spec fn bgra_row(rgba: Seq<u8>, row_start: int, n: nat) -> Seq<u8>
    decreases n,
{
    if n == 0 {
        seq![]
    } else {
        bgra_row(rgba, row_start, (n - 1) as nat) + bgra_pixel(rgba, row_start + 4 * (n - 1))
    }
}

/// The first `n` rows of the bottom-up BGRA image: the last `n` rows of the
/// top-down RGBA source, starting from its bottom row.
pub open spec fn bottom_up_rows(rgba: Seq<u8>, width: nat, height: nat, n: nat) -> Seq<u8>
    decreases n,
{
    if n == 0 {
        seq![]
    } else {
        bottom_up_rows(rgba, width, height, (n - 1) as nat) + bgra_row(
            rgba,
            (height - n) * (width * 4),
            width,
        )
    }
}

/// The pixel block of a DIB for top-down RGBA input, or why there is none.
pub open spec fn spec_bottom_up_bgra(rgba: Seq<u8>, width: u32, height: u32) -> Result<
    Seq<u8>,
    DibError,
> {
    if width == 0 || height == 0 {
        Err(DibError::EmptyImage)
    } else if rgba.len() != width * height * 4 {
        Err(
            DibError::WrongPixelBuffer {
                expected: (width * height * 4) as usize,
                actual: rgba.len() as usize,
            },
        )
    } else {
        Ok(bottom_up_rows(rgba, width as nat, height as nat, height as nat))
    }
}

proof fn lemma_bgra_row_len(rgba: Seq<u8>, row_start: int, n: nat)
    ensures
        bgra_row(rgba, row_start, n).len() == 4 * n,
    decreases n,
{
    if n > 0 {
        lemma_bgra_row_len(rgba, row_start, (n - 1) as nat);
    }
}

proof fn lemma_bottom_up_rows_len(rgba: Seq<u8>, width: nat, height: nat, n: nat)
    ensures
        bottom_up_rows(rgba, width, height, n).len() == n * (width * 4),
    decreases n,
{
    if n > 0 {
        let m = (n - 1) as nat;
        lemma_bottom_up_rows_len(rgba, width, height, m);
        lemma_bgra_row_len(rgba, (height - n) * (width * 4), width);
        assert(n * (width * 4) == m * (width * 4) + width * 4) by (nonlinear_arith)
            requires
                m == n - 1,
        ;
    } else {
        assert(n * (width * 4) == 0) by (nonlinear_arith)
            requires
                n == 0,
        ;
    }
}

/// Converts top-down RGBA rows into the bottom-up BGRA buffer a DIB expects.
///
/// The row order is reversed for a positive height, and the red and blue
/// channels are swapped.
fn to_bottom_up_bgra(rgba: &[u8], width: u32, height: u32) -> (res: Result<Vec<u8>, DibError>)
    requires
        width * height * 4 <= usize::MAX,
    ensures
        match spec_bottom_up_bgra(rgba@, width, height) {
            Ok(p) => res is Ok && res->Ok_0@ == p,
            Err(e) => res == Err::<Vec<u8>, DibError>(e),
        },
{
    if width == 0 || height == 0 {
        return Err(DibError::EmptyImage);
    }
    let w = width as usize;
    let h = height as usize;
    assert(w * h * 4 <= usize::MAX);
    assert(w * h <= usize::MAX && w * 4 <= usize::MAX) by (nonlinear_arith)
        requires
            w * h * 4 <= usize::MAX,
            h >= 1,
    ;
    let row_len = w * 4;
    let expected = w * h * 4;
    if rgba.len() != expected {
        return Err(DibError::WrongPixelBuffer { expected, actual: rgba.len() });
    }
    assert(expected == h * row_len) by (nonlinear_arith)
        requires
            expected == w * h * 4,
            row_len == w * 4,
    ;

    let mut out: Vec<u8> = Vec::with_capacity(expected);
    let mut r: usize = 0;
    while r < h
        invariant
            0 < w,
            0 < h,
            r <= h,
            row_len == w * 4,
            expected == h * row_len,
            rgba@.len() == expected,
            out@ == bottom_up_rows(rgba@, w as nat, h as nat, r as nat),
        decreases h - r,
    {
        assert((h - 1 - r) * row_len + row_len <= h * row_len) by (nonlinear_arith)
            requires
                r < h,
        ;
        let row_start = (h - 1 - r) * row_len;
        let ghost before = out@;
        let mut x: usize = 0;
        while x < w
            invariant
                x <= w,
                row_len == w * 4,
                rgba@.len() == expected,
                row_start + row_len <= expected,
                out@ == before + bgra_row(rgba@, row_start as int, x as nat),
            decreases w - x,
        {
            let at = row_start + x * 4;
            out.push(rgba[at + 2]); // blue
            out.push(rgba[at + 1]); // green
            out.push(rgba[at]); // red
            out.push(rgba[at + 3]); // alpha
            x = x + 1;
            assert(out@ =~= before + bgra_row(rgba@, row_start as int, x as nat));
        }
        r = r + 1;
        assert(out@ =~= bottom_up_rows(rgba@, w as nat, h as nat, r as nat));
    }
    Ok(out)
}

/// A `BITMAPINFOHEADER` for a bottom-up 32bpp `BI_RGB` image.
pub open spec fn dib_header(width: u32, height: u32, image_size: nat) -> Seq<u8> {
    le32(BITMAPINFOHEADER_SIZE as u32) + le32(width) + le32(height) + u16_le(1) + u16_le(32)
        + le32(BI_RGB) + le32(image_size as u32) + zeros(16)
}

/// A `BITMAPV5HEADER` for a bottom-up 32bpp `BI_BITFIELDS` image with an alpha
/// mask and the sRGB colour space.
pub open spec fn dibv5_header(width: u32, height: u32, image_size: nat) -> Seq<u8> {
    le32(BITMAPV5HEADER_SIZE as u32) + le32(width) + le32(height) + u16_le(1) + u16_le(32)
        + le32(BI_BITFIELDS) + le32(image_size as u32) + zeros(16) + le32(0x00FF_0000) + le32(
        0x0000_FF00,
    ) + le32(0x0000_00FF) + le32(0xFF00_0000) + le32(LCS_SRGB) + zeros(36) + zeros(12) + le32(
        LCS_GM_IMAGES,
    ) + zeros(12)
}

/// The `CF_DIB` payload for an RGBA image, or why there is none.
pub open spec fn spec_build_dib(rgba: Seq<u8>, width: u32, height: u32) -> Result<
    Seq<u8>,
    DibError,
> {
    match spec_bottom_up_bgra(rgba, width, height) {
        Ok(pixels) => Ok(dib_header(width, height, pixels.len()) + pixels),
        Err(e) => Err(e),
    }
}

/// The `CF_DIBV5` payload for an RGBA image, or why there is none.
pub open spec fn spec_build_dibv5(rgba: Seq<u8>, width: u32, height: u32) -> Result<
    Seq<u8>,
    DibError,
> {
    match spec_bottom_up_bgra(rgba, width, height) {
        Ok(pixels) => Ok(dibv5_header(width, height, pixels.len()) + pixels),
        Err(e) => Err(e),
    }
}

proof fn lemma_i32_round_trip(x: u32)
    ensures
        ((x as i32) as u32) == x,
{
    assert(((x as i32) as u32) == x) by (bit_vector);
}

/// Builds a `CF_DIB` payload: a `BITMAPINFOHEADER` followed by 32bpp `BI_RGB`
/// pixels.
///
/// The 4th byte of each pixel is nominally unused under `BI_RGB`, but the alpha
/// channel is kept in place because that is what applications and other clipboard
/// managers put there. Use [`build_dibv5`] when alpha has to be declared.
pub fn build_dib(rgba: &[u8], width: u32, height: u32) -> (res: Result<Vec<u8>, DibError>)
    requires
        width * height * 4 <= usize::MAX,
    ensures
        match spec_build_dib(rgba@, width, height) {
            Ok(p) => res is Ok && res->Ok_0@ == p,
            Err(e) => res == Err::<Vec<u8>, DibError>(e),
        },
{
    let pixels = match to_bottom_up_bgra(rgba, width, height) {
        Ok(p) => p,
        Err(e) => return Err(e),
    };
    let mut out: Vec<u8> = Vec::new();
    proof {
        lemma_i32_round_trip(width);
        lemma_i32_round_trip(height);
    }
    push_u32(&mut out, BITMAPINFOHEADER_SIZE as u32); // biSize
    push_i32(&mut out, #[verifier::truncate] (width as i32)); // biWidth
    push_i32(&mut out, #[verifier::truncate] (height as i32)); // biHeight, positive => bottom-up
    push_u16(&mut out, 1); // biPlanes
    push_u16(&mut out, 32); // biBitCount
    push_u32(&mut out, BI_RGB); // biCompression
    push_u32(&mut out, pixels.len() as u32); // biSizeImage
    push_i32(&mut out, 0); // biXPelsPerMeter
    push_i32(&mut out, 0); // biYPelsPerMeter
    push_u32(&mut out, 0); // biClrUsed
    push_u32(&mut out, 0); // biClrImportant
    assert(le32(0) + le32(0) + le32(0) + le32(0) =~= zeros(16));
    assert(out@ =~= dib_header(width, height, pixels@.len()));
    extend_bytes(&mut out, pixels.as_slice());
    Ok(out)
}

/// Builds a `CF_DIBV5` payload: a `BITMAPV5HEADER` followed by 32bpp
/// `BI_BITFIELDS` pixels with an explicit alpha mask.
///
/// This is the variant that carries transparency properly, so it is the one a
/// target application should prefer.
pub fn build_dibv5(rgba: &[u8], width: u32, height: u32) -> (res: Result<Vec<u8>, DibError>)
    requires
        width * height * 4 <= usize::MAX,
    ensures
        match spec_build_dibv5(rgba@, width, height) {
            Ok(p) => res is Ok && res->Ok_0@ == p,
            Err(e) => res == Err::<Vec<u8>, DibError>(e),
        },
{
    let pixels = match to_bottom_up_bgra(rgba, width, height) {
        Ok(p) => p,
        Err(e) => return Err(e),
    };
    let mut out: Vec<u8> = Vec::new();
    proof {
        lemma_i32_round_trip(width);
        lemma_i32_round_trip(height);
    }
    push_u32(&mut out, BITMAPV5HEADER_SIZE as u32); // bV5Size
    push_i32(&mut out, #[verifier::truncate] (width as i32)); // bV5Width
    push_i32(&mut out, #[verifier::truncate] (height as i32)); // bV5Height, positive => bottom-up
    push_u16(&mut out, 1); // bV5Planes
    push_u16(&mut out, 32); // bV5BitCount
    push_u32(&mut out, BI_BITFIELDS); // bV5Compression
    push_u32(&mut out, pixels.len() as u32); // bV5SizeImage
    push_i32(&mut out, 0); // bV5XPelsPerMeter
    push_i32(&mut out, 0); // bV5YPelsPerMeter
    push_u32(&mut out, 0); // bV5ClrUsed
    push_u32(&mut out, 0); // bV5ClrImportant
    // Channel masks. Because a DIB stores bytes little-endian, 0x00FF0000 for red
    // means the byte order is blue, green, red, alpha.
    push_u32(&mut out, 0x00FF_0000); // bV5RedMask
    push_u32(&mut out, 0x0000_FF00); // bV5GreenMask
    push_u32(&mut out, 0x0000_00FF); // bV5BlueMask
    push_u32(&mut out, 0xFF00_0000); // bV5AlphaMask
    push_u32(&mut out, LCS_SRGB); // bV5CSType
    push_zeros(&mut out, 36); // bV5Endpoints, unused
    push_u32(&mut out, 0); // bV5GammaRed
    push_u32(&mut out, 0); // bV5GammaGreen
    push_u32(&mut out, 0); // bV5GammaBlue
    push_u32(&mut out, LCS_GM_IMAGES); // bV5Intent
    push_u32(&mut out, 0); // bV5ProfileData
    push_u32(&mut out, 0); // bV5ProfileSize
    push_u32(&mut out, 0); // bV5Reserved
    assert(le32(0) + le32(0) + le32(0) + le32(0) =~= zeros(16));
    assert(le32(0) + le32(0) + le32(0) =~= zeros(12));
    assert(out@ =~= dibv5_header(width, height, pixels@.len()));
    extend_bytes(&mut out, pixels.as_slice());
    Ok(out)
}

/// Law: the two DIB variants never disagree about the pixels. When both
/// succeed, what follows the `BITMAPINFOHEADER` of one is what follows the
/// `BITMAPV5HEADER` of the other; and each fails exactly when the other does,
/// with the same error.
pub proof fn lemma_dib_variants_share_pixels(rgba: Seq<u8>, width: u32, height: u32)
    ensures
        spec_build_dib(rgba, width, height) is Ok <==> spec_build_dibv5(rgba, width, height) is Ok,
        spec_build_dib(rgba, width, height) is Ok ==> spec_build_dib(rgba, width, height)->Ok_0.skip(
            BITMAPINFOHEADER_SIZE as int,
        ) == spec_build_dibv5(rgba, width, height)->Ok_0.skip(BITMAPV5HEADER_SIZE as int),
        spec_build_dib(rgba, width, height) is Err ==> spec_build_dib(rgba, width, height)
            == spec_build_dibv5(rgba, width, height),
{
    if let Ok(pixels) = spec_bottom_up_bgra(rgba, width, height) {
        let n = pixels.len();
        assert(dib_header(width, height, n).len() == BITMAPINFOHEADER_SIZE);
        assert(dibv5_header(width, height, n).len() == BITMAPV5HEADER_SIZE);
        assert((dib_header(width, height, n) + pixels).skip(40) =~= pixels);
        assert((dibv5_header(width, height, n) + pixels).skip(124) =~= pixels);
    }
}

/// Law: a DIB built from a `width` x `height` image holds exactly
/// `width * height * 4` pixel bytes after its header.
pub proof fn lemma_dib_size(rgba: Seq<u8>, width: u32, height: u32)
    ensures
        spec_build_dib(rgba, width, height) is Ok ==> spec_build_dib(rgba, width, height)->Ok_0.len()
            == BITMAPINFOHEADER_SIZE + width * height * 4,
        spec_build_dibv5(rgba, width, height) is Ok ==> spec_build_dibv5(
            rgba,
            width,
            height,
        )->Ok_0.len() == BITMAPV5HEADER_SIZE + width * height * 4,
{
    if let Ok(pixels) = spec_bottom_up_bgra(rgba, width, height) {
        lemma_bottom_up_rows_len(rgba, width as nat, height as nat, height as nat);
        assert(height * (width * 4) == width * height * 4) by (nonlinear_arith);
        assert(dib_header(width, height, pixels.len()).len() == 40);
        assert(dibv5_header(width, height, pixels.len()).len() == 124);
    }
}

/// Four bytes written as `le32(x)` read back as `x`.
pub proof fn lemma_read_le32_of_le32(b: Seq<u8>, at: int, x: u32)
    requires
        0 <= at,
        at + 4 <= b.len(),
        b[at] == le32(x)[0],
        b[at + 1] == le32(x)[1],
        b[at + 2] == le32(x)[2],
        b[at + 3] == le32(x)[3],
    ensures
        read_le32(b, at) == x,
{
    assert(x == (x % 256) + 256 * ((x / 256) % 256) + 65536 * ((x / 65536) % 256) + 16777216 * (x
        / 16777216)) by (bit_vector);
    assert(x / 16777216 < 256) by (bit_vector);
}

/// The first three 32-bit fields of a bitmap header followed by its pixels.
proof fn lemma_header_words(a: u32, b: u32, c: u32, rest: Seq<u8>, pixels: Seq<u8>)
    ensures
        ({
            let d = le32(a) + le32(b) + le32(c) + rest + pixels;
            &&& read_le32(d, 0) == a
            &&& read_le32(d, 4) == b
            &&& read_le32(d, 8) == c
        }),
{
    let d = le32(a) + le32(b) + le32(c) + rest + pixels;
    let w = le32(a) + le32(b) + le32(c);
    assert(d =~= w + (rest + pixels));
    assert(w.len() == 12);
    assert forall|k: int| 0 <= k < 4 implies d[k] == le32(a)[k] && d[4 + k] == le32(b)[k] && d[8
        + k] == le32(c)[k] by {
        assert(d[k] == w[k]);
        assert(d[4 + k] == w[4 + k]);
        assert(d[8 + k] == w[8 + k]);
    }
    lemma_read_le32_of_le32(d, 0, a);
    lemma_read_le32_of_le32(d, 4, b);
    lemma_read_le32_of_le32(d, 8, c);
}

/// Law: a DIB says how large its image is. In every bitmap `build_dib` or
/// `build_dibv5` makes, the header's size field (bytes 0..4) holds the header's
/// length, its width field (bytes 4..8) holds `width` and its height field
/// (bytes 8..12) holds `height`, little-endian; a positive height is what
/// marks the rows as bottom-up.
pub proof fn lemma_dib_header_holds_the_size(rgba: Seq<u8>, width: u32, height: u32)
    ensures
        spec_build_dib(rgba, width, height) matches Ok(out) ==> read_le32(out, 4) == width
            && read_le32(out, 8) == height && read_le32(out, 0) == 40,
        spec_build_dibv5(rgba, width, height) matches Ok(out) ==> read_le32(out, 4) == width
            && read_le32(out, 8) == height && read_le32(out, 0) == 124,
{
    if let Ok(pixels) = spec_bottom_up_bgra(rgba, width, height) {
        let n = pixels.len();
        let r1 = u16_le(1) + u16_le(32) + le32(BI_RGB) + le32(n as u32) + zeros(16);
        assert(dib_header(width, height, n) + pixels =~= le32(40) + le32(width) + le32(height) + r1
            + pixels);
        lemma_header_words(40, width, height, r1, pixels);
        let r5 = u16_le(1) + u16_le(32) + le32(BI_BITFIELDS) + le32(n as u32) + zeros(16) + le32(
            0x00FF_0000,
        ) + le32(0x0000_FF00) + le32(0x0000_00FF) + le32(0xFF00_0000) + le32(LCS_SRGB) + zeros(36)
            + zeros(12) + le32(LCS_GM_IMAGES) + zeros(12);
        assert(dibv5_header(width, height, n) + pixels =~= le32(124) + le32(width) + le32(height)
            + r5 + pixels);
        lemma_header_words(124, width, height, r5, pixels);
    }
}

/// The RGBA channel a BGRA channel comes from: red and blue trade places.
pub open spec fn swapped_channel(ch: int) -> int {
    if ch == 0 {
        2
    } else if ch == 2 {
        0
    } else {
        ch
    }
}

proof fn lemma_bgra_row_index(rgba: Seq<u8>, s: int, n: nat, p: int, ch: int)
    requires
        0 <= p < n,
        0 <= ch < 4,
    ensures
        bgra_row(rgba, s, n)[4 * p + ch] == rgba[s + 4 * p + swapped_channel(ch)],
    decreases n,
{
    let m = (n - 1) as nat;
    lemma_bgra_row_len(rgba, s, m);
    if p < m {
        lemma_bgra_row_index(rgba, s, m, p, ch);
    }
}

proof fn lemma_bottom_up_index(rgba: Seq<u8>, w: nat, h: nat, n: nat, r: int, j: int)
    requires
        0 <= r < n,
        n <= h,
        0 <= j < w * 4,
    ensures
        bottom_up_rows(rgba, w, h, n)[r * (w * 4) + j] == bgra_row(rgba, (h - 1 - r) * (w * 4), w)[j],
    decreases n,
{
    let m = (n - 1) as nat;
    lemma_bottom_up_rows_len(rgba, w, h, m);
    lemma_bgra_row_len(rgba, (h - n) * (w * 4), w);
    if r < m {
        assert(r * (w * 4) + j < m * (w * 4)) by (nonlinear_arith)
            requires
                0 <= r < m,
                0 <= j < w * 4,
        ;
        assert(r * (w * 4) + j >= 0) by (nonlinear_arith)
            requires
                0 <= r,
                0 <= j,
        ;
        lemma_bottom_up_index(rgba, w, h, m, r, j);
    }
}

/// Law: the DIB pixel conversion undoes itself. Flipping the rows of a
/// `width` x `height` image and swapping red and blue, then doing both again,
/// gives back the pixels it started from.
pub proof fn lemma_bottom_up_bgra_is_an_involution(rgba: Seq<u8>, width: u32, height: u32)
    requires
        width > 0,
        height > 0,
        rgba.len() == width * height * 4,
    ensures
        spec_bottom_up_bgra(rgba, width, height) matches Ok(px) && spec_bottom_up_bgra(
            px,
            width,
            height,
        ) == Ok::<Seq<u8>, DibError>(rgba),
{
    let w = width as nat;
    let h = height as nat;
    let ww: int = (w * 4) as int;
    let px = bottom_up_rows(rgba, w, h, h);
    lemma_bottom_up_rows_len(rgba, w, h, h);
    lemma_bottom_up_rows_len(px, w, h, h);
    assert(h * (w * 4) == width * height * 4) by (nonlinear_arith)
        requires
            h == height,
            w == width,
    ;
    let back = bottom_up_rows(px, w, h, h);
    assert forall|k: int| 0 <= k < back.len() implies back[k] == rgba[k] by {
        let r = k / ww;
        let j = k % ww;
        vstd::arithmetic::div_mod::lemma_fundamental_div_mod(k, ww);
        vstd::arithmetic::div_mod::lemma_mod_bound(k, ww);
        assert(0 <= r < h) by (nonlinear_arith)
            requires
                ww > 0,
                0 <= k < h * ww,
                k == ww * r + j,
                0 <= j < ww,
        ;
        assert(k == r * ww + j) by (nonlinear_arith)
            requires
                k == ww * r + j,
        ;
        let p = j / 4;
        let ch = j % 4;
        assert(0 <= p < w && 0 <= ch < 4 && j == 4 * p + ch);
        let r2 = h - 1 - r;
        let j2 = 4 * p + swapped_channel(ch);
        assert(0 <= j2 < ww);
        lemma_bottom_up_index(px, w, h, h, r, j);
        lemma_bgra_row_index(px, r2 * ww, w, p, ch);
        assert(r2 * ww + j2 == r2 * ww + 4 * p + swapped_channel(ch));
        lemma_bottom_up_index(rgba, w, h, h, r2, j2);
        assert(h - 1 - r2 == r);
        lemma_bgra_row_index(rgba, r * ww, w, p, swapped_channel(ch));
        assert(swapped_channel(swapped_channel(ch)) == ch);
    }
    assert(back =~= rgba);
}

} // verus!

verus! {

// ---------------------------------------------------------------------------
// Decimal numbers
// ---------------------------------------------------------------------------

/// The decimal digits of `n`, most significant first, as ASCII bytes.
pub open spec fn decimal_digits(n: nat) -> Seq<u8>
    decreases n,
{
    if n < 10 {
        seq![(48 + n) as u8]
    } else {
        decimal_digits(n / 10).push((48 + n % 10) as u8)
    }
}

/// `n` in decimal, left-padded with `0` to at least `width` digits.
pub open spec fn padded_decimal(n: nat, width: nat) -> Seq<u8> {
    let d = decimal_digits(n);
    if d.len() >= width {
        d
    } else {
        Seq::new((width - d.len()) as nat, |i: int| 48u8) + d
    }
}

fn decimal_len(n: usize) -> (len: usize)
    ensures
        len == decimal_digits(n as nat).len(),
        1 <= len <= 20,
    decreases n,
{
    if n < 10 {
        1
    } else {
        let l = decimal_len(n / 10);
        proof {
            assert(n / 10 < 0x1999_9999_9999_999a);
            lemma_decimal_digits_len_bound((n / 10) as nat);
        }
        l + 1
    }
}

proof fn lemma_decimal_digits_len_bound(n: nat)
    requires
        n < 0x1999_9999_9999_999a,
    ensures
        decimal_digits(n).len() <= 19,
{
    reveal_with_fuel(pow10, 20);
    assert(pow10(19) == 10_000_000_000_000_000_000nat);
    lemma_decimal_digits_len_pow(n, 19);
}

pub(crate) proof fn lemma_decimal_digits_len_pow(n: nat, k: nat)
    requires
        n < pow10(k),
        k >= 1,
    ensures
        decimal_digits(n).len() <= k,
    decreases k,
{
    if n >= 10 {
        assert(k >= 2) by {
            if k == 1 {
                assert(pow10(1) == 10 * pow10(0));
            }
        }
        assert(pow10(k) == 10 * pow10((k - 1) as nat));
        assert(n / 10 < pow10((k - 1) as nat));
        lemma_decimal_digits_len_pow(n / 10, (k - 1) as nat);
    }
}

pub open spec fn pow10(k: nat) -> nat
    decreases k,
{
    if k == 0 {
        1
    } else {
        10 * pow10((k - 1) as nat)
    }
}

pub(crate) fn push_decimal_digits(out: &mut Vec<u8>, n: usize)
    ensures
        final(out)@ == old(out)@ + decimal_digits(n as nat),
    decreases n,
{
    if n >= 10 {
        push_decimal_digits(out, n / 10);
    }
    out.push((48 + n % 10) as u8);
    proof {
        if n < 10 {
            assert(final(out)@ =~= old(out)@ + decimal_digits(n as nat));
        } else {
            assert(final(out)@ =~= old(out)@ + decimal_digits(n as nat));
        }
    }
}

/// Appends `n` in decimal, zero padded to at least `width` digits.
fn push_padded_decimal(out: &mut Vec<u8>, n: usize, width: usize)
    ensures
        final(out)@ == old(out)@ + padded_decimal(n as nat, width as nat),
{
    let len = decimal_len(n);
    let ghost start = out@;
    if len < width {
        let pad = width - len;
        let mut i: usize = 0;
        while i < pad
            invariant
                i <= pad,
                out@ == start + Seq::new(i as nat, |j: int| 48u8),
            decreases pad - i,
        {
            out.push(48u8);
            i = i + 1;
            assert(out@ =~= start + Seq::new(i as nat, |j: int| 48u8));
        }
    }
    let ghost mid = out@;
    push_decimal_digits(out, n);
    assert(final(out)@ =~= old(out)@ + padded_decimal(n as nat, width as nat));
}

// ---------------------------------------------------------------------------
// CF_HTML
// ---------------------------------------------------------------------------

pub const CF_HTML_START_MARKER: &'static str = "<!--StartFragment-->";

pub const CF_HTML_END_MARKER: &'static str = "<!--EndFragment-->";

pub const CF_HTML_BODY_OPEN: &'static str = "<html><body>\r\n";

pub const CF_HTML_BODY_CLOSE: &'static str = "\r\n</body></html>";

/// Header layout. The offsets are zero padded to a fixed 10 digits on purpose:
/// that keeps the header byte length independent of the offset values, so the
/// offsets can be computed in one pass without a second fix-up iteration.
///
/// ```text
/// Version:0.9\r\n
/// StartHTML:0000000105\r\n
/// EndHTML:0000000226\r\n
/// StartFragment:0000000141\r\n
/// EndFragment:0000000200\r\n
/// [SourceURL:<url>\r\n]
/// ```
pub const CF_HTML_HEADER_PREFIX: &'static str = "Version:0.9\r\nStartHTML:";

pub const CF_HTML_END_HTML_KEY: &'static str = "\r\nEndHTML:";

pub const CF_HTML_START_FRAGMENT_KEY: &'static str = "\r\nStartFragment:";

pub const CF_HTML_END_FRAGMENT_KEY: &'static str = "\r\nEndFragment:";

pub const CF_HTML_SOURCE_URL_KEY: &'static str = "SourceURL:";

pub const CRLF: &'static str = "\r\n";

/// Zero padded to a fixed width so the header length cannot change with the
/// values written into it.
pub const CF_HTML_OFFSET_WIDTH: usize = 10;

/// The `CF_HTML` header with the given offsets and optional source URL.
pub open spec fn spec_header_text(
    start_html: nat,
    end_html: nat,
    start_fragment: nat,
    end_fragment: nat,
    source_url: Option<Seq<u8>>,
) -> Seq<u8> {
    CF_HTML_HEADER_PREFIX.spec_bytes() + padded_decimal(start_html, 10)
        + CF_HTML_END_HTML_KEY.spec_bytes() + padded_decimal(end_html, 10)
        + CF_HTML_START_FRAGMENT_KEY.spec_bytes() + padded_decimal(start_fragment, 10)
        + CF_HTML_END_FRAGMENT_KEY.spec_bytes() + padded_decimal(end_fragment, 10)
        + CRLF.spec_bytes() + match source_url {
        Some(url) => CF_HTML_SOURCE_URL_KEY.spec_bytes() + url + CRLF.spec_bytes(),
        None => seq![],
    }
}

/// The offsets a `CF_HTML` payload for a fragment of `fragment_len` bytes
/// carries: `(StartHTML, EndHTML, StartFragment, EndFragment)`.
pub open spec fn cf_html_offsets(fragment_len: nat, source_url: Option<Seq<u8>>) -> (
    nat,
    nat,
    nat,
    nat,
) {
    let start_html = spec_header_text(0, 0, 0, 0, source_url).len();
    let start_fragment = start_html + CF_HTML_BODY_OPEN.spec_bytes().len()
        + CF_HTML_START_MARKER.spec_bytes().len();
    let end_fragment = start_fragment + fragment_len;
    let end_html = end_fragment + CF_HTML_END_MARKER.spec_bytes().len()
        + CF_HTML_BODY_CLOSE.spec_bytes().len();
    (start_html, end_html, start_fragment, end_fragment)
}

/// The `CF_HTML` payload wrapping `fragment`: a header whose offsets locate the
/// document and the fragment, then the document itself.
pub open spec fn spec_build_cf_html(fragment: Seq<u8>, source_url: Option<Seq<u8>>) -> Seq<u8> {
    let (start_html, end_html, start_fragment, end_fragment) = cf_html_offsets(
        fragment.len(),
        source_url,
    );
    spec_header_text(start_html, end_html, start_fragment, end_fragment, source_url)
        + CF_HTML_BODY_OPEN.spec_bytes() + CF_HTML_START_MARKER.spec_bytes() + fragment
        + CF_HTML_END_MARKER.spec_bytes() + CF_HTML_BODY_CLOSE.spec_bytes()
}

pub open spec fn opt_str_bytes(s: Option<&str>) -> Option<Seq<u8>> {
    match s {
        Some(u) => Some(u.spec_bytes()),
        None => None,
    }
}

fn header_text(
    start_html: usize,
    end_html: usize,
    start_fragment: usize,
    end_fragment: usize,
    source_url: Option<&str>,
) -> (header: Vec<u8>)
    ensures
        header@ == spec_header_text(
            start_html as nat,
            end_html as nat,
            start_fragment as nat,
            end_fragment as nat,
            opt_str_bytes(source_url),
        ),
{
    let mut header: Vec<u8> = Vec::new();
    extend_bytes(&mut header, CF_HTML_HEADER_PREFIX.as_bytes());
    push_padded_decimal(&mut header, start_html, CF_HTML_OFFSET_WIDTH);
    extend_bytes(&mut header, CF_HTML_END_HTML_KEY.as_bytes());
    push_padded_decimal(&mut header, end_html, CF_HTML_OFFSET_WIDTH);
    extend_bytes(&mut header, CF_HTML_START_FRAGMENT_KEY.as_bytes());
    push_padded_decimal(&mut header, start_fragment, CF_HTML_OFFSET_WIDTH);
    extend_bytes(&mut header, CF_HTML_END_FRAGMENT_KEY.as_bytes());
    push_padded_decimal(&mut header, end_fragment, CF_HTML_OFFSET_WIDTH);
    extend_bytes(&mut header, CRLF.as_bytes());
    let ghost main = header@;
    match source_url {
        Some(url) => {
            extend_bytes(&mut header, CF_HTML_SOURCE_URL_KEY.as_bytes());
            extend_bytes(&mut header, url.as_bytes());
            extend_bytes(&mut header, CRLF.as_bytes());
            assert(header@ =~= main + (CF_HTML_SOURCE_URL_KEY.spec_bytes() + url.spec_bytes()
                + CRLF.spec_bytes()));
        },
        None => {
            assert(header@ =~= main + Seq::<u8>::empty());
        },
    }
    header
}

proof fn lemma_literal_lengths()
    ensures
        CF_HTML_HEADER_PREFIX.spec_bytes().len() == 23,
        CF_HTML_END_HTML_KEY.spec_bytes().len() == 10,
        CF_HTML_START_FRAGMENT_KEY.spec_bytes().len() == 16,
        CF_HTML_END_FRAGMENT_KEY.spec_bytes().len() == 14,
        CF_HTML_SOURCE_URL_KEY.spec_bytes().len() == 10,
        CRLF.spec_bytes().len() == 2,
        CF_HTML_START_MARKER.spec_bytes().len() == 20,
        CF_HTML_END_MARKER.spec_bytes().len() == 18,
        CF_HTML_BODY_OPEN.spec_bytes().len() == 14,
        CF_HTML_BODY_CLOSE.spec_bytes().len() == 16,
{
    reveal_strlit("Version:0.9\r\nStartHTML:");
    reveal_strlit("\r\nEndHTML:");
    reveal_strlit("\r\nStartFragment:");
    reveal_strlit("\r\nEndFragment:");
    reveal_strlit("SourceURL:");
    reveal_strlit("\r\n");
    reveal_strlit("<!--StartFragment-->");
    reveal_strlit("<!--EndFragment-->");
    reveal_strlit("<html><body>\r\n");
    reveal_strlit("\r\n</body></html>");
    assert(is_ascii(CF_HTML_HEADER_PREFIX));
    assert(is_ascii(CF_HTML_END_HTML_KEY));
    assert(is_ascii(CF_HTML_START_FRAGMENT_KEY));
    assert(is_ascii(CF_HTML_END_FRAGMENT_KEY));
    assert(is_ascii(CF_HTML_SOURCE_URL_KEY));
    assert(is_ascii(CRLF));
    assert(is_ascii(CF_HTML_START_MARKER));
    assert(is_ascii(CF_HTML_END_MARKER));
    assert(is_ascii(CF_HTML_BODY_OPEN));
    assert(is_ascii(CF_HTML_BODY_CLOSE));
}

proof fn lemma_padded_decimal_len(n: nat, width: nat)
    ensures
        padded_decimal(n, width).len() >= width,
        padded_decimal(n, width).len() == if decimal_digits(n).len() >= width {
            decimal_digits(n).len()
        } else {
            width
        },
{
}

/// Builds a `CF_HTML` payload whose offsets point at the wrapped fragment.
///
/// Word, Outlook and browsers read `StartFragment`/`EndFragment` to decide what
/// to paste, so an off-by-one here shows up as garbage or truncated text in the
/// target application.
pub fn build_cf_html(fragment: &str, source_url: Option<&str>) -> (out: Vec<u8>)
    requires
        fragment.spec_bytes().len() + match source_url {
            Some(u) => u.spec_bytes().len(),
            None => 0,
        } <= isize::MAX,
    ensures
        out@ == spec_build_cf_html(fragment.spec_bytes(), opt_str_bytes(source_url)),
        fragment.spec_bytes().len() + crate::html_round_trip::source_url_cost(
            opt_str_bytes(source_url),
        ) < 9_000_000_000 ==> out@.len() == 173 + fragment.spec_bytes().len()
            + crate::html_round_trip::source_url_cost(opt_str_bytes(source_url)),
{
    proof {
        lemma_literal_lengths();
        lemma_padded_decimal_len(0, 10);
        assert(decimal_digits(0).len() == 1);
    }
    // Pass 1: the header with placeholder offsets, purely to learn its length.
    // The values do not matter, only the width.
    let probe = header_text(0, 0, 0, 0, source_url);
    let header_len = probe.len();

    let start_html = header_len;
    let start_fragment = start_html + CF_HTML_BODY_OPEN.len() + CF_HTML_START_MARKER.len();
    let end_fragment = start_fragment + fragment.len();
    let end_html = end_fragment + CF_HTML_END_MARKER.len() + CF_HTML_BODY_CLOSE.len();

    // Pass 2: same widths, real values.
    let mut out = header_text(start_html, end_html, start_fragment, end_fragment, source_url);
    extend_bytes(&mut out, CF_HTML_BODY_OPEN.as_bytes());
    extend_bytes(&mut out, CF_HTML_START_MARKER.as_bytes());
    extend_bytes(&mut out, fragment.as_bytes());
    extend_bytes(&mut out, CF_HTML_END_MARKER.as_bytes());
    extend_bytes(&mut out, CF_HTML_BODY_CLOSE.as_bytes());
    proof {
        let f = fragment.spec_bytes();
        let u = opt_str_bytes(source_url);
        if f.len() + crate::html_round_trip::source_url_cost(u) < 9_000_000_000 {
            crate::html_round_trip::lemma_cf_html_len(f, u);
        }
    }
    out
}

} // verus!

verus! {

// ---------------------------------------------------------------------------
// Byte searching
// ---------------------------------------------------------------------------

/// The first position at or after `i` where `needle` occurs in `haystack`.
pub open spec fn find_from(haystack: Seq<u8>, needle: Seq<u8>, i: int) -> Option<nat>
    decreases haystack.len() + 1 - i,
{
    if i < 0 || i + needle.len() > haystack.len() {
        None
    } else if haystack.subrange(i, i + needle.len()) == needle {
        Some(i as nat)
    } else {
        find_from(haystack, needle, i + 1)
    }
}

/// The first position where a non-empty `needle` occurs in `haystack`.
pub open spec fn spec_find_subslice(haystack: Seq<u8>, needle: Seq<u8>) -> Option<nat> {
    if needle.len() == 0 {
        None
    } else {
        find_from(haystack, needle, 0)
    }
}

pub proof fn lemma_find_from_found(haystack: Seq<u8>, needle: Seq<u8>, i: int)
    ensures
        find_from(haystack, needle, i) matches Some(p) ==> i <= p && p + needle.len()
            <= haystack.len() && haystack.subrange(p as int, (p + needle.len()) as int) == needle,
    decreases haystack.len() + 1 - i,
{
    if i < 0 || i + needle.len() > haystack.len() {
    } else if haystack.subrange(i, i + needle.len()) == needle {
    } else {
        assert(haystack.len() + 1 - (i + 1) < haystack.len() + 1 - i);
        assert(haystack.len() + 1 - (i + 1) >= 0);
        lemma_find_from_found(haystack, needle, i + 1);
    }
}

fn occurs_at(haystack: &[u8], needle: &[u8], i: usize) -> (b: bool)
    requires
        i + needle@.len() <= haystack@.len(),
    ensures
        b == (haystack@.subrange(i as int, i + needle@.len()) == needle@),
{
    let hlen = haystack.len();
    let mut j: usize = 0;
    while j < needle.len()
        invariant
            hlen == haystack@.len(),
            i + needle@.len() <= haystack@.len(),
            j <= needle@.len(),
            forall|k: int| 0 <= k < j ==> haystack@[i + k] == needle@[k],
        decreases needle.len() - j,
    {
        if haystack[i + j] != needle[j] {
            assert(haystack@.subrange(i as int, i + needle@.len())[j as int] != needle@[j as int]);
            return false;
        }
        j = j + 1;
    }
    assert(haystack@.subrange(i as int, i + needle@.len()) =~= needle@);
    true
}

/// Where `needle` first occurs in `haystack`. An empty needle is never found.
pub fn find_subslice(haystack: &[u8], needle: &[u8]) -> (res: Option<usize>)
    ensures
        res is Some <==> spec_find_subslice(haystack@, needle@) is Some,
        res matches Some(p) ==> spec_find_subslice(haystack@, needle@) == Some(p as nat),
{
    if needle.len() == 0 || haystack.len() < needle.len() {
        return None;
    }
    let last = haystack.len() - needle.len();
    let mut i: usize = 0;
    while i <= last
        invariant
            last + needle@.len() == haystack@.len(),
            needle@.len() > 0,
            find_from(haystack@, needle@, 0) == find_from(haystack@, needle@, i as int),
        decreases haystack.len() - i,
    {
        if occurs_at(haystack, needle, i) {
            return Some(i);
        }
        i = i + 1;
    }
    None
}

// ---------------------------------------------------------------------------
// CF_HTML header parsing
// ---------------------------------------------------------------------------

pub open spec fn is_ascii_alpha(b: u8) -> bool {
    (65 <= b <= 90) || (97 <= b <= 122)
}

pub open spec fn is_ascii_digit(b: u8) -> bool {
    48 <= b <= 57
}

/// How many ASCII letters `line` starts with.
pub open spec fn alpha_run(line: Seq<u8>) -> nat
    decreases line.len(),
{
    if line.len() > 0 && is_ascii_alpha(line[0]) {
        1 + alpha_run(line.skip(1))
    } else {
        0
    }
}

/// How many ASCII digits `s` starts with.
pub open spec fn digit_run(s: Seq<u8>) -> nat
    decreases s.len(),
{
    if s.len() > 0 && is_ascii_digit(s[0]) {
        1 + digit_run(s.skip(1))
    } else {
        0
    }
}

/// A header line looks like `Key:value` with a non-empty alphabetic key: it
/// starts with one or more letters, and the first byte after them is `:`.
pub open spec fn spec_is_header_line(line: Seq<u8>) -> bool {
    let k = alpha_run(line);
    0 < k < line.len() && line[k as int] == 58
}

proof fn lemma_alpha_run_step(line: Seq<u8>, i: int)
    requires
        0 <= i < line.len(),
        is_ascii_alpha(line[i]),
    ensures
        alpha_run(line.skip(i)) == 1 + alpha_run(line.skip(i + 1)),
{
    assert(line.skip(i).skip(1) =~= line.skip(i + 1));
}

proof fn lemma_digit_run_step(s: Seq<u8>, i: int)
    requires
        0 <= i < s.len(),
        is_ascii_digit(s[i]),
    ensures
        digit_run(s.skip(i)) == 1 + digit_run(s.skip(i + 1)),
{
    assert(s.skip(i).skip(1) =~= s.skip(i + 1));
}

/// A header line looks like `Key:value` with an alphabetic key.
pub fn is_header_line(line: &[u8]) -> (b: bool)
    ensures
        b == spec_is_header_line(line@),
{
    let mut i: usize = 0;
    assert(line@.skip(0) =~= line@);
    while i < line.len() && ((65 <= line[i] && line[i] <= 90) || (97 <= line[i] && line[i] <= 122))
        invariant
            i <= line@.len(),
            alpha_run(line@) == i + alpha_run(line@.skip(i as int)),
        decreases line.len() - i,
    {
        proof {
            lemma_alpha_run_step(line@, i as int);
        }
        i = i + 1;
    }
    i > 0 && i < line.len() && line[i] == 58
}

/// The header scan: from `pos`, every line that is a header line is skipped;
/// the offset of the first line that is not one is where the document begins.
pub open spec fn header_scan(data: Seq<u8>, pos: int) -> Option<nat>
    decreases data.len() - pos,
{
    if pos < 0 || pos >= data.len() {
        None
    } else {
        let rest = data.skip(pos);
        match spec_find_subslice(rest, seq![13u8, 10u8]) {
            Some(off) => {
                if !spec_is_header_line(rest.take(off as int)) {
                    Some(pos as nat)
                } else {
                    proof {
                        lemma_find_from_found(rest, seq![13u8, 10u8], 0);
                    }
                    header_scan(data, pos + off + 2)
                }
            },
            None => {
                if !spec_is_header_line(rest) {
                    Some(pos as nat)
                } else {
                    None
                }
            },
        }
    }
}

pub open spec fn starts_with_bom(data: Seq<u8>) -> bool {
    data.len() >= 3 && data[0] == 0xEF && data[1] == 0xBB && data[2] == 0xBF
}

/// Byte offset where the `CF_HTML` header ends and the HTML document begins.
/// The offset is absolute, so it counts a leading UTF-8 BOM.
pub open spec fn spec_cf_html_header_len(data: Seq<u8>) -> Option<nat> {
    header_scan(data, if starts_with_bom(data) { 3 } else { 0 })
}

proof fn lemma_header_scan_bound(data: Seq<u8>, pos: int)
    ensures
        header_scan(data, pos) matches Some(h) ==> pos <= h < data.len(),
    decreases data.len() - pos,
{
    if pos < 0 || pos >= data.len() {
    } else {
        let rest = data.skip(pos);
        lemma_find_from_found(rest, seq![13u8, 10u8], 0);
        match spec_find_subslice(rest, seq![13u8, 10u8]) {
            Some(off) => {
                if spec_is_header_line(rest.take(off as int)) {
                    lemma_header_scan_bound(data, pos + off + 2);
                }
            },
            None => {},
        }
    }
}

/// Byte offset where the header ends and the HTML document begins.
///
/// The offset is absolute, so it counts a leading BOM. The final line is allowed
/// to be unterminated: an HTML document is not required to contain a CRLF, and
/// demanding one here would reject otherwise valid payloads.
pub fn cf_html_header_len(data: &[u8]) -> (res: Option<usize>)
    ensures
        res is Some <==> spec_cf_html_header_len(data@) is Some,
        res matches Some(h) ==> spec_cf_html_header_len(data@) == Some(h as nat) && h < data@.len(),
{
    let mut position: usize = if data.len() >= 3 && data[0] == 0xEF && data[1] == 0xBB
        && data[2] == 0xBF {
        3
    } else {
        0
    };
    let ghost first = position as int;
    proof {
        lemma_header_scan_bound(data@, first);
    }
    let crlf = CRLF.as_bytes();
    proof {
        reveal_strlit("\r\n");
        assert(is_ascii(CRLF));
        assert(crlf@ =~= seq![13u8, 10u8]);
    }
    while position < data.len()
        invariant
            position <= data@.len(),
            crlf@ == seq![13u8, 10u8],
            spec_cf_html_header_len(data@) == header_scan(data@, first),
            header_scan(data@, first) == header_scan(data@, position as int),
        decreases data.len() - position,
    {
        let rest = &data[position..data.len()];
        assert(rest@ =~= data@.skip(position as int));
        match find_subslice(rest, crlf) {
            Some(offset) => {
                proof {
                    lemma_find_from_found(rest@, crlf@, 0);
                }
                let line = &rest[0..offset];
                assert(line@ =~= rest@.take(offset as int));
                if !is_header_line(line) {
                    assert(header_scan(data@, position as int) == Some(position as nat));
                    return Some(position);
                }
                position = position + offset + 2;
            },
            None => {
                if !is_header_line(rest) {
                    assert(header_scan(data@, position as int) == Some(position as nat));
                    return Some(position);
                }
                assert(header_scan(data@, position as int) is None);
                return None;
            },
        }
    }
    None
}

/// The value of a run of ASCII digits.
pub open spec fn decimal_value(d: Seq<u8>) -> nat
    decreases d.len(),
{
    if d.len() == 0 {
        0
    } else {
        decimal_value(d.drop_last()) * 10 + (d.last() - 48) as nat
    }
}

/// The decimal number that follows the first occurrence of `key` in `header`,
/// if there is one that fits a `usize`.
pub open spec fn spec_find_offset(header: Seq<u8>, key: Seq<u8>) -> Option<usize> {
    match spec_find_subslice(header, key) {
        None => None,
        Some(p) => {
            let rest = header.skip((p + key.len()) as int);
            let n = digit_run(rest);
            let v = decimal_value(rest.take(n as int));
            if n == 0 || v > usize::MAX {
                None
            } else {
                Some(v as usize)
            }
        },
    }
}

/// Reads the decimal value following `key` in the header.
pub fn find_offset(header: &[u8], key: &[u8]) -> (res: Option<usize>)
    ensures
        res == spec_find_offset(header@, key@),
{
    let p = match find_subslice(header, key) {
        Some(p) => p,
        None => return None,
    };
    proof {
        lemma_find_from_found(header@, key@, 0);
    }
    let hlen = header.len();
    let position = p + key.len();
    let ghost rest = header@.skip(position as int);
    let mut i: usize = position;
    let mut value: usize = 0;
    let mut overflow = false;
    assert(rest.skip(0) =~= rest);
    assert(rest.take(0) =~= Seq::<u8>::empty());
    while i < header.len() && 48 <= header[i] && header[i] <= 57
        invariant
            position <= i <= header@.len(),
            rest == header@.skip(position as int),
            digit_run(rest) == (i - position) + digit_run(rest.skip(i - position)),
            forall|k: int| 0 <= k < i - position ==> is_ascii_digit(#[trigger] rest[k]),
            !overflow ==> value == decimal_value(rest.take(i - position)),
            overflow ==> decimal_value(rest.take(i - position)) > usize::MAX,
        decreases header.len() - i,
    {
        let ghost k = i - position;
        proof {
            lemma_digit_run_step(rest, k);
            assert(rest.take(k + 1).drop_last() =~= rest.take(k));
            assert(rest.take(k + 1).last() == header@[i as int]);
        }
        let digit = (header[i] - 48) as usize;
        if !overflow {
            if value > (usize::MAX - digit) / 10 {
                overflow = true;
                assert(value * 10 + digit > usize::MAX) by (nonlinear_arith)
                    requires
                        value > (usize::MAX - digit) / 10,
                        digit <= 9,
                ;
            } else {
                assert(value * 10 + digit <= usize::MAX) by (nonlinear_arith)
                    requires
                        value <= (usize::MAX - digit) / 10,
                        digit <= 9,
                ;
                value = value * 10 + digit;
            }
        }
        i = i + 1;
    }
    let ghost n = i - position;
    proof {
        if n < rest.len() {
            assert(rest[n] == header@[i as int]);
            assert(!is_ascii_digit(rest[n]));
        }
        assert(digit_run(rest.skip(n)) == 0);
    }
    if i == position || overflow {
        None
    } else {
        Some(value)
    }
}

// ---------------------------------------------------------------------------
// Trimming
// ---------------------------------------------------------------------------

/// The Unicode `White_Space` characters, which is what `char::is_whitespace`
/// and `str::trim` go by.
pub open spec fn is_whitespace(c: char) -> bool {
    let v = c as u32;
    (0x9 <= v <= 0xD) || v == 0x20 || v == 0x85 || v == 0xA0 || v == 0x1680 || (0x2000 <= v
        <= 0x200A) || v == 0x2028 || v == 0x2029 || v == 0x202F || v == 0x205F || v == 0x3000
}

pub(crate) fn is_whitespace_char(c: char) -> (b: bool)
    ensures
        b == is_whitespace(c),
{
    let v = c as u32;
    (0x9 <= v && v <= 0xD) || v == 0x20 || v == 0x85 || v == 0xA0 || v == 0x1680 || (0x2000 <= v
        && v <= 0x200A) || v == 0x2028 || v == 0x2029 || v == 0x202F || v == 0x205F || v == 0x3000
}

pub open spec fn trim_start(s: Seq<char>) -> Seq<char>
    decreases s.len(),
{
    if s.len() > 0 && is_whitespace(s[0]) {
        trim_start(s.skip(1))
    } else {
        s
    }
}

pub open spec fn trim_end(s: Seq<char>) -> Seq<char>
    decreases s.len(),
{
    if s.len() > 0 && is_whitespace(s.last()) {
        trim_end(s.drop_last())
    } else {
        s
    }
}

/// `str::trim`: leading and trailing whitespace removed.
pub open spec fn trim(s: Seq<char>) -> Seq<char> {
    trim_end(trim_start(s))
}

/// `str::trim_start_matches`: every leading copy of a non-empty `p` removed.
pub open spec fn strip_prefixes(s: Seq<char>, p: Seq<char>) -> Seq<char>
    decreases s.len(),
{
    if p.len() > 0 && p.len() <= s.len() && s.take(p.len() as int) == p {
        strip_prefixes(s.skip(p.len() as int), p)
    } else {
        s
    }
}

/// `str::trim_end_matches`: every trailing copy of a non-empty `p` removed.
pub open spec fn strip_suffixes(s: Seq<char>, p: Seq<char>) -> Seq<char>
    decreases s.len(),
{
    if p.len() > 0 && p.len() <= s.len() && s.skip(s.len() - p.len()) == p {
        strip_suffixes(s.take(s.len() - p.len()), p)
    } else {
        s
    }
}

/// A whole HTML document trimmed, with the fragment markers taken off its ends.
pub open spec fn strip_fragment_markers(html: Seq<char>) -> Seq<char> {
    strip_suffixes(strip_prefixes(trim(html), CF_HTML_START_MARKER@), CF_HTML_END_MARKER@)
}

pub(crate) fn chars_of(s: &str) -> (v: Vec<char>)
    ensures
        v@ == s@,
{
    let mut v: Vec<char> = Vec::new();
    for c in it: s.chars()
        invariant
            it.seq() == s@,
            v@ == it.seq().take(it.index() as int),
    {
        let ghost i = it.index() as int;
        v.push(c);
        assert(v@ =~= s@.take(i + 1));
    }
    assert(s@.take(s@.len() as int) =~= s@);
    v
}

pub(crate) fn string_from_chars(cs: &Vec<char>, a: usize, b: usize) -> (s: String)
    requires
        a <= b <= cs@.len(),
    ensures
        s@ == cs@.subrange(a as int, b as int),
{
    let mut s = String::new();
    let mut i = a;
    while i < b
        invariant
            a <= i <= b <= cs@.len(),
            s@ == cs@.subrange(a as int, i as int),
        decreases b - i,
    {
        string_push(&mut s, cs[i]);
        i = i + 1;
        assert(s@ =~= cs@.subrange(a as int, i as int));
    }
    s
}

fn chars_match_at(cs: &Vec<char>, at: usize, p: &Vec<char>) -> (b: bool)
    requires
        at + p@.len() <= cs@.len(),
    ensures
        b == (cs@.subrange(at as int, at + p@.len()) == p@),
{
    let clen = cs.len();
    let mut j: usize = 0;
    while j < p.len()
        invariant
            clen == cs@.len(),
            at + p@.len() <= cs@.len(),
            j <= p@.len(),
            forall|k: int| 0 <= k < j ==> cs@[at + k] == p@[k],
        decreases p.len() - j,
    {
        if cs[at + j] != p[j] {
            assert(cs@.subrange(at as int, at + p@.len())[j as int] != p@[j as int]);
            return false;
        }
        j = j + 1;
    }
    assert(cs@.subrange(at as int, at + p@.len()) =~= p@);
    true
}

/// `str::trim`: the text without leading and trailing whitespace.
pub fn trim_text(text: &str) -> (trimmed: String)
    ensures
        trimmed@ == trim(text@),
{
    let cs = chars_of(text);
    let n = cs.len();
    let mut a: usize = 0;
    assert(cs@.skip(0) =~= cs@);
    while a < n && is_whitespace_char(cs[a])
        invariant
            a <= n == cs@.len(),
            trim_start(cs@) == trim_start(cs@.skip(a as int)),
        decreases n - a,
    {
        assert(cs@.skip(a as int).skip(1) =~= cs@.skip(a + 1));
        a = a + 1;
    }
    assert(trim_start(cs@) == cs@.subrange(a as int, n as int)) by {
        assert(cs@.skip(a as int) =~= cs@.subrange(a as int, n as int));
    }
    let mut b: usize = n;
    while b > a && is_whitespace_char(cs[b - 1])
        invariant
            a <= b <= n == cs@.len(),
            trim(cs@) == trim_end(cs@.subrange(a as int, b as int)),
        decreases b - a,
    {
        assert(cs@.subrange(a as int, b as int).drop_last() =~= cs@.subrange(a as int, b - 1));
        b = b - 1;
    }
    string_from_chars(&cs, a, b)
}

/// Trims a whole HTML document and takes the fragment markers off its ends.
fn strip_fragment_markers_exec(html: &str) -> (s: String)
    ensures
        s@ == strip_fragment_markers(html@),
{
    let cs = chars_of(html);
    let n = cs.len();
    let mut a: usize = 0;
    assert(cs@.skip(0) =~= cs@);
    while a < n && is_whitespace_char(cs[a])
        invariant
            a <= n == cs@.len(),
            trim_start(cs@) == trim_start(cs@.skip(a as int)),
        decreases n - a,
    {
        assert(cs@.skip(a as int).skip(1) =~= cs@.skip(a + 1));
        a = a + 1;
    }
    assert(trim_start(cs@) == cs@.subrange(a as int, n as int)) by {
        assert(cs@.skip(a as int) =~= cs@.subrange(a as int, n as int));
    }
    let mut b: usize = n;
    while b > a && is_whitespace_char(cs[b - 1])
        invariant
            a <= b <= n == cs@.len(),
            trim(cs@) == trim_end(cs@.subrange(a as int, b as int)),
        decreases b - a,
    {
        assert(cs@.subrange(a as int, b as int).drop_last() =~= cs@.subrange(a as int, b - 1));
        b = b - 1;
    }
    assert(trim(cs@) == cs@.subrange(a as int, b as int));

    let start_marker = chars_of(CF_HTML_START_MARKER);
    let m = start_marker.len();
    while m > 0 && b - a >= m && chars_match_at(&cs, a, &start_marker)
        invariant
            a <= b <= n == cs@.len(),
            m == start_marker@.len(),
            start_marker@ == CF_HTML_START_MARKER@,
            strip_prefixes(trim(cs@), CF_HTML_START_MARKER@) == strip_prefixes(
                cs@.subrange(a as int, b as int),
                CF_HTML_START_MARKER@,
            ),
        decreases b - a,
    {
        assert(cs@.subrange(a as int, b as int).take(m as int) =~= cs@.subrange(
            a as int,
            a + m,
        ));
        assert(cs@.subrange(a as int, b as int).skip(m as int) =~= cs@.subrange(
            a + m,
            b as int,
        ));
        a = a + m;
    }
    proof {
        if m > 0 && b - a >= m {
            assert(cs@.subrange(a as int, b as int).take(m as int) =~= cs@.subrange(
                a as int,
                a + m,
            ));
        }
    }
    assert(strip_prefixes(trim(cs@), CF_HTML_START_MARKER@) == cs@.subrange(a as int, b as int));

    let end_marker = chars_of(CF_HTML_END_MARKER);
    let e = end_marker.len();
    while e > 0 && b - a >= e && chars_match_at(&cs, b - e, &end_marker)
        invariant
            a <= b <= n == cs@.len(),
            e == end_marker@.len(),
            end_marker@ == CF_HTML_END_MARKER@,
            strip_fragment_markers(html@) == strip_suffixes(
                cs@.subrange(a as int, b as int),
                CF_HTML_END_MARKER@,
            ),
        decreases b - a,
    {
        let ghost w = cs@.subrange(a as int, b as int);
        assert(w.skip(w.len() - e) =~= cs@.subrange(b - e, b as int));
        assert(w.take(w.len() - e) =~= cs@.subrange(a as int, b - e));
        b = b - e;
    }
    proof {
        let w = cs@.subrange(a as int, b as int);
        if e > 0 && b - a >= e {
            assert(w.skip(w.len() - e) =~= cs@.subrange(b - e, b as int));
        }
    }
    string_from_chars(&cs, a, b)
}

/// `std::str::from_utf8`: the bytes as text when they are valid UTF-8.
#[verifier::external_body]
fn str_from_utf8(bytes: &[u8]) -> (s: Option<&str>)
    ensures
        s is Some <==> valid_utf8(bytes@),
        s matches Some(t) ==> t@ == decode_utf8(bytes@),
{
    std::str::from_utf8(bytes).ok()
}

pub const CF_HTML_START_HTML_FIELD: &'static str = "StartHTML:";

pub const CF_HTML_END_HTML_FIELD: &'static str = "EndHTML:";

pub const CF_HTML_START_FRAGMENT_FIELD: &'static str = "StartFragment:";

pub const CF_HTML_END_FRAGMENT_FIELD: &'static str = "EndFragment:";

/// The fragment named by the `StartFragment`/`EndFragment` range of a header,
/// when that range is non-empty, inside the payload, and valid UTF-8.
pub open spec fn spec_cf_html_fragment(data: Seq<u8>, header: Seq<u8>) -> Option<Seq<char>> {
    match (
        spec_find_offset(header, CF_HTML_START_FRAGMENT_FIELD.spec_bytes()),
        spec_find_offset(header, CF_HTML_END_FRAGMENT_FIELD.spec_bytes()),
    ) {
        (Some(start), Some(end)) => {
            if start < end && end <= data.len() && valid_utf8(data.subrange(start as int, end as int)) {
                Some(decode_utf8(data.subrange(start as int, end as int)))
            } else {
                None
            }
        },
        _ => None,
    }
}

/// The end of the whole-document range: `EndHTML` clamped into
/// `[StartHTML, data.len()]`, or the end of the data when there is no `EndHTML`.
pub open spec fn cf_html_document_end(data: Seq<u8>, header: Seq<u8>, start: nat) -> nat {
    match spec_find_offset(header, CF_HTML_END_HTML_FIELD.spec_bytes()) {
        Some(e) => if e < start {
            start
        } else if e > data.len() {
            data.len()
        } else {
            e as nat
        },
        None => data.len(),
    }
}

/// What `parse_cf_html` makes of a payload: the fragment when the header gives
/// a usable fragment range, otherwise the whole document, trimmed and with the
/// fragment markers stripped off its ends. A document said to start past the
/// end of the data gives nothing.
pub open spec fn spec_parse_cf_html(data: Seq<u8>) -> Option<Seq<char>> {
    match spec_cf_html_header_len(data) {
        None => None,
        Some(h) => {
            let header = data.take(h as int);
            match spec_cf_html_fragment(data, header) {
                Some(f) => Some(f),
                None => match spec_find_offset(header, CF_HTML_START_HTML_FIELD.spec_bytes()) {
                    None => None,
                    Some(start) => if start > data.len() {
                        None
                    } else {
                        let end = cf_html_document_end(data, header, start as nat);
                        let html = data.subrange(start as int, end as int);
                        if valid_utf8(html) {
                            Some(strip_fragment_markers(decode_utf8(html)))
                        } else {
                            None
                        }
                    },
                },
            }
        },
    }
}

/// Extracts the fragment from a `CF_HTML` payload produced by another app.
///
/// Other implementations are not guaranteed to emit a fragment range, so this
/// falls back to the whole document and strips the markers if present. The
/// offsets are absolute byte positions from the start of the payload, so a
/// leading UTF-8 BOM is not stripped: the producer counted it.
pub fn parse_cf_html(data: &[u8]) -> (res: Option<String>)
    ensures
        res matches Some(s) ==> spec_parse_cf_html(data@) == Some(s@),
        res is None ==> spec_parse_cf_html(data@) is None,
{
    let header_len = match cf_html_header_len(data) {
        Some(h) => h,
        None => return None,
    };
    let header = &data[0..header_len];
    assert(header@ =~= data@.take(header_len as int));

    let start_fragment = find_offset(header, CF_HTML_START_FRAGMENT_FIELD.as_bytes());
    let end_fragment = find_offset(header, CF_HTML_END_FRAGMENT_FIELD.as_bytes());
    match (start_fragment, end_fragment) {
        (Some(start), Some(end)) => {
            if start < end && end <= data.len() {
                let range = &data[start..end];
                assert(range@ =~= data@.subrange(start as int, end as int));
                match str_from_utf8(range) {
                    Some(fragment) => {
                        return Some(fragment.to_owned());
                    },
                    None => {},
                }
            }
        },
        _ => {},
    }

    // Fallback: take the whole HTML document and strip the fragment markers.
    let start = match find_offset(header, CF_HTML_START_HTML_FIELD.as_bytes()) {
        Some(s) => s,
        None => return None,
    };
    if start > data.len() {
        return None;
    }
    let end = match find_offset(header, CF_HTML_END_HTML_FIELD.as_bytes()) {
        Some(e) => e,
        None => data.len(),
    };
    let end = if end < start {
        start
    } else if end > data.len() {
        data.len()
    } else {
        end
    };
    let range = &data[start..end];
    assert(range@ =~= data@.subrange(start as int, end as int));
    match str_from_utf8(range) {
        Some(html) => Some(strip_fragment_markers_exec(html)),
        None => None,
    }
}

} // verus!

verus! {

// ---------------------------------------------------------------------------
// File list labels
// ---------------------------------------------------------------------------

/// `\` or `/`, the two separators a Windows path may use.
pub open spec fn is_path_separator(b: u8) -> bool {
    b == 92 || b == 47
}

/// The bytes with every trailing separator removed.
pub open spec fn trim_trailing_separators(b: Seq<u8>) -> Seq<u8>
    decreases b.len(),
{
    if b.len() > 0 && is_path_separator(b.last()) {
        trim_trailing_separators(b.drop_last())
    } else {
        b
    }
}

/// The bytes after the last separator, or all of them when there is none.
pub open spec fn last_component(b: Seq<u8>) -> Seq<u8>
    decreases b.len(),
{
    if b.len() == 0 {
        b
    } else if is_path_separator(b.last()) {
        Seq::empty()
    } else {
        last_component(b.drop_last()).push(b.last())
    }
}

/// The final component of a path, in bytes: trailing separators are dropped
/// first, then everything up to the last remaining separator.
pub open spec fn spec_file_name_of(path: Seq<u8>) -> Seq<u8> {
    last_component(trim_trailing_separators(path))
}

/// The final component of a path, as characters.
pub open spec fn file_name_chars(path: Seq<char>) -> Seq<char> {
    decode_utf8(spec_file_name_of(encode_utf8(path)))
}

proof fn lemma_trim_trailing_prefix(b: Seq<u8>, end: int)
    requires
        0 < end <= b.len(),
        is_path_separator(b[end - 1]),
    ensures
        trim_trailing_separators(b.take(end)) == trim_trailing_separators(b.take(end - 1)),
{
    assert(b.take(end).drop_last() =~= b.take(end - 1));
}

proof fn lemma_last_component_step(b: Seq<u8>, start: int, end: int)
    requires
        0 < start <= end <= b.len(),
        !is_path_separator(b[start - 1]),
        last_component(b.take(end)) == last_component(b.take(start)) + b.subrange(start, end),
    ensures
        last_component(b.take(end)) == last_component(b.take(start - 1)) + b.subrange(
            start - 1,
            end,
        ),
{
    assert(b.take(start).drop_last() =~= b.take(start - 1));
    assert(b.take(start).last() == b[start - 1]);
    assert(last_component(b.take(start - 1)).push(b[start - 1]) + b.subrange(start, end)
        =~= last_component(b.take(start - 1)) + b.subrange(start - 1, end));
}

/// The final component of a path, tolerating both separators and a trailing one.
pub fn file_name_of(path: &str) -> (name: &str)
    ensures
        name.spec_bytes() == spec_file_name_of(path.spec_bytes()),
{
    let bytes = path.as_bytes();
    let ghost b = path.spec_bytes();
    let n = bytes.len();
    proof {
        encode_utf8_valid_utf8(path@);
        assert(b.take(n as int) =~= b);
    }
    let mut end: usize = n;
    while end > 0 && (bytes[end - 1] == 92 || bytes[end - 1] == 47)
        invariant
            end <= n == b.len(),
            bytes@ == b,
            trim_trailing_separators(b) == trim_trailing_separators(b.take(end as int)),
            forall|k: int| end <= k < n ==> is_path_separator(#[trigger] b[k]),
        decreases end,
    {
        proof {
            lemma_trim_trailing_prefix(b, end as int);
        }
        end = end - 1;
    }
    let ghost trimmed = b.take(end as int);
    assert(trim_trailing_separators(b) == trimmed) by {
        if end > 0 {
            assert(trimmed.last() == b[end - 1]);
        }
    }
    let mut start: usize = end;
    assert(b.subrange(end as int, end as int) =~= Seq::<u8>::empty());
    assert(trimmed + Seq::<u8>::empty() =~= trimmed);
    assert(b.take(end as int) =~= trimmed);
    while start > 0 && !(bytes[start - 1] == 92 || bytes[start - 1] == 47)
        invariant
            start <= end <= n == b.len(),
            bytes@ == b,
            trimmed == b.take(end as int),
            last_component(trimmed) == last_component(b.take(start as int)) + b.subrange(
                start as int,
                end as int,
            ),
        decreases start,
    {
        proof {
            lemma_last_component_step(b, start as int, end as int);
        }
        start = start - 1;
    }
    assert(last_component(b.take(start as int)) =~= Seq::<u8>::empty()) by {
        if start > 0 {
            assert(b.take(start as int).last() == b[start - 1]);
        }
    }
    assert(spec_file_name_of(b) =~= b.subrange(start as int, end as int));
    proof {
        is_char_boundary_start_end_of_seq(b);
        if 0 < end < n {
            assert(is_path_separator(b[end as int]));
            is_char_boundary_iff_not_is_continuation_byte(b, end as int);
        }
    }
    let (head, _) = path.split_at(end);
    if start == 0 {
        assert(head.spec_bytes() =~= b.subrange(0, end as int));
        return head;
    }
    let ghost hb = head.spec_bytes();
    proof {
        encode_utf8_valid_utf8(head@);
        assert(hb =~= b.subrange(0, end as int));
        is_char_boundary_iff_not_is_continuation_byte(hb, start - 1);
    }
    let (_, rest) = head.split_at(start - 1);
    let ghost rb = rest.spec_bytes();
    proof {
        encode_utf8_valid_utf8(rest@);
        assert(rb =~= b.subrange(start - 1, end as int));
        assert(rb[0] == b[start - 1]);
        reveal_with_fuel(is_char_boundary, 2);
        assert(is_char_boundary(rb, 1));
    }
    let (_, name) = rest.split_at(1);
    assert(name.spec_bytes() =~= b.subrange(start as int, end as int));
    name
}


/// The decimal digits of `n` as characters.
pub open spec fn decimal_chars(n: nat) -> Seq<char> {
    decimal_digits(n).map_values(|b: u8| b as char)
}

/// The label for a file list: nothing for no files, the file name for one, and
/// the first file name followed by ` +` and how many more for several.
pub open spec fn spec_describe_files(paths: Seq<Seq<char>>) -> Seq<char> {
    if paths.len() == 0 {
        Seq::empty()
    } else if paths.len() == 1 {
        file_name_chars(paths[0])
    } else {
        file_name_chars(paths[0]) + seq![' ', '+'] + decimal_chars((paths.len() - 1) as nat)
    }
}

/// Appends the decimal digits of `n` as characters.
pub(crate) fn push_decimal_chars(s: &mut String, n: usize)
    ensures
        final(s)@ == old(s)@ + decimal_chars(n as nat),
{
    let mut digits: Vec<u8> = Vec::new();
    push_decimal_digits(&mut digits, n);
    assert(digits@ =~= decimal_digits(n as nat));
    let ghost start = s@;
    let mut i: usize = 0;
    while i < digits.len()
        invariant
            i <= digits@.len(),
            digits@ == decimal_digits(n as nat),
            s@ == start + decimal_chars(n as nat).take(i as int),
        decreases digits.len() - i,
    {
        string_push(s, digits[i] as char);
        i = i + 1;
        assert(s@ =~= start + decimal_chars(n as nat).take(i as int));
    }
    assert(decimal_chars(n as nat).take(i as int) =~= decimal_chars(n as nat));
}

/// The characters of the file name of `path`.
fn file_name_string(path: &String) -> (name: String)
    ensures
        name@ == file_name_chars(path@),
{
    let p = path.as_str();
    let name = file_name_of(p);
    proof {
        encode_utf8_decode_utf8(name@);
    }
    name.to_owned()
}

/// A short, human readable label for a file list, used as the clip preview.
pub fn describe_files(paths: &[String]) -> (label: String)
    ensures
        label@ == spec_describe_files(string_views(paths@)),
{
    if paths.len() == 0 {
        return String::new();
    }
    let mut label = file_name_string(&paths[0]);
    if paths.len() == 1 {
        return label;
    }
    let ghost name = label@;
    label.append(" +");
    proof {
        reveal_strlit(" +");
    }
    push_decimal_chars(&mut label, paths.len() - 1);
    assert(label@ =~= name + seq![' ', '+'] + decimal_chars((paths@.len() - 1) as nat));
    label
}

} // verus!
