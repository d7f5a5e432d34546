//! What goes onto the clipboard for a clip, and what is read back from it.
//!
//! The Win32 calls themselves live with the application; this module decides
//! which formats are written, in what order and with what bytes, and what the
//! raw payloads read from the clipboard amount to.

use vstd::prelude::*;
use vstd::string::*;
use vstd::utf8::*;
use crate::unicode::{extend_utf16le, str_eq, string_from_utf16_lossy, utf16_decode, utf16le};
use crate::clipboard_formats::{
    build_cf_html, build_dib, build_dibv5, build_hdrop, decimal_chars, opt_str_bytes,
    push_decimal_chars, spec_build_cf_html, spec_build_dib, spec_build_dibv5, spec_build_hdrop,
    string_views, DibError, parse_cf_html, parse_hdrop,
    spec_parse_cf_html, spec_parse_hdrop,
};
use base64::Engine;
use image::ImageEncoder;

verus! {

// ---------------------------------------------------------------------------
// The payload of one clip
// ---------------------------------------------------------------------------

/// The formats to place on the clipboard for one clip.
///
/// Several are written at once on purpose: the target application picks
/// whichever it understands, so a clip pastes back in the shape it was copied
/// in rather than always degrading to plain text.
#[derive(Debug, Clone)]
pub struct ClipboardPayload {
    pub text: Option<String>,
    pub files: Option<Vec<String>>,
    /// The PNG bytes stored for an image clip.
    pub image_png: Option<Vec<u8>>,
    /// An HTML fragment, re-encoded into a `CF_HTML` payload on the way out.
    pub html: Option<String>,
    /// Raw RTF bytes, written back unchanged.
    pub rtf: Option<Vec<u8>>,
}

impl Default for ClipboardPayload {
    fn default() -> (p: Self)
        ensures
            p.text is None,
            p.files is None,
            p.image_png is None,
            p.html is None,
            p.rtf is None,
    {
        ClipboardPayload { text: None, files: None, image_png: None, html: None, rtf: None }
    }
}

impl ClipboardPayload {
    /// Nothing to write: no text, no file (an empty list counts as none), no
    /// image, no HTML and no RTF.
    pub open spec fn spec_is_empty(&self) -> bool {
        &&& self.text is None
        &&& (self.files matches Some(f) ==> f@.len() == 0)
        &&& self.image_png is None
        &&& self.html is None
        &&& self.rtf is None
    }

    pub fn is_empty(&self) -> (empty: bool)
        ensures
            empty == self.spec_is_empty(),
    {
        let no_files = match &self.files {
            Some(files) => files.len() == 0,
            None => true,
        };
        self.text.is_none() && no_files && self.image_png.is_none() && self.html.is_none()
            && self.rtf.is_none()
    }
}

/// UTF-16LE followed by a terminating NUL, the layout `CF_UNICODETEXT` requires.
pub fn to_utf16_bytes(text: &str) -> (out: Vec<u8>)
    ensures
        out@ == utf16le(text@) + seq![0u8, 0u8],
{
    let mut out: Vec<u8> = Vec::new();
    extend_utf16le(&mut out, text);
    out.push(0);
    out.push(0);
    assert(out@ =~= utf16le(text@) + seq![0u8, 0u8]);
    out
}

// ---------------------------------------------------------------------------
// Paste keystrokes
// ---------------------------------------------------------------------------

/// `VK_SHIFT`
pub const VK_SHIFT: u16 = 0x10;
/// `VK_CONTROL`
pub const VK_CONTROL: u16 = 0x11;
/// `VK_INSERT`
pub const VK_INSERT: u16 = 0x2D;
/// The virtual key of the `V` key.
pub const VK_V: u16 = 0x56;

/// One keyboard event to synthesise.
#[derive(Debug, Clone, Copy, PartialEq, Eq)]
pub struct KeyStroke {
    pub virtual_key: u16,
    pub key_up: bool,
    /// `KEYEVENTF_EXTENDEDKEY`: the key sits in the extended block.
    pub extended: bool,
}

pub open spec fn stroke(virtual_key: u16, key_up: bool, extended: bool) -> KeyStroke {
    KeyStroke { virtual_key, key_up, extended }
}

/// The keys that paste for a paste method: `Ctrl+V` for `ctrl_v`, and
/// `Shift+Insert` (Insert in the extended block) for anything else.
pub open spec fn spec_paste_keystrokes(method: Seq<char>) -> Seq<KeyStroke> {
    if method == "ctrl_v"@ {
        seq![
            stroke(VK_CONTROL, false, false),
            stroke(VK_V, false, false),
            stroke(VK_V, true, false),
            stroke(VK_CONTROL, true, false),
        ]
    } else {
        seq![
            stroke(VK_SHIFT, false, false),
            stroke(VK_INSERT, false, true),
            stroke(VK_INSERT, true, true),
            stroke(VK_SHIFT, true, false),
        ]
    }
}

/// The keyboard events that make the focused application paste.
pub fn paste_keystrokes(method: &str) -> (keys: Vec<KeyStroke>)
    ensures
        keys@ == spec_paste_keystrokes(method@),
{
    let mut keys: Vec<KeyStroke> = Vec::new();
    if str_eq(method, "ctrl_v") {
        keys.push(KeyStroke { virtual_key: VK_CONTROL, key_up: false, extended: false });
        keys.push(KeyStroke { virtual_key: VK_V, key_up: false, extended: false });
        keys.push(KeyStroke { virtual_key: VK_V, key_up: true, extended: false });
        keys.push(KeyStroke { virtual_key: VK_CONTROL, key_up: true, extended: false });
    } else {
        keys.push(KeyStroke { virtual_key: VK_SHIFT, key_up: false, extended: false });
        keys.push(KeyStroke { virtual_key: VK_INSERT, key_up: false, extended: true });
        keys.push(KeyStroke { virtual_key: VK_INSERT, key_up: true, extended: true });
        keys.push(KeyStroke { virtual_key: VK_SHIFT, key_up: true, extended: false });
    }
    assert(keys@ =~= spec_paste_keystrokes(method@));
    keys
}

/// Every paste sequence releases what it presses, in the reverse order: the
/// second half is the first half mirrored, with each press turned into a
/// release of the same key.
pub proof fn lemma_paste_keys_are_balanced(method: Seq<char>)
    ensures
        spec_paste_keystrokes(method).len() == 4,
        forall|i: int|
            0 <= i < 2 ==> {
                let down = #[trigger] spec_paste_keystrokes(method)[i];
                let up = spec_paste_keystrokes(method)[3 - i];
                &&& !down.key_up
                &&& up.key_up
                &&& up.virtual_key == down.virtual_key
                &&& up.extended == down.extended
            },
{
}

// ---------------------------------------------------------------------------
// Who owns the clipboard
// ---------------------------------------------------------------------------

/// Where a clipboard change came from.
#[derive(Debug, Clone)]
pub struct SourceAppInfo {
    /// The name shown for the application.
    pub source_app: Option<String>,
    /// Its icon, as base64 PNG.
    pub source_icon: Option<String>,
    pub exe_name: Option<String>,
    pub full_path: Option<String>,
    /// Whether the clipboard owner was known, rather than guessed from the
    /// foreground window.
    pub is_explicit_owner: bool,
}

/// `s`, unless it is empty.
pub open spec fn non_empty(s: Seq<char>) -> Option<Seq<char>> {
    if s.len() > 0 {
        Some(s)
    } else {
        None
    }
}

pub open spec fn opt_view(s: Option<String>) -> Option<Seq<char>> {
    match s {
        Some(t) => Some(t@),
        None => None,
    }
}

fn non_empty_string(s: &String) -> (r: Option<String>)
    ensures
        opt_view(r) == non_empty(s@),
{
    if !s.as_str().is_empty() {
        Some(s.clone())
    } else {
        None
    }
}

/// Puts together what was learnt about the owning process.
///
/// The displayed name is the file description when the executable has one,
/// otherwise the executable's name; without a full path there is no
/// description and no icon to look up.
pub fn owner_app_info(
    exe_name: String,
    full_path: Option<String>,
    description: Option<String>,
    icon: Option<String>,
    is_explicit_owner: bool,
) -> (info: SourceAppInfo)
    ensures
        opt_view(info.source_app) == (match full_path {
            Some(_) => match description {
                Some(d) => Some(d@),
                None => non_empty(exe_name@),
            },
            None => non_empty(exe_name@),
        }),
        opt_view(info.source_icon) == (match full_path {
            Some(_) => opt_view(icon),
            None => None,
        }),
        opt_view(info.exe_name) == non_empty(exe_name@),
        opt_view(info.full_path) == opt_view(full_path),
        info.is_explicit_owner == is_explicit_owner,
{
    let exe_val = non_empty_string(&exe_name);
    let (source_app, source_icon) = match &full_path {
        Some(_) => {
            let name = match description {
                Some(d) => Some(d),
                None => non_empty_string(&exe_name),
            };
            (name, icon)
        },
        None => (non_empty_string(&exe_name), None),
    };
    SourceAppInfo {
        source_app,
        source_icon,
        exe_name: exe_val,
        full_path,
        is_explicit_owner,
    }
}

// ---------------------------------------------------------------------------
// Version resources
// ---------------------------------------------------------------------------

/// Simplified Chinese, the translation preferred when an executable has it.
pub const LANG_ZH_CN: u16 = 0x0804;

/// The version-resource strings tried for an application's name, in order.
pub const VERSION_INFO_KEYS: [&'static str; 2] = ["FileDescription", "ProductName"];

/// The (language, code page) pair to read strings under: the last pair whose
/// language is Simplified Chinese, or the first pair when none is.
pub open spec fn spec_preferred_translation(pairs: Seq<u16>) -> (u16, u16)
    decreases pairs.len(),
{
    let n = pairs.len() / 2;
    if n <= 1 {
        (pairs[0], pairs[1])
    } else if pairs[2 * (n - 1)] == LANG_ZH_CN {
        (pairs[2 * (n - 1)], pairs[2 * (n - 1) + 1])
    } else {
        spec_preferred_translation(pairs.take(2 * (n - 1)))
    }
}

proof fn lemma_translation_whole_pairs(pairs: Seq<u16>)
    requires
        pairs.len() >= 2,
    ensures
        spec_preferred_translation(pairs) == spec_preferred_translation(
            pairs.take(2 * (pairs.len() / 2) as int),
        ),
{
    let n = pairs.len() / 2;
    let t = pairs.take(2 * n as int);
    assert(t.len() / 2 == n);
    if n > 1 {
        assert(t.take(2 * (n - 1)) =~= pairs.take(2 * (n - 1)));
    }
}

/// Picks the translation of a version resource's `\VarFileInfo\Translation`
/// table, a list of (language, code page) pairs.
pub fn preferred_translation(pairs: &[u16]) -> (pair: (u16, u16))
    requires
        pairs@.len() >= 2,
    ensures
        pair == spec_preferred_translation(pairs@),
{
    let len = pairs.len();
    let n = len / 2;
    let mut lang = pairs[0];
    let mut charset = pairs[1];
    let mut i: usize = 1;
    proof {
        let t = pairs@.take(2);
        assert(t[0] == pairs@[0] && t[1] == pairs@[1]);
    }
    while i < n
        invariant
            len == pairs@.len(),
            n == pairs@.len() / 2,
            1 <= i <= n,
            (lang, charset) == spec_preferred_translation(pairs@.take(2 * i as int)),
        decreases n - i,
    {
        proof {
            let t = pairs@.take(2 * (i + 1) as int);
            assert(t.len() / 2 == i + 1);
            assert(t.take(2 * i as int) =~= pairs@.take(2 * i as int));
            assert(t[2 * i as int] == pairs@[2 * i as int]);
            assert(t[2 * i + 1] == pairs@[2 * i + 1]);
            assert(2 * i + 1 < pairs@.len());
        }
        if pairs[2 * i] == LANG_ZH_CN {
            lang = pairs[2 * i];
            charset = pairs[2 * i + 1];
        }
        i = i + 1;
    }
    proof {
        lemma_translation_whole_pairs(pairs@);
    }
    (lang, charset)
}

/// A lowercase hexadecimal digit.
pub open spec fn hex_digit(d: nat) -> char {
    if d < 10 {
        (48 + d) as char
    } else {
        (87 + d) as char
    }
}

/// `v` as four lowercase hexadecimal digits, as `{:04x}` writes a `u16`.
pub open spec fn hex4(v: u16) -> Seq<char> {
    seq![
        hex_digit((v / 4096) as nat),
        hex_digit((v / 256 % 16) as nat),
        hex_digit((v / 16 % 16) as nat),
        hex_digit((v % 16) as nat),
    ]
}

pub(crate) fn push_hex_digit(s: &mut String, d: u16)
    requires
        d < 16,
    ensures
        final(s)@ == old(s)@.push(hex_digit(d as nat)),
{
    let c = if d < 10 {
        (48 + d) as u8 as char
    } else {
        (87 + d) as u8 as char
    };
    crate::unicode::string_push(s, c);
}

/// The version-resource query for one string of one translation:
/// `\StringFileInfo\` then language and code page in hexadecimal, `\` and the key.
pub open spec fn spec_version_info_query(lang: u16, charset: u16, key: Seq<char>) -> Seq<char> {
    "\\StringFileInfo\\"@ + hex4(lang) + hex4(charset) + "\\"@ + key
}

pub fn version_info_query(lang: u16, charset: u16, key: &str) -> (query: String)
    ensures
        query@ == spec_version_info_query(lang, charset, key@),
{
    let mut query = String::new();
    query.append("\\StringFileInfo\\");
    push_hex_digit(&mut query, lang / 4096);
    push_hex_digit(&mut query, lang / 256 % 16);
    push_hex_digit(&mut query, lang / 16 % 16);
    push_hex_digit(&mut query, lang % 16);
    push_hex_digit(&mut query, charset / 4096);
    push_hex_digit(&mut query, charset / 256 % 16);
    push_hex_digit(&mut query, charset / 16 % 16);
    push_hex_digit(&mut query, charset % 16);
    query.append("\\");
    query.append(key);
    assert(query@ =~= spec_version_info_query(lang, charset, key@));
    query
}

/// A version-resource string: UTF-16 with an optional terminating NUL, which
/// is dropped. An empty string counts as missing.
pub open spec fn spec_version_info_text(units: Seq<u16>) -> Option<Seq<char>> {
    let len = if units.len() > 0 && units.last() == 0 {
        units.len() - 1
    } else {
        units.len() as int
    };
    if len > 0 {
        Some(utf16_decode(units.take(len)))
    } else {
        None
    }
}

pub fn version_info_text(units: &[u16]) -> (text: Option<String>)
    ensures
        opt_view(text) == spec_version_info_text(units@),
{
    let len = if units.len() > 0 && units[units.len() - 1] == 0 {
        units.len() - 1
    } else {
        units.len()
    };
    if len > 0 {
        let head = &units[0..len];
        assert(head@ =~= units@.take(len as int));
        Some(string_from_utf16_lossy(head))
    } else {
        None
    }
}

// ---------------------------------------------------------------------------
// Application icons
// ---------------------------------------------------------------------------

/// The pixels with the first and third byte of every whole group of four
/// swapped, turning BGRA into RGBA; a trailing partial group is left as is.
pub open spec fn swapped_red_blue(p: Seq<u8>) -> Seq<u8> {
    Seq::new(
        p.len(),
        |i: int|
            if i < p.len() - p.len() % 4 && i % 4 == 0 {
                p[i + 2]
            } else if i < p.len() - p.len() % 4 && i % 4 == 2 {
                p[i - 2]
            } else {
                p[i]
            },
    )
}

pub fn swap_red_blue(pixels: &mut Vec<u8>)
    ensures
        final(pixels)@ == swapped_red_blue(old(pixels)@),
{
    let ghost orig = pixels@;
    let n = pixels.len();
    let whole = n - n % 4;
    let mut i: usize = 0;
    while i < whole
        invariant
            n == pixels@.len() == orig.len(),
            whole == n - n % 4,
            i <= whole,
            i % 4 == 0,
            forall|k: int|
                0 <= k < n ==> #[trigger] pixels@[k] == (if k < i {
                    swapped_red_blue(orig)[k]
                } else {
                    orig[k]
                }),
        decreases whole - i,
    {
        let b = pixels[i];
        let r = pixels[i + 2];
        pixels.set(i, r);
        pixels.set(i + 2, b);
        i = i + 4;
    }
    assert(pixels@ =~= swapped_red_blue(orig));
}

/// What the standard base64 alphabet, with padding, makes of `bytes`.
pub uninterp spec fn base64_text(bytes: Seq<u8>) -> Seq<char>;

/// `base64::engine::general_purpose::STANDARD.encode`: the bytes in the
/// standard base64 alphabet with padding. The text is named, not spelled out.
#[verifier::external_body]
pub(crate) fn base64_encode(bytes: &[u8]) -> (text: String)
    ensures
        text@ == base64_text(bytes@),
{
    base64::engine::general_purpose::STANDARD.encode(bytes)
}

/// The PNG file the image crate writes for 8-bit RGBA pixels, if it writes one.
pub uninterp spec fn png_of_rgba(pixels: Seq<u8>, width: u32, height: u32) -> Option<Seq<u8>>;

/// `image::codecs::png::PngEncoder::write_image` with `Rgba8` pixels, into a
/// buffer. The encoder asserts that the buffer holds exactly `width * height`
/// pixels, hence the `requires`; the bytes it writes are named, not spelled out.
#[verifier::external_body]
fn encode_png_rgba(pixels: &[u8], width: u32, height: u32) -> (png: Option<Vec<u8>>)
    requires
        pixels@.len() == width * height * 4,
    ensures
        png_of_rgba(pixels@, width, height) == match png {
            Some(b) => Some(b@),
            None => None::<Seq<u8>>,
        },
{
    let mut out: Vec<u8> = Vec::new();
    match image::codecs::png::PngEncoder::new(&mut out).write_image(
        pixels,
        width,
        height,
        image::ExtendedColorType::Rgba8,
    ) {
        Ok(()) => Some(out),
        Err(_) => None,
    }
}

/// The icon shown on a clip card: the BGRA pixels GDI hands back, swapped to
/// RGBA, encoded as PNG and then as base64.
pub fn icon_png_base64(bgra: Vec<u8>, width: u32, height: u32) -> (icon: Option<String>)
    requires
        bgra@.len() == width * height * 4,
    ensures
        match png_of_rgba(swapped_red_blue(bgra@), width, height) {
            Some(png) => icon matches Some(t) && t@ == base64_text(png),
            None => icon is None,
        },
{
    let mut pixels = bgra;
    swap_red_blue(&mut pixels);
    match encode_png_rgba(pixels.as_slice(), width, height) {
        Some(png) => Some(base64_encode(png.as_slice())),
        None => None,
    }
}

// ---------------------------------------------------------------------------
// Images on the clipboard
// ---------------------------------------------------------------------------

/// A decoded image: its size and its 8-bit RGBA pixels, top row first.
pub struct DecodedImage {
    pub width: u32,
    pub height: u32,
    pub rgba: Vec<u8>,
}

/// What the image crate makes of PNG bytes: the size and RGBA pixels, or the
/// text of the error it reports.
pub uninterp spec fn png_decoding(png: Seq<u8>) -> Result<(u32, u32, Seq<u8>), Seq<char>>;

/// `image::load_from_memory_with_format` with `ImageFormat::Png`, converted to
/// RGBA with `to_rgba8`. The pixels, and the error text on failure, are named,
/// not spelled out.
#[verifier::external_body]
fn decode_png_rgba(png: &[u8]) -> (decoded: Result<DecodedImage, String>)
    ensures
        png_decoding(png@) == match decoded {
            Ok(d) => Ok((d.width, d.height, d.rgba@)),
            Err(e) => Err(e@),
        },
{
    match image::load_from_memory_with_format(png, image::ImageFormat::Png) {
        Ok(image) => {
            let rgba = image.to_rgba8();
            Ok(DecodedImage { width: rgba.width(), height: rgba.height(), rgba: rgba.into_raw() })
        },
        Err(e) => Err(e.to_string()),
    }
}

/// How a `DibError` prints with `{:?}`.
pub open spec fn dib_error_text(e: DibError) -> Seq<char> {
    match e {
        DibError::EmptyImage => "EmptyImage"@,
        DibError::WrongPixelBuffer { expected, actual } => "WrongPixelBuffer { expected: "@
            + decimal_chars(expected as nat) + ", actual: "@ + decimal_chars(actual as nat)
            + " }"@,
    }
}

fn dib_error_string(e: &DibError) -> (text: String)
    ensures
        text@ == dib_error_text(*e),
{
    match e {
        DibError::EmptyImage => "EmptyImage".to_owned(),
        DibError::WrongPixelBuffer { expected, actual } => {
            let mut text = "WrongPixelBuffer { expected: ".to_owned();
            push_decimal_chars(&mut text, *expected);
            text.append(", actual: ");
            push_decimal_chars(&mut text, *actual);
            text.append(" }");
            text
        },
    }
}

/// The two bitmap renditions of an image.
pub struct DibFormats {
    /// `CF_DIBV5`, which declares the alpha channel.
    pub dibv5: Vec<u8>,
    /// `CF_DIB`, for applications that only look for that.
    pub dib: Vec<u8>,
}

/// The `CF_DIBV5` and `CF_DIB` payloads for RGBA pixels, or the message for
/// the first that cannot be built.
pub open spec fn spec_dib_formats(rgba: Seq<u8>, width: u32, height: u32) -> Result<
    (Seq<u8>, Seq<u8>),
    Seq<char>,
> {
    match spec_build_dibv5(rgba, width, height) {
        Err(e) => Err("building CF_DIBV5 failed: "@ + dib_error_text(e)),
        Ok(v5) => match spec_build_dib(rgba, width, height) {
            Err(e) => Err("building CF_DIB failed: "@ + dib_error_text(e)),
            Ok(dib) => Ok((v5, dib)),
        },
    }
}

pub fn dib_formats(rgba: &[u8], width: u32, height: u32) -> (r: Result<DibFormats, String>)
    requires
        width * height * 4 <= usize::MAX,
    ensures
        match spec_dib_formats(rgba@, width, height) {
            Ok((v5, dib)) => r matches Ok(f) && f.dibv5@ == v5 && f.dib@ == dib,
            Err(msg) => r matches Err(m) && m@ == msg,
        },
{
    let dibv5 = match build_dibv5(rgba, width, height) {
        Ok(b) => b,
        Err(e) => {
            let mut msg = "building CF_DIBV5 failed: ".to_owned();
            let text = dib_error_string(&e);
            msg.append(text.as_str());
            return Err(msg);
        },
    };
    let dib = match build_dib(rgba, width, height) {
        Ok(b) => b,
        Err(e) => {
            let mut msg = "building CF_DIB failed: ".to_owned();
            let text = dib_error_string(&e);
            msg.append(text.as_str());
            return Err(msg);
        },
    };
    Ok(DibFormats { dibv5, dib })
}

/// The message for a decoded image too large to lay out as a DIB in memory.
pub open spec fn image_too_large_message() -> Seq<char> {
    "the stored image is too large for a bitmap"@
}

/// The bitmap renditions of a stored PNG: decode it, then build both DIBs.
pub open spec fn spec_image_formats(png: Seq<u8>) -> Result<(Seq<u8>, Seq<u8>), Seq<char>> {
    match png_decoding(png) {
        Err(e) => Err("decoding the stored image failed: "@ + e),
        Ok((width, height, rgba)) => if width * height * 4 > usize::MAX {
            Err(image_too_large_message())
        } else {
            spec_dib_formats(rgba, width, height)
        },
    }
}

/// Decodes the PNG stored for an image clip and builds the bitmap formats that
/// go onto the clipboard beside it.
pub fn image_formats(png: &[u8]) -> (r: Result<DibFormats, String>)
    ensures
        match spec_image_formats(png@) {
            Ok((v5, dib)) => r matches Ok(f) && f.dibv5@ == v5 && f.dib@ == dib,
            Err(msg) => r matches Err(m) && m@ == msg,
        },
{
    let decoded = match decode_png_rgba(png) {
        Ok(d) => d,
        Err(e) => {
            let mut msg = "decoding the stored image failed: ".to_owned();
            msg.append(e.as_str());
            return Err(msg);
        },
    };
    let w = decoded.width as u128;
    let h = decoded.height as u128;
    assert(w * h <= 0xFFFF_FFFFu128 * 0xFFFF_FFFFu128) by (nonlinear_arith)
        requires
            w <= 0xFFFF_FFFF,
            h <= 0xFFFF_FFFF,
    ;
    if w * h * 4 > usize::MAX as u128 {
        return Err("the stored image is too large for a bitmap".to_owned());
    }
    dib_formats(decoded.rgba.as_slice(), decoded.width, decoded.height)
}

// ---------------------------------------------------------------------------
// Writing a payload
// ---------------------------------------------------------------------------

/// A clipboard format a payload can be written in.
#[derive(Debug, Clone, Copy, PartialEq, Eq)]
pub enum ClipboardSlot {
    /// `CF_HDROP`
    Hdrop,
    /// `CF_DIBV5`
    DibV5,
    /// `CF_DIB`
    Dib,
    /// The registered `PNG` format.
    Png,
    /// The registered `HTML Format`, i.e. `CF_HTML`.
    Html,
    /// The registered `Rich Text Format`.
    Rtf,
    /// `CF_UNICODETEXT`
    UnicodeText,
}

/// One format to set, with its bytes.
pub struct ClipboardWrite {
    pub slot: ClipboardSlot,
    pub bytes: Vec<u8>,
}

/// The formats to set for a payload, in order, and the error to report once
/// they are set, if any.
pub struct ClipboardPlan {
    pub writes: Vec<ClipboardWrite>,
    pub error: Option<String>,
}

pub open spec fn writes_view(ws: Seq<ClipboardWrite>) -> Seq<(ClipboardSlot, Seq<u8>)> {
    ws.map_values(|w: ClipboardWrite| (w.slot, w.bytes@))
}

pub open spec fn opt_string_view(s: Option<String>) -> Option<Seq<char>> {
    match s {
        Some(t) => Some(t@),
        None => None,
    }
}

/// The message for a payload with nothing in it.
pub open spec fn empty_payload_message() -> Seq<char> {
    "clip has no clipboard formats to write"@
}

/// What writing a payload does: the formats set, in order, and the error it
/// ends with. The file list goes first, then the image as `CF_DIBV5`,
/// `CF_DIB` and `PNG`; then HTML, whose rich text an application that also
/// reads plain text should prefer, then RTF, and plain text last. An image
/// that cannot be converted stops the write after the file list.
pub open spec fn spec_clipboard_plan(p: ClipboardPayload) -> (
    Seq<(ClipboardSlot, Seq<u8>)>,
    Option<Seq<char>>,
) {
    if p.spec_is_empty() {
        (Seq::empty(), Some(empty_payload_message()))
    } else {
        match p.image_png {
            Some(png) => match spec_image_formats(png@) {
                Ok((v5, dib)) => (
                    file_writes(p) + seq![
                        (ClipboardSlot::DibV5, v5),
                        (ClipboardSlot::Dib, dib),
                        (ClipboardSlot::Png, png@),
                    ] + text_writes(p),
                    None,
                ),
                Err(m) => (file_writes(p), Some(m)),
            },
            None => (file_writes(p) + text_writes(p), None),
        }
    }
}

/// The file list's write: a `CF_HDROP` for a non-empty list.
pub open spec fn file_writes(p: ClipboardPayload) -> Seq<(ClipboardSlot, Seq<u8>)> {
    match p.files {
        Some(f) => if f@.len() > 0 {
            seq![(ClipboardSlot::Hdrop, spec_build_hdrop(string_views(f@)))]
        } else {
            Seq::empty()
        },
        None => Seq::empty(),
    }
}

/// The writes after the image: `CF_HTML` with no source URL, RTF as it is,
/// and the text as NUL-terminated UTF-16LE, each when there is one.
pub open spec fn text_writes(p: ClipboardPayload) -> Seq<(ClipboardSlot, Seq<u8>)> {
    let html = match p.html {
        Some(h) => seq![(ClipboardSlot::Html, spec_build_cf_html(encode_utf8(h@), None))],
        None => Seq::empty(),
    };
    let rtf = match p.rtf {
        Some(r) => seq![(ClipboardSlot::Rtf, r@)],
        None => Seq::empty(),
    };
    let text = match p.text {
        Some(t) => seq![(ClipboardSlot::UnicodeText, utf16le(t@) + seq![0u8, 0u8])],
        None => Seq::empty(),
    };
    html + rtf + text
}

fn push_write(writes: &mut Vec<ClipboardWrite>, slot: ClipboardSlot, bytes: Vec<u8>)
    ensures
        writes_view(final(writes)@) == writes_view(old(writes)@).push((slot, bytes@)),
{
    let ghost before = writes@;
    writes.push(ClipboardWrite { slot, bytes });
    assert(writes_view(writes@) =~= writes_view(before).push((slot, bytes@)));
}

fn push_file_writes(writes: &mut Vec<ClipboardWrite>, payload: &ClipboardPayload)
    ensures
        writes_view(final(writes)@) == writes_view(old(writes)@) + file_writes(*payload),
{
    let ghost before = writes_view(writes@);
    match &payload.files {
        Some(files) => {
            if files.len() > 0 {
                push_write(writes, ClipboardSlot::Hdrop, build_hdrop(files.as_slice()));
            } else {
                assert(before + file_writes(*payload) =~= before);
            }
        },
        None => {
            assert(before + file_writes(*payload) =~= before);
        },
    }
}

fn push_text_writes(writes: &mut Vec<ClipboardWrite>, payload: &ClipboardPayload)
    requires
        payload.html matches Some(h) ==> encode_utf8(h@).len() <= isize::MAX,
    ensures
        writes_view(final(writes)@) == writes_view(old(writes)@) + text_writes(*payload),
{
    let ghost before = writes_view(writes@);
    match &payload.html {
        Some(html) => {
            push_write(writes, ClipboardSlot::Html, build_cf_html(html.as_str(), None));
        },
        None => {},
    }
    match &payload.rtf {
        Some(rtf) => {
            push_write(writes, ClipboardSlot::Rtf, rtf.clone());
        },
        None => {},
    }
    match &payload.text {
        Some(text) => {
            push_write(writes, ClipboardSlot::UnicodeText, to_utf16_bytes(text.as_str()));
        },
        None => {},
    }
    assert(writes_view(writes@) =~= before + text_writes(*payload));
}

/// Decides how a payload is written to the clipboard. The clipboard itself is
/// opened, emptied and filled by the caller, which stops at the first format
/// that cannot be set.
pub fn clipboard_plan(payload: &ClipboardPayload) -> (plan: ClipboardPlan)
    requires
        payload.html matches Some(h) ==> encode_utf8(h@).len() <= isize::MAX,
    ensures
        (writes_view(plan.writes@), opt_string_view(plan.error)) == spec_clipboard_plan(
            *payload,
        ),
{
    let mut writes: Vec<ClipboardWrite> = Vec::new();
    if payload.is_empty() {
        return ClipboardPlan {
            writes,
            error: Some("clip has no clipboard formats to write".to_owned()),
        };
    }
    assert(writes_view(writes@) =~= Seq::empty());
    push_file_writes(&mut writes, payload);
    assert(writes_view(writes@) =~= file_writes(*payload));
    match &payload.image_png {
        Some(png) => {
            match image_formats(png.as_slice()) {
                Ok(formats) => {
                    push_write(&mut writes, ClipboardSlot::DibV5, formats.dibv5);
                    push_write(&mut writes, ClipboardSlot::Dib, formats.dib);
                    push_write(&mut writes, ClipboardSlot::Png, png.clone());
                },
                Err(message) => {
                    return ClipboardPlan { writes, error: Some(message) };
                },
            }
        },
        None => {},
    }
    push_text_writes(&mut writes, payload);
    ClipboardPlan { writes, error: None }
}

// ---------------------------------------------------------------------------
// Reading the rich formats
// ---------------------------------------------------------------------------

/// The rich formats one clipboard change carries, beyond plain text and images.
pub struct CapturedFormats {
    pub files: Vec<String>,
    pub html: Option<String>,
    pub rtf: Option<Vec<u8>>,
}

/// What the raw `CF_HDROP`, `CF_HTML` and RTF payloads read in one clipboard
/// session amount to.
///
/// An unparseable file list counts as no files. What is kept of HTML is the
/// fragment, not the raw payload, whose offsets describe its own header and
/// would be wrong once anything re-encoded it. RTF is kept as it arrived.
pub fn captured_formats(
    hdrop: Option<&[u8]>,
    html: Option<&[u8]>,
    rtf: Option<Vec<u8>>,
) -> (captured: CapturedFormats)
    ensures
        string_views(captured.files@) == match hdrop {
            Some(b) => match spec_parse_hdrop(b@) {
                Ok(paths) => paths,
                Err(_) => Seq::empty(),
            },
            None => Seq::empty(),
        },
        opt_string_view(captured.html) == match html {
            Some(b) => spec_parse_cf_html(b@),
            None => None,
        },
        captured.rtf == rtf,
{
    let files = match hdrop {
        Some(bytes) => match parse_hdrop(bytes) {
            Ok(paths) => paths,
            Err(_) => Vec::new(),
        },
        None => Vec::new(),
    };
    proof {
        if files@.len() == 0 {
            assert(string_views(files@) =~= Seq::empty());
        }
    }
    let html = match html {
        Some(bytes) => parse_cf_html(bytes),
        None => None,
    };
    CapturedFormats { files, html, rtf }
}

// ---------------------------------------------------------------------------
// Retrying a clipboard write, and what follows a paste
// ---------------------------------------------------------------------------

/// How many times a paste tries to write the clipboard, which another
/// application may be holding open.
pub const WRITE_ATTEMPTS: u32 = 5;

/// The pause after a failed clipboard write, in milliseconds.
pub const WRITE_RETRY_DELAY_MS: u64 = 100;

/// The pause between hiding the window and sending the paste keystrokes, in
/// milliseconds, so the focus is back in the application pasted into.
pub const AUTO_PASTE_DELAY_MS: u64 = 200;

/// The attempts made so far to write one payload to the clipboard.
pub struct WriteRetry {
    pub failures: u32,
    /// The message of the last failed attempt.
    pub last_error: String,
}

/// What to do after an attempt to write the clipboard.
#[derive(Debug, PartialEq, Eq)]
pub enum WriteStep {
    /// Wait `wait_ms`, then try again.
    Retry { wait_ms: u64 },
    /// Wait `wait_ms`, then give up with `result`.
    GiveUp { wait_ms: u64, result: Result<(), String> },
    /// The write went through.
    Written,
}

/// The message a paste fails with when every write failed with `last`.
pub open spec fn write_failure_message(last: Seq<char>) -> Seq<char> {
    "Failed to write clip to clipboard: "@ + last
}

impl WriteRetry {
    pub fn new() -> (r: Self)
        ensures
            r.failures == 0,
            r.last_error@ == Seq::<char>::empty(),
    {
        WriteRetry { failures: 0, last_error: String::new() }
    }

    /// Records the outcome of one attempt. A failure is followed by a pause;
    /// after the fifth the paste gives up, with the last message, or succeeds
    /// when that message was empty.
    pub fn after_attempt(&mut self, outcome: Result<(), String>) -> (step: WriteStep)
        requires
            old(self).failures < WRITE_ATTEMPTS,
        ensures
            match outcome {
                Ok(()) => step == WriteStep::Written && final(self).failures == old(self).failures,
                Err(e) => {
                    &&& final(self).failures == old(self).failures + 1
                    &&& final(self).last_error@ == e@
                    &&& final(self).failures < WRITE_ATTEMPTS ==> step == WriteStep::Retry {
                        wait_ms: WRITE_RETRY_DELAY_MS,
                    }
                    &&& final(self).failures == WRITE_ATTEMPTS ==> (step matches WriteStep::GiveUp {
                        wait_ms,
                        result,
                    } && wait_ms == WRITE_RETRY_DELAY_MS && if e@.len() == 0 {
                        result is Ok
                    } else {
                        result matches Err(m) && m@ == write_failure_message(e@)
                    })
                },
            },
    {
        match outcome {
            Ok(()) => WriteStep::Written,
            Err(e) => {
                self.failures = self.failures + 1;
                if self.failures < WRITE_ATTEMPTS {
                    self.last_error = e;
                    WriteStep::Retry { wait_ms: WRITE_RETRY_DELAY_MS }
                } else {
                    let result = if e.unicode_len() == 0 {
                        Ok(())
                    } else {
                        let mut message = "Failed to write clip to clipboard: ".to_owned();
                        message.append(e.as_str());
                        Err(message)
                    };
                    self.last_error = e;
                    WriteStep::GiveUp { wait_ms: WRITE_RETRY_DELAY_MS, result }
                }
            },
        }
    }
}

/// What happens once a clip is on the clipboard.
#[derive(Debug, Clone, Copy, PartialEq, Eq, Structural)]
pub enum PasteFollowUp {
    /// Hide the window, wait `AUTO_PASTE_DELAY_MS`, then send the keystrokes.
    HideThenPaste,
    /// Hide the window and leave the pasting to the user.
    Hide,
}

/// With auto-paste on, the keystrokes follow the hide; otherwise the window
/// only hides.
pub fn paste_follow_up(auto_paste: bool) -> (follow: PasteFollowUp)
    ensures
        follow == if auto_paste {
            PasteFollowUp::HideThenPaste
        } else {
            PasteFollowUp::Hide
        },
{
    if auto_paste {
        PasteFollowUp::HideThenPaste
    } else {
        PasteFollowUp::Hide
    }
}

} // verus!
