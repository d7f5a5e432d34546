//! What a clipboard change becomes: which content is kept and under what
//! hash, whether it is recorded at all, and which alternate formats ride
//! along with it.

use vstd::prelude::*;
use vstd::string::*;
use vstd::utf8::*;
use crate::clipboard::{hex_digit, opt_view, push_hex_digit};
use crate::clipboard_formats::{
    decimal_chars, describe_files, extend_bytes, push_decimal_chars, spec_describe_files,
    string_views, trim, trim_text, FORMAT_FILE, FORMAT_HTML, FORMAT_RTF,
};
use crate::models::AppSettings;
use crate::unicode::{str_eq, string_push};
use sha2::Digest;

verus! {

// ---------------------------------------------------------------------------
// Content hashes
// ---------------------------------------------------------------------------

/// The SHA-256 digest of some bytes.
pub uninterp spec fn sha256(bytes: Seq<u8>) -> Seq<u8>;

/// `sha2::Sha256::digest`: the SHA-256 digest of the bytes, 32 bytes long.
/// The digest itself is named, not spelled out.
#[verifier::external_body]
fn sha256_digest(bytes: &[u8]) -> (digest: Vec<u8>)
    ensures
        digest@ == sha256(bytes@),
        digest@.len() == 32,
{
    sha2::Sha256::digest(bytes).to_vec()
}

/// Bytes as lowercase hexadecimal, two digits per byte, high nibble first.
pub open spec fn hex_lower(bytes: Seq<u8>) -> Seq<char>
    decreases bytes.len(),
{
    if bytes.len() == 0 {
        Seq::empty()
    } else {
        hex_lower(bytes.drop_last()) + seq![
            hex_digit((bytes.last() / 16) as nat),
            hex_digit((bytes.last() % 16) as nat),
        ]
    }
}

fn push_hex_lower(s: &mut String, bytes: &[u8])
    ensures
        final(s)@ == old(s)@ + hex_lower(bytes@),
{
    let ghost start = s@;
    let mut i: usize = 0;
    assert(bytes@.take(0) =~= Seq::<u8>::empty());
    while i < bytes.len()
        invariant
            i <= bytes@.len(),
            s@ == start + hex_lower(bytes@.take(i as int)),
        decreases bytes.len() - i,
    {
        let b = bytes[i];
        push_hex_digit(s, (b / 16) as u16);
        push_hex_digit(s, (b % 16) as u16);
        proof {
            let t = bytes@.take(i + 1);
            assert(t.drop_last() =~= bytes@.take(i as int));
            assert(t.last() == b);
        }
        i = i + 1;
        assert(s@ =~= start + hex_lower(bytes@.take(i as int)));
    }
    assert(bytes@.take(bytes@.len() as int) =~= bytes@);
}

/// The content hash a clip is stored and recognised under: SHA-256 in
/// lowercase hexadecimal.
pub fn calculate_hash(content: &[u8]) -> (hash: String)
    ensures
        hash@ == hex_lower(sha256(content@)),
{
    let digest = sha256_digest(content);
    let mut hash = String::new();
    push_hex_lower(&mut hash, digest.as_slice());
    hash
}

// ---------------------------------------------------------------------------
// Choosing what a clipboard change holds
// ---------------------------------------------------------------------------

/// The kind of a clip, as stored in `clips.clip_type`.
#[derive(Debug, Clone, Copy, PartialEq, Eq)]
pub enum ClipKind {
    Text,
    Image,
    File,
}

/// The stored name of a clip kind.
pub open spec fn kind_name(kind: ClipKind) -> Seq<char> {
    match kind {
        ClipKind::Text => "text"@,
        ClipKind::Image => "image"@,
        ClipKind::File => "file"@,
    }
}

impl ClipKind {
    pub fn name(&self) -> (name: &'static str)
        ensures
            name@ == kind_name(*self),
    {
        match self {
            ClipKind::Text => "text",
            ClipKind::Image => "image",
            ClipKind::File => "file",
        }
    }
}

/// An image read from the clipboard, already encoded as PNG.
pub struct CapturedImage {
    pub png_bytes: Vec<u8>,
    pub width: u32,
    pub height: u32,
    /// The hash of the decoded pixels, so the same picture copied twice is
    /// recognised whatever its PNG encoding.
    pub raw_hash: String,
}

/// An image read from the clipboard: its PNG encoding, its size, and the hash
/// of its decoded pixels.
pub fn captured_image(png_bytes: Vec<u8>, width: u32, height: u32, pixels: &[u8]) -> (image: CapturedImage)
    ensures
        image.png_bytes == png_bytes,
        image.width == width,
        image.height == height,
        image.raw_hash@ == hex_lower(sha256(pixels@)),
{
    CapturedImage { png_bytes, width, height, raw_hash: calculate_hash(pixels) }
}

/// What one clipboard change is recorded as.
pub struct CapturedClip {
    pub kind: ClipKind,
    /// `clips.content`: the text, or the newline joined file list; empty for
    /// an image, whose bytes are kept in `full_image`.
    pub content: Vec<u8>,
    pub full_image: Option<Vec<u8>>,
    pub preview: String,
    pub hash: String,
    /// JSON describing an image: its size, format and byte count.
    pub metadata: Option<String>,
}

/// The preview shown for an image clip.
pub const IMAGE_PREVIEW: &'static str = "[Image]";

/// How many characters of a text clip its preview keeps.
pub const TEXT_PREVIEW_CHARS: usize = 200;

/// Lines joined with `\n`.
pub open spec fn joined_lines(items: Seq<Seq<char>>) -> Seq<char>
    decreases items.len(),
{
    if items.len() == 0 {
        Seq::empty()
    } else if items.len() == 1 {
        items[0]
    } else {
        joined_lines(items.drop_last()) + seq!['\n'] + items.last()
    }
}

fn join_lines(items: &Vec<String>) -> (joined: String)
    ensures
        joined@ == joined_lines(string_views(items@)),
{
    let mut joined = String::new();
    let mut i: usize = 0;
    assert(string_views(items@).take(0) =~= Seq::<Seq<char>>::empty());
    while i < items.len()
        invariant
            i <= items@.len(),
            joined@ == joined_lines(string_views(items@).take(i as int)),
        decreases items.len() - i,
    {
        let ghost before = string_views(items@).take(i as int);
        if i > 0 {
            string_push(&mut joined, '\n');
        }
        joined.append(items[i].as_str());
        proof {
            let after = string_views(items@).take(i + 1);
            assert(after.drop_last() =~= before);
            assert(after.last() == items@[i as int]@);
            if i == 0 {
                assert(after.len() == 1);
            }
        }
        i = i + 1;
        assert(joined@ =~= joined_lines(string_views(items@).take(i as int)));
    }
    assert(string_views(items@).take(items@.len() as int) =~= string_views(items@));
    joined
}

/// The metadata stored with an image clip, as the JSON object with sorted keys
/// that names its format, height, byte count and width.
pub open spec fn spec_image_metadata(width: u32, height: u32, size_bytes: nat) -> Seq<char> {
    "{\"format\":\"png\",\"height\":"@ + decimal_chars(height as nat) + ",\"size_bytes\":"@
        + decimal_chars(size_bytes) + ",\"width\":"@ + decimal_chars(width as nat) + "}"@
}

pub fn image_metadata(width: u32, height: u32, size_bytes: usize) -> (json: String)
    ensures
        json@ == spec_image_metadata(width, height, size_bytes as nat),
{
    let mut json = "{\"format\":\"png\",\"height\":".to_owned();
    push_decimal_chars(&mut json, height as usize);
    json.append(",\"size_bytes\":");
    push_decimal_chars(&mut json, size_bytes);
    json.append(",\"width\":");
    push_decimal_chars(&mut json, width as usize);
    json.append("}");
    json
}

/// The preview of a text clip: its first characters.
pub open spec fn text_preview(text: Seq<char>) -> Seq<char> {
    if text.len() <= TEXT_PREVIEW_CHARS {
        text
    } else {
        text.take(TEXT_PREVIEW_CHARS as int)
    }
}

fn string_bytes(s: &String) -> (bytes: Vec<u8>)
    ensures
        bytes@ == encode_utf8(s@),
{
    let mut bytes: Vec<u8> = Vec::new();
    extend_bytes(&mut bytes, s.as_str().as_bytes());
    assert(bytes@ =~= encode_utf8(s@));
    bytes
}

fn take_chars(s: &String, n: usize) -> (t: String)
    ensures
        t@ == if s@.len() <= n {
            s@
        } else {
            s@.take(n as int)
        },
{
    let mut t = String::new();
    let mut count: usize = 0;
    for c in it: s.as_str().chars()
        invariant
            it.seq() == s@,
            count <= n,
            count == (if it.index() <= n {
                it.index()
            } else {
                n as int
            }),
            t@ == s@.take(count as int),
    {
        if count < n {
            string_push(&mut t, c);
            assert(t@ =~= s@.take(count + 1));
            count = count + 1;
        }
    }
    proof {
        if s@.len() <= n {
            assert(s@.take(s@.len() as int) =~= s@);
        }
    }
    t
}

pub open spec fn opt_bytes_view(b: Option<Vec<u8>>) -> Option<Seq<u8>> {
    match b {
        Some(v) => Some(v@),
        None => None,
    }
}

/// `c` records the image `img`.
pub open spec fn records_image(c: CapturedClip, img: CapturedImage) -> bool {
    &&& c.kind == ClipKind::Image
    &&& c.content@.len() == 0
    &&& opt_bytes_view(c.full_image) == Some(img.png_bytes@)
    &&& c.preview@ == IMAGE_PREVIEW@
    &&& c.hash@ == img.raw_hash@
    &&& opt_view(c.metadata) == Some(
        spec_image_metadata(img.width, img.height, img.png_bytes@.len()),
    )
}

/// `c` records the file list `files`.
pub open spec fn records_files(c: CapturedClip, files: Seq<Seq<char>>) -> bool {
    &&& c.kind == ClipKind::File
    &&& c.content@ == encode_utf8(joined_lines(files))
    &&& c.full_image is None
    &&& c.preview@ == spec_describe_files(files)
    &&& c.hash@ == hex_lower(sha256(c.content@))
    &&& c.metadata is None
}

/// `c` records the text `text`, already trimmed.
pub open spec fn records_text(c: CapturedClip, text: Seq<char>) -> bool {
    &&& c.kind == ClipKind::Text
    &&& c.content@ == encode_utf8(text)
    &&& c.full_image is None
    &&& c.preview@ == text_preview(text)
    &&& c.hash@ == hex_lower(sha256(c.content@))
    &&& c.metadata is None
}

/// Decides what a clipboard change is recorded as.
///
/// An image wins; then files, which are checked before text on purpose:
/// copying a file in Explorer also puts its name on the clipboard as text, so
/// a text-first check would record the name and lose the file. Text is kept
/// trimmed, and only when something is left of it. Nothing usable gives `None`.
pub fn choose_capture(
    image: Option<CapturedImage>,
    files: &Vec<String>,
    text: Option<String>,
) -> (captured: Option<CapturedClip>)
    ensures
        match image {
            Some(img) => captured matches Some(c) && records_image(c, img),
            None => if files@.len() > 0 {
                captured matches Some(c) && records_files(c, string_views(files@))
            } else {
                match text {
                    Some(t) => if trim(t@).len() > 0 {
                        captured matches Some(c) && records_text(c, trim(t@))
                    } else {
                        captured is None
                    },
                    None => captured is None,
                }
            },
        },
{
    match image {
        Some(img) => {
            let metadata = image_metadata(img.width, img.height, img.png_bytes.len());
            return Some(
                CapturedClip {
                    kind: ClipKind::Image,
                    content: Vec::new(),
                    full_image: Some(img.png_bytes),
                    preview: IMAGE_PREVIEW.to_owned(),
                    hash: img.raw_hash,
                    metadata: Some(metadata),
                },
            );
        },
        None => {},
    }
    if files.len() > 0 {
        let joined = join_lines(files);
        let content = string_bytes(&joined);
        let hash = calculate_hash(content.as_slice());
        let preview = describe_files(files.as_slice());
        return Some(
            CapturedClip {
                kind: ClipKind::File,
                content,
                full_image: None,
                preview,
                hash,
                metadata: None,
            },
        );
    }
    match text {
        Some(t) => {
            let trimmed = trim_text(t.as_str());
            if trimmed.as_str().is_empty() {
                return None;
            }
            let content = string_bytes(&trimmed);
            let hash = calculate_hash(content.as_slice());
            let preview = take_chars(&trimmed, TEXT_PREVIEW_CHARS);
            Some(
                CapturedClip {
                    kind: ClipKind::Text,
                    content,
                    full_image: None,
                    preview,
                    hash,
                    metadata: None,
                },
            )
        },
        None => None,
    }
}

// ---------------------------------------------------------------------------
// Repeated changes and self-pastes
// ---------------------------------------------------------------------------

/// What the monitor remembers between clipboard changes.
pub struct HashGate {
    /// The hash of the last change that was recorded.
    pub last_stable_hash: Option<String>,
    /// The hash of a clip this application is about to paste itself.
    pub ignore_hash: Option<String>,
}

impl HashGate {
    pub fn new() -> (gate: Self)
        ensures
            gate.last_stable_hash is None,
            gate.ignore_hash is None,
    {
        HashGate { last_stable_hash: None, ignore_hash: None }
    }

    /// Whether a change with content hash `hash` is recorded: it is not when it
    /// repeats the last recorded change.
    pub open spec fn records(last: Option<Seq<char>>, hash: Seq<char>) -> bool {
        last != Some(hash)
    }

    /// Lets a clipboard change through unless it repeats the last recorded one.
    /// A change that gets through becomes the last recorded one and consumes
    /// the pending self-paste hash; one that does not leaves everything as it was.
    pub fn record_change(&mut self, hash: &String) -> (recorded: bool)
        ensures
            recorded == HashGate::records(opt_view(old(self).last_stable_hash), hash@),
            recorded ==> opt_view(final(self).last_stable_hash) == Some(hash@)
                && final(self).ignore_hash is None,
            !recorded ==> opt_view(final(self).last_stable_hash) == opt_view(
                old(self).last_stable_hash,
            ) && opt_view(final(self).ignore_hash) == opt_view(old(self).ignore_hash),
    {
        let repeated = match &self.last_stable_hash {
            Some(last) => *last == *hash,
            None => false,
        };
        if repeated {
            return false;
        }
        self.last_stable_hash = Some(hash.clone());
        self.ignore_hash = None;
        true
    }
}

/// Remembers the hash of a clip about to be pasted by this application, so
/// the change that paste causes is recognised as a self-paste.
pub fn set_ignore_hash(gate: &mut HashGate, hash: String)
    ensures
        opt_view(final(gate).ignore_hash) == Some(hash@),
        opt_view(final(gate).last_stable_hash) == opt_view(old(gate).last_stable_hash),
{
    gate.ignore_hash = Some(hash);
}

/// The same change seen twice in a row is recorded once: after a change is
/// recorded, a change with the same hash is not.
pub proof fn lemma_repeat_is_not_recorded(last: Option<Seq<char>>, hash: Seq<char>)
    ensures
        !HashGate::records(Some(hash), hash),
        HashGate::records(last, hash) || last == Some(hash),
{
}

// ---------------------------------------------------------------------------
// Bursts of changes
// ---------------------------------------------------------------------------

/// How long a clipboard change waits before it is read, in milliseconds: a
/// burst of changes is read once, after its last one.
pub const CHANGE_DEBOUNCE_MS: u64 = 150;

/// Counts clipboard changes, so a change can tell after its quiet period
/// whether another arrived meanwhile.
pub struct ChangeDebouncer {
    pub count: u64,
}

/// The count after one more change; it wraps around at `u64::MAX`.
pub open spec fn next_count(count: u64) -> u64 {
    if count == u64::MAX {
        0
    } else {
        (count + 1) as u64
    }
}

impl ChangeDebouncer {
    pub fn new() -> (d: Self)
        ensures
            d.count == 0,
    {
        ChangeDebouncer { count: 0 }
    }

    /// A change arrived: counts it and returns its ticket.
    pub fn arrive(&mut self) -> (ticket: u64)
        ensures
            ticket == next_count(old(self).count),
            final(self).count == ticket,
    {
        self.count = if self.count == u64::MAX {
            0
        } else {
            self.count + 1
        };
        self.count
    }

    /// Whether the change holding `ticket` is still the last one to arrive.
    pub fn is_latest(&self, ticket: u64) -> (latest: bool)
        ensures
            latest == (self.count == ticket),
    {
        self.count == ticket
    }
}

/// A change that arrives after another supersedes it: the earlier ticket is no
/// longer the latest, and only the last change of a burst is read.
pub proof fn lemma_later_change_supersedes(count: u64)
    ensures
        next_count(next_count(count)) != next_count(count),
        next_count(count) != count,
{
}

// ---------------------------------------------------------------------------
// Ignored sources
// ---------------------------------------------------------------------------

/// The text in lower case, as `str::to_lowercase` makes it.
pub uninterp spec fn lowercase(s: Seq<char>) -> Seq<char>;

/// `str::to_lowercase`: the text with every character mapped to its Unicode
/// lowercase form. The mapping is named, not spelled out.
#[verifier::external_body]
fn to_lowercase(s: &str) -> (lower: String)
    ensures
        lower@ == lowercase(s@),
{
    s.to_lowercase()
}

/// Whether `name` is on the list, compared without regard to case.
pub open spec fn listed_ignoring_case(list: Seq<Seq<char>>, name: Seq<char>) -> bool {
    exists|i: int| 0 <= i < list.len() && lowercase(#[trigger] list[i]) == lowercase(name)
}

fn is_listed_ignoring_case(list: &Vec<String>, name: &String) -> (listed: bool)
    ensures
        listed == listed_ignoring_case(string_views(list@), name@),
{
    let name_lower = to_lowercase(name.as_str());
    let mut i: usize = 0;
    while i < list.len()
        invariant
            i <= list@.len(),
            name_lower@ == lowercase(name@),
            forall|k: int|
                0 <= k < i ==> lowercase(#[trigger] string_views(list@)[k]) != lowercase(name@),
        decreases list.len() - i,
    {
        let entry_lower = to_lowercase(list[i].as_str());
        if entry_lower == name_lower {
            assert(lowercase(string_views(list@)[i as int]) == lowercase(name@));
            return true;
        }
        i = i + 1;
    }
    false
}

/// Whether a change is dropped because of where it came from: a change whose
/// owner is unknown when ghost clips are ignored, or one whose executable path
/// or name is on the ignore list.
pub open spec fn spec_source_is_ignored(
    settings: AppSettings,
    exe_name: Option<Seq<char>>,
    full_path: Option<Seq<char>>,
    is_explicit_owner: bool,
) -> bool {
    let list = string_views(settings.ignored_apps@);
    ||| settings.ignore_ghost_clips && !is_explicit_owner
    ||| (full_path matches Some(p) && listed_ignoring_case(list, p))
    ||| (exe_name matches Some(e) && listed_ignoring_case(list, e))
}

/// Law: a change is dropped exactly when one of three things holds, each on
/// its own: ghost clips are ignored and the owner is unknown; the owner's
/// full path is on the ignore list, compared without regard to case; or the
/// owner's executable name is on it, whatever the full path is.
pub proof fn lemma_ignored_sources(
    settings: AppSettings,
    exe_name: Option<Seq<char>>,
    full_path: Option<Seq<char>>,
    is_explicit_owner: bool,
)
    ensures
        settings.ignore_ghost_clips && !is_explicit_owner ==> spec_source_is_ignored(
            settings,
            exe_name,
            full_path,
            is_explicit_owner,
        ),
        exe_name matches Some(e) ==> forall|i: int|
            0 <= i < settings.ignored_apps@.len() && lowercase(
                #[trigger] settings.ignored_apps@[i]@,
            ) == lowercase(e) ==> spec_source_is_ignored(
                settings,
                exe_name,
                full_path,
                is_explicit_owner,
            ),
        full_path matches Some(p) ==> forall|i: int|
            0 <= i < settings.ignored_apps@.len() && lowercase(
                #[trigger] settings.ignored_apps@[i]@,
            ) == lowercase(p) ==> spec_source_is_ignored(
                settings,
                exe_name,
                full_path,
                is_explicit_owner,
            ),
        !(settings.ignore_ghost_clips && !is_explicit_owner) && (forall|i: int|
            0 <= i < settings.ignored_apps@.len() ==> !(exe_name matches Some(e) && lowercase(
                #[trigger] settings.ignored_apps@[i]@,
            ) == lowercase(e)) && !(full_path matches Some(p) && lowercase(
                settings.ignored_apps@[i]@,
            ) == lowercase(p))) ==> !spec_source_is_ignored(
            settings,
            exe_name,
            full_path,
            is_explicit_owner,
        ),
{
    let list = string_views(settings.ignored_apps@);
    if let Some(e) = exe_name {
        assert forall|i: int|
            0 <= i < settings.ignored_apps@.len() && lowercase(
                #[trigger] settings.ignored_apps@[i]@,
            ) == lowercase(e) implies spec_source_is_ignored(
            settings,
            exe_name,
            full_path,
            is_explicit_owner,
        ) by {
            assert(list[i] == settings.ignored_apps@[i]@);
        }
    }
    if let Some(p) = full_path {
        assert forall|i: int|
            0 <= i < settings.ignored_apps@.len() && lowercase(
                #[trigger] settings.ignored_apps@[i]@,
            ) == lowercase(p) implies spec_source_is_ignored(
            settings,
            exe_name,
            full_path,
            is_explicit_owner,
        ) by {
            assert(list[i] == settings.ignored_apps@[i]@);
        }
    }
    if !(settings.ignore_ghost_clips && !is_explicit_owner) && (forall|i: int|
        0 <= i < settings.ignored_apps@.len() ==> !(exe_name matches Some(e) && lowercase(
            #[trigger] settings.ignored_apps@[i]@,
        ) == lowercase(e)) && !(full_path matches Some(p) && lowercase(settings.ignored_apps@[i]@)
            == lowercase(p))) {
        if let Some(e) = exe_name {
            assert(!listed_ignoring_case(list, e)) by {
                if listed_ignoring_case(list, e) {
                    let i = choose|i: int| 0 <= i < list.len() && lowercase(#[trigger] list[i]) == lowercase(e);
                    assert(list[i] == settings.ignored_apps@[i]@);
                }
            }
        }
        if let Some(p) = full_path {
            assert(!listed_ignoring_case(list, p)) by {
                if listed_ignoring_case(list, p) {
                    let i = choose|i: int| 0 <= i < list.len() && lowercase(#[trigger] list[i]) == lowercase(p);
                    assert(list[i] == settings.ignored_apps@[i]@);
                }
            }
        }
    }
}

pub fn source_is_ignored(
    settings: &AppSettings,
    exe_name: &Option<String>,
    full_path: &Option<String>,
    is_explicit_owner: bool,
) -> (ignored: bool)
    ensures
        ignored == spec_source_is_ignored(
            *settings,
            opt_view(*exe_name),
            opt_view(*full_path),
            is_explicit_owner,
        ),
{
    if settings.ignore_ghost_clips && !is_explicit_owner {
        return true;
    }
    match full_path {
        Some(path) => {
            if is_listed_ignoring_case(&settings.ignored_apps, path) {
                return true;
            }
        },
        None => {},
    }
    match exe_name {
        Some(exe) => is_listed_ignoring_case(&settings.ignored_apps, exe),
        None => false,
    }
}

// ---------------------------------------------------------------------------
// Alternate formats stored with a clip
// ---------------------------------------------------------------------------

/// The JSON array serde_json writes for a list of strings.
pub uninterp spec fn json_string_list(items: Seq<Seq<char>>) -> Seq<u8>;

/// `serde_json::to_vec` on a list of strings. Serialising strings into a
/// `Vec<u8>` cannot fail: neither the `Serialize` impls of `Vec` and `String`
/// nor the in-memory writer report errors. The bytes are named, not spelled out.
#[verifier::external_body]
pub(crate) fn json_encode_strings(items: &Vec<String>) -> (json: Vec<u8>)
    ensures
        json@ == json_string_list(string_views(items@)),
{
    match serde_json::to_vec(items) {
        Ok(bytes) => bytes,
        Err(_) => Vec::new(),
    }
}

pub open spec fn formats_view(f: Seq<(&'static str, Vec<u8>)>) -> Seq<(Seq<char>, Seq<u8>)> {
    f.map_values(|e: (&'static str, Vec<u8>)| (e.0@, e.1@))
}

/// The alternate formats stored with a new or refreshed clip: the file list as
/// JSON whenever the change carried files, and for a text clip the HTML and RTF
/// that came with it, so pasting into a word processor keeps the formatting.
pub open spec fn spec_extra_formats(
    kind: ClipKind,
    files: Seq<Seq<char>>,
    html: Option<Seq<char>>,
    rtf: Option<Seq<u8>>,
) -> Seq<(Seq<char>, Seq<u8>)> {
    let file_part = if files.len() > 0 {
        seq![(FORMAT_FILE@, json_string_list(files))]
    } else {
        Seq::empty()
    };
    let html_part = match html {
        Some(h) => if kind == ClipKind::Text {
            seq![(FORMAT_HTML@, encode_utf8(h))]
        } else {
            Seq::empty()
        },
        None => Seq::empty(),
    };
    let rtf_part = match rtf {
        Some(r) => if kind == ClipKind::Text {
            seq![(FORMAT_RTF@, r)]
        } else {
            Seq::empty()
        },
        None => Seq::empty(),
    };
    file_part + html_part + rtf_part
}

fn push_format(formats: &mut Vec<(&'static str, Vec<u8>)>, name: &'static str, bytes: Vec<u8>)
    ensures
        formats_view(final(formats)@) == formats_view(old(formats)@).push((name@, bytes@)),
{
    let ghost before = formats@;
    formats.push((name, bytes));
    assert(formats_view(formats@) =~= formats_view(before).push((name@, bytes@)));
}

pub fn extra_formats(
    kind: ClipKind,
    files: &Vec<String>,
    html: Option<String>,
    rtf: Option<Vec<u8>>,
) -> (formats: Vec<(&'static str, Vec<u8>)>)
    ensures
        formats_view(formats@) == spec_extra_formats(
            kind,
            string_views(files@),
            opt_view(html),
            opt_bytes_view(rtf),
        ),
{
    let mut formats: Vec<(&'static str, Vec<u8>)> = Vec::new();
    assert(formats_view(formats@) =~= Seq::empty());
    if files.len() > 0 {
        push_format(&mut formats, FORMAT_FILE, json_encode_strings(files));
    }
    let is_text = match kind {
        ClipKind::Text => true,
        _ => false,
    };
    if is_text {
        match html {
            Some(h) => {
                let bytes = string_bytes(&h);
                push_format(&mut formats, FORMAT_HTML, bytes);
            },
            None => {},
        }
        match rtf {
            Some(r) => {
                push_format(&mut formats, FORMAT_RTF, r);
            },
            None => {},
        }
    }
    proof {
        let want = spec_extra_formats(kind, string_views(files@), opt_view(html), opt_bytes_view(rtf));
        assert(formats_view(formats@) =~= want);
    }
    formats
}

// ---------------------------------------------------------------------------
// Storing the change
// ---------------------------------------------------------------------------

/// How a recorded change reaches the database.
#[derive(Debug, Clone, PartialEq, Eq)]
pub enum StoreAction {
    /// The content is already stored under the clip with this uuid: bring it
    /// to the top, undelete it and take the new source. An image also has its
    /// content, preview, metadata and file replaced.
    Refresh { uuid: String, replace_image: bool },
    /// The content is new: insert a clip.
    Insert,
}

/// Decides between refreshing the clip that already has this content and
/// inserting a new one.
pub fn store_action(existing_uuid: Option<String>, kind: ClipKind) -> (action: StoreAction)
    ensures
        match existing_uuid {
            Some(u) => action matches StoreAction::Refresh { uuid, replace_image } && uuid == u
                && replace_image == (kind == ClipKind::Image),
            None => action == StoreAction::Insert,
        },
{
    match existing_uuid {
        Some(uuid) => {
            let replace_image = match kind {
                ClipKind::Image => true,
                _ => false,
            };
            StoreAction::Refresh { uuid, replace_image }
        },
        None => StoreAction::Insert,
    }
}

/// Whether the retention policy runs after storing a change: only when a new
/// clip arrived, not when an existing one was brought back to the top.
pub fn evaluates_retention(action: &StoreAction) -> (runs: bool)
    ensures
        runs == (*action is Insert),
{
    match action {
        StoreAction::Insert => true,
        StoreAction::Refresh { .. } => false,
    }
}

} // verus!
