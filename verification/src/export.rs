//! Folder export and import.
//!
//! The bundle is plain JSON with explicit fields, so a person can read it and
//! edit it before importing. Folders are referenced by name, not by id: ids
//! only mean anything inside the database that produced them. An image clip
//! records the absolute path of its file on the exporting machine and nothing
//! else, so on another machine it arrives as a placeholder.

use vstd::prelude::*;
use vstd::string::*;
use vstd::utf8::*;
use crate::clipboard::{base64_encode, base64_text, opt_view};
use crate::clipboard_formats::{string_from_utf8_lossy, string_views, utf8_lossy, FORMAT_FILE,
    FORMAT_HTML, FORMAT_RTF};
use crate::commands::{stored_html, stored_html_bytes, stored_rtf};
use crate::ingest::{json_encode_strings, json_string_list, opt_bytes_view};
use crate::json_object::{
    empty_json_object, insert_json_bool, insert_json_opt_string, json_object_text,
    json_object_to_string, json_parsed, json_string_literal, parse_json, ParsedJson,
};
use crate::unicode::{str_eq, string_push};
use base64::Engine;

verus! {

/// Bundle format version. Import rejects anything else rather than guessing
/// at an unknown shape.
pub const BUNDLE_VERSION: u32 = 1;

/// Marks a clip whose image could not be restored, so the window can say so
/// instead of showing a silently broken image.
pub const MISSING_IMAGE_KEY: &'static str = "missing_image";

/// The application name a bundle records.
pub const BUNDLE_APP: &'static str = "PastePaw";

/// A set of folders and the clips filed in them.
#[derive(Debug)]
pub struct Bundle {
    pub version: u32,
    pub app: String,
    pub exported_at: String,
    pub folders: Vec<BundleFolder>,
    pub clips: Vec<BundleClip>,
}

#[derive(Debug)]
pub struct BundleFolder {
    pub name: String,
    pub icon: Option<String>,
    pub color: Option<String>,
    pub is_system: bool,
}

#[derive(Debug)]
pub struct BundleClip {
    pub clip_type: String,
    /// Text as stored. For a `file` clip this is the newline joined path list,
    /// and for an `image` clip it is empty.
    pub content: String,
    pub text_preview: String,
    /// Used to recognise a clip that is already present, which is what makes
    /// importing the same bundle twice a no-op.
    pub content_hash: String,
    /// Folder this clip belongs to, or `None` for plain history.
    pub folder: Option<String>,
    pub source_app: Option<String>,
    pub metadata: Option<String>,
    pub created_at: String,
    /// HTML fragment, as text.
    pub html: Option<String>,
    /// RTF as base64, because RTF bytes are not valid UTF-8 in general.
    pub rtf_base64: Option<String>,
    /// Absolute path on the machine that produced the bundle.
    pub image_path: Option<String>,
    /// A name the user gave this clip. Bundles written before it existed lack
    /// the field, which then reads as `None`.
    pub title: Option<String>,
}

/// What an import did.
#[derive(Debug, PartialEq, Eq, Structural)]
pub struct ImportReport {
    pub folders_created: u64,
    pub folders_reused: u64,
    pub clips_imported: u64,
    /// Clips whose content hash was already present, and which were therefore
    /// left alone. A second import of the same bundle reports everything here.
    pub clips_skipped: u64,
    pub images_restored: u64,
    pub images_missing: u64,
}

impl Default for ImportReport {
    fn default() -> (r: Self)
        ensures
            r.folders_created == 0,
            r.folders_reused == 0,
            r.clips_imported == 0,
            r.clips_skipped == 0,
            r.images_restored == 0,
            r.images_missing == 0,
    {
        ImportReport {
            folders_created: 0,
            folders_reused: 0,
            clips_imported: 0,
            clips_skipped: 0,
            images_restored: 0,
            images_missing: 0,
        }
    }
}

/// A dated default file name for the save dialog, so repeated exports do not
/// silently overwrite each other. `date` is the day as `YYYY-MM-DD`.
pub fn suggested_file_name(date: &str) -> (name: String)
    ensures
        name@ == "pastepaw-folders-"@ + date@ + ".json"@,
{
    let mut name = "pastepaw-folders-".to_owned();
    name.append(date);
    name.append(".json");
    name
}

// ---------------------------------------------------------------------------
// Export
// ---------------------------------------------------------------------------

/// A folder as a bundle records it.
pub fn bundle_folder(name: String, icon: Option<String>, color: Option<String>, is_system: i64) -> (folder: BundleFolder)
    ensures
        folder.name == name,
        folder.icon == icon,
        folder.color == color,
        folder.is_system == (is_system != 0),
{
    BundleFolder { name, icon, color, is_system: is_system != 0 }
}

/// What export reads of a folder clip.
pub struct ExportClipRow {
    pub uuid: String,
    pub clip_type: String,
    pub content: Vec<u8>,
    pub text_preview: String,
    pub content_hash: String,
    pub source_app: Option<String>,
    pub metadata: Option<String>,
    pub title: Option<String>,
    /// RFC 3339.
    pub created_at: String,
    pub folder_name: Option<String>,
    pub image_path: Option<String>,
}

pub open spec fn format_rows_view(rows: Seq<(String, String, Vec<u8>)>) -> Seq<
    (Seq<char>, Seq<char>, Seq<u8>),
> {
    rows.map_values(|r: (String, String, Vec<u8>)| (r.0@, r.1@, r.2@))
}

/// The `(format, content)` rows stored for one clip, in order.
pub open spec fn formats_of(rows: Seq<(Seq<char>, Seq<char>, Seq<u8>)>, uuid: Seq<char>) -> Seq<
    (Seq<char>, Seq<u8>),
>
    decreases rows.len(),
{
    if rows.len() == 0 {
        Seq::empty()
    } else if rows.last().0 == uuid {
        formats_of(rows.drop_last(), uuid).push((rows.last().1, rows.last().2))
    } else {
        formats_of(rows.drop_last(), uuid)
    }
}

pub open spec fn opt_non_empty(s: Option<Seq<char>>) -> Option<Seq<char>> {
    match s {
        Some(p) => if p.len() > 0 {
            Some(p)
        } else {
            None
        },
        None => None,
    }
}

/// `c` records the folder clip `row` with its stored formats `formats`: the
/// content decoded leniently, the HTML as text, the RTF as base64 and the image
/// path only when there is one.
pub open spec fn exports_clip(
    c: BundleClip,
    row: ExportClipRow,
    formats: Seq<(Seq<char>, Seq<u8>)>,
) -> bool {
    &&& c.clip_type@ == row.clip_type@
    &&& c.content@ == utf8_lossy(row.content@)
    &&& c.text_preview@ == row.text_preview@
    &&& c.content_hash@ == row.content_hash@
    &&& opt_view(c.folder) == opt_view(row.folder_name)
    &&& opt_view(c.source_app) == opt_view(row.source_app)
    &&& opt_view(c.metadata) == opt_view(row.metadata)
    &&& c.created_at@ == row.created_at@
    &&& opt_view(c.html) == stored_html(formats)
    &&& opt_view(c.rtf_base64) == match stored_rtf(formats) {
        Some(r) => Some(base64_text(r)),
        None => None,
    }
    &&& opt_view(c.image_path) == opt_non_empty(opt_view(row.image_path))
    &&& opt_view(c.title) == opt_view(row.title)
    &&& valid_utf8(row.content@) ==> c.content@ == decode_utf8(row.content@)
    &&& (stored_html_bytes(formats) is None <==> c.html is None)
    &&& stored_html_bytes(formats) matches Some(b) ==> (valid_utf8(b) ==> opt_view(c.html) == Some(
        decode_utf8(b),
    ))
}

fn clone_opt(s: &Option<String>) -> (c: Option<String>)
    ensures
        opt_view(c) == opt_view(*s),
{
    match s {
        Some(t) => Some(t.clone()),
        None => None,
    }
}

/// The bundle entry for a folder clip, given every stored format row of the
/// exported clips as `(clip_uuid, format, content)`.
pub fn export_clip(
    row: &ExportClipRow,
    format_rows: &Vec<(String, String, Vec<u8>)>,
) -> (clip: BundleClip)
    ensures
        exports_clip(clip, *row, formats_of(format_rows_view(format_rows@), row.uuid@)),
{
    let ghost all = format_rows_view(format_rows@);
    let mut html: Option<String> = None;
    let mut rtf: Option<Vec<u8>> = None;
    let mut i: usize = 0;
    proof {
        reveal_strlit("html");
        reveal_strlit("rtf");
        assert(FORMAT_HTML@[0] == 'h');
        assert(FORMAT_RTF@[0] == 'r');
    }
    assert(all.take(0) =~= Seq::<(Seq<char>, Seq<char>, Seq<u8>)>::empty());
    while i < format_rows.len()
        invariant
            i <= format_rows@.len(),
            all == format_rows_view(format_rows@),
            FORMAT_HTML@ != FORMAT_RTF@,
            opt_view(html) == stored_html(formats_of(all.take(i as int), row.uuid@)),
            opt_bytes_view(rtf) == stored_rtf(formats_of(all.take(i as int), row.uuid@)),
            (stored_html_bytes(formats_of(all.take(i as int), row.uuid@)) is None <==> html is None),
            stored_html_bytes(formats_of(all.take(i as int), row.uuid@)) matches Some(b) ==> (
            valid_utf8(b) ==> opt_view(html) == Some(decode_utf8(b))),
        decreases format_rows.len() - i,
    {
        let (uuid, format, content) = &format_rows[i];
        proof {
            assert(all.take(i + 1).drop_last() =~= all.take(i as int));
            assert(all.take(i + 1).last() == (uuid@, format@, content@));
            let prev = formats_of(all.take(i as int), row.uuid@);
            assert(prev.push((format@, content@)).drop_last() =~= prev);
        }
        if *uuid == row.uuid {
            if str_eq(format.as_str(), FORMAT_HTML) {
                html = Some(string_from_utf8_lossy(content.as_slice()));
            } else if str_eq(format.as_str(), FORMAT_RTF) {
                rtf = Some(content.clone());
            }
        }
        i = i + 1;
    }
    assert(all.take(format_rows@.len() as int) =~= all);
    let rtf_base64 = match &rtf {
        Some(bytes) => Some(base64_encode(bytes.as_slice())),
        None => None,
    };
    let image_path = match &row.image_path {
        Some(p) => if p.as_str().is_empty() {
            None
        } else {
            Some(p.clone())
        },
        None => None,
    };
    BundleClip {
        clip_type: row.clip_type.clone(),
        content: string_from_utf8_lossy(row.content.as_slice()),
        text_preview: row.text_preview.clone(),
        content_hash: row.content_hash.clone(),
        folder: clone_opt(&row.folder_name),
        source_app: clone_opt(&row.source_app),
        metadata: clone_opt(&row.metadata),
        created_at: row.created_at.clone(),
        html,
        rtf_base64,
        image_path,
        title: clone_opt(&row.title),
    }
}

/// A bundle of folders and their clips, in the current format.
pub fn make_bundle(exported_at: String, folders: Vec<BundleFolder>, clips: Vec<BundleClip>) -> (bundle: Bundle)
    ensures
        bundle.version == BUNDLE_VERSION,
        bundle.app@ == BUNDLE_APP@,
        bundle.exported_at == exported_at,
        bundle.folders == folders,
        bundle.clips == clips,
{
    Bundle { version: BUNDLE_VERSION, app: BUNDLE_APP.to_owned(), exported_at, folders, clips }
}

// ---------------------------------------------------------------------------
// Import
// ---------------------------------------------------------------------------

/// What happens to one folder of a bundle.
#[derive(Debug, Clone, Copy, PartialEq, Eq, Structural)]
pub enum FolderStep {
    /// A folder of that name already exists, or was met earlier in the bundle:
    /// its clips are merged into it.
    Reuse,
    /// The folder is created.
    Create,
}

/// What happens to one clip of a bundle.
#[derive(Debug, Clone, Copy, PartialEq, Eq, Structural)]
pub enum ClipStep {
    /// A clip with that content hash is already present: it is left alone.
    Skip,
    /// The clip is inserted.
    Import,
}

/// The names of a bundle's folders, in order.
pub open spec fn folder_names(folders: Seq<BundleFolder>) -> Seq<Seq<char>> {
    folders.map_values(|f: BundleFolder| f.name@)
}

/// The content hashes of a bundle's clips, in order.
pub open spec fn clip_hashes(clips: Seq<BundleClip>) -> Seq<Seq<char>> {
    clips.map_values(|c: BundleClip| c.content_hash@)
}

/// Folder `i` is reused when its name exists already or came earlier in the
/// bundle; otherwise it is created.
pub open spec fn folder_step(existing: Seq<Seq<char>>, names: Seq<Seq<char>>, i: int) -> FolderStep {
    if existing.contains(names[i]) || names.take(i).contains(names[i]) {
        FolderStep::Reuse
    } else {
        FolderStep::Create
    }
}

/// Clip `i` is skipped when its hash is stored already or came earlier in the
/// bundle (and is then stored by the time it is met); otherwise it is imported.
pub open spec fn clip_step(existing: Seq<Seq<char>>, hashes: Seq<Seq<char>>, i: int) -> ClipStep {
    if existing.contains(hashes[i]) || hashes.take(i).contains(hashes[i]) {
        ClipStep::Skip
    } else {
        ClipStep::Import
    }
}

/// The folder an imported clip is filed under: the one it names, when that is
/// one of the bundle's folders; otherwise plain history.
pub open spec fn filed_under(folder: Option<Seq<char>>, names: Seq<Seq<char>>) -> Option<Seq<char>> {
    match folder {
        Some(n) => if names.contains(n) {
            Some(n)
        } else {
            None
        },
        None => None,
    }
}

/// The message for a bundle of another version.
pub open spec fn unsupported_version_message(version: u32) -> Seq<char> {
    "bundle version "@ + crate::clipboard_formats::decimal_chars(version as nat)
        + " is not supported (this build reads version 1)"@
}

/// What an import of a bundle does, folder by folder and clip by clip.
pub struct ImportPlan {
    pub folders: Vec<FolderStep>,
    pub clips: Vec<ClipStep>,
    /// For each imported clip, the name of the folder it goes into.
    pub clip_folders: Vec<Option<String>>,
}

/// `plan` is what importing `bundle` into a database holding the folders
/// `existing_folders` and the content hashes `existing_hashes` does.
pub open spec fn plans_import(
    plan: ImportPlan,
    bundle: Bundle,
    existing_folders: Seq<Seq<char>>,
    existing_hashes: Seq<Seq<char>>,
) -> bool {
    let names = folder_names(bundle.folders@);
    let hashes = clip_hashes(bundle.clips@);
    &&& plan.folders@.len() == names.len()
    &&& forall|i: int|
        0 <= i < names.len() ==> #[trigger] plan.folders@[i] == folder_step(
            existing_folders,
            names,
            i,
        )
    &&& plan.clips@.len() == hashes.len()
    &&& plan.clip_folders@.len() == hashes.len()
    &&& forall|i: int|
        0 <= i < hashes.len() ==> #[trigger] plan.clips@[i] == clip_step(existing_hashes, hashes, i)
    &&& forall|i: int|
        0 <= i < hashes.len() ==> opt_view(#[trigger] plan.clip_folders@[i]) == if plan.clips@[i]
            == ClipStep::Import {
            filed_under(opt_view(bundle.clips@[i].folder), names)
        } else {
            None
        }
}

fn contains_string(v: &Vec<String>, s: &String) -> (found: bool)
    ensures
        found == string_views(v@).contains(s@),
{
    let mut i: usize = 0;
    while i < v.len()
        invariant
            i <= v@.len(),
            forall|k: int| 0 <= k < i ==> v@[k]@ != s@,
        decreases v.len() - i,
    {
        if v[i] == *s {
            assert(string_views(v@)[i as int] == s@);
            return true;
        }
        i = i + 1;
    }
    assert forall|k: int| 0 <= k < string_views(v@).len() implies string_views(v@)[k] != s@ by {
        assert(string_views(v@)[k] == v@[k]@);
    }
    false
}

fn folder_named_before(folders: &Vec<BundleFolder>, n: usize, name: &String) -> (found: bool)
    requires
        n <= folders@.len(),
    ensures
        found == folder_names(folders@).take(n as int).contains(name@),
{
    let ghost names = folder_names(folders@).take(n as int);
    let mut i: usize = 0;
    while i < n
        invariant
            i <= n <= folders@.len(),
            names == folder_names(folders@).take(n as int),
            forall|k: int| 0 <= k < i ==> folders@[k].name@ != name@,
        decreases n - i,
    {
        if folders[i].name == *name {
            assert(names[i as int] == name@);
            return true;
        }
        i = i + 1;
    }
    assert forall|k: int| 0 <= k < names.len() implies names[k] != name@ by {
        assert(names[k] == folders@[k].name@);
    }
    false
}

fn hash_before(clips: &Vec<BundleClip>, n: usize, hash: &String) -> (found: bool)
    requires
        n <= clips@.len(),
    ensures
        found == clip_hashes(clips@).take(n as int).contains(hash@),
{
    let ghost hashes = clip_hashes(clips@).take(n as int);
    let mut i: usize = 0;
    while i < n
        invariant
            i <= n <= clips@.len(),
            hashes == clip_hashes(clips@).take(n as int),
            forall|k: int| 0 <= k < i ==> clips@[k].content_hash@ != hash@,
        decreases n - i,
    {
        if clips[i].content_hash == *hash {
            assert(hashes[i as int] == hash@);
            return true;
        }
        i = i + 1;
    }
    assert forall|k: int| 0 <= k < hashes.len() implies hashes[k] != hash@ by {
        assert(hashes[k] == clips@[k].content_hash@);
    }
    false
}

/// Decides what importing a bundle does, given the folder names and content
/// hashes already stored. Folders are matched by name and merged rather than
/// duplicated, and a clip whose content hash is already present is left
/// alone: together these make importing the same bundle twice the same as
/// importing it once. A bundle of any version other than this build's is
/// rejected before anything is touched.
pub fn plan_import(
    bundle: &Bundle,
    existing_folders: &Vec<String>,
    existing_hashes: &Vec<String>,
) -> (r: Result<ImportPlan, String>)
    ensures
        bundle.version != BUNDLE_VERSION ==> (r matches Err(e) && e@
            == unsupported_version_message(bundle.version)),
        bundle.version == BUNDLE_VERSION ==> (r matches Ok(plan) && plans_import(
            plan,
            *bundle,
            string_views(existing_folders@),
            string_views(existing_hashes@),
        )),
{
    if bundle.version != BUNDLE_VERSION {
        let mut message = "bundle version ".to_owned();
        crate::clipboard_formats::push_decimal_chars(&mut message, bundle.version as usize);
        message.append(" is not supported (this build reads version 1)");
        return Err(message);
    }
    let ghost names = folder_names(bundle.folders@);
    let ghost hashes = clip_hashes(bundle.clips@);
    let ghost ef = string_views(existing_folders@);
    let ghost eh = string_views(existing_hashes@);
    let mut folders: Vec<FolderStep> = Vec::new();
    let mut i: usize = 0;
    while i < bundle.folders.len()
        invariant
            i <= bundle.folders@.len(),
            names == folder_names(bundle.folders@),
            ef == string_views(existing_folders@),
            folders@.len() == i,
            forall|k: int| 0 <= k < i ==> #[trigger] folders@[k] == folder_step(ef, names, k),
        decreases bundle.folders.len() - i,
    {
        let name = &bundle.folders[i].name;
        assert(names[i as int] == name@);
        let known = contains_string(existing_folders, name) || folder_named_before(
            &bundle.folders,
            i,
            name,
        );
        if known {
            folders.push(FolderStep::Reuse);
        } else {
            folders.push(FolderStep::Create);
        }
        i = i + 1;
    }
    let mut clips: Vec<ClipStep> = Vec::new();
    let mut clip_folders: Vec<Option<String>> = Vec::new();
    let mut j: usize = 0;
    while j < bundle.clips.len()
        invariant
            j <= bundle.clips@.len(),
            names == folder_names(bundle.folders@),
            hashes == clip_hashes(bundle.clips@),
            eh == string_views(existing_hashes@),
            clips@.len() == j,
            clip_folders@.len() == j,
            forall|k: int| 0 <= k < j ==> #[trigger] clips@[k] == clip_step(eh, hashes, k),
            forall|k: int|
                0 <= k < j ==> opt_view(#[trigger] clip_folders@[k]) == if clips@[k]
                    == ClipStep::Import {
                    filed_under(opt_view(bundle.clips@[k].folder), names)
                } else {
                    None
                },
        decreases bundle.clips.len() - j,
    {
        let clip = &bundle.clips[j];
        assert(hashes[j as int] == clip.content_hash@);
        let present = contains_string(existing_hashes, &clip.content_hash) || hash_before(
            &bundle.clips,
            j,
            &clip.content_hash,
        );
        if present {
            clips.push(ClipStep::Skip);
            clip_folders.push(None);
        } else {
            clips.push(ClipStep::Import);
            let folder = match &clip.folder {
                Some(n) => if folder_named_before(
                    &bundle.folders,
                    bundle.folders.len(),
                    n,
                ) {
                    Some(n.clone())
                } else {
                    None
                },
                None => None,
            };
            proof {
                assert(names.take(names.len() as int) =~= names);
            }
            clip_folders.push(folder);
        }
        j = j + 1;
    }
    Ok(ImportPlan { folders, clips, clip_folders })
}

// ---------------------------------------------------------------------------
// What import promises
// ---------------------------------------------------------------------------

/// Item `i` is already known: stored before, or met earlier in the list.
pub open spec fn is_known(existing: Seq<Seq<char>>, items: Seq<Seq<char>>, i: int) -> bool {
    existing.contains(items[i]) || items.take(i).contains(items[i])
}

/// The items among the first `n` that are not known when met, in order: the
/// folders an import creates, or the clips it inserts.
pub open spec fn new_items(existing: Seq<Seq<char>>, items: Seq<Seq<char>>, n: int) -> Seq<
    Seq<char>,
>
    decreases n,
{
    if n <= 0 || n > items.len() {
        Seq::empty()
    } else if !is_known(existing, items, n - 1) {
        new_items(existing, items, n - 1).push(items[n - 1])
    } else {
        new_items(existing, items, n - 1)
    }
}

proof fn lemma_push_keeps(s: Seq<Seq<char>>, x: Seq<char>, y: Seq<char>)
    requires
        s.contains(y),
    ensures
        s.push(x).contains(y),
{
    let j = choose|j: int| 0 <= j < s.len() && #[trigger] s[j] == y;
    assert(s.push(x)[j] == y);
}

proof fn lemma_push_drops(s: Seq<Seq<char>>, x: Seq<char>, y: Seq<char>)
    requires
        s.push(x).contains(y),
        x != y,
    ensures
        s.contains(y),
{
    let j = choose|j: int| 0 <= j < s.push(x).len() && #[trigger] s.push(x)[j] == y;
    assert(j < s.len());
    assert(s[j] == y);
}

proof fn lemma_new_items_grow(existing: Seq<Seq<char>>, items: Seq<Seq<char>>, m: int, n: int, y: Seq<char>)
    requires
        0 <= m <= n <= items.len(),
        new_items(existing, items, m).contains(y),
    ensures
        new_items(existing, items, n).contains(y),
    decreases n - m,
{
    if m < n {
        lemma_new_items_grow(existing, items, m, n - 1, y);
        if !is_known(existing, items, n - 1) {
            lemma_push_keeps(new_items(existing, items, n - 1), items[n - 1], y);
        }
    }
}

/// Every item among the first `n` is stored before or is one of the new items.
proof fn lemma_items_covered(existing: Seq<Seq<char>>, items: Seq<Seq<char>>, n: int, i: int)
    requires
        0 <= i < n <= items.len(),
    ensures
        existing.contains(items[i]) || new_items(existing, items, n).contains(items[i]),
    decreases i,
{
    if !is_known(existing, items, i) {
        assert(new_items(existing, items, i + 1) == new_items(existing, items, i).push(items[i]));
        assert(new_items(existing, items, i + 1)[new_items(existing, items, i).len() as int] == items[i]);
        lemma_new_items_grow(existing, items, i + 1, n, items[i]);
    } else if !existing.contains(items[i]) {
        let j = choose|j: int| 0 <= j < items.take(i).len() && #[trigger] items.take(i)[j] == items[i];
        assert(items[j] == items[i]);
        lemma_items_covered(existing, items, n, j);
    }
}

proof fn lemma_new_items_are_from_prefix(existing: Seq<Seq<char>>, items: Seq<Seq<char>>, n: int, y: Seq<char>)
    requires
        0 <= n <= items.len(),
        new_items(existing, items, n).contains(y),
    ensures
        items.take(n).contains(y),
        !existing.contains(y),
    decreases n,
{
    if n > 0 {
        let prev = new_items(existing, items, n - 1);
        if !is_known(existing, items, n - 1) && y == items[n - 1] {
            assert(items.take(n)[n - 1] == y);
        } else {
            if !is_known(existing, items, n - 1) {
                lemma_push_drops(prev, items[n - 1], y);
            }
            lemma_new_items_are_from_prefix(existing, items, n - 1, y);
            let k = choose|k: int| 0 <= k < items.take(n - 1).len() && #[trigger] items.take(n - 1)[k] == y;
            assert(items.take(n)[k] == y);
        }
    }
}

proof fn lemma_new_items_distinct(existing: Seq<Seq<char>>, items: Seq<Seq<char>>, n: int)
    requires
        0 <= n <= items.len(),
    ensures
        new_items(existing, items, n).no_duplicates(),
    decreases n,
{
    if n > 0 {
        lemma_new_items_distinct(existing, items, n - 1);
        let prev = new_items(existing, items, n - 1);
        if !is_known(existing, items, n - 1) {
            if prev.contains(items[n - 1]) {
                lemma_new_items_are_from_prefix(existing, items, n - 1, items[n - 1]);
            }
            let next = prev.push(items[n - 1]);
            assert forall|a: int, b: int| 0 <= a < b < next.len() implies #[trigger] next[a] != #[trigger] next[b] by {
                if b == prev.len() {
                    assert(prev[a] == next[a]);
                } else {
                    assert(prev[a] == next[a]);
                    assert(prev[b] == next[b]);
                }
            }
        }
    }
}

/// Law: an imported clip goes into the folder its bundle entry names, when
/// that is any one of the bundle's folders; a clip naming no folder of the
/// bundle, and a clip that is skipped, goes into none.
pub proof fn lemma_clips_are_filed_under_their_folder(
    plan: ImportPlan,
    bundle: Bundle,
    existing_folders: Seq<Seq<char>>,
    existing_hashes: Seq<Seq<char>>,
)
    requires
        plans_import(plan, bundle, existing_folders, existing_hashes),
    ensures
        forall|i: int, j: int|
            #![trigger plan.clip_folders@[i], bundle.folders@[j]]
            0 <= i < bundle.clips@.len() && 0 <= j < bundle.folders@.len() && plan.clips@[i]
                == ClipStep::Import && opt_view(bundle.clips@[i].folder) == Some(
                bundle.folders@[j].name@,
            ) ==> opt_view(plan.clip_folders@[i]) == Some(bundle.folders@[j].name@),
        forall|i: int|
            0 <= i < bundle.clips@.len() && (plan.clips@[i] == ClipStep::Skip || bundle.clips@[i].folder
                is None || forall|j: int|
                0 <= j < bundle.folders@.len() ==> opt_view(bundle.clips@[i].folder) != Some(
                    #[trigger] bundle.folders@[j].name@,
                )) ==> #[trigger] plan.clip_folders@[i] is None,
{
    let names = folder_names(bundle.folders@);
    assert forall|i: int, j: int|
        #![trigger plan.clip_folders@[i], bundle.folders@[j]]
        0 <= i < bundle.clips@.len() && 0 <= j < bundle.folders@.len() && plan.clips@[i]
            == ClipStep::Import && opt_view(bundle.clips@[i].folder) == Some(
            bundle.folders@[j].name@,
        ) implies opt_view(plan.clip_folders@[i]) == Some(bundle.folders@[j].name@) by {
        assert(names[j] == bundle.folders@[j].name@);
        assert(names.contains(bundle.folders@[j].name@));
    }
    assert forall|i: int|
        0 <= i < bundle.clips@.len() && (plan.clips@[i] == ClipStep::Skip || bundle.clips@[i].folder
            is None || forall|j: int|
            0 <= j < bundle.folders@.len() ==> opt_view(bundle.clips@[i].folder) != Some(
                #[trigger] bundle.folders@[j].name@,
            )) implies #[trigger] plan.clip_folders@[i] is None by {
        assert(opt_view(plan.clip_folders@[i]) is None);
        if plan.clips@[i] == ClipStep::Import {
            if let Some(n) = opt_view(bundle.clips@[i].folder) {
                if names.contains(n) {
                    let j = choose|j: int| 0 <= j < names.len() && names[j] == n;
                    assert(names[j] == bundle.folders@[j].name@);
                }
            }
        }
    }
}

/// A bundle exported from one database and imported into an empty one brings
/// everything across: with folder names and content hashes distinct (as the
/// database keeps them), every folder is created, every clip is imported, and
/// each clip is filed under the folder it was exported from.
pub proof fn lemma_export_then_import_into_empty(plan: ImportPlan, bundle: Bundle)
    requires
        plans_import(plan, bundle, Seq::empty(), Seq::empty()),
        folder_names(bundle.folders@).no_duplicates(),
        clip_hashes(bundle.clips@).no_duplicates(),
    ensures
        forall|i: int| 0 <= i < plan.folders@.len() ==> #[trigger] plan.folders@[i] == FolderStep::Create,
        forall|i: int| 0 <= i < plan.clips@.len() ==> #[trigger] plan.clips@[i] == ClipStep::Import,
        forall|i: int|
            0 <= i < plan.clip_folders@.len() ==> opt_view(#[trigger] plan.clip_folders@[i])
                == filed_under(opt_view(bundle.clips@[i].folder), folder_names(bundle.folders@)),
{
    let names = folder_names(bundle.folders@);
    let hashes = clip_hashes(bundle.clips@);
    assert forall|i: int| 0 <= i < plan.folders@.len() implies #[trigger] plan.folders@[i]
        == FolderStep::Create by {
        assert(plan.folders@[i] == folder_step(Seq::empty(), names, i));
        if names.take(i).contains(names[i]) {
            let j = choose|j: int| 0 <= j < names.take(i).len() && names.take(i)[j] == names[i];
            assert(names[j] == names[i]);
        }
    }
    assert forall|i: int| 0 <= i < plan.clips@.len() implies #[trigger] plan.clips@[i]
        == ClipStep::Import by {
        assert(plan.clips@[i] == clip_step(Seq::empty(), hashes, i));
        if hashes.take(i).contains(hashes[i]) {
            let j = choose|j: int| 0 <= j < hashes.take(i).len() && hashes.take(i)[j] == hashes[i];
            assert(hashes[j] == hashes[i]);
        }
    }
}

/// An exported clip comes back as it left: its text is written back as the
/// same bytes whenever those were valid UTF-8, and HTML stored with it as
/// valid UTF-8 is stored again, byte for byte.
pub proof fn lemma_exported_clip_imports_back(
    c: BundleClip,
    row: ExportClipRow,
    formats: Seq<(Seq<char>, Seq<u8>)>,
)
    requires
        exports_clip(c, row, formats),
    ensures
        valid_utf8(row.content@) ==> encode_utf8(c.content@) == row.content@,
        stored_html_bytes(formats) matches Some(b) ==> (valid_utf8(b)
            ==> spec_stored_formats_for(c).contains((FORMAT_HTML@, b))),
{
    if valid_utf8(row.content@) {
        decode_utf8_encode_utf8(row.content@);
    }
    if let Some(b) = stored_html_bytes(formats) {
        if valid_utf8(b) {
            decode_utf8_encode_utf8(b);
            let paths = non_empty_pieces(lines_of(c.content@));
            let file_part = if c.clip_type@ == "file"@ && paths.len() > 0 {
                seq![(FORMAT_FILE@, json_string_list(paths))]
            } else {
                Seq::empty()
            };
            let all = spec_stored_formats_for(c);
            assert(all[file_part.len() as int] == (FORMAT_HTML@, b));
        }
    }
}

/// Folders are matched by name and merged, not duplicated: the folders an
/// import creates have names that did not exist before, and no name twice.
pub proof fn lemma_import_merges_folders_by_name(existing: Seq<Seq<char>>, names: Seq<Seq<char>>)
    ensures
        forall|i: int|
            0 <= i < names.len() && folder_step(existing, names, i) == FolderStep::Create
                ==> !(#[trigger] existing.contains(names[i])),
        new_items(existing, names, names.len() as int).no_duplicates(),
        forall|y: Seq<char>|
            #[trigger] new_items(existing, names, names.len() as int).contains(y)
                ==> !existing.contains(y),
{
    lemma_new_items_distinct(existing, names, names.len() as int);
    assert forall|y: Seq<char>| #[trigger] new_items(existing, names, names.len() as int).contains(y) implies !existing.contains(y) by {
        lemma_new_items_are_from_prefix(existing, names, names.len() as int, y);
    }
}

/// Importing the same bundle twice changes nothing the second time: once the
/// folders the first import created and the clips it inserted are stored,
/// every folder of the bundle is reused and every clip is skipped.
pub proof fn lemma_importing_twice_changes_nothing(
    existing_folders: Seq<Seq<char>>,
    names: Seq<Seq<char>>,
    existing_hashes: Seq<Seq<char>>,
    hashes: Seq<Seq<char>>,
)
    ensures
        forall|i: int|
            0 <= i < names.len() ==> #[trigger] folder_step(
                existing_folders + new_items(existing_folders, names, names.len() as int),
                names,
                i,
            ) == FolderStep::Reuse,
        forall|i: int|
            0 <= i < hashes.len() ==> #[trigger] clip_step(
                existing_hashes + new_items(existing_hashes, hashes, hashes.len() as int),
                hashes,
                i,
            ) == ClipStep::Skip,
{
    let folders_after = existing_folders + new_items(existing_folders, names, names.len() as int);
    assert forall|i: int| 0 <= i < names.len() implies #[trigger] folder_step(folders_after, names, i)
        == FolderStep::Reuse by {
        lemma_items_covered(existing_folders, names, names.len() as int, i);
        let created = new_items(existing_folders, names, names.len() as int);
        if existing_folders.contains(names[i]) {
            let j = choose|j: int| 0 <= j < existing_folders.len() && #[trigger] existing_folders[j] == names[i];
            assert(folders_after[j] == names[i]);
        } else {
            let j = choose|j: int| 0 <= j < created.len() && #[trigger] created[j] == names[i];
            assert(folders_after[existing_folders.len() + j] == names[i]);
        }
    }
    let hashes_after = existing_hashes + new_items(existing_hashes, hashes, hashes.len() as int);
    assert forall|i: int| 0 <= i < hashes.len() implies #[trigger] clip_step(hashes_after, hashes, i)
        == ClipStep::Skip by {
        lemma_items_covered(existing_hashes, hashes, hashes.len() as int, i);
        let inserted = new_items(existing_hashes, hashes, hashes.len() as int);
        if existing_hashes.contains(hashes[i]) {
            let j = choose|j: int| 0 <= j < existing_hashes.len() && #[trigger] existing_hashes[j] == hashes[i];
            assert(hashes_after[j] == hashes[i]);
        } else {
            let j = choose|j: int| 0 <= j < inserted.len() && #[trigger] inserted[j] == hashes[i];
            assert(hashes_after[existing_hashes.len() + j] == hashes[i]);
        }
    }
}

// ---------------------------------------------------------------------------
// Applying an import
// ---------------------------------------------------------------------------

pub open spec fn count_folder_steps(steps: Seq<FolderStep>, which: FolderStep) -> nat
    decreases steps.len(),
{
    if steps.len() == 0 {
        0
    } else {
        count_folder_steps(steps.drop_last(), which) + if steps.last() == which {
            1nat
        } else {
            0nat
        }
    }
}

pub open spec fn count_clip_steps(steps: Seq<ClipStep>, which: ClipStep) -> nat
    decreases steps.len(),
{
    if steps.len() == 0 {
        0
    } else {
        count_clip_steps(steps.drop_last(), which) + if steps.last() == which {
            1nat
        } else {
            0nat
        }
    }
}

/// What became of an imported clip's image.
#[derive(Debug, Clone, Copy, PartialEq, Eq, Structural)]
pub enum ImageOutcome {
    /// The clip is not an image.
    NotAnImage,
    /// The image file was read and is stored with the clip.
    Restored,
    /// The image file could not be read: the clip is still imported, without
    /// an image row, and its metadata marks the image as missing.
    Missing,
}

/// An image clip is restored when its file was read and missing otherwise.
pub open spec fn image_outcome_of(clip_type: Seq<char>, image_read: bool) -> ImageOutcome {
    if clip_type != "image"@ {
        ImageOutcome::NotAnImage
    } else if image_read {
        ImageOutcome::Restored
    } else {
        ImageOutcome::Missing
    }
}

/// What becomes of a clip's image, given whether the file its bundle entry
/// names could be read.
pub fn image_outcome(clip: &BundleClip, image_read: bool) -> (outcome: ImageOutcome)
    ensures
        outcome == image_outcome_of(clip.clip_type@, image_read),
{
    if !str_eq(clip.clip_type.as_str(), "image") {
        ImageOutcome::NotAnImage
    } else if image_read {
        ImageOutcome::Restored
    } else {
        ImageOutcome::Missing
    }
}

/// How many of the outcomes are `which`.
pub open spec fn count_outcomes(outcomes: Seq<ImageOutcome>, which: ImageOutcome) -> nat
    decreases outcomes.len(),
{
    if outcomes.len() == 0 {
        0
    } else {
        count_outcomes(outcomes.drop_last(), which) + if outcomes.last() == which {
            1nat
        } else {
            0nat
        }
    }
}

fn count_image_outcomes(outcomes: &Vec<ImageOutcome>) -> (counts: (u64, u64))
    ensures
        counts.0 == count_outcomes(outcomes@, ImageOutcome::Restored),
        counts.1 == count_outcomes(outcomes@, ImageOutcome::Missing),
{
    let mut restored: u64 = 0;
    let mut missing: u64 = 0;
    let mut i: usize = 0;
    assert(outcomes@.take(0) =~= Seq::<ImageOutcome>::empty());
    while i < outcomes.len()
        invariant
            i <= outcomes@.len(),
            restored == count_outcomes(outcomes@.take(i as int), ImageOutcome::Restored),
            missing == count_outcomes(outcomes@.take(i as int), ImageOutcome::Missing),
            restored + missing <= i,
        decreases outcomes.len() - i,
    {
        proof {
            assert(outcomes@.take(i + 1).drop_last() =~= outcomes@.take(i as int));
        }
        match outcomes[i] {
            ImageOutcome::Restored => restored = restored + 1,
            ImageOutcome::Missing => missing = missing + 1,
            ImageOutcome::NotAnImage => {},
        }
        i = i + 1;
    }
    assert(outcomes@.take(outcomes@.len() as int) =~= outcomes@);
    (restored, missing)
}

/// The report of an import that carried out `plan`; `images` holds what
/// became of the image of each clip it inserted.
pub fn import_report(plan: &ImportPlan, images: &Vec<ImageOutcome>) -> (report: ImportReport)
    ensures
        report.folders_created == count_folder_steps(plan.folders@, FolderStep::Create),
        report.folders_reused == count_folder_steps(plan.folders@, FolderStep::Reuse),
        report.clips_imported == count_clip_steps(plan.clips@, ClipStep::Import),
        report.clips_skipped == count_clip_steps(plan.clips@, ClipStep::Skip),
        report.images_restored == count_outcomes(images@, ImageOutcome::Restored),
        report.images_missing == count_outcomes(images@, ImageOutcome::Missing),
{
    let (images_restored, images_missing) = count_image_outcomes(images);
    let mut report = ImportReport::default();
    report.images_restored = images_restored;
    report.images_missing = images_missing;
    let mut i: usize = 0;
    assert(plan.folders@.take(0) =~= Seq::<FolderStep>::empty());
    while i < plan.folders.len()
        invariant
            i <= plan.folders@.len(),
            report.folders_created == count_folder_steps(
                plan.folders@.take(i as int),
                FolderStep::Create,
            ),
            report.folders_reused == count_folder_steps(
                plan.folders@.take(i as int),
                FolderStep::Reuse,
            ),
            report.folders_created + report.folders_reused == i,
            report.images_restored == images_restored,
            report.images_missing == images_missing,
            report.clips_imported == 0,
            report.clips_skipped == 0,
        decreases plan.folders.len() - i,
    {
        proof {
            assert(plan.folders@.take(i + 1).drop_last() =~= plan.folders@.take(i as int));
        }
        match plan.folders[i] {
            FolderStep::Create => report.folders_created = report.folders_created + 1,
            FolderStep::Reuse => report.folders_reused = report.folders_reused + 1,
        }
        i = i + 1;
    }
    assert(plan.folders@.take(plan.folders@.len() as int) =~= plan.folders@);
    let mut j: usize = 0;
    assert(plan.clips@.take(0) =~= Seq::<ClipStep>::empty());
    while j < plan.clips.len()
        invariant
            j <= plan.clips@.len(),
            report.clips_imported == count_clip_steps(plan.clips@.take(j as int), ClipStep::Import),
            report.clips_skipped == count_clip_steps(plan.clips@.take(j as int), ClipStep::Skip),
            report.clips_imported + report.clips_skipped == j,
            report.folders_created == count_folder_steps(plan.folders@, FolderStep::Create),
            report.folders_reused == count_folder_steps(plan.folders@, FolderStep::Reuse),
            report.images_restored == images_restored,
            report.images_missing == images_missing,
        decreases plan.clips.len() - j,
    {
        proof {
            assert(plan.clips@.take(j + 1).drop_last() =~= plan.clips@.take(j as int));
        }
        match plan.clips[j] {
            ClipStep::Import => report.clips_imported = report.clips_imported + 1,
            ClipStep::Skip => report.clips_skipped = report.clips_skipped + 1,
        }
        j = j + 1;
    }
    assert(plan.clips@.take(plan.clips@.len() as int) =~= plan.clips@);
    report
}

/// What the base64 decoder makes of some text: the bytes, or nothing when the
/// text is not valid standard base64.
pub uninterp spec fn base64_bytes(text: Seq<char>) -> Option<Seq<u8>>;

/// `base64::engine::general_purpose::STANDARD.decode`: the bytes the text
/// encodes, or nothing when it is not valid base64. Named, not spelled out.
#[verifier::external_body]
fn base64_decode(text: &str) -> (bytes: Option<Vec<u8>>)
    ensures
        base64_bytes(text@) == match bytes {
            Some(b) => Some(b@),
            None => None::<Seq<u8>>,
        },
{
    base64::engine::general_purpose::STANDARD.decode(text).ok()
}

/// The pieces of `s` between newlines; there is always at least one.
pub open spec fn lines_of(s: Seq<char>) -> Seq<Seq<char>>
    decreases s.len(),
{
    if s.len() == 0 {
        seq![Seq::empty()]
    } else {
        let p = lines_of(s.drop_last());
        if s.last() == '\n' {
            p.push(Seq::empty())
        } else {
            p.update(p.len() - 1, p.last().push(s.last()))
        }
    }
}

/// The pieces that are not empty, in order.
pub open spec fn non_empty_pieces(p: Seq<Seq<char>>) -> Seq<Seq<char>>
    decreases p.len(),
{
    if p.len() == 0 {
        Seq::empty()
    } else if p.last().len() > 0 {
        non_empty_pieces(p.drop_last()).push(p.last())
    } else {
        non_empty_pieces(p.drop_last())
    }
}

proof fn lemma_lines_of_non_empty(s: Seq<char>)
    ensures
        lines_of(s).len() >= 1,
    decreases s.len(),
{
    if s.len() > 0 {
        lemma_lines_of_non_empty(s.drop_last());
    }
}

proof fn lemma_lines_of_append(s: Seq<char>, t: Seq<char>)
    requires
        !t.contains('\n'),
    ensures
        lines_of(s + t) == lines_of(s).update(lines_of(s).len() - 1, lines_of(s).last() + t),
    decreases t.len(),
{
    lemma_lines_of_non_empty(s);
    if t.len() == 0 {
        assert(s + t =~= s);
        assert(lines_of(s).last() + t =~= lines_of(s).last());
        assert(lines_of(s).update(lines_of(s).len() - 1, lines_of(s).last()) =~= lines_of(s));
    } else {
        let u = t.drop_last();
        assert(!u.contains('\n')) by {
            if u.contains('\n') {
                let k = choose|k: int| 0 <= k < u.len() && u[k] == '\n';
                assert(t[k] == '\n');
            }
        }
        lemma_lines_of_append(s, u);
        assert((s + t).drop_last() =~= s + u);
        assert((s + t).last() == t.last());
        assert(t.last() != '\n') by {
            assert(t[t.len() - 1] == t.last());
        }
        let l = lines_of(s);
        let pl = lines_of(s + u);
        assert(pl == l.update(l.len() - 1, l.last() + u));
        assert(pl.len() == l.len());
        assert(pl.last() == l.last() + u);
        assert(lines_of(s + t) == pl.update(pl.len() - 1, pl.last().push(t.last())));
        assert(pl.last().push(t.last()) =~= l.last() + t);
        assert(pl.update(pl.len() - 1, l.last() + t) =~= l.update(l.len() - 1, l.last() + t));
    }
}

proof fn lemma_lines_of_newline(s: Seq<char>)
    ensures
        lines_of(s + seq!['\n']) == lines_of(s).push(Seq::<char>::empty()),
{
    assert((s + seq!['\n']).drop_last() =~= s);
}

/// A list of lines without newlines, joined with newlines, splits back into
/// the same lines.
proof fn lemma_lines_of_joined(items: Seq<Seq<char>>)
    requires
        items.len() > 0,
        forall|i: int| 0 <= i < items.len() ==> !(#[trigger] items[i]).contains('\n'),
    ensures
        lines_of(crate::ingest::joined_lines(items)) == items,
    decreases items.len(),
{
    if items.len() == 1 {
        lemma_lines_of_append(Seq::empty(), items[0]);
        assert(Seq::<char>::empty() + items[0] =~= items[0]);
        assert(Seq::<char>::empty() + items[0] =~= items[0]);
        assert(lines_of(Seq::<char>::empty()) == seq![Seq::<char>::empty()]);
        assert(seq![Seq::<char>::empty()].update(0, Seq::<char>::empty() + items[0]) =~= items);
    } else {
        let pre = items.drop_last();
        assert forall|i: int| 0 <= i < pre.len() implies !(#[trigger] pre[i]).contains('\n') by {
            assert(pre[i] == items[i]);
        }
        lemma_lines_of_joined(pre);
        let j = crate::ingest::joined_lines(pre);
        lemma_lines_of_newline(j);
        assert(!items[items.len() - 1].contains('\n'));
        lemma_lines_of_append(j + seq!['\n'], items.last());
        assert(crate::ingest::joined_lines(items) == j + seq!['\n'] + items.last());
        let l = pre.push(Seq::<char>::empty());
        assert(l.last() + items.last() =~= items.last());
        assert(l.update(l.len() - 1, l.last() + items.last()) =~= items);
    }
}

proof fn lemma_non_empty_pieces_keep_all(p: Seq<Seq<char>>)
    requires
        forall|i: int| 0 <= i < p.len() ==> (#[trigger] p[i]).len() > 0,
    ensures
        non_empty_pieces(p) == p,
    decreases p.len(),
{
    if p.len() > 0 {
        let pre = p.drop_last();
        assert forall|i: int| 0 <= i < pre.len() implies (#[trigger] pre[i]).len() > 0 by {
            assert(pre[i] == p[i]);
        }
        lemma_non_empty_pieces_keep_all(pre);
        assert(p.last() == p[p.len() - 1]);
        assert(pre.push(p.last()) =~= p);
    }
}

/// A file clip's list survives export and import: a clip recorded with the
/// paths `files` (none empty, none holding a newline) is exported with its
/// newline joined content, and the import rebuilds exactly the file list
/// format the clip was stored with.
pub proof fn lemma_file_list_survives_export(
    c: BundleClip,
    row: ExportClipRow,
    formats: Seq<(Seq<char>, Seq<u8>)>,
    files: Seq<Seq<char>>,
)
    requires
        exports_clip(c, row, formats),
        row.clip_type@ == "file"@,
        files.len() > 0,
        forall|i: int| 0 <= i < files.len() ==> (#[trigger] files[i]).len() > 0 && !files[i].contains('\n'),
        row.content@ == encode_utf8(crate::ingest::joined_lines(files)),
    ensures
        spec_stored_formats_for(c)[0] == (FORMAT_FILE@, json_string_list(files)),
{
    encode_utf8_valid_utf8(crate::ingest::joined_lines(files));
    encode_utf8_decode_utf8(crate::ingest::joined_lines(files));
    assert(c.content@ == crate::ingest::joined_lines(files));
    lemma_lines_of_joined(files);
    lemma_non_empty_pieces_keep_all(files);
    assert(non_empty_pieces(lines_of(c.content@)) == files);
}

/// The non-empty lines of a newline joined path list.
fn non_empty_lines(text: &String) -> (lines: Vec<String>)
    ensures
        string_views(lines@) == non_empty_pieces(lines_of(text@)),
{
    let mut done: Vec<String> = Vec::new();
    let mut current = String::new();
    assert(text@.take(0) =~= Seq::<char>::empty());
    for c in it: text.as_str().chars()
        invariant
            it.seq() == text@,
            lines_of(text@.take(it.index() as int)).len() >= 1,
            string_views(done@) == non_empty_pieces(
                lines_of(text@.take(it.index() as int)).drop_last(),
            ),
            current@ == lines_of(text@.take(it.index() as int)).last(),
    {
        let ghost i = it.index() as int;
        let ghost before = lines_of(text@.take(i));
        proof {
            assert(text@.take(i + 1).drop_last() =~= text@.take(i));
            assert(text@.take(i + 1).last() == c);
        }
        if c == '\n' {
            if !current.as_str().is_empty() {
                let ghost d = done@;
                done.push(current);
                assert(string_views(done@) =~= string_views(d).push(before.last()));
            }
            current = String::new();
            proof {
                let after = lines_of(text@.take(i + 1));
                assert(after == before.push(Seq::<char>::empty()));
                assert(after.drop_last() =~= before);
                assert(before =~= before.drop_last().push(before.last()));
            }
        } else {
            string_push(&mut current, c);
            proof {
                let after = lines_of(text@.take(i + 1));
                assert(after == before.update(before.len() - 1, before.last().push(c)));
                assert(after.drop_last() =~= before.drop_last());
            }
        }
    }
    assert(text@.take(text@.len() as int) =~= text@);
    let ghost all = lines_of(text@);
    proof {
        assert(all =~= all.drop_last().push(all.last()));
    }
    if !current.as_str().is_empty() {
        let ghost d = done@;
        done.push(current);
        assert(string_views(done@) =~= string_views(d).push(all.last()));
    }
    done
}

/// The rows that go into `clip_formats` for an imported clip: a file clip's
/// list rebuilt as JSON from its newline joined content (the bundle does not
/// hold the same paths twice), the HTML as bytes, and the RTF decoded from
/// base64 when it decodes.
pub open spec fn spec_stored_formats_for(clip: BundleClip) -> Seq<(Seq<char>, Seq<u8>)> {
    let paths = non_empty_pieces(lines_of(clip.content@));
    let file_part = if clip.clip_type@ == "file"@ && paths.len() > 0 {
        seq![(FORMAT_FILE@, json_string_list(paths))]
    } else {
        Seq::empty()
    };
    let html_part = match clip.html {
        Some(h) => seq![(FORMAT_HTML@, encode_utf8(h@))],
        None => Seq::empty(),
    };
    let rtf_part = match clip.rtf_base64 {
        Some(r) => match base64_bytes(r@) {
            Some(b) => seq![(FORMAT_RTF@, b)],
            None => Seq::empty(),
        },
        None => Seq::empty(),
    };
    file_part + html_part + rtf_part
}

pub fn stored_formats_for(clip: &BundleClip) -> (formats: Vec<(&'static str, Vec<u8>)>)
    ensures
        crate::ingest::formats_view(formats@) == spec_stored_formats_for(*clip),
{
    let mut formats: Vec<(&'static str, Vec<u8>)> = Vec::new();
    let ghost start = formats@;
    if str_eq(clip.clip_type.as_str(), "file") {
        let paths = non_empty_lines(&clip.content);
        if paths.len() > 0 {
            formats.push((FORMAT_FILE, json_encode_strings(&paths)));
        }
    }
    let ghost after_file = formats@;
    match &clip.html {
        Some(h) => {
            let mut bytes: Vec<u8> = Vec::new();
            crate::clipboard_formats::extend_bytes(&mut bytes, h.as_str().as_bytes());
            formats.push((FORMAT_HTML, bytes));
        },
        None => {},
    }
    let ghost after_html = formats@;
    match &clip.rtf_base64 {
        Some(encoded) => match base64_decode(encoded.as_str()) {
            Some(bytes) => formats.push((FORMAT_RTF, bytes)),
            None => {},
        },
        None => {},
    }
    assert(crate::ingest::formats_view(formats@) =~= spec_stored_formats_for(*clip));
    formats
}

/// The instant RFC 3339 text names, as seconds since the Unix epoch and
/// nanoseconds, if chrono reads it as RFC 3339.
pub uninterp spec fn rfc3339_instant(text: Seq<char>) -> Option<(i64, u32)>;

/// `chrono::DateTime::parse_from_rfc3339`, taken as a UTC instant: seconds
/// since the epoch and the nanosecond part. Named, not spelled out.
#[verifier::external_body]
fn parse_rfc3339(text: &str) -> (instant: Option<(i64, u32)>)
    ensures
        instant == rfc3339_instant(text@),
{
    match chrono::DateTime::parse_from_rfc3339(text) {
        Ok(t) => Some((t.timestamp(), t.timestamp_subsec_nanos())),
        Err(_) => None,
    }
}

/// When an imported clip was created: the time its bundle entry records, or
/// `now` when that is not readable RFC 3339.
pub fn import_created_at(text: &str, now: (i64, u32)) -> (instant: (i64, u32))
    ensures
        instant == match rfc3339_instant(text@) {
            Some(t) => t,
            None => now,
        },
{
    match parse_rfc3339(text) {
        Some(t) => t,
        None => now,
    }
}

/// The key under which a missing image's original path is recorded.
pub const ORIGINAL_PATH_KEY: &'static str = "original_path";

pub open spec fn opt_str_view(s: Option<&str>) -> Option<Seq<char>> {
    match s {
        Some(t) => Some(t@),
        None => None,
    }
}

/// The entries of an object marked as missing its image: `missing_image`
/// holds `true` and `original_path` the quoted path, or `null` without one.
pub open spec fn marked_entries(
    entries: Map<Seq<char>, Seq<char>>,
    image_path: Option<Seq<char>>,
) -> Map<Seq<char>, Seq<char>> {
    entries.insert(MISSING_IMAGE_KEY@, "true"@).insert(
        ORIGINAL_PATH_KEY@,
        match image_path {
            Some(p) => json_string_literal(p),
            None => "null"@,
        },
    )
}

/// The metadata of a clip whose image is missing: its own metadata, read as
/// a JSON object (an empty one when there is none or it is not JSON), with the
/// image marked missing and its original path recorded. Metadata holding some
/// other JSON value is kept as that value's compact text, unmarked.
pub open spec fn missing_image_marked(
    metadata: Option<Seq<char>>,
    image_path: Option<Seq<char>>,
) -> Seq<char> {
    let parsed = match metadata {
        Some(t) => json_parsed(t),
        None => None,
    };
    match parsed {
        Some(Err(printed)) => printed,
        Some(Ok(entries)) => json_object_text(marked_entries(entries, image_path)),
        None => json_object_text(marked_entries(Map::empty(), image_path)),
    }
}

/// Marks a clip's metadata as missing its image, so the window can say so.
pub fn mark_missing_image(metadata: Option<&str>, image_path: Option<&str>) -> (marked: String)
    ensures
        marked@ == missing_image_marked(opt_str_view(metadata), opt_str_view(image_path)),
{
    let parsed = match metadata {
        Some(t) => parse_json(t),
        None => ParsedJson::Invalid,
    };
    let mut object = match parsed {
        ParsedJson::Object(m) => m,
        ParsedJson::Other(printed) => return printed,
        ParsedJson::Invalid => empty_json_object(),
    };
    insert_json_bool(&mut object, MISSING_IMAGE_KEY, true);
    insert_json_opt_string(&mut object, ORIGINAL_PATH_KEY, image_path);
    json_object_to_string(object)
}

fn opt_as_str(s: &Option<String>) -> (r: Option<&str>)
    ensures
        opt_str_view(r) == opt_view(*s),
{
    match s {
        Some(t) => Some(t.as_str()),
        None => None,
    }
}

/// The metadata an imported clip is stored with: a clip whose image is
/// missing gets its metadata marked so; every other clip keeps its own.
pub fn import_metadata(clip: &BundleClip, image: ImageOutcome) -> (metadata: Option<String>)
    ensures
        opt_view(metadata) == if image == ImageOutcome::Missing {
            Some(missing_image_marked(opt_view(clip.metadata), opt_view(clip.image_path)))
        } else {
            opt_view(clip.metadata)
        },
{
    match image {
        ImageOutcome::Missing => Some(
            mark_missing_image(opt_as_str(&clip.metadata), opt_as_str(&clip.image_path)),
        ),
        _ => clone_opt(&clip.metadata),
    }
}

/// A clip imported without its image says so in its metadata: unless that
/// metadata held a JSON value other than an object, it is an object whose
/// `missing_image` entry is `true` and whose `original_path` entry is the
/// image's original path.
pub proof fn lemma_missing_image_is_marked(metadata: Option<Seq<char>>, image_path: Option<Seq<char>>)
    requires
        !(metadata matches Some(t) && json_parsed(t) matches Some(Err(_))),
    ensures
        exists|entries: Map<Seq<char>, Seq<char>>|
            {
                &&& missing_image_marked(metadata, image_path) == json_object_text(entries)
                &&& entries[MISSING_IMAGE_KEY@] == "true"@
                &&& entries[ORIGINAL_PATH_KEY@] == match image_path {
                    Some(p) => json_string_literal(p),
                    None => "null"@,
                }
            },
{
    reveal_strlit("missing_image");
    reveal_strlit("original_path");
    assert(MISSING_IMAGE_KEY@ != ORIGINAL_PATH_KEY@) by {
        assert(MISSING_IMAGE_KEY@[0] != ORIGINAL_PATH_KEY@[0]);
    }
    let base = match metadata {
        Some(t) => match json_parsed(t) {
            Some(Ok(e)) => e,
            _ => Map::empty(),
        },
        None => Map::empty(),
    };
    let entries = marked_entries(base, image_path);
    assert(missing_image_marked(metadata, image_path) == json_object_text(entries));
}

} // verus!
