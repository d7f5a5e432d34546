//! The decisions behind the window's commands: which filters reach a query,
//! how a stored clip is shown and pasted, and what a folder id means.

use vstd::prelude::*;
use vstd::string::*;
use vstd::utf8::*;
use crate::clipboard::{base64_encode, base64_text, opt_view, ClipboardPayload};
use crate::clipboard_formats::{
    decimal_chars, decimal_value, is_ascii_digit, push_decimal_chars, string_from_utf8_lossy,
    string_views, trim, trim_text, utf8_lossy, FORMAT_FILE, FORMAT_HTML, FORMAT_RTF,
};
use crate::ingest::opt_bytes_view;
use crate::models::{Clip, ClipboardItem, Folder, FolderItem};
use crate::unicode::{str_eq, string_push};

verus! {

// ---------------------------------------------------------------------------
// Integers as text
// ---------------------------------------------------------------------------

/// `n` as `to_string` writes it: a minus sign for a negative value, then the
/// decimal digits of its magnitude.
pub open spec fn i64_text(n: i64) -> Seq<char> {
    if n < 0 {
        seq!['-'] + decimal_chars((-n) as nat)
    } else {
        decimal_chars(n as nat)
    }
}

pub fn i64_to_string(n: i64) -> (text: String)
    ensures
        text@ == i64_text(n),
{
    let mut text = String::new();
    if n < 0 {
        string_push(&mut text, '-');
        let magnitude: u64 = if n == i64::MIN {
            0x8000_0000_0000_0000u64
        } else {
            (-n) as u64
        };
        push_u64_decimal(&mut text, magnitude);
        assert(text@ =~= i64_text(n));
    } else {
        push_u64_decimal(&mut text, n as u64);
    }
    text
}

fn push_u64_decimal(s: &mut String, n: u64)
    ensures
        final(s)@ == old(s)@ + decimal_chars(n as nat),
    decreases n,
{
    if n >= 10 {
        push_u64_decimal(s, n / 10);
    }
    string_push(s, (48 + n % 10) as u8 as char);
    proof {
        let d = crate::clipboard_formats::decimal_digits(n as nat);
        if n >= 10 {
            assert(d == crate::clipboard_formats::decimal_digits((n / 10) as nat).push(
                (48 + n % 10) as u8,
            ));
        }
        assert(final(s)@ =~= old(s)@ + decimal_chars(n as nat));
    }
}

/// The text after a leading `-` or `+`, if there is one.
pub open spec fn unsigned_part(s: Seq<u8>) -> Seq<u8> {
    if s.len() > 0 && (s[0] == 45 || s[0] == 43) {
        s.skip(1)
    } else {
        s
    }
}

/// What `i64::from_str` makes of some text: an optional sign, then one or
/// more ASCII digits whose value fits an `i64`; anything else is rejected.
pub open spec fn parse_i64(s: Seq<u8>) -> Option<i64> {
    let negative = s.len() > 0 && s[0] == 45;
    let digits = unsigned_part(s);
    if digits.len() == 0 || exists|k: int| 0 <= k < digits.len() && !is_ascii_digit(
        #[trigger] digits[k],
    ) {
        None
    } else if negative {
        if decimal_value(digits) <= 0x8000_0000_0000_0000 {
            Some((-(decimal_value(digits) as int)) as i64)
        } else {
            None
        }
    } else if decimal_value(digits) <= i64::MAX {
        Some(decimal_value(digits) as i64)
    } else {
        None
    }
}

/// Parses a decimal `i64` the way `str::parse` does.
pub fn parse_i64_text(text: &str) -> (n: Option<i64>)
    ensures
        n == parse_i64(text.spec_bytes()),
{
    let b = text.as_bytes();
    let len = b.len();
    let negative = len > 0 && b[0] == 45;
    let start: usize = if len > 0 && (b[0] == 45 || b[0] == 43) {
        1
    } else {
        0
    };
    let ghost digits = b@.skip(start as int);
    assert(digits =~= unsigned_part(b@));
    if start == len {
        return None;
    }
    // The magnitude, allowed up to 2^63 so that `i64::MIN` can be read.
    let limit: u64 = 0x8000_0000_0000_0000;
    let mut value: u64 = 0;
    let mut over = false;
    let mut i: usize = start;
    assert(digits.take(0) =~= Seq::<u8>::empty());
    while i < len
        invariant
            len == b@.len(),
            b@ == text.spec_bytes(),
            limit == 0x8000_0000_0000_0000u64,
            start == (if len > 0 && (b@[0] == 45 || b@[0] == 43) {
                1usize
            } else {
                0usize
            }),
            start < len,
            start <= i <= len,
            digits == b@.skip(start as int),
            digits == unsigned_part(b@),
            negative == (len > 0 && b@[0] == 45),
            forall|k: int| 0 <= k < i - start ==> is_ascii_digit(#[trigger] digits[k]),
            !over ==> value == decimal_value(digits.take(i - start)) && value <= limit,
            over ==> decimal_value(digits.take(i - start)) > limit,
        decreases len - i,
    {
        let c = b[i];
        if c < 48 || c > 57 {
            assert(!is_ascii_digit(digits[i - start]));
            return None;
        }
        let d = (c - 48) as u64;
        proof {
            let t = digits.take(i - start + 1);
            assert(t.drop_last() =~= digits.take(i - start));
            assert(t.last() == c);
        }
        if !over {
            if value > (limit - d) / 10 {
                over = true;
                assert(value * 10 + d > limit) by (nonlinear_arith)
                    requires
                        value > (limit - d) / 10,
                        d <= 9,
                        limit == 0x8000_0000_0000_0000u64,
                ;
            } else {
                assert(value * 10 + d <= limit) by (nonlinear_arith)
                    requires
                        value <= (limit - d) / 10,
                        d <= 9,
                        limit == 0x8000_0000_0000_0000u64,
                ;
                value = value * 10 + d;
            }
        } else {
            proof {
                let v0 = decimal_value(digits.take(i - start));
                assert(v0 * 10 + d as nat > limit) by (nonlinear_arith)
                    requires
                        v0 > limit,
                ;
            }
        }
        i = i + 1;
    }
    assert(digits.take(len - start) =~= digits);
    assert(forall|k: int| 0 <= k < digits.len() ==> is_ascii_digit(#[trigger] digits[k]));
    if over {
        return None;
    }
    if negative {
        if value == limit {
            Some(i64::MIN)
        } else {
            Some(-(value as i64))
        }
    } else if value <= 0x7FFF_FFFF_FFFF_FFFF {
        Some(value as i64)
    } else {
        None
    }
}

// ---------------------------------------------------------------------------
// Filters
// ---------------------------------------------------------------------------

/// The clip types a filter may select. They mirror what capture produces.
pub const CLIP_TYPES: [&'static str; 3] = ["text", "image", "file"];

/// One of the clip types a filter may select.
pub open spec fn is_clip_type(name: Seq<char>) -> bool {
    exists|j: int| 0 <= j < 3 && (#[trigger] CLIP_TYPES@[j])@ == name
}

/// The names that are clip types, in the order given.
pub open spec fn known_clip_types(names: Seq<Seq<char>>) -> Seq<Seq<char>>
    decreases names.len(),
{
    if names.len() == 0 {
        Seq::empty()
    } else if is_clip_type(names.last()) {
        known_clip_types(names.drop_last()).push(names.last())
    } else {
        known_clip_types(names.drop_last())
    }
}

fn is_clip_type_name(name: &str) -> (known: bool)
    ensures
        known == is_clip_type(name@),
{
    let types = CLIP_TYPES;
    let mut j: usize = 0;
    while j < 3
        invariant
            j <= 3,
            types@ == CLIP_TYPES@,
            forall|k: int| 0 <= k < j ==> (#[trigger] CLIP_TYPES@[k])@ != name@,
        decreases 3 - j,
    {
        if str_eq(name, types[j]) {
            assert(CLIP_TYPES@[j as int]@ == name@);
            return true;
        }
        j = j + 1;
    }
    false
}

fn vec_or_empty(requested: Option<Vec<String>>) -> (v: Vec<String>)
    ensures
        v@ == match requested {
            Some(r) => r@,
            None => Seq::<String>::empty(),
        },
{
    match requested {
        Some(r) => r,
        None => Vec::new(),
    }
}

pub open spec fn requested_views(requested: Option<Vec<String>>) -> Seq<Seq<char>> {
    match requested {
        Some(r) => string_views(r@),
        None => Seq::empty(),
    }
}

/// Keeps the recognised type names and drops the rest, so a bad value from the
/// window narrows nothing rather than silently matching nothing.
pub fn normalise_clip_types(requested: Option<Vec<String>>) -> (kept: Vec<String>)
    ensures
        string_views(kept@) == known_clip_types(requested_views(requested)),
{
    let ghost names = requested_views(requested);
    let requested = vec_or_empty(requested);
    assert(string_views(requested@) =~= names);
    let mut kept: Vec<String> = Vec::new();
    let mut i: usize = 0;
    assert(names.take(0) =~= Seq::<Seq<char>>::empty());
    while i < requested.len()
        invariant
            i <= requested@.len(),
            string_views(requested@) == names,
            string_views(kept@) == known_clip_types(names.take(i as int)),
        decreases requested.len() - i,
    {
        let name = &requested[i];
        proof {
            assert(names.take(i + 1).drop_last() =~= names.take(i as int));
            assert(names.take(i + 1).last() == name@);
        }
        if is_clip_type_name(name.as_str()) {
            let ghost before = kept@;
            kept.push(name.clone());
            assert(string_views(kept@) =~= string_views(before).push(name@));
        }
        i = i + 1;
    }
    assert(names.take(requested@.len() as int) =~= names);
    kept
}

/// The most source applications one filter may name.
pub const MAX_SOURCE_APPS: usize = 64;

/// The names with something besides whitespace in them, in the order given.
pub open spec fn non_blank(names: Seq<Seq<char>>) -> Seq<Seq<char>>
    decreases names.len(),
{
    if names.len() == 0 {
        Seq::empty()
    } else if trim(names.last()).len() > 0 {
        non_blank(names.drop_last()).push(names.last())
    } else {
        non_blank(names.drop_last())
    }
}

/// At most the first `MAX_SOURCE_APPS` names.
pub open spec fn capped(names: Seq<Seq<char>>) -> Seq<Seq<char>> {
    if names.len() <= MAX_SOURCE_APPS {
        names
    } else {
        names.take(MAX_SOURCE_APPS as int)
    }
}

/// Normalises the source application filter: blank names are dropped and the
/// list is capped, so a pathological request cannot build an enormous
/// statement. Names are otherwise kept verbatim; they only ever reach the
/// query as bound parameters.
pub fn normalise_source_apps(requested: Option<Vec<String>>) -> (kept: Vec<String>)
    ensures
        string_views(kept@) == capped(non_blank(requested_views(requested))),
{
    let ghost names = requested_views(requested);
    let requested = vec_or_empty(requested);
    assert(string_views(requested@) =~= names);
    let mut kept: Vec<String> = Vec::new();
    let mut i: usize = 0;
    assert(names.take(0) =~= Seq::<Seq<char>>::empty());
    while i < requested.len()
        invariant
            i <= requested@.len(),
            string_views(requested@) == names,
            string_views(kept@) == capped(non_blank(names.take(i as int))),
        decreases requested.len() - i,
    {
        let name = &requested[i];
        let ghost before_names = names.take(i as int);
        proof {
            assert(names.take(i + 1).drop_last() =~= before_names);
            assert(names.take(i + 1).last() == name@);
        }
        let trimmed = trim_text(name.as_str());
        if !trimmed.as_str().is_empty() {
            proof {
                let nb = non_blank(before_names);
                if nb.len() >= MAX_SOURCE_APPS {
                    assert(nb.push(name@).take(MAX_SOURCE_APPS as int) =~= nb.take(
                        MAX_SOURCE_APPS as int,
                    ));
                }
            }
            if kept.len() < MAX_SOURCE_APPS {
                let ghost before = kept@;
                kept.push(name.clone());
                assert(string_views(kept@) =~= string_views(before).push(name@));
            }
        }
        i = i + 1;
    }
    assert(names.take(requested@.len() as int) =~= names);
    kept
}

/// The folder filter as the query takes it: no filter, a folder id, or the
/// message for an id that is not a number.
pub open spec fn spec_resolve_folder_filter(filter_id: Option<&str>) -> Result<
    Option<i64>,
    Seq<char>,
> {
    match filter_id {
        None => Ok(None),
        Some(id) => match parse_i64(id.spec_bytes()) {
            Some(n) => Ok(Some(n)),
            None => Err("Unknown folder id: "@ + id@),
        },
    }
}

/// Resolves the folder filter, separating "no filter" from "unparseable id".
pub fn resolve_folder_filter(filter_id: Option<&str>) -> (r: Result<Option<i64>, String>)
    ensures
        match spec_resolve_folder_filter(filter_id) {
            Ok(f) => r == Ok::<Option<i64>, String>(f),
            Err(m) => r matches Err(e) && e@ == m,
        },
{
    match filter_id {
        None => Ok(None),
        Some(id) => match parse_i64_text(id) {
            Some(n) => Ok(Some(n)),
            None => {
                let mut message = "Unknown folder id: ".to_owned();
                message.append(id);
                Err(message)
            },
        },
    }
}

/// A folder id sent by the window, which must be a number.
pub fn parse_folder_id(id: &str) -> (r: Result<i64, String>)
    ensures
        match parse_i64(id.spec_bytes()) {
            Some(n) => r == Ok::<i64, String>(n),
            None => r matches Err(e) && e@ == "Invalid folder ID"@,
        },
{
    match parse_i64_text(id) {
        Some(n) => Ok(n),
        None => Err("Invalid folder ID".to_owned()),
    }
}

/// The `LIKE` pattern that finds `query` anywhere in a clip.
pub fn search_pattern(query: &str) -> (pattern: String)
    ensures
        pattern@ == seq!['%'] + query@ + seq!['%'],
{
    let mut pattern = String::new();
    string_push(&mut pattern, '%');
    pattern.append(query);
    string_push(&mut pattern, '%');
    pattern
}

// ---------------------------------------------------------------------------
// Showing clips and folders
// ---------------------------------------------------------------------------

pub open spec fn opt_i64_text(n: Option<i64>) -> Option<Seq<char>> {
    match n {
        Some(v) => Some(i64_text(v)),
        None => None,
    }
}

/// `item` shows `clip` with `content`: every other field is copied, the folder
/// id as text.
pub open spec fn shows_clip(item: ClipboardItem, clip: Clip, content: Seq<char>) -> bool {
    &&& item.id@ == clip.uuid@
    &&& item.clip_type@ == clip.clip_type@
    &&& item.content@ == content
    &&& item.preview@ == clip.text_preview@
    &&& opt_view(item.folder_id) == opt_i64_text(clip.folder_id)
    &&& item.created_at@ == clip.created_at@
    &&& opt_view(item.source_app) == opt_view(clip.source_app)
    &&& opt_view(item.source_icon) == opt_view(clip.source_icon)
    &&& opt_view(item.metadata) == opt_view(clip.metadata)
    &&& opt_view(item.title) == opt_view(clip.title)
}

fn clone_opt(s: &Option<String>) -> (c: Option<String>)
    ensures
        opt_view(c) == opt_view(*s),
{
    match s {
        Some(t) => Some(t.clone()),
        None => None,
    }
}

fn item_for(clip: &Clip, content: String) -> (item: ClipboardItem)
    ensures
        shows_clip(item, *clip, content@),
{
    let folder_id = match clip.folder_id {
        Some(id) => Some(i64_to_string(id)),
        None => None,
    };
    ClipboardItem {
        id: clip.uuid.clone(),
        clip_type: clip.clip_type.clone(),
        content,
        preview: clip.text_preview.clone(),
        folder_id,
        created_at: clip.created_at.clone(),
        source_app: clone_opt(&clip.source_app),
        source_icon: clone_opt(&clip.source_icon),
        metadata: clone_opt(&clip.metadata),
        title: clone_opt(&clip.title),
    }
}

pub open spec fn is_image_clip(clip: Clip) -> bool {
    clip.clip_type@ == "image"@
}

/// What the grid shows as a clip's content: an image clip's file path (empty
/// when it has none), or the stored text, decoded leniently.
pub open spec fn list_content(clip: Clip, image_path: Option<Seq<char>>) -> Seq<char> {
    if is_image_clip(clip) {
        match image_path {
            Some(p) => p,
            None => Seq::empty(),
        }
    } else {
        utf8_lossy(clip.content@)
    }
}

/// A clip as the grid lists it.
pub fn clip_to_list_item(clip: &Clip, image_path: Option<&str>) -> (item: ClipboardItem)
    ensures
        shows_clip(
            item,
            *clip,
            list_content(
                *clip,
                match image_path {
                    Some(p) => Some(p@),
                    None => None,
                },
            ),
        ),
{
    let content = if str_eq(clip.clip_type.as_str(), "image") {
        match image_path {
            Some(p) => p.to_owned(),
            None => String::new(),
        }
    } else {
        string_from_utf8_lossy(clip.content.as_slice())
    };
    item_for(clip, content)
}

/// What the detail view shows as a clip's content: an image as base64 of its
/// full bytes (the stored content when there are none), or the stored text.
pub open spec fn detail_content(clip: Clip, full_image: Option<Seq<u8>>) -> Seq<char> {
    if is_image_clip(clip) {
        base64_text(
            match full_image {
                Some(b) => b,
                None => clip.content@,
            },
        )
    } else {
        utf8_lossy(clip.content@)
    }
}

/// A clip as the detail view shows it.
pub fn clip_to_detail_item(clip: &Clip, full_image_content: Option<&[u8]>) -> (item:
    ClipboardItem)
    ensures
        shows_clip(
            item,
            *clip,
            detail_content(
                *clip,
                match full_image_content {
                    Some(b) => Some(b@),
                    None => None,
                },
            ),
        ),
{
    let content = if str_eq(clip.clip_type.as_str(), "image") {
        match full_image_content {
            Some(b) => base64_encode(b),
            None => base64_encode(clip.content.as_slice()),
        }
    } else {
        string_from_utf8_lossy(clip.content.as_slice())
    };
    item_for(clip, content)
}

/// The uuids of the image clips, in order.
pub open spec fn image_uuids_of(clips: Seq<Clip>) -> Seq<Seq<char>>
    decreases clips.len(),
{
    if clips.len() == 0 {
        Seq::empty()
    } else if is_image_clip(clips.last()) {
        image_uuids_of(clips.drop_last()).push(clips.last().uuid@)
    } else {
        image_uuids_of(clips.drop_last())
    }
}

/// The image clips whose file paths have to be looked up.
pub fn image_uuids(clips: &Vec<Clip>) -> (uuids: Vec<String>)
    ensures
        string_views(uuids@) == image_uuids_of(clips@),
{
    let mut uuids: Vec<String> = Vec::new();
    let mut i: usize = 0;
    assert(clips@.take(0) =~= Seq::<Clip>::empty());
    while i < clips.len()
        invariant
            i <= clips@.len(),
            string_views(uuids@) == image_uuids_of(clips@.take(i as int)),
        decreases clips.len() - i,
    {
        proof {
            assert(clips@.take(i + 1).drop_last() =~= clips@.take(i as int));
            assert(clips@.take(i + 1).last() == clips@[i as int]);
        }
        if str_eq(clips[i].clip_type.as_str(), "image") {
            let ghost before = uuids@;
            uuids.push(clips[i].uuid.clone());
            assert(string_views(uuids@) =~= string_views(before).push(clips@[i as int].uuid@));
        }
        i = i + 1;
    }
    assert(clips@.take(clips@.len() as int) =~= clips@);
    uuids
}

pub open spec fn path_rows_view(rows: Seq<(String, Option<String>)>) -> Seq<
    (Seq<char>, Option<Seq<char>>),
> {
    rows.map_values(|r: (String, Option<String>)| (r.0@, opt_view(r.1)))
}

/// The file path recorded for an image clip: the last row for it whose path is
/// present and not empty, as a map filled row by row would hold it.
pub open spec fn image_path_for(rows: Seq<(Seq<char>, Option<Seq<char>>)>, uuid: Seq<char>) -> Option<
    Seq<char>,
>
    decreases rows.len(),
{
    if rows.len() == 0 {
        None
    } else if rows.last().0 == uuid && (rows.last().1 matches Some(p) && p.len() > 0) {
        rows.last().1
    } else {
        image_path_for(rows.drop_last(), uuid)
    }
}

fn find_image_path(rows: &Vec<(String, Option<String>)>, uuid: &String) -> (path: Option<String>)
    ensures
        opt_view(path) == image_path_for(path_rows_view(rows@), uuid@),
{
    let mut i: usize = rows.len();
    assert(path_rows_view(rows@).take(rows@.len() as int) =~= path_rows_view(rows@));
    while i > 0
        invariant
            i <= rows@.len(),
            image_path_for(path_rows_view(rows@), uuid@) == image_path_for(
                path_rows_view(rows@).take(i as int),
                uuid@,
            ),
        decreases i,
    {
        let ghost t = path_rows_view(rows@).take(i as int);
        proof {
            assert(t.drop_last() =~= path_rows_view(rows@).take(i - 1));
            assert(t.last() == (rows@[i - 1].0@, opt_view(rows@[i - 1].1)));
        }
        let row = &rows[i - 1];
        if row.0 == *uuid {
            match &row.1 {
                Some(p) => {
                    if !p.as_str().is_empty() {
                        return Some(p.clone());
                    }
                },
                None => {},
            }
        }
        i = i - 1;
    }
    None
}

/// The clips as the grid lists them, each image with its file path.
pub fn list_items(clips: &Vec<Clip>, image_paths: &Vec<(String, Option<String>)>) -> (items: Vec<
    ClipboardItem,
>)
    ensures
        items@.len() == clips@.len(),
        forall|k: int|
            0 <= k < clips@.len() ==> shows_clip(
                #[trigger] items@[k],
                clips@[k],
                list_content(clips@[k], image_path_for(path_rows_view(image_paths@), clips@[k].uuid@)),
            ),
{
    let mut items: Vec<ClipboardItem> = Vec::new();
    let mut i: usize = 0;
    while i < clips.len()
        invariant
            i <= clips@.len(),
            items@.len() == i,
            forall|k: int|
                0 <= k < i ==> shows_clip(
                    #[trigger] items@[k],
                    clips@[k],
                    list_content(
                        clips@[k],
                        image_path_for(path_rows_view(image_paths@), clips@[k].uuid@),
                    ),
                ),
        decreases clips.len() - i,
    {
        let clip = &clips[i];
        let path = find_image_path(image_paths, &clip.uuid);
        let item = match &path {
            Some(p) => clip_to_list_item(clip, Some(p.as_str())),
            None => clip_to_list_item(clip, None),
        };
        items.push(item);
        i = i + 1;
    }
    items
}

/// How many clips a folder holds: the count recorded for its id, or zero.
pub open spec fn count_for(counts: Seq<(i64, i64)>, id: i64) -> i64
    decreases counts.len(),
{
    if counts.len() == 0 {
        0
    } else if counts.last().0 == id {
        counts.last().1
    } else {
        count_for(counts.drop_last(), id)
    }
}

fn find_count(counts: &Vec<(i64, i64)>, id: i64) -> (n: i64)
    ensures
        n == count_for(counts@, id),
{
    let mut i: usize = counts.len();
    assert(counts@.take(counts@.len() as int) =~= counts@);
    while i > 0
        invariant
            i <= counts@.len(),
            count_for(counts@, id) == count_for(counts@.take(i as int), id),
        decreases i,
    {
        proof {
            assert(counts@.take(i as int).drop_last() =~= counts@.take(i - 1));
        }
        if counts[i - 1].0 == id {
            return counts[i - 1].1;
        }
        i = i - 1;
    }
    0
}

/// `item` shows `folder` holding `count` clips.
pub open spec fn shows_folder(item: FolderItem, folder: Folder, count: i64) -> bool {
    &&& item.id@ == i64_text(folder.id)
    &&& item.name@ == folder.name@
    &&& opt_view(item.icon) == opt_view(folder.icon)
    &&& opt_view(item.color) == opt_view(folder.color)
    &&& item.is_system == folder.is_system
    &&& item.item_count == count
}

/// The folders as the sidebar lists them, each with how many clips it holds.
pub fn folder_items(folders: &Vec<Folder>, counts: &Vec<(i64, i64)>) -> (items: Vec<FolderItem>)
    ensures
        items@.len() == folders@.len(),
        forall|k: int|
            0 <= k < folders@.len() ==> shows_folder(
                #[trigger] items@[k],
                folders@[k],
                count_for(counts@, folders@[k].id),
            ),
{
    let mut items: Vec<FolderItem> = Vec::new();
    let mut i: usize = 0;
    while i < folders.len()
        invariant
            i <= folders@.len(),
            items@.len() == i,
            forall|k: int|
                0 <= k < i ==> shows_folder(
                    #[trigger] items@[k],
                    folders@[k],
                    count_for(counts@, folders@[k].id),
                ),
        decreases folders.len() - i,
    {
        let folder = &folders[i];
        items.push(
            FolderItem {
                id: i64_to_string(folder.id),
                name: folder.name.clone(),
                icon: clone_opt(&folder.icon),
                color: clone_opt(&folder.color),
                is_system: folder.is_system,
                item_count: find_count(counts, folder.id),
            },
        );
        i = i + 1;
    }
    items
}

/// The sidebar entry for a folder just created: not a system folder, empty.
pub fn new_folder_item(id: i64, name: String, icon: Option<String>, color: Option<String>) -> (item:
    FolderItem)
    ensures
        item.id@ == i64_text(id),
        item.name@ == name@,
        opt_view(item.icon) == opt_view(icon),
        opt_view(item.color) == opt_view(color),
        !item.is_system,
        item.item_count == 0,
{
    FolderItem { id: i64_to_string(id), name, icon, color, is_system: false, item_count: 0 }
}

/// Whether a folder may be deleted, given its `is_system` flag if it exists:
/// a missing folder and the built-in folder, which holds every pinned clip,
/// cannot be.
pub fn check_folder_deletable(is_system: Option<i64>) -> (r: Result<(), String>)
    ensures
        match is_system {
            None => r matches Err(e) && e@ == "Folder not found"@,
            Some(flag) => if flag != 0 {
                r matches Err(e) && e@ == "The built-in folder cannot be deleted"@
            } else {
                r is Ok
            },
        },
{
    match is_system {
        None => Err("Folder not found".to_owned()),
        Some(flag) => if flag != 0 {
            Err("The built-in folder cannot be deleted".to_owned())
        } else {
            Ok(())
        },
    }
}

// ---------------------------------------------------------------------------
// Pasting a stored clip
// ---------------------------------------------------------------------------

/// The list of strings serde_json reads from some bytes, if they hold one.
pub uninterp spec fn json_strings_of(bytes: Seq<u8>) -> Option<Seq<Seq<char>>>;

/// `serde_json::from_slice::<Vec<String>>`: the strings of a JSON array of
/// strings, or nothing when the bytes are not one. What it accepts is named,
/// not spelled out.
#[verifier::external_body]
pub(crate) fn json_decode_strings(bytes: &[u8]) -> (items: Option<Vec<String>>)
    ensures
        json_strings_of(bytes@) == match items {
            Some(v) => Some(string_views(v@)),
            None => None::<Seq<Seq<char>>>,
        },
{
    serde_json::from_slice::<Vec<String>>(bytes).ok()
}

pub open spec fn formats_rows_view(rows: Seq<(String, Vec<u8>)>) -> Seq<(Seq<char>, Seq<u8>)> {
    rows.map_values(|r: (String, Vec<u8>)| (r.0@, r.1@))
}

/// The file list a clip's stored formats give: the last `file` entry that
/// holds a non-empty JSON list of paths.
pub open spec fn stored_files(rows: Seq<(Seq<char>, Seq<u8>)>) -> Option<Seq<Seq<char>>>
    decreases rows.len(),
{
    if rows.len() == 0 {
        None
    } else if rows.last().0 == FORMAT_FILE@ && (json_strings_of(rows.last().1) matches Some(v)
        && v.len() > 0) {
        json_strings_of(rows.last().1)
    } else {
        stored_files(rows.drop_last())
    }
}

/// The HTML a clip's stored formats give: the last `html` entry, decoded
/// leniently.
pub open spec fn stored_html(rows: Seq<(Seq<char>, Seq<u8>)>) -> Option<Seq<char>>
    decreases rows.len(),
{
    if rows.len() == 0 {
        None
    } else if rows.last().0 == FORMAT_HTML@ {
        Some(utf8_lossy(rows.last().1))
    } else {
        stored_html(rows.drop_last())
    }
}

/// The bytes of the last `html` entry among a clip's stored formats.
pub open spec fn stored_html_bytes(rows: Seq<(Seq<char>, Seq<u8>)>) -> Option<Seq<u8>>
    decreases rows.len(),
{
    if rows.len() == 0 {
        None
    } else if rows.last().0 == FORMAT_HTML@ {
        Some(rows.last().1)
    } else {
        stored_html_bytes(rows.drop_last())
    }
}

/// The RTF a clip's stored formats give: the last `rtf` entry.
pub open spec fn stored_rtf(rows: Seq<(Seq<char>, Seq<u8>)>) -> Option<Seq<u8>>
    decreases rows.len(),
{
    if rows.len() == 0 {
        None
    } else if rows.last().0 == FORMAT_RTF@ {
        Some(rows.last().1)
    } else {
        stored_rtf(rows.drop_last())
    }
}

pub open spec fn opt_strings_view(v: Option<Vec<String>>) -> Option<Seq<Seq<char>>> {
    match v {
        Some(x) => Some(string_views(x@)),
        None => None,
    }
}

pub open spec fn is_file_clip(clip: Clip) -> bool {
    clip.clip_type@ == "file"@
}

/// `p` carries exactly the image `png`.
pub open spec fn payload_is_image(p: ClipboardPayload, png: Seq<u8>) -> bool {
    &&& opt_bytes_view(p.image_png) == Some(png)
    &&& p.text is None
    &&& p.files is None
    &&& p.html is None
    &&& p.rtf is None
}

/// `p` carries what a non-image clip stores: its alternate formats, and its
/// text unless it is a file clip.
pub open spec fn payload_from_formats(
    p: ClipboardPayload,
    clip: Clip,
    rows: Seq<(Seq<char>, Seq<u8>)>,
) -> bool {
    &&& p.image_png is None
    &&& opt_strings_view(p.files) == stored_files(rows)
    &&& opt_view(p.html) == stored_html(rows)
    &&& opt_bytes_view(p.rtf) == stored_rtf(rows)
    &&& opt_view(p.text) == if is_file_clip(clip) {
        None
    } else {
        Some(utf8_lossy(clip.content@))
    }
    &&& !is_file_clip(clip) && valid_utf8(clip.content@) ==> opt_view(p.text) == Some(
        decode_utf8(clip.content@),
    )
    &&& stored_html_bytes(rows) matches Some(b) ==> (valid_utf8(b) ==> opt_view(p.html) == Some(
        decode_utf8(b),
    ))
}

/// What pasting a clip puts on the clipboard.
///
/// An image clip carries its full image, or fails as loading it failed. Any
/// other clip carries the alternate formats stored with it and its text; a file
/// clip carries no text, and without a stored file list there is nothing to
/// reproduce it with, so that is refused.
pub fn paste_payload(
    clip: &Clip,
    stored_formats: &Vec<(String, Vec<u8>)>,
    full_image: Option<Result<Vec<u8>, String>>,
) -> (r: Result<ClipboardPayload, String>)
    requires
        is_image_clip(*clip) ==> full_image is Some,
    ensures
        is_image_clip(*clip) ==> match full_image {
            Some(Ok(png)) => r matches Ok(p) && payload_is_image(p, png@),
            Some(Err(e)) => r matches Err(m) && m@ == e@,
            None => false,
        },
        !is_image_clip(*clip) ==> if is_file_clip(*clip) && stored_files(
            formats_rows_view(stored_formats@),
        ) is None {
            r matches Err(m) && m@ == "This file clip has no stored file list"@
        } else {
            r matches Ok(p) && payload_from_formats(p, *clip, formats_rows_view(stored_formats@))
        },
{
    let mut payload = ClipboardPayload::default();
    if str_eq(clip.clip_type.as_str(), "image") {
        return match full_image {
            Some(Ok(png)) => {
                payload.image_png = Some(png);
                Ok(payload)
            },
            Some(Err(e)) => Err(e),
            None => Err(String::new()),
        };
    }
    let ghost rows = formats_rows_view(stored_formats@);
    proof {
        reveal_strlit("file");
        reveal_strlit("html");
        reveal_strlit("rtf");
        assert(FORMAT_FILE@ == "file"@);
        assert(FORMAT_FILE@[0] == 'f');
        assert(FORMAT_HTML@[0] == 'h');
        assert(FORMAT_FILE@ != FORMAT_HTML@);
        assert(FORMAT_FILE@ != FORMAT_RTF@);
        assert(FORMAT_HTML@ != FORMAT_RTF@);
    }
    let mut i: usize = 0;
    assert(rows.take(0) =~= Seq::<(Seq<char>, Seq<u8>)>::empty());
    while i < stored_formats.len()
        invariant
            i <= stored_formats@.len(),
            rows == formats_rows_view(stored_formats@),
            FORMAT_FILE@ != FORMAT_HTML@,
            FORMAT_FILE@ != FORMAT_RTF@,
            FORMAT_HTML@ != FORMAT_RTF@,
            payload.image_png is None,
            payload.text is None,
            opt_strings_view(payload.files) == stored_files(rows.take(i as int)),
            opt_view(payload.html) == stored_html(rows.take(i as int)),
            opt_bytes_view(payload.rtf) == stored_rtf(rows.take(i as int)),
            stored_html_bytes(rows.take(i as int)) matches Some(b) ==> (valid_utf8(b) ==> opt_view(
                payload.html,
            ) == Some(decode_utf8(b))),
        decreases stored_formats.len() - i,
    {
        let (format, content) = &stored_formats[i];
        proof {
            assert(rows.take(i + 1).drop_last() =~= rows.take(i as int));
            assert(rows.take(i + 1).last() == (format@, content@));
        }
        if str_eq(format.as_str(), FORMAT_FILE) {
            match json_decode_strings(content.as_slice()) {
                Some(files) => {
                    if files.len() > 0 {
                        payload.files = Some(files);
                    }
                },
                None => {},
            }
        } else if str_eq(format.as_str(), FORMAT_HTML) {
            payload.html = Some(string_from_utf8_lossy(content.as_slice()));
        } else if str_eq(format.as_str(), FORMAT_RTF) {
            payload.rtf = Some(content.clone());
        }
        i = i + 1;
    }
    assert(rows.take(stored_formats@.len() as int) =~= rows);
    if str_eq(clip.clip_type.as_str(), "file") {
        if payload.files.is_none() {
            return Err("This file clip has no stored file list".to_owned());
        }
    } else {
        payload.text = Some(string_from_utf8_lossy(clip.content.as_slice()));
    }
    Ok(payload)
}

/// What a text clip is stored with comes back when it is pasted: its text,
/// the HTML that arrived with it and its RTF, unchanged.
pub proof fn lemma_stored_text_pastes_back(
    p: ClipboardPayload,
    clip: Clip,
    text: Seq<char>,
    files: Seq<Seq<char>>,
    html: Option<Seq<char>>,
    rtf: Option<Seq<u8>>,
)
    requires
        !is_file_clip(clip),
        clip.content@ == encode_utf8(text),
        payload_from_formats(p, clip, crate::ingest::spec_extra_formats(crate::ingest::ClipKind::Text, files, html, rtf)),
    ensures
        opt_view(p.text) == Some(text),
        opt_view(p.html) == html,
        opt_bytes_view(p.rtf) == rtf,
{
    reveal_strlit("file");
    reveal_strlit("html");
    reveal_strlit("rtf");
    assert(FORMAT_FILE@[0] == 'f');
    assert(FORMAT_HTML@[0] == 'h');
    assert(FORMAT_RTF@[0] == 'r');
    assert(FORMAT_FILE@ != FORMAT_HTML@);
    assert(FORMAT_FILE@ != FORMAT_RTF@);
    assert(FORMAT_HTML@ != FORMAT_RTF@);
    encode_utf8_valid_utf8(text);
    encode_utf8_decode_utf8(text);
    let rows = crate::ingest::spec_extra_formats(crate::ingest::ClipKind::Text, files, html, rtf);
    let file_part = if files.len() > 0 {
        seq![(FORMAT_FILE@, crate::ingest::json_string_list(files))]
    } else {
        Seq::<(Seq<char>, Seq<u8>)>::empty()
    };
    let html_part = match html {
        Some(h) => seq![(FORMAT_HTML@, encode_utf8(h))],
        None => Seq::<(Seq<char>, Seq<u8>)>::empty(),
    };
    let rtf_part = match rtf {
        Some(r) => seq![(FORMAT_RTF@, r)],
        None => Seq::<(Seq<char>, Seq<u8>)>::empty(),
    };
    assert(rows =~= file_part + html_part + rtf_part);
    if files.len() > 0 {
        assert(file_part.drop_last() =~= Seq::<(Seq<char>, Seq<u8>)>::empty());
        assert(file_part.last().0 == FORMAT_FILE@);
        assert(stored_html(file_part.drop_last()) is None);
        assert(stored_html_bytes(file_part.drop_last()) is None);
        assert(stored_rtf(file_part.drop_last()) is None);
    }
    assert(stored_html(file_part) is None);
    assert(stored_html_bytes(file_part) is None);
    assert(stored_rtf(file_part) is None);
    let fh = file_part + html_part;
    if let Some(h) = html {
        assert(fh.drop_last() =~= file_part);
        encode_utf8_valid_utf8(h);
        encode_utf8_decode_utf8(h);
        assert(stored_html_bytes(fh) == Some(encode_utf8(h)));
        assert(stored_rtf(fh) is None);
    } else {
        assert(fh =~= file_part);
    }
    if let Some(r) = rtf {
        assert(rows.drop_last() =~= fh);
        assert(stored_rtf(rows) == Some(r));
        assert(stored_html_bytes(rows) == stored_html_bytes(fh));
        assert(stored_html(rows) == stored_html(fh));
    } else {
        assert(rows =~= fh);
    }
}

/// Where an image clip's full bytes come from: its image file when it could
/// be read, else the image row's blob, else the clip's own content, skipping
/// whichever is empty.
pub fn full_image_content(
    clip: &Clip,
    from_file: Option<Vec<u8>>,
    from_blob: Option<Vec<u8>>,
) -> (r: Result<Vec<u8>, String>)
    ensures
        !is_image_clip(*clip) ==> (r matches Err(e) && e@ == "Clip is not an image"@),
        is_image_clip(*clip) ==> match from_file {
            Some(f) => r matches Ok(b) && b@ == f@,
            None => match from_blob {
                Some(blob) => if blob@.len() > 0 {
                    r matches Ok(b) && b@ == blob@
                } else if clip.content@.len() > 0 {
                    r matches Ok(b) && b@ == clip.content@
                } else {
                    r matches Err(e) && e@ == "Image content missing"@
                },
                None => if clip.content@.len() > 0 {
                    r matches Ok(b) && b@ == clip.content@
                } else {
                    r matches Err(e) && e@ == "Image content missing"@
                },
            },
        },
{
    if !str_eq(clip.clip_type.as_str(), "image") {
        return Err("Clip is not an image".to_owned());
    }
    match from_file {
        Some(bytes) => return Ok(bytes),
        None => {},
    }
    match from_blob {
        Some(blob) => {
            if blob.len() > 0 {
                return Ok(blob);
            }
        },
        None => {},
    }
    if clip.content.len() > 0 {
        return Ok(clip.content.clone());
    }
    Err("Image content missing".to_owned())
}

/// What the window is told was written after a paste: `[Image]` for an image
/// clip, otherwise its text.
pub fn pasted_content(clip: &Clip) -> (content: String)
    ensures
        content@ == if is_image_clip(*clip) {
            "[Image]"@
        } else {
            utf8_lossy(clip.content@)
        },
{
    if str_eq(clip.clip_type.as_str(), "image") {
        "[Image]".to_owned()
    } else {
        string_from_utf8_lossy(clip.content.as_slice())
    }
}

// ---------------------------------------------------------------------------
// Source applications
// ---------------------------------------------------------------------------

/// A source application that has clips, with how many.
#[derive(Debug, Clone)]
pub struct SourceAppCount {
    pub name: String,
    pub count: i64,
}

/// The grouped `(source_app, count)` rows as the filter offers them, in the
/// order the query returned them.
pub fn source_app_counts(rows: Vec<(String, i64)>) -> (apps: Vec<SourceAppCount>)
    ensures
        apps@.len() == rows@.len(),
        forall|k: int|
            0 <= k < rows@.len() ==> (#[trigger] apps@[k]).name@ == rows@[k].0@ && apps@[k].count
                == rows@[k].1,
{
    let mut apps: Vec<SourceAppCount> = Vec::new();
    let mut i: usize = 0;
    while i < rows.len()
        invariant
            i <= rows@.len(),
            apps@.len() == i,
            forall|k: int|
                0 <= k < i ==> (#[trigger] apps@[k]).name@ == rows@[k].0@ && apps@[k].count
                    == rows@[k].1,
        decreases rows.len() - i,
    {
        apps.push(SourceAppCount { name: rows[i].0.clone(), count: rows[i].1 });
        i = i + 1;
    }
    apps
}

// ---------------------------------------------------------------------------
// AI actions
// ---------------------------------------------------------------------------

/// What the AI can be asked to do with a clip.
#[derive(Debug, Clone, Copy, PartialEq, Eq, Structural)]
pub enum AiAction {
    Summarize,
    Translate,
    ExplainCode,
    FixGrammar,
}

/// The action a name from the window asks for.
pub open spec fn ai_action_named(name: Seq<char>) -> Option<AiAction> {
    if name == "summarize"@ {
        Some(AiAction::Summarize)
    } else if name == "translate"@ {
        Some(AiAction::Translate)
    } else if name == "explain_code"@ {
        Some(AiAction::ExplainCode)
    } else if name == "fix_grammar"@ {
        Some(AiAction::FixGrammar)
    } else {
        None
    }
}

pub fn parse_ai_action(name: &str) -> (r: Result<AiAction, String>)
    ensures
        match ai_action_named(name@) {
            Some(a) => r == Ok::<AiAction, String>(a),
            None => r matches Err(e) && e@ == "Invalid AI action"@,
        },
{
    if str_eq(name, "summarize") {
        Ok(AiAction::Summarize)
    } else if str_eq(name, "translate") {
        Ok(AiAction::Translate)
    } else if str_eq(name, "explain_code") {
        Ok(AiAction::ExplainCode)
    } else if str_eq(name, "fix_grammar") {
        Ok(AiAction::FixGrammar)
    } else {
        Err("Invalid AI action".to_owned())
    }
}

/// The metadata key an action's result is stored under.
pub fn ai_result_key(action: AiAction) -> (key: &'static str)
    ensures
        key@ == match action {
            AiAction::Summarize => "ai_summary"@,
            AiAction::Translate => "ai_translation"@,
            AiAction::ExplainCode => "ai_explanation"@,
            AiAction::FixGrammar => "ai_grammar_fix"@,
        },
{
    match action {
        AiAction::Summarize => "ai_summary",
        AiAction::Translate => "ai_translation",
        AiAction::ExplainCode => "ai_explanation",
        AiAction::FixGrammar => "ai_grammar_fix",
    }
}

/// The text an AI action works on: a text, HTML or URL clip's content,
/// decoded leniently; any other clip is refused.
pub fn ai_input_text(clip: &Clip) -> (r: Result<String, String>)
    ensures
        (clip.clip_type@ == "text"@ || clip.clip_type@ == "html"@ || clip.clip_type@ == "url"@)
            ==> (r matches Ok(t) && t@ == utf8_lossy(clip.content@)),
        !(clip.clip_type@ == "text"@ || clip.clip_type@ == "html"@ || clip.clip_type@ == "url"@)
            ==> (r matches Err(e) && e@ == "AI processing only supported for text content"@),
{
    let kind = clip.clip_type.as_str();
    if str_eq(kind, "text") || str_eq(kind, "html") || str_eq(kind, "url") {
        Ok(string_from_utf8_lossy(clip.content.as_slice()))
    } else {
        Err("AI processing only supported for text content".to_owned())
    }
}

/// The prompts the settings hold for each action; an empty one means the
/// provider's default.
pub struct AiPrompts {
    pub summarize: String,
    pub translate: String,
    pub explain_code: String,
    pub fix_grammar: String,
}

/// The prompt the settings hold for an action.
pub open spec fn prompt_for(prompts: AiPrompts, action: AiAction) -> Seq<char> {
    match action {
        AiAction::Summarize => prompts.summarize@,
        AiAction::Translate => prompts.translate@,
        AiAction::ExplainCode => prompts.explain_code@,
        AiAction::FixGrammar => prompts.fix_grammar@,
    }
}

/// What is handed to the AI provider for one request.
pub struct AiRequest {
    pub action: AiAction,
    /// The clip's text.
    pub text: String,
    /// The provider's endpoint, when the settings name one.
    pub base_url: Option<String>,
    /// The prompt the settings hold for the action.
    pub prompt: String,
}

/// Whether a clip type can be handed to the AI.
pub open spec fn ai_takes(clip_type: Seq<char>) -> bool {
    clip_type == "text"@ || clip_type == "html"@ || clip_type == "url"@
}

/// Prepares an AI request for `clip`, checking in turn that the clip holds
/// text, that an API key is set and that the action is known.
pub fn ai_request(
    clip: &Clip,
    action_name: &str,
    api_key: &str,
    base_url: String,
    prompts: AiPrompts,
) -> (r: Result<AiRequest, String>)
    ensures
        !ai_takes(clip.clip_type@) ==> (r matches Err(e) && e@
            == "AI processing only supported for text content"@),
        ai_takes(clip.clip_type@) && api_key@.len() == 0 ==> (r matches Err(e) && e@
            == "AI API Key is missing in settings"@),
        ai_takes(clip.clip_type@) && api_key@.len() > 0 && ai_action_named(action_name@) is None
            ==> (r matches Err(e) && e@ == "Invalid AI action"@),
        ai_takes(clip.clip_type@) && api_key@.len() > 0 && ai_action_named(action_name@) is Some
            ==> (r matches Ok(q) && q.action == ai_action_named(action_name@)->0 && q.text@
            == utf8_lossy(clip.content@) && opt_view(q.base_url) == (if base_url@.len() == 0 {
            None::<Seq<char>>
        } else {
            Some(base_url@)
        }) && q.prompt@ == prompt_for(prompts, q.action)),
{
    let text = ai_input_text(clip)?;
    if api_key.unicode_len() == 0 {
        return Err("AI API Key is missing in settings".to_owned());
    }
    let action = parse_ai_action(action_name)?;
    let base_url = if base_url.unicode_len() == 0 {
        None
    } else {
        Some(base_url)
    };
    let prompt = match action {
        AiAction::Summarize => prompts.summarize,
        AiAction::Translate => prompts.translate,
        AiAction::ExplainCode => prompts.explain_code,
        AiAction::FixGrammar => prompts.fix_grammar,
    };
    Ok(AiRequest { action, text, base_url, prompt })
}

} // verus!
