//! Clipboard entries: what was copied, how it is classified and how it is shown.
use crate::text::{
    chars_of, concat_chars, decimal, decimal_u64, from_utf8_lossy, has_prefix,
    join, join_chars, slice_chars, split_whitespace, starts_with, str_eq, string_from,
    utf8_bytes, utf8_lossy, words,
};
use vstd::prelude::*;
use vstd::utf8::encode_utf8;

verus! {

/// The kind of a clipboard entry.
#[derive(Debug, Clone, Copy, PartialEq, Eq, Structural)]
pub enum EntryKind {
    Text,
    Image,
    Binary,
    Sensitive,
}

/// The kind of an entry with MIME type `mime`: sensitive entries are `Sensitive`
/// whatever their type; `text/*` and the X11 string targets are `Text`;
/// `image/*` is `Image`; anything else is `Binary`.
pub open spec fn kind_of(mime: Seq<char>, sensitive: bool) -> EntryKind {
    if sensitive {
        EntryKind::Sensitive
    } else if starts_with(mime, "text/"@) || mime == "UTF8_STRING"@ || mime == "STRING"@ || mime
        == "TEXT"@ {
        EntryKind::Text
    } else if starts_with(mime, "image/"@) {
        EntryKind::Image
    } else {
        EntryKind::Binary
    }
}

impl EntryKind {
    pub fn from_mime(mime: &str, sensitive: bool) -> (k: Self)
        ensures
            k == kind_of(mime@, sensitive),
    {
        if sensitive {
            return EntryKind::Sensitive;
        }
        let m = chars_of(mime);
        if has_prefix(&m, &chars_of("text/")) || str_eq(mime, "UTF8_STRING") || str_eq(
            mime,
            "STRING",
        ) || str_eq(mime, "TEXT") {
            EntryKind::Text
        } else if has_prefix(&m, &chars_of("image/")) {
            EntryKind::Image
        } else {
            EntryKind::Binary
        }
    }
}

/// The 32-byte BLAKE3 digest of a byte string.
pub uninterp spec fn blake3_digest(input: Seq<u8>) -> Seq<u8>;

/// Hashes bytes. Calls `blake3::hash`; the digest is named `blake3_digest`.
#[verifier::external_body]
fn blake3_hash(input: &[u8]) -> (h: [u8; 32])
    ensures
        h@ == blake3_digest(input@),
{
    *blake3::hash(input).as_bytes()
}

/// The current time in microseconds since the Unix epoch (0 if the clock is
/// before it). Reads the system clock through std's `SystemTime::now`; nothing is
/// claimed of the value.
#[verifier::external_body]
pub fn now_micros() -> u64 {
    std::time::SystemTime::now().duration_since(std::time::UNIX_EPOCH).unwrap_or_default().as_micros() as u64
}

/// One stored clipboard entry.
#[derive(Debug)]
pub struct ClipboardEntry {
    pub id: u64,
    pub timestamp: u64,
    pub mime_type: String,
    pub kind: EntryKind,
    pub data: Vec<u8>,
    pub thumb: Vec<u8>,
    pub hash: [u8; 32],
    pub sensitive: bool,
    pub filename: Option<String>,
}

/// The form in which older versions stored entries.
#[derive(Debug)]
pub struct LegacyClipboardEntryV1 {
    pub id: u64,
    pub timestamp: u64,
    pub mime_type: String,
    pub data: Vec<u8>,
    pub hash: [u8; 32],
    pub sensitive: bool,
}

/// The separator between a label's parts.
pub open spec fn dot() -> Seq<char> {
    " \u{b7} "@
}

/// How an entry with a file name is labelled: the name and what it is.
pub open spec fn file_label(name: Seq<char>, kind: EntryKind, mime: Seq<char>, len: nat) -> Seq<char> {
    match kind {
        EntryKind::Sensitive => "********"@,
        EntryKind::Image => name + dot() + decimal(len / 1024) + " KB"@,
        EntryKind::Text => if mime == "text/uri-list"@ {
            name + dot() + "path"@
        } else {
            name + dot() + "text"@
        },
        EntryKind::Binary => name + dot() + mime,
    }
}

/// How a non-text entry without a file name is labelled.
pub open spec fn data_label(kind: EntryKind, mime: Seq<char>, len: nat) -> Seq<char> {
    match kind {
        EntryKind::Image => "image/"@ + (if starts_with(mime, "image/"@) {
            mime.skip("image/"@.len() as int)
        } else {
            "?"@
        }) + dot() + decimal(len / 1024) + " KB"@,
        _ => mime + dot() + decimal(len) + " B"@,
    }
}

/// The text of `data` on one line: its words separated by single spaces.
pub open spec fn flat_text(data: Seq<u8>) -> Seq<char> {
    join(words(utf8_lossy(data)), seq![' '])
}

/// A one-line preview of at most `max` characters of text, with an ellipsis when
/// the text was cut.
pub open spec fn clip(flat: Seq<char>, max: nat) -> Seq<char> {
    if flat.len() > max {
        flat.take(max as int).push('\u{2026}')
    } else {
        flat
    }
}

impl ClipboardEntry {
    /// The short label shown in the list, with text cut to `max_chars` characters.
    pub open spec fn preview_spec(&self, max_chars: nat) -> Seq<char> {
        match self.filename {
            Some(name) => file_label(name@, self.kind, self.mime_type@, self.data@.len()),
            None => match self.kind {
                EntryKind::Sensitive => "********"@,
                EntryKind::Text => clip(flat_text(self.data@), max_chars),
                _ => data_label(self.kind, self.mime_type@, self.data@.len()),
            },
        }
    }

    /// The full text shown in the preview pane.
    pub open spec fn full_content_spec(&self) -> Seq<char> {
        match self.filename {
            Some(name) => file_label(name@, self.kind, self.mime_type@, self.data@.len()),
            None => match self.kind {
                EntryKind::Sensitive => "********"@,
                EntryKind::Text => utf8_lossy(self.data@),
                _ => data_label(self.kind, self.mime_type@, self.data@.len()),
            },
        }
    }

    /// A new entry stamped with the current time, which also serves as its id (see
    /// `with_filename_at`, which it calls with the clock's reading).
    pub fn with_filename(
        mime_type: String,
        data: Vec<u8>,
        sensitive: bool,
        thumb: Vec<u8>,
        filename: Option<String>,
    ) -> (e: Self)
        ensures
            e.id == e.timestamp,
            e.mime_type == mime_type,
            e.kind == kind_of(mime_type@, sensitive),
            e.data == data,
            e.thumb == thumb,
            e.hash@ == blake3_digest(encode_utf8(mime_type@) + data@),
            e.sensitive == sensitive,
            e.filename == filename,
    {
        let now = now_micros();
        Self::with_filename_at(now, mime_type, data, sensitive, thumb, filename)
    }

    /// A new entry stamped with the time `now`, which also serves as its id; the
    /// hash covers the MIME type's UTF-8 bytes followed by the data.
    pub fn with_filename_at(
        now: u64,
        mime_type: String,
        data: Vec<u8>,
        sensitive: bool,
        thumb: Vec<u8>,
        filename: Option<String>,
    ) -> (e: Self)
        ensures
            e.id == now,
            e.timestamp == now,
            e.mime_type == mime_type,
            e.kind == kind_of(mime_type@, sensitive),
            e.data == data,
            e.thumb == thumb,
            e.hash@ == blake3_digest(encode_utf8(mime_type@) + data@),
            e.sensitive == sensitive,
            e.filename == filename,
    {
        let kind = EntryKind::from_mime(mime_type.as_str(), sensitive);
        let mut input = utf8_bytes(mime_type.as_str());
        let ghost m = input@;
        for i in 0..data.len()
            invariant
                input@ == m + data@.take(i as int),
        {
            input.push(data[i]);
            proof {
                assert(m + data@.take(i + 1) =~= (m + data@.take(i as int)).push(data@[i as int]));
            }
        }
        proof {
            assert(data@.take(data.len() as int) =~= data@);
        }
        let hash = blake3_hash(input.as_slice());
        ClipboardEntry {
            id: now,
            timestamp: now,
            mime_type,
            kind,
            data,
            thumb,
            hash,
            sensitive,
            filename,
        }
    }

    /// The current form of an entry stored in the older form: no thumbnail, no file
    /// name, and the kind derived from its MIME type.
    pub fn from_legacy(legacy: LegacyClipboardEntryV1) -> (e: Self)
        ensures
            e.id == legacy.id,
            e.timestamp == legacy.timestamp,
            e.kind == kind_of(legacy.mime_type@, legacy.sensitive),
            e.mime_type == legacy.mime_type,
            e.data == legacy.data,
            e.thumb@.len() == 0,
            e.hash == legacy.hash,
            e.sensitive == legacy.sensitive,
            e.filename is None,
    {
        let kind = EntryKind::from_mime(legacy.mime_type.as_str(), legacy.sensitive);
        ClipboardEntry {
            id: legacy.id,
            timestamp: legacy.timestamp,
            kind,
            mime_type: legacy.mime_type,
            data: legacy.data,
            thumb: Vec::new(),
            hash: legacy.hash,
            sensitive: legacy.sensitive,
            filename: None,
        }
    }

    fn file_label_exec(&self, name: &String) -> (r: Vec<char>)
        ensures
            r@ == file_label(name@, self.kind, self.mime_type@, self.data@.len()),
    {
        let n = chars_of(name.as_str());
        let d = chars_of(" \u{b7} ");
        match self.kind {
            EntryKind::Sensitive => chars_of("********"),
            EntryKind::Image => {
                let kb = decimal_u64((self.data.len() / 1024) as u64);
                let r = concat_chars(&concat_chars(&concat_chars(&n, &d), &kb), &chars_of(" KB"));
                r
            },
            EntryKind::Text => {
                if str_eq(self.mime_type.as_str(), "text/uri-list") {
                    concat_chars(&concat_chars(&n, &d), &chars_of("path"))
                } else {
                    concat_chars(&concat_chars(&n, &d), &chars_of("text"))
                }
            },
            EntryKind::Binary => concat_chars(&concat_chars(&n, &d), &chars_of(self.mime_type.as_str())),
        }
    }

    fn data_label_exec(&self) -> (r: Vec<char>)
        requires
            self.kind != EntryKind::Sensitive,
            self.kind != EntryKind::Text,
        ensures
            r@ == data_label(self.kind, self.mime_type@, self.data@.len()),
    {
        let m = chars_of(self.mime_type.as_str());
        let d = chars_of(" \u{b7} ");
        match self.kind {
            EntryKind::Image => {
                let prefix = chars_of("image/");
                let rest = if has_prefix(&m, &prefix) {
                    slice_chars(&m, prefix.len(), m.len())
                } else {
                    chars_of("?")
                };
                proof {
                    if starts_with(m@, "image/"@) {
                        assert(rest@ =~= m@.skip("image/"@.len() as int));
                    }
                }
                let kb = decimal_u64((self.data.len() / 1024) as u64);
                concat_chars(&concat_chars(&concat_chars(&concat_chars(&prefix, &rest), &d), &kb), &chars_of(" KB"))
            },
            _ => {
                let len = decimal_u64(self.data.len() as u64);
                concat_chars(&concat_chars(&concat_chars(&m, &d), &len), &chars_of(" B"))
            },
        }
    }

    /// The short label shown in the list.
    /// A text entry without a file name is listed by its flattened text (its
    /// words joined by single spaces) as it is when that has at most `max`
    /// characters, with no ellipsis; otherwise by its first `max` characters and
    /// then one ellipsis.
    pub proof fn lemma_text_preview(&self, max: nat)
        requires
            self.filename is None,
            self.kind == EntryKind::Text,
        ensures
            ({
                let f = join(words(utf8_lossy(self.data@)), seq![' ']);
                let p = self.preview_spec(max);
                &&& f.len() <= max ==> p == f
                &&& f.len() > max ==> p.len() == max + 1 && p.take(max as int) == f.take(max as int)
                    && p[max as int] == '\u{2026}'
            }),
    {
        let f = join(words(utf8_lossy(self.data@)), seq![' ']);
        if f.len() > max {
            assert(self.preview_spec(max).take(max as int) =~= f.take(max as int));
        }
    }

    pub fn preview(&self, max_chars: usize) -> (r: String)
        ensures
            r@ == self.preview_spec(max_chars as nat),
    {
        match &self.filename {
            Some(name) => string_from(&self.file_label_exec(name)),
            None => match self.kind {
                EntryKind::Sensitive => String::from_str("********"),
                EntryKind::Text => {
                    let s = from_utf8_lossy(self.data.as_slice());
                    let words_v = split_whitespace(&chars_of(s.as_str()));
                    let mut sep: Vec<char> = Vec::new();
                    sep.push(' ');
                    proof {
                        assert(sep@ =~= seq![' ']);
                    }
                    let flat = join_chars(&words_v, &sep);
                    if flat.len() > max_chars {
                        let mut out = slice_chars(&flat, 0, max_chars);
                        out.push('\u{2026}');
                        proof {
                            assert(flat@.subrange(0, max_chars as int) =~= flat@.take(max_chars as int));
                        }
                        string_from(&out)
                    } else {
                        string_from(&flat)
                    }
                },
                _ => string_from(&self.data_label_exec()),
            },
        }
    }

    /// The full text shown in the preview pane.
    pub fn full_content(&self) -> (r: String)
        ensures
            r@ == self.full_content_spec(),
    {
        match &self.filename {
            Some(name) => string_from(&self.file_label_exec(name)),
            None => match self.kind {
                EntryKind::Sensitive => String::from_str("********"),
                EntryKind::Text => from_utf8_lossy(self.data.as_slice()),
                _ => string_from(&self.data_label_exec()),
            },
        }
    }
}

/// What the daemon tells clients about an entry: its metadata and a preview of at
/// most 120 characters, without the data itself.
#[derive(Debug)]
pub struct EntryMeta {
    pub id: u64,
    pub timestamp: u64,
    pub mime_type: String,
    pub kind: EntryKind,
    pub data_len: usize,
    pub sensitive: bool,
    pub preview: String,
    pub thumb: Vec<u8>,
    pub filename: Option<String>,
}

/// The content of an `EntryMeta`.
pub struct EntryMetaView {
    pub id: u64,
    pub timestamp: u64,
    pub mime_type: Seq<char>,
    pub kind: EntryKind,
    pub data_len: usize,
    pub sensitive: bool,
    pub preview: Seq<char>,
    pub thumb: Seq<u8>,
    pub filename: Option<Seq<char>>,
}

impl View for EntryMeta {
    type V = EntryMetaView;

    open spec fn view(&self) -> EntryMetaView {
        EntryMetaView {
            id: self.id,
            timestamp: self.timestamp,
            mime_type: self.mime_type@,
            kind: self.kind,
            data_len: self.data_len,
            sensitive: self.sensitive,
            preview: self.preview@,
            thumb: self.thumb@,
            filename: crate::config::opt_view(self.filename),
        }
    }
}

/// The views of a sequence of entry metadata.
pub open spec fn meta_views(v: Seq<EntryMeta>) -> Seq<EntryMetaView> {
    v.map_values(|m: EntryMeta| m@)
}

impl Clone for EntryMeta {
    fn clone(&self) -> (r: Self)
        ensures
            r@ == self@,
    {
        let thumb = self.thumb.clone();
        proof {
            assert(thumb@ =~= self.thumb@);
        }
        EntryMeta {
            id: self.id,
            timestamp: self.timestamp,
            mime_type: self.mime_type.clone(),
            kind: self.kind,
            data_len: self.data_len,
            sensitive: self.sensitive,
            preview: self.preview.clone(),
            thumb,
            filename: match &self.filename {
                Some(f) => Some(f.clone()),
                None => None,
            },
        }
    }
}

impl EntryMeta {
    pub fn from(entry: &ClipboardEntry) -> (m: Self)
        ensures
            m.id == entry.id,
            m.timestamp == entry.timestamp,
            m.mime_type == entry.mime_type,
            m.kind == entry.kind,
            m.data_len == entry.data.len(),
            m.sensitive == entry.sensitive,
            m.preview@ == entry.preview_spec(120),
            m.thumb@ == entry.thumb@,
            m.filename == entry.filename,
    {
        let thumb = entry.thumb.clone();
        proof {
            assert(thumb@ =~= entry.thumb@);
        }
        EntryMeta {
            id: entry.id,
            timestamp: entry.timestamp,
            mime_type: entry.mime_type.clone(),
            kind: entry.kind,
            data_len: entry.data.len(),
            sensitive: entry.sensitive,
            preview: entry.preview(120),
            thumb,
            filename: match &entry.filename {
                Some(f) => Some(f.clone()),
                None => None,
            },
        }
    }
}

} // verus!
