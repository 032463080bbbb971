//! Turning what the clipboard holds into an entry: trailing NULs, sensitive
//! types, and file paths or URI lists named by their file.
use crate::clipboard::models::{ClipboardEntry, kind_of, blake3_digest};
use crate::text::{
    byte_len, chars_of, concat_chars, contains_chars, contains_seq, file_name, from_utf8_lossy,
    has_prefix, path_file_name, slice_chars, starts_with, str_eq, string_from, trim, trim_chars,
    utf8_bytes, utf8_lossy,
};
use vstd::prelude::*;
use vstd::utf8::encode_utf8;

verus! {

/// The value of an ASCII hexadecimal digit.
pub open spec fn hex_value(c: char) -> Option<nat> {
    if '0' <= c <= '9' {
        Some((c as u32 - 48) as nat)
    } else if 'a' <= c <= 'f' {
        Some((c as u32 - 87) as nat)
    } else if 'A' <= c <= 'F' {
        Some((c as u32 - 55) as nat)
    } else {
        None
    }
}

/// What `u8::from_str_radix(_, 16)` gives for a two-character string: two hex
/// digits, or a `+` sign and one digit.
pub open spec fn hex_pair(a: char, b: char) -> Option<u8> {
    match (hex_value(a), hex_value(b)) {
        (Some(x), Some(y)) => Some((16 * x + y) as u8),
        _ => if a == '+' {
            match hex_value(b) {
                Some(y) => Some(y as u8),
                None => None,
            }
        } else {
            None
        },
    }
}

/// The bytes that percent-decoding `s` produces: `%` with two hex digits becomes
/// that byte; a `%` without them stays, followed by the (at most two) characters
/// after it; every other character is its UTF-8 encoding.
pub open spec fn percent_bytes(s: Seq<char>) -> Seq<u8>
    decreases s.len(),
{
    if s.len() == 0 {
        seq![]
    } else if s[0] == '%' {
        let hl = if s.len() >= 3 {
            2
        } else {
            s.len() - 1
        };
        let hex = s.subrange(1, 1 + hl);
        if hl == 2 && hex_pair(hex[0], hex[1]) is Some {
            seq![hex_pair(hex[0], hex[1])->0] + percent_bytes(s.skip(3))
        } else {
            seq![37u8] + encode_utf8(hex) + percent_bytes(s.skip(1 + hl))
        }
    } else {
        encode_utf8(seq![s[0]]) + percent_bytes(s.skip(1))
    }
}

/// The percent-decoded text of `s` (invalid UTF-8 replaced).
pub open spec fn percent_decoded(s: Seq<char>) -> Seq<char> {
    utf8_lossy(percent_bytes(s))
}

/// The value of a hex digit.
fn hex_value_exec(c: char) -> (r: Option<u8>)
    ensures
        r matches Some(v) ==> hex_value(c) == Some(v as nat),
        r is None ==> hex_value(c) is None,
{
    if '0' <= c && c <= '9' {
        Some((c as u8) - 48)
    } else if 'a' <= c && c <= 'f' {
        Some((c as u8) - 87)
    } else if 'A' <= c && c <= 'F' {
        Some((c as u8) - 55)
    } else {
        None
    }
}

/// Parses two characters as a hexadecimal byte the way `u8::from_str_radix` does.
pub fn parse_hex_pair(a: char, b: char) -> (r: Option<u8>)
    ensures
        r == hex_pair(a, b),
{
    match (hex_value_exec(a), hex_value_exec(b)) {
        (Some(x), Some(y)) => Some(16 * x + y),
        _ => if a == '+' {
            match hex_value_exec(b) {
                Some(y) => Some(y),
                None => None,
            }
        } else {
            None
        },
    }
}

/// The UTF-8 bytes of one character.
fn char_bytes(c: char) -> (r: Vec<u8>)
    ensures
        r@ == encode_utf8(seq![c]),
{
    let mut s = String::new();
    crate::text::push_char(&mut s, c);
    proof {
        assert(s@ =~= seq![c]);
    }
    utf8_bytes(s.as_str())
}

/// Appends bytes.
fn extend_bytes(out: &mut Vec<u8>, b: &Vec<u8>)
    ensures
        final(out)@ == old(out)@ + b@,
{
    for i in 0..b.len()
        invariant
            out@ == old(out)@ + b@.take(i as int),
    {
        out.push(b[i]);
        proof {
            assert(old(out)@ + b@.take(i + 1) =~= (old(out)@ + b@.take(i as int)).push(b@[i as int]));
        }
    }
    proof {
        assert(b@.take(b.len() as int) =~= b@);
    }
}

/// Without `%` signs, percent-decoding only re-encodes the characters.
proof fn lemma_plain_percent_bytes(s: Seq<char>)
    requires
        !s.contains('%'),
    ensures
        percent_bytes(s) == encode_utf8(s),
    decreases s.len(),
{
    if s.len() > 0 {
        assert(s[0] != '%');
        assert(!s.skip(1).contains('%')) by {
            if s.skip(1).contains('%') {
                let k = choose|k: int| 0 <= k < s.skip(1).len() && s.skip(1)[k] == '%';
                assert(s[k + 1] == '%');
            }
        }
        lemma_plain_percent_bytes(s.skip(1));
        assert(seq![s[0]].drop_first() =~= Seq::<char>::empty());
        assert(encode_utf8(Seq::<char>::empty()) =~= Seq::<u8>::empty());
        assert(encode_utf8(seq![s[0]]) =~= vstd::utf8::encode_scalar(s[0] as u32));
        assert(s.skip(1) =~= s.drop_first());
    }
}

/// Percent-decodes a path; a path without `%` comes back unchanged.
pub fn percent_decode(input: &str) -> (r: String)
    ensures
        r@ == percent_decoded(input@),
        !input@.contains('%') ==> r@ == input@,
{
    let s = chars_of(input);
    let mut bytes: Vec<u8> = Vec::new();
    proof {
        assert(s@.skip(0) =~= s@);
        assert(seq![] + percent_bytes(s@) =~= percent_bytes(s@));
    }
    let mut i: usize = 0;
    while i < s.len()
        invariant
            i <= s.len(),
            percent_bytes(s@) == bytes@ + percent_bytes(s@.skip(i as int)),
        decreases s.len() - i,
    {
        proof {
            assert(s@.skip(i as int)[0] == s@[i as int]);
        }
        let ghost t = s@.skip(i as int);
        let ghost b0 = bytes@;
        let ch = s[i];
        if ch == '%' {
            let hl: usize = if s.len() - i >= 3 { 2 } else { s.len() - i - 1 };
            let hex = slice_chars(&s, i + 1, i + 1 + hl);
            proof {
                assert(hex@ =~= t.subrange(1, 1 + hl));
            }
            let mut done = false;
            if hl == 2 {
                match parse_hex_pair(hex[0], hex[1]) {
                    Some(b) => {
                        bytes.push(b);
                        proof {
                            assert(t.skip(3) =~= s@.skip(i + 3));
                            assert(percent_bytes(t) == seq![b] + percent_bytes(t.skip(3)));
                            assert(b0 + (seq![b] + percent_bytes(t.skip(3))) =~= bytes@ + percent_bytes(
                                s@.skip(i + 3),
                            ));
                        }
                        i = i + 3;
                        done = true;
                    },
                    None => {},
                }
            }
            if !done {
                bytes.push(37u8);
                let mut hs = String::new();
                for k in 0..hex.len()
                    invariant
                        hs@ == hex@.take(k as int),
                {
                    crate::text::push_char(&mut hs, hex[k]);
                    proof {
                        assert(hex@.take(k + 1) =~= hex@.take(k as int).push(hex@[k as int]));
                    }
                }
                proof {
                    assert(hex@.take(hex.len() as int) =~= hex@);
                }
                let hb = utf8_bytes(hs.as_str());
                extend_bytes(&mut bytes, &hb);
                proof {
                    assert(t.skip(1 + hl) =~= s@.skip(i + 1 + hl));
                    assert(percent_bytes(t) == seq![37u8] + encode_utf8(hex@) + percent_bytes(
                        t.skip(1 + hl),
                    ));
                    assert(b0 + (seq![37u8] + encode_utf8(hex@) + percent_bytes(t.skip(1 + hl)))
                        =~= bytes@ + percent_bytes(s@.skip(i + 1 + hl)));
                }
                i = i + 1 + hl;
            }
        } else {
            let cb = char_bytes(ch);
            extend_bytes(&mut bytes, &cb);
            proof {
                assert(t.skip(1) =~= s@.skip(i + 1));
                assert(t[0] == ch);
                assert(percent_bytes(t) == encode_utf8(seq![ch]) + percent_bytes(t.skip(1)));
                assert(b0 + (encode_utf8(seq![ch]) + percent_bytes(t.skip(1))) =~= bytes@
                    + percent_bytes(s@.skip(i + 1)));
            }
            i = i + 1;
        }
    }
    proof {
        assert(s@.skip(s.len() as int) =~= Seq::<char>::empty());
        assert(bytes@ + seq![] =~= bytes@);
        if !input@.contains('%') {
            lemma_plain_percent_bytes(s@);
            vstd::utf8::encode_utf8_valid_utf8(s@);
            vstd::utf8::encode_utf8_decode_utf8(s@);
        }
    }
    from_utf8_lossy(bytes.as_slice())
}


/// The pieces of `s` between newlines (there is always at least one).
pub open spec fn raw_pieces(s: Seq<char>) -> Seq<Seq<char>>
    decreases s.len(),
{
    if s.len() == 0 {
        seq![seq![]]
    } else {
        let p = raw_pieces(s.drop_last());
        if s.last() == '\n' {
            p.push(seq![])
        } else {
            p.update(p.len() - 1, p.last().push(s.last()))
        }
    }
}

/// A line without the carriage return that ended it.
pub open spec fn strip_cr(l: Seq<char>) -> Seq<char> {
    if l.len() > 0 && l.last() == '\r' {
        l.drop_last()
    } else {
        l
    }
}

/// The lines of `s` as `str::lines` yields them: split at `\n`, each line that
/// ended in `\r\n` without the `\r`, and no empty line after a final newline.
pub open spec fn lines_of(s: Seq<char>) -> Seq<Seq<char>> {
    let p = raw_pieces(s);
    let ended = p.drop_last().map_values(|l: Seq<char>| strip_cr(l));
    if p.last().len() == 0 {
        ended
    } else {
        ended.push(p.last())
    }
}

/// The index of the first line that starts with `file://`, if any.
pub open spec fn first_file_line(ls: Seq<Seq<char>>) -> Option<int>
    decreases ls.len(),
{
    if ls.len() == 0 {
        None
    } else if starts_with(ls[0], "file://"@) {
        Some(0)
    } else {
        match first_file_line(ls.drop_first()) {
            Some(i) => Some(i + 1),
            None => None,
        }
    }
}

/// An optional index moved up by `d`.
pub open spec fn shift(o: Option<int>, d: int) -> Option<int> {
    match o {
        Some(k) => Some(k + d),
        None => None,
    }
}

/// The file name that a URI list names: the first `file://` line, its path
/// percent-decoded when absolute, and that path's last component.
pub open spec fn uri_filename(data: Seq<u8>) -> Option<Seq<char>> {
    let ls = lines_of(utf8_lossy(data));
    match first_file_line(ls) {
        Some(i) => {
            let path = ls[i].skip("file://"@.len() as int);
            let decoded = if starts_with(path, "/"@) {
                percent_decoded(path)
            } else {
                path
            };
            path_file_name(decoded)
        },
        None => None,
    }
}

proof fn lemma_raw_pieces_nonempty(s: Seq<char>)
    ensures
        raw_pieces(s).len() >= 1,
    decreases s.len(),
{
    if s.len() > 0 {
        lemma_raw_pieces_nonempty(s.drop_last());
    }
}

/// The lines of a text.
pub fn lines(s: &Vec<char>) -> (r: Vec<Vec<char>>)
    ensures
        crate::text::vec_views(r@) == lines_of(s@),
{
    let mut done: Vec<Vec<char>> = Vec::new();
    let mut cur: Vec<char> = Vec::new();
    for i in 0..s.len()
        invariant
            crate::text::vec_views(done@).push(cur@) == raw_pieces(s@.take(i as int)),
    {
        let c = s[i];
        proof {
            assert(s@.take(i + 1).drop_last() =~= s@.take(i as int));
            lemma_raw_pieces_nonempty(s@.take(i as int));
        }
        let ghost pd = done@;
        if c == '\n' {
            let w = cur;
            cur = Vec::new();
            done.push(w);
            proof {
                assert(crate::text::vec_views(done@) =~= crate::text::vec_views(pd).push(w@));
                assert(crate::text::vec_views(done@).push(cur@) =~= raw_pieces(s@.take(i as int)).push(seq![]));
            }
        } else {
            cur.push(c);
            proof {
                assert(crate::text::vec_views(done@).push(cur@) =~= raw_pieces(s@.take(i as int)).update(
                    raw_pieces(s@.take(i as int)).len() - 1,
                    raw_pieces(s@.take(i as int)).last().push(c),
                ));
            }
        }
    }
    proof {
        assert(s@.take(s.len() as int) =~= s@);
    }
    let ghost p = raw_pieces(s@);
    let mut r: Vec<Vec<char>> = Vec::new();
    for j in 0..done.len()
        invariant
            p == crate::text::vec_views(done@).push(cur@),
            crate::text::vec_views(r@) == p.drop_last().take(j as int).map_values(|l: Seq<char>| strip_cr(l)),
    {
        let l = &done[j];
        let stripped = if l.len() > 0 && l[l.len() - 1] == '\r' {
            slice_chars(l, 0, l.len() - 1)
        } else {
            slice_chars(l, 0, l.len())
        };
        let ghost pr = r@;
        r.push(stripped);
        proof {
            assert(p.drop_last()[j as int] == l@);
            if l@.len() > 0 && l@.last() == '\r' {
                assert(stripped@ =~= l@.drop_last());
            } else {
                assert(stripped@ =~= l@);
            }
            assert(crate::text::vec_views(r@) =~= crate::text::vec_views(pr).push(stripped@));
            assert(p.drop_last().take(j + 1).map_values(|l: Seq<char>| strip_cr(l)) =~= p.drop_last().take(
                j as int,
            ).map_values(|l: Seq<char>| strip_cr(l)).push(strip_cr(l@)));
        }
    }
    proof {
        assert(p.drop_last().take(done.len() as int) =~= p.drop_last());
    }
    if cur.len() > 0 {
        let ghost pr = r@;
        r.push(cur);
        proof {
            assert(crate::text::vec_views(r@) =~= crate::text::vec_views(pr).push(p.last()));
        }
    }
    r
}

/// The line `first_file_line` finds starts with `file://`.
proof fn lemma_first_file_line(ls: Seq<Seq<char>>)
    ensures
        first_file_line(ls) matches Some(i) ==> 0 <= i < ls.len() && starts_with(ls[i], "file://"@),
    decreases ls.len(),
{
    if ls.len() > 0 && !starts_with(ls[0], "file://"@) {
        lemma_first_file_line(ls.drop_first());
    }
}

/// The index of the first line that starts with `file://`.
fn find_file_line(ls: &Vec<Vec<char>>) -> (r: Option<usize>)
    ensures
        r matches Some(k) ==> first_file_line(crate::text::vec_views(ls@)) == Some(k as int) && k < ls.len(),
        r is None ==> first_file_line(crate::text::vec_views(ls@)) is None,
{
    let ghost lv = crate::text::vec_views(ls@);
    let prefix = chars_of("file://");
    let mut i: usize = 0;
    proof {
        assert(lv.skip(0) =~= lv);
        assert(shift(first_file_line(lv), 0) == first_file_line(lv));
    }
    while i < ls.len()
        invariant
            lv == crate::text::vec_views(ls@),
            prefix@ == "file://"@,
            i <= ls.len(),
            first_file_line(lv) == shift(first_file_line(lv.skip(i as int)), i as int),
        decreases ls.len() - i,
    {
        proof {
            assert(lv.skip(i as int)[0] == ls@[i as int]@);
            assert(lv.skip(i as int).drop_first() =~= lv.skip(i + 1));
        }
        if has_prefix(&ls[i], &prefix) {
            return Some(i);
        }
        proof {
            let x = first_file_line(lv.skip(i + 1));
            assert(shift(shift(x, 1), i as int) == shift(x, i + 1));
        }
        i += 1;
    }
    proof {
        assert(lv.skip(ls.len() as int) =~= Seq::<Seq<char>>::empty());
    }
    None
}

/// The file name that a URI list names, or `None` when it names none.
pub fn uri_list_filename(data: &[u8]) -> (r: Option<String>)
    ensures
        r matches Some(n) ==> uri_filename(data@) == Some(n@),
        r is None ==> uri_filename(data@) is None,
{
    let text = from_utf8_lossy(data);
    let ls = lines(&chars_of(text.as_str()));
    let ghost lv = crate::text::vec_views(ls@);
    let prefix = chars_of("file://");
    let found = find_file_line(&ls);
    match found {
        Some(k) => {
            proof {
                lemma_first_file_line(crate::text::vec_views(ls@));
            }
            let line = &ls[k];
            let path = slice_chars(line, prefix.len(), line.len());
            proof {
                assert(path@ =~= lv[k as int].skip("file://"@.len() as int));
            }
            let path_s = string_from(&path);
            let decoded = if path.len() > 0 && path[0] == '/' {
                percent_decode(path_s.as_str())
            } else {
                path_s
            };
            proof {
                reveal_strlit("/");
                assert("/"@ =~= seq!['/']);
                if path@.len() > 0 && path@[0] == '/' {
                    assert(path@.take(1) =~= "/"@);
                }
                if starts_with(path@, "/"@) {
                    assert(path@.take(1)[0] == '/');
                }
            }
            file_name(decoded.as_str())
        },
        None => None,
    }
}


/// MIME types that carry a URI list (the W3C type and its KDE and GNOME analogues).
pub open spec fn is_uri_list_mime(m: Seq<char>) -> bool {
    m == "text/uri-list"@ || m == "application/x-kde-uri-list"@ || m == "x-special/gnome-copied-files"@
}

/// MIME types that password managers use to mark secrets.
pub open spec fn is_sensitive_mime(m: Seq<char>) -> bool {
    m == "x-kde-passwordManagerHint"@ || m == "application/x-kde-passwordmanager"@ || m
        == "org.freedesktop.secret"@
}

/// A copied file path or URI list is stored as `text/uri-list` named by its file:
/// an absolute path on one line (under 4096 bytes) becomes a `file://` URI. When
/// no file name can be found the data is kept as it was; its type is kept too,
/// except that every URI-list type is stored as `text/uri-list`.
pub open spec fn normalized(mime: Seq<char>, data: Seq<u8>) -> (Seq<char>, Seq<u8>, Option<Seq<char>>) {
    let text = utf8_lossy(data);
    let is_file_uri = starts_with(text, "file://"@);
    let is_absolute_path = starts_with(text, "/"@) && !contains_seq(text, seq!['\n']) && encode_utf8(
        text,
    ).len() < 4096;
    if is_uri_list_mime(mime) || is_file_uri || is_absolute_path {
        let uri_data = if is_absolute_path {
            encode_utf8("file://"@ + trim(text))
        } else {
            data
        };
        match uri_filename(uri_data) {
            Some(name) => ("text/uri-list"@, uri_data, Some(name)),
            None => (if is_uri_list_mime(mime) { "text/uri-list"@ } else { mime }, data, None),
        }
    } else {
        (mime, data, None)
    }
}

/// Copied text that starts with `file://` is taken as a URI list whatever type
/// it was offered as: when its first `file://` line names a file, the entry is
/// stored as `text/uri-list`, with the data unchanged and that file name.
pub proof fn lemma_file_uri_normalized(mime: Seq<char>, data: Seq<u8>)
    requires
        starts_with(utf8_lossy(data), "file://"@),
        uri_filename(data) is Some,
    ensures
        normalized(mime, data) == ("text/uri-list"@, data, uri_filename(data)),
{
    reveal_strlit("file://");
    reveal_strlit("/");
    let t = utf8_lossy(data);
    assert(t[0] == t.take(7)[0]);
    assert(!starts_with(t, "/"@));
}

/// A copied single-line absolute path (under 4096 bytes) is taken as a file
/// whatever type it was offered as: when its last component names a file, the
/// entry is stored as `text/uri-list`, its data the `file://` URI of the trimmed
/// path, with that file name.
pub proof fn lemma_absolute_path_normalized(mime: Seq<char>, data: Seq<u8>)
    requires
        starts_with(utf8_lossy(data), "/"@),
        !contains_seq(utf8_lossy(data), seq!['\n']),
        encode_utf8(utf8_lossy(data)).len() < 4096,
        uri_filename(encode_utf8("file://"@ + trim(utf8_lossy(data)))) is Some,
    ensures
        normalized(mime, data) == (
            "text/uri-list"@,
            encode_utf8("file://"@ + trim(utf8_lossy(data))),
            uri_filename(encode_utf8("file://"@ + trim(utf8_lossy(data)))),
        ),
{
}

/// Normalizes what was copied: see `normalized`.
pub fn normalize_entry(mime: String, data: Vec<u8>) -> (r: (String, Vec<u8>, Option<String>))
    ensures
        (r.0@, r.1@, crate::config::opt_view(r.2)) == normalized(mime@, data@),
{
    let text = from_utf8_lossy(data.as_slice());
    let tv = chars_of(text.as_str());
    let is_file_uri = has_prefix(&tv, &chars_of("file://"));
    let mut nl: Vec<char> = Vec::new();
    nl.push('\n');
    proof {
        assert(nl@ =~= seq!['\n']);
    }
    let is_absolute_path = has_prefix(&tv, &chars_of("/")) && !contains_chars(&tv, &nl)
        && byte_len(text.as_str()) < 4096;
    let m = mime.as_str();
    let listed = str_eq(m, "text/uri-list") || str_eq(m, "application/x-kde-uri-list") || str_eq(
        m,
        "x-special/gnome-copied-files",
    );
    if listed || is_file_uri || is_absolute_path {
        let uri_data = if is_absolute_path {
            let u = concat_chars(&chars_of("file://"), &trim_chars(&tv));
            utf8_bytes(string_from(&u).as_str())
        } else {
            let mut c: Vec<u8> = Vec::new();
            for i in 0..data.len()
                invariant
                    c@ == data@.take(i as int),
            {
                c.push(data[i]);
                proof {
                    assert(data@.take(i + 1) =~= data@.take(i as int).push(data@[i as int]));
                }
            }
            proof {
                assert(data@.take(data.len() as int) =~= data@);
            }
            c
        };
        match uri_list_filename(uri_data.as_slice()) {
            Some(name) => (String::from_str("text/uri-list"), uri_data, Some(name)),
            None => if listed {
                (String::from_str("text/uri-list"), data, None)
            } else {
                (mime, data, None)
            },
        }
    } else {
        (mime, data, None)
    }
}

/// `d` without its trailing zero bytes.
pub open spec fn strip_nuls(d: Seq<u8>) -> Seq<u8>
    decreases d.len(),
{
    if d.len() > 0 && d.last() == 0 {
        strip_nuls(d.drop_last())
    } else {
        d
    }
}

/// The entry to store for clipboard contents `data` of type `mime`: none when only
/// zero bytes (or nothing) were copied; otherwise the normalized contents, marked
/// sensitive when the offered type says so, without a thumbnail.
pub fn entry_from_contents(mime: String, data: Vec<u8>) -> (r: Option<ClipboardEntry>)
    ensures
        r is None <==> strip_nuls(data@).len() == 0,
        r matches Some(e) ==> {
            let n = normalized(mime@, strip_nuls(data@));
            &&& e.mime_type@ == n.0
            &&& e.data@ == n.1
            &&& crate::config::opt_view(e.filename) == n.2
            &&& e.sensitive == is_sensitive_mime(mime@)
            &&& e.kind == kind_of(n.0, is_sensitive_mime(mime@))
            &&& e.thumb@.len() == 0
            &&& e.hash@ == blake3_digest(encode_utf8(n.0) + n.1)
            &&& e.id == e.timestamp
        },
{
    let mut data = data;
    let ghost orig = data@;
    while data.len() > 0 && data[data.len() - 1] == 0
        invariant
            strip_nuls(orig) == strip_nuls(data@),
        decreases data.len(),
    {
        let ghost before = data@;
        data.pop();
        proof {
            assert(data@ =~= before.drop_last());
        }
    }
    if data.len() == 0 {
        return None;
    }
    let m = mime.as_str();
    let sensitive = str_eq(m, "x-kde-passwordManagerHint") || str_eq(m, "application/x-kde-passwordmanager")
        || str_eq(m, "org.freedesktop.secret");
    let (nm, nd, nf) = normalize_entry(mime, data);
    Some(ClipboardEntry::with_filename(nm, nd, sensitive, Vec::new(), nf))
}

} // verus!
