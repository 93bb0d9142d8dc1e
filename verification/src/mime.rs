//! Content-type classification by file extension.
//!
//! The extension is the part of the file name after its last dot, provided
//! that dot is not the leading character; it is lowercased before the
//! lookup. Unknown or missing extensions map to the generic binary type.

use vstd::prelude::*;
use vstd::string::*;

verus! {

/// Index of the last occurrence of `c` in `s`, or -1 when absent.
pub open spec fn spec_last_index_of(s: Seq<char>, c: char) -> int
    decreases s.len(),
{
    if s.len() == 0 {
        -1
    } else if s.last() == c {
        s.len() - 1
    } else {
        spec_last_index_of(s.drop_last(), c)
    }
}

/// The file name of a path: everything after the last separator.
pub open spec fn spec_file_name(p: Seq<char>) -> Seq<char> {
    p.subrange(spec_last_index_of(p, '/') + 1, p.len() as int)
}

proof fn lemma_last_index_bounds(s: Seq<char>, c: char)
    ensures
        -1 <= spec_last_index_of(s, c) < s.len(),
    decreases s.len(),
{
    if s.len() > 0 && s.last() != c {
        lemma_last_index_bounds(s.drop_last(), c);
    }
}

/// The extension of a path's file name.
pub open spec fn spec_extension(p: Seq<char>) -> Option<Seq<char>> {
    let name = spec_file_name(p);
    let j = spec_last_index_of(name, '.');
    if j <= 0 {
        Option::None
    } else {
        Some(name.subrange(j + 1, name.len() as int))
    }
}

/// ASCII lowercasing of one character.
pub open spec fn lower_char(c: char) -> char {
    if 65 <= c as u32 && c as u32 <= 90 {
        (((c as u32) + 32) as u8) as char
    } else {
        c
    }
}

/// ASCII lowercasing of a character sequence.
pub open spec fn lower_seq(s: Seq<char>) -> Seq<char> {
    s.map_values(|c: char| lower_char(c))
}

/// The content type for a path, chosen by its lowercased extension.
pub open spec fn spec_content_type(p: Seq<char>) -> Seq<char> {
    match spec_extension(p) {
        Option::None => "application/octet-stream"@,
        Option::Some(e) => {
            let x = lower_seq(e);
            if x == "html"@ || x == "htm"@ {
                "text/html; charset=utf-8"@
            } else if x == "css"@ {
                "text/css; charset=utf-8"@
            } else if x == "js"@ {
                "application/javascript; charset=utf-8"@
            } else if x == "json"@ {
                "application/json; charset=utf-8"@
            } else if x == "xml"@ {
                "application/xml; charset=utf-8"@
            } else if x == "txt"@ {
                "text/plain; charset=utf-8"@
            } else if x == "md"@ {
                "text/markdown; charset=utf-8"@
            } else if x == "png"@ {
                "image/png"@
            } else if x == "jpg"@ || x == "jpeg"@ {
                "image/jpeg"@
            } else if x == "gif"@ {
                "image/gif"@
            } else if x == "svg"@ {
                "image/svg+xml"@
            } else if x == "ico"@ {
                "image/x-icon"@
            } else if x == "pdf"@ {
                "application/pdf"@
            } else if x == "zip"@ {
                "application/zip"@
            } else if x == "tar"@ {
                "application/x-tar"@
            } else if x == "gz"@ {
                "application/gzip"@
            } else if x == "mp4"@ {
                "video/mp4"@
            } else if x == "mp3"@ {
                "audio/mpeg"@
            } else if x == "wav"@ {
                "audio/wav"@
            } else {
                "application/octet-stream"@
            }
        },
    }
}

fn last_index_of(s: &str, c: char) -> (r: Option<usize>)
    ensures
        match r {
            Some(i) => i < s@.len() && spec_last_index_of(s@, c) == i as int,
            None => spec_last_index_of(s@, c) == -1,
        },
{
    let len = s.unicode_len();
    let mut i: usize = len;
    proof {
        assert(s@.take(len as int) =~= s@);
    }
    while i > 0
        invariant
            i <= len,
            len == s@.len(),
            spec_last_index_of(s@, c) == spec_last_index_of(s@.take(i as int), c),
        decreases i,
    {
        if s.get_char(i - 1) == c {
            proof {
                assert(s@.take(i as int).last() == c);
            }
            return Some(i - 1);
        }
        proof {
            assert(s@.take(i as int).drop_last() =~= s@.take(i as int - 1));
        }
        i = i - 1;
    }
    None
}

fn lower_char_exec(c: char) -> (r: char)
    ensures
        r == lower_char(c),
{
    let u = c as u32;
    if 65 <= u && u <= 90 {
        ((u + 32) as u8) as char
    } else {
        c
    }
}

fn ext_matches(e: &str, key: &str) -> (r: bool)
    ensures
        r == (lower_seq(e@) == key@),
{
    let elen = e.unicode_len();
    let klen = key.unicode_len();
    if elen != klen {
        return false;
    }
    let mut i: usize = 0;
    while i < elen
        invariant
            i <= elen,
            elen == e@.len(),
            klen == key@.len(),
            elen == klen,
            forall|j: int| 0 <= j < i ==> lower_char(e@[j]) == key@[j],
        decreases elen - i,
    {
        if lower_char_exec(e.get_char(i)) != key.get_char(i) {
            proof {
                assert(lower_seq(e@)[i as int] != key@[i as int]);
            }
            return false;
        }
        i = i + 1;
    }
    proof {
        assert(lower_seq(e@) =~= key@);
    }
    true
}

/// The file name of a path: everything after the last separator.
pub fn file_name_part(p: &str) -> (r: &str)
    ensures
        r@ == spec_file_name(p@),
{
    proof {
        lemma_last_index_bounds(p@, '/');
    }
    let len = p.unicode_len();
    match last_index_of(p, '/') {
        Some(i) => p.substring_char(i + 1, len),
        None => {
            proof {
                assert(p@.subrange(0, p@.len() as int) =~= p@);
            }
            p
        },
    }
}

fn extension_part(p: &str) -> (r: Option<&str>)
    ensures
        match r {
            Some(e) => spec_extension(p@) == Some(e@),
            None => spec_extension(p@) is None,
        },
{
    let name = file_name_part(p);
    proof {
        lemma_last_index_bounds(name@, '.');
    }
    let len = name.unicode_len();
    match last_index_of(name, '.') {
        None => None,
        Some(j) => {
            if j == 0 {
                None
            } else {
                Some(name.substring_char(j + 1, len))
            }
        },
    }
}

/// The content type to serve a file under, by its lowercased extension.
pub fn guess_content_type(path: &str) -> (r: &'static str)
    ensures
        r@ == spec_content_type(path@),
{
    match extension_part(path) {
        None => "application/octet-stream",
        Some(e) => {
            if ext_matches(e, "html") || ext_matches(e, "htm") {
                "text/html; charset=utf-8"
            } else if ext_matches(e, "css") {
                "text/css; charset=utf-8"
            } else if ext_matches(e, "js") {
                "application/javascript; charset=utf-8"
            } else if ext_matches(e, "json") {
                "application/json; charset=utf-8"
            } else if ext_matches(e, "xml") {
                "application/xml; charset=utf-8"
            } else if ext_matches(e, "txt") {
                "text/plain; charset=utf-8"
            } else if ext_matches(e, "md") {
                "text/markdown; charset=utf-8"
            } else if ext_matches(e, "png") {
                "image/png"
            } else if ext_matches(e, "jpg") || ext_matches(e, "jpeg") {
                "image/jpeg"
            } else if ext_matches(e, "gif") {
                "image/gif"
            } else if ext_matches(e, "svg") {
                "image/svg+xml"
            } else if ext_matches(e, "ico") {
                "image/x-icon"
            } else if ext_matches(e, "pdf") {
                "application/pdf"
            } else if ext_matches(e, "zip") {
                "application/zip"
            } else if ext_matches(e, "tar") {
                "application/x-tar"
            } else if ext_matches(e, "gz") {
                "application/gzip"
            } else if ext_matches(e, "mp4") {
                "video/mp4"
            } else if ext_matches(e, "mp3") {
                "audio/mpeg"
            } else if ext_matches(e, "wav") {
                "audio/wav"
            } else {
                "application/octet-stream"
            }
        },
    }
}

} // verus!
