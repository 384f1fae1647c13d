//! Decides whether a path names an audio file, and maps extensions to MIME
//! types.
//!
//! A path is a `/`-separated string. The extension is the part of the final
//! component after its last `.`, and is absent when the final component has
//! no `.` or starts with its only `.` (a hidden file).

use vstd::prelude::*;
use vstd::string::StrSliceExecFns;
use vstd::string::StringExecFns;

verus! {

/// Position just after the last `.` of the final path component, scanning
/// leftwards from `i`; `None` when a `/` or the start of the string comes
/// first.
pub open spec fn spec_ext_split(path: Seq<char>, i: int) -> Option<int>
    decreases i,
{
    if i <= 0 {
        None
    } else if path[i - 1] == '/' {
        None
    } else if path[i - 1] == '.' {
        Some(i)
    } else {
        spec_ext_split(path, i - 1)
    }
}

/// The extension of a path: the characters of the final component after its
/// last `.`. A final component without a `.`, or whose only `.` leads it,
/// has none.
pub open spec fn spec_extension_of(path: Seq<char>) -> Option<Seq<char>> {
    match spec_ext_split(path, path.len() as int) {
        None => None,
        Some(i) => if i == 1 || path[i - 2] == '/' {
            None
        } else {
            Some(path.subrange(i, path.len() as int))
        },
    }
}

/// The fixed whitelist of audio extensions, matched case-sensitively.
pub open spec fn spec_is_audio_ext(e: Seq<char>) -> bool {
    ||| e == "m4b"@
    ||| e == "m4a"@
    ||| e == "mp3"@
    ||| e == "flac"@
    ||| e == "wav"@
    ||| e == "opus"@
}

/// A path names an audio file when its extension is whitelisted.
pub open spec fn spec_is_audiofile(path: Seq<char>) -> bool {
    match spec_extension_of(path) {
        Some(e) => spec_is_audio_ext(e),
        None => false,
    }
}

/// The MIME type for a whitelisted extension: `m4b` and `m4a` carry
/// `audio/mp4`; any other extension `x` carries `audio/x`.
pub open spec fn spec_mime_of_ext(e: Seq<char>) -> Seq<char> {
    if e == "m4b"@ || e == "m4a"@ {
        "audio/mp4"@
    } else {
        "audio/"@ + e
    }
}

/// The MIME type of a path, through its extension.
pub open spec fn spec_mime_of_path(path: Seq<char>) -> Seq<char> {
    match spec_extension_of(path) {
        Some(e) => spec_mime_of_ext(e),
        None => Seq::empty(),
    }
}

/// Extracts the extension of a path, if any.
pub fn extension_of(path: &String) -> (r: Option<String>)
    ensures
        match r {
            Some(e) => spec_extension_of(path@) == Some(e@),
            None => spec_extension_of(path@) is None,
        },
{
    let n = path.as_str().unicode_len();
    let mut i: usize = n;
    while i > 0
        invariant
            i <= n,
            n == path@.len(),
            spec_ext_split(path@, n as int) == spec_ext_split(path@, i as int),
        decreases i,
    {
        let c = path.as_str().get_char(i - 1);
        if c == '/' {
            return None;
        }
        if c == '.' {
            if i == 1 || path.as_str().get_char(i - 2) == '/' {
                return None;
            }
            let ext = path.as_str().substring_char(i, n).to_owned();
            return Some(ext);
        }
        i = i - 1;
    }
    None
}

/// Compares an extension against the audio whitelist.
pub fn is_audio_extension(ext: &String) -> (r: bool)
    ensures
        r == spec_is_audio_ext(ext@),
{
    proof {
        reveal_strlit("m4b");
        reveal_strlit("m4a");
        reveal_strlit("mp3");
        reveal_strlit("flac");
        reveal_strlit("wav");
        reveal_strlit("opus");
    }
    let s: &str = ext.as_str();
    let n = s.unicode_len();
    if n == 3 {
        let c0 = s.get_char(0);
        let c1 = s.get_char(1);
        let c2 = s.get_char(2);
        let r = (c0 == 'm' && c1 == '4' && c2 == 'b') || (c0 == 'm' && c1 == '4' && c2 == 'a')
            || (c0 == 'm' && c1 == 'p' && c2 == '3') || (c0 == 'w' && c1 == 'a' && c2 == 'v');
        proof {
            if c0 == 'm' && c1 == '4' && c2 == 'b' {
                assert(ext@ =~= "m4b"@);
            }
            if c0 == 'm' && c1 == '4' && c2 == 'a' {
                assert(ext@ =~= "m4a"@);
            }
            if c0 == 'm' && c1 == 'p' && c2 == '3' {
                assert(ext@ =~= "mp3"@);
            }
            if c0 == 'w' && c1 == 'a' && c2 == 'v' {
                assert(ext@ =~= "wav"@);
            }
        }
        r
    } else if n == 4 {
        let c0 = s.get_char(0);
        let c1 = s.get_char(1);
        let c2 = s.get_char(2);
        let c3 = s.get_char(3);
        let r = (c0 == 'f' && c1 == 'l' && c2 == 'a' && c3 == 'c') || (c0 == 'o' && c1 == 'p'
            && c2 == 'u' && c3 == 's');
        proof {
            if c0 == 'f' && c1 == 'l' && c2 == 'a' && c3 == 'c' {
                assert(ext@ =~= "flac"@);
            }
            if c0 == 'o' && c1 == 'p' && c2 == 'u' && c3 == 's' {
                assert(ext@ =~= "opus"@);
            }
        }
        r
    } else {
        false
    }
}

/// Whether a filesystem path names an audio file: its extension belongs to
/// the whitelist `m4b, m4a, mp3, flac, wav, opus`.
pub fn is_audiofile(path: &String) -> (r: bool)
    ensures
        r == spec_is_audiofile(path@),
{
    match extension_of(path) {
        Some(ext) => is_audio_extension(&ext),
        None => false,
    }
}

/// The MIME type for an extension: `m4b`, `m4a` map to `audio/mp4`; any
/// other extension `x` maps to `audio/x`.
pub fn extension_to_mime(file_ext: &String) -> (m: String)
    ensures
        m@ == spec_mime_of_ext(file_ext@),
{
    proof {
        reveal_strlit("m4b");
        reveal_strlit("m4a");
    }
    let s: &str = file_ext.as_str();
    let is_mp4 = if s.unicode_len() == 3 {
        let c0 = s.get_char(0);
        let c1 = s.get_char(1);
        let c2 = s.get_char(2);
        let r = (c0 == 'm' && c1 == '4' && c2 == 'b') || (c0 == 'm' && c1 == '4' && c2 == 'a');
        proof {
            if c0 == 'm' && c1 == '4' && c2 == 'b' {
                assert(file_ext@ =~= "m4b"@);
            }
            if c0 == 'm' && c1 == '4' && c2 == 'a' {
                assert(file_ext@ =~= "m4a"@);
            }
        }
        r
    } else {
        false
    };
    if is_mp4 {
        "audio/mp4".to_owned()
    } else {
        "audio/".to_owned().concat(file_ext.as_str())
    }
}

} // verus!
