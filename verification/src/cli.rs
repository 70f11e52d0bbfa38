//! Classify an input path as a still image or a video by its extension.
use std::path::Path;
use vstd::prelude::*;
use vstd::string::*;

verus! {

/// What kind of media an input path names.
#[derive(Clone, Copy, Debug, PartialEq, Eq, Structural)]
pub enum InputKind {
    Image,
    Video,
}

#[verifier::external_type_specification]
#[verifier::external_body]
pub struct ExPath(Path);

/// ASCII lower-casing of one character: 'A'..='Z' map to 'a'..='z', all
/// other characters are left as they are.
pub open spec fn ascii_lower_char(c: char) -> char {
    if 'A' <= c && c <= 'Z' {
        ((c as u32) + 32) as char
    } else {
        c
    }
}

/// ASCII lower-casing of a character sequence.
pub open spec fn ascii_lowercase(s: Seq<char>) -> Seq<char> {
    s.map_values(|c: char| ascii_lower_char(c))
}

/// Lower-case extensions of still images.
pub open spec fn is_image_extension(e: Seq<char>) -> bool {
    ||| e == "png"@
    ||| e == "jpg"@
    ||| e == "jpeg"@
    ||| e == "webp"@
    ||| e == "bmp"@
    ||| e == "tif"@
    ||| e == "tiff"@
}

/// Lower-case extensions of videos.
pub open spec fn is_video_extension(e: Seq<char>) -> bool {
    ||| e == "mp4"@
    ||| e == "mov"@
    ||| e == "mkv"@
    ||| e == "webm"@
    ||| e == "avi"@
}

/// The classification of an extension, as it was written (before lower-casing):
/// `Ok` with the kind, or `Err` with the message.
pub open spec fn classify_spec(ext: Seq<char>) -> Result<InputKind, Seq<char>> {
    let e = ascii_lowercase(ext);
    if is_image_extension(e) {
        Ok(InputKind::Image)
    } else if is_video_extension(e) {
        Ok(InputKind::Video)
    } else if e.len() == 0 {
        Err("input path has no extension"@)
    } else {
        Err("unsupported input extension '"@ + e + "'"@)
    }
}

/// The view of a classification result: the message of an error as characters.
pub open spec fn result_view(r: Result<InputKind, String>) -> Result<InputKind, Seq<char>> {
    match r {
        Ok(k) => Ok(k),
        Err(m) => Err(m@),
    }
}

/// The extension of a path as `Path::extension` finds it (the part of the
/// file name after its final `.`), as characters; `None` when the path has no
/// extension or the extension is not valid UTF-8.
pub uninterp spec fn path_extension_of(path: &Path) -> Option<Seq<char>>;

/// `Path::extension` followed by `OsStr::to_str`, converted to a `String`.
///
/// The contract names the result (`path_extension_of`) and states the one
/// fact std documents of every outcome: the extension holds no `.`.
#[verifier::external_body]
fn path_extension(path: &Path) -> (ext: Option<String>)
    ensures
        match ext {
            Some(e) => path_extension_of(path) == Some(e@) && !e@.contains('.'),
            None => path_extension_of(path) is None,
        },
{
    path.extension().and_then(|s| s.to_str()).map(|s| s.to_string())
}

/// `str::to_ascii_lowercase`: std documents that each ASCII letter 'A'..='Z'
/// becomes 'a'..='z' and every other character is unchanged.
#[verifier::external_body]
fn to_ascii_lowercase(s: &str) -> (r: String)
    ensures
        r@ == ascii_lowercase(s@),
{
    s.to_ascii_lowercase()
}

/// Character-wise equality of two strings.
pub fn str_eq(a: &str, b: &str) -> (r: bool)
    ensures
        r == (a@ == b@),
{
    let n = a.unicode_len();
    if n != b.unicode_len() {
        return false;
    }
    let mut i: usize = 0;
    while i < n
        invariant
            n == a@.len(),
            n == b@.len(),
            i <= n,
            forall|j: int| 0 <= j < i ==> a@[j] == b@[j],
        decreases n - i,
    {
        if a.get_char(i) != b.get_char(i) {
            return false;
        }
        i = i + 1;
    }
    assert(a@ =~= b@);
    true
}

/// Classify an extension (without the dot), ignoring ASCII case.
pub fn classify_extension(ext: &str) -> (r: Result<InputKind, String>)
    ensures
        result_view(r) == classify_spec(ext@),
{
    let lower = to_ascii_lowercase(ext);
    let e = lower.as_str();
    proof {
        reveal_strlit("png");
        reveal_strlit("jpg");
        reveal_strlit("jpeg");
        reveal_strlit("webp");
        reveal_strlit("bmp");
        reveal_strlit("tif");
        reveal_strlit("tiff");
        reveal_strlit("mp4");
        reveal_strlit("mov");
        reveal_strlit("mkv");
        reveal_strlit("webm");
        reveal_strlit("avi");
    }
    if str_eq(e, "png") || str_eq(e, "jpg") || str_eq(e, "jpeg") || str_eq(e, "webp")
        || str_eq(e, "bmp") || str_eq(e, "tif") || str_eq(e, "tiff") {
        Ok(InputKind::Image)
    } else if str_eq(e, "mp4") || str_eq(e, "mov") || str_eq(e, "mkv") || str_eq(e, "webm")
        || str_eq(e, "avi") {
        Ok(InputKind::Video)
    } else if e.is_empty() {
        Err(String::from_str("input path has no extension"))
    } else {
        let mut msg = String::from_str("unsupported input extension '");
        msg.append(e);
        msg.append("'");
        Err(msg)
    }
}

/// The extension that classification reads from a path: the empty text when
/// the path has none.
pub open spec fn extension_or_empty(path: &Path) -> Seq<char> {
    match path_extension_of(path) {
        Some(e) => e,
        None => Seq::empty(),
    }
}

/// Classify a path as still image vs video from its extension.
pub fn classify_input(path: &Path) -> (r: Result<InputKind, String>)
    ensures
        result_view(r) == classify_spec(extension_or_empty(path)),
{
    match path_extension(path) {
        Some(e) => classify_extension(e.as_str()),
        None => {
            proof {
                reveal_strlit("");
                assert(""@ =~= Seq::<char>::empty());
            }
            classify_extension("")
        }
    }
}

/// Lower-casing twice is lower-casing once.
pub proof fn lemma_ascii_lowercase_idempotent(s: Seq<char>)
    ensures
        ascii_lowercase(ascii_lowercase(s)) == ascii_lowercase(s),
{
    assert(ascii_lowercase(ascii_lowercase(s)) =~= ascii_lowercase(s));
}

/// Classification ignores ASCII case: an extension classifies exactly as its
/// lower-case form does.
pub proof fn lemma_classify_case_insensitive(ext: Seq<char>)
    ensures
        classify_spec(ext) == classify_spec(ascii_lowercase(ext)),
{
    lemma_ascii_lowercase_idempotent(ext);
}

/// No extension is both a still-image and a video extension, so an
/// extension has one kind at most.
pub proof fn lemma_kinds_disjoint(e: Seq<char>)
    ensures
        !(is_image_extension(e) && is_video_extension(e)),
{
    reveal_strlit("png");
    reveal_strlit("jpg");
    reveal_strlit("jpeg");
    reveal_strlit("webp");
    reveal_strlit("bmp");
    reveal_strlit("tif");
    reveal_strlit("tiff");
    reveal_strlit("mp4");
    reveal_strlit("mov");
    reveal_strlit("mkv");
    reveal_strlit("webm");
    reveal_strlit("avi");
    if is_image_extension(e) && is_video_extension(e) {
        assert(e.len() == 3 || e.len() == 4);
        if e.len() == 3 {
            assert(e[0] == 'p' || e[0] == 'j' || e[0] == 'b' || e[0] == 't');
            assert(e[0] == 'm' || e[0] == 'a');
        } else {
            assert(e[0] == 'j' || e[0] == 'w' || e[0] == 't');
            assert(e[0] == 'w');
            assert(e[1] == 'e' && e[2] == 'b');
            assert(e[3] == 'p' && e[3] == 'm');
        }
    }
}

/// Classification succeeds exactly on the known extensions (in any ASCII
/// case), and an input without an extension is refused.
pub proof fn lemma_classify_ok_iff_known(ext: Seq<char>)
    ensures
        classify_spec(ext) is Ok <==> (is_image_extension(ascii_lowercase(ext)) || is_video_extension(ascii_lowercase(ext))),
        classify_spec(ext) == Ok::<InputKind, Seq<char>>(InputKind::Image) <==> is_image_extension(ascii_lowercase(ext)),
        ext.len() == 0 ==> classify_spec(ext) == Err::<InputKind, Seq<char>>("input path has no extension"@),
{
    lemma_kinds_disjoint(ascii_lowercase(ext));
    reveal_strlit("png");
    reveal_strlit("jpg");
    reveal_strlit("jpeg");
    reveal_strlit("webp");
    reveal_strlit("bmp");
    reveal_strlit("tif");
    reveal_strlit("tiff");
    reveal_strlit("mp4");
    reveal_strlit("mov");
    reveal_strlit("mkv");
    reveal_strlit("webm");
    reveal_strlit("avi");
}

} // verus!
