//! Classification of a file by its extension or by its file name.
use vstd::prelude::*;
use crate::text::{ascii_lower_seq, ascii_lowercase_chars, str_eq, string_from_chars};

verus! {

/// Classification of a file by its extension.
#[derive(Debug, Clone, Copy, PartialEq, Eq, Hash, Structural)]
pub enum FileType {
    Audio,
    Video,
    Image,
    Document,
    Code,
    Archive,
    Other,
}

/// The family of an extension already in ASCII lower case.
pub open spec fn classify_ext(s: Seq<char>) -> FileType {
    if s == "mp3"@ || s == "wav"@ || s == "flac"@ || s == "aac"@ || s == "ogg"@ || s == "wma"@ || s == "m4a"@ || s == "opus"@ || s == "aiff"@ {
        FileType::Audio
    } else if s == "mp4"@ || s == "mkv"@ || s == "avi"@ || s == "mov"@ || s == "wmv"@ || s == "flv"@ || s == "webm"@ || s == "m4v"@ || s == "mpg"@ || s == "mpeg"@ {
        FileType::Video
    } else if s == "jpg"@ || s == "jpeg"@ || s == "png"@ || s == "gif"@ || s == "bmp"@ || s == "svg"@ || s == "webp"@ || s == "ico"@ || s == "tiff"@ || s == "tif"@ || s == "avif"@ || s == "heic"@ || s == "heif"@ {
        FileType::Image
    } else if s == "pdf"@ || s == "doc"@ || s == "docx"@ || s == "xls"@ || s == "xlsx"@ || s == "ppt"@ || s == "pptx"@ || s == "odt"@ || s == "ods"@ || s == "odp"@ || s == "txt"@ || s == "rtf"@ || s == "csv"@ || s == "md"@ {
        FileType::Document
    } else if s == "rs"@ || s == "py"@ || s == "js"@ || s == "ts"@ || s == "jsx"@ || s == "tsx"@ || s == "c"@ || s == "cpp"@ || s == "h"@ || s == "hpp"@ || s == "java"@ || s == "go"@ || s == "rb"@ || s == "php"@ || s == "swift"@ || s == "kt"@ || s == "scala"@ || s == "lua"@ || s == "sh"@ || s == "bash"@ || s == "zsh"@ || s == "css"@ || s == "scss"@ || s == "less"@ || s == "html"@ || s == "xml"@ || s == "json"@ || s == "yaml"@ || s == "yml"@ || s == "toml"@ || s == "sql"@ || s == "r"@ || s == "m"@ || s == "hs"@ || s == "ex"@ || s == "exs"@ || s == "erl"@ || s == "pl"@ || s == "pm"@ {
        FileType::Code
    } else if s == "zip"@ || s == "tar"@ || s == "gz"@ || s == "bz2"@ || s == "xz"@ || s == "7z"@ || s == "rar"@ || s == "tgz"@ || s == "tbz2"@ || s == "zst"@ {
        FileType::Archive
    } else {
        FileType::Other
    }
}


/// The extensions (in lower case) that the scan engine names for each
/// family of files, in the order its documentation lists them.
pub open spec fn named_extensions(family: FileType) -> Seq<Seq<char>> {
    match family {
        FileType::Audio => seq!["mp3"@, "wav"@, "flac"@, "aac"@, "ogg"@, "wma"@, "m4a"@, "opus"@, "aiff"@],
        FileType::Video => seq!["mp4"@, "mkv"@, "avi"@, "mov"@, "wmv"@, "flv"@, "webm"@, "m4v"@, "mpg"@, "mpeg"@],
        FileType::Image => seq!["jpg"@, "jpeg"@, "png"@, "gif"@, "bmp"@, "svg"@, "webp"@, "ico"@, "tiff"@, "tif"@, "avif"@, "heic"@, "heif"@],
        FileType::Document => seq!["pdf"@, "doc"@, "docx"@, "xls"@, "xlsx"@, "ppt"@, "pptx"@, "odt"@, "ods"@, "odp"@, "txt"@, "rtf"@, "csv"@, "md"@],
        FileType::Code => seq!["rs"@, "py"@, "js"@, "ts"@, "jsx"@, "tsx"@, "c"@, "cpp"@, "h"@, "hpp"@, "java"@, "go"@, "rb"@, "php"@, "swift"@, "kt"@, "scala"@, "lua"@, "sh"@, "bash"@, "zsh"@, "css"@, "scss"@, "less"@, "html"@, "xml"@, "json"@, "yaml"@, "yml"@, "toml"@, "sql"@, "r"@, "m"@, "hs"@, "ex"@, "exs"@, "erl"@, "pl"@, "pm"@],
        FileType::Archive => seq!["zip"@, "tar"@, "gz"@, "bz2"@, "xz"@, "7z"@, "rar"@, "tgz"@, "tbz2"@, "zst"@],
        _ => Seq::empty(),
    }
}

/// An extension that the documented table names for one family, and for
/// no other, is classified in that family.
pub proof fn law_named_extensions_classify(family: FileType, s: Seq<char>)
    requires
        named_extensions(family).contains(s),
        forall|f: FileType| f != family ==> !(#[trigger] named_extensions(f)).contains(s),
    ensures
        classify_ext(s) == family,
{
    lemma_audio_named(s);
    lemma_video_named(s);
    lemma_image_named(s);
    lemma_document_named(s);
    lemma_code_named(s);
    lemma_archive_named(s);
    assert(!named_extensions(FileType::Other).contains(s) || family == FileType::Other);
}

proof fn lemma_audio_named(s: Seq<char>)
    ensures
        named_extensions(FileType::Audio).contains(s) <==> (s == "mp3"@ || s == "wav"@ || s == "flac"@ || s == "aac"@ || s == "ogg"@ || s == "wma"@ || s == "m4a"@ || s == "opus"@ || s == "aiff"@),
{
    let n = named_extensions(FileType::Audio);
    assert(n[0] == "mp3"@);
    assert(n[1] == "wav"@);
    assert(n[2] == "flac"@);
    assert(n[3] == "aac"@);
    assert(n[4] == "ogg"@);
    assert(n[5] == "wma"@);
    assert(n[6] == "m4a"@);
    assert(n[7] == "opus"@);
    assert(n[8] == "aiff"@);
    if n.contains(s) {
        let i = choose|i: int| 0 <= i < n.len() && n[i] == s;
        if i == 0 {} else if i == 1 {} else if i == 2 {} else if i == 3 {} else if i == 4 {} else if i == 5 {} else if i == 6 {} else if i == 7 {} else if i == 8 {}
    }
}

proof fn lemma_video_named(s: Seq<char>)
    ensures
        named_extensions(FileType::Video).contains(s) <==> (s == "mp4"@ || s == "mkv"@ || s == "avi"@ || s == "mov"@ || s == "wmv"@ || s == "flv"@ || s == "webm"@ || s == "m4v"@ || s == "mpg"@ || s == "mpeg"@),
{
    let n = named_extensions(FileType::Video);
    assert(n[0] == "mp4"@);
    assert(n[1] == "mkv"@);
    assert(n[2] == "avi"@);
    assert(n[3] == "mov"@);
    assert(n[4] == "wmv"@);
    assert(n[5] == "flv"@);
    assert(n[6] == "webm"@);
    assert(n[7] == "m4v"@);
    assert(n[8] == "mpg"@);
    assert(n[9] == "mpeg"@);
    if n.contains(s) {
        let i = choose|i: int| 0 <= i < n.len() && n[i] == s;
        if i == 0 {} else if i == 1 {} else if i == 2 {} else if i == 3 {} else if i == 4 {} else if i == 5 {} else if i == 6 {} else if i == 7 {} else if i == 8 {} else if i == 9 {}
    }
}

proof fn lemma_image_named(s: Seq<char>)
    ensures
        named_extensions(FileType::Image).contains(s) <==> (s == "jpg"@ || s == "jpeg"@ || s == "png"@ || s == "gif"@ || s == "bmp"@ || s == "svg"@ || s == "webp"@ || s == "ico"@ || s == "tiff"@ || s == "tif"@ || s == "avif"@ || s == "heic"@ || s == "heif"@),
{
    let n = named_extensions(FileType::Image);
    assert(n[0] == "jpg"@);
    assert(n[1] == "jpeg"@);
    assert(n[2] == "png"@);
    assert(n[3] == "gif"@);
    assert(n[4] == "bmp"@);
    assert(n[5] == "svg"@);
    assert(n[6] == "webp"@);
    assert(n[7] == "ico"@);
    assert(n[8] == "tiff"@);
    assert(n[9] == "tif"@);
    assert(n[10] == "avif"@);
    assert(n[11] == "heic"@);
    assert(n[12] == "heif"@);
    if n.contains(s) {
        let i = choose|i: int| 0 <= i < n.len() && n[i] == s;
        if i == 0 {} else if i == 1 {} else if i == 2 {} else if i == 3 {} else if i == 4 {} else if i == 5 {} else if i == 6 {} else if i == 7 {} else if i == 8 {} else if i == 9 {} else if i == 10 {} else if i == 11 {} else if i == 12 {}
    }
}

proof fn lemma_document_named(s: Seq<char>)
    ensures
        named_extensions(FileType::Document).contains(s) <==> (s == "pdf"@ || s == "doc"@ || s == "docx"@ || s == "xls"@ || s == "xlsx"@ || s == "ppt"@ || s == "pptx"@ || s == "odt"@ || s == "ods"@ || s == "odp"@ || s == "txt"@ || s == "rtf"@ || s == "csv"@ || s == "md"@),
{
    let n = named_extensions(FileType::Document);
    assert(n[0] == "pdf"@);
    assert(n[1] == "doc"@);
    assert(n[2] == "docx"@);
    assert(n[3] == "xls"@);
    assert(n[4] == "xlsx"@);
    assert(n[5] == "ppt"@);
    assert(n[6] == "pptx"@);
    assert(n[7] == "odt"@);
    assert(n[8] == "ods"@);
    assert(n[9] == "odp"@);
    assert(n[10] == "txt"@);
    assert(n[11] == "rtf"@);
    assert(n[12] == "csv"@);
    assert(n[13] == "md"@);
    if n.contains(s) {
        let i = choose|i: int| 0 <= i < n.len() && n[i] == s;
        if i == 0 {} else if i == 1 {} else if i == 2 {} else if i == 3 {} else if i == 4 {} else if i == 5 {} else if i == 6 {} else if i == 7 {} else if i == 8 {} else if i == 9 {} else if i == 10 {} else if i == 11 {} else if i == 12 {} else if i == 13 {}
    }
}

proof fn lemma_code_named(s: Seq<char>)
    ensures
        named_extensions(FileType::Code).contains(s) <==> (s == "rs"@ || s == "py"@ || s == "js"@ || s == "ts"@ || s == "jsx"@ || s == "tsx"@ || s == "c"@ || s == "cpp"@ || s == "h"@ || s == "hpp"@ || s == "java"@ || s == "go"@ || s == "rb"@ || s == "php"@ || s == "swift"@ || s == "kt"@ || s == "scala"@ || s == "lua"@ || s == "sh"@ || s == "bash"@ || s == "zsh"@ || s == "css"@ || s == "scss"@ || s == "less"@ || s == "html"@ || s == "xml"@ || s == "json"@ || s == "yaml"@ || s == "yml"@ || s == "toml"@ || s == "sql"@ || s == "r"@ || s == "m"@ || s == "hs"@ || s == "ex"@ || s == "exs"@ || s == "erl"@ || s == "pl"@ || s == "pm"@),
{
    let n = named_extensions(FileType::Code);
    assert(n[0] == "rs"@);
    assert(n[1] == "py"@);
    assert(n[2] == "js"@);
    assert(n[3] == "ts"@);
    assert(n[4] == "jsx"@);
    assert(n[5] == "tsx"@);
    assert(n[6] == "c"@);
    assert(n[7] == "cpp"@);
    assert(n[8] == "h"@);
    assert(n[9] == "hpp"@);
    assert(n[10] == "java"@);
    assert(n[11] == "go"@);
    assert(n[12] == "rb"@);
    assert(n[13] == "php"@);
    assert(n[14] == "swift"@);
    assert(n[15] == "kt"@);
    assert(n[16] == "scala"@);
    assert(n[17] == "lua"@);
    assert(n[18] == "sh"@);
    assert(n[19] == "bash"@);
    assert(n[20] == "zsh"@);
    assert(n[21] == "css"@);
    assert(n[22] == "scss"@);
    assert(n[23] == "less"@);
    assert(n[24] == "html"@);
    assert(n[25] == "xml"@);
    assert(n[26] == "json"@);
    assert(n[27] == "yaml"@);
    assert(n[28] == "yml"@);
    assert(n[29] == "toml"@);
    assert(n[30] == "sql"@);
    assert(n[31] == "r"@);
    assert(n[32] == "m"@);
    assert(n[33] == "hs"@);
    assert(n[34] == "ex"@);
    assert(n[35] == "exs"@);
    assert(n[36] == "erl"@);
    assert(n[37] == "pl"@);
    assert(n[38] == "pm"@);
    if n.contains(s) {
        let i = choose|i: int| 0 <= i < n.len() && n[i] == s;
        if i == 0 {} else if i == 1 {} else if i == 2 {} else if i == 3 {} else if i == 4 {} else if i == 5 {} else if i == 6 {} else if i == 7 {} else if i == 8 {} else if i == 9 {} else if i == 10 {} else if i == 11 {} else if i == 12 {} else if i == 13 {} else if i == 14 {} else if i == 15 {} else if i == 16 {} else if i == 17 {} else if i == 18 {} else if i == 19 {} else if i == 20 {} else if i == 21 {} else if i == 22 {} else if i == 23 {} else if i == 24 {} else if i == 25 {} else if i == 26 {} else if i == 27 {} else if i == 28 {} else if i == 29 {} else if i == 30 {} else if i == 31 {} else if i == 32 {} else if i == 33 {} else if i == 34 {} else if i == 35 {} else if i == 36 {} else if i == 37 {} else if i == 38 {}
    }
}

proof fn lemma_archive_named(s: Seq<char>)
    ensures
        named_extensions(FileType::Archive).contains(s) <==> (s == "zip"@ || s == "tar"@ || s == "gz"@ || s == "bz2"@ || s == "xz"@ || s == "7z"@ || s == "rar"@ || s == "tgz"@ || s == "tbz2"@ || s == "zst"@),
{
    let n = named_extensions(FileType::Archive);
    assert(n[0] == "zip"@);
    assert(n[1] == "tar"@);
    assert(n[2] == "gz"@);
    assert(n[3] == "bz2"@);
    assert(n[4] == "xz"@);
    assert(n[5] == "7z"@);
    assert(n[6] == "rar"@);
    assert(n[7] == "tgz"@);
    assert(n[8] == "tbz2"@);
    assert(n[9] == "zst"@);
    if n.contains(s) {
        let i = choose|i: int| 0 <= i < n.len() && n[i] == s;
        if i == 0 {} else if i == 1 {} else if i == 2 {} else if i == 3 {} else if i == 4 {} else if i == 5 {} else if i == 6 {} else if i == 7 {} else if i == 8 {} else if i == 9 {}
    }
}

fn classify_lowered(l: &str) -> (r: FileType)
    ensures
        r == classify_ext(l@),
{
    if str_eq(l, "mp3") || str_eq(l, "wav") || str_eq(l, "flac") || str_eq(l, "aac") || str_eq(l, "ogg") || str_eq(l, "wma") || str_eq(l, "m4a") || str_eq(l, "opus") || str_eq(l, "aiff") {
        FileType::Audio
    } else if str_eq(l, "mp4") || str_eq(l, "mkv") || str_eq(l, "avi") || str_eq(l, "mov") || str_eq(l, "wmv") || str_eq(l, "flv") || str_eq(l, "webm") || str_eq(l, "m4v") || str_eq(l, "mpg") || str_eq(l, "mpeg") {
        FileType::Video
    } else if str_eq(l, "jpg") || str_eq(l, "jpeg") || str_eq(l, "png") || str_eq(l, "gif") || str_eq(l, "bmp") || str_eq(l, "svg") || str_eq(l, "webp") || str_eq(l, "ico") || str_eq(l, "tiff") || str_eq(l, "tif") || str_eq(l, "avif") || str_eq(l, "heic") || str_eq(l, "heif") {
        FileType::Image
    } else if str_eq(l, "pdf") || str_eq(l, "doc") || str_eq(l, "docx") || str_eq(l, "xls") || str_eq(l, "xlsx") || str_eq(l, "ppt") || str_eq(l, "pptx") || str_eq(l, "odt") || str_eq(l, "ods") || str_eq(l, "odp") || str_eq(l, "txt") || str_eq(l, "rtf") || str_eq(l, "csv") || str_eq(l, "md") {
        FileType::Document
    } else if str_eq(l, "rs") || str_eq(l, "py") || str_eq(l, "js") || str_eq(l, "ts") || str_eq(l, "jsx") || str_eq(l, "tsx") || str_eq(l, "c") || str_eq(l, "cpp") || str_eq(l, "h") || str_eq(l, "hpp") || str_eq(l, "java") || str_eq(l, "go") || str_eq(l, "rb") || str_eq(l, "php") || str_eq(l, "swift") || str_eq(l, "kt") || str_eq(l, "scala") || str_eq(l, "lua") || str_eq(l, "sh") || str_eq(l, "bash") || str_eq(l, "zsh") || str_eq(l, "css") || str_eq(l, "scss") || str_eq(l, "less") || str_eq(l, "html") || str_eq(l, "xml") || str_eq(l, "json") || str_eq(l, "yaml") || str_eq(l, "yml") || str_eq(l, "toml") || str_eq(l, "sql") || str_eq(l, "r") || str_eq(l, "m") || str_eq(l, "hs") || str_eq(l, "ex") || str_eq(l, "exs") || str_eq(l, "erl") || str_eq(l, "pl") || str_eq(l, "pm") {
        FileType::Code
    } else if str_eq(l, "zip") || str_eq(l, "tar") || str_eq(l, "gz") || str_eq(l, "bz2") || str_eq(l, "xz") || str_eq(l, "7z") || str_eq(l, "rar") || str_eq(l, "tgz") || str_eq(l, "tbz2") || str_eq(l, "zst") {
        FileType::Archive
    } else {
        FileType::Other
    }
}

/// The position of the last `c` in `s`.
pub open spec fn last_index_of(s: Seq<char>, c: char) -> Option<int>
    decreases s.len(),
{
    if s.len() == 0 {
        None
    } else if s.last() == c {
        Some(s.len() - 1)
    } else {
        last_index_of(s.drop_last(), c)
    }
}

/// The text after the last `.` of a file name (`str::rsplit_once('.')`).
pub open spec fn after_last_dot(name: Seq<char>) -> Option<Seq<char>> {
    match last_index_of(name, '.') {
        Some(i) => Some(name.skip(i + 1)),
        None => None,
    }
}

/// The lower-case name of a type, as `Display` prints it.
pub open spec fn display_name(t: FileType) -> Seq<char> {
    match t {
        FileType::Audio => "audio"@,
        FileType::Video => "video"@,
        FileType::Image => "image"@,
        FileType::Document => "document"@,
        FileType::Code => "code"@,
        FileType::Archive => "archive"@,
        FileType::Other => "other"@,
    }
}

/// Exec form of [`last_index_of`].
pub fn rfind_char(s: &Vec<char>, c: char) -> (r: Option<usize>)
    ensures
        match r {
            Some(i) => last_index_of(s@, c) == Some(i as int) && i < s@.len(),
            None => last_index_of(s@, c) is None,
        },
{
    let mut k: usize = s.len();
    assert(s@.take(k as int) =~= s@);
    while k > 0
        invariant
            k <= s@.len(),
            last_index_of(s@, c) == last_index_of(s@.take(k as int), c),
        decreases k,
    {
        assert(s@.take(k as int).drop_last() =~= s@.take(k - 1));
        if s[k - 1] == c {
            return Some(k - 1);
        }
        k = k - 1;
    }
    None
}

/// The characters of `cs` from position `from` on, as a `String`.
pub fn suffix_string(cs: &Vec<char>, from: usize) -> (r: String)
    requires
        from <= cs@.len(),
    ensures
        r@ == cs@.skip(from as int),
{
    let mut s = String::new();
    let mut i: usize = from;
    while i < cs.len()
        invariant
            from <= i <= cs@.len(),
            s@ == cs@.subrange(from as int, i as int),
        decreases cs@.len() - i,
    {
        crate::text::push_char(&mut s, cs[i]);
        i = i + 1;
        assert(s@ =~= cs@.subrange(from as int, i as int));
    }
    assert(cs@.subrange(from as int, i as int) =~= cs@.skip(from as int));
    s
}

impl FileType {
    /// Classifies by extension (no leading dot), ignoring ASCII case.
    pub fn from_extension(ext: &str) -> (r: FileType)
        ensures
            r == classify_ext(ascii_lower_seq(ext@)),
    {
        let lower = string_from_chars(&ascii_lowercase_chars(ext));
        classify_lowered(lower.as_str())
    }

    /// Classifies by the text after the last `.` of `name`; a name without
    /// a dot is `Other`.
    pub fn from_filename(name: &str) -> (r: FileType)
        ensures
            r == match after_last_dot(name@) {
                Some(e) => classify_ext(ascii_lower_seq(e)),
                None => FileType::Other,
            },
    {
        let cs = crate::text::chars_of(name);
        let n = cs.len();
        match rfind_char(&cs, '.') {
            Some(i) => {
                let ext = suffix_string(&cs, i + 1);
                FileType::from_extension(ext.as_str())
            },
            None => FileType::Other,
        }
    }

    /// The lower-case name of the type.
    pub fn to_string(&self) -> (r: String)
        ensures
            r@ == display_name(*self),
    {
        let s = match self {
            FileType::Audio => "audio",
            FileType::Video => "video",
            FileType::Image => "image",
            FileType::Document => "document",
            FileType::Code => "code",
            FileType::Archive => "archive",
            FileType::Other => "other",
        };
        String::from_str(s)
    }
}

} // verus!
