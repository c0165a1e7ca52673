//! The scan engine's own model: entries with names and paths, filters
//! over them, trees, sizes and errors, and the engine's classification
//! of files by extension.
use vstd::prelude::*;
use crate::text::{ascii_lower_seq, ascii_lowercase_chars, str_eq, string_from_chars};

pub mod error;
pub mod file_type;
pub mod filenode;
pub mod filter;
pub mod format;
pub mod node;
pub mod opts;
pub mod size;
pub mod sort;
pub mod tree;

verus! {

/// Classification of files by media or use.
#[derive(Debug, Clone, Copy, PartialEq, Eq, Hash, Structural)]
pub enum FileType {
    Audio,
    Video,
    Image,
    Document,
    Code,
    Archive,
    Other,
}

/// The family of an extension already in ASCII lower case.
pub open spec fn classify_ext(s: Seq<char>) -> FileType {
    if s == "mp3"@ || s == "flac"@ || s == "wav"@ || s == "aac"@ || s == "ogg"@ || s == "wma"@ || s == "m4a"@ || s == "aiff"@ || s == "alac"@ || s == "opus"@ || s == "mid"@ || s == "midi"@ {
        FileType::Audio
    } else if s == "mp4"@ || s == "mkv"@ || s == "avi"@ || s == "mov"@ || s == "wmv"@ || s == "flv"@ || s == "webm"@ || s == "m4v"@ || s == "mpg"@ || s == "mpeg"@ || s == "3gp"@ || s == "ogv"@ || s == "vob"@ {
        FileType::Video
    } else if s == "jpg"@ || s == "jpeg"@ || s == "png"@ || s == "gif"@ || s == "bmp"@ || s == "svg"@ || s == "webp"@ || s == "ico"@ || s == "tiff"@ || s == "tif"@ || s == "psd"@ || s == "raw"@ || s == "cr2"@ || s == "nef"@ || s == "heic"@ || s == "heif"@ || s == "avif"@ || s == "jxl"@ {
        FileType::Image
    } else if s == "pdf"@ || s == "doc"@ || s == "docx"@ || s == "xls"@ || s == "xlsx"@ || s == "ppt"@ || s == "pptx"@ || s == "odt"@ || s == "ods"@ || s == "odp"@ || s == "rtf"@ || s == "txt"@ || s == "csv"@ || s == "md"@ || s == "markdown"@ || s == "epub"@ || s == "mobi"@ || s == "pages"@ || s == "numbers"@ || s == "keynote"@ || s == "tex"@ || s == "bib"@ {
        FileType::Document
    } else if s == "rs"@ || s == "py"@ || s == "js"@ || s == "ts"@ || s == "jsx"@ || s == "tsx"@ || s == "go"@ || s == "c"@ || s == "cpp"@ || s == "cc"@ || s == "cxx"@ || s == "h"@ || s == "hpp"@ || s == "hxx"@ || s == "java"@ || s == "kt"@ || s == "kts"@ || s == "swift"@ || s == "m"@ || s == "mm"@ || s == "rb"@ || s == "php"@ || s == "pl"@ || s == "pm"@ || s == "lua"@ || s == "r"@ || s == "R"@ || s == "scala"@ || s == "clj"@ || s == "cljs"@ || s == "hs"@ || s == "ex"@ || s == "exs"@ || s == "erl"@ || s == "hrl"@ || s == "ml"@ || s == "mli"@ || s == "fs"@ || s == "fsx"@ || s == "zig"@ || s == "nim"@ || s == "v"@ || s == "dart"@ || s == "elm"@ || s == "jl"@ || s == "cr"@ || s == "d"@ || s == "pas"@ || s == "pp"@ || s == "asm"@ || s == "s"@ || s == "sol"@ || s == "move"@ || s == "toml"@ || s == "yaml"@ || s == "yml"@ || s == "json"@ || s == "xml"@ || s == "html"@ || s == "htm"@ || s == "css"@ || s == "scss"@ || s == "sass"@ || s == "less"@ || s == "sql"@ || s == "sh"@ || s == "bash"@ || s == "zsh"@ || s == "fish"@ || s == "ps1"@ || s == "bat"@ || s == "cmd"@ || s == "makefile"@ || s == "cmake"@ || s == "dockerfile"@ || s == "proto"@ || s == "graphql"@ || s == "gql"@ || s == "tf"@ || s == "hcl"@ || s == "nix"@ {
        FileType::Code
    } else if s == "zip"@ || s == "tar"@ || s == "gz"@ || s == "bz2"@ || s == "xz"@ || s == "zst"@ || s == "7z"@ || s == "rar"@ || s == "tgz"@ || s == "tbz2"@ || s == "txz"@ || s == "lz"@ || s == "lzma"@ || s == "sz"@ || s == "cab"@ || s == "iso"@ || s == "dmg"@ || s == "img"@ || s == "wim"@ || s == "swm"@ || s == "esd"@ || s == "apk"@ || s == "ipa"@ || s == "deb"@ || s == "rpm"@ || s == "msi"@ || s == "jar"@ || s == "war"@ || s == "ear"@ || s == "whl"@ || s == "gem"@ || s == "nupkg"@ || s == "snap"@ || s == "flatpak"@ {
        FileType::Archive
    } else {
        FileType::Other
    }
}

/// The extensions (in lower case) that the engine's model names for each
/// family of files, in the order its documentation lists them.
pub open spec fn named_extensions(family: FileType) -> Seq<Seq<char>> {
    match family {
        FileType::Audio => seq!["mp3"@, "flac"@, "wav"@, "aac"@, "ogg"@, "wma"@, "m4a"@, "aiff"@, "alac"@, "opus"@, "mid"@, "midi"@],
        FileType::Video => seq!["mp4"@, "mkv"@, "avi"@, "mov"@, "wmv"@, "flv"@, "webm"@, "m4v"@, "mpg"@, "mpeg"@, "3gp"@, "ogv"@, "vob"@],
        FileType::Image => seq!["jpg"@, "jpeg"@, "png"@, "gif"@, "bmp"@, "svg"@, "webp"@, "ico"@, "tiff"@, "tif"@, "psd"@, "raw"@, "cr2"@, "nef"@, "heic"@, "heif"@, "avif"@, "jxl"@],
        FileType::Document => seq!["pdf"@, "doc"@, "docx"@, "xls"@, "xlsx"@, "ppt"@, "pptx"@, "odt"@, "ods"@, "odp"@, "rtf"@, "txt"@, "csv"@, "md"@, "markdown"@, "epub"@, "mobi"@, "pages"@, "numbers"@, "keynote"@, "tex"@, "bib"@],
        FileType::Code => seq!["rs"@, "py"@, "js"@, "ts"@, "jsx"@, "tsx"@, "go"@, "c"@, "cpp"@, "cc"@, "cxx"@, "h"@, "hpp"@, "hxx"@, "java"@, "kt"@, "kts"@, "swift"@, "m"@, "mm"@, "rb"@, "php"@, "pl"@, "pm"@, "lua"@, "r"@, "R"@, "scala"@, "clj"@, "cljs"@, "hs"@, "ex"@, "exs"@, "erl"@, "hrl"@, "ml"@, "mli"@, "fs"@, "fsx"@, "zig"@, "nim"@, "v"@, "dart"@, "elm"@, "jl"@, "cr"@, "d"@, "pas"@, "pp"@, "asm"@, "s"@, "sol"@, "move"@, "toml"@, "yaml"@, "yml"@, "json"@, "xml"@, "html"@, "htm"@, "css"@, "scss"@, "sass"@, "less"@, "sql"@, "sh"@, "bash"@, "zsh"@, "fish"@, "ps1"@, "bat"@, "cmd"@, "makefile"@, "cmake"@, "dockerfile"@, "proto"@, "graphql"@, "gql"@, "tf"@, "hcl"@, "nix"@],
        FileType::Archive => seq!["zip"@, "tar"@, "gz"@, "bz2"@, "xz"@, "zst"@, "7z"@, "rar"@, "tgz"@, "tbz2"@, "txz"@, "lz"@, "lzma"@, "sz"@, "cab"@, "iso"@, "dmg"@, "img"@, "wim"@, "swm"@, "esd"@, "apk"@, "ipa"@, "deb"@, "rpm"@, "msi"@, "jar"@, "war"@, "ear"@, "whl"@, "gem"@, "nupkg"@, "snap"@, "flatpak"@],
        _ => Seq::empty(),
    }
}

/// An extension that the documented table names for one family, and for
/// no other, is classified in that family.
pub proof fn law_named_extensions_classify(family: FileType, s: Seq<char>)
    requires
        named_extensions(family).contains(s),
        forall|f: FileType| f != family ==> !(#[trigger] named_extensions(f)).contains(s),
    ensures
        classify_ext(s) == family,
{
    lemma_audio_named(s);
    lemma_video_named(s);
    lemma_image_named(s);
    lemma_document_named(s);
    lemma_code_named(s);
    lemma_archive_named(s);
    assert(!named_extensions(FileType::Other).contains(s) || family == FileType::Other);
}

proof fn lemma_audio_named(s: Seq<char>)
    ensures
        named_extensions(FileType::Audio).contains(s) <==> (s == "mp3"@ || s == "flac"@ || s == "wav"@ || s == "aac"@ || s == "ogg"@ || s == "wma"@ || s == "m4a"@ || s == "aiff"@ || s == "alac"@ || s == "opus"@ || s == "mid"@ || s == "midi"@),
{
    let n = named_extensions(FileType::Audio);
    assert(n[0] == "mp3"@);
    assert(n[1] == "flac"@);
    assert(n[2] == "wav"@);
    assert(n[3] == "aac"@);
    assert(n[4] == "ogg"@);
    assert(n[5] == "wma"@);
    assert(n[6] == "m4a"@);
    assert(n[7] == "aiff"@);
    assert(n[8] == "alac"@);
    assert(n[9] == "opus"@);
    assert(n[10] == "mid"@);
    assert(n[11] == "midi"@);
    if n.contains(s) {
        let i = choose|i: int| 0 <= i < n.len() && n[i] == s;
        if i == 0 {} else if i == 1 {} else if i == 2 {} else if i == 3 {} else if i == 4 {} else if i == 5 {} else if i == 6 {} else if i == 7 {} else if i == 8 {} else if i == 9 {} else if i == 10 {} else if i == 11 {}
    }
}

proof fn lemma_video_named(s: Seq<char>)
    ensures
        named_extensions(FileType::Video).contains(s) <==> (s == "mp4"@ || s == "mkv"@ || s == "avi"@ || s == "mov"@ || s == "wmv"@ || s == "flv"@ || s == "webm"@ || s == "m4v"@ || s == "mpg"@ || s == "mpeg"@ || s == "3gp"@ || s == "ogv"@ || s == "vob"@),
{
    let n = named_extensions(FileType::Video);
    assert(n[0] == "mp4"@);
    assert(n[1] == "mkv"@);
    assert(n[2] == "avi"@);
    assert(n[3] == "mov"@);
    assert(n[4] == "wmv"@);
    assert(n[5] == "flv"@);
    assert(n[6] == "webm"@);
    assert(n[7] == "m4v"@);
    assert(n[8] == "mpg"@);
    assert(n[9] == "mpeg"@);
    assert(n[10] == "3gp"@);
    assert(n[11] == "ogv"@);
    assert(n[12] == "vob"@);
    if n.contains(s) {
        let i = choose|i: int| 0 <= i < n.len() && n[i] == s;
        if i == 0 {} else if i == 1 {} else if i == 2 {} else if i == 3 {} else if i == 4 {} else if i == 5 {} else if i == 6 {} else if i == 7 {} else if i == 8 {} else if i == 9 {} else if i == 10 {} else if i == 11 {} else if i == 12 {}
    }
}

proof fn lemma_image_named(s: Seq<char>)
    ensures
        named_extensions(FileType::Image).contains(s) <==> (s == "jpg"@ || s == "jpeg"@ || s == "png"@ || s == "gif"@ || s == "bmp"@ || s == "svg"@ || s == "webp"@ || s == "ico"@ || s == "tiff"@ || s == "tif"@ || s == "psd"@ || s == "raw"@ || s == "cr2"@ || s == "nef"@ || s == "heic"@ || s == "heif"@ || s == "avif"@ || s == "jxl"@),
{
    let n = named_extensions(FileType::Image);
    assert(n[0] == "jpg"@);
    assert(n[1] == "jpeg"@);
    assert(n[2] == "png"@);
    assert(n[3] == "gif"@);
    assert(n[4] == "bmp"@);
    assert(n[5] == "svg"@);
    assert(n[6] == "webp"@);
    assert(n[7] == "ico"@);
    assert(n[8] == "tiff"@);
    assert(n[9] == "tif"@);
    assert(n[10] == "psd"@);
    assert(n[11] == "raw"@);
    assert(n[12] == "cr2"@);
    assert(n[13] == "nef"@);
    assert(n[14] == "heic"@);
    assert(n[15] == "heif"@);
    assert(n[16] == "avif"@);
    assert(n[17] == "jxl"@);
    if n.contains(s) {
        let i = choose|i: int| 0 <= i < n.len() && n[i] == s;
        if i == 0 {} else if i == 1 {} else if i == 2 {} else if i == 3 {} else if i == 4 {} else if i == 5 {} else if i == 6 {} else if i == 7 {} else if i == 8 {} else if i == 9 {} else if i == 10 {} else if i == 11 {} else if i == 12 {} else if i == 13 {} else if i == 14 {} else if i == 15 {} else if i == 16 {} else if i == 17 {}
    }
}

proof fn lemma_document_named(s: Seq<char>)
    ensures
        named_extensions(FileType::Document).contains(s) <==> (s == "pdf"@ || s == "doc"@ || s == "docx"@ || s == "xls"@ || s == "xlsx"@ || s == "ppt"@ || s == "pptx"@ || s == "odt"@ || s == "ods"@ || s == "odp"@ || s == "rtf"@ || s == "txt"@ || s == "csv"@ || s == "md"@ || s == "markdown"@ || s == "epub"@ || s == "mobi"@ || s == "pages"@ || s == "numbers"@ || s == "keynote"@ || s == "tex"@ || s == "bib"@),
{
    let n = named_extensions(FileType::Document);
    assert(n[0] == "pdf"@);
    assert(n[1] == "doc"@);
    assert(n[2] == "docx"@);
    assert(n[3] == "xls"@);
    assert(n[4] == "xlsx"@);
    assert(n[5] == "ppt"@);
    assert(n[6] == "pptx"@);
    assert(n[7] == "odt"@);
    assert(n[8] == "ods"@);
    assert(n[9] == "odp"@);
    assert(n[10] == "rtf"@);
    assert(n[11] == "txt"@);
    assert(n[12] == "csv"@);
    assert(n[13] == "md"@);
    assert(n[14] == "markdown"@);
    assert(n[15] == "epub"@);
    assert(n[16] == "mobi"@);
    assert(n[17] == "pages"@);
    assert(n[18] == "numbers"@);
    assert(n[19] == "keynote"@);
    assert(n[20] == "tex"@);
    assert(n[21] == "bib"@);
    if n.contains(s) {
        let i = choose|i: int| 0 <= i < n.len() && n[i] == s;
        if i == 0 {} else if i == 1 {} else if i == 2 {} else if i == 3 {} else if i == 4 {} else if i == 5 {} else if i == 6 {} else if i == 7 {} else if i == 8 {} else if i == 9 {} else if i == 10 {} else if i == 11 {} else if i == 12 {} else if i == 13 {} else if i == 14 {} else if i == 15 {} else if i == 16 {} else if i == 17 {} else if i == 18 {} else if i == 19 {} else if i == 20 {} else if i == 21 {}
    }
}

proof fn lemma_code_named(s: Seq<char>)
    ensures
        named_extensions(FileType::Code).contains(s) <==> (s == "rs"@ || s == "py"@ || s == "js"@ || s == "ts"@ || s == "jsx"@ || s == "tsx"@ || s == "go"@ || s == "c"@ || s == "cpp"@ || s == "cc"@ || s == "cxx"@ || s == "h"@ || s == "hpp"@ || s == "hxx"@ || s == "java"@ || s == "kt"@ || s == "kts"@ || s == "swift"@ || s == "m"@ || s == "mm"@ || s == "rb"@ || s == "php"@ || s == "pl"@ || s == "pm"@ || s == "lua"@ || s == "r"@ || s == "R"@ || s == "scala"@ || s == "clj"@ || s == "cljs"@ || s == "hs"@ || s == "ex"@ || s == "exs"@ || s == "erl"@ || s == "hrl"@ || s == "ml"@ || s == "mli"@ || s == "fs"@ || s == "fsx"@ || s == "zig"@ || s == "nim"@ || s == "v"@ || s == "dart"@ || s == "elm"@ || s == "jl"@ || s == "cr"@ || s == "d"@ || s == "pas"@ || s == "pp"@ || s == "asm"@ || s == "s"@ || s == "sol"@ || s == "move"@ || s == "toml"@ || s == "yaml"@ || s == "yml"@ || s == "json"@ || s == "xml"@ || s == "html"@ || s == "htm"@ || s == "css"@ || s == "scss"@ || s == "sass"@ || s == "less"@ || s == "sql"@ || s == "sh"@ || s == "bash"@ || s == "zsh"@ || s == "fish"@ || s == "ps1"@ || s == "bat"@ || s == "cmd"@ || s == "makefile"@ || s == "cmake"@ || s == "dockerfile"@ || s == "proto"@ || s == "graphql"@ || s == "gql"@ || s == "tf"@ || s == "hcl"@ || s == "nix"@),
{
    let n = named_extensions(FileType::Code);
    assert(n[0] == "rs"@);
    assert(n[1] == "py"@);
    assert(n[2] == "js"@);
    assert(n[3] == "ts"@);
    assert(n[4] == "jsx"@);
    assert(n[5] == "tsx"@);
    assert(n[6] == "go"@);
    assert(n[7] == "c"@);
    assert(n[8] == "cpp"@);
    assert(n[9] == "cc"@);
    assert(n[10] == "cxx"@);
    assert(n[11] == "h"@);
    assert(n[12] == "hpp"@);
    assert(n[13] == "hxx"@);
    assert(n[14] == "java"@);
    assert(n[15] == "kt"@);
    assert(n[16] == "kts"@);
    assert(n[17] == "swift"@);
    assert(n[18] == "m"@);
    assert(n[19] == "mm"@);
    assert(n[20] == "rb"@);
    assert(n[21] == "php"@);
    assert(n[22] == "pl"@);
    assert(n[23] == "pm"@);
    assert(n[24] == "lua"@);
    assert(n[25] == "r"@);
    assert(n[26] == "R"@);
    assert(n[27] == "scala"@);
    assert(n[28] == "clj"@);
    assert(n[29] == "cljs"@);
    assert(n[30] == "hs"@);
    assert(n[31] == "ex"@);
    assert(n[32] == "exs"@);
    assert(n[33] == "erl"@);
    assert(n[34] == "hrl"@);
    assert(n[35] == "ml"@);
    assert(n[36] == "mli"@);
    assert(n[37] == "fs"@);
    assert(n[38] == "fsx"@);
    assert(n[39] == "zig"@);
    assert(n[40] == "nim"@);
    assert(n[41] == "v"@);
    assert(n[42] == "dart"@);
    assert(n[43] == "elm"@);
    assert(n[44] == "jl"@);
    assert(n[45] == "cr"@);
    assert(n[46] == "d"@);
    assert(n[47] == "pas"@);
    assert(n[48] == "pp"@);
    assert(n[49] == "asm"@);
    assert(n[50] == "s"@);
    assert(n[51] == "sol"@);
    assert(n[52] == "move"@);
    assert(n[53] == "toml"@);
    assert(n[54] == "yaml"@);
    assert(n[55] == "yml"@);
    assert(n[56] == "json"@);
    assert(n[57] == "xml"@);
    assert(n[58] == "html"@);
    assert(n[59] == "htm"@);
    assert(n[60] == "css"@);
    assert(n[61] == "scss"@);
    assert(n[62] == "sass"@);
    assert(n[63] == "less"@);
    assert(n[64] == "sql"@);
    assert(n[65] == "sh"@);
    assert(n[66] == "bash"@);
    assert(n[67] == "zsh"@);
    assert(n[68] == "fish"@);
    assert(n[69] == "ps1"@);
    assert(n[70] == "bat"@);
    assert(n[71] == "cmd"@);
    assert(n[72] == "makefile"@);
    assert(n[73] == "cmake"@);
    assert(n[74] == "dockerfile"@);
    assert(n[75] == "proto"@);
    assert(n[76] == "graphql"@);
    assert(n[77] == "gql"@);
    assert(n[78] == "tf"@);
    assert(n[79] == "hcl"@);
    assert(n[80] == "nix"@);
    if n.contains(s) {
        let i = choose|i: int| 0 <= i < n.len() && n[i] == s;
        if i == 0 {} else if i == 1 {} else if i == 2 {} else if i == 3 {} else if i == 4 {} else if i == 5 {} else if i == 6 {} else if i == 7 {} else if i == 8 {} else if i == 9 {} else if i == 10 {} else if i == 11 {} else if i == 12 {} else if i == 13 {} else if i == 14 {} else if i == 15 {} else if i == 16 {} else if i == 17 {} else if i == 18 {} else if i == 19 {} else if i == 20 {} else if i == 21 {} else if i == 22 {} else if i == 23 {} else if i == 24 {} else if i == 25 {} else if i == 26 {} else if i == 27 {} else if i == 28 {} else if i == 29 {} else if i == 30 {} else if i == 31 {} else if i == 32 {} else if i == 33 {} else if i == 34 {} else if i == 35 {} else if i == 36 {} else if i == 37 {} else if i == 38 {} else if i == 39 {} else if i == 40 {} else if i == 41 {} else if i == 42 {} else if i == 43 {} else if i == 44 {} else if i == 45 {} else if i == 46 {} else if i == 47 {} else if i == 48 {} else if i == 49 {} else if i == 50 {} else if i == 51 {} else if i == 52 {} else if i == 53 {} else if i == 54 {} else if i == 55 {} else if i == 56 {} else if i == 57 {} else if i == 58 {} else if i == 59 {} else if i == 60 {} else if i == 61 {} else if i == 62 {} else if i == 63 {} else if i == 64 {} else if i == 65 {} else if i == 66 {} else if i == 67 {} else if i == 68 {} else if i == 69 {} else if i == 70 {} else if i == 71 {} else if i == 72 {} else if i == 73 {} else if i == 74 {} else if i == 75 {} else if i == 76 {} else if i == 77 {} else if i == 78 {} else if i == 79 {} else if i == 80 {}
    }
}

proof fn lemma_archive_named(s: Seq<char>)
    ensures
        named_extensions(FileType::Archive).contains(s) <==> (s == "zip"@ || s == "tar"@ || s == "gz"@ || s == "bz2"@ || s == "xz"@ || s == "zst"@ || s == "7z"@ || s == "rar"@ || s == "tgz"@ || s == "tbz2"@ || s == "txz"@ || s == "lz"@ || s == "lzma"@ || s == "sz"@ || s == "cab"@ || s == "iso"@ || s == "dmg"@ || s == "img"@ || s == "wim"@ || s == "swm"@ || s == "esd"@ || s == "apk"@ || s == "ipa"@ || s == "deb"@ || s == "rpm"@ || s == "msi"@ || s == "jar"@ || s == "war"@ || s == "ear"@ || s == "whl"@ || s == "gem"@ || s == "nupkg"@ || s == "snap"@ || s == "flatpak"@),
{
    let n = named_extensions(FileType::Archive);
    assert(n[0] == "zip"@);
    assert(n[1] == "tar"@);
    assert(n[2] == "gz"@);
    assert(n[3] == "bz2"@);
    assert(n[4] == "xz"@);
    assert(n[5] == "zst"@);
    assert(n[6] == "7z"@);
    assert(n[7] == "rar"@);
    assert(n[8] == "tgz"@);
    assert(n[9] == "tbz2"@);
    assert(n[10] == "txz"@);
    assert(n[11] == "lz"@);
    assert(n[12] == "lzma"@);
    assert(n[13] == "sz"@);
    assert(n[14] == "cab"@);
    assert(n[15] == "iso"@);
    assert(n[16] == "dmg"@);
    assert(n[17] == "img"@);
    assert(n[18] == "wim"@);
    assert(n[19] == "swm"@);
    assert(n[20] == "esd"@);
    assert(n[21] == "apk"@);
    assert(n[22] == "ipa"@);
    assert(n[23] == "deb"@);
    assert(n[24] == "rpm"@);
    assert(n[25] == "msi"@);
    assert(n[26] == "jar"@);
    assert(n[27] == "war"@);
    assert(n[28] == "ear"@);
    assert(n[29] == "whl"@);
    assert(n[30] == "gem"@);
    assert(n[31] == "nupkg"@);
    assert(n[32] == "snap"@);
    assert(n[33] == "flatpak"@);
    if n.contains(s) {
        let i = choose|i: int| 0 <= i < n.len() && n[i] == s;
        if i == 0 {} else if i == 1 {} else if i == 2 {} else if i == 3 {} else if i == 4 {} else if i == 5 {} else if i == 6 {} else if i == 7 {} else if i == 8 {} else if i == 9 {} else if i == 10 {} else if i == 11 {} else if i == 12 {} else if i == 13 {} else if i == 14 {} else if i == 15 {} else if i == 16 {} else if i == 17 {} else if i == 18 {} else if i == 19 {} else if i == 20 {} else if i == 21 {} else if i == 22 {} else if i == 23 {} else if i == 24 {} else if i == 25 {} else if i == 26 {} else if i == 27 {} else if i == 28 {} else if i == 29 {} else if i == 30 {} else if i == 31 {} else if i == 32 {} else if i == 33 {}
    }
}

impl FileType {
    /// Classifies by extension (no leading dot), ignoring ASCII case.
    pub fn from_extension(ext: &str) -> (r: FileType)
        ensures
            r == classify_ext(ascii_lower_seq(ext@)),
    {
        let lower = string_from_chars(&ascii_lowercase_chars(ext));
        classify_lowered(lower.as_str())
    }
}

fn classify_lowered(l: &str) -> (r: FileType)
    ensures
        r == classify_ext(l@),
{
    if str_eq(l, "mp3") || str_eq(l, "flac") || str_eq(l, "wav") || str_eq(l, "aac") || str_eq(l, "ogg") || str_eq(l, "wma") || str_eq(l, "m4a") || str_eq(l, "aiff") || str_eq(l, "alac") || str_eq(l, "opus") || str_eq(l, "mid") || str_eq(l, "midi") {
        FileType::Audio
    } else if str_eq(l, "mp4") || str_eq(l, "mkv") || str_eq(l, "avi") || str_eq(l, "mov") || str_eq(l, "wmv") || str_eq(l, "flv") || str_eq(l, "webm") || str_eq(l, "m4v") || str_eq(l, "mpg") || str_eq(l, "mpeg") || str_eq(l, "3gp") || str_eq(l, "ogv") || str_eq(l, "vob") {
        FileType::Video
    } else if str_eq(l, "jpg") || str_eq(l, "jpeg") || str_eq(l, "png") || str_eq(l, "gif") || str_eq(l, "bmp") || str_eq(l, "svg") || str_eq(l, "webp") || str_eq(l, "ico") || str_eq(l, "tiff") || str_eq(l, "tif") || str_eq(l, "psd") || str_eq(l, "raw") || str_eq(l, "cr2") || str_eq(l, "nef") || str_eq(l, "heic") || str_eq(l, "heif") || str_eq(l, "avif") || str_eq(l, "jxl") {
        FileType::Image
    } else if str_eq(l, "pdf") || str_eq(l, "doc") || str_eq(l, "docx") || str_eq(l, "xls") || str_eq(l, "xlsx") || str_eq(l, "ppt") || str_eq(l, "pptx") || str_eq(l, "odt") || str_eq(l, "ods") || str_eq(l, "odp") || str_eq(l, "rtf") || str_eq(l, "txt") || str_eq(l, "csv") || str_eq(l, "md") || str_eq(l, "markdown") || str_eq(l, "epub") || str_eq(l, "mobi") || str_eq(l, "pages") || str_eq(l, "numbers") || str_eq(l, "keynote") || str_eq(l, "tex") || str_eq(l, "bib") {
        FileType::Document
    } else if str_eq(l, "rs") || str_eq(l, "py") || str_eq(l, "js") || str_eq(l, "ts") || str_eq(l, "jsx") || str_eq(l, "tsx") || str_eq(l, "go") || str_eq(l, "c") || str_eq(l, "cpp") || str_eq(l, "cc") || str_eq(l, "cxx") || str_eq(l, "h") || str_eq(l, "hpp") || str_eq(l, "hxx") || str_eq(l, "java") || str_eq(l, "kt") || str_eq(l, "kts") || str_eq(l, "swift") || str_eq(l, "m") || str_eq(l, "mm") || str_eq(l, "rb") || str_eq(l, "php") || str_eq(l, "pl") || str_eq(l, "pm") || str_eq(l, "lua") || str_eq(l, "r") || str_eq(l, "R") || str_eq(l, "scala") || str_eq(l, "clj") || str_eq(l, "cljs") || str_eq(l, "hs") || str_eq(l, "ex") || str_eq(l, "exs") || str_eq(l, "erl") || str_eq(l, "hrl") || str_eq(l, "ml") || str_eq(l, "mli") || str_eq(l, "fs") || str_eq(l, "fsx") || str_eq(l, "zig") || str_eq(l, "nim") || str_eq(l, "v") || str_eq(l, "dart") || str_eq(l, "elm") || str_eq(l, "jl") || str_eq(l, "cr") || str_eq(l, "d") || str_eq(l, "pas") || str_eq(l, "pp") || str_eq(l, "asm") || str_eq(l, "s") || str_eq(l, "sol") || str_eq(l, "move") || str_eq(l, "toml") || str_eq(l, "yaml") || str_eq(l, "yml") || str_eq(l, "json") || str_eq(l, "xml") || str_eq(l, "html") || str_eq(l, "htm") || str_eq(l, "css") || str_eq(l, "scss") || str_eq(l, "sass") || str_eq(l, "less") || str_eq(l, "sql") || str_eq(l, "sh") || str_eq(l, "bash") || str_eq(l, "zsh") || str_eq(l, "fish") || str_eq(l, "ps1") || str_eq(l, "bat") || str_eq(l, "cmd") || str_eq(l, "makefile") || str_eq(l, "cmake") || str_eq(l, "dockerfile") || str_eq(l, "proto") || str_eq(l, "graphql") || str_eq(l, "gql") || str_eq(l, "tf") || str_eq(l, "hcl") || str_eq(l, "nix") {
        FileType::Code
    } else if str_eq(l, "zip") || str_eq(l, "tar") || str_eq(l, "gz") || str_eq(l, "bz2") || str_eq(l, "xz") || str_eq(l, "zst") || str_eq(l, "7z") || str_eq(l, "rar") || str_eq(l, "tgz") || str_eq(l, "tbz2") || str_eq(l, "txz") || str_eq(l, "lz") || str_eq(l, "lzma") || str_eq(l, "sz") || str_eq(l, "cab") || str_eq(l, "iso") || str_eq(l, "dmg") || str_eq(l, "img") || str_eq(l, "wim") || str_eq(l, "swm") || str_eq(l, "esd") || str_eq(l, "apk") || str_eq(l, "ipa") || str_eq(l, "deb") || str_eq(l, "rpm") || str_eq(l, "msi") || str_eq(l, "jar") || str_eq(l, "war") || str_eq(l, "ear") || str_eq(l, "whl") || str_eq(l, "gem") || str_eq(l, "nupkg") || str_eq(l, "snap") || str_eq(l, "flatpak") {
        FileType::Archive
    } else {
        FileType::Other
    }
}

} // verus!
