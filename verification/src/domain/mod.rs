//! Domain model of a disk scan: classified file-system entries arranged in a
//! tree, the result of a scan, per-entry filters, sort orders and the
//! human-readable rendering of byte counts.
//!
//! Directory sizes are the recursive sums of their descendants (the
//! scanner normalises them before a tree reaches this layer), so the total
//! size of a node is its own `size`.
use vstd::prelude::*;
use std::io::ErrorKind;
use crate::numfmt::{f64_value, f64_value_exec, one_decimal, push_one_decimal, unit_index, unit_index_exec};
use crate::paths::{file_name_of, path_file_name};
use crate::sorting::{key_le, key_views, lex_le, reorders, sort_by_keys, stable_by_keys, stably_sorted, KeyV, SortKey};
use crate::sums::{lemma_sum_take_all, lemma_sum_take_step, sum_nat};
use crate::text::{
    ascii_lower_seq, chars_of, contains_chars, contains_seq, dec, push_dec, str_eq, to_lowercase,
    unicode_lowercase,
};

pub mod dupes;
pub mod junk;
pub mod ports;
pub mod sync;

verus! {

// ── std types that appear in the model ─────────────────────────────────────

/// `std::io::Error`, carried through unchanged.
#[verifier::external_type_specification]
#[verifier::external_body]
pub struct ExIoError(std::io::Error);

/// `std::io::ErrorKind`, carried through unchanged.
#[verifier::external_type_specification]
#[verifier::external_body]
pub struct ExIoErrorKind(std::io::ErrorKind);

/// `io::Error::kind`. Nothing is stated of the kind: the error is opaque.
#[verifier::external_body]
pub(crate) fn io_error_kind(err: &std::io::Error) -> std::io::ErrorKind {
    err.kind()
}

/// The `Display` text of an `io::Error` (`ToString::to_string`). Nothing
/// is stated of the text: the error is opaque.
#[verifier::external_body]
pub(crate) fn io_error_text(err: &std::io::Error) -> String {
    err.to_string()
}

/// The kind of an OS error, as the library tells kinds apart: the common
/// kinds of `std::io::ErrorKind` by name, and `Uncategorized` for every
/// other.
#[derive(Debug, Clone, Copy, PartialEq, Eq, Hash, Structural)]
pub enum IoKind {
    NotFound,
    PermissionDenied,
    AlreadyExists,
    InvalidInput,
    InvalidData,
    TimedOut,
    Interrupted,
    Unsupported,
    UnexpectedEof,
    Other,
    Uncategorized,
}

/// The library's value of an `io::ErrorKind`: the variant of the same
/// name, and `Uncategorized` for a kind that has none here. Nothing is
/// stated of the result: the kind is opaque.
#[verifier::external_body]
pub(crate) fn io_kind_of(kind: ErrorKind) -> IoKind {
    match kind {
        ErrorKind::NotFound => IoKind::NotFound,
        ErrorKind::PermissionDenied => IoKind::PermissionDenied,
        ErrorKind::AlreadyExists => IoKind::AlreadyExists,
        ErrorKind::InvalidInput => IoKind::InvalidInput,
        ErrorKind::InvalidData => IoKind::InvalidData,
        ErrorKind::TimedOut => IoKind::TimedOut,
        ErrorKind::Interrupted => IoKind::Interrupted,
        ErrorKind::Unsupported => IoKind::Unsupported,
        ErrorKind::UnexpectedEof => IoKind::UnexpectedEof,
        ErrorKind::Other => IoKind::Other,
        _ => IoKind::Uncategorized,
    }
}

// ── PathError ────────────────────────────────────────────────────────────

/// A non-fatal file-system error met while scanning: the path that
/// triggered it, the OS error kind, and the error's message.
#[derive(Debug, PartialEq, Eq)]
pub struct PathError {
    pub path: String,
    pub kind: IoKind,
    pub message: String,
}

impl Clone for PathError {
    fn clone(&self) -> (r: PathError)
        ensures
            r == *self,
    {
        PathError { path: self.path.clone(), kind: self.kind, message: self.message.clone() }
    }
}

impl PathError {
    /// Builds a `PathError` from an I/O error and the path that caused it.
    pub fn from_io(path: &str, err: &std::io::Error) -> (r: PathError)
        ensures
            r.path@ == path@,
    {
        PathError { path: String::from_str(path), kind: io_kind_of(io_error_kind(err)), message: io_error_text(err) }
    }
}

// ── FileType ─────────────────────────────────────────────────────────────

/// Coarse classification of a file-system entry.
#[derive(Debug, Clone, Copy, PartialEq, Eq, Hash, Structural)]
pub enum FileType {
    Audio,
    Video,
    Image,
    Document,
    Code,
    Archive,
    Directory,
    Other,
}

/// The family of an already lower-cased extension.
pub open spec fn classify_lower(s: Seq<char>) -> FileType {
    if s == "mp3"@ || s == "wav"@ || s == "flac"@ || s == "ogg"@ || s == "aac"@ || s == "m4a"@ || s == "wma"@ {
        FileType::Audio
    } else if s == "mp4"@ || s == "mkv"@ || s == "avi"@ || s == "mov"@ || s == "wmv"@ || s == "flv"@ || s == "webm"@ {
        FileType::Video
    } else if s == "jpg"@ || s == "jpeg"@ || s == "png"@ || s == "gif"@ || s == "bmp"@ || s == "svg"@ || s == "webp"@ || s == "ico"@ {
        FileType::Image
    } else if s == "pdf"@ || s == "doc"@ || s == "docx"@ || s == "xls"@ || s == "xlsx"@ || s == "ppt"@ || s == "pptx"@ || s == "txt"@ || s == "md"@ || s == "csv"@ {
        FileType::Document
    } else if s == "rs"@ || s == "py"@ || s == "js"@ || s == "ts"@ || s == "go"@ || s == "c"@ || s == "cpp"@ || s == "h"@ || s == "java"@ || s == "rb"@ || s == "php"@ || s == "sh"@ || s == "toml"@ || s == "yaml"@ || s == "yml"@ || s == "json"@ || s == "xml"@ || s == "html"@ || s == "css"@ || s == "sql"@ {
        FileType::Code
    } else if s == "zip"@ || s == "tar"@ || s == "gz"@ || s == "tgz"@ || s == "bz2"@ || s == "xz"@ || s == "7z"@ || s == "rar"@ {
        FileType::Archive
    } else {
        FileType::Other
    }
}

/// The extensions (in lower case) that the domain names for each
/// family of files, in the order its documentation lists them.
pub open spec fn named_extensions(family: FileType) -> Seq<Seq<char>> {
    match family {
        FileType::Audio => seq!["mp3"@, "wav"@, "flac"@, "ogg"@, "aac"@, "m4a"@, "wma"@],
        FileType::Video => seq!["mp4"@, "mkv"@, "avi"@, "mov"@, "wmv"@, "flv"@, "webm"@],
        FileType::Image => seq!["jpg"@, "jpeg"@, "png"@, "gif"@, "bmp"@, "svg"@, "webp"@, "ico"@],
        FileType::Document => seq!["pdf"@, "doc"@, "docx"@, "xls"@, "xlsx"@, "ppt"@, "pptx"@, "txt"@, "md"@, "csv"@],
        FileType::Code => seq!["rs"@, "py"@, "js"@, "ts"@, "go"@, "c"@, "cpp"@, "h"@, "java"@, "rb"@, "php"@, "sh"@, "toml"@, "yaml"@, "yml"@, "json"@, "xml"@, "html"@, "css"@, "sql"@],
        FileType::Archive => seq!["zip"@, "tar"@, "gz"@, "tgz"@, "bz2"@, "xz"@, "7z"@, "rar"@],
        _ => Seq::empty(),
    }
}

/// An extension that the documented table names for one family, and for
/// no other, is classified in that family.
pub proof fn law_named_extensions_classify(family: FileType, s: Seq<char>)
    requires
        named_extensions(family).contains(s),
        forall|f: FileType| f != family ==> !(#[trigger] named_extensions(f)).contains(s),
    ensures
        classify_lower(s) == family,
{
    lemma_audio_named(s);
    lemma_video_named(s);
    lemma_image_named(s);
    lemma_document_named(s);
    lemma_code_named(s);
    lemma_archive_named(s);
    assert(!named_extensions(FileType::Other).contains(s) || family == FileType::Other);
}

proof fn lemma_audio_named(s: Seq<char>)
    ensures
        named_extensions(FileType::Audio).contains(s) <==> (s == "mp3"@ || s == "wav"@ || s == "flac"@ || s == "ogg"@ || s == "aac"@ || s == "m4a"@ || s == "wma"@),
{
    let n = named_extensions(FileType::Audio);
    assert(n[0] == "mp3"@);
    assert(n[1] == "wav"@);
    assert(n[2] == "flac"@);
    assert(n[3] == "ogg"@);
    assert(n[4] == "aac"@);
    assert(n[5] == "m4a"@);
    assert(n[6] == "wma"@);
    if n.contains(s) {
        let i = choose|i: int| 0 <= i < n.len() && n[i] == s;
        if i == 0 {} else if i == 1 {} else if i == 2 {} else if i == 3 {} else if i == 4 {} else if i == 5 {} else if i == 6 {}
    }
}

proof fn lemma_video_named(s: Seq<char>)
    ensures
        named_extensions(FileType::Video).contains(s) <==> (s == "mp4"@ || s == "mkv"@ || s == "avi"@ || s == "mov"@ || s == "wmv"@ || s == "flv"@ || s == "webm"@),
{
    let n = named_extensions(FileType::Video);
    assert(n[0] == "mp4"@);
    assert(n[1] == "mkv"@);
    assert(n[2] == "avi"@);
    assert(n[3] == "mov"@);
    assert(n[4] == "wmv"@);
    assert(n[5] == "flv"@);
    assert(n[6] == "webm"@);
    if n.contains(s) {
        let i = choose|i: int| 0 <= i < n.len() && n[i] == s;
        if i == 0 {} else if i == 1 {} else if i == 2 {} else if i == 3 {} else if i == 4 {} else if i == 5 {} else if i == 6 {}
    }
}

proof fn lemma_image_named(s: Seq<char>)
    ensures
        named_extensions(FileType::Image).contains(s) <==> (s == "jpg"@ || s == "jpeg"@ || s == "png"@ || s == "gif"@ || s == "bmp"@ || s == "svg"@ || s == "webp"@ || s == "ico"@),
{
    let n = named_extensions(FileType::Image);
    assert(n[0] == "jpg"@);
    assert(n[1] == "jpeg"@);
    assert(n[2] == "png"@);
    assert(n[3] == "gif"@);
    assert(n[4] == "bmp"@);
    assert(n[5] == "svg"@);
    assert(n[6] == "webp"@);
    assert(n[7] == "ico"@);
    if n.contains(s) {
        let i = choose|i: int| 0 <= i < n.len() && n[i] == s;
        if i == 0 {} else if i == 1 {} else if i == 2 {} else if i == 3 {} else if i == 4 {} else if i == 5 {} else if i == 6 {} else if i == 7 {}
    }
}

proof fn lemma_document_named(s: Seq<char>)
    ensures
        named_extensions(FileType::Document).contains(s) <==> (s == "pdf"@ || s == "doc"@ || s == "docx"@ || s == "xls"@ || s == "xlsx"@ || s == "ppt"@ || s == "pptx"@ || s == "txt"@ || s == "md"@ || s == "csv"@),
{
    let n = named_extensions(FileType::Document);
    assert(n[0] == "pdf"@);
    assert(n[1] == "doc"@);
    assert(n[2] == "docx"@);
    assert(n[3] == "xls"@);
    assert(n[4] == "xlsx"@);
    assert(n[5] == "ppt"@);
    assert(n[6] == "pptx"@);
    assert(n[7] == "txt"@);
    assert(n[8] == "md"@);
    assert(n[9] == "csv"@);
    if n.contains(s) {
        let i = choose|i: int| 0 <= i < n.len() && n[i] == s;
        if i == 0 {} else if i == 1 {} else if i == 2 {} else if i == 3 {} else if i == 4 {} else if i == 5 {} else if i == 6 {} else if i == 7 {} else if i == 8 {} else if i == 9 {}
    }
}

proof fn lemma_code_named(s: Seq<char>)
    ensures
        named_extensions(FileType::Code).contains(s) <==> (s == "rs"@ || s == "py"@ || s == "js"@ || s == "ts"@ || s == "go"@ || s == "c"@ || s == "cpp"@ || s == "h"@ || s == "java"@ || s == "rb"@ || s == "php"@ || s == "sh"@ || s == "toml"@ || s == "yaml"@ || s == "yml"@ || s == "json"@ || s == "xml"@ || s == "html"@ || s == "css"@ || s == "sql"@),
{
    let n = named_extensions(FileType::Code);
    assert(n[0] == "rs"@);
    assert(n[1] == "py"@);
    assert(n[2] == "js"@);
    assert(n[3] == "ts"@);
    assert(n[4] == "go"@);
    assert(n[5] == "c"@);
    assert(n[6] == "cpp"@);
    assert(n[7] == "h"@);
    assert(n[8] == "java"@);
    assert(n[9] == "rb"@);
    assert(n[10] == "php"@);
    assert(n[11] == "sh"@);
    assert(n[12] == "toml"@);
    assert(n[13] == "yaml"@);
    assert(n[14] == "yml"@);
    assert(n[15] == "json"@);
    assert(n[16] == "xml"@);
    assert(n[17] == "html"@);
    assert(n[18] == "css"@);
    assert(n[19] == "sql"@);
    if n.contains(s) {
        let i = choose|i: int| 0 <= i < n.len() && n[i] == s;
        if i == 0 {} else if i == 1 {} else if i == 2 {} else if i == 3 {} else if i == 4 {} else if i == 5 {} else if i == 6 {} else if i == 7 {} else if i == 8 {} else if i == 9 {} else if i == 10 {} else if i == 11 {} else if i == 12 {} else if i == 13 {} else if i == 14 {} else if i == 15 {} else if i == 16 {} else if i == 17 {} else if i == 18 {} else if i == 19 {}
    }
}

proof fn lemma_archive_named(s: Seq<char>)
    ensures
        named_extensions(FileType::Archive).contains(s) <==> (s == "zip"@ || s == "tar"@ || s == "gz"@ || s == "tgz"@ || s == "bz2"@ || s == "xz"@ || s == "7z"@ || s == "rar"@),
{
    let n = named_extensions(FileType::Archive);
    assert(n[0] == "zip"@);
    assert(n[1] == "tar"@);
    assert(n[2] == "gz"@);
    assert(n[3] == "tgz"@);
    assert(n[4] == "bz2"@);
    assert(n[5] == "xz"@);
    assert(n[6] == "7z"@);
    assert(n[7] == "rar"@);
    if n.contains(s) {
        let i = choose|i: int| 0 <= i < n.len() && n[i] == s;
        if i == 0 {} else if i == 1 {} else if i == 2 {} else if i == 3 {} else if i == 4 {} else if i == 5 {} else if i == 6 {} else if i == 7 {}
    }
}

impl FileType {
    /// Classifies a file by its extension (no leading dot), ignoring case.
    /// Empty and unknown extensions give `Other`.
    pub fn from_extension(ext: &str) -> (r: FileType)
        ensures
            r == classify_lower(unicode_lowercase(ext@)),
            vstd::utf8::is_ascii_chars(ext@) ==> r == classify_lower(ascii_lower_seq(ext@)),
    {
        let lower = to_lowercase(ext);
        let l = lower.as_str();
        classify_lowered(l)
    }
}

fn classify_lowered(l: &str) -> (r: FileType)
    ensures
        r == classify_lower(l@),
{
    if str_eq(l, "mp3") || str_eq(l, "wav") || str_eq(l, "flac") || str_eq(l, "ogg") || str_eq(l, "aac") || str_eq(l, "m4a") || str_eq(l, "wma") {
        FileType::Audio
    } else if str_eq(l, "mp4") || str_eq(l, "mkv") || str_eq(l, "avi") || str_eq(l, "mov") || str_eq(l, "wmv") || str_eq(l, "flv") || str_eq(l, "webm") {
        FileType::Video
    } else if str_eq(l, "jpg") || str_eq(l, "jpeg") || str_eq(l, "png") || str_eq(l, "gif") || str_eq(l, "bmp") || str_eq(l, "svg") || str_eq(l, "webp") || str_eq(l, "ico") {
        FileType::Image
    } else if str_eq(l, "pdf") || str_eq(l, "doc") || str_eq(l, "docx") || str_eq(l, "xls") || str_eq(l, "xlsx") || str_eq(l, "ppt") || str_eq(l, "pptx") || str_eq(l, "txt") || str_eq(l, "md") || str_eq(l, "csv") {
        FileType::Document
    } else if str_eq(l, "rs") || str_eq(l, "py") || str_eq(l, "js") || str_eq(l, "ts") || str_eq(l, "go") || str_eq(l, "c") || str_eq(l, "cpp") || str_eq(l, "h") || str_eq(l, "java") || str_eq(l, "rb") || str_eq(l, "php") || str_eq(l, "sh") || str_eq(l, "toml") || str_eq(l, "yaml") || str_eq(l, "yml") || str_eq(l, "json") || str_eq(l, "xml") || str_eq(l, "html") || str_eq(l, "css") || str_eq(l, "sql") {
        FileType::Code
    } else if str_eq(l, "zip") || str_eq(l, "tar") || str_eq(l, "gz") || str_eq(l, "tgz") || str_eq(l, "bz2") || str_eq(l, "xz") || str_eq(l, "7z") || str_eq(l, "rar") {
        FileType::Archive
    } else {
        FileType::Other
    }
}


// ── DomainError ──────────────────────────────────────────────────────────

/// Errors of the domain layer. I/O failures met by adapters arrive as `Io`.
#[derive(Debug)]
pub enum DomainError {
    InvalidPath(String),
    InvalidFilter(String),
    PermissionDenied(String),
    Io(std::io::Error),
    Unsupported(String),
}

impl DomainError {
    /// The error's message: a fixed prefix naming the variant, then the
    /// carried text (for `Io`, the I/O error's own `Display` text).
    pub fn to_string(&self) -> (r: String)
        ensures
            match self {
                DomainError::InvalidPath(m) => r@ == "invalid path: "@ + m@,
                DomainError::InvalidFilter(m) => r@ == "invalid filter: "@ + m@,
                DomainError::PermissionDenied(m) => r@ == "permission denied: "@ + m@,
                DomainError::Io(_) => "io error: "@.is_prefix_of(r@),
                DomainError::Unsupported(m) => r@ == "unsupported: "@ + m@,
            },
    {
        match self {
            DomainError::InvalidPath(m) => {
                let mut s = String::from_str("invalid path: ");
                s.append(m.as_str());
                s
            },
            DomainError::InvalidFilter(m) => {
                let mut s = String::from_str("invalid filter: ");
                s.append(m.as_str());
                s
            },
            DomainError::PermissionDenied(m) => {
                let mut s = String::from_str("permission denied: ");
                s.append(m.as_str());
                s
            },
            DomainError::Io(e) => {
                let mut s = String::from_str("io error: ");
                let t = io_error_text(e);
                let ghost before = s@;
                s.append(t.as_str());
                assert(s@.take(before.len() as int) =~= before);
                s
            },
            DomainError::Unsupported(m) => {
                let mut s = String::from_str("unsupported: ");
                s.append(m.as_str());
                s
            },
        }
    }
}

impl From<std::io::Error> for DomainError {
    fn from(err: std::io::Error) -> (r: DomainError) {
        DomainError::Io(err)
    }
}

impl vstd::std_specs::convert::FromSpecImpl<std::io::Error> for DomainError {
    open spec fn obeys_from_spec() -> bool {
        true
    }

    open spec fn from_spec(v: std::io::Error) -> DomainError {
        DomainError::Io(v)
    }
}

// ── FileNode ─────────────────────────────────────────────────────────────

/// A file-system entry and its direct children (empty for a leaf). A
/// directory's `size` is the recursive sum of its descendants.
#[derive(Debug, PartialEq)]
pub struct FileNode {
    pub path: String,
    pub size: u64,
    /// Last modification, in Unix seconds.
    pub modified: u64,
    pub file_type: FileType,
    pub children: Vec<FileNode>,
}

/// The value of a [`FileNode`]: the same fields, with texts as character
/// sequences and children as values.
pub struct FileNodeV {
    pub path: Seq<char>,
    pub size: u64,
    pub modified: u64,
    pub file_type: FileType,
    pub children: Seq<FileNodeV>,
}

impl FileNode {
    /// The value of this tree.
    pub open spec fn v(self) -> FileNodeV
        decreases self,
    {
        FileNodeV {
            path: self.path@,
            size: self.size,
            modified: self.modified,
            file_type: self.file_type,
            children: Seq::new(
                self.children@.len(),
                |i: int|
                    if 0 <= i < self.children@.len() {
                        self.children@[i].v()
                    } else {
                        arbitrary()
                    },
            ),
        }
    }
}

impl View for FileNode {
    type V = FileNodeV;

    open spec fn view(&self) -> FileNodeV {
        self.v()
    }
}

impl FileNodeV {
    /// Number of entries in the tree rooted here, this node included.
    pub open spec fn count(self) -> nat
        decreases self, 1nat,
    {
        1 + sum_nat(self.child_counts())
    }

    /// The entry counts of the direct children, in order.
    pub open spec fn child_counts(self) -> Seq<nat>
        decreases self, 0nat,
    {
        Seq::new(
            self.children.len(),
            |i: int|
                if 0 <= i < self.children.len() {
                    self.children[i].count()
                } else {
                    0
                },
        )
    }

    /// Number of levels below this node.
    pub open spec fn height(self) -> nat
        decreases self, 1nat,
    {
        if self.children.len() == 0 {
            0
        } else {
            1 + self.max_child_height(self.children.len() as nat)
        }
    }

    /// The greatest height among the first `k` children.
    pub open spec fn max_child_height(self, k: nat) -> nat
        decreases self, 0nat, k,
    {
        if k == 0 || k > self.children.len() {
            0
        } else {
            let h = self.children[k - 1].height();
            let m = self.max_child_height((k - 1) as nat);
            if h > m {
                h
            } else {
                m
            }
        }
    }
}

proof fn lemma_max_child_height(n: FileNodeV, k: nat, i: int)
    requires
        0 <= i < k <= n.children.len(),
    ensures
        n.children[i].height() <= n.max_child_height(k),
    decreases k,
{
    if i < k - 1 {
        lemma_max_child_height(n, (k - 1) as nat, i);
    }
}

/// A child is at least one level lower than its parent.
pub proof fn lemma_child_height(n: FileNodeV, i: int)
    requires
        0 <= i < n.children.len(),
    ensures
        n.children[i].height() + 1 <= n.height(),
{
    lemma_max_child_height(n, n.children.len() as nat, i);
}

/// The nodes of the tree at `n` in depth-first pre-order.
pub open spec fn preorder_v(n: FileNodeV) -> Seq<FileNodeV>
    decreases n, 1nat, 0nat,
{
    seq![n] + preorder_list(n, n.children.len() as nat)
}

/// The pre-orders of the first `k` children of `n`, concatenated.
pub open spec fn preorder_list(n: FileNodeV, k: nat) -> Seq<FileNodeV>
    decreases n, 0nat, k,
{
    if k == 0 || k > n.children.len() {
        Seq::empty()
    } else {
        preorder_list(n, (k - 1) as nat) + preorder_v(n.children[k - 1])
    }
}

/// The values of the nodes a sequence of references points to.
pub open spec fn ref_views(v: Seq<&FileNode>) -> Seq<FileNodeV> {
    v.map_values(|r: &FileNode| r.v())
}

fn walk_node<'a>(node: &'a FileNode, out: &mut Vec<&'a FileNode>)
    ensures
        ref_views(final(out)@) == ref_views(old(out)@) + preorder_v(node@),
    decreases node,
{
    let ghost start = ref_views(out@);
    out.push(node);
    assert(ref_views(out@) =~= start + seq![node@]);
    let mut k: usize = 0;
    while k < node.children.len()
        invariant
            k <= node.children@.len(),
            ref_views(out@) == start + seq![node@] + preorder_list(node@, k as nat),
        decreases node.children@.len() - k,
    {
        assert(node@.children[k as int] == node.children@[k as int]@);
        walk_node(&node.children[k], out);
        k = k + 1;
        assert(ref_views(out@) =~= start + seq![node@] + preorder_list(node@, k as nat));
    }
}

/// References to every node of the tree at `root`, in depth-first
/// pre-order (the root first).
pub fn walk_tree(root: &FileNode) -> (r: Vec<&FileNode>)
    ensures
        ref_views(r@) == preorder_v(root@),
{
    let mut out: Vec<&FileNode> = Vec::new();
    walk_node(root, &mut out);
    assert(ref_views(out@) =~= preorder_v(root@));
    out
}

/// The entry counts of tree values.
pub open spec fn vcounts(xs: Seq<FileNodeV>) -> Seq<nat> {
    xs.map_values(|x: FileNodeV| x.count())
}

/// The values of a sequence of trees.
pub open spec fn views_of(nodes: Seq<FileNode>) -> Seq<FileNodeV> {
    nodes.map_values(|n: FileNode| n.v())
}

impl Clone for FileNode {
    fn clone(&self) -> (r: FileNode)
        ensures
            r@ == self@,
    {
        self.deep_clone()
    }
}

impl FileNode {
    /// A copy of the whole tree.
    pub fn deep_clone(&self) -> (r: FileNode)
        ensures
            r.v() == self.v(),
        decreases self,
    {
        let mut children: Vec<FileNode> = Vec::new();
        let mut i: usize = 0;
        while i < self.children.len()
            invariant
                i <= self.children@.len(),
                children@.len() == i,
                forall|j: int| 0 <= j < i ==> (#[trigger] children@[j]).v() == self.children@[j].v(),
            decreases self.children@.len() - i,
        {
            let c = self.children[i].deep_clone();
            children.push(c);
            i = i + 1;
        }
        let r = FileNode {
            path: self.path.clone(),
            size: self.size,
            modified: self.modified,
            file_type: self.file_type,
            children,
        };
        assert(r.v().children =~= self.v().children);
        r
    }

    /// Number of entries in the tree rooted here, this node included.
    pub open spec fn count(self) -> nat {
        self.v().count()
    }

    /// Builds a leaf from raw fields; an empty path is refused.
    pub fn new(path: &str, size: u64, modified: u64, file_type: FileType) -> (r: Result<
        FileNode,
        DomainError,
    >)
        ensures
            path@.len() == 0 <==> r is Err,
            r matches Err(e) ==> e == DomainError::InvalidPath(r->Err_0->InvalidPath_0)
                && r->Err_0->InvalidPath_0@ == "path must not be empty"@,
            r matches Ok(n) ==> n.path@ == path@ && n.size == size && n.modified == modified
                && n.file_type == file_type && n.children@.len() == 0,
    {
        if path.is_empty() {
            return Err(DomainError::InvalidPath(String::from_str("path must not be empty")));
        }
        Ok(FileNode { path: String::from_str(path), size, modified, file_type, children: Vec::new() })
    }

    /// A node for a path (callers holding a `Path` pass its lossy UTF-8
    /// text) whose path string is the path's file name (the whole text
    /// when the path has none, as `/`), with size and time zero, type
    /// `Other` and no children; the caller refines the type.
    pub fn from_path(path: &str) -> (r: FileNode)
        ensures
            r.path@ == match path_file_name(path@) {
                Some(name) => name,
                None => path@,
            },
            r.size == 0,
            r.modified == 0,
            r.file_type == FileType::Other,
            r.children@.len() == 0,
    {
        let name = match file_name_of(path) {
            Some(n) => n,
            None => String::from_str(path),
        };
        FileNode {
            path: name,
            size: 0,
            modified: 0,
            file_type: FileType::Other,
            children: Vec::new(),
        }
    }

    /// Whether this node is a directory.
    pub fn is_dir(&self) -> (r: bool)
        ensures
            r == (self.file_type == FileType::Directory),
    {
        self.file_type == FileType::Directory
    }

    /// Recursive total size: the node's own size, which for a directory is
    /// already the sum of its descendants.
    pub fn total_size(&self) -> (r: u64)
        ensures
            r == self.size,
    {
        self.size
    }

    /// Number of entries in the tree rooted here, this node included.
    pub fn file_count(&self) -> (r: u64)
        requires
            self.count() <= u64::MAX,
        ensures
            r == self.count(),
        decreases self,
    {
        let ghost cs = self.v().child_counts();
        let mut acc: u64 = 0;
        let mut i: usize = 0;
        while i < self.children.len()
            invariant
                i <= self.children@.len(),
                cs == self.v().child_counts(),
                cs.len() == self.children@.len(),
                1 + sum_nat(cs) <= u64::MAX,
                acc == sum_nat(cs.take(i as int)),
            decreases self.children@.len() - i,
        {
            proof {
                lemma_sum_take_step(cs, i as int);
                crate::sums::lemma_sum_prefix_le(cs, i + 1);
                assert(cs[i as int] == self.v().children[i as int].count());
                assert(self.v().children[i as int] == self.children@[i as int].v());
            }
            let c = self.children[i].file_count();
            acc = acc + c;
            i = i + 1;
        }
        proof {
            lemma_sum_take_all(cs);
        }
        1 + acc
    }
}

/// The sizes of a sequence of nodes.
pub open spec fn sizes_of(nodes: Seq<FileNode>) -> Seq<nat> {
    nodes.map_values(|n: FileNode| n.size as nat)
}

/// The entry counts of a sequence of trees.
pub open spec fn counts_of(nodes: Seq<FileNode>) -> Seq<nat> {
    nodes.map_values(|n: FileNode| n.count())
}

/// Sum of the sizes of `nodes`, when it fits in 64 bits.
fn sum_sizes(nodes: &Vec<FileNode>) -> (r: u64)
    requires
        sum_nat(sizes_of(nodes@)) <= u64::MAX,
    ensures
        r == sum_nat(sizes_of(nodes@)),
{
    let ghost ss = sizes_of(nodes@);
    let mut acc: u64 = 0;
    let mut i: usize = 0;
    while i < nodes.len()
        invariant
            i <= nodes@.len(),
            ss == sizes_of(nodes@),
            ss.len() == nodes@.len(),
            sum_nat(ss) <= u64::MAX,
            acc == sum_nat(ss.take(i as int)),
        decreases nodes@.len() - i,
    {
        proof {
            lemma_sum_take_step(ss, i as int);
            crate::sums::lemma_sum_prefix_le(ss, i + 1);
        }
        acc = acc + nodes[i].size;
        i = i + 1;
    }
    proof {
        lemma_sum_take_all(ss);
    }
    acc
}

// ── ScanResult ───────────────────────────────────────────────────────────

/// The outcome of a scan: the tree plus its aggregate metrics and the
/// paths that could not be read.
#[derive(Debug, Clone, PartialEq)]
pub struct ScanResult {
    pub root: FileNode,
    pub total_size: u64,
    pub file_count: u64,
    pub scan_duration_ms: u64,
    pub skipped: Vec<PathError>,
    /// Deletions merged into the tree from the sync channel, kept so that
    /// an older write cannot bring a deleted entry back.
    pub tombstones: Vec<Tombstone>,
}

/// A deletion merged into a tree: the path, the deleted entry's time and
/// the device that deleted it.
#[derive(Debug, Clone, PartialEq, Eq)]
pub struct Tombstone {
    pub path: String,
    pub mtime: u64,
    pub device: String,
}

impl ScanResult {
    /// A result over a complete tree; the totals are taken from the root.
    pub fn from_tree(root: FileNode, scan_duration_ms: u64) -> (r: ScanResult)
        requires
            root.count() <= u64::MAX,
        ensures
            r.root == root,
            r.total_size == root.size,
            r.file_count == root.count(),
            r.scan_duration_ms == scan_duration_ms,
            r.skipped@.len() == 0,
            r.tombstones@.len() == 0,
    {
        let total_size = root.total_size();
        let file_count = root.file_count();
        ScanResult { root, total_size, file_count, scan_duration_ms, skipped: Vec::new(), tombstones: Vec::new() }
    }

    /// A result whose root is a synthetic directory with an empty path
    /// holding `children`; its size is the sum of the children's sizes.
    pub fn with_children(children: Vec<FileNode>, scan_duration_ms: u64) -> (r: ScanResult)
        requires
            sum_nat(sizes_of(children@)) <= u64::MAX,
            1 + sum_nat(counts_of(children@)) <= u64::MAX,
        ensures
            r.root.path@.len() == 0,
            r.root.size == sum_nat(sizes_of(children@)),
            r.root.modified == 0,
            r.root.file_type == FileType::Directory,
            r.root.children@ == children@,
            r.total_size == sum_nat(sizes_of(children@)),
            r.file_count == 1 + sum_nat(counts_of(children@)),
            r.scan_duration_ms == scan_duration_ms,
            r.skipped@.len() == 0,
            r.tombstones@.len() == 0,
    {
        let children_size = sum_sizes(&children);
        let root = FileNode {
            path: String::new(),
            size: children_size,
            modified: 0,
            file_type: FileType::Directory,
            children,
        };
        assert(root.v().child_counts() =~= counts_of(root.children@));
        let total_size = root.total_size();
        let file_count = root.file_count();
        ScanResult { root, total_size, file_count, scan_duration_ms, skipped: Vec::new(), tombstones: Vec::new() }
    }

    /// Number of skipped paths.
    pub fn skipped_count(&self) -> (r: usize)
        ensures
            r == self.skipped@.len(),
    {
        self.skipped.len()
    }
}


// ── Filter ───────────────────────────────────────────────────────────────

/// Per-entry selection criteria. Each present bound must hold; `max_depth`
/// is a property of the walk and is applied by the code that walks a tree.
#[derive(Debug, Clone, PartialEq)]
pub struct Filter {
    /// Inclusive lower size bound.
    pub min_size: Option<u64>,
    /// Inclusive upper size bound.
    pub max_size: Option<u64>,
    /// Accepted types.
    pub file_types: Option<Vec<FileType>>,
    /// Case-insensitive substring of the path; must not be empty.
    pub name_pattern: Option<String>,
    /// Largest accepted age in seconds, relative to `now`.
    pub max_age: Option<u64>,
    /// Reference time (Unix seconds) for `max_age`.
    pub now: u64,
    /// Deepest level kept by a tree walk.
    pub max_depth: Option<usize>,
}

impl Default for Filter {
    fn default() -> (r: Filter)
        ensures
            r.min_size is None,
            r.max_size is None,
            r.file_types is None,
            r.name_pattern is None,
            r.max_age is None,
            r.now == 0,
            r.max_depth is None,
    {
        Filter {
            min_size: None,
            max_size: None,
            file_types: None,
            name_pattern: None,
            max_age: None,
            now: 0,
            max_depth: None,
        }
    }
}

/// The message of the error `validate` returns for crossed size bounds.
pub open spec fn crossed_bounds_message(min: u64, max: u64) -> Seq<char> {
    "min_size ("@ + dec(min as nat) + ") cannot exceed max_size ("@ + dec(max as nat) + ")"@
}

impl Filter {
    /// The size bounds are crossed.
    pub open spec fn bounds_crossed(self) -> bool {
        &&& self.min_size is Some
        &&& self.max_size is Some
        &&& self.min_size->0 > self.max_size->0
    }

    /// The name pattern is present and empty.
    pub open spec fn pattern_empty(self) -> bool {
        self.name_pattern matches Some(p) && p@.len() == 0
    }

    /// Whether `node` passes every present criterion.
    pub open spec fn accepts(self, node: FileNode) -> bool {
        &&& (self.min_size matches Some(m) ==> node.size >= m)
        &&& (self.max_size matches Some(m) ==> node.size <= m)
        &&& (self.file_types matches Some(ts) ==> ts@.contains(node.file_type))
        &&& (self.name_pattern matches Some(p) ==> contains_seq(
            unicode_lowercase(node.path@),
            unicode_lowercase(p@),
        ))
        &&& (self.max_age matches Some(a) ==> (self.now >= node.modified ==> self.now - node.modified
            <= a))
    }

    /// Whether a tree value passes every present criterion (the same test
    /// as [`Filter::accepts`], on the node's value).
    pub open spec fn accepts_v(self, node: FileNodeV) -> bool {
        &&& (self.min_size matches Some(m) ==> node.size >= m)
        &&& (self.max_size matches Some(m) ==> node.size <= m)
        &&& (self.file_types matches Some(ts) ==> ts@.contains(node.file_type))
        &&& (self.name_pattern matches Some(p) ==> contains_seq(
            unicode_lowercase(node.path),
            unicode_lowercase(p@),
        ))
        &&& (self.max_age matches Some(a) ==> (self.now >= node.modified ==> self.now - node.modified
            <= a))
    }

    /// Checks the filter's consistency: the size bounds must not cross and
    /// a name pattern must not be empty (checked in that order).
    pub fn validate(&self) -> (r: Result<(), DomainError>)
        ensures
            r is Ok <==> !self.bounds_crossed() && !self.pattern_empty(),
            self.bounds_crossed() ==> (r matches Err(DomainError::InvalidFilter(m)) && m@
                == crossed_bounds_message(self.min_size->0, self.max_size->0)),
            !self.bounds_crossed() && self.pattern_empty() ==> (r matches Err(
                DomainError::InvalidFilter(m),
            ) && m@ == "name_pattern must not be empty"@),
    {
        if let (Some(min), Some(max)) = (self.min_size, self.max_size) {
            if min > max {
                let mut m = String::from_str("min_size (");
                push_dec(&mut m, min as u128);
                m.append(") cannot exceed max_size (");
                push_dec(&mut m, max as u128);
                m.append(")");
                return Err(DomainError::InvalidFilter(m));
            }
        }
        if let Some(pat) = &self.name_pattern {
            if pat.as_str().is_empty() {
                return Err(DomainError::InvalidFilter(String::from_str("name_pattern must not be empty")));
            }
        }
        Ok(())
    }

    /// Whether `node` passes every present criterion. An entry modified
    /// after `now` is never too old.
    pub fn matches(&self, node: &FileNode) -> (r: bool)
        ensures
            r == self.accepts(*node),
    {
        if let Some(min) = self.min_size {
            if node.size < min {
                return false;
            }
        }
        if let Some(max) = self.max_size {
            if node.size > max {
                return false;
            }
        }
        if let Some(types) = &self.file_types {
            if !contains_type(types, node.file_type) {
                return false;
            }
        }
        if let Some(pat) = &self.name_pattern {
            let hay = to_lowercase(node.path.as_str());
            let needle = to_lowercase(pat.as_str());
            let hs = chars_of(hay.as_str());
            let ns = chars_of(needle.as_str());
            if !contains_chars(&hs, &ns) {
                return false;
            }
        }
        if let Some(max_age) = self.max_age {
            if self.now >= node.modified {
                let age = self.now - node.modified;
                if age > max_age {
                    return false;
                }
            }
        }
        true
    }
}

/// Whether `t` occurs in `types`.
pub fn contains_type(types: &Vec<FileType>, t: FileType) -> (r: bool)
    ensures
        r == types@.contains(t),
{
    let mut i: usize = 0;
    while i < types.len()
        invariant
            i <= types@.len(),
            forall|j: int| 0 <= j < i ==> types@[j] != t,
        decreases types@.len() - i,
    {
        if types[i] == t {
            return true;
        }
        i = i + 1;
    }
    false
}

// ── SortSpec ─────────────────────────────────────────────────────────────

/// Column a [`SortSpec`] orders by.
#[derive(Debug, Clone, Copy, PartialEq, Eq, Structural)]
pub enum SortColumn {
    /// The path, compared as text.
    Name,
    Size,
    Modified,
    /// The type's name, compared as text.
    Type,
}

/// Sort direction.
#[derive(Debug, Clone, Copy, PartialEq, Eq, Structural)]
pub enum SortDirection {
    Ascending,
    Descending,
}

/// Column and direction of a sort.
#[derive(Debug, Clone, Copy, PartialEq, Eq, Structural)]
pub struct SortSpec {
    pub column: SortColumn,
    pub direction: SortDirection,
}

/// The name of a type as `Debug` prints it.
pub open spec fn debug_name(t: FileType) -> Seq<char> {
    match t {
        FileType::Audio => "Audio"@,
        FileType::Video => "Video"@,
        FileType::Image => "Image"@,
        FileType::Document => "Document"@,
        FileType::Code => "Code"@,
        FileType::Archive => "Archive"@,
        FileType::Directory => "Directory"@,
        FileType::Other => "Other"@,
    }
}

/// Exec form of [`debug_name`].
pub fn debug_name_str(t: FileType) -> (r: &'static str)
    ensures
        r@ == debug_name(t),
{
    match t {
        FileType::Audio => "Audio",
        FileType::Video => "Video",
        FileType::Image => "Image",
        FileType::Document => "Document",
        FileType::Code => "Code",
        FileType::Archive => "Archive",
        FileType::Directory => "Directory",
        FileType::Other => "Other",
    }
}

impl SortSpec {
    /// The key of `n` under this spec.
    pub open spec fn key_of(self, n: FileNode) -> KeyV {
        match self.column {
            SortColumn::Name => KeyV::Text(n.path@),
            SortColumn::Size => KeyV::Num(n.size as nat),
            SortColumn::Modified => KeyV::Num(n.modified as nat),
            SortColumn::Type => KeyV::Text(debug_name(n.file_type)),
        }
    }

    /// The keys of a sequence of nodes.
    pub open spec fn keys_of(self, nodes: Seq<FileNode>) -> Seq<KeyV> {
        nodes.map_values(|n: FileNode| self.key_of(n))
    }

    fn key_exec(&self, n: &FileNode) -> (k: SortKey)
        ensures
            k.key_view() == self.key_of(*n),
    {
        match self.column {
            SortColumn::Name => SortKey::Text(chars_of(n.path.as_str())),
            SortColumn::Size => SortKey::Num(n.size),
            SortColumn::Modified => SortKey::Num(n.modified),
            SortColumn::Type => SortKey::Text(chars_of(debug_name_str(n.file_type))),
        }
    }

    /// Sorts `nodes` stably by the column in the direction: entries with
    /// equal keys keep their relative order.
    pub fn apply(&self, nodes: &mut Vec<FileNode>)
        ensures
            stably_sorted(
                old(nodes)@,
                self.keys_of(old(nodes)@),
                self.direction == SortDirection::Descending,
                final(nodes)@,
            ),
    {
        let mut items: Vec<FileNode> = Vec::new();
        std::mem::swap(nodes, &mut items);
        let mut keys: Vec<SortKey> = Vec::new();
        let mut i: usize = 0;
        while i < items.len()
            invariant
                i <= items@.len(),
                keys@.len() == i,
                forall|j: int| 0 <= j < i ==> (#[trigger] keys@[j]).key_view() == self.key_of(items@[j]),
            decreases items@.len() - i,
        {
            let k = self.key_exec(&items[i]);
            keys.push(k);
            i = i + 1;
        }
        assert(key_views(keys@) =~= self.keys_of(items@));
        let desc = match self.direction {
            SortDirection::Ascending => false,
            SortDirection::Descending => true,
        };
        let (sorted, Ghost(_p)) = sort_by_keys(items, keys, desc);
        *nodes = sorted;
    }
}

// ── format_size ──────────────────────────────────────────────────────────

/// The binary unit for `k` divisions by 1024.
pub open spec fn iec_unit(k: nat) -> Seq<char> {
    if k == 0 {
        "B"@
    } else if k == 1 {
        "KiB"@
    } else if k == 2 {
        "MiB"@
    } else if k == 3 {
        "GiB"@
    } else if k == 4 {
        "TiB"@
    } else {
        "PiB"@
    }
}

pub fn iec_unit_str(k: u32) -> (r: &'static str)
    ensures
        r@ == iec_unit(k as nat),
{
    if k == 0 {
        "B"
    } else if k == 1 {
        "KiB"
    } else if k == 2 {
        "MiB"
    } else if k == 3 {
        "GiB"
    } else if k == 4 {
        "TiB"
    } else {
        "PiB"
    }
}

/// A byte count in binary units: the count is taken as a 64-bit float,
/// divided by 1024 while it is at least 1024 (at most up to PiB); bytes
/// are printed as the exact integer, larger units with one decimal.
pub open spec fn format_size_text(bytes: nat) -> Seq<char> {
    if bytes == 0 {
        "0 B"@
    } else {
        let r = f64_value(bytes);
        let k = unit_index(r, 0, 5);
        if k == 0 {
            dec(bytes) + " B"@
        } else {
            one_decimal(r, k) + " "@ + iec_unit(k)
        }
    }
}

/// Renders a byte count with binary units, e.g. `1024` as `1.0 KiB`.
pub fn format_size(bytes: u64) -> (r: String)
    ensures
        r@ == format_size_text(bytes as nat),
{
    if bytes == 0 {
        return String::from_str("0 B");
    }
    let r = f64_value_exec(bytes);
    let k = unit_index_exec(r, 5);
    let mut s = String::new();
    if k == 0 {
        push_dec(&mut s, bytes as u128);
        s.append(" B");
    } else {
        push_one_decimal(&mut s, r, k);
        s.append(" ");
        s.append(iec_unit_str(k));
    }
    s
}


/// `a` comes no later than `b` when sorted by `spec`'s column in its
/// direction: by size, by modification time, by path or by type name,
/// smallest first ascending and largest first descending.
pub open spec fn in_column_order(spec: SortSpec, a: FileNode, b: FileNode) -> bool {
    let asc = spec.direction == SortDirection::Ascending;
    match spec.column {
        SortColumn::Size => if asc { a.size <= b.size } else { a.size >= b.size },
        SortColumn::Modified => if asc { a.modified <= b.modified } else { a.modified >= b.modified },
        SortColumn::Name => if asc { lex_le(a.path@, b.path@) } else { lex_le(b.path@, a.path@) },
        SortColumn::Type => if asc {
            lex_le(debug_name(a.file_type), debug_name(b.file_type))
        } else {
            lex_le(debug_name(b.file_type), debug_name(a.file_type))
        },
    }
}

/// A sort by a column puts the entries in that column's order: by
/// modification time, oldest first ascending and newest first
/// descending; likewise by size, by path and by type name.
pub proof fn law_sort_orders_by_column(spec: SortSpec, old: Seq<FileNode>, new: Seq<FileNode>)
    requires
        stably_sorted(old, spec.keys_of(old), spec.direction == SortDirection::Descending, new),
    ensures
        forall|i: int, j: int| 0 <= i < j < new.len() ==> in_column_order(spec, #[trigger] new[i], #[trigger] new[j]),
{
    let keys = spec.keys_of(old);
    let desc = spec.direction == SortDirection::Descending;
    let p = choose|p: Seq<int>| reorders(old, new, p) && stable_by_keys(keys, desc, p);
    assert forall|i: int, j: int| 0 <= i < j < new.len() implies in_column_order(spec, #[trigger] new[i], #[trigger] new[j]) by {
        assert(key_le(keys[p[i]], keys[p[j]], desc));
        assert(new[i] == old[p[i]]);
        assert(new[j] == old[p[j]]);
        assert(keys[p[i]] == spec.key_of(old[p[i]]));
        assert(keys[p[j]] == spec.key_of(old[p[j]]));
    }
}

} // verus!
