//! The values the desktop front end exchanges with the back end, one per
//! domain type, and the conversions both ways.
use vstd::prelude::*;
use crate::domain::sync::io_error_other;
use crate::domain::{io_error_text, io_kind_of, DomainError, FileNode, FileNodeV, FileType, Filter, IoKind, PathError, ScanResult};
use crate::engine::domain::filenode::unix_now_secs;

verus! {

/// Class of an OS error kind, as the front end shows it.
#[derive(Debug, Clone, Copy, PartialEq, Eq, Structural)]
pub enum ErrorKindDto {
    /// The path does not exist.
    NotFound,
    /// Access to the path was denied.
    PermissionDenied,
    /// The operation timed out.
    TimedOut,
    /// Any other kind.
    Other,
}

/// The class of an error kind: the three kinds the front end names keep
/// their class, every other kind is `Other`.
pub open spec fn kind_class(k: IoKind) -> ErrorKindDto {
    match k {
        IoKind::NotFound => ErrorKindDto::NotFound,
        IoKind::PermissionDenied => ErrorKindDto::PermissionDenied,
        IoKind::TimedOut => ErrorKindDto::TimedOut,
        _ => ErrorKindDto::Other,
    }
}

impl From<&IoKind> for ErrorKindDto {
    fn from(kind: &IoKind) -> (r: ErrorKindDto) {
        match kind {
            IoKind::NotFound => ErrorKindDto::NotFound,
            IoKind::PermissionDenied => ErrorKindDto::PermissionDenied,
            IoKind::TimedOut => ErrorKindDto::TimedOut,
            _ => ErrorKindDto::Other,
        }
    }
}

impl vstd::std_specs::convert::FromSpecImpl<&IoKind> for ErrorKindDto {
    open spec fn obeys_from_spec() -> bool {
        true
    }

    open spec fn from_spec(v: &IoKind) -> ErrorKindDto {
        kind_class(*v)
    }
}

impl From<&std::io::ErrorKind> for ErrorKindDto {
    fn from(kind: &std::io::ErrorKind) -> (r: ErrorKindDto) {
        let k = io_kind_of(*kind);
        ErrorKindDto::from(&k)
    }
}

/// A std kind is opaque, so no value is claimed for `from`; its class is
/// that of the library's [`IoKind`] of the same name.
impl vstd::std_specs::convert::FromSpecImpl<&std::io::ErrorKind> for ErrorKindDto {
    open spec fn obeys_from_spec() -> bool {
        false
    }

    open spec fn from_spec(v: &std::io::ErrorKind) -> ErrorKindDto {
        arbitrary()
    }
}

/// A skipped path as the front end sees it.
#[derive(Debug, Clone, PartialEq, Eq)]
pub struct PathErrorDto {
    pub path: String,
    pub kind: ErrorKindDto,
    pub message: String,
}

impl PathErrorDto {
    /// The value of a domain path error: its path and message, and the
    /// class of its kind.
    pub fn from_domain(e: &PathError) -> (r: PathErrorDto)
        ensures
            r.path@ == e.path@,
            r.kind == kind_class(e.kind),
            r.message@ == e.message@,
    {
        PathErrorDto { path: e.path.clone(), kind: ErrorKindDto::from(&e.kind), message: e.message.clone() }
    }
}

impl From<&PathError> for PathErrorDto {
    fn from(e: &PathError) -> (r: PathErrorDto) {
        PathErrorDto::from_domain(e)
    }
}

/// The texts are copies, so no value is claimed for `from`; [`PathErrorDto::from_domain`] states what holds.
impl vstd::std_specs::convert::FromSpecImpl<&PathError> for PathErrorDto {
    open spec fn obeys_from_spec() -> bool {
        false
    }

    open spec fn from_spec(v: &PathError) -> PathErrorDto {
        arbitrary()
    }
}

/// The kind of an entry as the front end names it.
#[derive(Debug, Clone, Copy, PartialEq, Eq, Structural)]
pub enum FileTypeDto {
    Audio,
    Video,
    Image,
    Document,
    Code,
    Archive,
    Directory,
    Other,
}

/// The front-end name of a domain kind.
pub open spec fn dto_of_type(t: FileType) -> FileTypeDto {
    match t {
        FileType::Audio => FileTypeDto::Audio,
        FileType::Video => FileTypeDto::Video,
        FileType::Image => FileTypeDto::Image,
        FileType::Document => FileTypeDto::Document,
        FileType::Code => FileTypeDto::Code,
        FileType::Archive => FileTypeDto::Archive,
        FileType::Directory => FileTypeDto::Directory,
        FileType::Other => FileTypeDto::Other,
    }
}

/// The domain kind of a front-end name.
pub open spec fn type_of_dto(t: FileTypeDto) -> FileType {
    match t {
        FileTypeDto::Audio => FileType::Audio,
        FileTypeDto::Video => FileType::Video,
        FileTypeDto::Image => FileType::Image,
        FileTypeDto::Document => FileType::Document,
        FileTypeDto::Code => FileType::Code,
        FileTypeDto::Archive => FileType::Archive,
        FileTypeDto::Directory => FileType::Directory,
        FileTypeDto::Other => FileType::Other,
    }
}

impl From<FileType> for FileTypeDto {
    fn from(t: FileType) -> (r: FileTypeDto) {
        match t {
            FileType::Audio => FileTypeDto::Audio,
            FileType::Video => FileTypeDto::Video,
            FileType::Image => FileTypeDto::Image,
            FileType::Document => FileTypeDto::Document,
            FileType::Code => FileTypeDto::Code,
            FileType::Archive => FileTypeDto::Archive,
            FileType::Directory => FileTypeDto::Directory,
            FileType::Other => FileTypeDto::Other,
        }
    }
}

impl vstd::std_specs::convert::FromSpecImpl<FileType> for FileTypeDto {
    open spec fn obeys_from_spec() -> bool {
        true
    }

    open spec fn from_spec(t: FileType) -> FileTypeDto {
        dto_of_type(t)
    }
}

impl From<FileTypeDto> for FileType {
    fn from(t: FileTypeDto) -> (r: FileType) {
        match t {
            FileTypeDto::Audio => FileType::Audio,
            FileTypeDto::Video => FileType::Video,
            FileTypeDto::Image => FileType::Image,
            FileTypeDto::Document => FileType::Document,
            FileTypeDto::Code => FileType::Code,
            FileTypeDto::Archive => FileType::Archive,
            FileTypeDto::Directory => FileType::Directory,
            FileTypeDto::Other => FileType::Other,
        }
    }
}

impl vstd::std_specs::convert::FromSpecImpl<FileTypeDto> for FileType {
    open spec fn obeys_from_spec() -> bool {
        true
    }

    open spec fn from_spec(t: FileTypeDto) -> FileType {
        type_of_dto(t)
    }
}

/// Converting a kind to its front-end name and back gives the kind.
pub proof fn law_file_type_round_trip(t: FileType)
    ensures
        type_of_dto(dto_of_type(t)) == t,
{
}

/// Converting a front-end name to a kind and back gives the name.
pub proof fn law_file_type_dto_round_trip(t: FileTypeDto)
    ensures
        dto_of_type(type_of_dto(t)) == t,
{
}

/// A tree as the front end sees it.
#[derive(Debug)]
pub struct FileNodeDto {
    pub path: String,
    pub size: u64,
    pub modified: u64,
    pub file_type: FileTypeDto,
    pub children: Vec<FileNodeDto>,
}

impl FileNodeDto {
    /// The value of this tree, kinds in domain terms.
    pub open spec fn dv(self) -> FileNodeV
        decreases self,
    {
        FileNodeV {
            path: self.path@,
            size: self.size,
            modified: self.modified,
            file_type: type_of_dto(self.file_type),
            children: Seq::new(
                self.children@.len(),
                |i: int|
                    if 0 <= i < self.children@.len() {
                        self.children@[i].dv()
                    } else {
                        arbitrary()
                    },
            ),
        }
    }

    /// The front-end tree of a domain tree: the same fields, kinds by
    /// name, children in order.
    pub fn from_domain(n: &FileNode) -> (r: FileNodeDto)
        ensures
            r.dv() == n@,
        decreases n,
    {
        let mut children: Vec<FileNodeDto> = Vec::new();
        let mut i: usize = 0;
        while i < n.children.len()
            invariant
                i <= n.children@.len(),
                children@.len() == i,
                forall|j: int| 0 <= j < i ==> (#[trigger] children@[j]).dv() == n.children@[j]@,
            decreases n.children@.len() - i,
        {
            let c = FileNodeDto::from_domain(&n.children[i]);
            children.push(c);
            i = i + 1;
        }
        let r = FileNodeDto {
            path: n.path.clone(),
            size: n.size,
            modified: n.modified,
            file_type: FileTypeDto::from(n.file_type),
            children,
        };
        assert(r.dv().children =~= n@.children);
        r
    }

    /// The domain tree of this front-end tree.
    pub fn to_domain(&self) -> (r: FileNode)
        ensures
            r@ == self.dv(),
        decreases self,
    {
        let mut children: Vec<FileNode> = Vec::new();
        let mut i: usize = 0;
        while i < self.children.len()
            invariant
                i <= self.children@.len(),
                children@.len() == i,
                forall|j: int| 0 <= j < i ==> (#[trigger] children@[j])@ == self.children@[j].dv(),
            decreases self.children@.len() - i,
        {
            let c = self.children[i].to_domain();
            children.push(c);
            i = i + 1;
        }
        let r = FileNode {
            path: self.path.clone(),
            size: self.size,
            modified: self.modified,
            file_type: FileType::from(self.file_type),
            children,
        };
        assert(r@.children =~= self.dv().children);
        r
    }
}

impl FileNodeDto {
    /// A copy of the whole tree.
    pub fn deep_clone(&self) -> (r: FileNodeDto)
        ensures
            r.dv() == self.dv(),
        decreases self,
    {
        let mut children: Vec<FileNodeDto> = Vec::new();
        let mut i: usize = 0;
        while i < self.children.len()
            invariant
                i <= self.children@.len(),
                children@.len() == i,
                forall|j: int| 0 <= j < i ==> (#[trigger] children@[j]).dv() == self.children@[j].dv(),
            decreases self.children@.len() - i,
        {
            children.push(self.children[i].deep_clone());
            i = i + 1;
        }
        let r = FileNodeDto {
            path: self.path.clone(),
            size: self.size,
            modified: self.modified,
            file_type: self.file_type,
            children,
        };
        assert(r.dv().children =~= self.dv().children);
        r
    }
}

impl Clone for FileNodeDto {
    fn clone(&self) -> (r: FileNodeDto)
        ensures
            r.dv() == self.dv(),
    {
        self.deep_clone()
    }
}

impl From<&FileNode> for FileNodeDto {
    fn from(n: &FileNode) -> (r: FileNodeDto) {
        FileNodeDto::from_domain(n)
    }
}

/// [`FileNodeDto::from_domain`] states the value, through [`FileNodeDto::dv`].
impl vstd::std_specs::convert::FromSpecImpl<&FileNode> for FileNodeDto {
    open spec fn obeys_from_spec() -> bool {
        false
    }

    open spec fn from_spec(v: &FileNode) -> FileNodeDto {
        arbitrary()
    }
}

/// A tree sent to the front end and brought back is the tree sent.
pub proof fn law_file_node_round_trip(n: FileNode, d: FileNodeDto, back: FileNode)
    requires
        d.dv() == n@,
        back@ == d.dv(),
    ensures
        back@ == n@,
{
}

/// A scan result as the front end sees it.
#[derive(Debug, Clone)]
pub struct ScanResultDto {
    pub root: FileNodeDto,
    pub total_size: u64,
    pub file_count: u64,
    pub scan_duration_ms: u64,
    pub skipped: Vec<PathErrorDto>,
}

impl ScanResultDto {
    /// The front-end value of a result: its tree, totals, duration and
    /// skipped paths.
    pub fn from_domain(r: &ScanResult) -> (d: ScanResultDto)
        ensures
            d.root.dv() == r.root@,
            d.total_size == r.total_size,
            d.file_count == r.file_count,
            d.scan_duration_ms == r.scan_duration_ms,
            d.skipped@.len() == r.skipped@.len(),
            forall|i: int|
                0 <= i < d.skipped@.len() ==> (#[trigger] d.skipped@[i]).path@ == r.skipped@[i].path@
                    && d.skipped@[i].message@ == r.skipped@[i].message@,
    {
        let mut skipped: Vec<PathErrorDto> = Vec::new();
        let mut i: usize = 0;
        while i < r.skipped.len()
            invariant
                i <= r.skipped@.len(),
                skipped@.len() == i,
                forall|j: int|
                    0 <= j < i ==> (#[trigger] skipped@[j]).path@ == r.skipped@[j].path@
                        && skipped@[j].message@ == r.skipped@[j].message@,
            decreases r.skipped@.len() - i,
        {
            skipped.push(PathErrorDto::from_domain(&r.skipped[i]));
            i = i + 1;
        }
        ScanResultDto {
            root: FileNodeDto::from_domain(&r.root),
            total_size: r.total_size,
            file_count: r.file_count,
            scan_duration_ms: r.scan_duration_ms,
            skipped,
        }
    }

    /// The domain result of this value: its tree and duration, the
    /// totals taken again from the tree.
    pub fn to_domain(&self) -> (r: ScanResult)
        requires
            self.root.dv().count() <= u64::MAX,
        ensures
            r.root@ == self.root.dv(),
            r.total_size == self.root.size,
            r.file_count == self.root.dv().count(),
            r.scan_duration_ms == self.scan_duration_ms,
            r.skipped@.len() == 0,
            r.tombstones@.len() == 0,
    {
        let root = self.root.to_domain();
        ScanResult::from_tree(root, self.scan_duration_ms)
    }
}

impl From<&ScanResult> for ScanResultDto {
    fn from(r: &ScanResult) -> (d: ScanResultDto) {
        ScanResultDto::from_domain(r)
    }
}

/// [`ScanResultDto::from_domain`] states the value.
impl vstd::std_specs::convert::FromSpecImpl<&ScanResult> for ScanResultDto {
    open spec fn obeys_from_spec() -> bool {
        false
    }

    open spec fn from_spec(v: &ScanResult) -> ScanResultDto {
        arbitrary()
    }
}

/// Filter criteria as the front end sends them; the reference time for
/// `max_age` is added on this side.
#[derive(Debug, Clone, PartialEq)]
pub struct FilterDto {
    pub min_size: Option<u64>,
    pub max_size: Option<u64>,
    pub file_types: Option<Vec<FileTypeDto>>,
    pub name_pattern: Option<String>,
    pub max_age: Option<u64>,
    pub max_depth: Option<usize>,
}

impl Default for FilterDto {
    fn default() -> (r: FilterDto)
        ensures
            r.min_size is None,
            r.max_size is None,
            r.file_types is None,
            r.name_pattern is None,
            r.max_age is None,
            r.max_depth is None,
    {
        FilterDto {
            min_size: None,
            max_size: None,
            file_types: None,
            name_pattern: None,
            max_age: None,
            max_depth: None,
        }
    }
}

/// The domain kinds of front-end names, in order.
pub open spec fn types_of_dtos(v: Seq<FileTypeDto>) -> Seq<FileType> {
    v.map_values(|t: FileTypeDto| type_of_dto(t))
}

impl FilterDto {
    /// The domain filter of these criteria with reference time `now`
    /// (Unix seconds): the same bounds, kinds converted in order.
    pub fn into_domain_at(self, now: u64) -> (f: Filter)
        ensures
            f.min_size == self.min_size,
            f.max_size == self.max_size,
            f.name_pattern == self.name_pattern,
            f.max_age == self.max_age,
            f.now == now,
            f.max_depth == self.max_depth,
            match self.file_types {
                Some(v) => f.file_types matches Some(w) && w@ == types_of_dtos(v@),
                None => f.file_types is None,
            },
    {
        let file_types = match self.file_types {
            Some(v) => {
                let mut w: Vec<FileType> = Vec::new();
                let mut i: usize = 0;
                while i < v.len()
                    invariant
                        i <= v@.len(),
                        w@ == types_of_dtos(v@).take(i as int),
                    decreases v@.len() - i,
                {
                    w.push(FileType::from(v[i]));
                    i = i + 1;
                    assert(w@ =~= types_of_dtos(v@).take(i as int));
                }
                assert(w@ =~= types_of_dtos(v@));
                Some(w)
            },
            None => None,
        };
        Filter {
            min_size: self.min_size,
            max_size: self.max_size,
            file_types,
            name_pattern: self.name_pattern,
            max_age: self.max_age,
            now,
            max_depth: self.max_depth,
        }
    }

    /// The domain filter of these criteria, the reference time being the
    /// current time, so that `max_age` counts back from the moment of the
    /// call.
    pub fn into_domain(self) -> (f: Filter)
        ensures
            f.min_size == self.min_size,
            f.max_size == self.max_size,
            f.name_pattern == self.name_pattern,
            f.max_age == self.max_age,
            f.max_depth == self.max_depth,
            match self.file_types {
                Some(v) => f.file_types matches Some(w) && w@ == types_of_dtos(v@),
                None => f.file_types is None,
            },
    {
        let now = unix_now_secs();
        self.into_domain_at(now)
    }
}

/// An error the front end can show.
#[derive(Debug, Clone, PartialEq, Eq)]
pub enum CommandErrorDto {
    InvalidPath(String),
    PermissionDenied(String),
    InvalidFilter(String),
    Io(String),
    /// A change refused while a scan runs.
    ScanInProgress(String),
}

/// The text an in-progress refusal becomes in the domain.
pub open spec fn in_progress_text(m: Seq<char>) -> Seq<char> {
    "scan in progress: "@ + m
}

impl CommandErrorDto {
    /// The front-end error of a domain error: the same variant and text,
    /// an I/O error by its message and an unsupported operation as I/O.
    pub fn from_domain(e: DomainError) -> (r: CommandErrorDto)
        ensures
            match e {
                DomainError::InvalidPath(p) => r == CommandErrorDto::InvalidPath(p),
                DomainError::PermissionDenied(p) => r == CommandErrorDto::PermissionDenied(p),
                DomainError::InvalidFilter(m) => r == CommandErrorDto::InvalidFilter(m),
                DomainError::Io(_) => r is Io,
                DomainError::Unsupported(m) => r == CommandErrorDto::Io(m),
            },
    {
        match e {
            DomainError::InvalidPath(p) => CommandErrorDto::InvalidPath(p),
            DomainError::PermissionDenied(p) => CommandErrorDto::PermissionDenied(p),
            DomainError::InvalidFilter(m) => CommandErrorDto::InvalidFilter(m),
            DomainError::Io(io) => CommandErrorDto::Io(io_error_text(&io)),
            DomainError::Unsupported(msg) => CommandErrorDto::Io(msg),
        }
    }

    /// The domain error of a front-end error: the same variant and text,
    /// an I/O message as an I/O error, and an in-progress refusal as an
    /// invalid path with its reason.
    pub fn into_domain(self) -> (r: DomainError)
        ensures
            match self {
                CommandErrorDto::InvalidPath(p) => r == DomainError::InvalidPath(p),
                CommandErrorDto::PermissionDenied(p) => r == DomainError::PermissionDenied(p),
                CommandErrorDto::InvalidFilter(m) => r == DomainError::InvalidFilter(m),
                CommandErrorDto::Io(_) => r is Io,
                CommandErrorDto::ScanInProgress(m) => r matches DomainError::InvalidPath(t) && t@
                    == in_progress_text(m@),
            },
    {
        match self {
            CommandErrorDto::InvalidPath(p) => DomainError::InvalidPath(p),
            CommandErrorDto::PermissionDenied(p) => DomainError::PermissionDenied(p),
            CommandErrorDto::InvalidFilter(m) => DomainError::InvalidFilter(m),
            CommandErrorDto::Io(m) => DomainError::Io(io_error_other(m)),
            CommandErrorDto::ScanInProgress(m) => {
                let mut t = String::from_str("scan in progress: ");
                t.append(m.as_str());
                DomainError::InvalidPath(t)
            },
        }
    }
}

impl From<DomainError> for CommandErrorDto {
    fn from(e: DomainError) -> (r: CommandErrorDto) {
        CommandErrorDto::from_domain(e)
    }
}

/// An I/O error's text is opaque; [`CommandErrorDto::from_domain`] states what holds.
impl vstd::std_specs::convert::FromSpecImpl<DomainError> for CommandErrorDto {
    open spec fn obeys_from_spec() -> bool {
        false
    }

    open spec fn from_spec(v: DomainError) -> CommandErrorDto {
        arbitrary()
    }
}

impl From<CommandErrorDto> for DomainError {
    fn from(e: CommandErrorDto) -> (r: DomainError) {
        e.into_domain()
    }
}

/// An I/O error made from a message is opaque; [`CommandErrorDto::into_domain`] states what holds.
impl vstd::std_specs::convert::FromSpecImpl<CommandErrorDto> for DomainError {
    open spec fn obeys_from_spec() -> bool {
        false
    }

    open spec fn from_spec(v: CommandErrorDto) -> DomainError {
        arbitrary()
    }
}

} // verus!
