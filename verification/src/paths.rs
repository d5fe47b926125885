//! Request paths: joining the request's segments onto the root, and
//! classifying what the filesystem reports of the result.
//!
//! Canonical paths are held as their components, outermost first, with
//! every `.`, `..` and symbolic link resolved by whoever asked the
//! filesystem. Containment is decided on these, never on the joined text.

use vstd::prelude::*;

verus! {

/// Whether a separator must stand between `path` and what is joined onto
/// it: not behind an empty path, and not behind one that ends in `/`.
pub open spec fn needs_separator(path: Seq<char>) -> bool {
    path.len() > 0 && path.last() != '/'
}

/// `path` with `segment` joined onto it. The segment never replaces what
/// stands before it.
pub open spec fn pushed(path: Seq<char>, segment: Seq<char>) -> Seq<char> {
    if needs_separator(path) {
        path + seq!['/'] + segment
    } else {
        path + segment
    }
}

/// The path to probe for a request: the root, with each segment joined
/// onto it in turn.
pub open spec fn joined_path(root: Seq<char>, segments: Seq<Seq<char>>) -> Seq<char>
    decreases segments.len(),
{
    if segments.len() == 0 {
        root
    } else {
        pushed(joined_path(root, segments.drop_last()), segments.last())
    }
}

/// The position of the last `/` before `end`, or `-1` where there is none.
pub open spec fn last_separator_before(path: Seq<char>, end: int) -> int
    decreases end,
{
    if end <= 0 {
        -1
    } else if path[end - 1] == '/' {
        end - 1
    } else {
        last_separator_before(path, end - 1)
    }
}

/// The name that a request asks for: what follows the last `/` of the
/// joined path, and the whole path where it holds none.
pub open spec fn requested_name(path: Seq<char>) -> Seq<char> {
    path.skip(last_separator_before(path, path.len() as int) + 1)
}

/// Whether a segment names something: the empty segment and `.` do not.
pub open spec fn is_named(segment: Seq<char>) -> bool {
    segment.len() > 0 && segment != seq!['.']
}

/// `is_named` as a predicate.
pub open spec fn named() -> spec_fn(Seq<char>) -> bool {
    |segment: Seq<char>| is_named(segment)
}

/// The requested path below the root: the segments of the request that
/// name something, in order.
pub open spec fn named_segments(segments: Seq<Seq<char>>) -> Seq<Seq<char>> {
    segments.filter(named())
}

/// Whether the canonical path `path` is `root` or lies below it.
pub open spec fn is_within(root: Seq<Seq<char>>, path: Seq<Seq<char>>) -> bool {
    root.len() <= path.len() && path.take(root.len() as int) =~= root
}

/// What the filesystem reports of a path that exists.
#[derive(Clone, Debug, PartialEq, Eq)]
pub struct PathFacts {
    /// The canonical form of the path, where it could be had.
    pub canonical: Option<Vec<String>>,
    /// Whether the path names a regular file.
    pub is_file: bool,
    /// The length in bytes that the metadata reports.
    pub length: u64,
}

/// The model of [`PathFacts`] that contracts speak of: texts are sequences of
/// characters, vectors are sequences.
pub struct PathFactsModel {
    pub canonical: Option<Seq<Seq<char>>>,
    pub is_file: bool,
    pub length: u64,
}

impl DeepView for PathFacts {
    type V = PathFactsModel;

    open spec fn deep_view(&self) -> PathFactsModel {
        PathFactsModel {
            canonical: self.canonical.deep_view(),
            is_file: self.is_file,
            length: self.length,
        }
    }
}

/// A path that exists and lies within the root.
#[derive(Clone, Debug, PartialEq, Eq)]
pub struct ResolvedPath {
    pub absolute_path: Vec<String>,
    pub relative_to_root: Vec<String>,
    pub is_directory: bool,
    pub size: u64,
    pub exists: bool,
}

/// The model of [`ResolvedPath`] that contracts speak of: texts are sequences of
/// characters, vectors are sequences.
pub struct ResolvedPathModel {
    pub absolute_path: Seq<Seq<char>>,
    pub relative_to_root: Seq<Seq<char>>,
    pub is_directory: bool,
    pub size: u64,
    pub exists: bool,
}

impl DeepView for ResolvedPath {
    type V = ResolvedPathModel;

    open spec fn deep_view(&self) -> ResolvedPathModel {
        ResolvedPathModel {
            absolute_path: self.absolute_path.deep_view(),
            relative_to_root: self.relative_to_root.deep_view(),
            is_directory: self.is_directory,
            size: self.size,
            exists: self.exists,
        }
    }
}

impl ResolvedPathModel {
    /// The path is `root` followed by its relative part.
    pub open spec fn rooted_at(self, root: Seq<Seq<char>>) -> bool {
        self.absolute_path == root + self.relative_to_root
    }
}

/// The outcome of resolving a request path.
#[derive(Clone, Debug, PartialEq, Eq)]
pub enum Resolution {
    /// Nothing exists at the path.
    NotFound,
    /// The path exists, but its canonical form is unknown or leaves the root.
    Forbidden,
    /// A regular file within the root.
    File(ResolvedPath),
    /// Anything else within the root: it is read as a directory.
    Directory(ResolvedPath),
}

/// The model of [`Resolution`] that contracts speak of: texts are sequences of
/// characters, vectors are sequences.
pub enum ResolutionModel {
    NotFound,
    Forbidden,
    File(ResolvedPathModel),
    Directory(ResolvedPathModel),
}

impl DeepView for Resolution {
    type V = ResolutionModel;

    open spec fn deep_view(&self) -> ResolutionModel {
        match self {
            Resolution::NotFound => ResolutionModel::NotFound,
            Resolution::Forbidden => ResolutionModel::Forbidden,
            Resolution::File(path) => ResolutionModel::File(path.deep_view()),
            Resolution::Directory(path) => ResolutionModel::Directory(path.deep_view()),
        }
    }
}

/// The resolved form of a path whose canonical form `path` lies within
/// `root`. A directory is given the size zero.
pub open spec fn resolved(root: Seq<Seq<char>>, path: Seq<Seq<char>>, is_file: bool, length: u64)
    -> ResolvedPathModel {
    ResolvedPathModel {
        absolute_path: path,
        relative_to_root: path.skip(root.len() as int),
        is_directory: !is_file,
        size: if is_file {
            length
        } else {
            0
        },
        exists: true,
    }
}

/// How a probe is classified. Existence comes first; then containment, on
/// the canonical form; then the kind.
pub open spec fn resolution_of(root: Seq<Seq<char>>, probe: Option<PathFactsModel>)
    -> ResolutionModel {
    match probe {
        None => ResolutionModel::NotFound,
        Some(facts) => match facts.canonical {
            None => ResolutionModel::Forbidden,
            Some(path) => if !is_within(root, path) {
                ResolutionModel::Forbidden
            } else if facts.is_file {
                ResolutionModel::File(resolved(root, path, true, facts.length))
            } else {
                ResolutionModel::Directory(resolved(root, path, false, facts.length))
            },
        },
    }
}

fn separator_needed(path: &str) -> (needed: bool)
    ensures
        needed == needs_separator(path@),
{
    let length = path.unicode_len();
    length > 0 && path.get_char(length - 1) != '/'
}

/// Joins the request's segments onto the root.
pub fn join_request_path(root: &str, segments: &Vec<String>) -> (path: String)
    ensures
        path@ == joined_path(root@, segments.deep_view()),
{
    let mut path = String::from_str(root);
    let mut open = separator_needed(root);
    let mut i: usize = 0;
    while i < segments.len()
        invariant
            i <= segments.len(),
            path@ == joined_path(root@, segments.deep_view().take(i as int)),
            open == needs_separator(path@),
        decreases segments.len() - i,
    {
        proof {
            let next = segments.deep_view().take(i + 1);
            assert(next.drop_last() =~= segments.deep_view().take(i as int));
        }
        if open {
            path.push('/');
        }
        path.append(segments[i].as_str());
        open = separator_needed(segments[i].as_str());
        i = i + 1;
    }
    assert(segments.deep_view().take(i as int) =~= segments.deep_view());
    path
}

/// The name that the request for `path` asks for.
pub fn file_name(path: &str) -> (name: &str)
    ensures
        name@ == requested_name(path@),
{
    let length = path.unicode_len();
    let mut start: usize = length;
    while start > 0 && path.get_char(start - 1) != '/'
        invariant
            start <= length,
            length == path@.len(),
            last_separator_before(path@, length as int) == last_separator_before(
                path@,
                start as int,
            ),
        decreases start,
    {
        start = start - 1;
    }
    path.substring_char(start, length)
}

/// The segments of a request that name something.
pub fn requested_below(segments: &Vec<String>) -> (below: Vec<String>)
    ensures
        below.deep_view() == named_segments(segments.deep_view()),
{
    let mut below: Vec<String> = Vec::new();
    let mut i: usize = 0;
    assert(segments.deep_view().take(0).filter(named()) =~= Seq::<Seq<char>>::empty()) by {
        reveal(Seq::filter);
    }
    while i < segments.len()
        invariant
            i <= segments.len(),
            below.deep_view() == segments.deep_view().take(i as int).filter(named()),
        decreases segments.len() - i,
    {
        let segment = segments[i].as_str();
        let length = segment.unicode_len();
        proof {
            let so_far = segments.deep_view().take(i as int);
            assert(segments.deep_view().take(i + 1) =~= so_far.push(segment@));
            so_far.lemma_filter_push(segment@, named());
        }
        if length > 0 && !(length == 1 && segment.get_char(0) == '.') {
            below.push(segments[i].clone());
        } else {
            assert(!is_named(segment@)) by {
                if length == 1 {
                    assert(segment@ =~= seq!['.']);
                }
            }
        }
        i = i + 1;
    }
    assert(segments.deep_view().take(i as int) =~= segments.deep_view());
    below
}

/// Whether the canonical path `path` is `root` or lies below it.
pub fn contained(root: &Vec<String>, path: &Vec<String>) -> (inside: bool)
    ensures
        inside == is_within(root.deep_view(), path.deep_view()),
{
    if root.len() > path.len() {
        return false;
    }
    let mut i: usize = 0;
    while i < root.len()
        invariant
            i <= root.len() <= path.len(),
            forall|j: int| 0 <= j < i ==> root[j]@ == path[j]@,
        decreases root.len() - i,
    {
        if !(root[i] == path[i]) {
            assert(path.deep_view().take(root.len() as int)[i as int] != root.deep_view()[i as int]);
            return false;
        }
        i = i + 1;
    }
    true
}

/// The components of `path` from position `from` on.
pub fn tail_of(path: &Vec<String>, from: usize) -> (tail: Vec<String>)
    requires
        from <= path.len(),
    ensures
        tail.deep_view() == path.deep_view().skip(from as int),
{
    let mut tail: Vec<String> = Vec::new();
    let mut i: usize = from;
    while i < path.len()
        invariant
            from <= i <= path.len(),
            tail.len() == i - from,
            forall|j: int| 0 <= j < tail.len() ==> tail[j]@ == path[from + j]@,
        decreases path.len() - i,
    {
        tail.push(path[i].clone());
        i = i + 1;
    }
    tail
}

/// Classifies a request path from what the filesystem reports of it:
/// `None` where nothing exists there.
pub fn resolve(root: &Vec<String>, probe: Option<PathFacts>) -> (resolution: Resolution)
    ensures
        resolution.deep_view() == resolution_of(root.deep_view(), probe.deep_view()),
{
    match probe {
        None => Resolution::NotFound,
        Some(facts) => match facts.canonical {
            None => Resolution::Forbidden,
            Some(path) => {
                if !contained(root, &path) {
                    Resolution::Forbidden
                } else {
                    let relative = tail_of(&path, root.len());
                    let is_file = facts.is_file;
                    let found = ResolvedPath {
                        absolute_path: path,
                        relative_to_root: relative,
                        is_directory: !is_file,
                        size: if is_file {
                            facts.length
                        } else {
                            0
                        },
                        exists: true,
                    };
                    if is_file {
                        Resolution::File(found)
                    } else {
                        Resolution::Directory(found)
                    }
                }
            },
        },
    }
}

/// A path classified as a file or a directory lies within the root: its
/// canonical form is the root followed by its relative part.
pub proof fn lemma_resolved_is_contained(root: Seq<Seq<char>>, probe: Option<PathFactsModel>)
    ensures
        match resolution_of(root, probe) {
            ResolutionModel::File(path) | ResolutionModel::Directory(path) => {
                &&& is_within(root, path.absolute_path)
                &&& path.rooted_at(root)
                &&& path.exists
            },
            _ => true,
        },
{
    match resolution_of(root, probe) {
        ResolutionModel::File(path) | ResolutionModel::Directory(path) => {
            let full = path.absolute_path;
            assert(full =~= full.take(root.len() as int) + full.skip(root.len() as int));
        },
        _ => {},
    }
}

/// A path whose canonical form is unknown or leaves the root is never
/// classified as a file or a directory.
pub proof fn lemma_outside_is_refused(root: Seq<Seq<char>>, facts: PathFactsModel)
    requires
        facts.canonical is None || !is_within(root, facts.canonical->0),
    ensures
        resolution_of(root, Some(facts)) == ResolutionModel::Forbidden,
{
}

/// A path within the root has a part below the root exactly where it is
/// not the root itself; and then the directory above it is still the root
/// or below it, and is reached by that part without its last component.
pub proof fn lemma_parent_stays_within_root(root: Seq<Seq<char>>, path: Seq<Seq<char>>)
    requires
        is_within(root, path),
    ensures
        path.skip(root.len() as int).len() > 0 <==> path != root,
        path != root ==> {
            &&& is_within(root, path.drop_last())
            &&& path.drop_last() == root + path.skip(root.len() as int).drop_last()
        },
{
    assert(path =~= path.take(root.len() as int) + path.skip(root.len() as int));
}

} // verus!
