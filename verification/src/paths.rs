use vstd::prelude::*;
use vstd::string::*;

verus! {

// ---------------------------------------------------------------------------
// Paths are plain strings. A path is a sequence of characters in which '/'
// separates segments; the file name is everything after the last separator,
// and the extension is everything after the last '.' of the file name,
// provided that '.' is not the file name's first character.
// ---------------------------------------------------------------------------

/// Index of the first character of the file name: one past the last '/',
/// or 0 when the path holds no separator.
pub open spec fn file_name_start(s: Seq<char>) -> int
    decreases s.len(),
{
    if s.len() == 0 {
        0
    } else if s.last() == '/' {
        s.len() as int
    } else {
        file_name_start(s.drop_last())
    }
}

/// The file name: the suffix after the last '/'.
pub open spec fn file_name_of(s: Seq<char>) -> Seq<char> {
    s.subrange(file_name_start(s), s.len() as int)
}

/// Index of the '.' that starts the extension of a file name, or -1 when the
/// file name has no extension. A leading '.' does not start an extension.
pub open spec fn ext_dot(f: Seq<char>) -> int
    decreases f.len(),
{
    if f.len() <= 1 {
        -1
    } else if f.last() == '.' {
        f.len() - 1
    } else {
        ext_dot(f.drop_last())
    }
}

/// Whether the path's file name has an extension.
pub open spec fn has_extension(s: Seq<char>) -> bool {
    ext_dot(file_name_of(s)) >= 0
}

/// The extension of the path's file name (meaningful when `has_extension`).
pub open spec fn extension_of(s: Seq<char>) -> Seq<char> {
    let f = file_name_of(s);
    f.subrange(ext_dot(f) + 1, f.len() as int)
}

/// Whether the path names an SVG source: its file name carries the exact
/// extension "svg".
pub open spec fn is_svg_name(s: Seq<char>) -> bool {
    has_extension(s) && extension_of(s) == seq!['s', 'v', 'g']
}

/// The path with its extension replaced by "png"; when the file name has no
/// extension, ".png" is appended instead.
pub open spec fn png_name(s: Seq<char>) -> Seq<char> {
    let i = file_name_start(s);
    let d = ext_dot(file_name_of(s));
    if d < 0 {
        s + seq!['.', 'p', 'n', 'g']
    } else {
        s.subrange(0, i + d) + seq!['.', 'p', 'n', 'g']
    }
}

/// Joining a directory path and a child name: a '/' is inserted unless the
/// directory already ends with one or is empty.
pub open spec fn path_join_seq(dir: Seq<char>, name: Seq<char>) -> Seq<char> {
    if dir.len() == 0 {
        name
    } else if dir.last() == '/' {
        dir + name
    } else {
        dir + seq!['/'] + name
    }
}

/// The parent of a path: everything before the file name, without the
/// separating '/', except that a path directly under the root keeps "/".
/// A path without separators has the empty parent.
pub open spec fn parent_of(s: Seq<char>) -> Seq<char> {
    let i = file_name_start(s);
    if i == 0 {
        Seq::<char>::empty()
    } else if i == 1 {
        seq!['/']
    } else {
        s.subrange(0, i - 1)
    }
}

// ---------------------------------------------------------------------------
// Characterizations of the two scan positions, used to connect the
// executable scans to the recursive definitions above.
// ---------------------------------------------------------------------------

pub proof fn lemma_file_name_start_at(s: Seq<char>, j: int)
    requires
        0 <= j <= s.len(),
        j > 0 ==> s[j - 1] == '/',
        forall|k: int| j <= k < s.len() ==> s[k] != '/',
        j == 0 ==> forall|k: int| 0 <= k < s.len() ==> s[k] != '/',
    ensures
        file_name_start(s) == j,
    decreases s.len(),
{
    if s.len() == 0 {
    } else if s.last() == '/' {
        assert(s[s.len() - 1] == '/');
        assert(j == s.len() as int);
    } else {
        assert(j < s.len());
        lemma_file_name_start_at(s.drop_last(), j);
    }
}

pub proof fn lemma_file_name_start_bounds(s: Seq<char>)
    ensures
        0 <= file_name_start(s) <= s.len(),
        file_name_start(s) > 0 ==> s[file_name_start(s) - 1] == '/',
        forall|k: int| file_name_start(s) <= k < s.len() ==> s[k] != '/',
    decreases s.len(),
{
    if s.len() == 0 {
    } else if s.last() == '/' {
    } else {
        lemma_file_name_start_bounds(s.drop_last());
        assert forall|k: int| file_name_start(s) <= k < s.len() implies s[k] != '/' by {
            if k < s.len() - 1 {
                assert(s.drop_last()[k] != '/');
            }
        }
    }
}

pub proof fn lemma_ext_dot_at(f: Seq<char>, d: int)
    requires
        1 <= d < f.len(),
        f[d] == '.',
        forall|k: int| d < k < f.len() ==> f[k] != '.',
    ensures
        ext_dot(f) == d,
    decreases f.len(),
{
    if f.last() == '.' {
        assert(f[f.len() - 1] == '.');
        assert(d == f.len() - 1);
    } else {
        assert(d < f.len() - 1);
        lemma_ext_dot_at(f.drop_last(), d);
    }
}

pub proof fn lemma_ext_dot_none(f: Seq<char>)
    requires
        forall|k: int| 1 <= k < f.len() ==> f[k] != '.',
    ensures
        ext_dot(f) == -1,
    decreases f.len(),
{
    if f.len() <= 1 {
    } else {
        assert(f[f.len() - 1] != '.');
        lemma_ext_dot_none(f.drop_last());
    }
}

pub proof fn lemma_ext_dot_bounds(f: Seq<char>)
    ensures
        -1 <= ext_dot(f) < f.len(),
        ext_dot(f) >= 0 ==> ext_dot(f) >= 1 && f[ext_dot(f)] == '.',
    decreases f.len(),
{
    if f.len() <= 1 {
    } else if f.last() == '.' {
    } else {
        lemma_ext_dot_bounds(f.drop_last());
    }
}

/// Appending characters that hold no '/' does not move the file name start.
pub proof fn lemma_file_name_start_append(a: Seq<char>, b: Seq<char>)
    requires
        forall|k: int| 0 <= k < b.len() ==> b[k] != '/',
    ensures
        file_name_start(a + b) == file_name_start(a),
    decreases b.len(),
{
    if b.len() == 0 {
        assert(a + b =~= a);
    } else {
        assert((a + b).last() == b.last());
        assert((a + b).drop_last() =~= a + b.drop_last());
        lemma_file_name_start_append(a, b.drop_last());
    }
}

// ---------------------------------------------------------------------------
// Executable scans.
// ---------------------------------------------------------------------------

/// Index of the first character of the file name of `s`.
pub fn file_name_index(s: &str) -> (i: usize)
    ensures
        i as int == file_name_start(s@),
{
    let n: usize = s.unicode_len();
    let mut j: usize = n;
    while j > 0
        invariant
            j <= n,
            n == s@.len(),
            forall|k: int| j <= k < s@.len() ==> s@[k] != '/',
        decreases j,
    {
        if s.get_char(j - 1) == '/' {
            proof {
                lemma_file_name_start_at(s@, j as int);
            }
            return j;
        }
        j = j - 1;
    }
    proof {
        lemma_file_name_start_at(s@, 0);
    }
    0
}

/// Index in `s` of the '.' that starts the file name's extension, when there
/// is one. Requires `from` to be the file name's start.
pub fn ext_dot_index(s: &str, from: usize) -> (r: Option<usize>)
    requires
        from as int == file_name_start(s@),
    ensures
        r is Some ==> r->0 as int == from + ext_dot(file_name_of(s@)) && ext_dot(file_name_of(s@))
            >= 1,
        r is None ==> ext_dot(file_name_of(s@)) == -1,
{
    let ghost f = file_name_of(s@);
    let n: usize = s.unicode_len();
    proof {
        lemma_file_name_start_bounds(s@);
        assert(f.len() == n - from);
    }
    let mut j: usize = n;
    while j - from > 1
        invariant
            from <= j <= n,
            from as int == file_name_start(s@),
            n == s@.len(),
            f == file_name_of(s@),
            forall|k: int| j <= k < s@.len() ==> s@[k] != '.',
        decreases j,
    {
        if s.get_char(j - 1) == '.' {
            proof {
                assert forall|k: int| (j - 1 - from) < k < f.len() implies f[k] != '.' by {
                    assert(f[k] == s@[from + k]);
                }
                assert(f[j - 1 - from] == s@[j - 1]);
                lemma_ext_dot_at(f, j - 1 - from);
            }
            return Some(j - 1);
        }
        j = j - 1;
    }
    proof {
        assert forall|k: int| 1 <= k < f.len() implies f[k] != '.' by {
            assert(f[k] == s@[from + k]);
        }
        lemma_ext_dot_none(f);
    }
    None
}

// ---------------------------------------------------------------------------
// Public path operations.
// ---------------------------------------------------------------------------

/// Whether `path` names an SVG source file: `is_file` reports whether the
/// path refers to a regular file, and the file name must carry the exact
/// extension "svg".
pub fn is_svg(path: &String, is_file: bool) -> (r: bool)
    ensures
        r == (is_file && is_svg_name(path@)),
{
    if !is_file {
        return false;
    }
    let s = path.as_str();
    let n: usize = s.unicode_len();
    let i: usize = file_name_index(s);
    match ext_dot_index(s, i) {
        None => false,
        Some(d) => {
            proof {
                lemma_file_name_start_bounds(s@);
                lemma_ext_dot_bounds(file_name_of(s@));
            }
            let ext = s.substring_char(d + 1, n);
            let r = ext_is_svg(ext);
            proof {
                assert(extension_of(s@) =~= ext@);
            }
            r
        },
    }
}

/// Compares an extension against "svg".
fn ext_is_svg(ext: &str) -> (r: bool)
    ensures
        r == (ext@ == seq!['s', 'v', 'g']),
{
    proof {
        reveal_strlit("svg");
    }
    let e = ext.to_owned();
    let svg = String::from_str("svg");
    let r = e == svg;
    proof {
        assert(svg@ =~= seq!['s', 'v', 'g']);
    }
    r
}

/// Replaces the path's extension with "png", or appends ".png" when the file
/// name has no extension.
pub fn rename_svg_to_png(svg: String) -> (r: String)
    ensures
        r@ == png_name(svg@),
{
    proof {
        reveal_strlit(".png");
    }
    let s = svg.as_str();
    let i: usize = file_name_index(s);
    match ext_dot_index(s, i) {
        Some(d) => {
            proof {
                lemma_file_name_start_bounds(s@);
                lemma_ext_dot_bounds(file_name_of(s@));
            }
            let stem = s.substring_char(0, d);
            let mut r = stem.to_owned();
            r.append(".png");
            proof {
                assert(".png"@ =~= seq!['.', 'p', 'n', 'g']);
                assert(r@ =~= png_name(svg@));
            }
            r
        },
        None => {
            let mut r = svg;
            r.append(".png");
            proof {
                assert(".png"@ =~= seq!['.', 'p', 'n', 'g']);
            }
            r
        },
    }
}

/// Joins a directory path and a child name.
pub fn path_join(dir: &str, name: &str) -> (r: String)
    ensures
        r@ == path_join_seq(dir@, name@),
{
    proof {
        reveal_strlit("/");
    }
    let n: usize = dir.unicode_len();
    if n == 0 {
        return name.to_owned();
    }
    let mut r = dir.to_owned();
    if dir.get_char(n - 1) != '/' {
        r.append("/");
        proof {
            assert("/"@ =~= seq!['/']);
        }
    }
    r.append(name);
    proof {
        assert(r@ =~= path_join_seq(dir@, name@));
    }
    r
}

/// The parent of a path, as `parent_of` describes; the empty string when the
/// path holds no separator.
pub fn parent_dir(path: &str) -> (r: String)
    ensures
        r@ == parent_of(path@),
{
    let i: usize = file_name_index(path);
    proof {
        lemma_file_name_start_bounds(path@);
    }
    if i == 0 {
        let r = String::new();
        proof {
            assert(r@ =~= parent_of(path@));
        }
        r
    } else if i == 1 {
        let r = path.substring_char(0, 1).to_owned();
        proof {
            assert(r@ =~= parent_of(path@));
        }
        r
    } else {
        let r = path.substring_char(0, i - 1).to_owned();
        proof {
            assert(r@ =~= parent_of(path@));
        }
        r
    }
}

// ---------------------------------------------------------------------------
// A snapshot of the part of the filesystem that planning reads. The caller
// probes the filesystem and hands the result over as plain values; all
// decisions on it are made here.
// ---------------------------------------------------------------------------

/// What a path refers to.
#[derive(Clone, Copy, Debug, PartialEq, Eq, Structural)]
pub enum PathKind {
    Directory,
    File,
    /// The path exists but is neither a regular file nor a directory.
    Other,
    /// The path does not exist.
    Missing,
}

/// One immediate child of a directory: its bare name (no separators), whether
/// it is a regular file, and its text when it was read.
pub struct DirEntry {
    pub name: String,
    pub is_file: bool,
    pub content: Option<String>,
}

/// Mathematical model of a `DirEntry`.
pub ghost struct DirEntryV {
    pub name: Seq<char>,
    pub is_file: bool,
    pub content: Option<Seq<char>>,
}

impl View for DirEntry {
    type V = DirEntryV;

    open spec fn view(&self) -> DirEntryV {
        DirEntryV {
            name: self.name@,
            is_file: self.is_file,
            content: match self.content {
                Some(ref c) => Some(c@),
                None => None,
            },
        }
    }
}

/// A snapshot of one root path: what it is, its text when it is a file that
/// was read, and its immediate children when it is a directory.
pub struct FsView {
    pub path: String,
    pub kind: PathKind,
    pub content: Option<String>,
    pub entries: Vec<DirEntry>,
}

/// Mathematical model of an `FsView`.
pub ghost struct FsViewV {
    pub path: Seq<char>,
    pub kind: PathKind,
    pub content: Option<Seq<char>>,
    pub entries: Seq<DirEntryV>,
}

impl View for FsView {
    type V = FsViewV;

    open spec fn view(&self) -> FsViewV {
        FsViewV {
            path: self.path@,
            kind: self.kind,
            content: match self.content {
                Some(ref c) => Some(c@),
                None => None,
            },
            entries: self.entries@.map_values(|e: DirEntry| e@),
        }
    }
}

/// A well-formed snapshot: directory entries carry bare, nonempty names.
pub open spec fn view_wf(v: FsViewV) -> bool {
    forall|i: int|
        0 <= i < v.entries.len() ==> (#[trigger] v.entries[i]).name.len() > 0 && (forall|k: int|
            0 <= k < v.entries[i].name.len() ==> v.entries[i].name[k] != '/')
}

/// The SVG sources among a directory's entries, joined to the root, in
/// listing order.
pub open spec fn svg_sources(root: Seq<char>, es: Seq<DirEntryV>) -> Seq<Seq<char>>
    decreases es.len(),
{
    if es.len() == 0 {
        Seq::empty()
    } else {
        let rest = svg_sources(root, es.drop_last());
        let e = es.last();
        if e.is_file && is_svg_name(e.name) {
            rest.push(path_join_seq(root, e.name))
        } else {
            rest
        }
    }
}

/// The source paths that discovery yields for a snapshot whose root exists:
/// the root itself when it is an SVG file, the matching children when it is a
/// directory, and nothing otherwise.
pub open spec fn discovered(v: FsViewV) -> Seq<Seq<char>> {
    match v.kind {
        PathKind::File => if is_svg_name(v.path) {
            seq![v.path]
        } else {
            Seq::empty()
        },
        PathKind::Directory => svg_sources(v.path, v.entries),
        _ => Seq::empty(),
    }
}

/// Finds the SVG source files under `root`: the root itself when it is an
/// SVG file, or its immediate children with the "svg" extension when it is a
/// directory. A missing root is an error; any other root yields no sources.
pub fn find_svgs(root: &FsView) -> (r: Result<Vec<String>, crate::error::PlanError>)
    ensures
        root@.kind is Missing <==> r is Err,
        r is Err ==> r->Err_0 is NotFound,
        r is Ok ==> r->Ok_0@.map_values(|s: String| s@) == discovered(root@),
{
    match root.kind {
        PathKind::Missing => Err(crate::error::PlanError::NotFound),
        PathKind::File => {
            let mut out: Vec<String> = Vec::new();
            if is_svg(&root.path, true) {
                out.push(root.path.clone());
            }
            proof {
                assert(out@.map_values(|s: String| s@) =~= discovered(root@));
            }
            Ok(out)
        },
        PathKind::Directory => {
            let mut out: Vec<String> = Vec::new();
            let mut i: usize = 0;
            let n: usize = root.entries.len();
            while i < n
                invariant
                    0 <= i <= n,
                    n == root.entries.len(),
                    out@.map_values(|s: String| s@) == svg_sources(
                        root@.path,
                        root@.entries.take(i as int),
                    ),
                decreases n - i,
            {
                let ghost pre = root@.entries.take(i as int);
                let e = &root.entries[i];
                if is_svg(&e.name, e.is_file) {
                    let joined = path_join(root.path.as_str(), e.name.as_str());
                    out.push(joined);
                }
                proof {
                    let post = root@.entries.take(i + 1);
                    assert(post.drop_last() =~= pre);
                    assert(post.last() == root@.entries[i as int]);
                    assert(out@.map_values(|s: String| s@) =~= svg_sources(root@.path, post));
                }
                i = i + 1;
            }
            proof {
                assert(root@.entries.take(n as int) =~= root@.entries);
            }
            Ok(out)
        },
        PathKind::Other => {
            let out: Vec<String> = Vec::new();
            proof {
                assert(out@.map_values(|s: String| s@) =~= discovered(root@));
            }
            Ok(out)
        },
    }
}

/// The file name holds no separator.
pub proof fn lemma_file_name_no_slash(s: Seq<char>)
    ensures
        forall|k: int| 0 <= k < file_name_of(s).len() ==> file_name_of(s)[k] != '/',
{
    lemma_file_name_start_bounds(s);
}

/// Extension replacement: renaming to "png" keeps the directory part and the
/// file name's stem, and replaces the extension; a file name without an
/// extension has ".png" appended instead.
pub proof fn lemma_extension_replacement(s: Seq<char>)
    ensures
        file_name_start(png_name(s)) == file_name_start(s),
        png_name(s).subrange(0, file_name_start(s)) == s.subrange(0, file_name_start(s)),
        !has_extension(s) ==> file_name_of(png_name(s)) == file_name_of(s) + seq![
            '.',
            'p',
            'n',
            'g',
        ],
        has_extension(s) ==> file_name_of(png_name(s)) == file_name_of(s).subrange(
            0,
            ext_dot(file_name_of(s)),
        ) + seq!['.', 'p', 'n', 'g'],
        file_name_of(s).len() > 0 ==> file_name_of(png_name(s)).len() > 0,
        file_name_of(png_name(s)).len() > 0 ==> file_name_of(png_name(s)).last() == 'g',
{
    let i = file_name_start(s);
    let f = file_name_of(s);
    let d = ext_dot(f);
    let p = seq!['.', 'p', 'n', 'g'];
    lemma_file_name_start_bounds(s);
    lemma_ext_dot_bounds(f);
    assert(p[0] == '.' && p[1] == 'p' && p[2] == 'n' && p[3] == 'g');
    assert forall|k: int| 0 <= k < p.len() implies p[k] != '/' by {
        if k == 0 {
        } else if k == 1 {
        } else if k == 2 {
        } else {
            assert(k == 3);
        }
    }
    if d < 0 {
        lemma_file_name_start_append(s, p);
        assert(png_name(s).subrange(0, i) =~= s.subrange(0, i));
        assert(file_name_of(png_name(s)) =~= f + p);
    } else {
        let stem = s.subrange(0, i + d);
        assert forall|k: int| i <= k < stem.len() implies stem[k] != '/' by {
            assert(stem[k] == s[k]);
        }
        if i > 0 {
            assert(stem[i - 1] == s[i - 1]);
        }
        lemma_file_name_start_at(stem, i);
        lemma_file_name_start_append(stem, p);
        assert(png_name(s).subrange(0, i) =~= s.subrange(0, i));
        assert(file_name_of(png_name(s)) =~= f.subrange(0, d) + p);
    }
}

#[via_fn]
proof fn segments_decreases(p: Seq<char>) {
    lemma_file_name_start_bounds(p);
}

/// The segments of a path: the parts between the separators, in order. A
/// path without separators is its own single segment.
pub open spec fn segments(p: Seq<char>) -> Seq<Seq<char>>
    decreases p.len(),
    via segments_decreases
{
    let i = file_name_start(p);
    if i == 0 {
        seq![p]
    } else {
        segments(p.subrange(0, i - 1)).push(p.subrange(i, p.len() as int))
    }
}

/// A path's last segment is its file name.
pub proof fn lemma_segments_last(p: Seq<char>)
    ensures
        segments(p).len() >= 1,
        segments(p).last() == file_name_of(p),
{
    lemma_file_name_start_bounds(p);
    if file_name_start(p) == 0 {
        assert(file_name_of(p) =~= p);
    }
}

/// Whether a segment occurs in a segment list.
pub open spec fn seg_in(x: Seq<char>, ss: Seq<Seq<char>>) -> bool {
    exists|t: int| 0 <= t < ss.len() && x == ss[t]
}

/// The segments of a joined path: the name is the last segment, every
/// earlier segment already occurs among the directory's segments, and when
/// the directory is nonempty without a trailing separator the result is
/// exactly the directory's segments followed by the name.
pub proof fn lemma_segments_join(d: Seq<char>, n: Seq<char>)
    requires
        n.len() > 0,
        forall|k: int| 0 <= k < n.len() ==> n[k] != '/',
    ensures
        segments(path_join_seq(d, n)).len() >= 1,
        segments(path_join_seq(d, n)).last() == n,
        forall|q: int|
            0 <= q < segments(path_join_seq(d, n)).len() - 1 ==> seg_in(
                #[trigger] segments(path_join_seq(d, n))[q],
                segments(d),
            ),
        d.len() > 0 && d.last() != '/' ==> segments(path_join_seq(d, n)) == segments(d).push(n),
{
    let j = path_join_seq(d, n);
    lemma_file_name_join(d, n);
    let i = file_name_start(j);
    if d.len() == 0 {
        assert(j == n && i == 0);
        assert(segments(j) =~= seq![n]);
        assert(segments(j).last() == n);
    } else if d.last() == '/' {
        assert(i == d.len());
        assert(j.subrange(0, i - 1) =~= d.drop_last());
        assert(j.subrange(i, j.len() as int) =~= n);
        assert(segments(j) == segments(d.drop_last()).push(n));
        lemma_file_name_start_at(d, d.len() as int);
        assert(d.subrange(0, d.len() - 1) =~= d.drop_last());
        assert(segments(d) == segments(d.drop_last()).push(
            d.subrange(d.len() as int, d.len() as int),
        ));
        assert forall|q: int| 0 <= q < segments(j).len() - 1 implies seg_in(
            #[trigger] segments(j)[q],
            segments(d),
        ) by {
            assert(segments(j)[q] == segments(d.drop_last())[q]);
            assert(segments(d)[q] == segments(d.drop_last())[q]);
            assert(0 <= q < segments(d).len() && segments(j)[q] == segments(d)[q]);
        }
    } else {
        assert(i == d.len() + 1);
        assert(j.subrange(0, i - 1) =~= d);
        assert(j.subrange(i, j.len() as int) =~= n);
        assert(segments(j) == segments(d).push(n));
        assert forall|q: int| 0 <= q < segments(j).len() - 1 implies seg_in(
            #[trigger] segments(j)[q],
            segments(d),
        ) by {
            assert(0 <= q < segments(d).len() && segments(j)[q] == segments(d)[q]);
        }
    }
}

/// How a path's parent's segments relate to its own: with a real parent they
/// are the path's segments without the file name; a parent of "" or "/" has
/// only empty segments.
pub proof fn lemma_segments_parent(p: Seq<char>)
    ensures
        file_name_start(p) >= 2 ==> segments(parent_of(p)) == segments(p).drop_last(),
        file_name_start(p) < 2 ==> forall|q: int|
            0 <= q < segments(parent_of(p)).len() ==> (#[trigger] segments(parent_of(p))[q]).len()
                == 0,
{
    lemma_file_name_start_bounds(p);
    let i = file_name_start(p);
    if i >= 2 {
        assert(segments(p) == segments(p.subrange(0, i - 1)).push(p.subrange(i, p.len() as int)));
        assert(segments(parent_of(p)) =~= segments(p).drop_last());
    } else if i == 1 {
        let par = parent_of(p);
        assert(par == seq!['/']);
        assert(par.last() == '/');
        assert(file_name_start(par) == 1) by {
            lemma_file_name_start_at(par, 1);
        }
        assert(par.subrange(0, 0) =~= Seq::<char>::empty());
        assert(file_name_start(Seq::<char>::empty()) == 0);
        assert(segments(Seq::<char>::empty()) =~= seq![Seq::<char>::empty()]);
        assert(segments(par) =~= seq![Seq::<char>::empty(), par.subrange(1, 1)]);
        assert(par.subrange(1, 1).len() == 0);
    } else {
        let par = parent_of(p);
        assert(par.len() == 0);
        assert(file_name_start(par) == 0);
        assert(segments(par) =~= seq![par]);
    }
}

/// Joining a bare name to a directory leaves exactly that name as the
/// result's file name.
pub proof fn lemma_file_name_join(d: Seq<char>, n: Seq<char>)
    requires
        n.len() > 0,
        forall|k: int| 0 <= k < n.len() ==> n[k] != '/',
    ensures
        file_name_of(path_join_seq(d, n)) == n,
        file_name_start(path_join_seq(d, n)) == path_join_seq(d, n).len() - n.len(),
{
    let j = path_join_seq(d, n);
    if d.len() == 0 {
        lemma_file_name_start_at(j, 0);
        assert(file_name_of(j) =~= n);
    } else if d.last() == '/' {
        assert(j[d.len() - 1] == '/');
        assert forall|k: int| d.len() <= k < j.len() implies j[k] != '/' by {
            assert(j[k] == n[k - d.len()]);
        }
        lemma_file_name_start_at(j, d.len() as int);
        assert(file_name_of(j) =~= n);
    } else {
        assert(j[d.len() as int] == '/');
        assert forall|k: int| d.len() + 1 <= k < j.len() implies j[k] != '/' by {
            assert(j[k] == n[k - d.len() - 1]);
        }
        lemma_file_name_start_at(j, d.len() as int + 1);
        assert(file_name_of(j) =~= n);
    }
}

/// An SVG name has a nonempty file name (it carries an extension).
pub proof fn lemma_svg_name_nonempty(s: Seq<char>)
    requires
        is_svg_name(s),
    ensures
        file_name_of(s).len() > 0,
{
    lemma_ext_dot_bounds(file_name_of(s));
}

proof fn lemma_svg_sources_file_names(root: Seq<char>, es: Seq<DirEntryV>)
    requires
        forall|i: int|
            0 <= i < es.len() ==> (#[trigger] es[i]).name.len() > 0 && (forall|k: int|
                0 <= k < es[i].name.len() ==> es[i].name[k] != '/'),
    ensures
        forall|i: int|
            0 <= i < svg_sources(root, es).len() ==> file_name_of(
                #[trigger] svg_sources(root, es)[i],
            ).len() > 0,
    decreases es.len(),
{
    if es.len() > 0 {
        let rest = es.drop_last();
        assert(forall|i: int| 0 <= i < rest.len() ==> rest[i] == es[i]);
        lemma_svg_sources_file_names(root, rest);
        let e = es.last();
        if e.is_file && is_svg_name(e.name) {
            lemma_file_name_join(root, e.name);
        }
        assert forall|i: int| 0 <= i < svg_sources(root, es).len() implies file_name_of(
            #[trigger] svg_sources(root, es)[i],
        ).len() > 0 by {
            if i < svg_sources(root, rest).len() {
                assert(svg_sources(root, es)[i] == svg_sources(root, rest)[i]);
            } else {
                assert(svg_sources(root, es)[i] == path_join_seq(root, e.name));
            }
        }
    }
}

/// Every discovered source path has a nonempty file name.
pub proof fn lemma_discovered_file_names(v: FsViewV)
    requires
        view_wf(v),
    ensures
        forall|i: int|
            0 <= i < discovered(v).len() ==> file_name_of(#[trigger] discovered(v)[i]).len() > 0,
{
    match v.kind {
        PathKind::File => {
            if is_svg_name(v.path) {
                lemma_svg_name_nonempty(v.path);
            }
        },
        PathKind::Directory => {
            lemma_svg_sources_file_names(v.path, v.entries);
        },
        _ => {},
    }
}

// ---------------------------------------------------------------------------
// Locating the declarative configuration file.
// ---------------------------------------------------------------------------

/// The fixed name of the declarative configuration file.
pub open spec fn yaml_name() -> Seq<char> {
    seq!['r', 'e', 'n', 'd', 'e', 'r', '.', 'y', 'a', 'm', 'l']
}

/// Index of the first directory entry that is a regular file named
/// "render.yaml", or -1 when there is none.
pub open spec fn first_yaml_entry(es: Seq<DirEntryV>) -> int
    decreases es.len(),
{
    if es.len() == 0 {
        -1
    } else if es[0].is_file && es[0].name == yaml_name() {
        0
    } else {
        let r = first_yaml_entry(es.drop_first());
        if r == -1 {
            -1
        } else {
            r + 1
        }
    }
}

proof fn lemma_first_yaml_at(es: Seq<DirEntryV>, i: int)
    requires
        0 <= i < es.len(),
        es[i].is_file && es[i].name == yaml_name(),
        forall|k: int| 0 <= k < i ==> !((#[trigger] es[k]).is_file && es[k].name == yaml_name()),
    ensures
        first_yaml_entry(es) == i,
    decreases es.len(),
{
    if i == 0 {
    } else {
        assert(!(es[0].is_file && es[0].name == yaml_name()));
        lemma_first_yaml_at(es.drop_first(), i - 1);
    }
}

proof fn lemma_first_yaml_none(es: Seq<DirEntryV>)
    requires
        forall|k: int|
            0 <= k < es.len() ==> !((#[trigger] es[k]).is_file && es[k].name == yaml_name()),
    ensures
        first_yaml_entry(es) == -1,
    decreases es.len(),
{
    if es.len() > 0 {
        lemma_first_yaml_none(es.drop_first());
    }
}

/// What the configuration lookup selects: None when no configuration file is
/// present, and otherwise the selected file's text as far as it was read.
pub open spec fn yaml_selected(v: FsViewV) -> Option<Option<Seq<char>>> {
    match v.kind {
        PathKind::File => if file_name_of(v.path) == yaml_name() {
            Some(v.content)
        } else {
            None
        },
        PathKind::Directory => {
            let k = first_yaml_entry(v.entries);
            if k == -1 {
                None
            } else {
                Some(v.entries[k].content)
            }
        },
        _ => None,
    }
}

/// The view of an optional text.
pub open spec fn text_view(c: Option<String>) -> Option<Seq<char>> {
    match c {
        Some(t) => Some(t@),
        None => None,
    }
}

/// Parses the given text when the given path's file name is exactly
/// "render.yaml"; any other name yields no configuration. A selected file
/// whose text could not be read is a read error; a read one yields exactly
/// the configuration it denotes, or the hard parse error.
pub fn find_yaml_from_file(file: &String, content: &Option<String>) -> (r: Result<
    Option<crate::yaml::RenderYaml>,
    crate::error::PlanError,
>)
    ensures
        file_name_of(file@) != yaml_name() ==> (r matches Ok(o) && o is None),
        file_name_of(file@) == yaml_name() ==> crate::yaml::yaml_read_post(r, text_view(*content)),
{
    proof {
        reveal_strlit("render.yaml");
    }
    let s = file.as_str();
    let n: usize = s.unicode_len();
    let i: usize = file_name_index(s);
    proof {
        lemma_file_name_start_bounds(s@);
    }
    let fname = s.substring_char(i, n).to_owned();
    let target = String::from_str("render.yaml");
    proof {
        assert(target@ =~= yaml_name());
        assert(fname@ =~= file_name_of(file@));
    }
    if fname == target {
        read_yaml_content(content)
    } else {
        Ok(None)
    }
}

/// Parses a selected configuration file's text; a file that could not be
/// read is a read error, a read one yields exactly the configuration it
/// denotes, or the hard parse error.
fn read_yaml_content(content: &Option<String>) -> (r: Result<
    Option<crate::yaml::RenderYaml>,
    crate::error::PlanError,
>)
    ensures
        crate::yaml::yaml_read_post(r, text_view(*content)),
{
    match content {
        Some(text) => match crate::yaml::parse_render_yaml(text.as_str()) {
            Ok(y) => Ok(Some(y)),
            Err(e) => Err(e),
        },
        None => Err(crate::error::PlanError::Io),
    }
}

/// Locates and parses the declarative configuration: the root itself when it
/// is a file named "render.yaml", or the first such regular file among a
/// directory root's children. Absence of a configuration file is not an
/// error; a selected file yields exactly the configuration its text denotes,
/// a malformed one the hard parse error, an unreadable one a read error.
pub fn find_yaml(root: &FsView) -> (r: Result<
    Option<crate::yaml::RenderYaml>,
    crate::error::PlanError,
>)
    ensures
        root@.kind is Missing ==> (r matches Err(e) && e is NotFound),
        root@.kind is Other ==> (r matches Err(e) && e is Io),
        (root@.kind is File || root@.kind is Directory) && yaml_selected(root@) is None ==> (
        r matches Ok(o) && o is None),
        yaml_selected(root@) matches Some(c) ==> crate::yaml::yaml_read_post(r, c),
{
    match root.kind {
        PathKind::Missing => Err(crate::error::PlanError::NotFound),
        PathKind::Other => Err(crate::error::PlanError::Io),
        PathKind::File => find_yaml_from_file(&root.path, &root.content),
        PathKind::Directory => {
            proof {
                reveal_strlit("render.yaml");
            }
            let target = String::from_str("render.yaml");
            proof {
                assert(target@ =~= yaml_name());
            }
            let n: usize = root.entries.len();
            let mut i: usize = 0;
            while i < n
                invariant
                    root@.kind is Directory,
                    0 <= i <= n,
                    n == root.entries.len(),
                    target@ == yaml_name(),
                    forall|k: int|
                        0 <= k < i ==> !((#[trigger] root@.entries[k]).is_file
                            && root@.entries[k].name == yaml_name()),
                decreases n - i,
            {
                let e = &root.entries[i];
                if e.is_file && e.name == target {
                    proof {
                        lemma_first_yaml_at(root@.entries, i as int);
                    }
                    return read_yaml_content(&e.content);
                }
                i = i + 1;
            }
            proof {
                lemma_first_yaml_none(root@.entries);
            }
            Ok(None)
        },
    }
}

} // verus!
