//! Paths of a project on disk, as strings with Unix separators: joining,
//! parents, file names and extensions, and the places the editor keeps its
//! files.
use crate::model::{project_file_name, Asset};
use crate::text::{
    all_digits, decimal, digit_value, digits_value, is_digit, is_prefix, lemma_decimal,
    lemma_decimal_len, lemma_digits_bound, lemma_digits_concat, lemma_zero_pad, owned, pow10,
    push_char, push_padded, str_eq, string_of, zero_pad,
};
use vstd::prelude::*;

verus! {

/// A path that starts at the root.
pub open spec fn is_absolute(p: Seq<char>) -> bool {
    p.len() > 0 && p[0] == '/'
}

/// `base` joined with `p`, as `Path::join` on Unix: an absolute `p`
/// replaces `base`; else a separator goes between them when `base` is not
/// empty and does not already end in one.
pub open spec fn join(base: Seq<char>, p: Seq<char>) -> Seq<char> {
    if is_absolute(p) {
        p
    } else if base.len() > 0 && base.last() != '/' {
        base + seq!['/'] + p
    } else {
        base + p
    }
}

/// Whether a path starts at the root, as `Path::is_absolute` on Unix.
pub fn path_is_absolute(p: &str) -> (r: bool)
    ensures
        r == is_absolute(p@),
{
    p.unicode_len() > 0 && p.get_char(0) == '/'
}

/// `Path::join` on Unix.
pub fn join_path(base: &str, p: &str) -> (r: String)
    ensures
        r@ == join(base@, p@),
{
    if path_is_absolute(p) {
        return owned(p);
    }
    let mut r = owned(base);
    let n = base.unicode_len();
    if n > 0 && base.get_char(n - 1) != '/' {
        push_char(&mut r, '/');
    }
    let ghost head = r@;
    let m = p.unicode_len();
    let mut i: usize = 0;
    while i < m
        invariant
            m == p@.len(),
            i <= m,
            r@ == head + p@.take(i as int),
        decreases m - i,
    {
        push_char(&mut r, p.get_char(i));
        i = i + 1;
        assert(r@ =~= head + p@.take(i as int));
    }
    assert(p@.take(m as int) =~= p@);
    r
}

/// What `Path::parent` gives for a path: the path without its final
/// component, or `None` when the path ends in a root or is empty.
pub uninterp spec fn path_parent(p: Seq<char>) -> Option<Seq<char>>;

/// `Path::parent`. Its contract says that the result is `path_parent` of the
/// path, and, as the documentation has it, the path without its final
/// component: a part of the path at its start, and shorter. Which component
/// is final (repeated separators, `.`) is left to `path_parent`.
#[verifier::external_body]
pub(crate) fn parent_of(p: &str) -> (r: Option<String>)
    ensures
        match r {
            Some(q) => path_parent(p@) == Some(q@) && q@.len() < p@.len() && is_prefix(q@, p@),
            None => path_parent(p@) == None::<Seq<char>>,
        },
{
    match std::path::Path::new(p).parent() {
        Some(q) => Some(q.to_string_lossy().into_owned()),
        None => None,
    }
}

/// What `Path::file_name` gives: the final component of a path, or `None`
/// when the path ends in `..` or has no component.
pub uninterp spec fn path_file_name(p: Seq<char>) -> Option<Seq<char>>;

/// `Path::file_name`. Its contract says only that the result is
/// `path_file_name` of the path.
#[verifier::external_body]
pub(crate) fn file_name_of(p: &str) -> (r: Option<String>)
    ensures
        match r {
            Some(q) => path_file_name(p@) == Some(q@),
            None => path_file_name(p@) == None::<Seq<char>>,
        },
{
    match std::path::Path::new(p).file_name() {
        Some(q) => Some(q.to_string_lossy().into_owned()),
        None => None,
    }
}

/// What `Path::strip_prefix` gives: `p` with the components of `base`
/// removed from its start, or `None` when `base` is not a prefix of `p`
/// component by component.
pub uninterp spec fn path_strip_prefix(p: Seq<char>, base: Seq<char>) -> Option<Seq<char>>;

/// `Path::strip_prefix`, with the rest taken as a string. Its contract says
/// only that the result is `path_strip_prefix` of the two paths.
#[verifier::external_body]
pub(crate) fn strip_prefix_of(p: &str, base: &str) -> (r: Option<String>)
    ensures
        match r {
            Some(q) => path_strip_prefix(p@, base@) == Some(q@),
            None => path_strip_prefix(p@, base@) == None::<Seq<char>>,
        },
{
    match std::path::Path::new(p).strip_prefix(base) {
        Ok(q) => Some(q.to_string_lossy().into_owned()),
        Err(_) => None,
    }
}

/// Whether two paths are equal as `Path`s are compared: component by
/// component.
pub uninterp spec fn same_path(a: Seq<char>, b: Seq<char>) -> bool;

/// `==` on `Path`. Its contract says that the result is `same_path` of the
/// two, and that a path is equal to itself.
#[verifier::external_body]
pub(crate) fn paths_equal(a: &str, b: &str) -> (r: bool)
    ensures
        r == same_path(a@, b@),
        a@ == b@ ==> r,
{
    std::path::Path::new(a) == std::path::Path::new(b)
}

/// The last position of `c` in `s`.
pub open spec fn last_index_of(s: Seq<char>, c: char) -> Option<int> {
    if exists|i: int| 0 <= i < s.len() && s[i] == c {
        Some(
            choose|i: int|
                0 <= i < s.len() && s[i] == c && forall|j: int| i < j < s.len() ==> s[j] != c,
        )
    } else {
        None
    }
}

/// The extension of a file name, as `Path::extension` documents it: what
/// follows the final `.`, unless there is none or the only one leads the name.
pub open spec fn name_extension(name: Seq<char>) -> Option<Seq<char>> {
    match last_index_of(name, '.') {
        Some(i) => if i == 0 {
            None
        } else {
            Some(name.skip(i + 1))
        },
        None => None,
    }
}

/// The extension of a path, as `Path::extension`.
pub open spec fn path_extension(p: Seq<char>) -> Option<Seq<char>> {
    match path_file_name(p) {
        Some(name) => name_extension(name),
        None => None,
    }
}

/// The extension of a file name.
pub fn extension_of_name(name: &str) -> (r: Option<String>)
    ensures
        match r {
            Some(e) => name_extension(name@) == Some(e@),
            None => name_extension(name@) == None::<Seq<char>>,
        },
{
    let n = name.unicode_len();
    let mut i = n;
    while i > 0 && name.get_char(i - 1) != '.'
        invariant
            i <= n == name@.len(),
            forall|j: int| i <= j < n ==> name@[j] != '.',
        decreases i,
    {
        i = i - 1;
    }
    if i == 0 {
        return None;
    }
    let k = i - 1;
    proof {
        let s = name@;
        assert(s[k as int] == '.');
        let c = choose|c: int| 0 <= c < s.len() && s[c] == '.' && forall|j: int| c < j < s.len() ==> s[j] != '.';
        if c < k {
            assert(s[k as int] != '.');
        } else if c > k {
            assert(s[c] != '.');
        }
    }
    if k == 0 {
        return None;
    }
    let mut e = String::new();
    let mut j = k + 1;
    while j < n
        invariant
            k + 1 <= j <= n == name@.len(),
            e@ == name@.subrange(k + 1, j as int),
        decreases n - j,
    {
        push_char(&mut e, name.get_char(j));
        j = j + 1;
        assert(e@ =~= name@.subrange(k + 1, j as int));
    }
    assert(name@.skip(k + 1) =~= name@.subrange(k + 1, n as int));
    Some(e)
}

/// The extension of a path, as `Path::extension`.
pub fn extension_of(p: &str) -> (r: Option<String>)
    ensures
        match r {
            Some(e) => path_extension(p@) == Some(e@),
            None => path_extension(p@) == None::<Seq<char>>,
        },
{
    match file_name_of(p) {
        Some(name) => extension_of_name(name.as_str()),
        None => None,
    }
}

// ---------------------------------------------------------------- project files

/// `project.teproj` in `root`.
pub fn project_path(root: &str) -> (r: String)
    ensures
        r@ == join(root@, project_file_name()),
{
    let name = vec!['p', 'r', 'o', 'j', 'e', 'c', 't', '.', 't', 'e', 'p', 'r', 'o', 'j'];
    assert(name@ == project_file_name());
    let name = string_of(&name);
    join_path(root, name.as_str())
}

/// Where an asset's media is: its path as stored, taken from `root` when it
/// is relative.
pub fn resolve_asset_path(root: &str, asset: &Asset) -> (r: String)
    ensures
        r@ == if is_absolute(asset.path@) {
            asset.path@
        } else {
            join(root@, asset.path@)
        },
{
    if path_is_absolute(asset.path.as_str()) {
        owned(asset.path.as_str())
    } else {
        join_path(root, asset.path.as_str())
    }
}

/// `.te/history`, where the undo and redo snapshots are kept.
pub open spec fn history_root() -> Seq<char> {
    seq!['.', 't', 'e', '/', 'h', 'i', 's', 't', 'o', 'r', 'y']
}

/// The directory of one history stack (`undo` or `redo`) of the project
/// whose file is `project_file`; `None` when the file has no parent.
pub fn history_dir(project_file: &str, stack: &str) -> (r: Option<String>)
    ensures
        match r {
            Some(d) => path_parent(project_file@) matches Some(root) && d@ == join(
                join(root, history_root()),
                stack@,
            ),
            None => path_parent(project_file@) is None,
        },
{
    match parent_of(project_file) {
        None => None,
        Some(root) => {
            let h = vec!['.', 't', 'e', '/', 'h', 'i', 's', 't', 'o', 'r', 'y'];
            assert(h@ == history_root());
            let h = string_of(&h);
            let dir = join_path(root.as_str(), h.as_str());
            Some(join_path(dir.as_str(), stack))
        },
    }
}

/// `.teproj`, the extension of project files and snapshots.
pub open spec fn project_extension() -> Seq<char> {
    seq!['.', 't', 'e', 'p', 'r', 'o', 'j']
}

/// The file name of a history snapshot taken `nanos` nanoseconds after the
/// Unix epoch: the count in at least 32 digits, then `.teproj`.
pub open spec fn snapshot_text(nanos: nat) -> Seq<char> {
    zero_pad(decimal(nanos), 32) + project_extension()
}

/// The file name of a history snapshot taken `nanos` nanoseconds after the
/// Unix epoch.
pub fn snapshot_name(nanos: u128) -> (r: String)
    ensures
        r@ == snapshot_text(nanos as nat),
{
    let mut out: Vec<char> = Vec::new();
    push_padded(&mut out, nanos, 32);
    let ext = vec!['.', 't', 'e', 'p', 'r', 'o', 'j'];
    let ghost before = out@;
    let mut i: usize = 0;
    while i < ext.len()
        invariant
            i <= ext.len(),
            ext@ == project_extension(),
            out@ == before + ext@.take(i as int),
        decreases ext.len() - i,
    {
        out.push(ext[i]);
        i = i + 1;
        assert(out@ =~= before + ext@.take(i as int));
    }
    assert(ext@.take(ext.len() as int) =~= ext@);
    string_of(&out)
}

/// `a` sorts before `b` character by character, as strings and file names
/// are ordered: at the first place where they differ `a` has the smaller
/// character, or `a` is a proper prefix of `b`.
pub open spec fn sorts_before(a: Seq<char>, b: Seq<char>) -> bool {
    exists|k: int|
        0 <= k <= a.len() && k <= b.len() && a.take(k) == b.take(k) && ((k == a.len() && k
            < b.len()) || (k < a.len() && k < b.len() && a[k] < b[k]))
}

/// Two digit strings of one length write numbers in the order they sort in.
proof fn lemma_digits_sort(x: Seq<char>, y: Seq<char>)
    requires
        all_digits(x),
        all_digits(y),
        x.len() == y.len(),
        digits_value(x) < digits_value(y),
    ensures
        exists|k: int| 0 <= k < x.len() && x.take(k) == y.take(k) && x[k] < y[k],
    decreases x.len(),
{
    let n = x.len();
    if n == 0 {
        assert(false);
    }
    let hx = x.take(1);
    let hy = y.take(1);
    let tx = x.skip(1);
    let ty = y.skip(1);
    assert(hx + tx =~= x);
    assert(hy + ty =~= y);
    lemma_digits_concat(hx, tx);
    lemma_digits_concat(hy, ty);
    assert(hx.drop_last() =~= Seq::<char>::empty());
    assert(hy.drop_last() =~= Seq::<char>::empty());
    assert(is_digit(x[0]) && is_digit(y[0]));
    assert(digits_value(Seq::<char>::empty()) == 0);
    assert(hx.last() == x[0]);
    assert(hy.last() == y[0]);
    assert(digits_value(hx) == digits_value(hx.drop_last()) * 10 + digit_value(hx.last()));
    assert(digits_value(hy) == digits_value(hy.drop_last()) * 10 + digit_value(hy.last()));
    assert(digits_value(hx) == digit_value(x[0]));
    assert(digits_value(hy) == digit_value(y[0]));
    assert forall|i: int| 0 <= i < tx.len() implies is_digit(#[trigger] tx[i]) by {
        assert(tx[i] == x[i + 1]);
    }
    assert forall|i: int| 0 <= i < ty.len() implies is_digit(#[trigger] ty[i]) by {
        assert(ty[i] == y[i + 1]);
    }
    lemma_digits_bound(tx);
    lemma_digits_bound(ty);
    let p = pow10(tx.len());
    let a = digit_value(x[0]);
    let b = digit_value(y[0]);
    if x[0] < y[0] {
        assert(x.take(0) =~= y.take(0));
    } else if x[0] > y[0] {
        assert(a >= b + 1);
        assert(a * p + digits_value(tx) >= b * p + digits_value(ty)) by (nonlinear_arith)
            requires
                a >= b + 1,
                digits_value(ty) < p,
                digits_value(tx) >= 0,
        ;
        assert(false);
    } else {
        assert(a == b);
        assert(digits_value(tx) < digits_value(ty));
        lemma_digits_sort(tx, ty);
        let k = choose|k: int| 0 <= k < tx.len() && tx.take(k) == ty.take(k) && tx[k] < ty[k];
        assert(x.take(k + 1) =~= seq![x[0]] + tx.take(k));
        assert(y.take(k + 1) =~= seq![y[0]] + ty.take(k));
        assert(x[k + 1] == tx[k]);
        assert(y[k + 1] == ty[k]);
    }
}

/// History snapshots sort in the order they were taken: for times below
/// 10^32 nanoseconds, a later snapshot's file name sorts after an earlier
/// one's, so that the last name in sorted order is the newest snapshot.
pub proof fn law_snapshots_sort_by_time(a: nat, b: nat)
    requires
        a < b < pow10(32),
    ensures
        sorts_before(snapshot_text(a), snapshot_text(b)),
{
    lemma_decimal(a);
    lemma_decimal(b);
    lemma_decimal_len(a, 32);
    lemma_decimal_len(b, 32);
    lemma_zero_pad(decimal(a), 32);
    lemma_zero_pad(decimal(b), 32);
    let x = zero_pad(decimal(a), 32);
    let y = zero_pad(decimal(b), 32);
    lemma_digits_sort(x, y);
    let k = choose|k: int| 0 <= k < x.len() && x.take(k) == y.take(k) && x[k] < y[k];
    let sa = snapshot_text(a);
    let sb = snapshot_text(b);
    assert(sa.take(k) =~= x.take(k));
    assert(sb.take(k) =~= y.take(k));
    assert(sa[k] == x[k]);
    assert(sb[k] == y[k]);
}

/// The directory `p` and each of its ancestors, nearest first.
pub open spec fn ancestors(p: Seq<char>) -> Seq<Seq<char>>
    decreases p.len(),
{
    match path_parent(p) {
        Some(q) => if q.len() < p.len() {
            seq![p] + ancestors(q)
        } else {
            seq![p]
        },
        None => seq![p],
    }
}

/// Where the search for a project file stands before looking at the disk.
pub enum ProjectSearch {
    /// The start is the project file itself.
    Found(String),
    /// The start is a file without a parent directory.
    NoParent,
    /// Look for a project file at each of these paths, in order.
    Candidates(Vec<String>),
}

/// The project files to look for, nearest first, from the directory `dir`
/// up to the root.
fn candidates_from(dir: String) -> (r: Vec<String>)
    ensures
        r@.len() == ancestors(dir@).len(),
        forall|i: int|
            0 <= i < r@.len() ==> (#[trigger] r@[i])@ == join(ancestors(dir@)[i], project_file_name()),
    decreases dir@.len(),
{
    let here = project_path(dir.as_str());
    let mut r: Vec<String> = Vec::new();
    r.push(here);
    match parent_of(dir.as_str()) {
        None => {
            r
        },
        Some(up) => {
            let rest = candidates_from(up);
            let ghost first = r@;
            let mut i: usize = 0;
            let n = rest.len();
            while i < n
                invariant
                    i <= n == rest.len(),
                    r@.len() == 1 + i,
                    r@[0] == first[0],
                    forall|j: int| 0 <= j < i ==> (#[trigger] r@[j + 1])@ == rest@[j]@,
                decreases n - i,
            {
                let s = owned(rest[i].as_str());
                r.push(s);
                i = i + 1;
            }
            proof {
                let a = ancestors(dir@);
                assert(a == seq![dir@] + ancestors(path_parent(dir@).unwrap()));
                assert forall|j: int| 0 <= j < r@.len() implies (#[trigger] r@[j])@ == join(
                    a[j],
                    project_file_name(),
                ) by {
                    if j > 0 {
                        assert(r@[(j - 1) + 1]@ == rest@[j - 1]@);
                    }
                }
            }
            r
        },
    }
}

/// Where to look for the project that `start` belongs to. `start` is a
/// canonical path and `start_is_file` says whether it names a file: the
/// project file itself is found at once; another file starts the search in
/// its directory; a directory starts it there. From there the search goes up
/// through every ancestor.
pub fn find_project(start: &str, start_is_file: bool) -> (r: ProjectSearch)
    ensures
        start_is_file && path_file_name(start@) == Some(project_file_name()) ==> (r matches ProjectSearch::Found(
            s,
        ) && s@ == start@),
        !(start_is_file && path_file_name(start@) == Some(project_file_name())) ==> match r {
            ProjectSearch::Found(_) => false,
            ProjectSearch::NoParent => start_is_file && path_parent(start@) is None,
            ProjectSearch::Candidates(c) => {
                let dir = if start_is_file {
                    path_parent(start@).unwrap()
                } else {
                    start@
                };
                &&& !(start_is_file && path_parent(start@) is None)
                &&& c@.len() == ancestors(dir).len()
                &&& forall|i: int|
                    0 <= i < c@.len() ==> (#[trigger] c@[i])@ == join(
                        ancestors(dir)[i],
                        project_file_name(),
                    )
            },
        },
{
    if start_is_file {
        let name = vec!['p', 'r', 'o', 'j', 'e', 'c', 't', '.', 't', 'e', 'p', 'r', 'o', 'j'];
        assert(name@ == project_file_name());
        let name = string_of(&name);
        match file_name_of(start) {
            Some(f) => {
                if str_eq(f.as_str(), name.as_str()) {
                    return ProjectSearch::Found(owned(start));
                }
            },
            None => {},
        }
        match parent_of(start) {
            None => ProjectSearch::NoParent,
            Some(dir) => ProjectSearch::Candidates(candidates_from(dir)),
        }
    } else {
        ProjectSearch::Candidates(candidates_from(owned(start)))
    }
}

} // verus!
