//! Finding the renderer that draws the editor: where a packaged renderer
//! lies next to the executable, the version file beside it, and whether a
//! renderer that was found may be used.
use crate::paths::{join, join_path, parent_of, path_parent};
use crate::text::{chars_of, string_of};
use crate::time::{trim, trim_range};
use vstd::prelude::*;

verus! {

/// Where a renderer was found.
#[derive(Clone, Copy, Debug, PartialEq, Eq, Structural)]
pub enum RendererSource {
    /// Named by the `TE_RENDERER_BIN` environment variable.
    Override,
    /// In the package, next to the executable.
    Package,
    /// On the `PATH`.
    Path,
    /// In the development build tree.
    Development,
}

/// Why no renderer can be used.
#[derive(Clone, Copy, Debug, PartialEq, Eq, Structural)]
pub enum RuntimeError {
    /// No renderer was found.
    Missing,
    /// A packaged renderer whose version is not the executable's.
    VersionMismatch,
}

/// The renderer to use: the one found, unless it is not an override and its
/// version is not exactly the expected one.
pub open spec fn resolve_spec(
    found: Option<(Seq<char>, RendererSource)>,
    version: Option<Seq<char>>,
    expected: Seq<char>,
) -> Result<Seq<char>, RuntimeError> {
    match found {
        None => Err(RuntimeError::Missing),
        Some((path, source)) => if source != RendererSource::Override && version != Some(expected) {
            Err(RuntimeError::VersionMismatch)
        } else {
            Ok(path)
        },
    }
}

/// Decides on the renderer that was found (its path and where it was found),
/// given the version read next to it and the version this executable expects.
pub fn resolve(found: Option<(String, RendererSource)>, version: Option<String>, expected: &str) -> (r:
    Result<String, RuntimeError>)
    ensures
        match r {
            Ok(p) => resolve_spec(
                match found {
                    Some((f, s)) => Some((f@, s)),
                    None => None,
                },
                match version {
                    Some(v) => Some(v@),
                    None => None,
                },
                expected@,
            ) == Ok::<Seq<char>, RuntimeError>(p@),
            Err(e) => resolve_spec(
                match found {
                    Some((f, s)) => Some((f@, s)),
                    None => None,
                },
                match version {
                    Some(v) => Some(v@),
                    None => None,
                },
                expected@,
            ) == Err::<Seq<char>, RuntimeError>(e),
        },
{
    match found {
        None => Err(RuntimeError::Missing),
        Some((path, source)) => {
            let matches = match &version {
                Some(v) => crate::text::str_eq(v.as_str(), expected),
                None => false,
            };
            if source != RendererSource::Override && !matches {
                Err(RuntimeError::VersionMismatch)
            } else {
                Ok(path)
            }
        },
    }
}

/// The file that holds a renderer's version: `VERSION` in the directory
/// above the renderer's own.
pub fn version_file(binary: &str) -> (r: Option<String>)
    ensures
        match r {
            Some(f) => path_parent(binary@) matches Some(dir) && path_parent(dir) matches Some(
                root,
            ) && f@ == join(root, "VERSION"@),
            None => !(path_parent(binary@) matches Some(dir) && path_parent(dir) is Some),
        },
{
    let dir = match parent_of(binary) {
        Some(d) => d,
        None => {
            return None;
        },
    };
    let root = match parent_of(dir.as_str()) {
        Some(r) => r,
        None => {
            return None;
        },
    };
    Some(join_path(root.as_str(), "VERSION"))
}

/// The version that a version file holds: its text without surrounding
/// whitespace, when that is not empty.
pub fn version_text(contents: &str) -> (r: Option<String>)
    ensures
        match r {
            Some(v) => v@ == trim(contents@) && v@.len() > 0,
            None => trim(contents@).len() == 0,
        },
{
    let v = chars_of(contents);
    let (a, b) = trim_range(&v, 0, v.len());
    assert(v@.subrange(0, v.len() as int) =~= contents@);
    if a == b {
        return None;
    }
    let mut out: Vec<char> = Vec::new();
    let mut i = a;
    while i < b
        invariant
            a <= i <= b <= v.len(),
            out@ == v@.subrange(a as int, i as int),
        decreases b - i,
    {
        out.push(v[i]);
        i = i + 1;
        assert(out@ =~= v@.subrange(a as int, i as int));
    }
    Some(string_of(&out))
}

/// Where a packaged renderer may lie, relative to the executable's directory.
pub open spec fn package_layouts() -> Seq<Seq<char>> {
    seq![
        "../libexec/terminal-effects-renderer/bin/te-renderer"@,
        "../libexec/terminal-effects/renderer/bin/te-renderer"@,
        "../runtime/terminal-effects-renderer/bin/te-renderer"@,
    ]
}

/// The places to look for a packaged renderer, in order, given the path of
/// the running executable; none when it has no directory.
pub fn package_renderers(executable: &str) -> (r: Vec<String>)
    ensures
        match path_parent(executable@) {
            Some(dir) => r@.len() == package_layouts().len() && forall|i: int|
                0 <= i < r@.len() ==> (#[trigger] r@[i])@ == join(dir, package_layouts()[i]),
            None => r@.len() == 0,
        },
{
    let mut r: Vec<String> = Vec::new();
    let dir = match parent_of(executable) {
        Some(d) => d,
        None => {
            return r;
        },
    };
    r.push(join_path(dir.as_str(), "../libexec/terminal-effects-renderer/bin/te-renderer"));
    r.push(join_path(dir.as_str(), "../libexec/terminal-effects/renderer/bin/te-renderer"));
    r.push(join_path(dir.as_str(), "../runtime/terminal-effects-renderer/bin/te-renderer"));
    r
}

} // verus!
