//! Script contents: directories that hold a `scripts` folder, with or
//! without a project manifest.

use vstd::prelude::*;
use crate::file_error::{FileError, IoError};
use crate::manifest::{self, Manifest, manifest_file_name};
use crate::paths::{AbsPath, resolve_spec};
use crate::redkit;

verus! {

/// Name of the content that holds the game's own scripts.
pub fn vanilla_content_name() -> (r: &'static str)
    ensures
        r@ == vanilla_name(),
{
    let r = "content0";
    proof {
        reveal_strlit("content0");
    }
    r
}

pub open spec fn vanilla_name() -> Seq<char> {
    seq!['c', 'o', 'n', 't', 'e', 'n', 't', '0']
}

pub open spec fn scripts_name() -> Seq<char> {
    seq!['s', 'c', 'r', 'i', 'p', 't', 's']
}

pub open spec fn content_dir_name() -> Seq<char> {
    seq!['c', 'o', 'n', 't', 'e', 'n', 't']
}

pub open spec fn workspace_name() -> Seq<char> {
    seq!['w', 'o', 'r', 'k', 's', 'p', 'a', 'c', 'e']
}

pub open spec fn manifest_name() -> Seq<char> {
    seq!['w', 'i', 't', 'c', 'h', 'e', 'r', 's', 'c', 'r', 'i', 'p', 't', '.', 't', 'o', 'm', 'l']
}

fn scripts_str() -> (r: &'static str)
    ensures
        r@ == scripts_name(),
{
    let r = "scripts";
    proof {
        reveal_strlit("scripts");
    }
    r
}

fn content_str() -> (r: &'static str)
    ensures
        r@ == content_dir_name(),
{
    let r = "content";
    proof {
        reveal_strlit("content");
    }
    r
}

fn workspace_str() -> (r: &'static str)
    ensures
        r@ == workspace_name(),
{
    let r = "workspace";
    proof {
        reveal_strlit("workspace");
    }
    r
}

/// Just a directory that has "scripts" folder inside it, directly or in an intermediary "content" subfolder
pub struct RawContentDirectory {
    pub path: AbsPath,
    pub script_root: AbsPath,
}

/// Directory with a script project manifest.
pub struct ProjectDirectory {
    pub path: AbsPath,
    pub manifest_path: AbsPath,
    pub script_root: AbsPath,
    pub manifest: Manifest,
}

/// Directory of a REDkit project.
pub struct RedkitProjectDirectory {
    pub path: AbsPath,
    pub manifest_path: AbsPath,
    pub script_root: AbsPath,
    pub manifest: redkit::RedkitManifest,
}

/// A directory that contains a "scripts" folder, in one of its three forms.
pub enum Content {
    Raw(RawContentDirectory),
    Project(ProjectDirectory),
    RedkitProject(RedkitProjectDirectory),
}

pub enum ContentScanError {
    Io(FileError<IoError>),
    ManifestRead(FileError<manifest::ManifestError>),
    RedkitManifestRead(FileError<redkit::manifest::Error>),
    /// this is not content directory
    NotContent,
}

/// Name of a raw content: the last component of its path (empty for the
/// root of the file system).
pub open spec fn raw_content_name(path: Seq<Seq<char>>) -> Seq<char> {
    if path.len() > 0 {
        path.last()
    } else {
        Seq::empty()
    }
}

impl Content {
    pub open spec fn path_v(&self) -> Seq<Seq<char>> {
        match self {
            Content::Raw(c) => c.path@,
            Content::Project(c) => c.path@,
            Content::RedkitProject(c) => c.path@,
        }
    }

    pub open spec fn name_v(&self) -> Seq<char> {
        match self {
            Content::Raw(c) => raw_content_name(c.path@),
            Content::Project(c) => c.manifest.content.name@,
            Content::RedkitProject(c) => c.manifest.name@,
        }
    }

    pub open spec fn root_v(&self) -> Seq<Seq<char>> {
        match self {
            Content::Raw(c) => c.script_root@,
            Content::Project(c) => c.script_root@,
            Content::RedkitProject(c) => c.script_root@,
        }
    }

    pub fn path(&self) -> (r: &AbsPath)
        ensures
            r@ == self.path_v(),
    {
        match self {
            Content::Raw(c) => &c.path,
            Content::Project(c) => &c.path,
            Content::RedkitProject(c) => &c.path,
        }
    }

    pub fn content_name(&self) -> (r: &str)
        ensures
            r@ == self.name_v(),
    {
        match self {
            Content::Raw(c) => match c.path.file_name() {
                Some(n) => n.as_str(),
                None => {
                    let e = "";
                    proof {
                        reveal_strlit("");
                    }
                    assert(e@ =~= Seq::<char>::empty());
                    e
                },
            },
            Content::Project(c) => c.manifest.content.name.as_str(),
            Content::RedkitProject(c) => c.manifest.name.as_str(),
        }
    }

    pub fn source_tree_root(&self) -> (r: &AbsPath)
        ensures
            r@ == self.root_v(),
    {
        match self {
            Content::Raw(c) => &c.script_root,
            Content::Project(c) => &c.script_root,
            Content::RedkitProject(c) => &c.script_root,
        }
    }

    pub fn is_project(&self) -> (r: bool)
        ensures
            r == (self is Project),
    {
        match self {
            Content::Project(_) => true,
            _ => false,
        }
    }

    pub fn is_redkit_project(&self) -> (r: bool)
        ensures
            r == (self is RedkitProject),
    {
        match self {
            Content::RedkitProject(_) => true,
            _ => false,
        }
    }
}

/// What the file system shows of one directory, as far as telling whether
/// it is content goes.
pub struct DirectoryProbe {
    /// The outcome of reading `witcherscript.toml` in it, where that file exists.
    pub manifest: Option<Result<Manifest, manifest::ManifestError>>,
    /// The first `.w3edit` file found in it and the outcome of reading it.
    pub redkit_manifest: Option<(AbsPath, Result<redkit::RedkitManifest, redkit::manifest::Error>)>,
    /// Whether it holds a `scripts` entry.
    pub has_scripts: bool,
}

/// What the file system shows of a path that may be content.
pub struct ContentProbe {
    pub path: AbsPath,
    pub exists: bool,
    pub is_dir: bool,
    /// The directory itself.
    pub dir: DirectoryProbe,
    /// Its `content` subdirectory, where that exists.
    pub packed: Option<DirectoryProbe>,
}

/// The project that a directory with a readable manifest makes.
pub open spec fn project_matches(dir: Seq<Seq<char>>, m: Manifest, c: Content) -> bool {
    &&& c is Project
    &&& c->Project_0.path@ == dir
    &&& c->Project_0.manifest_path@ == dir.push(manifest_name())
    &&& c->Project_0.script_root@ == match m.content.scripts_root {
        Some(p) => resolve_spec(p@, dir),
        None => dir.push(scripts_name()),
    }
    &&& c->Project_0.manifest == m
}

/// The outcome of trying a directory as a project: `None` when it has no
/// manifest.
pub open spec fn project_outcome(dir: Seq<Seq<char>>, d: DirectoryProbe, r: Result<Content, ContentScanError>) -> bool {
    match d.manifest {
        Some(Ok(m)) => r is Ok && project_matches(dir, m, r->Ok_0),
        Some(Err(e)) => r is Err && r->Err_0 is ManifestRead
            && r->Err_0->ManifestRead_0.path@ == dir.push(manifest_name())
            && r->Err_0->ManifestRead_0.error == e,
        None => false,
    }
}

pub open spec fn redkit_outcome(dir: Seq<Seq<char>>, d: DirectoryProbe, r: Result<Content, ContentScanError>) -> bool {
    match d.redkit_manifest {
        Some((mp, Ok(m))) => r is Ok && r->Ok_0 is RedkitProject
            && r->Ok_0->RedkitProject_0.path@ == dir
            && r->Ok_0->RedkitProject_0.manifest_path == mp
            && r->Ok_0->RedkitProject_0.script_root@ == dir.push(workspace_name()).push(scripts_name())
            && r->Ok_0->RedkitProject_0.manifest == m,
        Some((mp, Err(e))) => r is Err && r->Err_0 is RedkitManifestRead
            && r->Err_0->RedkitManifestRead_0.path == mp
            && r->Err_0->RedkitManifestRead_0.error == e,
        None => false,
    }
}

/// A raw content found in `dir`: named after `dir`, or after its parent when
/// `dir` is itself called `content`.
pub open spec fn raw_outcome(dir: Seq<Seq<char>>, r: Result<Content, ContentScanError>) -> bool {
    &&& r is Ok
    &&& r->Ok_0 is Raw
    &&& r->Ok_0->Raw_0.script_root@ == dir.push(scripts_name())
    &&& r->Ok_0->Raw_0.path@ == if dir.len() > 0 && dir.last() == content_dir_name() {
        dir.drop_last()
    } else {
        dir
    }
}

pub open spec fn is_not_content(r: Result<Content, ContentScanError>) -> bool {
    r is Err && r->Err_0 is NotContent
}

/// What trying a probed path as content gives: a project manifest wins
/// over a REDkit project file, which wins over a bare `scripts` folder; the
/// `content` subfolder is tried (as project, then as raw content) only when
/// the directory itself is none of these.
pub open spec fn try_make_content_spec(p: ContentProbe, r: Result<Content, ContentScanError>) -> bool {
    if !p.exists {
        r is Err && r->Err_0 is Io && r->Err_0->Io_0.path == p.path && r->Err_0->Io_0.error is NotFound
    } else if !p.is_dir {
        is_not_content(r)
    } else if p.dir.manifest is Some {
        project_outcome(p.path@, p.dir, r)
    } else if p.dir.redkit_manifest is Some {
        redkit_outcome(p.path@, p.dir, r)
    } else if p.dir.has_scripts {
        raw_outcome(p.path@, r)
    } else {
        match p.packed {
            Some(d) => if d.manifest is Some {
                project_outcome(p.path@.push(content_dir_name()), d, r)
            } else if d.has_scripts {
                raw_outcome(p.path@.push(content_dir_name()), r)
            } else {
                is_not_content(r)
            },
            None => is_not_content(r),
        }
    }
}

impl ProjectDirectory {
    pub fn manifest_path(&self) -> (r: &AbsPath)
        ensures
            r == &self.manifest_path,
    {
        &self.manifest_path
    }

    pub fn manifest(&self) -> (r: &Manifest)
        ensures
            r == &self.manifest,
    {
        &self.manifest
    }

    /// Tries `dir` as a project directory.
    pub fn try_from_dir(dir: &AbsPath, probe: DirectoryProbe) -> (r: Result<Content, ContentScanError>)
        ensures
            probe.manifest is Some ==> project_outcome(dir@, probe, r),
            probe.manifest is None ==> is_not_content(r),
    {
        let manifest_path = dir.child(manifest_file_name());
        match probe.manifest {
            Some(Ok(manifest)) => {
                let script_root = match &manifest.content.scripts_root {
                    Some(p) => dir.join(p),
                    None => dir.child(scripts_str()),
                };
                Ok(Content::Project(ProjectDirectory { path: dir.copy(), manifest_path, script_root, manifest }))
            },
            Some(Err(err)) => Err(ContentScanError::ManifestRead(FileError::new(manifest_path, err))),
            None => Err(ContentScanError::NotContent),
        }
    }
}

impl RedkitProjectDirectory {
    pub fn manifest_path(&self) -> (r: &AbsPath)
        ensures
            r == &self.manifest_path,
    {
        &self.manifest_path
    }

    pub fn manifest(&self) -> (r: &redkit::RedkitManifest)
        ensures
            r == &self.manifest,
    {
        &self.manifest
    }

    /// Tries `dir` as a REDkit project directory.
    pub fn try_from_dir(dir: &AbsPath, probe: DirectoryProbe) -> (r: Result<Content, ContentScanError>)
        ensures
            probe.redkit_manifest is Some ==> redkit_outcome(dir@, probe, r),
            probe.redkit_manifest is None ==> is_not_content(r),
    {
        match probe.redkit_manifest {
            Some((manifest_path, Ok(manifest))) => {
                let script_root = dir.child(workspace_str()).child(scripts_str());
                Ok(Content::RedkitProject(RedkitProjectDirectory { path: dir.copy(), manifest_path, script_root, manifest }))
            },
            Some((manifest_path, Err(err))) => Err(ContentScanError::RedkitManifestRead(FileError::new(manifest_path, err))),
            None => Err(ContentScanError::NotContent),
        }
    }
}

impl RawContentDirectory {
    /// Tries `dir` as a raw content directory.
    pub fn try_from_dir(dir: &AbsPath, has_scripts: bool) -> (r: Result<Content, ContentScanError>)
        ensures
            has_scripts ==> raw_outcome(dir@, r),
            !has_scripts ==> is_not_content(r),
    {
        if has_scripts {
            let script_root = dir.child(scripts_str());
            let is_packed = match dir.file_name() {
                Some(n) => crate::paths::str_eq(n.as_str(), content_str()),
                None => false,
            };
            let path = if is_packed {
                match dir.parent() {
                    Some(p) => p,
                    None => dir.copy(),
                }
            } else {
                dir.copy()
            };
            Ok(Content::Raw(RawContentDirectory { path, script_root }))
        } else {
            Err(ContentScanError::NotContent)
        }
    }
}

/// Tells what content, if any, a probed path is.
pub fn try_make_content(probe: ContentProbe) -> (r: Result<Content, ContentScanError>)
    ensures
        try_make_content_spec(probe, r),
{
    let ghost p = probe;
    let ContentProbe { path, exists, is_dir, dir, packed } = probe;
    if !exists {
        return Err(ContentScanError::Io(FileError::new(path, IoError::NotFound)));
    } else if !is_dir {
        return Err(ContentScanError::NotContent);
    }
    if dir.manifest.is_some() {
        return ProjectDirectory::try_from_dir(&path, dir);
    }
    if dir.redkit_manifest.is_some() {
        return RedkitProjectDirectory::try_from_dir(&path, dir);
    }
    if dir.has_scripts {
        return RawContentDirectory::try_from_dir(&path, true);
    }
    match packed {
        Some(d) => {
            let packed_path = path.child(content_str());
            if d.manifest.is_some() {
                ProjectDirectory::try_from_dir(&packed_path, d)
            } else if d.has_scripts {
                RawContentDirectory::try_from_dir(&packed_path, true)
            } else {
                Err(ContentScanError::NotContent)
            }
        },
        None => Err(ContentScanError::NotContent),
    }
}

} // verus!
