//! Creating projects.

use vstd::prelude::*;
use crate::content::vanilla_content_name;
use crate::content::vanilla_name;
use crate::content_graph::{ContentGraph, GraphEdgeDirection, GraphNode, has_path, is_first_with_path};
use crate::content_graph::walk::{reachable, walk_order, walk_result};
use crate::manifest::{Manifest, valid_content_name};
use crate::messaging::custom_methods::vanilla_dependency_entry;
use crate::paths::{AbsPath, str_eq};

verus! {

/// The manifest text of a new project with the given name and scripts root.
pub open spec fn manifest_template_text(project_name: Seq<char>, scripts_root: Seq<char>) -> Seq<char> {
    "# Basic information about this project\n[content]\nname = \""@ + project_name
        + "\"\ndescription = \"\"\nversion = \"1.0.0\"\nauthors = []\ngame_version = \"4.04\"\nscripts_root = \""@
        + scripts_root
        + "\"\n\n# Any dependencies that this project might need\n[dependencies]\ncontent0 = true\n\n# For details check the manual\n# https://spontancombust.github.io/witcherscript-ide/user-manual/project-system/#manifest-format\n"@
}

/// A new project depends on the vanilla content: whatever its name and
/// scripts root, the template's `[dependencies]` table starts with
/// `content0 = true`.
pub proof fn lemma_template_depends_on_vanilla(project_name: Seq<char>, scripts_root: Seq<char>)
    ensures
        exists|i: int|
            0 <= i && i + vanilla_dependency_entry().len() <= manifest_template_text(project_name, scripts_root).len()
                && #[trigger] manifest_template_text(project_name, scripts_root).subrange(
                i,
                i + vanilla_dependency_entry().len(),
            ) == vanilla_dependency_entry(),
{
    reveal_strlit("# Basic information about this project\n[content]\nname = \"");
    reveal_strlit("\"\ndescription = \"\"\nversion = \"1.0.0\"\nauthors = []\ngame_version = \"4.04\"\nscripts_root = \"");
    reveal_strlit("\"\n\n# Any dependencies that this project might need\n[dependencies]\ncontent0 = true\n\n# For details check the manual\n# https://spontancombust.github.io/witcherscript-ide/user-manual/project-system/#manifest-format\n");
    let head = "# Basic information about this project\n[content]\nname = \""@;
    let middle = "\"\ndescription = \"\"\nversion = \"1.0.0\"\nauthors = []\ngame_version = \"4.04\"\nscripts_root = \""@;
    let tail = "\"\n\n# Any dependencies that this project might need\n[dependencies]\ncontent0 = true\n\n# For details check the manual\n# https://spontancombust.github.io/witcherscript-ide/user-manual/project-system/#manifest-format\n"@;
    let text = manifest_template_text(project_name, scripts_root);
    assert(text == head + project_name + middle + scripts_root + tail);
    let i: int = (head.len() + project_name.len() + middle.len() + scripts_root.len() + 50) as int;
    assert(tail.subrange(50, 82) =~= vanilla_dependency_entry());
    assert(text.subrange(i, i + 32) =~= tail.subrange(50, 82));
}

/// Text of the manifest of a new project.
pub fn manifest_template(project_name: &str, scripts_root: &str) -> (r: String)
    ensures
        r@ == manifest_template_text(project_name@, scripts_root@),
{
    let mut text = String::from_str("# Basic information about this project\n[content]\nname = \"");
    text.append(project_name);
    text.append("\"\ndescription = \"\"\nversion = \"1.0.0\"\nauthors = []\ngame_version = \"4.04\"\nscripts_root = \"");
    text.append(scripts_root);
    text.append("\"\n\n# Any dependencies that this project might need\n[dependencies]\ncontent0 = true\n\n# For details check the manual\n# https://spontancombust.github.io/witcherscript-ide/user-manual/project-system/#manifest-format\n");
    text
}


/// Where a new project's scripts go, relative to its directory, in the
/// order they are tried.
pub open spec fn scripts_root_candidate_text(i: int) -> Seq<char> {
    if i == 0 {
        "scripts"@
    } else if i == 1 {
        "content/scripts"@
    } else {
        "workspace/scripts"@
    }
}

/// The `i`-th place tried for a new project's scripts.
pub fn scripts_root_candidate(i: usize) -> (r: &'static str)
    requires
        i < 3,
    ensures
        r@ == scripts_root_candidate_text(i as int),
{
    if i == 0 {
        "scripts"
    } else if i == 1 {
        "content/scripts"
    } else {
        "workspace/scripts"
    }
}

/// Index of the first candidate scripts root that exists, or 0 where none
/// does.
pub open spec fn first_existing_root(exists: Seq<bool>) -> int {
    if exists[0] {
        0
    } else if exists[1] {
        1
    } else if exists[2] {
        2
    } else {
        0
    }
}

/// The first candidate scripts root that exists, or the first one where
/// none does (it then gets created).
pub fn pick_scripts_root(exists: &Vec<bool>) -> (r: usize)
    requires
        exists@.len() == 3,
    ensures
        r < 3,
        exists@[r as int] || r == 0,
        (exists|i: int| 0 <= i < 3 && exists@[i]) ==> exists@[r as int],
        forall|i: int| 0 <= i < r ==> !exists@[i],
        (forall|i: int| 0 <= i < 3 ==> !exists@[i]) ==> r == 0,
        r == first_existing_root(exists@),
{
    let mut i: usize = 0;
    while i < 3 && !exists[i]
        invariant
            exists@.len() == 3,
            i <= 3,
            forall|j: int| 0 <= j < i ==> !exists@[j],
        decreases 3 - i,
    {
        i = i + 1;
    }
    if i == 3 {
        0
    } else {
        i
    }
}

/// Why a project could not be created.
#[derive(Clone, Copy, Debug, PartialEq, Eq, Structural)]
pub enum CreateProjectError {
    /// The chosen directory does not exist.
    DirectoryMissing,
    /// Script project already exists in the chosen directory.
    AlreadyExists,
    /// The scripts directory could not be created.
    ScriptsRootNotCreated,
    /// The manifest file could not be created.
    ManifestNotCreated,
    /// Name of the project is invalid.
    InvalidName,
    /// The manifest could not be written.
    ManifestNotWritten,
}

impl CreateProjectError {
    /// The code that the error is answered with.
    pub fn code(&self) -> (r: i64)
        ensures
            r == match self {
                CreateProjectError::DirectoryMissing => -1000,
                CreateProjectError::AlreadyExists => -1001,
                CreateProjectError::ScriptsRootNotCreated => -1002,
                CreateProjectError::ManifestNotCreated => -1003,
                CreateProjectError::InvalidName => -1004,
                CreateProjectError::ManifestNotWritten => -1005,
            },
    {
        match self {
            CreateProjectError::DirectoryMissing => -1000,
            CreateProjectError::AlreadyExists => -1001,
            CreateProjectError::ScriptsRootNotCreated => -1002,
            CreateProjectError::ManifestNotCreated => -1003,
            CreateProjectError::InvalidName => -1004,
            CreateProjectError::ManifestNotWritten => -1005,
        }
    }
}

/// What the file system has shown so far while a project is created in a
/// directory. An outcome not known yet is `None`.
pub struct CreateProjectProgress {
    /// Whether the chosen directory exists.
    pub dir_exists: bool,
    /// Whether a manifest is already in it.
    pub manifest_exists: bool,
    /// Whether each candidate scripts root exists, in the order tried.
    pub roots_exist: Vec<bool>,
    /// Whether the scripts root was created, where it had to be.
    pub root_created: Option<bool>,
    /// Whether the manifest file was created.
    pub manifest_created: Option<bool>,
    /// Whether the manifest text was written.
    pub manifest_written: Option<bool>,
}

/// What creating a project does next.
pub enum CreateProjectAction {
    /// Create the scripts root: the candidate at this index.
    CreateScriptsRoot { root: usize },
    /// Create the manifest file.
    CreateManifest,
    /// Write this text into the manifest file.
    WriteManifest { text: String },
    /// The project was created.
    Finished,
    /// The project could not be created.
    Failed(CreateProjectError),
}

/// [`CreateProjectAction`] with its text as characters.
pub enum CreateProjectActionView {
    CreateScriptsRoot { root: usize },
    CreateManifest,
    WriteManifest { text: Seq<char> },
    Finished,
    Failed(CreateProjectError),
}

impl View for CreateProjectAction {
    type V = CreateProjectActionView;

    open spec fn view(&self) -> CreateProjectActionView {
        match self {
            CreateProjectAction::CreateScriptsRoot { root } => CreateProjectActionView::CreateScriptsRoot { root: *root },
            CreateProjectAction::CreateManifest => CreateProjectActionView::CreateManifest,
            CreateProjectAction::WriteManifest { text } => CreateProjectActionView::WriteManifest { text: text@ },
            CreateProjectAction::Finished => CreateProjectActionView::Finished,
            CreateProjectAction::Failed(e) => CreateProjectActionView::Failed(*e),
        }
    }
}

/// The next step of creating a project named `name`, in the order the
/// server takes them: the directory must exist and hold no manifest; the
/// scripts root (the first candidate that exists, else the first one) is
/// created where missing; the manifest file is created; the name is
/// checked; the manifest text is written.
pub open spec fn create_project_next_spec(
    dir_exists: bool,
    manifest_exists: bool,
    roots_exist: Seq<bool>,
    root_created: Option<bool>,
    manifest_created: Option<bool>,
    manifest_written: Option<bool>,
    name: Seq<char>,
) -> CreateProjectActionView {
    let root = first_existing_root(roots_exist);
    if !dir_exists {
        CreateProjectActionView::Failed(CreateProjectError::DirectoryMissing)
    } else if manifest_exists {
        CreateProjectActionView::Failed(CreateProjectError::AlreadyExists)
    } else if !roots_exist[root] && root_created is None {
        CreateProjectActionView::CreateScriptsRoot { root: root as usize }
    } else if !roots_exist[root] && root_created == Some(false) {
        CreateProjectActionView::Failed(CreateProjectError::ScriptsRootNotCreated)
    } else if manifest_created is None {
        CreateProjectActionView::CreateManifest
    } else if manifest_created == Some(false) {
        CreateProjectActionView::Failed(CreateProjectError::ManifestNotCreated)
    } else if !valid_content_name(name) {
        CreateProjectActionView::Failed(CreateProjectError::InvalidName)
    } else if manifest_written is None {
        CreateProjectActionView::WriteManifest {
            text: manifest_template_text(name, scripts_root_candidate_text(root)),
        }
    } else if manifest_written == Some(false) {
        CreateProjectActionView::Failed(CreateProjectError::ManifestNotWritten)
    } else {
        CreateProjectActionView::Finished
    }
}

/// The next step of creating a project named `name`, from what the file
/// system has shown so far.
pub fn create_project_next(progress: &CreateProjectProgress, name: &str) -> (r: CreateProjectAction)
    requires
        progress.roots_exist@.len() == 3,
    ensures
        r@ == create_project_next_spec(
            progress.dir_exists,
            progress.manifest_exists,
            progress.roots_exist@,
            progress.root_created,
            progress.manifest_created,
            progress.manifest_written,
            name@,
        ),
{
    if !progress.dir_exists {
        return CreateProjectAction::Failed(CreateProjectError::DirectoryMissing);
    }
    if progress.manifest_exists {
        return CreateProjectAction::Failed(CreateProjectError::AlreadyExists);
    }
    let root = pick_scripts_root(&progress.roots_exist);
    if !progress.roots_exist[root] {
        match progress.root_created {
            None => {
                return CreateProjectAction::CreateScriptsRoot { root };
            },
            Some(false) => {
                return CreateProjectAction::Failed(CreateProjectError::ScriptsRootNotCreated);
            },
            Some(true) => {},
        }
    }
    match progress.manifest_created {
        None => {
            return CreateProjectAction::CreateManifest;
        },
        Some(false) => {
            return CreateProjectAction::Failed(CreateProjectError::ManifestNotCreated);
        },
        Some(true) => {},
    }
    if !Manifest::validate_content_name(name) {
        return CreateProjectAction::Failed(CreateProjectError::InvalidName);
    }
    match progress.manifest_written {
        None => CreateProjectAction::WriteManifest { text: manifest_template(name, scripts_root_candidate(root)) },
        Some(false) => CreateProjectAction::Failed(CreateProjectError::ManifestNotWritten),
        Some(true) => CreateProjectAction::Finished,
    }
}

/// What a request reports of a content.
pub struct ContentInfo {
    pub content_path: AbsPath,
    pub scripts_root_path: AbsPath,
    pub content_name: String,
    pub is_in_workspace: bool,
    pub is_in_repository: bool,
}

/// `info` tells of node `n`.
pub open spec fn info_of(info: ContentInfo, n: GraphNode) -> bool {
    &&& info.content_path@ == n.path_v()
    &&& info.scripts_root_path@ == n.content.root_v()
    &&& info.content_name@ == n.name_v()
    &&& info.is_in_workspace == n.in_workspace
    &&& info.is_in_repository == n.in_repository
}

pub fn content_info(n: &GraphNode) -> (r: ContentInfo)
    ensures
        info_of(r, *n),
{
    ContentInfo {
        content_path: n.content.path().copy(),
        scripts_root_path: n.content.source_tree_root().copy(),
        content_name: n.content.content_name().to_owned(),
        is_in_workspace: n.in_workspace,
        is_in_repository: n.in_repository,
    }
}

/// The nodes that a project list shows: those of the workspace only,
/// unless asked otherwise.
pub open spec fn listed_nodes(nodes: Seq<GraphNode>, only_from_workspace: bool) -> Seq<GraphNode>
    decreases nodes.len(),
{
    if nodes.len() == 0 {
        Seq::empty()
    } else {
        let r = listed_nodes(nodes.drop_last(), only_from_workspace);
        if only_from_workspace && !nodes.last().in_workspace {
            r
        } else {
            r.push(nodes.last())
        }
    }
}

/// The contents of the graph, by default those of the workspace only.
pub fn project_list(graph: &ContentGraph, only_from_workspace: Option<bool>) -> (r: Vec<ContentInfo>)
    ensures
        r@.len() == listed_nodes(graph.nodes@, only_from_workspace.unwrap_or(true)).len(),
        forall|i: int| 0 <= i < r@.len() ==> info_of(#[trigger] r@[i], listed_nodes(graph.nodes@, only_from_workspace.unwrap_or(true))[i]),
{
    let only = match only_from_workspace {
        Some(b) => b,
        None => true,
    };
    let ghost nodes = graph.nodes@;
    let mut r: Vec<ContentInfo> = Vec::new();
    let mut i: usize = 0;
    while i < graph.nodes.len()
        invariant
            i <= nodes.len(),
            nodes == graph.nodes@,
            only == only_from_workspace.unwrap_or(true),
            r@.len() == listed_nodes(nodes.take(i as int), only).len(),
            forall|k: int| 0 <= k < r@.len() ==> info_of(#[trigger] r@[k], listed_nodes(nodes.take(i as int), only)[k]),
        decreases nodes.len() - i,
    {
        assert(nodes.take(i + 1).drop_last() =~= nodes.take(i as int));
        let n = &graph.nodes[i];
        if !(only && !n.in_workspace) {
            r.push(content_info(n));
        }
        i = i + 1;
    }
    assert(nodes.take(nodes.len() as int) =~= nodes);
    r
}

/// Why a project's vanilla dependency could not be told.
#[derive(Clone, Copy, Debug, PartialEq, Eq, Structural)]
pub enum VanillaDependencyError {
    /// The project is absent from the content graph
    ProjectNotInGraph,
    /// Project does not depend on content0
    NoVanillaDependency,
}

impl VanillaDependencyError {
    pub fn code(&self) -> (r: i64)
        ensures
            r == match self {
                VanillaDependencyError::ProjectNotInGraph => -1030,
                VanillaDependencyError::NoVanillaDependency => -1031,
            },
    {
        match self {
            VanillaDependencyError::ProjectNotInGraph => -1030,
            VanillaDependencyError::NoVanillaDependency => -1031,
        }
    }
}

/// Position in `ws` of the last node named content0, or -1.
pub open spec fn last_vanilla(nodes: Seq<GraphNode>, ws: Seq<usize>) -> int
    decreases ws.len(),
{
    if ws.len() == 0 {
        -1
    } else if nodes[ws.last() as int].name_v() == vanilla_name() {
        ws.len() - 1
    } else {
        last_vanilla(nodes, ws.drop_last())
    }
}

/// The vanilla content (content0) among the direct or indirect
/// dependencies of the project at `project_path`.
pub fn vanilla_dependency_content(graph: &ContentGraph, project_path: &AbsPath) -> (r: Result<ContentInfo, VanillaDependencyError>)
    requires
        graph.well_formed(),
    ensures
        !has_path(graph.nodes@, project_path@) ==> r == Err::<ContentInfo, VanillaDependencyError>(VanillaDependencyError::ProjectNotInGraph),
        forall|idx: int| #[trigger] is_first_with_path(graph.nodes@, project_path@, idx) ==> {
            &&& r is Ok <==> exists|b: int|
                0 <= b < graph.nodes@.len() && b != idx && reachable(graph.edges@, GraphEdgeDirection::Dependencies, idx, b) && (#[trigger] graph.nodes@[b]).name_v() == vanilla_name()
            &&& r is Err ==> r == Err::<ContentInfo, VanillaDependencyError>(VanillaDependencyError::NoVanillaDependency)
            &&& r is Ok ==> exists|b: int|
                0 <= b < graph.nodes@.len() && b != idx && reachable(graph.edges@, GraphEdgeDirection::Dependencies, idx, b) && info_of(r->Ok_0, #[trigger] graph.nodes@[b])
                    && graph.nodes@[b].name_v() == vanilla_name()
        },
        // of several, the last that the walk over the dependencies meets
        r is Ok ==> ({
            let ws = walk_order(graph.nodes@, graph.edges@, project_path@, GraphEdgeDirection::Dependencies);
            info_of(r->Ok_0, graph.nodes@[ws[last_vanilla(graph.nodes@, ws)] as int])
        }),
{
    if graph.get_node_by_path(project_path).is_none() {
        return Err(VanillaDependencyError::ProjectNotInGraph);
    }
    let it = graph.walk_dependencies(project_path);
    let indices = it.indices();
    let ghost ws = indices@;
    assert(walk_result(graph.nodes@, graph.edges@, project_path@, GraphEdgeDirection::Dependencies, ws));
    let mut found: Option<usize> = None;
    let mut k: usize = 0;
    while k < indices.len()
        invariant
            k <= ws.len(),
            indices@ == ws,
            walk_result(graph.nodes@, graph.edges@, project_path@, GraphEdgeDirection::Dependencies, ws),
            forall|q: int| 0 <= q < ws.len() ==> #[trigger] ws[q] < graph.nodes@.len(),
            ws == walk_order(graph.nodes@, graph.edges@, project_path@, GraphEdgeDirection::Dependencies),
            match found {
                Some(j) => j < ws.len() && graph.nodes@[ws[j as int] as int].name_v() == vanilla_name()
                    && j as int == last_vanilla(graph.nodes@, ws.take(k as int)),
                None => forall|q: int| 0 <= q < k ==> graph.nodes@[(#[trigger] ws[q]) as int].name_v() != vanilla_name(),
            },
            found is None ==> last_vanilla(graph.nodes@, ws.take(k as int)) == -1,
        decreases ws.len() - k,
    {
        assert(ws.take(k + 1).drop_last() =~= ws.take(k as int));
        if str_eq(graph.nodes[indices[k]].content.content_name(), vanilla_content_name()) {
            found = Some(k);
        }
        k = k + 1;
    }
    assert(ws.take(ws.len() as int) =~= ws);
    match found {
        Some(j) => {
            let info = content_info(&graph.nodes[indices[j]]);
            proof {
                assert forall|idx: int| #[trigger] is_first_with_path(graph.nodes@, project_path@, idx) implies exists|b: int|
                    0 <= b < graph.nodes@.len() && b != idx && reachable(graph.edges@, GraphEdgeDirection::Dependencies, idx, b) && info_of(info, #[trigger] graph.nodes@[b])
                        && graph.nodes@[b].name_v() == vanilla_name() by {
                    let b = ws[j as int] as int;
                    assert(reachable(graph.edges@, GraphEdgeDirection::Dependencies, idx, ws[j as int] as int));
                    assert(b != idx);
                }
            }
            Ok(info)
        },
        None => {
            proof {
                assert forall|idx: int, b: int|
                    #[trigger] is_first_with_path(graph.nodes@, project_path@, idx) && b != idx && reachable(graph.edges@, GraphEdgeDirection::Dependencies, idx, b)
                    implies (#[trigger] graph.nodes@[b]).name_v() != vanilla_name() by {
                    assert(crate::content_graph::walk::holds(ws, b));
                }
            }
            Err(VanillaDependencyError::NoVanillaDependency)
        },
    }
}

} // verus!
