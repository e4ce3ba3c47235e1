//! Configuration of the language server and the changes between two of them.

use vstd::prelude::*;
use crate::content::ContentScanError;
use crate::content_scanner::ContentScanner;
use crate::file_error::{FileError, IoError};
use crate::paths::{AbsPath, PathBuf, PathBufView, PathComponent, PathComponentView};

verus! {

/// Configuration needed by the server. The format in both client and server must match!
pub struct Config {
    pub game_directory: PathBuf,
    pub content_repositories: Vec<PathBuf>,
    pub enable_syntax_analysis: bool,
    pub extended_search_for_workspace_symbols: bool,
}

/// Mathematical form of a [`Config`].
pub struct ConfigView {
    pub game_directory: PathBufView,
    pub content_repositories: Seq<PathBufView>,
    pub enable_syntax_analysis: bool,
    pub extended_search_for_workspace_symbols: bool,
}

impl View for Config {
    type V = ConfigView;

    open spec fn view(&self) -> ConfigView {
        ConfigView {
            game_directory: self.game_directory@,
            content_repositories: self.content_repositories@.map_values(|p: PathBuf| p@),
            enable_syntax_analysis: self.enable_syntax_analysis,
            extended_search_for_workspace_symbols: self.extended_search_for_workspace_symbols,
        }
    }
}

impl Default for Config {
    fn default() -> (r: Config)
        ensures
            r@.game_directory.components.len() == 0,
            !r@.game_directory.is_absolute,
            r@.content_repositories.len() == 0,
            !r.enable_syntax_analysis,
            !r.extended_search_for_workspace_symbols,
    {
        Config {
            game_directory: PathBuf { is_absolute: false, components: Vec::new() },
            content_repositories: Vec::new(),
            enable_syntax_analysis: false,
            extended_search_for_workspace_symbols: false,
        }
    }
}

/// Which settings differ between two configurations.
#[derive(Clone, Copy, Debug, PartialEq, Eq, Structural)]
pub struct ConfigDifference {
    pub game_directory_changed: bool,
    pub content_repositories_changed: bool,
    pub enable_syntax_analysis_changed: bool,
    pub extended_search_for_workspace_symbols_changed: bool,
}

impl Default for ConfigDifference {
    fn default() -> (r: ConfigDifference)
        ensures
            !r.any_changed_spec(),
    {
        ConfigDifference {
            game_directory_changed: false,
            content_repositories_changed: false,
            enable_syntax_analysis_changed: false,
            extended_search_for_workspace_symbols_changed: false,
        }
    }
}

/// The difference between two configurations, setting by setting.
pub open spec fn difference_spec(old: ConfigView, new: ConfigView) -> ConfigDifference {
    ConfigDifference {
        game_directory_changed: old.game_directory != new.game_directory,
        content_repositories_changed: old.content_repositories != new.content_repositories,
        enable_syntax_analysis_changed: old.enable_syntax_analysis != new.enable_syntax_analysis,
        extended_search_for_workspace_symbols_changed: old.extended_search_for_workspace_symbols
            != new.extended_search_for_workspace_symbols,
    }
}

fn paths_eq(a: &Vec<PathBuf>, b: &Vec<PathBuf>) -> (r: bool)
    ensures
        r == (a@.map_values(|p: PathBuf| p@) == b@.map_values(|p: PathBuf| p@)),
{
    let ghost va = a@.map_values(|p: PathBuf| p@);
    let ghost vb = b@.map_values(|p: PathBuf| p@);
    if a.len() != b.len() {
        assert(va.len() != vb.len());
        return false;
    }
    let mut i: usize = 0;
    while i < a.len()
        invariant
            a@.len() == b@.len(),
            i <= a@.len(),
            va == a@.map_values(|p: PathBuf| p@),
            vb == b@.map_values(|p: PathBuf| p@),
            forall|j: int| 0 <= j < i ==> va[j] == vb[j],
        decreases a@.len() - i,
    {
        if !a[i].eq(&b[i]) {
            assert(va[i as int] != vb[i as int]);
            return false;
        }
        i = i + 1;
    }
    assert(va =~= vb);
    true
}

impl ConfigDifference {
    pub open spec fn any_changed_spec(&self) -> bool {
        self.game_directory_changed || self.content_repositories_changed || self.enable_syntax_analysis_changed
            || self.extended_search_for_workspace_symbols_changed
    }

    pub fn from_comparison(old_config: &Config, new_config: &Config) -> (r: ConfigDifference)
        ensures
            r == difference_spec(old_config@, new_config@),
    {
        ConfigDifference {
            game_directory_changed: !old_config.game_directory.eq(&new_config.game_directory),
            content_repositories_changed: !paths_eq(&old_config.content_repositories, &new_config.content_repositories),
            enable_syntax_analysis_changed: old_config.enable_syntax_analysis != new_config.enable_syntax_analysis,
            extended_search_for_workspace_symbols_changed: old_config.extended_search_for_workspace_symbols
                != new_config.extended_search_for_workspace_symbols,
        }
    }

    pub fn any_changed(&self) -> (r: bool)
        ensures
            r == self.any_changed_spec(),
    {
        self.game_directory_changed || self.content_repositories_changed || self.enable_syntax_analysis_changed
            || self.extended_search_for_workspace_symbols_changed
    }
}


/// A path with nothing written in it.
pub open spec fn is_empty_path(p: PathBufView) -> bool {
    !p.is_absolute && p.components.len() == 0
}

/// `p` with one more normal component.
pub open spec fn joined(p: PathBufView, name: Seq<char>) -> PathBufView {
    PathBufView { components: p.components.push(PathComponentView::Normal(name)), ..p }
}

/// The non-empty paths of `ps`, in order.
pub open spec fn non_empty_paths(ps: Seq<PathBufView>) -> Seq<PathBufView>
    decreases ps.len(),
{
    if ps.len() == 0 {
        Seq::empty()
    } else {
        let r = non_empty_paths(ps.drop_last());
        if is_empty_path(ps.last()) {
            r
        } else {
            r.push(ps.last())
        }
    }
}

/// Where contents are looked for: the configured repositories and, where a
/// game directory is set, its `content` and `Mods` folders; empty paths left
/// out.
pub open spec fn repository_paths_spec(c: ConfigView) -> Seq<PathBufView> {
    non_empty_paths(
        c.content_repositories + if is_empty_path(c.game_directory) {
            Seq::empty()
        } else {
            seq![joined(c.game_directory, "content"@), joined(c.game_directory, "Mods"@)]
        },
    )
}

fn join_name(p: &PathBuf, name: &str) -> (r: PathBuf)
    ensures
        r@ == joined(p@, name@),
{
    let mut r = p.copy();
    r.components.push(PathComponent::Normal(name.to_string()));
    assert(r@.components =~= p@.components.push(PathComponentView::Normal(name@)));
    r
}

/// The content repositories that the configuration names.
pub fn repository_paths(config: &Config) -> (r: Vec<PathBuf>)
    ensures
        r@.map_values(|p: PathBuf| p@) == repository_paths_spec(config@),
{
    let mut all: Vec<PathBuf> = Vec::new();
    let mut i: usize = 0;
    while i < config.content_repositories.len()
        invariant
            i <= config.content_repositories@.len(),
            all@.len() == i,
            forall|j: int| 0 <= j < i ==> (#[trigger] all@[j])@ == config.content_repositories@[j]@,
        decreases config.content_repositories@.len() - i,
    {
        all.push(config.content_repositories[i].copy());
        i = i + 1;
    }
    assert(all@.map_values(|p: PathBuf| p@) =~= config@.content_repositories);
    let g = &config.game_directory;
    if g.is_absolute || g.components.len() > 0 {
        let ghost before = all@.map_values(|p: PathBuf| p@);
        all.push(join_name(g, "content"));
        all.push(join_name(g, "Mods"));
        assert(all@.map_values(|p: PathBuf| p@) =~= before + seq![joined(g@, "content"@), joined(g@, "Mods"@)]);
    } else {
        assert(config@.content_repositories + Seq::<PathBufView>::empty() =~= config@.content_repositories);
    }
    let ghost av = all@.map_values(|p: PathBuf| p@);
    let mut r: Vec<PathBuf> = Vec::new();
    let mut k: usize = 0;
    while k < all.len()
        invariant
            k <= all@.len(),
            av == all@.map_values(|p: PathBuf| p@),
            r@.map_values(|p: PathBuf| p@) == non_empty_paths(av.take(k as int)),
        decreases all@.len() - k,
    {
        assert(av.take(k + 1).drop_last() =~= av.take(k as int));
        let p = &all[k];
        if p.is_absolute || p.components.len() > 0 {
            let ghost before = r@.map_values(|p: PathBuf| p@);
            r.push(p.copy());
            assert(r@.map_values(|p: PathBuf| p@) =~= before.push(av[k as int]));
        }
        k = k + 1;
    }
    assert(av.take(av.len() as int) =~= av);
    r
}

/// A candidate content repository as the file system shows it: the
/// absolute path it resolved to, if it did, and whether a directory is
/// there.
pub struct RepositoryProbe {
    pub resolved: Option<AbsPath>,
    pub is_dir: bool,
}

/// What becomes of one candidate content repository.
pub enum RepositorySetup {
    /// It is scanned, for contents of any kind, not recursively.
    Scanner(ContentScanner),
    /// It could not be scanned.
    ScanError(ContentScanError),
    /// Its path could not be resolved.
    InvalidPath(PathBuf),
}

/// No content repository is configured: no repository path and no game
/// directory.
pub open spec fn no_repositories(c: ConfigView) -> bool {
    c.content_repositories.len() == 0 && is_empty_path(c.game_directory)
}

/// What one candidate repository, whose path reads `path`, becomes.
pub open spec fn repository_setup_spec(path: PathBufView, probe: RepositoryProbe, r: RepositorySetup) -> bool {
    match probe.resolved {
        None => r is InvalidPath && r->InvalidPath_0@ == path,
        Some(p) => if probe.is_dir {
            r == RepositorySetup::Scanner(ContentScanner { scan_root: p, recursive: false, only_projects: false })
        } else {
            r == RepositorySetup::ScanError(ContentScanError::Io(FileError { path: p, error: IoError::NotFound }))
        },
    }
}

/// How the repository scanners are set up: `None` where no repository is
/// configured (the server then warns); otherwise, for each path of
/// [`repository_paths`] in order, a scanner where it resolved to a
/// directory, the scanner's error where it resolved to something else, and
/// the path itself where it did not resolve. `probes` tells, for each of
/// those paths in order, what the file system showed.
pub fn repository_setup(config: &Config, probes: Vec<RepositoryProbe>) -> (r: Option<Vec<RepositorySetup>>)
    requires
        probes@.len() == repository_paths_spec(config@).len(),
    ensures
        r is None <==> no_repositories(config@),
        r is Some ==> r->0@.len() == probes@.len() && forall|i: int|
            0 <= i < probes@.len() ==> repository_setup_spec(
                repository_paths_spec(config@)[i],
                #[trigger] probes@[i],
                r->0@[i],
            ),
{
    let g = &config.game_directory;
    if config.content_repositories.len() == 0 && !(g.is_absolute || g.components.len() > 0) {
        return None;
    }
    let paths = repository_paths(config);
    let ghost pv = repository_paths_spec(config@);
    let ghost orig = probes@;
    let mut probes = probes;
    let mut r: Vec<RepositorySetup> = Vec::new();
    let mut i: usize = 0;
    while i < paths.len()
        invariant
            paths@.map_values(|p: PathBuf| p@) == pv,
            orig.len() == pv.len(),
            i <= pv.len(),
            probes@ == orig.subrange(i as int, orig.len() as int),
            r@.len() == i,
            forall|j: int| 0 <= j < i ==> repository_setup_spec(pv[j], #[trigger] orig[j], r@[j]),
        decreases pv.len() - i,
    {
        assert(probes@[0] == orig[i as int]);
        let probe = probes.remove(0);
        assert(probes@ =~= orig.subrange(i + 1, orig.len() as int));
        assert(pv[i as int] == paths@[i as int]@);
        let item = match probe.resolved {
            None => RepositorySetup::InvalidPath(paths[i].copy()),
            Some(p) => match ContentScanner::new(p, probe.is_dir) {
                Ok(scanner) => RepositorySetup::Scanner(scanner),
                Err(e) => RepositorySetup::ScanError(e),
            },
        };
        r.push(item);
        i = i + 1;
    }
    Some(r)
}

/// Comparing two configurations reports a change exactly when they differ.
pub proof fn lemma_any_changed_iff_differ(old: ConfigView, new: ConfigView)
    ensures
        difference_spec(old, new).any_changed_spec() <==> old != new,
{
}

} // verus!
