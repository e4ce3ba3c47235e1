//! Paths as sequences of components.
//!
//! An absolute path is the list of its normal components, counted from the
//! root of the file system (a drive prefix, where there is one, is its first
//! component). A path as written by a user (for example in a manifest) may be
//! relative and may hold `.` and `..` components; resolving it against an
//! absolute base gives an absolute path.

use vstd::prelude::*;

verus! {

/// One component of a path as it was written.
#[derive(Clone, Debug)]
pub enum PathComponent {
    /// `.`
    CurDir,
    /// `..`
    ParentDir,
    /// Any other component.
    Normal(String),
}

/// Mathematical form of a [`PathComponent`].
pub enum PathComponentView {
    CurDir,
    ParentDir,
    Normal(Seq<char>),
}

impl View for PathComponent {
    type V = PathComponentView;

    open spec fn view(&self) -> PathComponentView {
        match self {
            PathComponent::CurDir => PathComponentView::CurDir,
            PathComponent::ParentDir => PathComponentView::ParentDir,
            PathComponent::Normal(s) => PathComponentView::Normal(s@),
        }
    }
}

impl PathComponent {
    pub fn copy(&self) -> (r: PathComponent)
        ensures
            r@ == self@,
    {
        match self {
            PathComponent::CurDir => PathComponent::CurDir,
            PathComponent::ParentDir => PathComponent::ParentDir,
            PathComponent::Normal(s) => PathComponent::Normal(s.clone()),
        }
    }
}

/// A path as written: absolute or relative, possibly with `.` and `..`.
#[derive(Clone, Debug)]
pub struct PathBuf {
    pub is_absolute: bool,
    pub components: Vec<PathComponent>,
}

/// Mathematical form of a [`PathBuf`].
pub struct PathBufView {
    pub is_absolute: bool,
    pub components: Seq<PathComponentView>,
}

impl View for PathBuf {
    type V = PathBufView;

    open spec fn view(&self) -> PathBufView {
        PathBufView {
            is_absolute: self.is_absolute,
            components: self.components@.map_values(|c: PathComponent| c@),
        }
    }
}

/// An absolute path: the normal components from the root on.
pub struct AbsPath {
    pub components: Vec<String>,
}

impl View for AbsPath {
    type V = Seq<Seq<char>>;

    open spec fn view(&self) -> Seq<Seq<char>> {
        self.components@.map_values(|s: String| s@)
    }
}

/// The effect of one written component on an absolute path: `.` keeps it,
/// `..` goes to the parent (the root stays the root), any other component
/// descends into it.
pub open spec fn step_component(acc: Seq<Seq<char>>, c: PathComponentView) -> Seq<Seq<char>> {
    match c {
        PathComponentView::CurDir => acc,
        PathComponentView::ParentDir => if acc.len() > 0 {
            acc.drop_last()
        } else {
            acc
        },
        PathComponentView::Normal(n) => acc.push(n),
    }
}

/// Applies written components one after another, from the first on.
pub open spec fn apply_components(
    acc: Seq<Seq<char>>,
    cs: Seq<PathComponentView>,
) -> Seq<Seq<char>>
    decreases cs.len(),
{
    if cs.len() == 0 {
        acc
    } else {
        step_component(apply_components(acc, cs.drop_last()), cs.last())
    }
}

/// The absolute path that `path` names when read from the directory `base`.
pub open spec fn resolve_spec(path: PathBufView, base: Seq<Seq<char>>) -> Seq<Seq<char>> {
    apply_components(
        if path.is_absolute {
            Seq::empty()
        } else {
            base
        },
        path.components,
    )
}

/// Component-wise prefix relation between absolute paths.
pub open spec fn is_path_prefix(prefix: Seq<Seq<char>>, path: Seq<Seq<char>>) -> bool {
    prefix.len() <= path.len() && path.subrange(0, prefix.len() as int) == prefix
}

pub fn str_eq(a: &str, b: &str) -> (r: bool)
    ensures
        r == (a@ == b@),
{
    let la = a.unicode_len();
    let lb = b.unicode_len();
    if la != lb {
        return false;
    }
    let mut i: usize = 0;
    while i < la
        invariant
            la == a@.len(),
            lb == b@.len(),
            la == lb,
            i <= la,
            forall|j: int| 0 <= j < i ==> a@[j] == b@[j],
        decreases la - i,
    {
        if a.get_char(i) != b.get_char(i) {
            return false;
        }
        i = i + 1;
    }
    assert(a@ =~= b@);
    true
}

pub fn clone_strings(v: &Vec<String>) -> (r: Vec<String>)
    ensures
        r@.map_values(|s: String| s@) == v@.map_values(|s: String| s@),
        r@.len() == v@.len(),
{
    let mut r: Vec<String> = Vec::new();
    let mut i: usize = 0;
    while i < v.len()
        invariant
            i <= v.len(),
            r@.len() == i,
            forall|j: int| 0 <= j < i ==> #[trigger] r@[j]@ == v@[j]@,
        decreases v.len() - i,
    {
        r.push(v[i].clone());
        i = i + 1;
    }
    assert(r@.map_values(|s: String| s@) =~= v@.map_values(|s: String| s@));
    r
}

impl PathComponent {
    /// Compares two components.
    pub fn same(&self, other: &PathComponent) -> (r: bool)
        ensures
            r == (self@ == other@),
    {
        match (self, other) {
            (PathComponent::CurDir, PathComponent::CurDir) => true,
            (PathComponent::ParentDir, PathComponent::ParentDir) => true,
            (PathComponent::Normal(a), PathComponent::Normal(b)) => str_eq(a.as_str(), b.as_str()),
            _ => false,
        }
    }
}

impl PathBuf {
    /// Compares two paths component by component.
    pub fn eq(&self, other: &PathBuf) -> (r: bool)
        ensures
            r == (self@ == other@),
    {
        if self.is_absolute != other.is_absolute {
            return false;
        }
        let n = self.components.len();
        if n != other.components.len() {
            assert(self@.components.len() != other@.components.len());
            return false;
        }
        let mut i: usize = 0;
        while i < n
            invariant
                n == self.components@.len(),
                n == other.components@.len(),
                i <= n,
                forall|j: int| 0 <= j < i ==> self@.components[j] == other@.components[j],
            decreases n - i,
        {
            if !self.components[i].same(&other.components[i]) {
                assert(self@.components[i as int] != other@.components[i as int]);
                return false;
            }
            i = i + 1;
        }
        assert(self@.components =~= other@.components);
        true
    }

    pub fn copy(&self) -> (r: PathBuf)
        ensures
            r@ == self@,
    {
        let mut cs: Vec<PathComponent> = Vec::new();
        let mut i: usize = 0;
        while i < self.components.len()
            invariant
                i <= self.components.len(),
                cs@.len() == i,
                forall|j: int| 0 <= j < i ==> #[trigger] cs@[j]@ == self.components@[j]@,
            decreases self.components.len() - i,
        {
            cs.push(self.components[i].copy());
            i = i + 1;
        }
        let r = PathBuf { is_absolute: self.is_absolute, components: cs };
        assert(r@.components =~= self@.components);
        r
    }
}

impl AbsPath {
    /// The root of the file system.
    pub fn root() -> (r: AbsPath)
        ensures
            r@ == Seq::<Seq<char>>::empty(),
    {
        let r = AbsPath { components: Vec::new() };
        assert(r@ =~= Seq::<Seq<char>>::empty());
        r
    }

    pub fn copy(&self) -> (r: AbsPath)
        ensures
            r@ == self@,
    {
        AbsPath { components: clone_strings(&self.components) }
    }

    /// Compares two paths component by component.
    pub fn eq(&self, other: &AbsPath) -> (r: bool)
        ensures
            r == (self@ == other@),
    {
        let n = self.components.len();
        if n != other.components.len() {
            assert(self@.len() != other@.len());
            return false;
        }
        let mut i: usize = 0;
        while i < n
            invariant
                n == self.components@.len(),
                n == other.components@.len(),
                i <= n,
                forall|j: int| 0 <= j < i ==> self@[j] == other@[j],
            decreases n - i,
        {
            if !str_eq(self.components[i].as_str(), other.components[i].as_str()) {
                assert(self@[i as int] != other@[i as int]);
                return false;
            }
            i = i + 1;
        }
        assert(self@ =~= other@);
        true
    }

    /// Appends one normal component.
    pub fn child(&self, name: &str) -> (r: AbsPath)
        ensures
            r@ == self@.push(name@),
    {
        let mut cs = clone_strings(&self.components);
        cs.push(name.to_owned());
        let r = AbsPath { components: cs };
        assert(r@ =~= self@.push(name@));
        r
    }

    /// The path that `path` names when read from the directory `base`.
    pub fn resolve(path: &PathBuf, base: &AbsPath) -> (r: AbsPath)
        ensures
            r@ == resolve_spec(path@, base@),
    {
        let mut cs: Vec<String> = if path.is_absolute {
            Vec::new()
        } else {
            clone_strings(&base.components)
        };
        let ghost start: Seq<Seq<char>> = if path.is_absolute {
            Seq::empty()
        } else {
            base@
        };
        assert(cs@.map_values(|s: String| s@) =~= start);
        let mut i: usize = 0;
        while i < path.components.len()
            invariant
                i <= path.components.len(),
                cs@.map_values(|s: String| s@) == apply_components(
                    start,
                    path@.components.take(i as int),
                ),
            decreases path.components.len() - i,
        {
            let ghost before = cs@.map_values(|s: String| s@);
            assert(path@.components.take(i + 1).drop_last() =~= path@.components.take(i as int));
            match &path.components[i] {
                PathComponent::CurDir => {},
                PathComponent::ParentDir => {
                    if cs.len() > 0 {
                        cs.pop();
                        assert(cs@.map_values(|s: String| s@) =~= before.drop_last());
                    }
                },
                PathComponent::Normal(n) => {
                    cs.push(n.clone());
                    assert(cs@.map_values(|s: String| s@) =~= before.push(n@));
                },
            }
            i = i + 1;
        }
        assert(path@.components.take(path.components.len() as int) =~= path@.components);
        AbsPath { components: cs }
    }

    /// Same as [`AbsPath::resolve`] with `self` as the base.
    pub fn join(&self, rel: &PathBuf) -> (r: AbsPath)
        ensures
            r@ == resolve_spec(rel@, self@),
    {
        AbsPath::resolve(rel, self)
    }

    /// Whether `prefix` is made of the first components of `self`.
    pub fn starts_with(&self, prefix: &AbsPath) -> (r: bool)
        ensures
            r == is_path_prefix(prefix@, self@),
    {
        let n = prefix.components.len();
        if n > self.components.len() {
            return false;
        }
        let mut i: usize = 0;
        while i < n
            invariant
                n == prefix@.len(),
                n <= self@.len(),
                i <= n,
                forall|j: int| 0 <= j < i ==> self@[j] == prefix@[j],
            decreases n - i,
        {
            if !str_eq(self.components[i].as_str(), prefix.components[i].as_str()) {
                assert(self@.subrange(0, n as int)[i as int] != prefix@[i as int]);
                return false;
            }
            i = i + 1;
        }
        assert(self@.subrange(0, n as int) =~= prefix@);
        true
    }

    /// The last component, if the path is not the root.
    pub fn file_name(&self) -> (r: Option<&String>)
        ensures
            self@.len() == 0 ==> r is None,
            self@.len() > 0 ==> r is Some && r->0@ == self@.last(),
    {
        let n = self.components.len();
        if n == 0 {
            None
        } else {
            Some(&self.components[n - 1])
        }
    }

    /// The path without its last component, if it is not the root.
    pub fn parent(&self) -> (r: Option<AbsPath>)
        ensures
            self@.len() == 0 ==> r is None,
            self@.len() > 0 ==> r is Some && r->0@ == self@.drop_last(),
    {
        let n = self.components.len();
        if n == 0 {
            None
        } else {
            let mut cs = clone_strings(&self.components);
            cs.pop();
            let r = AbsPath { components: cs };
            assert(r@ =~= self@.drop_last());
            Some(r)
        }
    }

    /// The same path written as an absolute [`PathBuf`].
    pub fn to_path_buf(&self) -> (r: PathBuf)
        ensures
            r@.is_absolute,
            r@.components == self@.map_values(|s: Seq<char>| PathComponentView::Normal(s)),
    {
        let mut cs: Vec<PathComponent> = Vec::new();
        let mut i: usize = 0;
        while i < self.components.len()
            invariant
                i <= self.components.len(),
                cs@.len() == i,
                forall|j: int|
                    0 <= j < i ==> #[trigger] cs@[j]@ == PathComponentView::Normal(
                        self.components@[j]@,
                    ),
            decreases self.components.len() - i,
        {
            cs.push(PathComponent::Normal(self.components[i].clone()));
            i = i + 1;
        }
        let r = PathBuf { is_absolute: true, components: cs };
        assert(r@.components =~= self@.map_values(|s: Seq<char>| PathComponentView::Normal(s)));
        r
    }
}

} // verus!
