//! Diagnostics buffered per file until they are committed (published).
//!
//! Each file's diagnostics are kept with the domain that produced them, so
//! that one domain's can be cleared while the others stay. A file whose
//! diagnostics changed since the last commit gets them published at the
//! next; a purged file is forgotten once committed.

use vstd::prelude::*;
use crate::paths::AbsPath;

verus! {

/// A diagnostic and the domain that produced it.
pub struct BufferedDiagnostic<D> {
    pub diag: D,
    pub domain: u8,
}

/// The diagnostics of one file.
pub struct BufferedDiagnostics<D> {
    pub path: AbsPath,
    pub diags: Vec<BufferedDiagnostic<D>>,
    pub changed: bool,
    pub should_purge: bool,
}

/// Mathematical form of [`BufferedDiagnostics`].
pub struct EntryView<D> {
    pub path: Seq<Seq<char>>,
    pub diags: Seq<BufferedDiagnostic<D>>,
    pub changed: bool,
    pub should_purge: bool,
}

impl<D> View for BufferedDiagnostics<D> {
    type V = EntryView<D>;

    open spec fn view(&self) -> EntryView<D> {
        EntryView { path: self.path@, diags: self.diags@, changed: self.changed, should_purge: self.should_purge }
    }
}

/// Diagnostics of files, buffered until committed.
pub struct DiagnosticsBuffer<D> {
    pub entries: Vec<BufferedDiagnostics<D>>,
}

/// Index of the entry of the file, or -1.
pub open spec fn find_entry<D>(entries: Seq<EntryView<D>>, path: Seq<Seq<char>>) -> int
    decreases entries.len(),
{
    if entries.len() == 0 {
        -1
    } else if entries.last().path == path {
        entries.len() - 1
    } else {
        find_entry(entries.drop_last(), path)
    }
}

/// The diagnostics of a domain left out.
pub open spec fn without_domain<D>(ds: Seq<BufferedDiagnostic<D>>, domain: u8) -> Seq<BufferedDiagnostic<D>>
    decreases ds.len(),
{
    if ds.len() == 0 {
        Seq::empty()
    } else {
        let r = without_domain(ds.drop_last(), domain);
        if ds.last().domain == domain {
            r
        } else {
            r.push(ds.last())
        }
    }
}

pub proof fn lemma_find_entry_range<D>(entries: Seq<EntryView<D>>, path: Seq<Seq<char>>)
    ensures
        -1 <= find_entry(entries, path) < entries.len(),
        find_entry(entries, path) >= 0 ==> entries[find_entry(entries, path)].path == path,
        find_entry(entries, path) < 0 ==> forall|i: int| 0 <= i < entries.len() ==> (#[trigger] entries[i]).path != path,
    decreases entries.len(),
{
    if entries.len() > 0 {
        lemma_find_entry_range(entries.drop_last(), path);
        if find_entry(entries, path) < 0 {
            assert forall|i: int| 0 <= i < entries.len() implies (#[trigger] entries[i]).path != path by {
                if i < entries.len() - 1 {
                    assert(entries.drop_last()[i] == entries[i]);
                }
            }
        }
    }
}

impl<D> DiagnosticsBuffer<D> {
    pub open spec fn entries_v(&self) -> Seq<EntryView<D>> {
        self.entries@.map_values(|e: BufferedDiagnostics<D>| e@)
    }

    /// Each file has one entry at most.
    pub open spec fn well_formed(&self) -> bool {
        forall|i: int, j: int|
            0 <= i < j < self.entries@.len() ==> (#[trigger] self.entries@[i]).path@ != (#[trigger] self.entries@[j]).path@
    }

    pub fn new() -> (r: DiagnosticsBuffer<D>)
        ensures
            r.entries_v().len() == 0,
            r.well_formed(),
    {
        DiagnosticsBuffer { entries: Vec::new() }
    }

    fn find(&self, path: &AbsPath) -> (r: Option<usize>)
        ensures
            match r {
                Some(i) => i as int == find_entry(self.entries_v(), path@),
                None => find_entry(self.entries_v(), path@) < 0,
            },
            r is Some ==> r->0 < self.entries@.len(),
    {
        let ghost ev = self.entries_v();
        let mut i: usize = self.entries.len();
        assert(ev.take(i as int) =~= ev);
        while i > 0
            invariant
                i <= self.entries@.len(),
                ev == self.entries_v(),
                find_entry(ev, path@) == find_entry(ev.take(i as int), path@),
            decreases i,
        {
            assert(ev.take(i as int).drop_last() =~= ev.take(i - 1));
            assert(ev.take(i as int).last() == self.entries@[i - 1]@);
            if self.entries[i - 1].path.eq(path) {
                return Some(i - 1);
            }
            i = i - 1;
        }
        None
    }

    /// Takes the entry at `i` out, to be put back.
    fn entry_out(&mut self, i: usize) -> (e: BufferedDiagnostics<D>)
        requires
            i < old(self).entries@.len(),
        ensures
            e == old(self).entries@[i as int],
            final(self).entries@ == old(self).entries@.remove(i as int),
    {
        self.entries.remove(i)
    }

    /// Buffers a diagnostic of the file; the file's diagnostics changed.
    pub fn push_diagnostic(&mut self, path: &AbsPath, diag: D, domain: u8)
        requires
            old(self).well_formed(),
        ensures
            final(self).well_formed(),
            ({
                let i = find_entry(old(self).entries_v(), path@);
                let bd = BufferedDiagnostic { diag, domain };
                if i >= 0 {
                    final(self).entries_v() == old(self).entries_v().update(i, EntryView {
                        diags: old(self).entries_v()[i].diags.push(bd),
                        changed: true,
                        ..old(self).entries_v()[i]
                    })
                } else {
                    final(self).entries_v() == old(self).entries_v().push(EntryView {
                        path: path@,
                        diags: seq![bd],
                        changed: true,
                        should_purge: false,
                    })
                }
            }),
    {
        let ghost ev = self.entries_v();
        let ghost bd = BufferedDiagnostic { diag, domain };
        proof {
            lemma_find_entry_range(ev, path@);
        }
        let mut ds: Vec<BufferedDiagnostic<D>> = Vec::new();
        ds.push(BufferedDiagnostic { diag, domain });
        assert(ds@ =~= seq![bd]);
        self.push_diagnostics(path, ds);
        proof {
            let i = find_entry(ev, path@);
            if i >= 0 {
                assert(ev[i].diags + seq![bd] =~= ev[i].diags.push(bd));
            }
        }
    }

    /// Buffers diagnostics of the file; the file's diagnostics changed.
    pub fn push_diagnostics(&mut self, path: &AbsPath, diags: Vec<BufferedDiagnostic<D>>)
        requires
            old(self).well_formed(),
        ensures
            final(self).well_formed(),
            ({
                let i = find_entry(old(self).entries_v(), path@);
                if i >= 0 {
                    final(self).entries_v() == old(self).entries_v().update(i, EntryView {
                        diags: old(self).entries_v()[i].diags + diags@,
                        changed: true,
                        ..old(self).entries_v()[i]
                    })
                } else {
                    final(self).entries_v() == old(self).entries_v().push(EntryView {
                        path: path@,
                        diags: diags@,
                        changed: true,
                        should_purge: false,
                    })
                }
            }),
    {
        let ghost ev = self.entries_v();
        proof {
            lemma_find_entry_range(ev, path@);
        }
        match self.find(path) {
            Some(i) => {
                let ghost before = self.entries@;
                let mut e = self.entry_out(i);
                let mut diags = diags;
                e.diags.append(&mut diags);
                e.changed = true;
                self.entries.insert(i, e);
                proof {
                    assert(self.entries@ =~= before.update(i as int, e));
                    assert(self.entries_v() =~= ev.update(i as int, e@));
                    assert forall|a: int, b: int| 0 <= a < b < self.entries@.len() implies (#[trigger] self.entries@[a]).path@ != (#[trigger] self.entries@[b]).path@ by {
                        assert(self.entries@[a].path@ == before[a].path@);
                        assert(self.entries@[b].path@ == before[b].path@);
                    }
                }
            },
            None => {
                let ghost before = self.entries@;
                self.entries.push(BufferedDiagnostics { path: path.copy(), diags, changed: true, should_purge: false });
                proof {
                    assert(self.entries_v() =~= ev.push(self.entries@[before.len() as int]@));
                    assert forall|a: int, b: int| 0 <= a < b < self.entries@.len() implies (#[trigger] self.entries@[a]).path@ != (#[trigger] self.entries@[b]).path@ by {
                        if b == before.len() {
                            assert(ev[a].path != path@);
                        } else {
                            assert(self.entries@[a] == before[a]);
                            assert(self.entries@[b] == before[b]);
                        }
                    }
                }
            },
        }
    }

    /// Drops the file's diagnostics of one domain; the file's diagnostics
    /// changed. Nothing happens to a file without an entry.
    pub fn clear_diagnostics(&mut self, path: &AbsPath, domain: u8)
        requires
            old(self).well_formed(),
        ensures
            final(self).well_formed(),
            ({
                let i = find_entry(old(self).entries_v(), path@);
                if i >= 0 {
                    final(self).entries_v() == old(self).entries_v().update(i, EntryView {
                        diags: without_domain(old(self).entries_v()[i].diags, domain),
                        changed: true,
                        ..old(self).entries_v()[i]
                    })
                } else {
                    final(self).entries_v() == old(self).entries_v()
                }
            }),
    {
        let ghost ev = self.entries_v();
        match self.find(path) {
            Some(i) => {
                let ghost before = self.entries@;
                let e = self.entry_out(i);
                let BufferedDiagnostics { path: p, diags, changed: _, should_purge } = e;
                let ghost ds = diags@;
                let mut diags = diags;
                let mut kept: Vec<BufferedDiagnostic<D>> = Vec::new();
                let ghost mut k: int = 0;
                while diags.len() > 0
                    invariant
                        0 <= k <= ds.len(),
                        diags@ == ds.subrange(k, ds.len() as int),
                        kept@ == without_domain(ds.take(k), domain),
                    decreases diags@.len(),
                {
                    let d = diags.remove(0);
                    proof {
                        assert(d == ds[k]);
                        assert(ds.take(k + 1).drop_last() =~= ds.take(k));
                    }
                    if d.domain != domain {
                        kept.push(d);
                    }
                    proof {
                        k = k + 1;
                    }
                    assert(diags@ =~= ds.subrange(k, ds.len() as int));
                }
                assert(ds.take(k) =~= ds);
                let ne = BufferedDiagnostics { path: p, diags: kept, changed: true, should_purge };
                self.entries.insert(i, ne);
                proof {
                    assert(self.entries@ =~= before.update(i as int, ne));
                    assert(self.entries_v() =~= ev.update(i as int, ne@));
                    assert forall|a: int, b: int| 0 <= a < b < self.entries@.len() implies (#[trigger] self.entries@[a]).path@ != (#[trigger] self.entries@[b]).path@ by {
                        assert(self.entries@[a].path@ == before[a].path@);
                        assert(self.entries@[b].path@ == before[b].path@);
                    }
                }
            },
            None => {},
        }
    }

    /// Clears all diagnostics for a given file and additionally that file
    /// gets forgotten about by the diagnostic system at the next commit.
    pub fn purge_diagnostics(&mut self, path: &AbsPath)
        requires
            old(self).well_formed(),
        ensures
            final(self).well_formed(),
            ({
                let i = find_entry(old(self).entries_v(), path@);
                if i >= 0 {
                    final(self).entries_v() == old(self).entries_v().update(i, EntryView {
                        diags: Seq::empty(),
                        changed: true,
                        should_purge: true,
                        ..old(self).entries_v()[i]
                    })
                } else {
                    final(self).entries_v() == old(self).entries_v()
                }
            }),
    {
        let ghost ev = self.entries_v();
        match self.find(path) {
            Some(i) => {
                let ghost before = self.entries@;
                let e = self.entry_out(i);
                let ne = BufferedDiagnostics { path: e.path, diags: Vec::new(), changed: true, should_purge: true };
                self.entries.insert(i, ne);
                proof {
                    assert(self.entries@ =~= before.update(i as int, ne));
                    assert(self.entries_v() =~= ev.update(i as int, ne@));
                    assert forall|a: int, b: int| 0 <= a < b < self.entries@.len() implies (#[trigger] self.entries@[a]).path@ != (#[trigger] self.entries@[b]).path@ by {
                        assert(self.entries@[a].path@ == before[a].path@);
                        assert(self.entries@[b].path@ == before[b].path@);
                    }
                }
            },
            None => {},
        }
    }

    /// Clears the diagnostics of every file; each file's changed.
    pub fn clear_all_diagnostics(&mut self)
        requires
            old(self).well_formed(),
        ensures
            final(self).well_formed(),
            final(self).entries_v().len() == old(self).entries_v().len(),
            forall|i: int| 0 <= i < final(self).entries_v().len() ==> #[trigger] final(self).entries_v()[i] == (EntryView {
                diags: Seq::empty(),
                changed: true,
                ..old(self).entries_v()[i]
            }),
    {
        let ghost ev = self.entries_v();
        let ghost before = self.entries@;
        let mut old_entries: Vec<BufferedDiagnostics<D>> = Vec::new();
        std::mem::swap(&mut old_entries, &mut self.entries);
        let mut k: usize = 0;
        let n = old_entries.len();
        while old_entries.len() > 0
            invariant
                k + old_entries@.len() == n,
                n == before.len(),
                old_entries@ == before.subrange(k as int, n as int),
                ev == before.map_values(|e: BufferedDiagnostics<D>| e@),
                self.entries@.len() == k,
                forall|i: int| 0 <= i < k ==> #[trigger] self.entries@[i]@ == (EntryView {
                    diags: Seq::empty(),
                    changed: true,
                    ..ev[i]
                }),
            decreases old_entries@.len(),
        {
            let e = old_entries.remove(0);
            assert(e == before[k as int]);
            self.entries.push(BufferedDiagnostics { path: e.path, diags: Vec::new(), changed: true, should_purge: e.should_purge });
            k = k + 1;
            assert(old_entries@ =~= before.subrange(k as int, n as int));
        }
        proof {
            assert forall|a: int, b: int| 0 <= a < b < self.entries@.len() implies (#[trigger] self.entries@[a]).path@ != (#[trigger] self.entries@[b]).path@ by {
                assert(self.entries@[a]@.path == ev[a].path);
                assert(self.entries@[b]@.path == ev[b].path);
                assert(ev[a].path == before[a].path@);
                assert(ev[b].path == before[b].path@);
            }
        }
    }
}


/// Copies of the diagnostics, one for each.
pub open spec fn copies_of<D: Clone>(ds: Seq<BufferedDiagnostic<D>>, r: Seq<D>) -> bool {
    r.len() == ds.len() && forall|k: int| 0 <= k < r.len() ==> cloned(ds[k].diag, #[trigger] r[k])
}

/// The entries whose diagnostics changed, in order.
pub open spec fn changed_entries<D>(es: Seq<EntryView<D>>) -> Seq<EntryView<D>>
    decreases es.len(),
{
    if es.len() == 0 {
        Seq::empty()
    } else {
        let r = changed_entries(es.drop_last());
        if es.last().changed {
            r.push(es.last())
        } else {
            r
        }
    }
}

/// The entries after a commit of all: purged files are forgotten, and none
/// has changed.
pub open spec fn committed_entries<D>(es: Seq<EntryView<D>>) -> Seq<EntryView<D>>
    decreases es.len(),
{
    if es.len() == 0 {
        Seq::empty()
    } else {
        let r = committed_entries(es.drop_last());
        if es.last().should_purge {
            r
        } else {
            r.push(EntryView { changed: false, ..es.last() })
        }
    }
}

fn copy_diags<D: Clone>(ds: &Vec<BufferedDiagnostic<D>>) -> (r: Vec<D>)
    ensures
        copies_of(ds@, r@),
{
    let mut r: Vec<D> = Vec::new();
    let mut k: usize = 0;
    while k < ds.len()
        invariant
            k <= ds@.len(),
            r@.len() == k,
            forall|q: int| 0 <= q < k ==> cloned(ds@[q].diag, #[trigger] r@[q]),
        decreases ds@.len() - k,
    {
        r.push(ds[k].diag.clone());
        k = k + 1;
    }
    r
}

impl<D: Clone> DiagnosticsBuffer<D> {
    /// What to publish for the file: its diagnostics if they changed since
    /// the last commit (then they no longer count as changed), nothing
    /// otherwise. A purged file is forgotten.
    pub fn commit_diagnostics(&mut self, path: &AbsPath) -> (r: Vec<D>)
        requires
            old(self).well_formed(),
        ensures
            final(self).well_formed(),
            ({
                let i = find_entry(old(self).entries_v(), path@);
                if i >= 0 {
                    let e = old(self).entries_v()[i];
                    &&& (if e.changed { copies_of(e.diags, r@) } else { r@.len() == 0 })
                    &&& final(self).entries_v() == if e.should_purge {
                        old(self).entries_v().remove(i)
                    } else {
                        old(self).entries_v().update(i, EntryView { changed: false, ..e })
                    }
                } else {
                    r@.len() == 0 && final(self).entries_v() == old(self).entries_v()
                }
            }),
    {
        let ghost ev = self.entries_v();
        proof {
            lemma_find_entry_range(ev, path@);
        }
        match self.find(path) {
            Some(i) => {
                let ghost before = self.entries@;
                let mut e = self.entry_out(i);
                let mut to_publish: Vec<D> = Vec::new();
                if e.changed {
                    to_publish = copy_diags(&e.diags);
                    e.changed = false;
                }
                if !e.should_purge {
                    self.entries.insert(i, e);
                    proof {
                        assert(self.entries@ =~= before.update(i as int, e));
                        assert(self.entries_v() =~= ev.update(i as int, e@));
                        assert forall|a: int, b: int| 0 <= a < b < self.entries@.len() implies (#[trigger] self.entries@[a]).path@ != (#[trigger] self.entries@[b]).path@ by {
                            assert(self.entries@[a].path@ == before[a].path@);
                            assert(self.entries@[b].path@ == before[b].path@);
                        }
                    }
                } else {
                    proof {
                        assert(self.entries_v() =~= ev.remove(i as int));
                        assert forall|a: int, b: int| 0 <= a < b < self.entries@.len() implies (#[trigger] self.entries@[a]).path@ != (#[trigger] self.entries@[b]).path@ by {
                            let pa = if a < i { a } else { a + 1 };
                            let pb = if b < i { b } else { b + 1 };
                            assert(self.entries@[a] == before[pa]);
                            assert(self.entries@[b] == before[pb]);
                        }
                    }
                }
                to_publish
            },
            None => Vec::new(),
        }
    }

    /// What to publish for every file whose diagnostics changed since the
    /// last commit, in the order of the entries; afterwards none counts as
    /// changed, and purged files are forgotten.
    pub fn commit_all_diagnostics(&mut self) -> (r: Vec<(AbsPath, Vec<D>)>)
        requires
            old(self).well_formed(),
        ensures
            final(self).well_formed(),
            final(self).entries_v() == committed_entries(old(self).entries_v()),
            r@.len() == changed_entries(old(self).entries_v()).len(),
            forall|k: int| 0 <= k < r@.len() ==> (#[trigger] r@[k]).0@ == changed_entries(old(self).entries_v())[k].path
                && copies_of(changed_entries(old(self).entries_v())[k].diags, r@[k].1@),
    {
        let ghost ev = self.entries_v();
        let ghost before = self.entries@;
        let mut rest: Vec<BufferedDiagnostics<D>> = Vec::new();
        std::mem::swap(&mut rest, &mut self.entries);
        let mut out: Vec<(AbsPath, Vec<D>)> = Vec::new();
        let ghost mut k: int = 0;
        while rest.len() > 0
            invariant
                0 <= k <= before.len(),
                rest@ == before.subrange(k, before.len() as int),
                ev == before.map_values(|e: BufferedDiagnostics<D>| e@),
                self.entries_v() == committed_entries(ev.take(k)),
                out@.len() == changed_entries(ev.take(k)).len(),
                forall|q: int| 0 <= q < out@.len() ==> (#[trigger] out@[q]).0@ == changed_entries(ev.take(k))[q].path
                    && copies_of(changed_entries(ev.take(k))[q].diags, out@[q].1@),
                forall|a: int| 0 <= a < self.entries@.len() ==> exists|j: int| 0 <= j < k && (#[trigger] self.entries@[a]).path@ == ev[j].path,
                forall|a: int, b: int| 0 <= a < b < self.entries@.len() ==> (#[trigger] self.entries@[a]).path@ != (#[trigger] self.entries@[b]).path@,
                forall|a: int, b: int| 0 <= a < b < before.len() ==> (#[trigger] before[a]).path@ != (#[trigger] before[b]).path@,
            decreases rest@.len(),
        {
            let mut e = rest.remove(0);
            proof {
                assert(e == before[k]);
                assert(ev.take(k + 1).drop_last() =~= ev.take(k));
                assert(ev.take(k + 1).last() == e@);
            }
            let ghost out_before = out@;
            let ghost entries_before = self.entries@;
            if e.changed {
                let copies = copy_diags(&e.diags);
                out.push((e.path.copy(), copies));
                e.changed = false;
            }
            if !e.should_purge {
                self.entries.push(e);
                proof {
                    assert(self.entries_v() =~= committed_entries(ev.take(k)).push(EntryView { changed: false, ..ev[k] }));
                    assert forall|a: int, b: int| 0 <= a < b < self.entries@.len() implies (#[trigger] self.entries@[a]).path@ != (#[trigger] self.entries@[b]).path@ by {
                        if b == entries_before.len() {
                            assert(self.entries@[a] == entries_before[a]);
                            let j = choose|j: int| 0 <= j < k && (#[trigger] entries_before[a]).path@ == ev[j].path;
                            assert(before[j].path@ != before[k].path@);
                        } else {
                            assert(self.entries@[a] == entries_before[a]);
                            assert(self.entries@[b] == entries_before[b]);
                        }
                    }
                    assert forall|a: int| 0 <= a < self.entries@.len() implies exists|j: int| 0 <= j < k + 1 && (#[trigger] self.entries@[a]).path@ == ev[j].path by {
                        if a == entries_before.len() {
                            assert(self.entries@[a].path@ == ev[k].path);
                        } else {
                            assert(self.entries@[a] == entries_before[a]);
                            let j = choose|j: int| 0 <= j < k && (#[trigger] entries_before[a]).path@ == ev[j].path;
                        }
                    }
                }
            } else {
                proof {
                    assert forall|a: int| 0 <= a < self.entries@.len() implies exists|j: int| 0 <= j < k + 1 && (#[trigger] self.entries@[a]).path@ == ev[j].path by {
                        let j = choose|j: int| 0 <= j < k && (#[trigger] self.entries@[a]).path@ == ev[j].path;
                    }
                }
            }
            proof {
                if ev[k].changed {
                    assert(out@ =~= out_before.push(out@[out@.len() - 1]));
                }
                k = k + 1;
            }
            assert(rest@ =~= before.subrange(k, before.len() as int));
        }
        assert(ev.take(k) =~= ev);
        out
    }
}


/// Replacing an entry by one for the same file keeps where files are found.
pub proof fn lemma_find_entry_update<D>(es: Seq<EntryView<D>>, i: int, e: EntryView<D>, path: Seq<Seq<char>>)
    requires
        0 <= i < es.len(),
        e.path == es[i].path,
    ensures
        find_entry(es.update(i, e), path) == find_entry(es, path),
    decreases es.len(),
{
    let u = es.update(i, e);
    if es.len() > 0 {
        if i < es.len() - 1 {
            assert(u.drop_last() =~= es.drop_last().update(i, e));
            lemma_find_entry_update(es.drop_last(), i, e, path);
        } else {
            assert(u.drop_last() =~= es.drop_last());
        }
    }
}

/// A file committed and not purged has nothing new to publish at the next
/// commit, until its diagnostics change again.
pub proof fn lemma_commit_twice<D>(es: Seq<EntryView<D>>, path: Seq<Seq<char>>)
    requires
        find_entry(es, path) >= 0,
        !es[find_entry(es, path)].should_purge,
    ensures
        ({
            let i = find_entry(es, path);
            let after = es.update(i, EntryView { changed: false, ..es[i] });
            find_entry(after, path) == i && !after[i].changed
        }),
{
    lemma_find_entry_range(es, path);
    let i = find_entry(es, path);
    lemma_find_entry_update(es, i, EntryView { changed: false, ..es[i] }, path);
}

/// After a diagnostic is pushed, the file's next commit publishes its
/// diagnostics with the new one last.
pub proof fn lemma_push_then_commit<D>(es: Seq<EntryView<D>>, path: Seq<Seq<char>>, bd: BufferedDiagnostic<D>)
    ensures
        ({
            let i = find_entry(es, path);
            let after = if i >= 0 {
                es.update(i, EntryView { diags: es[i].diags.push(bd), changed: true, ..es[i] })
            } else {
                es.push(EntryView { path, diags: seq![bd], changed: true, should_purge: false })
            };
            let j = find_entry(after, path);
            &&& j >= 0
            &&& after[j].changed
            &&& after[j].diags.last() == bd
        }),
{
    lemma_find_entry_range(es, path);
    let i = find_entry(es, path);
    if i >= 0 {
        lemma_find_entry_update(es, i, EntryView { diags: es[i].diags.push(bd), changed: true, ..es[i] }, path);
    } else {
        let after = es.push(EntryView { path, diags: seq![bd], changed: true, should_purge: false });
        assert(after.last().path == path);
    }
}

} // verus!
