//! Finding contents in a directory tree.
//!
//! The file system is walked by the caller; this module decides what each
//! directory met on the way means for the scan.

use vstd::prelude::*;
use crate::content::{Content, ContentScanError};
use crate::file_error::{FileError, IoError};
use crate::paths::AbsPath;

verus! {

pub struct ContentScanner {
    pub scan_root: AbsPath,
    pub recursive: bool,
    pub only_projects: bool,
}

/// What a directory met during a scan means.
pub enum ScanDecision {
    /// It is content: record it.
    Found(Content),
    /// It is no content, and the scan goes on into it.
    Descend,
    /// It is no content, and the scan leaves it.
    Skip,
    /// Reading it failed: record the error.
    Report(ContentScanError),
}

/// Contents that a scan keeps: all, or only projects when it looks for
/// projects only.
pub open spec fn kept_by_scan(only_projects: bool, c: Content) -> bool {
    !only_projects || c is Project || c is RedkitProject
}

impl ContentScanner {
    /// A scanner of the tree under `scan_root`, which must be a directory
    /// (`is_dir` tells whether it is one).
    pub fn new(scan_root: AbsPath, is_dir: bool) -> (r: Result<ContentScanner, ContentScanError>)
        ensures
            is_dir ==> r is Ok && r->Ok_0.scan_root == scan_root && !r->Ok_0.recursive
                && !r->Ok_0.only_projects,
            !is_dir ==> r is Err && r->Err_0 is Io && r->Err_0->Io_0.path == scan_root
                && r->Err_0->Io_0.error is NotFound,
    {
        if !is_dir {
            return Err(ContentScanError::Io(FileError::new(scan_root, IoError::NotFound)));
        }
        Ok(ContentScanner { scan_root, recursive: false, only_projects: false })
    }

    pub fn recursive(self, val: bool) -> (r: ContentScanner)
        ensures
            r == (ContentScanner { recursive: val, ..self }),
    {
        ContentScanner { recursive: val, ..self }
    }

    pub fn only_projects(self, val: bool) -> (r: ContentScanner)
        ensures
            r == (ContentScanner { only_projects: val, ..self }),
    {
        ContentScanner { only_projects: val, ..self }
    }

    /// What the scan root itself means, given what trying it as content
    /// gave: content is the only thing found; otherwise its subdirectories
    /// are walked (a failure to read the root as content is not reported).
    pub fn decide_root(&self, outcome: Result<Content, ContentScanError>) -> (r: ScanDecision)
        ensures
            outcome is Ok ==> r == ScanDecision::Found(outcome->Ok_0),
            outcome is Err ==> r is Descend,
    {
        match outcome {
            Ok(c) => ScanDecision::Found(c),
            Err(_) => ScanDecision::Descend,
        }
    }

    /// What a subdirectory met during the scan means, given what trying it
    /// as content gave.
    pub fn decide(&self, outcome: Result<Content, ContentScanError>) -> (r: ScanDecision)
        ensures
            outcome is Ok ==> r == ScanDecision::Found(outcome->Ok_0),
            outcome is Err && outcome->Err_0 is NotContent ==> (if self.recursive {
                r is Descend
            } else {
                r is Skip
            }),
            outcome is Err && !(outcome->Err_0 is NotContent) ==> r == ScanDecision::Report(
                outcome->Err_0,
            ),
    {
        match outcome {
            Ok(c) => ScanDecision::Found(c),
            Err(ContentScanError::NotContent) => if self.recursive {
                ScanDecision::Descend
            } else {
                ScanDecision::Skip
            },
            Err(e) => ScanDecision::Report(e),
        }
    }

    /// Keeps of the found contents those that the scan asks for, in order.
    pub fn retain_requested(&self, contents: Vec<Content>) -> (r: Vec<Content>)
        ensures
            r@ == contents@.filter(|c: Content| kept_by_scan(self.only_projects, c)),
    {
        let ghost pred = |c: Content| kept_by_scan(self.only_projects, c);
        let ghost all = contents@;
        let mut rest = contents;
        let mut kept: Vec<Content> = Vec::new();
        let n = rest.len();
        let mut i: usize = 0;
        assert(all.take(0).filter(pred) =~= Seq::<Content>::empty()) by {
            reveal(Seq::filter);
        }
        assert(rest@ =~= all.subrange(0, n as int));
        while i < n
            invariant
                n == all.len(),
                i <= n,
                rest@ =~= all.subrange(i as int, n as int),
                kept@ == all.take(i as int).filter(pred),
                pred == (|c: Content| kept_by_scan(self.only_projects, c)),
            decreases n - i,
        {
            let c = rest.remove(0);
            assert(c == all[i as int]);
            assert(all.take(i + 1).drop_last() =~= all.take(i as int));
            assert(all.take(i + 1).last() == c);
            proof {
                reveal(Seq::filter);
            }
            let keep = !self.only_projects || c.is_project() || c.is_redkit_project();
            if keep {
                kept.push(c);
            }
            i = i + 1;
            assert(rest@ =~= all.subrange(i as int, n as int));
        }
        assert(all.take(n as int) =~= all);
        kept
    }
}

} // verus!
