//! The record of a multi-file upload: which files of the batch have been
//! fully written, and the failure that ended it, if one did. A partial
//! failure mid-batch must still report every file that already
//! succeeded.

use vstd::prelude::*;

use crate::error::AppErrorKind;
use crate::strutil::views_of;

verus! {

/// The running record of one upload batch. Files are recorded in the
/// order they complete; after the first failure the batch stops and the
/// record keeps both the completed names and the failing file.
#[derive(Debug)]
pub struct UploadReport {
    completed: Vec<String>,
    failure: Option<(String, AppErrorKind)>,
}

impl UploadReport {
    /// The names of the files written in full so far, in order.
    pub closed spec fn spec_completed(&self) -> Seq<Seq<char>> {
        views_of(self.completed@)
    }

    /// The failure that ended the batch, when one did.
    pub closed spec fn spec_failure(&self) -> Option<(String, AppErrorKind)> {
        self.failure
    }

    /// A fresh record: nothing completed, nothing failed.
    pub fn new() -> (r: UploadReport)
        ensures
            r.spec_completed() == Seq::<Seq<char>>::empty(),
            r.spec_failure() is None,
    {
        let r = UploadReport { completed: Vec::new(), failure: None };
        proof {
            assert(views_of(r.completed@) =~= Seq::<Seq<char>>::empty());
        }
        r
    }

    /// Records one file written in full; the completed list grows by
    /// exactly that name.
    pub fn record_success(&mut self, name: String)
        requires
            old(self).spec_failure() is None,
        ensures
            final(self).spec_completed() == old(self).spec_completed().push(name@),
            final(self).spec_failure() is None,
    {
        proof {
            assert(views_of(self.completed@.push(name)) =~= views_of(self.completed@).push(
                name@,
            ));
        }
        self.completed.push(name);
    }

    /// Records the failure that ends the batch: the completed list stays
    /// exactly as it was, so the caller can still report which files
    /// already succeeded.
    pub fn record_failure(&mut self, name: String, error: AppErrorKind)
        requires
            old(self).spec_failure() is None,
        ensures
            final(self).spec_completed() == old(self).spec_completed(),
            final(self).spec_failure() == Some((name, error)),
    {
        self.failure = Some((name, error));
    }

    /// Whether the batch ended in a failure.
    pub fn failed(&self) -> (r: bool)
        ensures
            r == (self.spec_failure() is Some),
    {
        self.failure.is_some()
    }

    /// The names written in full, whatever ended the batch.
    pub fn completed(&self) -> (r: &Vec<String>)
        ensures
            views_of(r@) == self.spec_completed(),
    {
        &self.completed
    }

    /// The batch's outcome, as the original reported it: the completed
    /// names on full success, and on a partial failure the failing name,
    /// its error, and still every name that already succeeded.
    pub fn into_outcome(self) -> (r: Result<Vec<String>, (Vec<String>, String, AppErrorKind)>)
        ensures
            self.spec_failure() is None ==> (r matches Ok(names) && views_of(names@)
                == self.spec_completed()),
            self.spec_failure() matches Some(f) ==> (r matches Err(e) && views_of(e.0@)
                == self.spec_completed() && e.1 == f.0 && e.2 == f.1),
    {
        match self.failure {
            None => Ok(self.completed),
            Some(f) => Err((self.completed, f.0, f.1)),
        }
    }
}

} // verus!
