use vstd::prelude::*;

verus! {

/// One deferred unit of work: probe the target at `path`.
///
/// A job is created by the producer, owned by the control channel while
/// queued, handed over to exactly one worker, and consumed there.
pub struct Job {
    pub path: String,
}

impl View for Job {
    type V = Seq<char>;

    open spec fn view(&self) -> Seq<char> {
        self.path@
    }
}

} // verus!
