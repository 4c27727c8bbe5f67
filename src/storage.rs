//! The upload offload queue: a FIFO of upload tasks drained against a
//! remote object store, one task at a time, with failed tasks sent to the
//! back of the line.

use std::collections::VecDeque;

use vstd::prelude::*;

verus! {

/// Why the storage service could not do its work.
#[derive(Debug, Clone, Copy, PartialEq, Eq, Structural)]
pub enum StorageServiceError {
    /// The lock that guards the queue was poisoned.
    LockPoisoned,
}

/// Turns a failure to take the queue's lock into the service's error.
pub fn map_lock_error<T>(_e: T) -> (r: StorageServiceError)
    ensures
        r == StorageServiceError::LockPoisoned,
{
    StorageServiceError::LockPoisoned
}

/// Where and how to reach the remote object store.
#[derive(Debug, Clone)]
pub struct StorageServiceSettings {
    endpoint: String,
    key: String,
    secret: String,
    bucket: String,
}

impl StorageServiceSettings {
    pub closed spec fn spec_endpoint(&self) -> Seq<char> {
        self.endpoint@
    }

    pub closed spec fn spec_key(&self) -> Seq<char> {
        self.key@
    }

    pub closed spec fn spec_secret(&self) -> Seq<char> {
        self.secret@
    }

    pub closed spec fn spec_bucket(&self) -> Seq<char> {
        self.bucket@
    }

    pub fn new(endpoint: String, key: String, secret: String, bucket: String) -> (r: StorageServiceSettings)
        ensures
            r.spec_endpoint() == endpoint@,
            r.spec_key() == key@,
            r.spec_secret() == secret@,
            r.spec_bucket() == bucket@,
    {
        StorageServiceSettings { endpoint, key, secret, bucket }
    }

    pub fn bucket(&self) -> (r: String)
        ensures
            r@ == self.spec_bucket(),
    {
        self.bucket.clone()
    }

    pub fn endpoint(&self) -> (r: String)
        ensures
            r@ == self.spec_endpoint(),
    {
        self.endpoint.clone()
    }

    pub fn key(&self) -> (r: String)
        ensures
            r@ == self.spec_key(),
    {
        self.key.clone()
    }

    pub fn secret(&self) -> (r: String)
        ensures
            r@ == self.spec_secret(),
    {
        self.secret.clone()
    }
}

/// One file to upload: the bucket, the local path, the remote object path.
#[derive(Debug, Clone)]
pub struct UploadArgs {
    pub bucket_name: String,
    pub file_path: String,
    pub object_path: String,
}

impl UploadArgs {
    pub fn new(bucket_name: String, file_path: String, object_path: String) -> (r: UploadArgs)
        ensures
            r.bucket_name@ == bucket_name@,
            r.file_path@ == file_path@,
            r.object_path@ == object_path@,
    {
        UploadArgs { bucket_name, file_path, object_path }
    }
}

/// How an upload attempt ended.
#[derive(Debug, Clone, Copy, PartialEq, Eq, Structural)]
pub enum UploadOutcome {
    Uploaded,
    Failed,
}

/// The tasks waiting for upload, oldest first.
pub struct OffloadQueue {
    tasks: VecDeque<UploadArgs>,
}

impl View for OffloadQueue {
    type V = Seq<UploadArgs>;

    closed spec fn view(&self) -> Seq<UploadArgs> {
        self.tasks@
    }
}

impl OffloadQueue {
    pub fn new() -> (r: OffloadQueue)
        ensures
            r@ == Seq::<UploadArgs>::empty(),
    {
        OffloadQueue { tasks: VecDeque::new() }
    }

    /// Adds a task at the back.
    pub fn queue_upload(&mut self, task: UploadArgs)
        ensures
            final(self)@ == old(self)@.push(task),
    {
        self.tasks.push_back(task);
    }

    pub fn len(&self) -> (r: usize)
        ensures
            r == self@.len(),
    {
        self.tasks.len()
    }

    pub fn is_empty(&self) -> (r: bool)
        ensures
            r == (self@.len() == 0),
    {
        self.tasks.len() == 0
    }

    /// The task at position `i`, counted from the front.
    pub fn task_at(&self, i: usize) -> (r: &UploadArgs)
        requires
            i < self@.len(),
        ensures
            *r == self@[i as int],
    {
        &self.tasks[i]
    }

    /// Takes the oldest task, if any, for an upload attempt.
    pub fn next_upload(&mut self) -> (r: Option<UploadArgs>)
        ensures
            old(self)@.len() == 0 ==> r is None && final(self)@ == old(self)@,
            old(self)@.len() > 0 ==> r == Some(old(self)@[0]) && final(self)@ == old(self)@.drop_first(),
    {
        let r = self.tasks.pop_front();
        proof {
            if old(self)@.len() > 0 {
                assert(old(self)@.subrange(1, old(self)@.len() as int) =~= old(self)@.drop_first());
            }
        }
        r
    }

    /// Records how the attempt on `task` ended and says whether to go on
    /// draining in this round. A task that failed goes back at the end of
    /// the queue and ends the round, so the tasks not yet tried keep their
    /// order and an unreachable store is not retried in a tight loop.
    pub fn settle(&mut self, task: UploadArgs, outcome: UploadOutcome) -> (go_on: bool)
        ensures
            go_on == (outcome == UploadOutcome::Uploaded),
            outcome == UploadOutcome::Uploaded ==> final(self)@ == old(self)@,
            outcome == UploadOutcome::Failed ==> final(self)@ == old(self)@.push(task),
    {
        match outcome {
            UploadOutcome::Uploaded => true,
            UploadOutcome::Failed => {
                self.tasks.push_back(task);
                false
            },
        }
    }
}

} // verus!
