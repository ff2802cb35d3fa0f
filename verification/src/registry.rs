//! The queue registry: create/update, inspect and list queues.

use vstd::prelude::*;
use vstd::string::StringExecFns;
use crate::engine::Engine;
use crate::error::Error;
use crate::settings::QueueSettings;
use crate::settings::QueueState;
use crate::settings::QueueView;
use crate::settings::copy_u64_vec;

verus! {

impl Engine {
    /// Creates the named queue with the given settings, or replaces an
    /// existing queue's settings for future jobs only: its pending list and
    /// the snapshots of jobs already enqueued are untouched. Returns whether
    /// the queue was newly created. Malformed settings are refused.
    pub fn create_or_update_queue(&mut self, name: &str, settings: QueueSettings) -> (r: Result<
        bool,
        Error,
    >)
        requires
            old(self).wf(),
        ensures
            final(self).wf(),
            match r {
                Ok(created) => {
                    &&& settings@.valid()
                    &&& created == !old(self).queues_m().contains_key(name@)
                    &&& final(self).queues_m() == old(self).queues_m().insert(
                        name@,
                        QueueView {
                            settings: settings@,
                            pending: if old(self).queues_m().contains_key(name@) {
                                old(self).queues_m()[name@].pending
                            } else {
                                Seq::empty()
                            },
                        },
                    )
                    &&& final(self).names_m() == if old(self).queues_m().contains_key(name@) {
                        old(self).names_m()
                    } else {
                        old(self).names_m().push(name@)
                    }
                    &&& final(self).jobs_m() == old(self).jobs_m()
                    &&& final(self).tags_m() == old(self).tags_m()
                    &&& final(self).next_id == old(self).next_id
                },
                Err(e) => {
                    &&& e == Error::InvalidSettings
                    &&& !settings@.valid()
                    &&& *final(self) == *old(self)
                },
            },
    {
        if !settings.check_valid() {
            return Err(Error::InvalidSettings);
        }
        let ghost pre = *self;
        let mut created: bool = false;
        let mut pending: Vec<u64> = Vec::new();
        match self.queues.get(name) {
            Some(q) => {
                pending = copy_u64_vec(&q.pending);
            },
            None => {
                created = true;
            },
        }
        self.queues.insert(String::from_str(name), QueueState { settings, pending });
        if created {
            self.queue_names.push(String::from_str(name));
        }
        proof {
            let target = QueueView {
                settings: settings@,
                pending: if pre.queues_m().contains_key(name@) {
                    pre.queues_m()[name@].pending
                } else {
                    Seq::empty()
                },
            };
            assert(self.queues_m() =~= pre.queues_m().insert(name@, target));
            if created {
                assert(self.names_m() =~= pre.names_m().push(name@));
                assert forall|i: int, j: int|
                    0 <= i < j < self.queue_names@.len() implies self.queue_names@[i]@
                    != self.queue_names@[j]@ by {
                    if j == self.queue_names@.len() - 1 {
                        assert(pre.queues@.contains_key(self.queue_names@[i]@));
                    }
                }
            } else {
                assert(self.names_m() =~= pre.names_m());
            }
            assert forall|n: Seq<char>| #[trigger]
                self.queues@.contains_key(n) implies self.names_m().contains(n) by {
                if n == name@ && created {
                    assert(self.names_m()[self.names_m().len() - 1] == n);
                } else {
                    assert(pre.queues@.contains_key(n));
                    let i = choose|i: int|
                        0 <= i < pre.names_m().len() && pre.names_m()[i] == n;
                    assert(self.names_m()[i] == n);
                }
            }
            assert(self.wf());
        }
        Ok(created)
    }

    /// The settings of the named queue.
    pub fn queue_settings(&self, name: &str) -> (r: Result<&QueueSettings, Error>)
        ensures
            match r {
                Ok(s) => self.queues_m().contains_key(name@) && s@ == self.queues_m()[
                    name@
                ].settings,
                Err(e) => e == Error::UnknownQueue && !self.queues_m().contains_key(name@),
            },
    {
        match self.queues.get(name) {
            Some(q) => Ok(&q.settings),
            None => Err(Error::UnknownQueue),
        }
    }

    /// The number of jobs waiting on the named queue (queued jobs only;
    /// running and finished jobs do not count).
    pub fn queue_size(&self, name: &str) -> (r: Result<usize, Error>)
        ensures
            match r {
                Ok(n) => self.queues_m().contains_key(name@) && n == self.queues_m()[
                    name@
                ].pending.len(),
                Err(e) => e == Error::UnknownQueue && !self.queues_m().contains_key(name@),
            },
    {
        match self.queues.get(name) {
            Some(q) => Ok(q.pending.len()),
            None => Err(Error::UnknownQueue),
        }
    }

    /// Every queue name, in creation order.
    pub fn queue_names_list(&self) -> (r: &Vec<String>)
        ensures
            r@.len() == self.names_m().len(),
            forall|i: int| 0 <= i < r@.len() ==> #[trigger] r@[i]@ == self.names_m()[i],
    {
        &self.queue_names
    }

    /// Whether the named queue exists.
    pub fn has_queue(&self, name: &str) -> (r: bool)
        ensures
            r == self.queues_m().contains_key(name@),
    {
        self.queues.contains_key(name)
    }
}

} // verus!
