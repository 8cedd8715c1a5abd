use crate::errors::PentaractError;
use vstd::prelude::*;

verus! {

/// One credential-scoped transfer channel belonging to a storage.
pub struct Worker {
    /// Identifier of the worker within its pool.
    pub id: u64,
    /// The credential material handed out with each lease.
    pub token: String,
    /// Failures reported in a row since the last success.
    pub consecutive_failures: u64,
    /// The worker is skipped by `acquire` until this instant has passed
    /// (0 when the worker was never degraded).
    pub degraded_until: u64,
}

/// A one-shot credential lease, valid for exactly one outbound call.
///
/// The type is deliberately not `Clone`: the only way to hold a credential
/// is to take a fresh lease, and every consumer takes it by value, so a
/// credential can never be retained past the call it was issued for. Each
/// lease carries the pool's issue counter as its serial, so no two leases
/// ever carry the same serial.
#[derive(Debug)]
pub struct Credential {
    /// Serial of the lease: the pool's issue counter at acquisition.
    pub serial: u64,
    /// The worker the lease was drawn from.
    pub worker_id: u64,
    /// The credential material of that worker.
    pub token: String,
}

/// The pool of workers registered under one storage, with round-robin
/// selection and per-worker health tracking.
pub struct WorkerPool {
    pub workers: Vec<Worker>,
    /// Round-robin cursor: the position `acquire` starts scanning from.
    pub next: usize,
    /// Leases issued so far; source of credential serials.
    pub issued: u64,
    /// Consecutive failures after which a worker is degraded.
    pub fail_threshold: u64,
    /// How long a degraded worker is skipped.
    pub cooldown: u64,
}

/// A worker is healthy at `now` when its cool-down window has elapsed.
pub open spec fn worker_healthy(w: Worker, now: u64) -> bool {
    w.degraded_until <= now
}

/// The position the round-robin scan visits at offset `o` from `next`.
pub open spec fn rotate(next: int, o: int, len: int) -> int {
    if next + o < len {
        next + o
    } else {
        next + o - len
    }
}

/// The state of one worker after a call outcome is reported for it:
/// a success clears the failure streak; a failure lengthens it, and on
/// reaching the threshold the worker is degraded for the cool-down window
/// and its streak restarts.
pub open spec fn worker_after_report(
    w: Worker,
    success: bool,
    now: u64,
    threshold: u64,
    cooldown: u64,
) -> Worker {
    if success {
        Worker { consecutive_failures: 0, ..w }
    } else {
        let cf = if w.consecutive_failures == u64::MAX {
            w.consecutive_failures
        } else {
            (w.consecutive_failures + 1) as u64
        };
        if cf >= threshold {
            let until = if now as int + cooldown as int > u64::MAX as int {
                u64::MAX
            } else {
                (now + cooldown) as u64
            };
            Worker { consecutive_failures: 0, degraded_until: until, ..w }
        } else {
            Worker { consecutive_failures: cf, ..w }
        }
    }
}

impl WorkerPool {
    /// Well-formedness: a meaningful threshold, an in-range cursor, and
    /// distinct worker ids.
    pub open spec fn wf(self) -> bool {
        &&& self.fail_threshold >= 1
        &&& (self.workers@.len() > 0 ==> self.next < self.workers@.len())
        &&& (self.workers@.len() == 0 ==> self.next == 0)
        &&& forall|i: int, j: int|
            0 <= i < j < self.workers@.len() ==> self.workers@[i].id != self.workers@[j].id
    }

    /// Some registered worker is currently healthy.
    pub open spec fn some_healthy(self, now: u64) -> bool {
        exists|i: int| 0 <= i < self.workers@.len() && worker_healthy(self.workers@[i], now)
    }

    /// An empty pool for one storage.
    pub fn new(fail_threshold: u64, cooldown: u64) -> (r: WorkerPool)
        requires
            fail_threshold >= 1,
        ensures
            r.wf(),
            r.workers@.len() == 0,
            r.issued == 0,
            r.fail_threshold == fail_threshold,
            r.cooldown == cooldown,
    {
        WorkerPool { workers: Vec::new(), next: 0, issued: 0, fail_threshold, cooldown }
    }

    /// Registers one more worker, initially healthy.
    pub fn register_worker(&mut self, id: u64, token: String)
        requires
            old(self).wf(),
            forall|i: int| 0 <= i < old(self).workers@.len() ==> old(self).workers@[i].id != id,
        ensures
            final(self).wf(),
            final(self).workers@.len() == old(self).workers@.len() + 1,
            final(self).workers@ == old(self).workers@.push(
                Worker { id, token, consecutive_failures: 0, degraded_until: 0 },
            ),
            final(self).next == old(self).next,
            final(self).issued == old(self).issued,
            final(self).fail_threshold == old(self).fail_threshold,
            final(self).cooldown == old(self).cooldown,
    {
        self.workers.push(Worker { id, token, consecutive_failures: 0, degraded_until: 0 });
    }

    /// Issues a one-shot credential for one outbound call, drawn round-robin
    /// from the currently-healthy workers. Every caller must re-acquire for
    /// every call; the lease's serial is fresh, so two in-flight calls never
    /// observe the same credential. Fails exactly when no registered worker
    /// is healthy at `now`.
    pub fn acquire(&mut self, now: u64) -> (r: Result<Credential, PentaractError>)
        requires
            old(self).wf(),
            old(self).issued < u64::MAX,
        ensures
            final(self).wf(),
            final(self).workers == old(self).workers,
            final(self).fail_threshold == old(self).fail_threshold,
            final(self).cooldown == old(self).cooldown,
            r is Ok <==> old(self).some_healthy(now),
            r matches Ok(c) ==> {
                &&& c.serial == old(self).issued
                &&& final(self).issued == old(self).issued + 1
                &&& exists|i: int|
                    0 <= i < old(self).workers@.len() && worker_healthy(
                        old(self).workers@[i],
                        now,
                    ) && c.worker_id == old(self).workers@[i].id && c.token@
                        == old(self).workers@[i].token@
            },
            r is Err ==> final(self).issued == old(self).issued && final(self).next == old(
                self,
            ).next,
            r matches Err(e) ==> e is NoWorkersAvailable,
    {
        let len = self.workers.len();
        if len == 0 {
            return Err(PentaractError::NoWorkersAvailable);
        }
        let start = self.next;
        let mut o: usize = 0;
        while o < len
            invariant
                self == old(self),
                len == self.workers@.len(),
                start == self.next,
                self.wf(),
                0 <= start < len,
                o <= len,
                self.issued < u64::MAX,
                forall|oo: int|
                    0 <= oo < o ==> !worker_healthy(
                        self.workers@[rotate(start as int, oo, len as int)],
                        now,
                    ),
            decreases len - o,
        {
            let idx = if o < len - start {
                start + o
            } else {
                o - (len - start)
            };
            proof {
                assert(idx as int == rotate(start as int, o as int, len as int));
            }
            let healthy = self.workers[idx].degraded_until <= now;
            if healthy {
                let serial = self.issued;
                self.issued = self.issued + 1;
                self.next = if idx + 1 < len {
                    idx + 1
                } else {
                    0
                };
                let token = self.workers[idx].token.clone();
                let worker_id = self.workers[idx].id;
                return Ok(Credential { serial, worker_id, token });
            }
            o = o + 1;
        }
        proof {
            assert forall|i: int|
                0 <= i < self.workers@.len() implies !worker_healthy(
                self.workers@[i],
                now,
            ) by {
                let oo = if i >= start {
                    i - start
                } else {
                    i - start + len
                };
                assert(rotate(start as int, oo, len as int) == i);
            };
        }
        Err(PentaractError::NoWorkersAvailable)
    }

    /// Records the outcome of a call made through the worker with the given
    /// id: the named worker's health state advances as `worker_after_report`
    /// says, every other worker is untouched.
    pub fn report_outcome(&mut self, worker_id: u64, success: bool, now: u64)
        requires
            old(self).wf(),
        ensures
            final(self).wf(),
            final(self).next == old(self).next,
            final(self).issued == old(self).issued,
            final(self).fail_threshold == old(self).fail_threshold,
            final(self).cooldown == old(self).cooldown,
            final(self).workers@.len() == old(self).workers@.len(),
            forall|i: int|
                0 <= i < old(self).workers@.len() ==> final(self).workers@[i] == (
                if old(self).workers@[i].id == worker_id {
                    worker_after_report(
                        old(self).workers@[i],
                        success,
                        now,
                        old(self).fail_threshold,
                        old(self).cooldown,
                    )
                } else {
                    old(self).workers@[i]
                }),
    {
        let len = self.workers.len();
        let mut i: usize = 0;
        while i < len
            invariant
                len == self.workers@.len(),
                self.next == old(self).next,
                self.issued == old(self).issued,
                self.fail_threshold == old(self).fail_threshold,
                self.cooldown == old(self).cooldown,
                len == old(self).workers@.len(),
                old(self).wf(),
                i <= len,
                forall|j: int|
                    i <= j < len ==> self.workers@[j] == old(self).workers@[j],
                forall|j: int|
                    0 <= j < i ==> self.workers@[j] == (
                    if old(self).workers@[j].id == worker_id {
                        worker_after_report(
                            old(self).workers@[j],
                            success,
                            now,
                            old(self).fail_threshold,
                            old(self).cooldown,
                        )
                    } else {
                        old(self).workers@[j]
                    }),
            decreases len - i,
        {
            if self.workers[i].id == worker_id {
                if success {
                    self.workers[i].consecutive_failures = 0;
                } else {
                    let cf = if self.workers[i].consecutive_failures == u64::MAX {
                        u64::MAX
                    } else {
                        self.workers[i].consecutive_failures + 1
                    };
                    if cf >= self.fail_threshold {
                        let until = if now > u64::MAX - self.cooldown {
                            u64::MAX
                        } else {
                            now + self.cooldown
                        };
                        self.workers[i].consecutive_failures = 0;
                        self.workers[i].degraded_until = until;
                    } else {
                        self.workers[i].consecutive_failures = cf;
                    }
                }
            }
            i = i + 1;
        }
        proof {
            assert(self.wf());
        }
    }
}

/// Single-use credential discipline: a lease taken earlier and a lease taken
/// later never carry the same serial, because every acquisition returns the
/// pool's issue counter and strictly advances it. Two concurrently in-flight
/// calls therefore never observe the same credential value.
pub proof fn lemma_single_use_credential(
    p0: WorkerPool,
    p1: WorkerPool,
    c1: Credential,
    c2: Credential,
)
    requires
        c1.serial == p0.issued,
        p1.issued > p0.issued,
        c2.serial == p1.issued,
    ensures
        c1.serial != c2.serial,
{
}

} // verus!
