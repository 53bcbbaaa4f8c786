//! Per-backend health, latency and weighted-recovery accounting.

use vstd::prelude::*;
use vstd::string::*;

verus! {

/// Stage of the weighted recovery ladder.
#[derive(Clone, Copy, Debug, PartialEq, Eq, Structural)]
pub enum RecoveryStage {
    /// Just failed: a tenth of the configured weight.
    Unhealthy,
    /// Three tenths of the configured weight.
    RecoveryStage1,
    /// Half of the configured weight.
    RecoveryStage2,
    /// The configured weight.
    FullyRecovered,
}

/// What the unhealthy set records about one member.
#[derive(Clone, Copy, Debug)]
pub struct UnhealthyInfo {
    pub first_failure_time: u64,
    pub last_failure_time: u64,
    pub failure_count: u32,
    pub last_recovery_attempt: Option<u64>,
    pub recovery_attempts: u32,
}

/// Weighted-recovery state of one backend.
#[derive(Clone, Copy, Debug)]
pub struct RecoveryInfo {
    pub original_weight: u32,
    pub current_weight: u32,
    pub recovery_stage: RecoveryStage,
    pub last_success_time: u64,
    pub success_count: u32,
}

/// Everything the store knows about one backend key.
#[derive(Clone, Copy, Debug)]
pub struct KeyMetrics {
    pub healthy: bool,
    pub latency: Option<u64>,
    pub failure_count: u32,
    pub last_health_check: Option<u64>,
    pub unhealthy: Option<UnhealthyInfo>,
    pub recovery_attempts: u32,
    pub recovery: Option<RecoveryInfo>,
}

/// A member of the unhealthy set, as handed out by the store.
#[derive(Debug)]
pub struct UnhealthyBackend {
    pub backend_key: String,
    pub first_failure_time: u64,
    pub last_failure_time: u64,
    pub failure_count: u32,
    pub last_recovery_attempt: Option<u64>,
    pub recovery_attempts: u32,
}

/// The weighted-recovery state of a key, as handed out by the store.
#[derive(Debug)]
pub struct WeightRecoveryState {
    pub backend_key: String,
    pub original_weight: u32,
    pub current_weight: u32,
    pub recovery_stage: RecoveryStage,
    pub last_success_time: u64,
    pub success_count: u32,
}

impl UnhealthyBackend {
    /// The record without its key.
    pub open spec fn info(&self) -> UnhealthyInfo {
        UnhealthyInfo {
            first_failure_time: self.first_failure_time,
            last_failure_time: self.last_failure_time,
            failure_count: self.failure_count,
            last_recovery_attempt: self.last_recovery_attempt,
            recovery_attempts: self.recovery_attempts,
        }
    }
}

impl WeightRecoveryState {
    /// The record without its key.
    pub open spec fn info(&self) -> RecoveryInfo {
        RecoveryInfo {
            original_weight: self.original_weight,
            current_weight: self.current_weight,
            recovery_stage: self.recovery_stage,
            last_success_time: self.last_success_time,
            success_count: self.success_count,
        }
    }
}

/// `weight * tenths / 10`, rounded down.
pub open spec fn scaled(weight: u32, tenths: int) -> int {
    weight as int * tenths / 10
}

/// The weight a backend carries at a stage of the ladder.
pub open spec fn stage_weight(stage: RecoveryStage, weight: u32) -> int {
    match stage {
        RecoveryStage::Unhealthy => scaled(weight, 1),
        RecoveryStage::RecoveryStage1 => scaled(weight, 3),
        RecoveryStage::RecoveryStage2 => scaled(weight, 5),
        RecoveryStage::FullyRecovered => weight as int,
    }
}

/// The stage that a number of passive successes puts a backend in.
pub open spec fn stage_for(success_count: int) -> RecoveryStage {
    if success_count <= 2 {
        RecoveryStage::RecoveryStage1
    } else if success_count <= 4 {
        RecoveryStage::RecoveryStage2
    } else {
        RecoveryStage::FullyRecovered
    }
}

/// `n + 1`, held at `u32::MAX`.
pub open spec fn bump(n: u32) -> u32 {
    if n < u32::MAX {
        (n + 1) as u32
    } else {
        n
    }
}

/// What is assumed of a key never observed: healthy, nothing recorded.
pub open spec fn fresh_metrics() -> KeyMetrics {
    KeyMetrics {
        healthy: true,
        latency: None,
        failure_count: 0,
        last_health_check: None,
        unhealthy: None,
        recovery_attempts: 0,
        recovery: None,
    }
}

/// A key is marked unhealthy exactly when it is a member of the unhealthy set.
pub open spec fn consistent(m: KeyMetrics) -> bool {
    m.healthy <==> m.unhealthy is None
}

/// The metrics with a latency observed.
pub open spec fn after_latency(m: KeyMetrics, latency: u64) -> KeyMetrics {
    KeyMetrics { latency: Some(latency), ..m }
}

/// The metrics with the time of a liveness probe stamped.
pub open spec fn after_health_check(m: KeyMetrics, now: u64) -> KeyMetrics {
    KeyMetrics { last_health_check: Some(now), ..m }
}

/// The metrics after a failure: unhealthy, one more failure counted, in the
/// unhealthy set (entered at `now` if it was not a member), no recovery state.
pub open spec fn after_failure(m: KeyMetrics, now: u64) -> KeyMetrics {
    KeyMetrics {
        healthy: false,
        failure_count: bump(m.failure_count),
        unhealthy: Some(
            match m.unhealthy {
                Some(u) => UnhealthyInfo {
                    last_failure_time: now,
                    failure_count: bump(u.failure_count),
                    ..u
                },
                None => UnhealthyInfo {
                    first_failure_time: now,
                    last_failure_time: now,
                    failure_count: 1,
                    last_recovery_attempt: None,
                    recovery_attempts: 0,
                },
            },
        ),
        recovery: None,
        ..m
    }
}

/// The metrics after a success: healthy, no failures, out of the unhealthy
/// set, no recovery attempts and no recovery state.
pub open spec fn after_success(m: KeyMetrics) -> KeyMetrics {
    KeyMetrics {
        healthy: true,
        failure_count: 0,
        unhealthy: None,
        recovery_attempts: 0,
        recovery: None,
        ..m
    }
}

/// The metrics after a recovery probe that failed: one more attempt
/// counted, and stamped on the unhealthy-set entry if there is one.
pub open spec fn after_recovery_attempt(m: KeyMetrics, now: u64) -> KeyMetrics {
    KeyMetrics {
        unhealthy: match m.unhealthy {
            Some(u) => Some(
                UnhealthyInfo {
                    last_recovery_attempt: Some(now),
                    recovery_attempts: bump(u.recovery_attempts),
                    ..u
                },
            ),
            None => None,
        },
        recovery_attempts: bump(m.recovery_attempts),
        ..m
    }
}

/// The metrics with a recovery ladder started at a tenth of the weight.
pub open spec fn after_init_recovery(m: KeyMetrics, original_weight: u32, now: u64) -> KeyMetrics {
    KeyMetrics {
        recovery: Some(
            RecoveryInfo {
                original_weight,
                current_weight: scaled(original_weight, 1) as u32,
                recovery_stage: RecoveryStage::Unhealthy,
                last_success_time: now,
                success_count: 0,
            },
        ),
        ..m
    }
}

/// One passive success: the recovery advance operator.
pub open spec fn after_passive_success(m: KeyMetrics, original_weight: u32, now: u64) -> KeyMetrics {
    match m.recovery {
        None => KeyMetrics {
            recovery: Some(
                RecoveryInfo {
                    original_weight,
                    current_weight: scaled(original_weight, 3) as u32,
                    recovery_stage: RecoveryStage::RecoveryStage1,
                    last_success_time: now,
                    success_count: 1,
                },
            ),
            ..m
        },
        Some(r) => {
            let count = bump(r.success_count);
            let stage = stage_for(count as int);
            if stage == r.recovery_stage {
                KeyMetrics {
                    recovery: Some(RecoveryInfo { last_success_time: now, success_count: count, ..r }),
                    ..m
                }
            } else if stage == RecoveryStage::FullyRecovered {
                KeyMetrics { healthy: true, unhealthy: None, recovery: None, ..m }
            } else {
                KeyMetrics {
                    recovery: Some(
                        RecoveryInfo {
                            current_weight: stage_weight(stage, original_weight) as u32,
                            recovery_stage: stage,
                            last_success_time: now,
                            success_count: count,
                            ..r
                        },
                    ),
                    ..m
                }
            }
        },
    }
}

/// The weight used for sampling today.
pub open spec fn effective_weight(m: KeyMetrics, original_weight: u32) -> int {
    match m.recovery {
        Some(r) => r.current_weight as int,
        None => if m.unhealthy is Some {
            scaled(original_weight, 1)
        } else {
            original_weight as int
        },
    }
}

/// Whether a recovery probe is due at `now`.
pub open spec fn recovery_check_due(m: KeyMetrics, interval: u64, now: u64) -> bool {
    match m.unhealthy {
        Some(u) => match u.last_recovery_attempt {
            Some(last) => now - last >= interval,
            None => true,
        },
        None => false,
    }
}


/// The metrics after a run of passive successes at the given times, with no failure between them.
pub open spec fn after_passive_successes(m: KeyMetrics, original_weight: u32, times: Seq<u64>) -> KeyMetrics
    decreases times.len(),
{
    if times.len() == 0 {
        m
    } else {
        after_passive_success(
            after_passive_successes(m, original_weight, times.drop_last()),
            original_weight,
            times.last(),
        )
    }
}

/// The stage after a number of passive successes on a ladder just started.
pub open spec fn ladder_stage(successes: int) -> RecoveryStage {
    if successes <= 0 {
        RecoveryStage::Unhealthy
    } else {
        stage_for(successes)
    }
}

/// Where a ladder stands after up to four successes, and that the fifth ends it.
proof fn lemma_ladder_state(m: KeyMetrics, original_weight: u32, started: u64, times: Seq<u64>)
    ensures
        ({
            let end = after_passive_successes(
                after_init_recovery(m, original_weight, started),
                original_weight,
                times,
            );
            &&& times.len() <= 4 ==> end.healthy == m.healthy && end.unhealthy == m.unhealthy && (end.recovery matches Some(
                r,
            ) && r.success_count == times.len() && r.recovery_stage == ladder_stage(times.len() as int)
                && r.current_weight == stage_weight(r.recovery_stage, original_weight))
            &&& times.len() >= 5 ==> end.healthy && end.unhealthy is None
            &&& times.len() == 5 ==> end.recovery is None
        }),
    decreases times.len(),
{
    if times.len() > 0 {
        lemma_ladder_state(m, original_weight, started, times.drop_last());
    }
}

/// Along a run of passive successes on a ladder just started, with no
/// failure between them, the effective weight never falls until the backend
/// has fully recovered and never exceeds the configured weight; with the
/// fifth success it is the configured weight; from the fifth success on the
/// key is out of the unhealthy set and healthy.
pub proof fn lemma_recovery_ladder(m: KeyMetrics, original_weight: u32, started: u64, times: Seq<u64>)
    ensures
        ({
            let start = after_init_recovery(m, original_weight, started);
            let end = after_passive_successes(start, original_weight, times);
            &&& 0 < times.len() <= 5 ==> effective_weight(
                after_passive_successes(start, original_weight, times.drop_last()),
                original_weight,
            ) <= effective_weight(end, original_weight)
            &&& times.len() <= 5 ==> 0 <= effective_weight(end, original_weight) <= original_weight
            &&& times.len() == 5 ==> effective_weight(end, original_weight) == original_weight
            &&& times.len() >= 5 ==> end.healthy && end.unhealthy is None
        }),
{
    lemma_ladder_state(m, original_weight, started, times);
    if times.len() > 0 {
        lemma_ladder_state(m, original_weight, started, times.drop_last());
    }
}

/// A failure drops the weighted-recovery state of the key and puts the key
/// in the unhealthy set, whatever was recorded before.
pub proof fn lemma_failure_resets_recovery(m: KeyMetrics, now: u64)
    ensures
        after_failure(m, now).recovery is None,
        after_failure(m, now).unhealthy is Some,
        !after_failure(m, now).healthy,
{
}

fn bump_count(n: u32) -> (r: u32)
    ensures
        r == bump(n),
{
    if n < u32::MAX {
        n + 1
    } else {
        n
    }
}

fn scale_weight(weight: u32, tenths: u64) -> (r: u32)
    requires
        tenths <= 10,
    ensures
        r == scaled(weight, tenths as int),
{
    let wide: u64 = weight as u64;
    assert(wide * tenths <= wide * 10) by (nonlinear_arith)
        requires
            tenths <= 10,
            wide >= 0,
    ;
    let part: u64 = wide * tenths / 10;
    part as u32
}

impl KeyMetrics {
    fn fresh() -> (r: KeyMetrics)
        ensures
            r == fresh_metrics(),
    {
        KeyMetrics {
            healthy: true,
            latency: None,
            failure_count: 0,
            last_health_check: None,
            unhealthy: None,
            recovery_attempts: 0,
            recovery: None,
        }
    }

    fn failed(self, now: u64) -> (r: KeyMetrics)
        ensures
            r == after_failure(self, now),
    {
        let info = match self.unhealthy {
            Some(u) => UnhealthyInfo {
                first_failure_time: u.first_failure_time,
                last_failure_time: now,
                failure_count: bump_count(u.failure_count),
                last_recovery_attempt: u.last_recovery_attempt,
                recovery_attempts: u.recovery_attempts,
            },
            None => UnhealthyInfo {
                first_failure_time: now,
                last_failure_time: now,
                failure_count: 1,
                last_recovery_attempt: None,
                recovery_attempts: 0,
            },
        };
        KeyMetrics {
            healthy: false,
            latency: self.latency,
            failure_count: bump_count(self.failure_count),
            last_health_check: self.last_health_check,
            unhealthy: Some(info),
            recovery_attempts: self.recovery_attempts,
            recovery: None,
        }
    }

    fn succeeded(self) -> (r: KeyMetrics)
        ensures
            r == after_success(self),
    {
        KeyMetrics {
            healthy: true,
            latency: self.latency,
            failure_count: 0,
            last_health_check: self.last_health_check,
            unhealthy: None,
            recovery_attempts: 0,
            recovery: None,
        }
    }

    fn probed(self, now: u64) -> (r: KeyMetrics)
        ensures
            r == after_recovery_attempt(self, now),
    {
        let unhealthy = match self.unhealthy {
            Some(u) => Some(
                UnhealthyInfo {
                    first_failure_time: u.first_failure_time,
                    last_failure_time: u.last_failure_time,
                    failure_count: u.failure_count,
                    last_recovery_attempt: Some(now),
                    recovery_attempts: bump_count(u.recovery_attempts),
                },
            ),
            None => None,
        };
        KeyMetrics {
            healthy: self.healthy,
            latency: self.latency,
            failure_count: self.failure_count,
            last_health_check: self.last_health_check,
            unhealthy,
            recovery_attempts: bump_count(self.recovery_attempts),
            recovery: self.recovery,
        }
    }

    fn with_recovery(self, recovery: Option<RecoveryInfo>) -> (r: KeyMetrics)
        ensures
            r == (KeyMetrics { recovery, ..self }),
    {
        KeyMetrics {
            healthy: self.healthy,
            latency: self.latency,
            failure_count: self.failure_count,
            last_health_check: self.last_health_check,
            unhealthy: self.unhealthy,
            recovery_attempts: self.recovery_attempts,
            recovery,
        }
    }

    fn recovery_started(self, original_weight: u32, now: u64) -> (r: KeyMetrics)
        ensures
            r == after_init_recovery(self, original_weight, now),
    {
        self.with_recovery(
            Some(
                RecoveryInfo {
                    original_weight,
                    current_weight: scale_weight(original_weight, 1),
                    recovery_stage: RecoveryStage::Unhealthy,
                    last_success_time: now,
                    success_count: 0,
                },
            ),
        )
    }

    fn passively_succeeded(self, original_weight: u32, now: u64) -> (r: KeyMetrics)
        ensures
            r == after_passive_success(self, original_weight, now),
    {
        match self.recovery {
            None => self.with_recovery(
                Some(
                    RecoveryInfo {
                        original_weight,
                        current_weight: scale_weight(original_weight, 3),
                        recovery_stage: RecoveryStage::RecoveryStage1,
                        last_success_time: now,
                        success_count: 1,
                    },
                ),
            ),
            Some(r) => {
                let count = bump_count(r.success_count);
                let stage = if count <= 2 {
                    RecoveryStage::RecoveryStage1
                } else if count <= 4 {
                    RecoveryStage::RecoveryStage2
                } else {
                    RecoveryStage::FullyRecovered
                };
                if stage == r.recovery_stage {
                    self.with_recovery(
                        Some(
                            RecoveryInfo {
                                original_weight: r.original_weight,
                                current_weight: r.current_weight,
                                recovery_stage: r.recovery_stage,
                                last_success_time: now,
                                success_count: count,
                            },
                        ),
                    )
                } else if stage == RecoveryStage::FullyRecovered {
                    KeyMetrics {
                        healthy: true,
                        latency: self.latency,
                        failure_count: self.failure_count,
                        last_health_check: self.last_health_check,
                        unhealthy: None,
                        recovery_attempts: self.recovery_attempts,
                        recovery: None,
                    }
                } else {
                    let weight = if stage == RecoveryStage::RecoveryStage1 {
                        scale_weight(original_weight, 3)
                    } else {
                        scale_weight(original_weight, 5)
                    };
                    self.with_recovery(
                        Some(
                            RecoveryInfo {
                                original_weight: r.original_weight,
                                current_weight: weight,
                                recovery_stage: stage,
                                last_success_time: now,
                                success_count: count,
                            },
                        ),
                    )
                }
            },
        }
    }

    fn weight_today(self, original_weight: u32) -> (r: u32)
        ensures
            r == effective_weight(self, original_weight),
    {
        match self.recovery {
            Some(r) => r.current_weight,
            None => if self.unhealthy.is_some() {
                scale_weight(original_weight, 1)
            } else {
                original_weight
            },
        }
    }

    fn check_due(self, interval: u64, now: u64) -> (r: bool)
        ensures
            r == recovery_check_due(self, interval, now),
    {
        match self.unhealthy {
            Some(u) => match u.last_recovery_attempt {
                Some(last) => now >= last && now - last >= interval,
                None => true,
            },
            None => false,
        }
    }
}


/// The stable identifier of a backend: provider name, a colon, upstream model name.
pub open spec fn backend_key(provider: Seq<char>, model: Seq<char>) -> Seq<char> {
    provider + seq![':'] + model
}

/// Builds the key under which a backend's metrics are kept.
pub fn compose_backend_key(provider: &str, model: &str) -> (key: String)
    ensures
        key@ == backend_key(provider@, model@),
{
    let mut key = String::from_str(provider);
    proof {
        reveal_strlit(":");
        assert(":"@ =~= seq![':']);
    }
    key.append(":");
    key.append(model);
    key
}

/// One key of the store with what is recorded under it.
pub struct MetricsEntry {
    pub key: String,
    pub state: KeyMetrics,
}

/// In-memory store of per-backend health and recovery state.
///
/// Its model is a total function from backend keys to [`KeyMetrics`]:
/// a key never observed has [`fresh_metrics`].
pub struct MetricsCollector {
    entries: Vec<MetricsEntry>,
}

impl MetricsCollector {
    spec fn has(&self, key: Seq<char>, i: int) -> bool {
        0 <= i < self.entries@.len() && self.entries@[i].key@ == key
    }

    /// No key is held twice, and every key is marked unhealthy exactly when
    /// it is a member of the unhealthy set.
    pub closed spec fn wf(&self) -> bool {
        &&& forall|i: int, j: int|
            0 <= i < j < self.entries@.len() ==> self.entries@[i].key@ != self.entries@[j].key@
        &&& forall|i: int|
            0 <= i < self.entries@.len() ==> consistent(#[trigger] self.entries@[i].state)
    }

    /// What is recorded under a key.
    pub closed spec fn metrics(&self, key: Seq<char>) -> KeyMetrics {
        if exists|i: int| self.has(key, i) {
            self.entries@[choose|i: int| self.has(key, i)].state
        } else {
            fresh_metrics()
        }
    }

    /// Membership in the unhealthy set.
    pub open spec fn in_unhealthy_set(&self, key: Seq<char>) -> bool {
        self.metrics(key).unhealthy is Some
    }

    /// `post` is `self` with `state` recorded under `key` and every other key untouched.
    pub open spec fn replaced(&self, post: &MetricsCollector, key: Seq<char>, state: KeyMetrics) -> bool {
        forall|k: Seq<char>| #[trigger]
            post.metrics(k) == if k == key {
                state
            } else {
                self.metrics(k)
            }
    }

    proof fn lemma_held(&self, i: int)
        requires
            self.wf(),
            0 <= i < self.entries@.len(),
        ensures
            self.metrics(self.entries@[i].key@) == self.entries@[i].state,
    {
        let key = self.entries@[i].key@;
        assert(self.has(key, i));
        let c = choose|c: int| self.has(key, c);
        assert(self.has(key, c));
        assert(c == i);
    }

    proof fn lemma_not_held(&self, key: Seq<char>)
        requires
            forall|i: int| 0 <= i < self.entries@.len() ==> self.entries@[i].key@ != key,
        ensures
            self.metrics(key) == fresh_metrics(),
    {
        assert(forall|i: int| !self.has(key, i));
    }

    /// Every key is marked unhealthy exactly when it is a member of the unhealthy set.
    pub proof fn lemma_health_matches_unhealthy_set(&self, key: Seq<char>)
        requires
            self.wf(),
        ensures
            !self.metrics(key).healthy <==> self.in_unhealthy_set(key),
    {
        if exists|i: int| self.has(key, i) {
            let c = choose|i: int| self.has(key, i);
            assert(self.has(key, c));
            assert(consistent(self.entries@[c].state));
        }
    }

    /// A store in which nothing is recorded.
    pub fn new() -> (r: MetricsCollector)
        ensures
            r.wf(),
            forall|k: Seq<char>| #[trigger] r.metrics(k) == fresh_metrics(),
    {
        let r = MetricsCollector { entries: Vec::new() };
        assert forall|k: Seq<char>| #[trigger] r.metrics(k) == fresh_metrics() by {
            assert(forall|i: int| !r.has(k, i));
        }
        r
    }

    fn find(&self, key: &String) -> (r: Option<usize>)
        ensures
            match r {
                Some(i) => self.has(key@, i as int),
                None => forall|i: int| !self.has(key@, i),
            },
    {
        let mut i: usize = 0;
        while i < self.entries.len()
            invariant
                i <= self.entries@.len(),
                forall|j: int| 0 <= j < i ==> self.entries@[j].key@ != key@,
            decreases self.entries@.len() - i,
        {
            if self.entries[i].key == *key {
                return Some(i);
            }
            i += 1;
        }
        None
    }

    fn state_of(&self, key: &String) -> (r: KeyMetrics)
        requires
            self.wf(),
        ensures
            r == self.metrics(key@),
            consistent(r),
    {
        match self.find(key) {
            Some(i) => {
                proof {
                    self.lemma_held(i as int);
                }
                self.entries[i].state
            },
            None => KeyMetrics::fresh(),
        }
    }

    fn store(&mut self, key: String, state: KeyMetrics)
        requires
            old(self).wf(),
            consistent(state),
        ensures
            final(self).wf(),
            old(self).replaced(final(self), key@, state),
    {
        let ghost pre = *self;
        let ghost name = key@;
        match self.find(&key) {
            Some(i) => {
                self.entries.set(i, MetricsEntry { key, state });
                proof {
                    assert(pre.has(name, i as int));
                    assert forall|a: int| 0 <= a < self.entries@.len() implies consistent(
                        #[trigger] self.entries@[a].state,
                    ) by {
                        if a != i {
                            assert(self.entries@[a].state == pre.entries@[a].state);
                        }
                    }
                    assert(self.wf());
                    assert(self.has(name, i as int));
                }
            },
            None => {
                self.entries.push(MetricsEntry { key, state });
                proof {
                    let last = pre.entries@.len() as int;
                    assert forall|a: int, b: int| 0 <= a < b < self.entries@.len() implies self.entries@[a].key@
                        != self.entries@[b].key@ by {
                        if b == last {
                            assert(!pre.has(name, a));
                        } else {
                            assert(self.entries@[a] == pre.entries@[a]);
                            assert(self.entries@[b] == pre.entries@[b]);
                        }
                    }
                    assert forall|a: int| 0 <= a < self.entries@.len() implies consistent(
                        #[trigger] self.entries@[a].state,
                    ) by {
                        if a != last {
                            assert(self.entries@[a].state == pre.entries@[a].state);
                        }
                    }
                    assert(self.wf());
                    assert(self.has(name, last));
                }
            },
        }
        proof {
            let post = *self;
            assert(forall|j: int| post.has(name, j) ==> post.entries@[j].state == state);
            assert(forall|j: int, k: Seq<char>| k != name && post.has(k, j) ==> pre.has(k, j) && pre.entries@[j].state == post.entries@[j].state);
            assert(forall|j: int, k: Seq<char>| k != name && pre.has(k, j) ==> post.has(k, j));
            assert forall|k: Seq<char>| #[trigger]
                post.metrics(k) == if k == name {
                    state
                } else {
                    pre.metrics(k)
                } by {
                if exists|j: int| post.has(k, j) {
                    let c = choose|j: int| post.has(k, j);
                    assert(post.has(k, c));
                    post.lemma_held(c);
                    if k != name {
                        assert(pre.has(k, c));
                        pre.lemma_held(c);
                    }
                } else {
                    assert forall|j: int| 0 <= j < post.entries@.len() implies post.entries@[j].key@ != k by {
                        assert(!post.has(k, j));
                    }
                    assert forall|j: int| 0 <= j < pre.entries@.len() implies pre.entries@[j].key@ != k by {
                        if pre.has(k, j) {
                            assert(post.has(k, j));
                        }
                    }
                    assert(exists|j: int| post.has(name, j));
                    pre.lemma_not_held(k);
                    post.lemma_not_held(k);
                }
            }
        }
    }

    /// Records the last observed latency of a backend.
    pub fn record_latency(&mut self, backend_key: &str, latency: u64)
        requires
            old(self).wf(),
        ensures
            final(self).wf(),
            old(self).replaced(
                final(self),
                backend_key@,
                after_latency(old(self).metrics(backend_key@), latency),
            ),
    {
        let key = String::from_str(backend_key);
        let m = self.state_of(&key);
        let state = KeyMetrics {
            healthy: m.healthy,
            latency: Some(latency),
            failure_count: m.failure_count,
            last_health_check: m.last_health_check,
            unhealthy: m.unhealthy,
            recovery_attempts: m.recovery_attempts,
            recovery: m.recovery,
        };
        self.store(key, state);
    }

    /// Records a failed request: the key enters (or stays in) the unhealthy
    /// set and any weighted-recovery state of it is dropped.
    pub fn record_failure(&mut self, backend_key: &str, now: u64)
        requires
            old(self).wf(),
        ensures
            final(self).wf(),
            old(self).replaced(
                final(self),
                backend_key@,
                after_failure(old(self).metrics(backend_key@), now),
            ),
            !final(self).metrics(backend_key@).healthy,
            final(self).in_unhealthy_set(backend_key@),
            final(self).metrics(backend_key@).recovery is None,
    {
        let key = String::from_str(backend_key);
        let state = self.state_of(&key).failed(now);
        self.store(key, state);
    }

    /// Records a successful request: the key is healthy again, with no
    /// failures, no unhealthy-set entry and no recovery state.
    pub fn record_success(&mut self, backend_key: &str)
        requires
            old(self).wf(),
        ensures
            final(self).wf(),
            old(self).replaced(
                final(self),
                backend_key@,
                after_success(old(self).metrics(backend_key@)),
            ),
            final(self).metrics(backend_key@).healthy,
            !final(self).in_unhealthy_set(backend_key@),
    {
        let key = String::from_str(backend_key);
        let state = self.state_of(&key).succeeded();
        self.store(key, state);
    }

    /// Whether the backend is healthy; one never observed is.
    pub fn is_healthy(&self, provider: &str, model: &str) -> (healthy: bool)
        requires
            self.wf(),
        ensures
            healthy == self.metrics(backend_key(provider@, model@)).healthy,
            healthy == !self.in_unhealthy_set(backend_key(provider@, model@)),
    {
        let key = compose_backend_key(provider, model);
        self.state_of(&key).healthy
    }

    /// The last latency recorded for the backend.
    pub fn get_latency(&self, provider: &str, model: &str) -> (latency: Option<u64>)
        requires
            self.wf(),
        ensures
            latency == self.metrics(backend_key(provider@, model@)).latency,
    {
        let key = compose_backend_key(provider, model);
        self.state_of(&key).latency
    }

    /// Failures since the last success.
    pub fn get_failure_count(&self, provider: &str, model: &str) -> (count: u32)
        requires
            self.wf(),
        ensures
            count == self.metrics(backend_key(provider@, model@)).failure_count,
    {
        let key = compose_backend_key(provider, model);
        self.state_of(&key).failure_count
    }

    /// Stamps the time of the latest liveness probe.
    pub fn update_health_check(&mut self, backend_key: &str, now: u64)
        requires
            old(self).wf(),
        ensures
            final(self).wf(),
            old(self).replaced(
                final(self),
                backend_key@,
                after_health_check(old(self).metrics(backend_key@), now),
            ),
    {
        let key = String::from_str(backend_key);
        let m = self.state_of(&key);
        let state = KeyMetrics {
            healthy: m.healthy,
            latency: m.latency,
            failure_count: m.failure_count,
            last_health_check: Some(now),
            unhealthy: m.unhealthy,
            recovery_attempts: m.recovery_attempts,
            recovery: m.recovery,
        };
        self.store(key, state);
    }

    /// Whether a recovery probe of the key is due: it is a member of the
    /// unhealthy set and was never probed, or not within `recovery_interval`.
    pub fn needs_recovery_check(&self, backend_key: &str, recovery_interval: u64, now: u64) -> (due: bool)
        requires
            self.wf(),
        ensures
            due == recovery_check_due(self.metrics(backend_key@), recovery_interval, now),
            due ==> self.in_unhealthy_set(backend_key@),
    {
        let key = String::from_str(backend_key);
        self.state_of(&key).check_due(recovery_interval, now)
    }

    /// Counts a recovery probe of the key and, for a member of the unhealthy
    /// set, stamps its time.
    pub fn record_recovery_attempt(&mut self, backend_key: &str, now: u64)
        requires
            old(self).wf(),
        ensures
            final(self).wf(),
            old(self).replaced(
                final(self),
                backend_key@,
                after_recovery_attempt(old(self).metrics(backend_key@), now),
            ),
    {
        let key = String::from_str(backend_key);
        let state = self.state_of(&key).probed(now);
        self.store(key, state);
    }

    /// Membership in the unhealthy set.
    pub fn is_in_unhealthy_list(&self, backend_key: &str) -> (member: bool)
        requires
            self.wf(),
        ensures
            member == self.in_unhealthy_set(backend_key@),
            member == !self.metrics(backend_key@).healthy,
    {
        let key = String::from_str(backend_key);
        self.state_of(&key).unhealthy.is_some()
    }

    /// Advances the recovery ladder of a backend billed per request by one
    /// observed success.
    pub fn record_passive_success(&mut self, backend_key: &str, original_weight: u32, now: u64)
        requires
            old(self).wf(),
        ensures
            final(self).wf(),
            old(self).replaced(
                final(self),
                backend_key@,
                after_passive_success(old(self).metrics(backend_key@), original_weight, now),
            ),
    {
        let key = String::from_str(backend_key);
        let state = self.state_of(&key).passively_succeeded(original_weight, now);
        self.store(key, state);
    }

    /// The weight used for sampling today.
    pub fn get_effective_weight(&self, backend_key: &str, original_weight: u32) -> (weight: u32)
        requires
            self.wf(),
        ensures
            weight == effective_weight(self.metrics(backend_key@), original_weight),
    {
        let key = String::from_str(backend_key);
        self.state_of(&key).weight_today(original_weight)
    }

    /// Starts the recovery ladder of a backend billed per request at a tenth
    /// of its weight.
    pub fn initialize_per_request_recovery(&mut self, backend_key: &str, original_weight: u32, now: u64)
        requires
            old(self).wf(),
        ensures
            final(self).wf(),
            old(self).replaced(
                final(self),
                backend_key@,
                after_init_recovery(old(self).metrics(backend_key@), original_weight, now),
            ),
    {
        let key = String::from_str(backend_key);
        let state = self.state_of(&key).recovery_started(original_weight, now);
        self.store(key, state);
    }

    /// The weighted-recovery state of a key, if it has one.
    pub fn get_recovery_state(&self, backend_key: &str) -> (state: Option<WeightRecoveryState>)
        requires
            self.wf(),
        ensures
            match state {
                Some(s) => s.backend_key@ == backend_key@ && self.metrics(backend_key@).recovery
                    == Some(s.info()),
                None => self.metrics(backend_key@).recovery is None,
            },
    {
        let key = String::from_str(backend_key);
        match self.state_of(&key).recovery {
            Some(r) => Some(
                WeightRecoveryState {
                    backend_key: key,
                    original_weight: r.original_weight,
                    current_weight: r.current_weight,
                    recovery_stage: r.recovery_stage,
                    last_success_time: r.last_success_time,
                    success_count: r.success_count,
                },
            ),
            None => None,
        }
    }

    /// The members of the unhealthy set, each once.
    pub fn get_unhealthy_backends(&self) -> (list: Vec<UnhealthyBackend>)
        requires
            self.wf(),
        ensures
            forall|j: int|
                0 <= j < list@.len() ==> self.metrics(#[trigger] list@[j].backend_key@).unhealthy
                    == Some(list@[j].info()),
            forall|k: Seq<char>|
                self.in_unhealthy_set(k) ==> exists|j: int|
                    0 <= j < list@.len() && #[trigger] list@[j].backend_key@ == k,
            forall|i: int, j: int|
                0 <= i < j < list@.len() ==> list@[i].backend_key@ != list@[j].backend_key@,
    {
        let mut list: Vec<UnhealthyBackend> = Vec::new();
        let ghost mut from: Seq<int> = Seq::empty();
        let mut i: usize = 0;
        while i < self.entries.len()
            invariant
                self.wf(),
                i <= self.entries@.len(),
                from.len() == list@.len(),
                forall|j: int|
                    0 <= j < list@.len() ==> 0 <= #[trigger] from[j] < i && list@[j].backend_key@
                        == self.entries@[from[j]].key@ && self.entries@[from[j]].state.unhealthy
                        == Some(list@[j].info()),
                forall|e: int|
                    0 <= e < i && (#[trigger] self.entries@[e]).state.unhealthy is Some ==> exists|j: int|
                        0 <= j < list@.len() && #[trigger] list@[j].backend_key@ == self.entries@[e].key@,
                forall|a: int, b: int|
                    0 <= a < b < list@.len() ==> list@[a].backend_key@ != list@[b].backend_key@,
            decreases self.entries@.len() - i,
        {
            let ghost before = list@;
            match self.entries[i].state.unhealthy {
                Some(u) => {
                    list.push(
                        UnhealthyBackend {
                            backend_key: self.entries[i].key.clone(),
                            first_failure_time: u.first_failure_time,
                            last_failure_time: u.last_failure_time,
                            failure_count: u.failure_count,
                            last_recovery_attempt: u.last_recovery_attempt,
                            recovery_attempts: u.recovery_attempts,
                        },
                    );
                    proof {
                        from = from.push(i as int);
                        let last = before.len() as int;
                        assert(list@[last].backend_key@ == self.entries@[i as int].key@);
                        assert forall|e: int|
                            0 <= e < i + 1 && (#[trigger] self.entries@[e]).state.unhealthy is Some implies exists|
                            j: int,
                        |
                            0 <= j < list@.len() && #[trigger] list@[j].backend_key@ == self.entries@[e].key@ by {
                            if e < i {
                                let j = choose|j: int|
                                    0 <= j < before.len() && #[trigger] before[j].backend_key@
                                        == self.entries@[e].key@;
                                assert(list@[j] == before[j]);
                            }
                        }
                        assert forall|a: int, b: int| 0 <= a < b < list@.len() implies list@[a].backend_key@
                            != list@[b].backend_key@ by {
                            assert(list@[a] == before[a]);
                            if b < last {
                                assert(list@[b] == before[b]);
                            } else {
                                assert(from[a] < i);
                            }
                        }
                    }
                },
                None => {},
            }
            i += 1;
        }
        proof {
            assert forall|j: int| 0 <= j < list@.len() implies self.metrics(
                #[trigger] list@[j].backend_key@,
            ).unhealthy == Some(list@[j].info()) by {
                self.lemma_held(from[j]);
            }
            assert forall|k: Seq<char>| self.in_unhealthy_set(k) implies exists|j: int|
                0 <= j < list@.len() && #[trigger] list@[j].backend_key@ == k by {
                if exists|e: int| self.has(k, e) {
                    let e = choose|e: int| self.has(k, e);
                    assert(self.has(k, e));
                    self.lemma_held(e);
                    assert(self.entries@[e].state.unhealthy is Some);
                }
            }
        }
        list
    }
}

impl Default for MetricsCollector {
    fn default() -> (r: MetricsCollector)
        ensures
            r.wf(),
            forall|k: Seq<char>| #[trigger] r.metrics(k) == fresh_metrics(),
    {
        MetricsCollector::new()
    }
}

} // verus!
