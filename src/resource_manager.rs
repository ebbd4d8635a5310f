//! Memory-pressure predicates, the circuit breaker that guards non-critical
//! work, and task priorities.
use vstd::prelude::*;

use crate::clock::now_timestamp;

verus! {

/// One reading of system memory, in megabytes.
#[derive(Debug, Clone)]
pub struct MemoryUsage {
    pub total_mb: u64,
    pub used_mb: u64,
    pub available_mb: u64,
    /// When the reading was taken.
    pub timestamp: i64,
}

impl MemoryUsage {
    /// A reading is consistent when used and available memory fit in the total.
    pub open spec fn wf(&self) -> bool {
        &&& self.used_mb <= self.total_mb
        &&& self.available_mb <= self.total_mb
    }

    /// Used memory strictly above `percent` percent of the total.
    pub open spec fn above_percent(&self, percent: int) -> bool {
        self.used_mb as int * 100 > percent * self.total_mb as int
    }

    /// Builds a reading from the totals a memory report gives in kilobytes.
    /// A report without a total is refused.
    pub fn from_kb(total_kb: u64, available_kb: u64, timestamp: i64) -> (r: Result<MemoryUsage, crate::error::DirSoulError>)
        ensures
            total_kb / 1024 == 0 <==> r is Err,
            r is Ok ==> ({
                let u = r->Ok_0;
                &&& u.wf()
                &&& u.total_mb == total_kb / 1024
                &&& u.available_mb == if available_kb / 1024 <= total_kb / 1024 { available_kb / 1024 } else { total_kb / 1024 }
                &&& u.used_mb == u.total_mb - u.available_mb
                &&& u.timestamp == timestamp
            }),
    {
        let total_mb = total_kb / 1024;
        if total_mb == 0 {
            return Err(crate::error::DirSoulError::Config("memory report has no total".to_string()));
        }
        let available_mb = if available_kb / 1024 <= total_mb { available_kb / 1024 } else { total_mb };
        Ok(MemoryUsage { total_mb, used_mb: total_mb - available_mb, available_mb, timestamp })
    }

    /// Used memory is above 85% of the total.
    pub fn is_under_pressure(&self) -> (r: bool)
        requires
            self.wf(),
        ensures
            r == self.above_percent(85),
    {
        (self.used_mb as u128) * 100 > 85 * (self.total_mb as u128)
    }

    /// Used memory is above 95% of the total.
    pub fn is_critical(&self) -> (r: bool)
        requires
            self.wf(),
        ensures
            r == self.above_percent(95),
    {
        (self.used_mb as u128) * 100 > 95 * (self.total_mb as u128)
    }

    /// Memory not in use.
    pub fn remaining_mb(&self) -> (r: u64)
        requires
            self.wf(),
        ensures
            r == self.total_mb - self.used_mb,
    {
        self.total_mb - self.used_mb
    }
}

/// Settings of the resource manager.
#[derive(Debug, Clone)]
pub struct ResourceManagerConfig {
    pub max_memory_mb: u64,
    /// Idle time after which the model may be offloaded.
    pub offload_timeout_sec: u64,
    /// How often memory is polled.
    pub check_interval_sec: u64,
    pub enable_model_offloading: bool,
    pub enable_auto_cleanup: bool,
    /// Used-memory percentage above which the breaker trips.
    pub critical_memory_threshold: u64,
}

impl ResourceManagerConfig {
    /// The defaults: 6500 MB, offload after 600 s idle, poll every 30 s,
    /// offloading and cleanup on, breaker at 90%.
    pub fn default() -> (r: ResourceManagerConfig)
        ensures
            r.max_memory_mb == 6500,
            r.offload_timeout_sec == 600,
            r.check_interval_sec == 30,
            r.enable_model_offloading,
            r.enable_auto_cleanup,
            r.critical_memory_threshold == 90,
    {
        ResourceManagerConfig {
            max_memory_mb: 6500,
            offload_timeout_sec: 600,
            check_interval_sec: 30,
            enable_model_offloading: true,
            enable_auto_cleanup: true,
            critical_memory_threshold: 90,
        }
    }
}

/// Most readings the manager keeps.
pub const HISTORY_LIMIT: usize = 100;

/// Keeps a bounded history of readings and the idle timer of the model.
pub struct ResourceManager {
    pub config: ResourceManagerConfig,
    /// Time of the last recorded activity.
    pub last_activity: i64,
    pub model_loaded: bool,
    pub history: Vec<MemoryUsage>,
}

impl ResourceManager {
    pub open spec fn wf(&self) -> bool {
        self.history@.len() <= HISTORY_LIMIT
    }

    /// A manager whose idle timer starts at `now`, with the model loaded.
    pub fn new_at(config: ResourceManagerConfig, now: i64) -> (r: ResourceManager)
        ensures
            r.wf(),
            r.config == config,
            r.last_activity == now,
            r.model_loaded,
            r.history@.len() == 0,
    {
        ResourceManager { config, last_activity: now, model_loaded: true, history: Vec::new() }
    }

    /// A manager whose idle timer starts now.
    pub fn new(config: ResourceManagerConfig) -> (r: ResourceManager)
        ensures
            r.wf(),
            r.config == config,
            r.model_loaded,
            r.history@.len() == 0,
    {
        ResourceManager::new_at(config, now_timestamp())
    }

    /// Any plugin activity resets the idle timer.
    pub fn record_activity_at(&mut self, now: i64)
        ensures
            final(self).last_activity == now,
            final(self).config == old(self).config,
            final(self).model_loaded == old(self).model_loaded,
            final(self).history == old(self).history,
    {
        self.last_activity = now;
    }

    /// Seconds since the last activity; zero when `now` lies before it.
    pub open spec fn idle_seconds(&self, now: i64) -> int {
        if now as int > self.last_activity as int { now as int - self.last_activity as int } else { 0 }
    }

    /// The model is offloaded when offloading is enabled, it has been idle at
    /// least the configured timeout, and memory is above 80%.
    pub fn should_offload_model(&self, now: i64, usage: &MemoryUsage) -> (r: bool)
        requires
            usage.wf(),
        ensures
            r == (self.config.enable_model_offloading
                && self.idle_seconds(now) >= self.config.offload_timeout_sec as int
                && usage.above_percent(80)),
    {
        if !self.config.enable_model_offloading {
            return false;
        }
        let idle: u64 = if now > self.last_activity {
            (now as i128 - self.last_activity as i128) as u64
        } else {
            0
        };
        if (now as i128 - self.last_activity as i128) > u64::MAX as i128 {
            return (usage.used_mb as u128) * 100 > 80 * (usage.total_mb as u128);
        }
        if idle < self.config.offload_timeout_sec {
            return false;
        }
        (usage.used_mb as u128) * 100 > 80 * (usage.total_mb as u128)
    }

    /// Appends a reading, dropping the oldest once the history is full.
    pub fn record_usage(&mut self, usage: MemoryUsage)
        requires
            old(self).wf(),
        ensures
            final(self).wf(),
            final(self).history@.last() == usage,
            old(self).history@.len() < HISTORY_LIMIT ==> final(self).history@ == old(self).history@.push(usage),
            old(self).history@.len() == HISTORY_LIMIT ==> final(self).history@ == old(self).history@.push(usage).drop_first(),
            final(self).config == old(self).config,
            final(self).last_activity == old(self).last_activity,
    {
        self.history.push(usage);
        if self.history.len() > HISTORY_LIMIT {
            self.history.remove(0);
        }
    }

    /// Whether the circuit breaker should trip for this reading: used memory
    /// above the configured critical percentage.
    pub fn should_trip_circuit_breaker(&self, usage: &MemoryUsage) -> (r: bool)
        requires
            usage.wf(),
        ensures
            r == usage.above_percent(self.config.critical_memory_threshold as int),
    {
        let t = self.config.critical_memory_threshold as u128;
        let m = usage.total_mb as u128;
        proof {
            assert(t * m <= 0xffff_ffff_ffff_ffffu128 * 0xffff_ffff_ffff_ffffu128) by (nonlinear_arith)
                requires
                    t <= 0xffff_ffff_ffff_ffffu128,
                    m <= 0xffff_ffff_ffff_ffffu128,
            ;
        }
        (usage.used_mb as u128) * 100 > t * m
    }
}

/// Blocks non-critical tasks for a cooldown window after memory turned critical.
pub struct CircuitBreaker {
    is_open: bool,
    /// When the breaker was last tripped or reset.
    last_check: i64,
    cooldown_sec: u64,
}

impl CircuitBreaker {
    pub closed spec fn spec_is_open(&self) -> bool {
        self.is_open
    }

    pub closed spec fn spec_last_check(&self) -> i64 {
        self.last_check
    }

    pub closed spec fn spec_cooldown(&self) -> u64 {
        self.cooldown_sec
    }

    /// The cooldown has run out at `now`: strictly more seconds than the
    /// cooldown have passed since the breaker was last tripped or reset.
    pub open spec fn cooled_down(&self, now: i64) -> bool {
        now as int - self.spec_last_check() as int > self.spec_cooldown() as int
    }

    /// A closed breaker, with its clock set at `now`.
    pub fn new_at(cooldown_sec: u64, now: i64) -> (r: CircuitBreaker)
        ensures
            !r.spec_is_open(),
            r.spec_last_check() == now,
            r.spec_cooldown() == cooldown_sec,
    {
        CircuitBreaker { is_open: false, last_check: now, cooldown_sec }
    }

    /// A closed breaker, with its clock set now.
    pub fn new(cooldown_sec: u64) -> (r: CircuitBreaker)
        ensures
            !r.spec_is_open(),
            r.spec_cooldown() == cooldown_sec,
    {
        CircuitBreaker::new_at(cooldown_sec, now_timestamp())
    }

    /// Closes the breaker once the cooldown has run out, then tells whether
    /// tasks may run.
    pub fn allow_task_at(&mut self, now: i64) -> (r: bool)
        ensures
            final(self).spec_is_open() == (old(self).spec_is_open() && !old(self).cooled_down(now)),
            final(self).spec_last_check() == old(self).spec_last_check(),
            final(self).spec_cooldown() == old(self).spec_cooldown(),
            r == !final(self).spec_is_open(),
    {
        if (now as i128) - (self.last_check as i128) > self.cooldown_sec as i128 {
            self.is_open = false;
        }
        !self.is_open
    }

    /// As `allow_task_at`, at the current time.
    pub fn allow_task(&mut self) -> (r: bool)
        ensures
            final(self).spec_last_check() == old(self).spec_last_check(),
            final(self).spec_cooldown() == old(self).spec_cooldown(),
            !old(self).spec_is_open() ==> !final(self).spec_is_open(),
            final(self).spec_is_open() ==> old(self).spec_is_open(),
            r == !final(self).spec_is_open(),
    {
        self.allow_task_at(now_timestamp())
    }

    /// Opens the breaker at `now`.
    pub fn trip_at(&mut self, now: i64)
        ensures
            final(self).spec_is_open(),
            final(self).spec_last_check() == now,
            final(self).spec_cooldown() == old(self).spec_cooldown(),
    {
        self.is_open = true;
        self.last_check = now;
    }

    /// Opens the breaker now.
    pub fn trip(&mut self)
        ensures
            final(self).spec_is_open(),
            final(self).spec_cooldown() == old(self).spec_cooldown(),
    {
        self.trip_at(now_timestamp())
    }

    /// Closes the breaker at `now`.
    pub fn reset_at(&mut self, now: i64)
        ensures
            !final(self).spec_is_open(),
            final(self).spec_last_check() == now,
            final(self).spec_cooldown() == old(self).spec_cooldown(),
    {
        self.is_open = false;
        self.last_check = now;
    }

    /// Closes the breaker now.
    pub fn reset(&mut self)
        ensures
            !final(self).spec_is_open(),
            final(self).spec_cooldown() == old(self).spec_cooldown(),
    {
        self.reset_at(now_timestamp())
    }

    /// Whether tasks are currently blocked.
    pub fn is_open(&self) -> (r: bool)
        ensures
            r == self.spec_is_open(),
    {
        self.is_open
    }
}

/// Priority of a scheduled task; `Critical` always runs.
#[derive(Debug, Clone, Copy, PartialEq, Eq, Structural, PartialOrd, Ord, Hash)]
pub enum TaskPriority {
    Critical,
    High,
    Medium,
    Low,
}

/// A unit of background work with its memory estimate.
#[derive(Debug, Clone)]
pub struct ScheduledTask {
    pub id: String,
    pub priority: TaskPriority,
    pub estimated_memory_mb: u64,
    pub description: String,
}

impl ScheduledTask {
    pub fn new(id: String, priority: TaskPriority, estimated_memory_mb: u64, description: String) -> (r: ScheduledTask)
        ensures
            r.id == id,
            r.priority == priority,
            r.estimated_memory_mb == estimated_memory_mb,
            r.description == description,
    {
        ScheduledTask { id, priority, estimated_memory_mb, description }
    }

    /// The task fits in the memory that is available.
    pub fn can_run(&self, available_memory_mb: u64) -> (r: bool)
        ensures
            r == (self.estimated_memory_mb <= available_memory_mb),
    {
        self.estimated_memory_mb <= available_memory_mb
    }
}

/// Decides which scheduled tasks run, from readings handed to it.
pub struct ResourceAwareScheduler {
    pub circuit_breaker: CircuitBreaker,
}

impl ResourceAwareScheduler {
    /// A scheduler with a one-minute breaker cooldown starting at `now`.
    pub fn new_at(now: i64) -> (r: ResourceAwareScheduler)
        ensures
            !r.circuit_breaker.spec_is_open(),
            r.circuit_breaker.spec_cooldown() == 60,
    {
        ResourceAwareScheduler { circuit_breaker: CircuitBreaker::new_at(60, now) }
    }

    /// Whether `task` is admitted at `now` given a fresh memory reading.
    /// Critical tasks always run. Others are held while the breaker is open
    /// and within its cooldown, and while memory is critical; otherwise they
    /// run when their estimate fits in available memory.
    pub open spec fn admits(&self, task: ScheduledTask, usage: MemoryUsage, now: i64) -> bool {
        if task.priority == TaskPriority::Critical {
            true
        } else {
            !(self.circuit_breaker.spec_is_open() && !self.circuit_breaker.cooled_down(now))
                && !usage.above_percent(95)
                && task.estimated_memory_mb <= usage.available_mb
        }
    }

    /// Decides whether `task` runs at `now`; a critical reading trips the
    /// breaker for the tasks that follow.
    pub fn should_schedule(&mut self, task: &ScheduledTask, usage: &MemoryUsage, now: i64) -> (r: bool)
        requires
            usage.wf(),
        ensures
            r == old(self).admits(*task, *usage, now),
            task.priority != TaskPriority::Critical && usage.above_percent(95) ==> final(self).circuit_breaker.spec_is_open(),
            final(self).circuit_breaker.spec_cooldown() == old(self).circuit_breaker.spec_cooldown(),
    {
        if task.priority == TaskPriority::Critical {
            return true;
        }
        if self.circuit_breaker.is_open() {
            if !self.circuit_breaker.allow_task_at(now) {
                if usage.is_critical() {
                    self.circuit_breaker.trip_at(now);
                }
                return false;
            }
        }
        if usage.is_critical() {
            self.circuit_breaker.trip_at(now);
            return false;
        }
        task.can_run(usage.available_mb)
    }
}

/// While memory is critical, a scheduler admits a task only if the task is
/// critical.
pub proof fn lemma_critical_memory_admits_only_critical_tasks(
    scheduler: ResourceAwareScheduler,
    task: ScheduledTask,
    usage: MemoryUsage,
    now: i64,
)
    requires
        usage.wf(),
        usage.above_percent(95),
        scheduler.admits(task, usage, now),
    ensures
        task.priority == TaskPriority::Critical,
{
}

} // verus!
