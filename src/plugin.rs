//! The plugin envelope: graded permissions, installation, the guarded memory
//! interface handed to plugins, health and restarts, and the routing of
//! `@plugin query` commands.
use vstd::prelude::*;

use crate::cognitive::CognitiveView;
use crate::error::DirSoulError;
use crate::models::{Entity, EventMemory};
use crate::text::{chars_of, is_space, string_of, trimmed, trim};

verus! {

/// What a plugin may do with memory; the levels form a chain.
#[derive(Debug, Clone, Copy, PartialEq, Eq, Structural, Hash)]
pub enum MemoryPermission {
    /// Statistics only.
    ReadOnly,
    /// Can also create views and read entities.
    ReadWriteDerived,
    /// Can also read and create events.
    ReadWriteEvents,
}

impl MemoryPermission {
    /// The level of the permission, from 1 to 3.
    pub open spec fn level(self) -> int {
        match self {
            MemoryPermission::ReadOnly => 1,
            MemoryPermission::ReadWriteDerived => 2,
            MemoryPermission::ReadWriteEvents => 3,
        }
    }

    pub fn from_i32(value: i32) -> (r: Option<MemoryPermission>)
        ensures
            r is Some <==> 1 <= value <= 3,
            r is Some ==> r->Some_0.level() == value,
    {
        match value {
            1 => Some(MemoryPermission::ReadOnly),
            2 => Some(MemoryPermission::ReadWriteDerived),
            3 => Some(MemoryPermission::ReadWriteEvents),
            _ => None,
        }
    }

    pub fn as_i32(self) -> (r: i32)
        ensures
            r == self.level(),
    {
        match self {
            MemoryPermission::ReadOnly => 1,
            MemoryPermission::ReadWriteDerived => 2,
            MemoryPermission::ReadWriteEvents => 3,
        }
    }

    pub fn can_read_stats(self) -> (r: bool)
        ensures
            r == (self.level() >= 1),
    {
        true
    }

    pub fn can_modify_views(self) -> (r: bool)
        ensures
            r == (self.level() >= 2),
    {
        self.as_i32() >= 2
    }

    pub fn can_read_entities(self) -> (r: bool)
        ensures
            r == (self.level() >= 2),
    {
        self.as_i32() >= 2
    }

    pub fn can_create_events(self) -> (r: bool)
        ensures
            r == (self.level() >= 3),
    {
        self.as_i32() >= 3
    }

    /// This permission is at least `other` in the chain.
    pub fn covers(self, other: MemoryPermission) -> (r: bool)
        ensures
            r == (self.level() >= other.level()),
    {
        self.as_i32() >= other.as_i32()
    }
}

/// Which events a plugin wants to hear of.
#[derive(Debug, Clone, PartialEq, Eq, Hash)]
pub enum EventSubscription {
    All,
    /// Events with this action.
    Action(String),
    /// Events whose target holds this text.
    TargetPattern(String),
    /// A filter the plugin applies itself; the runtime forwards nothing for it.
    CustomFilter(String),
}

impl EventSubscription {
    pub open spec fn spec_matches(&self, action: Seq<char>, target: Seq<char>) -> bool {
        match self {
            EventSubscription::All => true,
            EventSubscription::Action(a) => a@ == action,
            EventSubscription::TargetPattern(p) => crate::text::seq_contains(target, p@),
            EventSubscription::CustomFilter(_) => false,
        }
    }

    /// Whether an event with this action and target is forwarded.
    pub fn matches(&self, action: &String, target: &String) -> (r: bool)
        ensures
            r == self.spec_matches(action@, target@),
    {
        match self {
            EventSubscription::All => true,
            EventSubscription::Action(a) => *a == *action,
            EventSubscription::TargetPattern(p) => {
                let t = chars_of(target.as_str());
                let q = chars_of(p.as_str());
                crate::text::contains(t.as_slice(), q.as_slice())
            },
            EventSubscription::CustomFilter(_) => false,
        }
    }
}

/// Who a plugin is and what it asks for.
#[derive(Debug, Clone)]
pub struct PluginMetadata {
    pub id: String,
    pub name: String,
    pub version: String,
    pub description: String,
    pub required_permission: MemoryPermission,
    pub author: String,
    pub supported_events: Vec<String>,
    pub is_builtin: bool,
}

impl PluginMetadata {
    /// Two descriptions agree field by field (the event list by value).
    pub open spec fn same_as(&self, o: &PluginMetadata) -> bool {
        &&& self.id == o.id
        &&& self.name == o.name
        &&& self.version == o.version
        &&& self.description == o.description
        &&& self.required_permission == o.required_permission
        &&& self.author == o.author
        &&& self.supported_events@ == o.supported_events@
        &&& self.is_builtin == o.is_builtin
    }

    /// A field-by-field copy.
    pub fn duplicate(&self) -> (r: PluginMetadata)
        ensures
            r.same_as(self),
    {
        let mut events: Vec<String> = Vec::new();
        let mut i: usize = 0;
        while i < self.supported_events.len()
            invariant
                i <= self.supported_events@.len(),
                events@ == self.supported_events@.subrange(0, i as int),
            decreases self.supported_events@.len() - i,
        {
            events.push(self.supported_events[i].clone());
            i += 1;
            assert(events@ =~= self.supported_events@.subrange(0, i as int));
        }
        assert(events@ =~= self.supported_events@);
        PluginMetadata {
            id: self.id.clone(),
            name: self.name.clone(),
            version: self.version.clone(),
            description: self.description.clone(),
            required_permission: self.required_permission,
            author: self.author.clone(),
            supported_events: events,
            is_builtin: self.is_builtin,
        }
    }
}

/// The stored description of an installed plugin.
#[derive(Debug, Clone)]
pub struct PluginSpec {
    pub id: String,
    pub name: String,
    pub version: String,
    pub description: String,
    pub required_permission: i32,
    pub author: String,
    pub executable: Option<String>,
    pub is_builtin: bool,
}

impl PluginSpec {
    pub fn from_metadata(metadata: &PluginMetadata) -> (r: PluginSpec)
        ensures
            r.id == metadata.id,
            r.name == metadata.name,
            r.version == metadata.version,
            r.description == metadata.description,
            r.required_permission == metadata.required_permission.level(),
            r.author == metadata.author,
            r.executable is None,
            r.is_builtin == metadata.is_builtin,
    {
        PluginSpec {
            id: metadata.id.clone(),
            name: metadata.name.clone(),
            version: metadata.version.clone(),
            description: metadata.description.clone(),
            required_permission: metadata.required_permission.as_i32(),
            author: metadata.author.clone(),
            executable: None,
            is_builtin: metadata.is_builtin,
        }
    }
}

/// Deadlines of the plugin handlers, in seconds.
#[derive(Debug, Clone, Copy)]
pub struct PluginTimeoutConfig {
    pub default_timeout_secs: u64,
    pub init_timeout_secs: u64,
    pub cleanup_timeout_secs: u64,
}

impl PluginTimeoutConfig {
    /// 30 s for queries, 60 s for initialisation, 10 s for cleanup.
    pub fn default() -> (r: PluginTimeoutConfig)
        ensures
            r.default_timeout_secs == 30,
            r.init_timeout_secs == 60,
            r.cleanup_timeout_secs == 10,
    {
        PluginTimeoutConfig { default_timeout_secs: 30, init_timeout_secs: 60, cleanup_timeout_secs: 10 }
    }
}

/// Counts a plugin may read.
#[derive(Debug, Clone, Copy)]
pub struct Statistics {
    pub event_count: usize,
    pub view_count: usize,
    pub concept_count: usize,
    pub entity_count: usize,
}

/// The memory a plugin reaches through its context.
pub struct PluginMemory {
    pub events: Vec<EventMemory>,
    pub views: Vec<CognitiveView>,
    pub entities: Vec<Entity>,
    pub concept_count: usize,
}

/// What a plugin is allowed to do on behalf of one user.
#[derive(Debug, Clone)]
pub struct PluginContext {
    pub plugin_id: String,
    pub user_id: String,
    pub permission: MemoryPermission,
}

impl PluginContext {
    pub fn new(plugin_id: String, user_id: String, permission: MemoryPermission) -> (r: PluginContext)
        ensures
            r.plugin_id == plugin_id,
            r.user_id == user_id,
            r.permission == permission,
    {
        PluginContext { plugin_id, user_id, permission }
    }

    /// Refuses with a permission error unless the grant reaches `needed`.
    pub fn authorize(&self, needed: MemoryPermission) -> (r: Result<(), DirSoulError>)
        ensures
            r is Ok <==> self.permission.level() >= needed.level(),
            r is Err ==> r->Err_0 is Permission,
    {
        if self.permission.covers(needed) {
            Ok(())
        } else {
            Err(DirSoulError::Permission("operation exceeds the plugin's grant".to_string()))
        }
    }

    /// Stores an event for the context's user; needs the events grant, and
    /// the event must be valid and belong to that user.
    pub fn create_event(&self, memory: &mut PluginMemory, event: EventMemory) -> (r: Result<(), DirSoulError>)
        ensures
            self.permission.level() < 3 ==> r is Err && r->Err_0 is Permission,
            r is Ok <==> (self.permission.level() >= 3 && event.wf() && event.user_id@ == self.user_id@),
            r is Ok ==> final(memory).events@ == old(memory).events@.push(event),
            r is Err ==> final(memory).events@ == old(memory).events@,
            final(memory).views@ == old(memory).views@,
            final(memory).entities@ == old(memory).entities@,
    {
        self.authorize(MemoryPermission::ReadWriteEvents)?;
        if event.user_id != self.user_id {
            return Err(DirSoulError::Permission("event belongs to another user".to_string()));
        }
        event.validate()?;
        memory.events.push(event);
        Ok(())
    }

    /// Stores a view for the context's user; needs the derived grant.
    pub fn create_view(&self, memory: &mut PluginMemory, view: CognitiveView) -> (r: Result<(), DirSoulError>)
        ensures
            self.permission.level() < 2 ==> r is Err && r->Err_0 is Permission,
            r is Ok <==> (self.permission.level() >= 2 && view.user_id@ == self.user_id@),
            r is Ok ==> final(memory).views@ == old(memory).views@.push(view),
            r is Err ==> final(memory).views@ == old(memory).views@,
            final(memory).events@ == old(memory).events@,
            final(memory).entities@ == old(memory).entities@,
    {
        self.authorize(MemoryPermission::ReadWriteDerived)?;
        if view.user_id != self.user_id {
            return Err(DirSoulError::Permission("view belongs to another user".to_string()));
        }
        memory.views.push(view);
        Ok(())
    }

    /// The ids of the user's events; needs the events grant.
    pub fn query_events(&self, memory: &PluginMemory) -> (r: Result<Vec<u64>, DirSoulError>)
        ensures
            r is Ok <==> self.permission.level() >= 3,
            r is Err ==> r->Err_0 is Permission,
            r is Ok ==> r->Ok_0@ == owned_event_ids(memory.events@, self.user_id@, memory.events@.len() as int),
    {
        self.authorize(MemoryPermission::ReadWriteEvents)?;
        let mut out: Vec<u64> = Vec::new();
        let mut i: usize = 0;
        while i < memory.events.len()
            invariant
                i <= memory.events@.len(),
                out@ == owned_event_ids(memory.events@, self.user_id@, i as int),
            decreases memory.events@.len() - i,
        {
            if memory.events[i].user_id == self.user_id {
                out.push(memory.events[i].event_id);
            }
            i += 1;
        }
        Ok(out)
    }

    /// The ids of the user's entities; needs the derived grant.
    pub fn query_entities(&self, memory: &PluginMemory) -> (r: Result<Vec<u64>, DirSoulError>)
        ensures
            r is Ok <==> self.permission.level() >= 2,
            r is Err ==> r->Err_0 is Permission,
            r is Ok ==> r->Ok_0@ == owned_entity_ids(memory.entities@, self.user_id@, memory.entities@.len() as int),
    {
        self.authorize(MemoryPermission::ReadWriteDerived)?;
        let mut out: Vec<u64> = Vec::new();
        let mut i: usize = 0;
        while i < memory.entities.len()
            invariant
                i <= memory.entities@.len(),
                out@ == owned_entity_ids(memory.entities@, self.user_id@, i as int),
            decreases memory.entities@.len() - i,
        {
            if memory.entities[i].user_id == self.user_id {
                out.push(memory.entities[i].entity_id);
            }
            i += 1;
        }
        Ok(out)
    }

    /// Counts of what memory holds; every grant may read them.
    pub fn get_statistics(&self, memory: &PluginMemory) -> (r: Statistics)
        ensures
            r.event_count == memory.events@.len(),
            r.view_count == memory.views@.len(),
            r.entity_count == memory.entities@.len(),
            r.concept_count == memory.concept_count,
    {
        Statistics {
            event_count: memory.events.len(),
            view_count: memory.views.len(),
            concept_count: memory.concept_count,
            entity_count: memory.entities.len(),
        }
    }

    pub fn has_permission(&self, permission: MemoryPermission) -> (r: bool)
        ensures
            r == (self.permission.level() >= permission.level()),
    {
        self.permission.covers(permission)
    }
}

/// Ids of the first `n` events that belong to `user`.
pub open spec fn owned_event_ids(evs: Seq<EventMemory>, user: Seq<char>, n: int) -> Seq<u64>
    decreases n,
{
    if n <= 0 {
        Seq::empty()
    } else if evs[n - 1].user_id@ == user {
        owned_event_ids(evs, user, n - 1).push(evs[n - 1].event_id)
    } else {
        owned_event_ids(evs, user, n - 1)
    }
}

/// Ids of the first `n` entities that belong to `user`.
pub open spec fn owned_entity_ids(xs: Seq<Entity>, user: Seq<char>, n: int) -> Seq<u64>
    decreases n,
{
    if n <= 0 {
        Seq::empty()
    } else if xs[n - 1].user_id@ == user {
        owned_entity_ids(xs, user, n - 1).push(xs[n - 1].entity_id)
    } else {
        owned_entity_ids(xs, user, n - 1)
    }
}


/// An installed plugin inside its isolation envelope.
#[derive(Debug, Clone)]
pub struct IsolatedPlugin {
    pub metadata: PluginMetadata,
    /// The grant it was installed with.
    pub permission: MemoryPermission,
    pub is_healthy: bool,
    pub last_health_check: Option<i64>,
    pub restart_count: u64,
    pub max_restarts: u64,
}

impl IsolatedPlugin {
    pub fn new(metadata: PluginMetadata, permission: MemoryPermission, max_restarts: u64) -> (r: IsolatedPlugin)
        ensures
            r.metadata == metadata,
            r.permission == permission,
            r.is_healthy,
            r.restart_count == 0,
            r.max_restarts == max_restarts,
    {
        IsolatedPlugin { metadata, permission, is_healthy: true, last_health_check: None, restart_count: 0, max_restarts }
    }

    /// Restarts are left.
    pub fn can_restart(&self) -> (r: bool)
        ensures
            r == (self.restart_count < self.max_restarts),
    {
        self.restart_count < self.max_restarts
    }
}

/// Counts over the installed plugins.
#[derive(Debug, Clone, Copy)]
pub struct PluginManagerStats {
    pub total_plugins: usize,
    pub healthy_plugins: usize,
    pub registered_specs: usize,
    pub total_restarts: u64,
}

/// The installed plugins and their stored descriptions.
pub struct PluginManager {
    pub plugins: Vec<IsolatedPlugin>,
    pub specs: Vec<PluginSpec>,
    pub timeout_config: PluginTimeoutConfig,
    pub max_restarts: u64,
    /// Base delay of the restart backoff, in seconds.
    pub restart_backoff_secs: u64,
}

/// `plugins[i]` has the id `id`.
pub open spec fn has_id(plugins: Seq<IsolatedPlugin>, i: int, id: Seq<char>) -> bool {
    0 <= i < plugins.len() && plugins[i].metadata.id@ == id
}

/// What handling a crash decided.
#[derive(Debug, Clone, Copy, PartialEq, Eq, Structural)]
pub enum CrashDecision {
    /// Restart after this many seconds.
    RestartAfter(u64),
    /// The cap is reached: the plugin stays unhealthy.
    GiveUp,
}

impl PluginManager {
    /// Plugin ids are distinct.
    pub open spec fn wf(&self) -> bool {
        forall|i: int, j: int| 0 <= i < self.plugins@.len() && 0 <= j < self.plugins@.len() && i != j
            ==> (#[trigger] self.plugins@[i]).metadata.id@ != (#[trigger] self.plugins@[j]).metadata.id@
    }

    /// No plugins; three restarts at most, with a 5 s backoff base.
    pub fn new() -> (r: PluginManager)
        ensures
            r.wf(),
            r.plugins@.len() == 0,
            r.specs@.len() == 0,
            r.max_restarts == 3,
            r.restart_backoff_secs == 5,
    {
        PluginManager::with_config(PluginTimeoutConfig::default(), 3, 5)
    }

    pub fn with_config(timeout_config: PluginTimeoutConfig, max_restarts: u64, restart_backoff_secs: u64) -> (r: PluginManager)
        ensures
            r.wf(),
            r.plugins@.len() == 0,
            r.specs@.len() == 0,
            r.timeout_config == timeout_config,
            r.max_restarts == max_restarts,
            r.restart_backoff_secs == restart_backoff_secs,
    {
        PluginManager { plugins: Vec::new(), specs: Vec::new(), timeout_config, max_restarts, restart_backoff_secs }
    }

    /// The position of the plugin with this id.
    pub fn find(&self, plugin_id: &String) -> (r: Option<usize>)
        ensures
            r is Some ==> has_id(self.plugins@, r->Some_0 as int, plugin_id@),
            r is None ==> forall|i: int| !has_id(self.plugins@, i, plugin_id@),
    {
        let mut i: usize = 0;
        while i < self.plugins.len()
            invariant
                i <= self.plugins@.len(),
                forall|k: int| 0 <= k < i ==> !has_id(self.plugins@, k, plugin_id@),
            decreases self.plugins@.len() - i,
        {
            if self.plugins[i].metadata.id == *plugin_id {
                return Some(i);
            }
            i += 1;
        }
        None
    }

    pub fn register_spec(&mut self, spec: PluginSpec)
        ensures
            exists|i: int| 0 <= i < final(self).specs@.len() && final(self).specs@[i] == spec,
            final(self).specs@.len() <= old(self).specs@.len() + 1,
            final(self).plugins == old(self).plugins,
            final(self).max_restarts == old(self).max_restarts,
            final(self).restart_backoff_secs == old(self).restart_backoff_secs,
            final(self).timeout_config == old(self).timeout_config,
    {
        let mut i: usize = 0;
        while i < self.specs.len()
            invariant
                i <= self.specs@.len(),
                self.specs@ == old(self).specs@,
                self.plugins == old(self).plugins,
                self.max_restarts == old(self).max_restarts,
                self.restart_backoff_secs == old(self).restart_backoff_secs,
                self.timeout_config == old(self).timeout_config,
            decreases self.specs@.len() - i,
        {
            if self.specs[i].id == spec.id {
                self.specs.set(i, spec);
                assert(self.specs@[i as int] == spec);
                return;
            }
            i += 1;
        }
        self.specs.push(spec);
        assert(self.specs@[self.specs@.len() - 1] == spec);
    }

    /// Installs a plugin with the grant `permission`. A grant below what the
    /// plugin requires is refused with a permission error, leaving the
    /// registry as it was; otherwise the plugin is stored healthy with no
    /// restarts, replacing an installed plugin of the same id.
    pub fn install(&mut self, metadata: PluginMetadata, permission: MemoryPermission) -> (r: Result<PluginMetadata, DirSoulError>)
        requires
            old(self).wf(),
        ensures
            final(self).wf(),
            r is Ok <==> permission.level() >= metadata.required_permission.level(),
            r is Err ==> r->Err_0 is Permission && final(self).plugins@ == old(self).plugins@ && final(self).specs@ == old(self).specs@,
            r is Ok ==> ({
                let p = IsolatedPlugin {
                    metadata,
                    permission,
                    is_healthy: true,
                    last_health_check: None,
                    restart_count: 0,
                    max_restarts: old(self).max_restarts,
                };
                &&& r->Ok_0.same_as(&metadata)
                &&& (forall|i: int| !has_id(old(self).plugins@, i, metadata.id@)) ==> final(self).plugins@ == old(self).plugins@.push(p)
                &&& forall|i: int| has_id(old(self).plugins@, i, metadata.id@) ==> final(self).plugins@ == old(self).plugins@.update(i, p)
            }),
            final(self).max_restarts == old(self).max_restarts,
    {
        if !permission.covers(metadata.required_permission) {
            return Err(DirSoulError::Permission("grant is below the plugin's required permission".to_string()));
        }
        let spec = PluginSpec::from_metadata(&metadata);
        self.register_spec(spec);
        let copy = metadata.duplicate();
        let existing = self.find(&metadata.id);
        let ghost id = metadata.id@;
        let plugin = IsolatedPlugin { metadata, permission, is_healthy: true, last_health_check: None, restart_count: 0, max_restarts: self.max_restarts };
        let ghost before = self.plugins@;
        match existing {
            Some(i) => {
                self.plugins.set(i, plugin);
                proof {
                    assert forall|k: int| has_id(before, k, id) implies self.plugins@ == before.update(k, plugin) by {
                        if k != i as int {
                            assert(before[k].metadata.id@ == before[i as int].metadata.id@);
                        }
                    }
                    assert forall|a: int, b: int| 0 <= a < self.plugins@.len() && 0 <= b < self.plugins@.len() && a != b
                        implies (#[trigger] self.plugins@[a]).metadata.id@ != (#[trigger] self.plugins@[b]).metadata.id@ by {
                        if a == i as int {
                            assert(before[b].metadata.id@ != before[i as int].metadata.id@);
                        } else if b == i as int {
                            assert(before[a].metadata.id@ != before[i as int].metadata.id@);
                        }
                    }
                }
            },
            None => {
                self.plugins.push(plugin);
                proof {
                    assert forall|a: int, b: int| 0 <= a < self.plugins@.len() && 0 <= b < self.plugins@.len() && a != b
                        implies (#[trigger] self.plugins@[a]).metadata.id@ != (#[trigger] self.plugins@[b]).metadata.id@ by {
                        if a < before.len() && b < before.len() {
                            assert(self.plugins@[a] == before[a]);
                            assert(self.plugins@[b] == before[b]);
                        } else if a < before.len() {
                            assert(self.plugins@[a] == before[a]);
                            assert(!has_id(before, a, id));
                        } else {
                            assert(self.plugins@[b] == before[b]);
                            assert(!has_id(before, b, id));
                        }
                    }
                }
            },
        }
        Ok(copy)
    }

    /// Removes a plugin; built-in plugins and unknown ids are refused.
    pub fn uninstall(&mut self, plugin_id: &String) -> (r: Result<(), DirSoulError>)
        requires
            old(self).wf(),
        ensures
            final(self).wf(),
            r is Ok <==> exists|i: int| has_id(old(self).plugins@, i, plugin_id@) && !old(self).plugins@[i].metadata.is_builtin,
            r is Err ==> final(self).plugins@ == old(self).plugins@,
            r is Ok ==> final(self).plugins@.len() == old(self).plugins@.len() - 1
                && forall|i: int| !has_id(final(self).plugins@, i, plugin_id@),
    {
        match self.find(plugin_id) {
            None => Err(DirSoulError::NotFound("no such plugin".to_string())),
            Some(i) => {
                if self.plugins[i].metadata.is_builtin {
                    proof {
                        assert forall|k: int| has_id(self.plugins@, k, plugin_id@) implies k == i as int by {
                            if k != i as int {
                                assert(self.plugins@[k].metadata.id@ != self.plugins@[i as int].metadata.id@);
                            }
                        }
                    }
                    return Err(DirSoulError::Plugin("built-in plugins cannot be uninstalled".to_string()));
                }
                let ghost before = self.plugins@;
                self.plugins.remove(i);
                proof {
                    assert forall|k: int| !has_id(self.plugins@, k, plugin_id@) by {
                        if 0 <= k < self.plugins@.len() {
                            let o = if k < i { k } else { k + 1 };
                            assert(self.plugins@[k] == before[o]);
                            assert(o != i as int);
                        }
                    }
                    assert forall|a: int, b: int| 0 <= a < self.plugins@.len() && 0 <= b < self.plugins@.len() && a != b
                        implies (#[trigger] self.plugins@[a]).metadata.id@ != (#[trigger] self.plugins@[b]).metadata.id@ by {
                        let oa = if a < i { a } else { a + 1 };
                        let ob = if b < i { b } else { b + 1 };
                        assert(self.plugins@[a] == before[oa]);
                        assert(self.plugins@[b] == before[ob]);
                    }
                }
                Ok(())
            },
        }
    }

    /// Whether the plugin's grant reaches `permission`; unknown ids are an error.
    pub fn check_permission(&self, plugin_id: &String, permission: MemoryPermission) -> (r: Result<bool, DirSoulError>)
        ensures
            r is Err <==> forall|i: int| !has_id(self.plugins@, i, plugin_id@),
            r is Ok ==> exists|i: int| has_id(self.plugins@, i, plugin_id@)
                && r->Ok_0 == (self.plugins@[i].permission.level() >= permission.level()),
    {
        match self.find(plugin_id) {
            None => Err(DirSoulError::NotFound("no such plugin".to_string())),
            Some(i) => Ok(self.plugins[i].permission.covers(permission)),
        }
    }

    /// Sets a plugin's health from a check made at `now`; a handler that
    /// timed out or failed is reported here as unhealthy.
    pub fn record_health(&mut self, i: usize, healthy: bool, now: i64)
        requires
            old(self).wf(),
            i < old(self).plugins@.len(),
        ensures
            final(self).wf(),
            final(self).plugins@.len() == old(self).plugins@.len(),
            final(self).plugins@[i as int] == (IsolatedPlugin { is_healthy: healthy, last_health_check: Some(now), ..old(self).plugins@[i as int] }),
            forall|k: int| 0 <= k < old(self).plugins@.len() && k != i ==> final(self).plugins@[k] == old(self).plugins@[k],
            final(self).max_restarts == old(self).max_restarts,
            final(self).restart_backoff_secs == old(self).restart_backoff_secs,
    {
        let ghost before = self.plugins@;
        let mut p = self.plugins.remove(i);
        p.is_healthy = healthy;
        p.last_health_check = Some(now);
        self.plugins.insert(i, p);
        proof {
            assert forall|k: int| 0 <= k < before.len() && k != i implies self.plugins@[k] == before[k] by {}
            assert forall|a: int, b: int| 0 <= a < self.plugins@.len() && 0 <= b < self.plugins@.len() && a != b
                implies (#[trigger] self.plugins@[a]).metadata.id@ != (#[trigger] self.plugins@[b]).metadata.id@ by {
                assert(self.plugins@[a].metadata == before[a].metadata);
                assert(self.plugins@[b].metadata == before[b].metadata);
            }
        }
    }

    /// Handles a crash of plugin `i`: while restarts remain, counts one more
    /// and restarts after `backoff * restart_count` seconds; past the cap the
    /// plugin stays unhealthy.
    pub fn handle_crash(&mut self, i: usize) -> (r: CrashDecision)
        requires
            old(self).wf(),
            i < old(self).plugins@.len(),
        ensures
            final(self).wf(),
            final(self).plugins@.len() == old(self).plugins@.len(),
            forall|k: int| 0 <= k < old(self).plugins@.len() && k != i ==> final(self).plugins@[k] == old(self).plugins@[k],
            ({
                let p = old(self).plugins@[i as int];
                let q = final(self).plugins@[i as int];
                if p.restart_count < p.max_restarts {
                    &&& q == (IsolatedPlugin { restart_count: (p.restart_count + 1) as u64, ..p })
                    &&& r == CrashDecision::RestartAfter(
                        if old(self).restart_backoff_secs as int * (p.restart_count + 1) <= u64::MAX {
                            (old(self).restart_backoff_secs as int * (p.restart_count + 1)) as u64
                        } else {
                            u64::MAX
                        })
                } else {
                    &&& q == (IsolatedPlugin { is_healthy: false, ..p })
                    &&& r == CrashDecision::GiveUp
                }
            }),
    {
        let ghost before = self.plugins@;
        let mut p = self.plugins.remove(i);
        let decision = if p.restart_count < p.max_restarts {
            p.restart_count = p.restart_count + 1;
            let delay = match self.restart_backoff_secs.checked_mul(p.restart_count) {
                Some(d) => d,
                None => u64::MAX,
            };
            CrashDecision::RestartAfter(delay)
        } else {
            p.is_healthy = false;
            CrashDecision::GiveUp
        };
        self.plugins.insert(i, p);
        proof {
            assert forall|k: int| 0 <= k < before.len() && k != i implies self.plugins@[k] == before[k] by {}
            assert forall|a: int, b: int| 0 <= a < self.plugins@.len() && 0 <= b < self.plugins@.len() && a != b
                implies (#[trigger] self.plugins@[a]).metadata.id@ != (#[trigger] self.plugins@[b]).metadata.id@ by {
                assert(self.plugins@[a].metadata == before[a].metadata);
                assert(self.plugins@[b].metadata == before[b].metadata);
            }
        }
        decision
    }

    /// Counts of installed, healthy and registered plugins and of restarts.
    pub fn get_stats(&self) -> (r: PluginManagerStats)
        ensures
            r.total_plugins == self.plugins@.len(),
            r.registered_specs == self.specs@.len(),
            r.healthy_plugins == healthy_count(self.plugins@, self.plugins@.len() as int),
            r.healthy_plugins <= r.total_plugins,
    {
        let mut healthy: usize = 0;
        let mut restarts: u64 = 0;
        let mut i: usize = 0;
        while i < self.plugins.len()
            invariant
                i <= self.plugins@.len(),
                healthy == healthy_count(self.plugins@, i as int),
                healthy <= i,
            decreases self.plugins@.len() - i,
        {
            if self.plugins[i].is_healthy {
                healthy += 1;
            }
            restarts = restarts.saturating_add(self.plugins[i].restart_count);
            i += 1;
        }
        PluginManagerStats {
            total_plugins: self.plugins.len(),
            healthy_plugins: healthy,
            registered_specs: self.specs.len(),
            total_restarts: restarts,
        }
    }
}

/// How many of the first `n` plugins are healthy.
pub open spec fn healthy_count(ps: Seq<IsolatedPlugin>, n: int) -> int
    decreases n,
{
    if n <= 0 { 0 } else { healthy_count(ps, n - 1) + if ps[n - 1].is_healthy { 1int } else { 0 } }
}


/// Whether std counts `c` as alphabetic or numeric (Unicode `Alphabetic`
/// or `Numeric`); a property of the character alone.
pub uninterp spec fn alphanumeric(c: char) -> bool;

/// Relies on std's `char::is_alphanumeric`: the answer depends on the
/// character alone; ASCII letters and digits count, whitespace, `@` and `_`
/// do not.
pub assume_specification[ char::is_alphanumeric ](c: char) -> (r: bool)
    ensures
        r == alphanumeric(c),
        ('a' <= c <= 'z' || 'A' <= c <= 'Z' || '0' <= c <= '9') ==> r,
        is_space(c) || c == '@' || c == '_' ==> !r,
;

/// A character of a plugin name: a letter, a digit or an underscore.
pub open spec fn is_word_char(c: char) -> bool {
    c == '_' || alphanumeric(c)
}

fn word_char(c: char) -> (r: bool)
    ensures
        r == is_word_char(c),
{
    c == '_' || c.is_alphanumeric()
}

/// The end of the run of word characters starting at `i`.
pub open spec fn word_end(s: Seq<char>, i: int) -> int
    decreases s.len() - i,
{
    if i < 0 || i >= s.len() || !is_word_char(s[i]) { i } else { word_end(s, i + 1) }
}

/// The end of the run of whitespace starting at `i`.
pub open spec fn space_end(s: Seq<char>, i: int) -> int
    decreases s.len() - i,
{
    if i < 0 || i >= s.len() || !is_space(s[i]) { i } else { space_end(s, i + 1) }
}

/// The end of the line holding position `i`.
pub open spec fn line_end(s: Seq<char>, i: int) -> int
    decreases s.len() - i,
{
    if i < 0 || i >= s.len() || s[i] == '\n' { i } else { line_end(s, i + 1) }
}

/// A command starts at `i`: `@`, a plugin name, whitespace, and a query
/// that runs to the end of the line.
pub open spec fn command_at(s: Seq<char>, i: int) -> bool {
    let w = word_end(s, i + 1);
    let q = space_end(s, w);
    &&& 0 <= i < s.len()
    &&& s[i] == '@'
    &&& w > i + 1
    &&& q > w
    &&& line_end(s, q) > q
}

/// A parsed chat input.
#[derive(Debug, Clone, PartialEq, Eq)]
pub enum ParsedCommand {
    /// `@plugin query`.
    PluginCall { plugin: String, query: String },
    /// Anything else, for the default plugin.
    DefaultQuery { query: String },
}

/// How the input `s` parses: after trimming, the first command in it names
/// the plugin and its query; with no command the trimmed input is the query.
pub open spec fn parses_as(s: Seq<char>, r: ParsedCommand) -> bool {
    let t = trim(s);
    if exists|i: int| command_at(t, i) {
        let i = choose_first_command(t);
        let w = word_end(t, i + 1);
        let q = space_end(t, w);
        r matches ParsedCommand::PluginCall { plugin, query }
            && plugin@ == t.subrange(i + 1, w)
            && query@ == t.subrange(q, line_end(t, q))
    } else {
        r matches ParsedCommand::DefaultQuery { query } && query@ == t
    }
}

/// The first position where a command starts.
pub open spec fn choose_first_command(t: Seq<char>) -> int {
    choose|i: int| command_at(t, i) && forall|j: int| 0 <= j < i ==> !command_at(t, j)
}

fn in_run(c: char, kind: u8) -> (r: bool)
    ensures
        kind == 0 ==> r == is_word_char(c),
        kind == 1 ==> r == is_space(c),
        kind == 2 ==> r == (c != '\n'),
{
    if kind == 0 {
        word_char(c)
    } else if kind == 1 {
        crate::text::space_char(c)
    } else {
        c != '\n'
    }
}

fn run_end(s: &[char], i: usize, kind: u8) -> (r: usize)
    requires
        i <= s@.len(),
        kind < 3,
    ensures
        kind == 0 ==> r == word_end(s@, i as int),
        kind == 1 ==> r == space_end(s@, i as int),
        kind == 2 ==> r == line_end(s@, i as int),
        i <= r <= s@.len(),
{
    let mut e: usize = i;
    while e < s.len() && in_run(s[e], kind)
        invariant
            i <= e <= s@.len(),
            kind < 3,
            kind == 0 ==> word_end(s@, i as int) == word_end(s@, e as int),
            kind == 1 ==> space_end(s@, i as int) == space_end(s@, e as int),
            kind == 2 ==> line_end(s@, i as int) == line_end(s@, e as int),
        decreases s@.len() - e,
    {
        e += 1;
    }
    e
}

fn copy_range(s: &[char], lo: usize, hi: usize) -> (r: String)
    requires
        lo <= hi <= s@.len(),
    ensures
        r@ == s@.subrange(lo as int, hi as int),
{
    let mut out: Vec<char> = Vec::new();
    let mut i: usize = lo;
    while i < hi
        invariant
            lo <= i <= hi,
            hi <= s@.len(),
            out@ == s@.subrange(lo as int, i as int),
        decreases hi - i,
    {
        out.push(s[i]);
        i += 1;
        assert(out@ =~= s@.subrange(lo as int, i as int));
    }
    string_of(out.as_slice())
}

/// Parses chat input: `@<name> <query>` calls the named plugin, anything
/// else goes to the default plugin.
pub fn parse_command(input: &str) -> (r: ParsedCommand)
    ensures
        parses_as(input@, r),
{
    let all = chars_of(input);
    let t = trimmed(all.as_slice());
    let n = t.len();
    let mut i: usize = 0;
    while i < n
        invariant
            n == t@.len(),
            t@ == trim(input@),
            i <= n,
            forall|j: int| 0 <= j < i ==> !command_at(t@, j),
        decreases n - i,
    {
        if t[i] == '@' {
            let w = run_end(t.as_slice(), i + 1, 0);
            if w > i + 1 {
                let q = run_end(t.as_slice(), w, 1);
                if q > w {
                    let e = run_end(t.as_slice(), q, 2);
                    if e > q {
                        proof {
                            assert(command_at(t@, i as int));
                            let f = choose_first_command(t@);
                            assert(command_at(t@, f) && forall|j: int| 0 <= j < f ==> !command_at(t@, j));
                            if f < i as int {
                            } else if f > i as int {
                                assert(!command_at(t@, i as int));
                            }
                            assert(f == i as int);
                        }
                        let plugin = copy_range(t.as_slice(), i + 1, w);
                        let query = copy_range(t.as_slice(), q, e);
                        return ParsedCommand::PluginCall { plugin, query };
                    }
                }
            }
        }
        i += 1;
    }
    proof {
        assert forall|j: int| !command_at(t@, j) by {}
    }
    ParsedCommand::DefaultQuery { query: string_of(t.as_slice()) }
}


/// Where a chat input goes, with the context its plugin runs in.
#[derive(Debug, Clone)]
pub struct RoutedQuery {
    pub plugin_id: String,
    pub query: String,
    /// The input named no plugin and went to the default one.
    pub is_default: bool,
    pub context: PluginContext,
}

/// The plugin a command in `s` names, if `s` holds a command.
pub open spec fn named_plugin(s: Seq<char>) -> Option<Seq<char>> {
    let t = trim(s);
    if exists|i: int| command_at(t, i) {
        let i = choose_first_command(t);
        Some(t.subrange(i + 1, word_end(t, i + 1)))
    } else {
        None
    }
}

/// Routes chat input of one user to plugins.
#[derive(Debug, Clone)]
pub struct CommandRouter {
    pub default_plugin_id: Option<String>,
    pub user_id: String,
}

/// The action under which routed exchanges are recorded.
pub open spec fn interaction_action() -> Seq<char> {
    seq!['c', 'h', 'a', 't', '_', 'w', 'i', 't', 'h', '_', 'p', 'l', 'u', 'g', 'i', 'n']
}

impl CommandRouter {
    /// The plugin that input `s` goes to: the one it names, else the default.
    pub open spec fn target_of(&self, s: Seq<char>) -> Option<Seq<char>> {
        match named_plugin(s) {
            Some(p) => Some(p),
            None => match self.default_plugin_id {
                Some(d) => Some(d@),
                None => None,
            },
        }
    }

    pub fn new(user_id: String) -> (r: CommandRouter)
        ensures
            r.user_id == user_id,
            r.default_plugin_id is None,
    {
        CommandRouter { default_plugin_id: None, user_id }
    }

    pub fn set_default_plugin(&mut self, plugin_id: String)
        ensures
            final(self).default_plugin_id == Some(plugin_id),
            final(self).user_id == old(self).user_id,
    {
        self.default_plugin_id = Some(plugin_id);
    }

    pub fn default_plugin(&self) -> (r: &Option<String>)
        ensures
            *r == self.default_plugin_id,
    {
        &self.default_plugin_id
    }

    /// Routes the input: a command goes to the plugin it names, anything
    /// else to the default plugin. The plugin must be installed (else not
    /// found) and healthy (else a plugin error); with no default plugin set,
    /// plain input is a configuration error. The context carries the
    /// plugin's grant.
    pub fn route(&self, manager: &PluginManager, input: &str) -> (r: Result<RoutedQuery, DirSoulError>)
        requires
            manager.wf(),
        ensures
            self.target_of(input@) is None ==> r is Err && r->Err_0 is Config,
            self.target_of(input@) is Some ==> ({
                let p = self.target_of(input@)->Some_0;
                &&& (forall|i: int| !has_id(manager.plugins@, i, p)) ==> r is Err && r->Err_0 is NotFound
                &&& forall|i: int| has_id(manager.plugins@, i, p) && !manager.plugins@[i].is_healthy ==> r is Err && r->Err_0 is Plugin
                &&& forall|i: int| has_id(manager.plugins@, i, p) && manager.plugins@[i].is_healthy ==> r is Ok && r->Ok_0.plugin_id@ == p
            }),
            r is Ok ==> ({
                let q = r->Ok_0;
                &&& exists|i: int| has_id(manager.plugins@, i, q.plugin_id@)
                    && manager.plugins@[i].is_healthy
                    && q.context.permission == manager.plugins@[i].permission
                &&& q.context.plugin_id@ == q.plugin_id@
                &&& q.context.user_id@ == self.user_id@
                &&& parses_as(input@, if q.is_default {
                        ParsedCommand::DefaultQuery { query: q.query }
                    } else {
                        ParsedCommand::PluginCall { plugin: q.plugin_id, query: q.query }
                    })
                &&& q.is_default ==> self.default_plugin_id is Some && self.default_plugin_id->Some_0@ == q.plugin_id@
            }),
            r is Err ==> (r->Err_0 is NotFound || r->Err_0 is Plugin || r->Err_0 is Config),
    {
        let parsed = parse_command(input);
        let ghost parsed_g = parsed;
        let (plugin_id, query, is_default) = match parsed {
            ParsedCommand::PluginCall { plugin, query } => (plugin, query, false),
            ParsedCommand::DefaultQuery { query } => {
                match &self.default_plugin_id {
                    Some(d) => (d.clone(), query, true),
                    None => {
                        return Err(DirSoulError::Config("no default plugin is set".to_string()));
                    },
                }
            },
        };
        proof {
            assert(self.target_of(input@) == Some(plugin_id@));
        }
        let ghost p = self.target_of(input@)->Some_0;
        match manager.find(&plugin_id) {
            None => {
                assert(p == plugin_id@);
                Err(DirSoulError::NotFound("no such plugin".to_string()))
            },
            Some(i) => {
                proof {
                    assert forall|k: int| has_id(manager.plugins@, k, plugin_id@) implies k == i as int by {
                        if k != i as int {
                            assert(manager.plugins@[k].metadata.id@ != manager.plugins@[i as int].metadata.id@);
                        }
                    }
                }
                if !manager.plugins[i].is_healthy {
                    proof {
                        let p = self.target_of(input@)->Some_0;
                        assert(p == plugin_id@);
                        assert(has_id(manager.plugins@, i as int, p));
                    }
                    return Err(DirSoulError::Plugin("plugin is not healthy".to_string()));
                }
                let context = PluginContext::new(plugin_id.clone(), self.user_id.clone(), manager.plugins[i].permission);
                proof {
                    assert(has_id(manager.plugins@, i as int, plugin_id@));
                    if is_default {
                        assert(parsed_g == (ParsedCommand::DefaultQuery { query }));
                        assert(self.default_plugin_id is Some);
                        assert(self.default_plugin_id->Some_0@ == plugin_id@);
                    } else {
                        assert(parsed_g == (ParsedCommand::PluginCall { plugin: plugin_id, query }));
                    }
                }
                let rq = RoutedQuery { plugin_id, query, is_default, context };
                assert(p == rq.plugin_id@);
                assert(manager.plugins@[i as int].is_healthy);
                assert(rq.context.plugin_id@ == rq.plugin_id@);
                assert(rq.context.user_id@ == self.user_id@);
                assert(parses_as(input@, if rq.is_default {
                        ParsedCommand::DefaultQuery { query: rq.query }
                    } else {
                        ParsedCommand::PluginCall { plugin: rq.plugin_id, query: rq.query }
                    }));
                Ok(rq)
            },
        }
    }

    /// The event that records one routed exchange: the user talked with the
    /// plugin, referencing the raw message `memory_id`.
    pub fn interaction_event(&self, plugin_id: &String, event_id: u64, memory_id: u64, now: i64) -> (r: EventMemory)
        ensures
            r.wf(),
            r.event_id == event_id,
            r.memory_id == memory_id,
            r.user_id@ == self.user_id@,
            r.actor is Some && r.actor->Some_0@ == self.user_id@,
            r.action@ == interaction_action(),
            r.target@ == plugin_id@,
            r.timestamp == now,
            r.quantity is None,
            r.unit is None,
            r.confidence == 1000,
    {
        let mut action = String::new();
        action.push('c'); action.push('h'); action.push('a'); action.push('t'); action.push('_');
        action.push('w'); action.push('i'); action.push('t'); action.push('h'); action.push('_');
        action.push('p'); action.push('l'); action.push('u'); action.push('g'); action.push('i'); action.push('n');
        assert(action@ =~= interaction_action());
        EventMemory {
            event_id,
            memory_id,
            user_id: self.user_id.clone(),
            timestamp: now,
            actor: Some(self.user_id.clone()),
            action,
            target: plugin_id.clone(),
            quantity: None,
            unit: None,
            confidence: 1000,
            extractor_version: Some("command_router".to_string()),
        }
    }

    /// Records a routed exchange in memory as an event.
    pub fn record_interaction(&self, memory: &mut PluginMemory, plugin_id: &String, event_id: u64, memory_id: u64, now: i64)
        ensures
            final(memory).events@.len() == old(memory).events@.len() + 1,
            final(memory).events@.drop_last() == old(memory).events@,
            final(memory).events@.last().action@ == interaction_action(),
            final(memory).events@.last().target@ == plugin_id@,
            final(memory).events@.last().actor is Some,
            final(memory).events@.last().actor->Some_0@ == self.user_id@,
            final(memory).events@.last().user_id@ == self.user_id@,
            final(memory).events@.last().event_id == event_id,
            final(memory).events@.last().memory_id == memory_id,
            final(memory).views@ == old(memory).views@,
            final(memory).entities@ == old(memory).entities@,
    {
        let e = self.interaction_event(plugin_id, event_id, memory_id, now);
        memory.events.push(e);
        assert(memory.events@.drop_last() =~= old(memory).events@);
    }

    /// Routes the input and records the exchange as an event of the user
    /// with the plugin, referencing the raw message `memory_id`. Input that
    /// cannot be routed records nothing.
    pub fn route_and_record(
        &self,
        manager: &PluginManager,
        memory: &mut PluginMemory,
        input: &str,
        event_id: u64,
        memory_id: u64,
        now: i64,
    ) -> (r: Result<RoutedQuery, DirSoulError>)
        requires
            manager.wf(),
        ensures
            r is Ok <==> (self.target_of(input@) is Some && exists|i: int|
                has_id(manager.plugins@, i, self.target_of(input@)->Some_0) && manager.plugins@[i].is_healthy),
            r is Err ==> final(memory).events@ == old(memory).events@,
            r is Ok ==> ({
                let e = final(memory).events@.last();
                &&& final(memory).events@.drop_last() == old(memory).events@
                &&& r->Ok_0.plugin_id@ == self.target_of(input@)->Some_0
                &&& e.action@ == interaction_action()
                &&& e.target@ == r->Ok_0.plugin_id@
                &&& e.actor is Some && e.actor->Some_0@ == self.user_id@
                &&& e.memory_id == memory_id
            }),
            final(memory).views@ == old(memory).views@,
            final(memory).entities@ == old(memory).entities@,
    {
        let routed = self.route(manager, input);
        match routed {
            Ok(q) => {
                self.record_interaction(memory, &q.plugin_id, event_id, memory_id, now);
                Ok(q)
            },
            Err(e) => {
                proof {
                    if self.target_of(input@) is Some {
                        let p = self.target_of(input@)->Some_0;
                        assert forall|i: int| !(has_id(manager.plugins@, i, p) && manager.plugins@[i].is_healthy) by {}
                    }
                }
                Err(e)
            },
        }
    }
}

} // verus!
