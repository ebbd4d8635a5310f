//! Agents and the permissions that bound what they may do.
use vstd::prelude::*;

use crate::error::DirSoulError;
use crate::plugin::MemoryPermission;
use crate::text::{chars_eq, chars_of};

verus! {

/// What an agent may do: a memory level (1 to 3) and the operations it is
/// allowed by name.
#[derive(Debug, Clone)]
pub struct AgentPermissions {
    pub memory_level: i32,
    pub can_create_events: bool,
    pub can_modify_views: bool,
    pub can_read_entities: bool,
    pub allowed_operations: Vec<String>,
}

impl Default for AgentPermissions {
    /// Read-only, allowed only to query statistics.
    fn default() -> (r: AgentPermissions)
        ensures
            r.memory_level == 1,
            !r.can_create_events,
            !r.can_modify_views,
            !r.can_read_entities,
            r.allowed_operations@.len() == 1,
            r.allowed_operations@[0]@ == "query_stats"@,
    {
        AgentPermissions {
            memory_level: 1,
            can_create_events: false,
            can_modify_views: false,
            can_read_entities: false,
            allowed_operations: vec!["query_stats".to_string()],
        }
    }
}

/// `op` is among the allowed operations.
pub open spec fn allows(ops: Seq<String>, op: Seq<char>) -> bool {
    exists|i: int| 0 <= i < ops.len() && (#[trigger] ops[i])@ == op
}

impl AgentPermissions {
    /// The memory permission of the level, when the level is one of 1 to 3.
    pub fn memory_permission(&self) -> (r: Option<MemoryPermission>)
        ensures
            r is Some <==> 1 <= self.memory_level <= 3,
            r is Some ==> r->Some_0.level() == self.memory_level,
    {
        MemoryPermission::from_i32(self.memory_level)
    }

    /// Refuses an operation that is not allowed, with a configuration error.
    pub fn validate_operation(&self, operation: &str) -> (r: Result<(), DirSoulError>)
        ensures
            r is Ok <==> allows(self.allowed_operations@, operation@),
            r is Err ==> r->Err_0 is Config,
    {
        let op = chars_of(operation);
        let mut i: usize = 0;
        while i < self.allowed_operations.len()
            invariant
                i <= self.allowed_operations@.len(),
                op@ == operation@,
                forall|k: int| 0 <= k < i ==> (#[trigger] self.allowed_operations@[k])@ != operation@,
            decreases self.allowed_operations@.len() - i,
        {
            let a = chars_of(self.allowed_operations[i].as_str());
            if chars_eq(a.as_slice(), op.as_slice()) {
                assert(self.allowed_operations@[i as int]@ == operation@);
                return Ok(());
            }
            i += 1;
        }
        Err(DirSoulError::Config("operation not allowed for this agent".to_string()))
    }
}

/// A built-in or plugin agent of one user.
#[derive(Debug, Clone)]
pub struct Agent {
    pub agent_id: u64,
    pub user_id: String,
    pub name: String,
    pub agent_type: String,
    pub permissions: AgentPermissions,
    pub is_active: bool,
    pub is_builtin: bool,
}

impl Agent {
    /// The agent's memory level reaches `level`.
    pub fn has_memory_level(&self, level: MemoryPermission) -> (r: bool)
        ensures
            r == (self.permissions.memory_level >= level.level()),
    {
        self.permissions.memory_level >= level.as_i32()
    }

    /// Refuses an operation the agent is not allowed.
    pub fn can_perform(&self, operation: &str) -> (r: Result<(), DirSoulError>)
        ensures
            r is Ok <==> allows(self.permissions.allowed_operations@, operation@),
    {
        self.permissions.validate_operation(operation)
    }

    pub fn is_available(&self) -> (r: bool)
        ensures
            r == self.is_active,
    {
        self.is_active
    }
}

} // verus!
