use dirsoul::cognitive::CognitiveView;
use dirsoul::error::DirSoulError;
use dirsoul::models::EventMemory;
use dirsoul::plugin::{
    parse_command, CommandRouter, CrashDecision, EventSubscription, MemoryPermission, ParsedCommand, PluginContext,
    PluginManager, PluginMemory, PluginMetadata, PluginSpec, PluginTimeoutConfig,
};
use dirsoul::resource_manager::{MemoryUsage, ResourceAwareScheduler, ScheduledTask, TaskPriority};

fn metadata(id: &str, required: MemoryPermission, builtin: bool) -> PluginMetadata {
    PluginMetadata {
        id: id.to_string(),
        name: format!("{} plugin", id),
        version: "1.0.0".to_string(),
        description: "test".to_string(),
        required_permission: required,
        author: "tester".to_string(),
        supported_events: vec![],
        is_builtin: builtin,
    }
}

fn empty_memory() -> PluginMemory {
    PluginMemory { events: vec![], views: vec![], entities: vec![], concept_count: 0 }
}

#[test]
fn test_memory_permission_values() {
    assert_eq!(MemoryPermission::ReadOnly.as_i32(), 1);
    assert_eq!(MemoryPermission::ReadWriteDerived.as_i32(), 2);
    assert_eq!(MemoryPermission::ReadWriteEvents.as_i32(), 3);
}

#[test]
fn test_memory_permission_from_i32() {
    assert_eq!(MemoryPermission::from_i32(1), Some(MemoryPermission::ReadOnly));
    assert_eq!(MemoryPermission::from_i32(2), Some(MemoryPermission::ReadWriteDerived));
    assert_eq!(MemoryPermission::from_i32(3), Some(MemoryPermission::ReadWriteEvents));
    assert_eq!(MemoryPermission::from_i32(0), None);
    assert_eq!(MemoryPermission::from_i32(4), None);
}

#[test]
fn test_readonly_permissions() {
    let p = MemoryPermission::ReadOnly;
    assert!(p.can_read_stats());
    assert!(!p.can_modify_views());
    assert!(!p.can_create_events());
    assert!(!p.can_read_entities());
}

#[test]
fn test_readwrite_events_permissions() {
    let p = MemoryPermission::ReadWriteEvents;
    assert!(p.can_read_stats());
    assert!(p.can_modify_views());
    assert!(p.can_create_events());
    assert!(p.can_read_entities());
}

#[test]
fn test_event_subscription_equality() {
    assert_eq!(EventSubscription::All, EventSubscription::All);
    assert_eq!(EventSubscription::Action("eat".to_string()), EventSubscription::Action("eat".to_string()));
    assert_ne!(EventSubscription::Action("eat".to_string()), EventSubscription::Action("drink".to_string()));
    assert!(EventSubscription::TargetPattern("果".to_string()).matches(&"吃".to_string(), &"水果".to_string()));
    assert!(!EventSubscription::Action("喝".to_string()).matches(&"吃".to_string(), &"水果".to_string()));
}

#[test]
fn test_plugin_spec_from_metadata() {
    let m = metadata("decision", MemoryPermission::ReadWriteDerived, true);
    let spec = PluginSpec::from_metadata(&m);
    assert_eq!(spec.id, "decision");
    assert_eq!(spec.required_permission, 2);
    assert!(spec.is_builtin);
    assert!(spec.executable.is_none());
}

#[test]
fn test_plugin_timeout_config_default() {
    let c = PluginTimeoutConfig::default();
    assert_eq!(c.default_timeout_secs, 30);
    assert_eq!(c.init_timeout_secs, 60);
    assert_eq!(c.cleanup_timeout_secs, 10);
}

#[test]
fn test_plugin_manager_install() {
    let mut manager = PluginManager::new();
    let m = manager.install(metadata("decision", MemoryPermission::ReadOnly, false), MemoryPermission::ReadWriteEvents).unwrap();
    assert_eq!(m.id, "decision");
    assert_eq!(manager.plugins.len(), 1);
    assert_eq!(manager.specs.len(), 1);
    assert_eq!(manager.check_permission(&"decision".to_string(), MemoryPermission::ReadWriteEvents).unwrap(), true);
}

#[test]
fn test_plugin_manager_install_insufficient_permission() {
    let mut manager = PluginManager::new();
    let r = manager.install(metadata("writer", MemoryPermission::ReadWriteEvents, false), MemoryPermission::ReadOnly);
    assert!(matches!(r, Err(DirSoulError::Permission(_))));
    assert_eq!(manager.plugins.len(), 0);
}

#[test]
fn test_plugin_manager_check_permission() {
    let mut manager = PluginManager::new();
    manager.install(metadata("reader", MemoryPermission::ReadOnly, false), MemoryPermission::ReadWriteDerived).unwrap();
    let id = "reader".to_string();
    assert!(manager.check_permission(&id, MemoryPermission::ReadOnly).unwrap());
    assert!(manager.check_permission(&id, MemoryPermission::ReadWriteDerived).unwrap());
    assert!(!manager.check_permission(&id, MemoryPermission::ReadWriteEvents).unwrap());
    assert!(manager.check_permission(&"nobody".to_string(), MemoryPermission::ReadOnly).is_err());
}

#[test]
fn test_plugin_uninstall() {
    let mut manager = PluginManager::new();
    manager.install(metadata("a", MemoryPermission::ReadOnly, false), MemoryPermission::ReadOnly).unwrap();
    manager.install(metadata("b", MemoryPermission::ReadOnly, true), MemoryPermission::ReadOnly).unwrap();
    assert!(manager.uninstall(&"b".to_string()).is_err());
    assert!(manager.uninstall(&"a".to_string()).is_ok());
    assert!(manager.uninstall(&"a".to_string()).is_err());
    assert_eq!(manager.plugins.len(), 1);
}

#[test]
fn test_isolated_plugin_restart_count() {
    let mut manager = PluginManager::new();
    manager.install(metadata("flaky", MemoryPermission::ReadOnly, false), MemoryPermission::ReadOnly).unwrap();
    assert_eq!(manager.handle_crash(0), CrashDecision::RestartAfter(5));
    assert_eq!(manager.handle_crash(0), CrashDecision::RestartAfter(10));
    assert_eq!(manager.handle_crash(0), CrashDecision::RestartAfter(15));
    assert_eq!(manager.handle_crash(0), CrashDecision::GiveUp);
    assert!(!manager.plugins[0].is_healthy);
    assert_eq!(manager.plugins[0].restart_count, 3);
}

#[test]
fn test_plugin_manager_stats() {
    let mut manager = PluginManager::new();
    manager.install(metadata("a", MemoryPermission::ReadOnly, false), MemoryPermission::ReadOnly).unwrap();
    manager.install(metadata("b", MemoryPermission::ReadOnly, false), MemoryPermission::ReadOnly).unwrap();
    manager.record_health(1, false, 100);
    let stats = manager.get_stats();
    assert_eq!(stats.total_plugins, 2);
    assert_eq!(stats.healthy_plugins, 1);
    assert_eq!(stats.registered_specs, 2);
}

#[test]
fn test_plugin_permission_denial() {
    let ctx = PluginContext::new("reader".to_string(), "u".to_string(), MemoryPermission::ReadOnly);
    let mut memory = empty_memory();
    let e = EventMemory::new(1, 1, "u".to_string(), 0, None, "吃".to_string(), "苹果".to_string(), None, None, 700).unwrap();
    let r = ctx.create_event(&mut memory, e);
    assert!(matches!(r, Err(DirSoulError::Permission(_))));
    assert!(memory.events.is_empty());
    assert!(ctx.query_events(&memory).is_err());
    assert!(ctx.query_entities(&memory).is_err());
    assert_eq!(ctx.get_statistics(&memory).event_count, 0);
}

#[test]
fn test_plugin_views_need_derived_grant() {
    let mut memory = empty_memory();
    let v = CognitiveView::new(0, "u".to_string(), "用户喜欢吃水果".to_string(), "preference".to_string(), vec![], 0);
    let reader = PluginContext::new("r".to_string(), "u".to_string(), MemoryPermission::ReadOnly);
    assert!(reader.create_view(&mut memory, v.clone()).is_err());
    let writer = PluginContext::new("w".to_string(), "u".to_string(), MemoryPermission::ReadWriteDerived);
    assert!(writer.create_view(&mut memory, v).is_ok());
    assert_eq!(memory.views.len(), 1);
}

#[test]
fn test_plugin_with_event_grant_creates_events() {
    let ctx = PluginContext::new("w".to_string(), "u".to_string(), MemoryPermission::ReadWriteEvents);
    let mut memory = empty_memory();
    let e = EventMemory::new(7, 1, "u".to_string(), 0, None, "吃".to_string(), "苹果".to_string(), None, None, 700).unwrap();
    assert!(ctx.create_event(&mut memory, e).is_ok());
    assert_eq!(ctx.query_events(&memory).unwrap(), vec![7]);
}

#[test]
fn test_parse_command_plugin_call() {
    let cmd = parse_command("@decision 我应该怎么选择？");
    assert_eq!(
        cmd,
        ParsedCommand::PluginCall { plugin: "decision".to_string(), query: "我应该怎么选择？".to_string() }
    );
}

#[test]
fn test_parse_command_default_query() {
    let cmd = parse_command("今天天气怎么样？");
    assert_eq!(cmd, ParsedCommand::DefaultQuery { query: "今天天气怎么样？".to_string() });
}

#[test]
fn test_parse_command_whitespace() {
    let cmd = parse_command("  @心理分析 我最近感觉压力很大  ");
    assert_eq!(
        cmd,
        ParsedCommand::PluginCall { plugin: "心理分析".to_string(), query: "我最近感觉压力很大".to_string() }
    );
}

#[test]
fn test_parse_command_plugin_name_with_underscores() {
    let cmd = parse_command("@my_custom_plugin test query");
    assert_eq!(
        cmd,
        ParsedCommand::PluginCall { plugin: "my_custom_plugin".to_string(), query: "test query".to_string() }
    );
}

#[test]
fn test_parse_command_empty_query() {
    let cmd = parse_command("");
    assert_eq!(cmd, ParsedCommand::DefaultQuery { query: "".to_string() });
}

#[test]
fn test_parsed_command_equality() {
    let cmd1 = ParsedCommand::PluginCall { plugin: "test".to_string(), query: "hello".to_string() };
    let cmd2 = ParsedCommand::PluginCall { plugin: "test".to_string(), query: "hello".to_string() };
    let cmd3 = ParsedCommand::PluginCall { plugin: "test".to_string(), query: "world".to_string() };
    assert_eq!(cmd1, cmd2);
    assert_ne!(cmd1, cmd3);
}

#[test]
fn test_command_router_set_default() {
    let mut router = CommandRouter::new("test_user".to_string());
    assert!(router.default_plugin().is_none());
    router.set_default_plugin("deeptalk".to_string());
    assert_eq!(router.default_plugin().as_deref(), Some("deeptalk"));
}

#[test]
fn test_command_routing_event_logging() {
    let mut manager = PluginManager::new();
    manager.install(metadata("decision", MemoryPermission::ReadOnly, true), MemoryPermission::ReadWriteDerived).unwrap();
    let router = CommandRouter::new("alice".to_string());
    let routed = router.route(&manager, "@decision should I switch jobs?").unwrap();
    assert_eq!(routed.plugin_id, "decision");
    assert_eq!(routed.query, "should I switch jobs?");
    assert!(!routed.is_default);
    assert_eq!(routed.context.permission, MemoryPermission::ReadWriteDerived);
    let mut memory = empty_memory();
    router.record_interaction(&mut memory, &routed.plugin_id, 11, 5, 1000);
    let e = &memory.events[0];
    assert_eq!(e.action, "chat_with_plugin");
    assert_eq!(e.target, "decision");
    assert_eq!(e.actor.as_deref(), Some("alice"));
    assert_eq!(e.memory_id, 5);
}

#[test]
fn test_command_router_default_and_unknown() {
    let mut manager = PluginManager::new();
    manager.install(metadata("deeptalk", MemoryPermission::ReadOnly, true), MemoryPermission::ReadOnly).unwrap();
    let mut router = CommandRouter::new("alice".to_string());
    assert!(matches!(router.route(&manager, "hello"), Err(DirSoulError::Config(_))));
    router.set_default_plugin("deeptalk".to_string());
    let routed = router.route(&manager, "hello").unwrap();
    assert!(routed.is_default);
    assert_eq!(routed.plugin_id, "deeptalk");
    assert!(matches!(router.route(&manager, "@ghost hi"), Err(DirSoulError::NotFound(_))));
}

#[test]
fn test_critical_memory_runs_only_critical_tasks() {
    let mut scheduler = ResourceAwareScheduler::new_at(0);
    let usage = MemoryUsage { total_mb: 1000, used_mb: 960, available_mb: 40, timestamp: 0 };
    let critical = ScheduledTask::new("monitor".to_string(), TaskPriority::Critical, 10, "m".to_string());
    let low = ScheduledTask::new("sweep".to_string(), TaskPriority::Low, 10, "s".to_string());
    assert!(scheduler.should_schedule(&critical, &usage, 1));
    assert!(!scheduler.should_schedule(&low, &usage, 1));
    assert!(scheduler.circuit_breaker.is_open());
    let calm = MemoryUsage { total_mb: 1000, used_mb: 100, available_mb: 900, timestamp: 0 };
    assert!(!scheduler.should_schedule(&low, &calm, 30));
    assert!(scheduler.should_schedule(&low, &calm, 62));
}

#[test]
fn test_memory_usage_under_pressure() {
    let u = MemoryUsage { total_mb: 1000, used_mb: 900, available_mb: 100, timestamp: 0 };
    assert!(u.is_under_pressure());
    assert!(!u.is_critical());
    assert_eq!(u.remaining_mb(), 100);
}

#[test]
fn test_memory_usage_critical() {
    let u = MemoryUsage { total_mb: 1000, used_mb: 960, available_mb: 40, timestamp: 0 };
    assert!(u.is_under_pressure());
    assert!(u.is_critical());
}

#[test]
fn test_install_replaces_same_id() {
    let mut manager = PluginManager::new();
    manager.install(metadata("p", MemoryPermission::ReadOnly, false), MemoryPermission::ReadOnly).unwrap();
    manager.handle_crash(0);
    let again = manager.install(metadata("p", MemoryPermission::ReadOnly, false), MemoryPermission::ReadWriteEvents);
    assert!(again.is_ok());
    assert_eq!(manager.plugins.len(), 1);
    assert_eq!(manager.plugins[0].permission, MemoryPermission::ReadWriteEvents);
    assert_eq!(manager.plugins[0].restart_count, 0);
    assert_eq!(manager.specs.len(), 1);
}

#[test]
fn test_route_and_record() {
    let mut manager = PluginManager::new();
    manager.install(metadata("decision", MemoryPermission::ReadOnly, true), MemoryPermission::ReadOnly).unwrap();
    let router = CommandRouter::new("alice".to_string());
    let mut memory = empty_memory();
    let r = router.route_and_record(&manager, &mut memory, "@decision should I switch jobs?", 1, 2, 3).unwrap();
    assert_eq!(r.query, "should I switch jobs?");
    assert_eq!(memory.events.len(), 1);
    assert_eq!(memory.events[0].target, "decision");
    assert!(router.route_and_record(&manager, &mut memory, "@ghost hi", 4, 5, 6).is_err());
    assert_eq!(memory.events.len(), 1);
    manager.record_health(0, false, 7);
    assert!(matches!(router.route(&manager, "@decision hi"), Err(DirSoulError::Plugin(_))));
}

use dirsoul::agents::{Agent, AgentPermissions};

#[test]
fn test_agent_permissions_default() {
    let perms = AgentPermissions::default();
    assert_eq!(perms.memory_level, 1);
    assert!(!perms.can_create_events);
    assert!(!perms.can_modify_views);
    assert!(!perms.can_read_entities);
    assert_eq!(perms.allowed_operations, vec!["query_stats"]);
}

#[test]
fn test_agent_permissions_validate_operation() {
    let mut perms = AgentPermissions::default();
    perms.allowed_operations = vec!["query_stats".to_string()];
    assert!(perms.validate_operation("query_stats").is_ok());
    assert!(perms.validate_operation("generate_view").is_err());
}

#[test]
fn test_memory_permission_hierarchy() {
    let readonly = MemoryPermission::ReadOnly;
    let derived = MemoryPermission::ReadWriteDerived;
    let events = MemoryPermission::ReadWriteEvents;
    assert!(derived.as_i32() > readonly.as_i32());
    assert!(events.as_i32() > derived.as_i32());
}

#[test]
fn test_agent_memory_level_and_operations() {
    let mut perms = AgentPermissions::default();
    perms.memory_level = 2;
    let agent = Agent { agent_id: 1, user_id: "u".to_string(), name: "a".to_string(), agent_type: "builtin".to_string(), permissions: perms, is_active: true, is_builtin: true };
    assert!(agent.has_memory_level(MemoryPermission::ReadWriteDerived));
    assert!(!agent.has_memory_level(MemoryPermission::ReadWriteEvents));
    assert!(agent.can_perform("query_stats").is_ok());
    assert!(agent.can_perform("delete").is_err());
    assert_eq!(agent.permissions.memory_permission(), Some(MemoryPermission::ReadWriteDerived));
}
