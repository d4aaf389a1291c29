use executive::control_error::AgentControlErrorKind;
use executive::runtimes::AgentRuntimeRegistry;

#[test]
fn runtimes_register_once_and_resolve() {
    let mut registry: AgentRuntimeRegistry<&str> = AgentRuntimeRegistry::new();
    assert!(registry.register("native", "launcher-a").is_ok());
    let dup = registry.register("native", "launcher-b").unwrap_err();
    assert_eq!(dup.kind, AgentControlErrorKind::Conflict);
    assert_eq!(dup.message, "runtime already registered: native");
    let blank = registry.register("  ", "launcher-c").unwrap_err();
    assert_eq!(blank.kind, AgentControlErrorKind::InvalidRequest);
    assert_eq!(blank.message, "runtime id must not be empty");
    assert_eq!(*registry.resolve("native").unwrap(), "launcher-a");
    let missing = registry.resolve("pi").unwrap_err();
    assert_eq!(missing.kind, AgentControlErrorKind::NotFound);
    assert_eq!(missing.message, "runtime is not registered: pi");
}
