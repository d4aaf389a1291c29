use executive::metrics::MetricsExporter;

#[test]
fn test_record_inference_accumulates() {
    let mut exporter = MetricsExporter::new();
    exporter.record_inference(100, 50, 300);
    exporter.record_inference(200, 80, 500);

    assert_eq!(exporter.llm_call_count(), 2);
    assert_eq!(exporter.total_inference_latency_ms(), 800);
    assert_eq!(exporter.token_usage().input_tokens, 300);
    assert_eq!(exporter.token_usage().output_tokens, 130);
    assert_eq!(exporter.token_usage().total(), 430);
}

#[test]
fn test_record_tool_call() {
    let mut exporter = MetricsExporter::new();
    exporter.record_tool_call(100);
    exporter.record_tool_call(200);
    exporter.record_tool_call(150);

    assert_eq!(exporter.tool_call_count(), 3);
    assert_eq!(exporter.total_tool_latency_ms(), 450);
}

#[test]
fn test_record_hook_execution() {
    let mut exporter = MetricsExporter::new();
    exporter.record_hook_execution(50);

    assert_eq!(exporter.hook_execution_count(), 1);
    assert_eq!(exporter.total_hook_latency_ms(), 50);
}

#[test]
fn test_cache_usage() {
    let mut exporter = MetricsExporter::new();
    exporter.record_cache_usage(1000, 500);
    assert_eq!(exporter.token_usage().cache_read_tokens, 1000);
    assert_eq!(exporter.token_usage().cache_write_tokens, 500);
    assert_eq!(exporter.token_usage().total(), 1500);
}

#[test]
fn existing_global_tests_still_pass() {
    let mut ex = MetricsExporter::new();
    ex.record_inference(100, 50, 300);
    assert_eq!(ex.llm_call_count(), 1);
    assert_eq!(ex.token_usage().input_tokens, 100);
    assert!(ex.provider_usage("any").is_none());
}

#[test]
fn per_provider_attribution_without_pricing() {
    let mut ex = MetricsExporter::new();
    ex.record_inference_for("anthropic", 1_000, 500, 300);
    ex.record_inference_for("openai", 2_000, 1_000, 400);
    ex.record_cache_usage_for("anthropic", 800, 0);

    let a = ex.provider_usage("anthropic").expect("anthropic tracked");
    assert_eq!(a.input_tokens, 1_000);
    assert_eq!(a.output_tokens, 500);
    assert_eq!(a.cache_read_tokens, 800);
    let o = ex.provider_usage("openai").expect("openai tracked");
    assert_eq!(o.input_tokens, 2_000);

    assert_eq!(ex.token_usage().input_tokens, 3_000);
    assert_eq!(ex.token_usage().output_tokens, 1_500);
    assert_eq!(ex.llm_call_count(), 2);
}

#[test]
fn default_exporter_starts_at_zero() {
    let ex = MetricsExporter::default();
    assert_eq!(ex.llm_call_count(), 0);
    assert_eq!(ex.token_usage().total(), 0);
}
