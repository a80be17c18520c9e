//! Tests of the settings and small types shared by the services: summary
//! levels, formatters, spans, exports, requests, configuration and the
//! client's helpers.

use synton::api_instrument::{export_format_name, ExportParams};
use synton::api_models::{default_embed, default_k, AddNodeRequest, HybridSearchRequest, QueryRequest, TraverseDirection};
use synton::cli::{confirmed, import_record, label_of_node_type, node_type_from_label, parse_node_type, parse_relation, relation_from_label, transfer_format_supported, truncate, ImportStep, ImportTally, OutputFormat};
use synton::config::{apply_cli_overrides, validate_server, LoggingConfig, MlConfig, ServerConfig, StorageConfig};
use synton::formatter::{CompactFormatter, FlatFormatter, JsonFormatter, StructuredFormatter};
use synton::graph;
use synton::node_type::NodeType;
use synton::relation::Relation;
use synton::span::{SpanKind, SpanStatus};
use synton::summary::{CompressionStrategy, ContextCompressor, SummaryLevel};
use synton::views::{EventCounts, EventKind, ExportFormat, LifecycleView, Statistics, TimelineView, TraceEventRecord};
use synton::api_error::ApiError;
use synton::summary::{select_level, node_matches_level, QueryComplexity};
use synton::trace_query::{Instant, QueryFilter, SpanFacts};
use synton::api_instrument::{plan_export, trace_reply, Exporter};
use synton::rag::{deduplicate_ids, fit_to_size, source_preview};
use synton::error_stats::error_type;
use synton::expansion::{ExpansionConfig, ExpansionStrategy, NeighborExpander};

fn span(id: &str, name: &str, children: Vec<LifecycleView>) -> LifecycleView {
    LifecycleView { id: id.to_string(), name: name.to_string(), status: "running".to_string(), children }
}

#[test]
fn test_summary_level_names() {
    assert_eq!(SummaryLevel::Document.name(), "document");
    assert_eq!(SummaryLevel::Paragraph.name(), "paragraph");
    assert_eq!(SummaryLevel::Sentence.name(), "sentence");
}

#[test]
fn test_summary_level_ordering() {
    assert!(SummaryLevel::Document < SummaryLevel::Paragraph);
    assert!(SummaryLevel::Paragraph < SummaryLevel::Sentence);
}

#[test]
fn inclusive_levels_go_down_to_sentences() {
    assert_eq!(
        SummaryLevel::Document.inclusive_levels(),
        vec![SummaryLevel::Document, SummaryLevel::Paragraph, SummaryLevel::Sentence]
    );
    assert_eq!(SummaryLevel::Paragraph.inclusive_levels(), vec![SummaryLevel::Paragraph, SummaryLevel::Sentence]);
    assert_eq!(SummaryLevel::Sentence.inclusive_levels(), vec![SummaryLevel::Sentence]);
}

#[test]
fn compressor_keeps_its_settings() {
    let c = ContextCompressor::new(100).with_strategy(CompressionStrategy::TopOnly);
    assert_eq!(c.max_tokens(), 100);
    assert_eq!(c.strategy(), CompressionStrategy::TopOnly);
    assert_eq!(ContextCompressor::new(7).strategy(), CompressionStrategy::Deduplicate);
}

#[test]
fn test_flat_formatter() {
    let formatter = FlatFormatter::new();
    let result = formatter.format(&["First content".to_string(), "Second content".to_string()]);
    assert!(result.contains("First content"));
    assert!(result.contains("Second content"));
    assert!(result.contains("---"));
}

#[test]
fn test_compact_formatter() {
    let formatter = CompactFormatter::new();
    let result = formatter.format(&["First".to_string(), "Second".to_string()]);
    assert_eq!(result, "First Second");
    assert!(!result.contains("\n"));
}

#[test]
fn formatters_skip_empty_contents() {
    let contents = vec!["".to_string(), "a".to_string(), "".to_string(), "b".to_string()];
    assert_eq!(FlatFormatter::new().format(&contents), "a\n\n---\n\nb");
    assert_eq!(CompactFormatter::new().format(&contents), "a b");
    assert_eq!(CompactFormatter::new().format(&[]), "");
    assert_eq!(FlatFormatter::new().name(), "flat");
    assert_eq!(StructuredFormatter::new().with_header("H".to_string()).section_header, "H");
    assert!(!JsonFormatter::new().with_pretty(false).pretty);
}

#[test]
fn test_span_status() {
    assert!(SpanStatus::Running.is_running());
    assert!(SpanStatus::Completed.is_success());
    assert!(SpanStatus::Failed("error".into()).is_failure());
}

#[test]
fn test_span_kind_from_str() {
    assert!(matches!(SpanKind::from_name("function"), SpanKind::Function));
    assert!(matches!(SpanKind::from_name("async_task"), SpanKind::AsyncTask));
    assert!(matches!(SpanKind::from_name("database"), SpanKind::DatabaseQuery));
    assert!(matches!(SpanKind::from_name("custom_type"), SpanKind::Custom(s) if s == "custom_type"));
}

#[test]
fn test_span_kind_conversion() {
    assert!(matches!(SpanKind::from_name("function"), SpanKind::Function));
    assert!(matches!(SpanKind::from_name("async_task"), SpanKind::AsyncTask));
    assert!(matches!(SpanKind::from_name("database"), SpanKind::DatabaseQuery));
    assert!(matches!(SpanKind::from_name("external"), SpanKind::ExternalCall));
}

#[test]
fn span_kind_ignores_case_and_keeps_custom_lower() {
    assert_eq!(SpanKind::from_name("Async-Task"), SpanKind::AsyncTask);
    assert_eq!(SpanKind::from_name("INTERNAL"), SpanKind::Internal);
    assert_eq!(SpanKind::from_name("MyKind"), SpanKind::Custom("mykind".to_string()));
}

#[test]
fn test_export_format() {
    assert_eq!(ExportFormat::from_str("json"), Some(ExportFormat::Json));
    assert_eq!(ExportFormat::from_str("mermaid"), Some(ExportFormat::Mermaid));
    assert_eq!(ExportFormat::from_str("text"), Some(ExportFormat::Text));
    assert_eq!(ExportFormat::from_str("unknown"), None);

    assert_eq!(ExportFormat::Json.as_str(), "json");
    assert_eq!(ExportFormat::Mermaid.as_str(), "mermaid");
    assert_eq!(ExportFormat::Text.as_str(), "text");
}

#[test]
fn export_parameters_choose_the_format() {
    assert_eq!(ExportFormat::from_str("TXT"), Some(ExportFormat::Text));
    let p = ExportParams { format: Some("Mermaid".to_string()) };
    assert_eq!(p.export_format(), Some(ExportFormat::Mermaid));
    assert_eq!(export_format_name(p.export_format()), "mermaid");
    let none = ExportParams { format: None };
    assert_eq!(export_format_name(none.export_format()), "json");
    for f in [ExportFormat::Json, ExportFormat::Mermaid, ExportFormat::Text] {
        assert_eq!(ExportFormat::from_str(f.as_str()), Some(f));
    }
}

#[test]
fn test_lifecycle_span_count() {
    let view = span("1", "root", vec![span("2", "child1", vec![]), span("3", "child2", vec![])]);
    assert_eq!(view.span_count(), 3);
}

#[test]
fn test_lifecycle_max_depth() {
    let view = span(
        "1",
        "root",
        vec![span("2", "child1", vec![span("4", "grandchild", vec![])]), span("3", "child2", vec![])],
    );
    assert_eq!(view.max_depth(), 3);
}

#[test]
fn statistics_total_processed() {
    let stats = Statistics {
        spans_created: 100,
        spans_completed: 80,
        spans_failed: 20,
        checkpoints: 50,
        active_spans: 0,
        total_events: 150,
    };
    assert_eq!(stats.total_processed(), 100);
}

#[test]
fn test_query_request() {
    let req = QueryRequest { query: "find AI".to_string(), limit: Some(10), include_metadata: false };
    assert_eq!(req.query, "find AI");
}

#[test]
fn test_add_node_request() {
    let req = AddNodeRequest::new("test".to_string(), NodeType::Concept);
    assert_eq!(req.content, "test");
}

#[test]
fn request_defaults_and_directions() {
    assert_eq!(default_k(), 10);
    assert!(default_embed());
    let r = HybridSearchRequest::new("q".to_string(), 5);
    assert_eq!(r.k, 5);
    for d in [graph::TraverseDirection::Forward, graph::TraverseDirection::Backward, graph::TraverseDirection::Both] {
        let api: TraverseDirection = d.into();
        let back: graph::TraverseDirection = api.into();
        assert_eq!(back, d);
    }
    let api: TraverseDirection = graph::TraverseDirection::Backward.into();
    assert_eq!(api, TraverseDirection::Backward);
}

#[test]
fn test_default_config() {
    let server = ServerConfig::default();
    assert_eq!(server.host, "0.0.0.0");
    assert_eq!(server.grpc_port, 50051);
    assert_eq!(server.rest_port, 8080);
}

#[test]
fn test_config_validation_duplicate_ports() {
    let mut server = ServerConfig::default();
    server.grpc_port = 8080;
    server.rest_port = 8080;

    let result = validate_server(&server);
    assert!(result.is_err());
}

#[test]
fn test_config_validation_valid() {
    let server = ServerConfig::default();
    assert!(validate_server(&server).is_ok());
}

#[test]
fn test_config_application() {
    let mut server = ServerConfig::default();
    let mut logging = LoggingConfig::default();

    apply_cli_overrides(
        &mut server,
        &mut logging,
        Some("127.0.0.1".to_string()),
        Some(9090),
        Some(8081),
        Some("debug".to_string()),
    );

    assert_eq!(server.host, "127.0.0.1");
    assert_eq!(server.grpc_port, 9090);
    assert_eq!(server.rest_port, 8081);
    assert_eq!(logging.level, "debug");
}

#[test]
fn other_defaults() {
    let ml = MlConfig::default();
    assert_eq!(ml.backend, "local");
    assert_eq!(ml.max_length, 512);
    assert_eq!(ml.cache_size, 10000);
    let storage = StorageConfig::default();
    assert_eq!(storage.rocksdb_path, "./data/rocksdb");
    assert_eq!(storage.max_open_files, 5000);
    let logging = LoggingConfig::default();
    assert_eq!(logging.level, "info");
    assert!(!logging.json_format);
    let mut server = ServerConfig::default();
    server.rest_port = 50051;
    let e = validate_server(&server).unwrap_err();
    assert_eq!(e.to_string(), "gRPC and REST ports cannot be the same: both are 50051");
}

#[test]
fn client_helpers() {
    assert_eq!(OutputFormat::from_str("JSON"), OutputFormat::Json);
    assert_eq!(OutputFormat::from_str("yaml"), OutputFormat::Text);
    assert_eq!(parse_node_type("Fact").unwrap(), NodeType::Fact);
    assert_eq!(parse_node_type("x").unwrap_err(), "Unknown node type: x");
    assert_eq!(parse_relation("Is-Part-Of").unwrap(), Relation::IsPartOf);
    assert_eq!(parse_relation("HAPPENED_AFTER").unwrap(), Relation::HappenedAfter);
    assert_eq!(parse_relation("located_at").unwrap_err(), "Unknown relation: located_at");
    assert_eq!(truncate("short", 10), "short");
    assert_eq!(truncate("a longer text", 8), "a lon...");
    assert_eq!(truncate("abcdef", 2), "...");
}

// ========== Service errors and ids ==========

#[test]
fn error_test_error_display() {
    let id = uuid::Uuid::new_v4().as_u128();
    let error = synton::api_error::ApiError::NodeNotFound(id);
    assert!(error.to_string().contains("not found"));
}

#[test]
fn test_error_response() {
    let error = synton::api_error::ApiError::InvalidRequest("test error".to_string());
    // Should return BAD_REQUEST status
    assert_eq!(error.status_code(), 400);
}

#[test]
fn test_error_status_codes() {
    let id = uuid::Uuid::from_u128(7);
    let e = ApiError::NodeNotFound(id.as_u128());
    assert_eq!(e.status_code(), 404);
    assert_eq!(e.to_string(), format!("Node not found: {}", id));
    assert_eq!(ApiError::TraceNotFound("t".to_string()).status_code(), 404);
    assert_eq!(ApiError::InvalidTraceId("t".to_string()).status_code(), 400);
    assert_eq!(ApiError::NotImplemented("x".to_string()).status_code(), 501);
    assert_eq!(ApiError::Internal("boom".to_string()).status_code(), 500);
    assert_eq!(ApiError::Storage("disk".to_string()).to_string(), "Storage error: disk");
}

#[test]
fn test_parse_uuid() {
    let uuid_str = "00000000-0000-0000-0000-000000000000";
    let result = synton::grpc::wire_id(uuid_str);
    assert!(result.is_ok());
}

#[test]
fn test_parse_uuid_invalid() {
    let result = synton::grpc::wire_id("invalid");
    assert!(result.is_err());
}

#[test]
fn test_parse_uuid_value() {
    let id = uuid::Uuid::new_v4();
    assert_eq!(synton::ids::parse_uuid(&id.to_string()), Ok(id.as_u128()));
    assert_eq!(synton::ids::parse_uuid("nope"), Err("Invalid UUID format".to_string()));
}

// ========== Formatters over retrieved entries ==========

fn entry(content: &str, hops: usize, score: &str) -> synton::formatter::ContextEntry {
    synton::formatter::ContextEntry {
        content: content.to_string(),
        node_type: NodeType::Concept,
        hop_distance: hops,
        score_text: score.to_string(),
    }
}

#[test]
fn test_structured_formatter() {
    let formatter = StructuredFormatter::new().with_metadata(true);
    let nodes = vec![entry("Test content", 1, "0.90")];
    let result = formatter.format(&nodes, true, true);
    assert!(result.contains("Retrieved Context"));
    assert!(result.contains("Test content"));
    assert!(result.contains("0.90"));
    assert!(result.contains("Distance: 1 hops"));
}

#[test]
fn test_markdown_formatter() {
    let formatter = synton::formatter::MarkdownFormatter::new();
    let nodes = vec![entry("Test content", 0, "0.90")];
    let result = formatter.format(&nodes, true);
    assert!(result.contains("# Retrieved Context"));
    assert!(result.contains("## "));
    assert!(result.contains("Test content"));
}

#[test]
fn test_structured_formatter_layout() {
    let formatter = StructuredFormatter::new();
    let result = formatter.format(&[entry("A", 0, "0.50"), entry("B", 2, "0.25")], false, true);
    assert_eq!(
        result,
        "=== Retrieved Context ===\n\n[1]\nType: concept\nContent: A\n\n[2]\nType: concept\nDistance: 2 hops\nContent: B"
    );
    assert_eq!(formatter.format(&[], true, true), "=== Retrieved Context ===\nNo relevant context found.");
}

#[test]
fn test_markdown_formatter_layout() {
    let formatter = synton::formatter::MarkdownFormatter::new();
    let result = formatter.format(&[entry("Body", 0, "0.75")], true);
    assert_eq!(result, "# Retrieved Context\n\n## 1. concept\n\n**Relevance:** 0.75\n\nBody");
    assert_eq!(formatter.format(&[], false), "# Retrieved Context\n\n*No relevant context found.*");
}

// ========== Summary selection and compression helpers ==========

#[test]
fn test_select_level() {
    // Over budget: one level coarser.
    assert_eq!(select_level(SummaryLevel::Sentence, 100, true, 200, QueryComplexity::Moderate), SummaryLevel::Paragraph);
    // Under a quarter of the budget: one level finer.
    assert_eq!(select_level(SummaryLevel::Document, 100, true, 10, QueryComplexity::Moderate), SummaryLevel::Paragraph);
    // Within budget: by complexity.
    assert_eq!(select_level(SummaryLevel::Document, 100, true, 50, QueryComplexity::Complex), SummaryLevel::Paragraph);
    assert_eq!(select_level(SummaryLevel::Sentence, 100, false, 5, QueryComplexity::Simple), SummaryLevel::Paragraph);
    assert_eq!(select_level(SummaryLevel::Paragraph, 100, false, 500, QueryComplexity::Moderate), SummaryLevel::Paragraph);
}

#[test]
fn test_node_matches_level() {
    assert!(node_matches_level(NodeType::Entity, SummaryLevel::Document));
    assert!(!node_matches_level(NodeType::Fact, SummaryLevel::Document));
    assert!(node_matches_level(NodeType::Fact, SummaryLevel::Paragraph));
    assert!(!node_matches_level(NodeType::RawChunk, SummaryLevel::Paragraph));
    assert!(node_matches_level(NodeType::RawChunk, SummaryLevel::Sentence));
}

#[test]
fn test_estimate_tokens_and_fits() {
    let texts = vec!["12345678".to_string(), "abc".to_string(), "x".repeat(13)];
    assert_eq!(synton::summary::estimate_tokens(&texts), 2 + 0 + 3);
    let compressor = ContextCompressor::new(5);
    assert!(compressor.fits(5));
    assert!(!compressor.fits(6));
}

#[test]
fn test_deduplicate_indices() {
    let compressor = ContextCompressor::new(100);
    let long_a = format!("{}{}", "p".repeat(50), "tail one");
    let long_b = format!("{}{}", "p".repeat(50), "tail two");
    let texts = vec!["Test".to_string(), "Test".to_string(), "Other".to_string(), long_a, long_b];
    assert_eq!(compressor.deduplicate_indices(&texts), vec![0, 2, 3]);
    assert!(compressor.deduplicate_indices(&[]).is_empty());
}

// ========== Lifecycle views ==========

#[test]
fn test_lifecycle_flatten_and_find() {
    let view = span("root", "r", vec![span("a", "a", vec![span("c", "c", vec![])]), span("b", "b", vec![])]);
    let flat: Vec<&str> = view.flatten().iter().map(|v| v.id.as_str()).collect();
    assert_eq!(flat, vec!["root", "a", "c", "b"]);
    assert_eq!(view.find_by_id("c").unwrap().name, "c");
    assert!(view.find_by_id("zzz").is_none());
}

// ========== Trace queries and exports ==========

fn span_facts(name: &str, kind: SpanKind, start: i64, end: Option<i64>) -> synton::trace_query::SpanFacts {
    SpanFacts {
        id_text: uuid::Uuid::new_v4().to_string(),
        name: name.to_string(),
        kind,
        start: Instant { secs: start, nanos: 0 },
        end: end.map(|e| Instant { secs: e, nanos: 0 }),
    }
}

#[test]
fn test_filter_builder() {
    let filter = synton::trace_query::QueryFilter::builder().name("test".to_string()).limit(10).build();
    assert_eq!(filter.name, Some("test".to_string()));
    assert_eq!(filter.limit, Some(10));
}

#[test]
fn test_filter_matches() {
    let span = span_facts("test_function", SpanKind::Function, 100, None);
    let now = Instant { secs: 200, nanos: 0 };
    let filter = QueryFilter { name: Some("test".to_string()), ..Default::default() };
    assert!(filter.matches(&span, now));
    let wrong_kind_filter = QueryFilter { kind: Some(SpanKind::AsyncTask), ..Default::default() };
    assert!(!wrong_kind_filter.matches(&span, now));
}

#[test]
fn test_filter_times_and_ids() {
    let span = span_facts("work", SpanKind::Custom("job".to_string()), 100, Some(150));
    let now = Instant { secs: 1000, nanos: 0 };
    let t = |s: i64| Instant { secs: s, nanos: 0 };
    assert!(QueryFilter::new().with_start_after(t(100)).matches(&span, now));
    assert!(!QueryFilter::new().with_start_after(t(101)).matches(&span, now));
    assert!(QueryFilter::new().with_end_before(t(150)).matches(&span, now));
    assert!(!QueryFilter::new().with_end_before(t(149)).matches(&span, now));
    assert!(QueryFilter::new().with_kind(SpanKind::Custom("job".to_string())).matches(&span, now));
    assert!(QueryFilter::new().with_trace_id(span.id_text.clone()).matches(&span, now));
    assert!(!QueryFilter::new().with_trace_id("other".to_string()).matches(&span, now));
    // A running span ends, for the filter, now.
    let running = span_facts("work", SpanKind::Internal, 100, None);
    assert!(!QueryFilter::new().with_end_before(t(999)).matches(&running, now));
}

#[test]
fn test_plan_export() {
    let id = uuid::Uuid::new_v4();
    let text_plan = plan_export(&id.to_string(), &ExportParams { format: Some("TXT".to_string()) }).unwrap();
    assert_eq!(text_plan.trace, id.as_u128());
    assert_eq!(text_plan.exporter, Exporter::Mermaid);
    assert_eq!(text_plan.label, "text");
    let default_plan = plan_export(&id.to_string(), &ExportParams { format: Some("yaml".to_string()) }).unwrap();
    assert_eq!(default_plan.exporter, Exporter::Json);
    assert_eq!(default_plan.label, "json");
    assert_eq!(
        plan_export("nope", &ExportParams { format: None }),
        Err(ApiError::InvalidTraceId("nope".to_string()))
    );
    assert_eq!(trace_reply("t1", false), Err(ApiError::TraceNotFound("t1".to_string())));
    assert!(trace_reply("t1", true).is_ok());
}

// ========== The span store of the trace collector ==========

#[test]
fn test_global_collector() {
    let collector = synton::trace_store::SpanStore::new();
    assert_eq!(collector.span_count(), 0);
}

#[test]
fn test_reset() {
    let mut collector = synton::trace_store::SpanStore::new();
    let _span_id = collector.enter_span("test".into(), None, SpanKind::Function);
    assert_eq!(collector.span_count(), 1);
    synton::trace_store::reset(&mut collector);
    assert_eq!(collector.span_count(), 0);
}

#[test]
fn test_trace_export_mermaid() {
    let mut collector = synton::trace_store::SpanStore::new();
    let span_id = collector.enter_span("root".into(), None, SpanKind::Function);
    collector.complete_span(span_id);
    let mermaid = collector.export_mermaid(span_id);
    assert!(mermaid.is_some());
    assert!(mermaid.unwrap().starts_with("flowchart TD"));
}

#[test]
fn test_statistics() {
    let collector = synton::trace_store::SpanStore::new();
    assert_eq!(collector.active_spans(), 0);
}

fn node_name(id: u128) -> String {
    format!("N{}", uuid::Uuid::from_u128(id).to_string().replace('-', ""))
}

#[test]
fn test_span_tree_and_mermaid() {
    let mut store = synton::trace_store::SpanStore::new();
    let root = store.enter_span("root".into(), None, SpanKind::Function);
    let child = store.enter_span("child".into(), Some(root), SpanKind::Internal);
    let other = store.enter_span("other".into(), None, SpanKind::AsyncTask);
    assert_eq!(store.get_span(root).unwrap().children, vec![child]);
    assert_eq!(store.root_spans(), vec![root, other]);
    assert_eq!(store.active_spans(), 3);
    store.complete_span(child);
    store.fail_span(other, "boom".to_string());
    assert_eq!(store.active_spans(), 1);
    assert_eq!(store.get_span(other).unwrap().status, SpanStatus::Failed("boom".to_string()));
    assert_eq!(store.collect_trace_tree(root), vec![root, child]);
    assert_eq!(
        store.export_mermaid(root).unwrap(),
        format!(
            "flowchart TD\n    {}[\"root\"]\n    {} --> {}[\"child\"]\n",
            node_name(root),
            node_name(root),
            node_name(child)
        )
    );
    assert!(store.export_mermaid(uuid::Uuid::new_v4().as_u128()).is_none());
    assert!(store.collect_trace_tree(uuid::Uuid::new_v4().as_u128()).is_empty());
}

#[test]
fn test_span_creation() {
    let mut store = synton::trace_store::SpanStore::new();
    let span = synton::trace_store::SpanEntry::new("test_span".to_string(), store.new_span_id(), None, SpanKind::Function);
    assert_eq!(span.name, "test_span");
    assert!(span.parent_id.is_none());
    assert!(span.is_root());
    assert!(span.status.is_running());
}

#[test]
fn test_new_span_id() {
    let mut store = synton::trace_store::SpanStore::new();
    let id1 = store.new_span_id();
    let id2 = store.new_span_id();
    assert_ne!(id1, id2);
    assert_eq!(id1, 1);
    assert_eq!(id2, 2);
}

#[test]
fn test_new_trace_id() {
    let id1 = synton::trace_store::new_trace_id();
    let id2 = synton::trace_store::new_trace_id();
    assert_ne!(id1, id2);
}

#[test]
fn test_env_overrides() {
    let mut server = ServerConfig::default();
    let mut storage = StorageConfig::default();
    let mut logging = LoggingConfig::default();
    let mut ml = MlConfig::default();
    let env = synton::config::EnvOverrides {
        host: Some("10.0.0.1".to_string()),
        grpc_port: Some("abc".to_string()),
        rest_port: Some("8088".to_string()),
        rocksdb_path: None,
        lance_path: Some("/tmp/lance".to_string()),
        log_level: Some("warn".to_string()),
        ml_backend: None,
        ml_api_key: Some("SECRET-REDACTED".to_string()),
        ml_api_endpoint: None,
    };
    let grpc_before = server.grpc_port;
    synton::config::apply_env_overrides(&mut server, &mut storage, &mut logging, &mut ml, &env);
    assert_eq!(server.host, "10.0.0.1");
    // A port that does not read as a number is ignored.
    assert_eq!(server.grpc_port, grpc_before);
    assert_eq!(server.rest_port, 8088);
    assert_eq!(storage.rocksdb_path, "./data/rocksdb");
    assert_eq!(storage.lance_path, "/tmp/lance");
    assert_eq!(logging.level, "warn");
    assert_eq!(ml.backend, "local");
    assert_eq!(ml.api_key, Some("SECRET-REDACTED".to_string()));
}

#[test]
fn env_ports_read_as_std_reads_them() {
    let cases: Vec<(&str, Option<u16>)> =
        vec![("+8080", Some(8080)), ("65535", Some(65535)), ("65536", None), ("+", None), ("", None), (" 80", None), ("-1", None)];
    for (text, expected) in cases {
        let mut server = ServerConfig::default();
        let mut storage = StorageConfig::default();
        let mut logging = LoggingConfig::default();
        let mut ml = MlConfig::default();
        let before = server.grpc_port;
        let env = synton::config::EnvOverrides {
            host: None,
            grpc_port: Some(text.to_string()),
            rest_port: None,
            rocksdb_path: None,
            lance_path: None,
            log_level: None,
            ml_backend: None,
            ml_api_key: None,
            ml_api_endpoint: None,
        };
        synton::config::apply_env_overrides(&mut server, &mut storage, &mut logging, &mut ml, &env);
        assert_eq!(server.grpc_port, expected.unwrap_or(before), "port text {:?}", text);
    }
}

#[test]
fn test_cli_confirm_and_import() {
    assert!(confirmed("  Yes\n"));
    assert!(confirmed("y"));
    assert!(!confirmed("no"));
    assert!(!confirmed("   "));
    assert_eq!(import_record(None, None), (String::new(), NodeType::Concept));
    assert_eq!(import_record(Some("x"), Some("FACT")), ("x".to_string(), NodeType::Fact));
    assert_eq!(import_record(Some("x"), Some("weird")), ("x".to_string(), NodeType::Concept));
    let mut tally = ImportTally::new();
    assert_eq!(tally.record(true, false), ImportStep::Continue);
    assert_eq!(tally.record(false, true), ImportStep::Continue);
    assert_eq!(tally.record(false, false), ImportStep::Stop);
    assert_eq!(tally, ImportTally { success: 1, failed: 2 });
    assert!(transfer_format_supported("json"));
    assert!(!transfer_format_supported("csv"));
}

#[test]
fn test_client_reply_labels() {
    assert_eq!(label_of_node_type(NodeType::RawChunk), "RawChunk");
    assert_eq!(label_of_node_type(NodeType::Entity), "Entity");
    assert_eq!(node_type_from_label("Fact"), NodeType::Fact);
    assert_eq!(node_type_from_label("RawChunk"), NodeType::RawChunk);
    assert_eq!(node_type_from_label("fact"), NodeType::Concept);
    assert_eq!(node_type_from_label("Unknown"), NodeType::Concept);
    assert_eq!(relation_from_label("happened_after"), Relation::HappenedAfter);
    assert_eq!(relation_from_label("is_a"), Relation::IsA);
    assert_eq!(relation_from_label("located_at"), Relation::SimilarTo);
    assert_eq!(relation_from_label("IS_A"), Relation::SimilarTo);
}

fn event(kind: EventKind, secs: i64) -> TraceEventRecord {
    TraceEventRecord { kind, span_id: 1, timestamp: Instant { secs, nanos: 0 } }
}

#[test]
fn test_timeline_filters_and_counts() {
    let timeline = TimelineView {
        trace_id: "t".to_string(),
        events: vec![
            event(EventKind::Enter, 1),
            event(EventKind::Checkpoint, 2),
            event(EventKind::Error, 3),
            event(EventKind::Checkpoint, 4),
            event(EventKind::Exit, 5),
        ],
    };
    let cps = timeline.checkpoints();
    assert_eq!(cps.len(), 2);
    assert_eq!(cps[0].timestamp.secs, 2);
    assert_eq!(cps[1].timestamp.secs, 4);
    assert_eq!(timeline.errors().len(), 1);
    assert_eq!(timeline.filter_by_type("enter")[0].kind, EventKind::Enter);
    assert!(timeline.filter_by_type("Enter").is_empty());
    let range = timeline.in_time_range(Instant { secs: 2, nanos: 0 }, Instant { secs: 4, nanos: 0 });
    assert_eq!(range.len(), 3);
    assert_eq!(range[0].kind, EventKind::Checkpoint);
    assert_eq!(range[2].timestamp.secs, 4);
    let counts = timeline.count_by_type();
    assert_eq!(counts.get("checkpoint"), Some(2));
    assert_eq!(counts.get("enter"), Some(1));
    assert_eq!(counts.get("custom"), None);
    assert_eq!(counts.get("other"), None);
    assert_eq!(counts, EventCounts { enter: 1, exit: 1, checkpoint: 2, error: 1, custom: 0 });
}

#[test]
fn test_rag_context_bookkeeping() {
    assert_eq!(deduplicate_ids(&[5, 7, 5, 9, 7]), vec![0, 1, 3]);
    assert_eq!(deduplicate_ids(&[]), Vec::<usize>::new());
    let contents = vec!["a".repeat(40), "b".repeat(40), "c".repeat(8)];
    // Sizes are 10, 10 and 2 tokens.
    assert_eq!(fit_to_size(&contents, 25), 3);
    assert_eq!(fit_to_size(&contents, 20), 2);
    assert_eq!(fit_to_size(&contents, 19), 1);
    assert_eq!(fit_to_size(&contents, 0), 0);
    assert_eq!(source_preview("short"), "short");
    let long = "x".repeat(150);
    let p = source_preview(&long);
    assert_eq!(p.len(), 100);
    assert!(p.ends_with("..."));
    assert_eq!(&p[..97], &long[..97]);
}

#[test]
fn test_error_type_of_message() {
    assert_eq!(error_type("timeout after 5s"), "timeout");
    assert_eq!(error_type("  \tconnection refused"), "connection");
    assert_eq!(error_type("panic"), "panic");
    assert_eq!(error_type(""), "unknown");
    assert_eq!(error_type(" \n "), "unknown");
}

#[test]
fn test_expansion_config() {
    let config = ExpansionConfig::new()
        .with_max_nodes(20)
        .with_max_hops(3)
        .with_min_weight(500)
        .with_strategy(ExpansionStrategy::Bfs);
    assert_eq!(config.max_expanded_nodes, 20);
    assert_eq!(config.max_expansion_hops, 3);
    assert_eq!(config.min_edge_weight, 500);
    assert_eq!(config.strategy, ExpansionStrategy::Bfs);
}

#[test]
fn test_neighbor_expander() {
    let expander = NeighborExpander::new(ExpansionConfig {
        max_expanded_nodes: 5,
        max_expansion_hops: 2,
        min_edge_weight: 0,
        ..Default::default()
    });
    let (seed1, seed2, n1, n2, n3) = (1u128, 2u128, 10u128, 11u128, 12u128);
    let get_neighbors = |id: u128| -> Result<Vec<(u128, u32)>, String> {
        if id == seed1 {
            Ok(vec![(n1, 900), (n2, 700)])
        } else if id == seed2 {
            Ok(vec![(n1, 500)])
        } else if id == n1 {
            Ok(vec![(n3, 100)])
        } else {
            Ok(vec![])
        }
    };
    let result = expander.expand(&[seed1, seed2], get_neighbors, 10).unwrap();
    assert_eq!(result.added_ids, vec![n1, n2, n3]);
    assert_eq!(result.final_ids, vec![seed1, seed2, n1, n2, n3]);
    assert_eq!(result.stats.seed_count, 2);
    assert_eq!(result.stats.explored_count, 4);
    assert_eq!(result.stats.edge_count, 4);
    assert_eq!(result.stats.hop_count, 1);
}

#[test]
fn test_expansion_limits_and_errors() {
    let weighted = NeighborExpander::new(ExpansionConfig::new());
    let lookup = |id: u128| -> Result<Vec<(u128, u32)>, String> {
        if id == 1 { Ok(vec![(5, 200), (6, 300), (7, 900)]) } else { Ok(vec![]) }
    };
    // Weights under 0.3 are passed over.
    let r = weighted.expand(&[1], lookup, 10).unwrap();
    assert_eq!(r.added_ids, vec![6, 7]);
    // The total cuts both the reading and the final ids.
    let r = weighted.expand(&[1], lookup, 2).unwrap();
    assert_eq!(r.added_ids, vec![6]);
    assert_eq!(r.final_ids, vec![1, 6]);
    let failing = |_: u128| -> Result<Vec<(u128, u32)>, String> { Err("down".to_string()) };
    assert_eq!(weighted.expand(&[1], failing, 10), Err("down".to_string()));
}
