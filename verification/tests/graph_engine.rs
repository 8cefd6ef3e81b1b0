use ambara::cache::{CacheKey, ResultCache};
use ambara::contexts::{ExecutionContext, ValidationContext};
use ambara::engine::{ExecutionEngine, ExecutionOptions};
use ambara::errors::{ExecutionError, GraphError, NodeId, ValidationError};
use ambara::graph::{GraphNode, ProcessingGraph};
use ambara::nodes::{Category, FilterNode, NodeMetadata, PassthroughNode};
use ambara::ports::{ParameterDefinition, PortDefinition};
use ambara::progress::{ProgressSink, ProgressTracker, ProgressUpdate};
use ambara::topology::TopologyAnalyzer;
use ambara::validation::{StructuralValidation, TypeValidation, ValidationPipeline};
use ambara::values::{ImageFormat, ImageMetadata, ImageValue, PortType, Value, ValueMap};

fn create_test_node() -> GraphNode {
    GraphNode::new(Box::new(PassthroughNode))
}

#[test]
fn test_add_remove_node() {
    let mut graph = ProcessingGraph::new();

    let id = graph.add_node(create_test_node());
    assert_eq!(graph.node_count(), 1);
    assert!(graph.has_node(id));

    graph.remove_node(id).ok().unwrap();
    assert_eq!(graph.node_count(), 0);
    assert!(!graph.has_node(id));
}

#[test]
fn test_connect_nodes() {
    let mut graph = ProcessingGraph::new();

    let node1 = graph.add_node(create_test_node());
    let node2 = graph.add_node(create_test_node());

    let conn_id = graph.connect(node1, "output", node2, "input").ok().unwrap();
    assert_eq!(graph.connection_count(), 1);

    graph.disconnect(conn_id).ok().unwrap();
    assert_eq!(graph.connection_count(), 0);
}

#[test]
fn test_cycle_detection() {
    let mut graph = ProcessingGraph::new();

    let node1 = graph.add_node(create_test_node());
    let node2 = graph.add_node(create_test_node());
    let node3 = graph.add_node(create_test_node());

    graph.connect(node1, "output", node2, "input").ok().unwrap();
    graph.connect(node2, "output", node3, "input").ok().unwrap();

    // this would close a cycle
    let result = graph.connect(node3, "output", node1, "input");
    assert!(matches!(result, Err(GraphError::CycleDetected { .. })));
}

#[test]
fn test_cycle_rejection_keeps_connections() {
    // four nodes in a chain; closing the loop is rejected and changes nothing
    let mut graph = ProcessingGraph::new();
    let n1 = graph.add_node(create_test_node());
    let n2 = graph.add_node(create_test_node());
    let n3 = graph.add_node(create_test_node());
    let n4 = graph.add_node(create_test_node());
    graph.connect(n1, "output", n2, "input").ok().unwrap();
    graph.connect(n2, "output", n3, "input").ok().unwrap();
    graph.connect(n3, "output", n4, "input").ok().unwrap();

    let before = graph.connection_count();
    let result = graph.connect(n4, "output", n1, "input");
    match result {
        Err(GraphError::CycleDetected { nodes }) => {
            assert_eq!(nodes.len(), 2);
            assert_eq!(nodes[0], n4);
            assert_eq!(nodes[1], n1);
        }
        _ => panic!("expected a cycle rejection"),
    }
    assert_eq!(graph.connection_count(), before);
}

#[test]
fn test_source_sink_nodes() {
    let mut graph = ProcessingGraph::new();

    let node1 = graph.add_node(create_test_node());
    let node2 = graph.add_node(create_test_node());
    let node3 = graph.add_node(create_test_node());

    graph.connect(node1, "output", node2, "input").ok().unwrap();
    graph.connect(node2, "output", node3, "input").ok().unwrap();

    let sources = graph.get_source_nodes();
    assert_eq!(sources.len(), 1);
    assert!(sources.contains(&node1));

    let sinks = graph.get_sink_nodes();
    assert_eq!(sinks.len(), 1);
    assert!(sinks.contains(&node3));
}

#[test]
fn test_upstream_downstream() {
    let mut graph = ProcessingGraph::new();

    let node1 = graph.add_node(create_test_node());
    let node2 = graph.add_node(create_test_node());
    let node3 = graph.add_node(create_test_node());

    graph.connect(node1, "output", node2, "input").ok().unwrap();
    graph.connect(node2, "output", node3, "input").ok().unwrap();

    let downstream = graph.get_downstream(node1);
    assert_eq!(downstream.len(), 2);
    assert!(downstream.contains(&node2));
    assert!(downstream.contains(&node3));

    let upstream = graph.get_upstream(node3);
    assert_eq!(upstream.len(), 2);
    assert!(upstream.contains(&node1));
    assert!(upstream.contains(&node2));
}

#[test]
fn test_topological_sort() {
    let mut graph = ProcessingGraph::new();

    let node1 = graph.add_node(create_test_node());
    let node2 = graph.add_node(create_test_node());
    let node3 = graph.add_node(create_test_node());

    graph.connect(node1, "output", node2, "input").ok().unwrap();
    graph.connect(node2, "output", node3, "input").ok().unwrap();

    let analyzer = TopologyAnalyzer::new(&graph);
    let sorted = analyzer.topological_sort().ok().unwrap();

    let pos1 = sorted.iter().position(|&n| n == node1).unwrap();
    let pos2 = sorted.iter().position(|&n| n == node2).unwrap();
    let pos3 = sorted.iter().position(|&n| n == node3).unwrap();

    assert!(pos1 < pos2);
    assert!(pos2 < pos3);
}

#[test]
fn test_parallel_batches() {
    let mut graph = ProcessingGraph::new();

    let a = graph.add_node(create_test_node());
    let b = graph.add_node(create_test_node());
    let _c = graph.add_node(create_test_node());
    let _d = graph.add_node(create_test_node());

    graph.connect(a, "output", b, "input").ok().unwrap();

    let analyzer = TopologyAnalyzer::new(&graph);
    let batches = analyzer.parallel_batches().ok().unwrap();

    assert!(!batches.is_empty());
    // the only edge crosses from an earlier batch to a later one
    let batch_of = |id: NodeId| {
        batches
            .iter()
            .position(|batch| batch.contains(&id))
            .unwrap()
    };
    assert!(batch_of(a) < batch_of(b));
}

#[test]
fn test_ready_to_execute() {
    let mut graph = ProcessingGraph::new();

    let node1 = graph.add_node(create_test_node());
    let node2 = graph.add_node(create_test_node());
    let node3 = graph.add_node(create_test_node());

    graph.connect(node1, "output", node2, "input").ok().unwrap();
    graph.connect(node2, "output", node3, "input").ok().unwrap();

    let analyzer = TopologyAnalyzer::new(&graph);

    let ready = analyzer.ready_to_execute(&Vec::new());
    assert!(ready.contains(&node1));
    assert!(!ready.contains(&node2));
    assert!(!ready.contains(&node3));

    let executed = vec![node1];
    let ready = analyzer.ready_to_execute(&executed);
    assert!(ready.contains(&node2));
    assert!(!ready.contains(&node3));
}

#[test]
fn test_basic_graph_creation() {
    let mut graph = ProcessingGraph::new();

    let node1 = graph.add_node(create_test_node());
    let node2 = graph.add_node(create_test_node());

    assert!(graph.connect(node1, "output", node2, "input").is_ok());
    assert_eq!(graph.node_count(), 2);
}

fn test_outputs() -> ValueMap {
    let mut outputs = ValueMap::new();
    outputs.insert("result".to_string(), Value::Integer(42));
    outputs
}

#[test]
fn test_cache_key_creation() {
    let mut inputs = ValueMap::new();
    inputs.insert("a".to_string(), Value::Integer(1));
    inputs.insert("b".to_string(), Value::Float(2.0f64.to_bits()));

    let node1 = NodeId::new();
    let node2 = NodeId::new();

    let key1 = CacheKey::new(node1, &inputs);
    let key2 = CacheKey::new(node1, &inputs);
    let key3 = CacheKey::new(node2, &inputs);

    assert_eq!(key1, key2);
    assert_ne!(key1, key3);
}

#[test]
fn test_cache_digest_sees_values() {
    let node = NodeId::new();
    let mut inputs1 = ValueMap::new();
    inputs1.insert("a".to_string(), Value::Integer(1));
    let mut inputs2 = ValueMap::new();
    inputs2.insert("a".to_string(), Value::Integer(2));
    let k1 = CacheKey::new(node, &inputs1);
    let k2 = CacheKey::new(node, &inputs2);
    assert_ne!(k1.input_hash, k2.input_hash);
}

#[test]
fn test_cache_put_get() {
    let mut cache = ResultCache::new(10);
    let node_id = NodeId::new();
    let key = CacheKey { node_id, input_hash: 12345 };

    cache.put(key, test_outputs(), 100, 1000);

    let result = cache.get(&key, 1500);
    assert!(result.is_some());
    assert!(matches!(result.unwrap().get("result"), Some(Value::Integer(42))));
}

#[test]
fn test_cache_miss() {
    let mut cache = ResultCache::new(10);
    let key = CacheKey { node_id: NodeId::new(), input_hash: 12345 };

    let result = cache.get(&key, 0);
    assert!(result.is_none());

    let stats = cache.stats();
    assert_eq!(stats.misses, 1);
}

#[test]
fn test_cache_probe_accounting() {
    let mut cache = ResultCache::new(10);
    let key = CacheKey { node_id: NodeId::new(), input_hash: 7 };
    cache.put(key, test_outputs(), 5, 0);
    let _ = cache.get(&key, 1);
    let _ = cache.get(&CacheKey { node_id: NodeId::new(), input_hash: 8 }, 1);
    let stats = cache.stats();
    assert_eq!(stats.hits + stats.misses, 2);
}

#[test]
fn test_cache_expiry() {
    let mut cache = ResultCache::new(10).with_ttl(100);
    let key = CacheKey { node_id: NodeId::new(), input_hash: 1 };
    cache.put(key, test_outputs(), 5, 1000);
    // probe long after the time-to-live has passed
    assert!(cache.get(&key, 2000).is_none());
    assert_eq!(cache.stats().misses, 1);
}

#[test]
fn test_cache_invalidation() {
    let mut cache = ResultCache::new(10);
    let key = CacheKey { node_id: NodeId::new(), input_hash: 12345 };

    cache.put(key, test_outputs(), 100, 0);
    assert!(cache.get(&key, 0).is_some());

    cache.invalidate(&key);
    assert!(cache.get(&key, 0).is_none());
}

#[test]
fn test_invalidate_node() {
    let mut cache = ResultCache::new(10);
    let node1 = NodeId::new();
    let node2 = NodeId::new();

    for i in 0..5u64 {
        let key = CacheKey { node_id: node1, input_hash: i };
        cache.put(key, test_outputs(), 100, 0);
    }

    let other_key = CacheKey { node_id: node2, input_hash: 0 };
    cache.put(other_key, test_outputs(), 100, 0);

    assert_eq!(cache.len(), 6);

    cache.invalidate_node(node1);

    assert_eq!(cache.len(), 1);
    assert!(cache.get(&other_key, 0).is_some());
}

#[test]
fn test_cache_memory_bound() {
    // a small byte budget evicts the oldest entries and never exceeds it
    let mut cache = ResultCache::with_memory_limit(100, 1);
    for i in 0..50u64 {
        let mut outputs = ValueMap::new();
        outputs.insert("text".to_string(), Value::String("x".repeat(100_000)));
        cache.put(
            CacheKey { node_id: NodeId::new(), input_hash: i },
            outputs,
            1,
            0,
        );
        assert!(cache.memory_usage() <= 1024 * 1024);
    }
}

#[test]
fn test_engine_creation() {
    let engine = ExecutionEngine::new();
    assert!(engine.cache_stats().hits == 0);
}

#[test]
fn test_execute_empty_graph() {
    let mut engine = ExecutionEngine::new();
    let graph = ProcessingGraph::new();

    let result = engine.execute(&graph, None).ok().unwrap();
    assert!(result.outputs.is_empty());
    assert!(result.all_outputs.is_empty());
}

#[test]
fn test_execute_single_node_error_handling() {
    // the passthrough filter needs an input, so the lone node fails
    let mut engine = ExecutionEngine::new();
    let mut graph = ProcessingGraph::new();
    let _node_id = graph.add_node(create_test_node());

    let options = ExecutionOptions::new().with_stop_on_error(false);
    let result = engine.execute(&graph, Some(options)).ok().unwrap();

    assert!(!result.errors.is_empty());
}

#[test]
fn test_execution_options_builder() {
    let options = ExecutionOptions::new()
        .with_parallel(false)
        .with_max_threads(4)
        .with_cache(false)
        .with_stop_on_error(false)
        .with_timeout(30_000);

    assert!(!options.parallel);
    assert_eq!(options.max_threads, 4);
    assert!(!options.use_cache);
    assert!(!options.stop_on_error);
    assert_eq!(options.node_timeout_ms, Some(30_000));
}

#[test]
fn test_progress_calculation() {
    let mut tracker = ProgressTracker::new(10);
    assert_eq!(tracker.progress_percent(), 0);

    for _ in 0..5 {
        tracker.node_completed(10);
    }
    assert_eq!(tracker.progress_percent(), 50);

    for _ in 0..5 {
        tracker.node_skipped();
    }
    assert_eq!(tracker.progress_percent(), 100);
}

#[test]
fn test_cancellation() {
    let mut tracker = ProgressTracker::new(10);
    assert!(!tracker.is_cancelled());

    tracker.cancel();
    assert!(tracker.is_cancelled());
}

// A filter that produces an in-memory image, standing in for a loader.
struct StubLoad;

impl FilterNode for StubLoad {
    fn metadata(&self) -> NodeMetadata {
        NodeMetadata::builder("load_image".to_string(), "Load Image".to_string())
            .category(Category::Input)
            .output(PortDefinition::output("image".to_string(), PortType::Image))
            .parameter(ParameterDefinition::new(
                "path".to_string(),
                PortType::String,
                Value::String(String::new()),
            ))
            .build()
    }

    fn validate(&self, _ctx: &ValidationContext) -> Result<(), ValidationError> {
        Ok(())
    }

    fn execute(&self, ctx: &mut ExecutionContext) -> Result<(), ExecutionError> {
        let path = ctx.get_string("path")?.clone();
        let metadata = ImageMetadata {
            width: 8,
            height: 8,
            format: ImageFormat::Png,
            has_alpha: false,
        };
        let image = ImageValue::from_metadata(metadata, path);
        ctx.set_output_image("image".to_string(), image)?;
        Ok(())
    }
}

// A filter that forwards an image, standing in for a pixel transform.
struct StubBlur;

impl FilterNode for StubBlur {
    fn metadata(&self) -> NodeMetadata {
        NodeMetadata::builder("gaussian_blur".to_string(), "Gaussian Blur".to_string())
            .category(Category::Blur)
            .input(PortDefinition::input("image".to_string(), PortType::Image))
            .output(PortDefinition::output("image".to_string(), PortType::Image))
            .parameter(ParameterDefinition::new(
                "sigma".to_string(),
                PortType::Float,
                Value::Float(1.0f64.to_bits()),
            ))
            .build()
    }

    fn validate(&self, _ctx: &ValidationContext) -> Result<(), ValidationError> {
        Ok(())
    }

    fn execute(&self, ctx: &mut ExecutionContext) -> Result<(), ExecutionError> {
        let image = ctx.take_input_image("image")?;
        ctx.set_output_image("image".to_string(), image)?;
        Ok(())
    }
}

// A filter that reports where it would store its input, standing in for a
// writer.
struct StubSave;

impl FilterNode for StubSave {
    fn metadata(&self) -> NodeMetadata {
        NodeMetadata::builder("save_image".to_string(), "Save Image".to_string())
            .category(Category::Output)
            .input(PortDefinition::input("image".to_string(), PortType::Image))
            .parameter(ParameterDefinition::new(
                "path".to_string(),
                PortType::String,
                Value::String(String::new()),
            ))
            .build()
    }

    fn validate(&self, _ctx: &ValidationContext) -> Result<(), ValidationError> {
        Ok(())
    }

    fn execute(&self, ctx: &mut ExecutionContext) -> Result<(), ExecutionError> {
        let _image = ctx.take_input_image("image")?;
        let path = ctx.get_string("path")?.clone();
        ctx.set_output("path".to_string(), Value::String(path))?;
        Ok(())
    }
}

#[test]
fn test_linear_chain_validate_and_execute() {
    // load -> blur -> save; validation passes and all three nodes run
    let mut graph = ProcessingGraph::new();
    let a = graph.add_node(
        GraphNode::new(Box::new(StubLoad)).with_parameter(
            "path".to_string(),
            Value::String("img.png".to_string()),
        ),
    );
    let b = graph.add_node(GraphNode::new(Box::new(StubBlur)));
    let c = graph.add_node(
        GraphNode::new(Box::new(StubSave)).with_parameter(
            "path".to_string(),
            Value::String("out.png".to_string()),
        ),
    );
    graph.connect(a, "image", b, "image").ok().unwrap();
    graph.connect(b, "image", c, "image").ok().unwrap();

    let pipeline = ValidationPipeline::default_pipeline();
    let report = pipeline.validate(&graph);
    assert!(report.success);
    assert_eq!(report.errors.len(), 0);

    let mut engine = ExecutionEngine::new();
    let options = ExecutionOptions::new().with_cache(false).with_parallel(false);
    let result = engine.execute(&graph, Some(options)).ok().unwrap();
    assert_eq!(result.stats.nodes_executed, 3);
    assert_eq!(result.stats.cache_hits, 0);
    let (_, save_outputs) = result
        .outputs
        .iter()
        .find(|(id, _)| *id == c)
        .expect("the save node is terminal");
    assert!(matches!(save_outputs.get("path"), Some(Value::String(s)) if s == "out.png"));
}

// A filter with an integer output.
struct IntSource;

impl FilterNode for IntSource {
    fn metadata(&self) -> NodeMetadata {
        NodeMetadata::builder("int_source".to_string(), "Int Source".to_string())
            .output(PortDefinition::output("out".to_string(), PortType::Integer))
            .build()
    }

    fn validate(&self, _ctx: &ValidationContext) -> Result<(), ValidationError> {
        Ok(())
    }

    fn execute(&self, ctx: &mut ExecutionContext) -> Result<(), ExecutionError> {
        ctx.set_output("out".to_string(), Value::Integer(1))?;
        Ok(())
    }
}

// A filter with a float input, and its mirror pair for the reverse check.
struct FloatSink;

impl FilterNode for FloatSink {
    fn metadata(&self) -> NodeMetadata {
        NodeMetadata::builder("float_sink".to_string(), "Float Sink".to_string())
            .input(PortDefinition::input("in".to_string(), PortType::Float))
            .build()
    }

    fn validate(&self, _ctx: &ValidationContext) -> Result<(), ValidationError> {
        Ok(())
    }

    fn execute(&self, _ctx: &mut ExecutionContext) -> Result<(), ExecutionError> {
        Ok(())
    }
}

struct FloatSource;

impl FilterNode for FloatSource {
    fn metadata(&self) -> NodeMetadata {
        NodeMetadata::builder("float_source".to_string(), "Float Source".to_string())
            .output(PortDefinition::output("out".to_string(), PortType::Float))
            .build()
    }

    fn validate(&self, _ctx: &ValidationContext) -> Result<(), ValidationError> {
        Ok(())
    }

    fn execute(&self, ctx: &mut ExecutionContext) -> Result<(), ExecutionError> {
        ctx.set_output("out".to_string(), Value::Float(0))?;
        Ok(())
    }
}

struct IntSink;

impl FilterNode for IntSink {
    fn metadata(&self) -> NodeMetadata {
        NodeMetadata::builder("int_sink".to_string(), "Int Sink".to_string())
            .input(PortDefinition::input("in".to_string(), PortType::Integer))
            .build()
    }

    fn validate(&self, _ctx: &ValidationContext) -> Result<(), ValidationError> {
        Ok(())
    }

    fn execute(&self, _ctx: &mut ExecutionContext) -> Result<(), ExecutionError> {
        Ok(())
    }
}

#[test]
fn test_type_coercion_on_connect() {
    // an integer output may feed a float input, never the other way round
    let mut graph = ProcessingGraph::new();
    let x = graph.add_node(GraphNode::new(Box::new(IntSource)));
    let y = graph.add_node(GraphNode::new(Box::new(FloatSink)));
    assert!(graph.connect(x, "out", y, "in").is_ok());

    let mut reverse = ProcessingGraph::new();
    let fx = reverse.add_node(GraphNode::new(Box::new(FloatSource)));
    let iy = reverse.add_node(GraphNode::new(Box::new(IntSink)));
    match reverse.connect(fx, "out", iy, "in") {
        Err(GraphError::TypeMismatch { from_type, to_type }) => {
            assert!(matches!(from_type, PortType::Float));
            assert!(matches!(to_type, PortType::Integer));
        }
        _ => panic!("expected a type mismatch"),
    }
}

#[test]
fn test_port_already_connected() {
    let mut graph = ProcessingGraph::new();
    let a = graph.add_node(create_test_node());
    let b = graph.add_node(create_test_node());
    let c = graph.add_node(create_test_node());
    graph.connect(a, "output", c, "input").ok().unwrap();
    let second = graph.connect(b, "output", c, "input");
    assert!(matches!(second, Err(GraphError::PortAlreadyConnected { .. })));
}

#[test]
fn test_connect_missing_node_and_port() {
    let mut graph = ProcessingGraph::new();
    let a = graph.add_node(create_test_node());
    let ghost = NodeId::new();
    assert!(matches!(
        graph.connect(ghost, "output", a, "input"),
        Err(GraphError::NodeNotFound(_))
    ));
    let b = graph.add_node(create_test_node());
    assert!(matches!(
        graph.connect(a, "no_such_port", b, "input"),
        Err(GraphError::PortNotFound { .. })
    ));
}

fn build_chain(len: usize) -> ProcessingGraph {
    let mut graph = ProcessingGraph::new();
    let first = graph.add_node(GraphNode::new(Box::new(IntSource)));
    let mut prev = first;
    let mut prev_port = "out".to_string();
    for _ in 1..len {
        let next = graph.add_node(GraphNode::new(Box::new(PassthroughNode)));
        graph
            .connect(prev, prev_port.as_str(), next, "input")
            .ok()
            .unwrap();
        prev = next;
        prev_port = "output".to_string();
    }
    graph
}

#[test]
fn test_cache_hit_second_run() {
    // running the same graph twice with the cache on answers every node
    // from the cache the second time
    let mut graph = build_chain(4);
    graph.metadata.name = Some("cached".to_string());
    let mut engine = ExecutionEngine::new();
    let options = ExecutionOptions::new().with_cache(true).with_parallel(false);
    let first = engine
        .execute(&graph, Some(options))
        .ok()
        .unwrap();
    assert_eq!(first.stats.nodes_executed, 4);
    assert_eq!(first.stats.cache_hits, 0);

    let options = ExecutionOptions::new().with_cache(true).with_parallel(false);
    let second = engine.execute(&graph, Some(options)).ok().unwrap();
    assert_eq!(second.stats.cache_hits, 4);
    assert_eq!(second.stats.nodes_executed, 0);
}

struct CancelAfter {
    completed: usize,
    started: usize,
    threshold: usize,
}

impl ProgressSink for CancelAfter {
    fn on_event(&mut self, event: &ProgressUpdate) {
        match event {
            ProgressUpdate::NodeCompleted { .. } => {
                self.completed += 1;
            }
            ProgressUpdate::NodeStarted { .. } => {
                self.started += 1;
            }
            _ => {}
        }
    }

    fn cancel_requested(&self) -> bool {
        self.completed >= self.threshold
    }
}

#[test]
fn test_cancellation_mid_run() {
    // cancel after the third completed node of a ten-node chain: the fourth
    // never starts and the run reports cancellation
    let graph = build_chain(10);
    let mut engine = ExecutionEngine::new();
    let mut sink = CancelAfter { completed: 0, started: 0, threshold: 3 };
    let options = ExecutionOptions::new().with_cache(false).with_parallel(false);
    let result = engine.execute_with_sink(&graph, Some(options), &mut sink);
    match result {
        Err(ambara::errors::AmbaraError::Execution(ExecutionError::Cancelled)) => {}
        _ => panic!("expected cancellation"),
    }
    assert_eq!(sink.completed, 3);
    assert_eq!(sink.started, 3);
}

#[test]
fn test_structural_validation_empty_graph() {
    let graph = ProcessingGraph::new();
    let stage = StructuralValidation;
    let result = stage.validate(&graph);

    assert!(result.is_ok());
    let warnings = result.ok().unwrap();
    assert!(!warnings.is_empty());
}

#[test]
fn test_type_validation_compatible_types() {
    let mut graph = ProcessingGraph::new();
    let node1 = graph.add_node(create_test_node());
    let node2 = graph.add_node(create_test_node());
    graph.connect(node1, "output", node2, "input").ok().unwrap();

    let stage = TypeValidation;
    let result = stage.validate(&graph);

    assert!(result.is_ok());
}

#[test]
fn test_missing_required_input_reported() {
    let mut graph = ProcessingGraph::new();
    let _lone = graph.add_node(GraphNode::new(Box::new(FloatSink)));
    let stage = StructuralValidation;
    let result = stage.validate(&graph);
    match result {
        Err(errors) => {
            assert!(errors
                .iter()
                .any(|e| matches!(e, ValidationError::MissingRequiredInput { .. })));
        }
        Ok(_) => panic!("expected a missing required input"),
    }
}

#[test]
fn test_empty_graph_validation() {
    let graph = ProcessingGraph::new();
    let pipeline = ValidationPipeline::default_pipeline();
    let report = pipeline.validate(&graph);
    assert!(report.success);
    assert!(!report.warnings.is_empty());
}

#[test]
fn test_valid_simple_graph() {
    let mut graph = ProcessingGraph::new();

    let node1 = graph.add_node(create_test_node());
    let node2 = graph.add_node(create_test_node());

    graph.connect(node1, "output", node2, "input").ok().unwrap();

    let pipeline = ValidationPipeline::minimal_pipeline();
    let report = pipeline.validate(&graph);
    // the first node's own input stays unconnected, which the structural
    // stage reports; the report stays internally consistent either way
    assert_eq!(report.can_execute(), report.success);
    assert!(report
        .errors
        .iter()
        .all(|e| matches!(e, ValidationError::MissingRequiredInput { .. })));
}

#[test]
fn test_cache_key_ignores_insertion_order() {
    let node = NodeId::new();
    let mut forward = ValueMap::new();
    forward.insert("alpha".to_string(), Value::Integer(1));
    forward.insert("beta".to_string(), Value::Integer(2));
    let mut backward = ValueMap::new();
    backward.insert("beta".to_string(), Value::Integer(2));
    backward.insert("alpha".to_string(), Value::Integer(1));
    let k1 = CacheKey::new(node, &forward);
    let k2 = CacheKey::new(node, &backward);
    assert_eq!(k1, k2);

    let mut other = ValueMap::new();
    other.insert("alpha".to_string(), Value::Integer(2));
    other.insert("beta".to_string(), Value::Integer(1));
    let k3 = CacheKey::new(node, &other);
    assert_ne!(k1.input_hash, k3.input_hash);
}

#[test]
fn test_find_subgraphs_counts_components() {
    let mut graph = ProcessingGraph::new();
    let a = graph.add_node(create_test_node());
    let b = graph.add_node(create_test_node());
    let _lone = graph.add_node(create_test_node());
    graph.connect(a, "output", b, "input").ok().unwrap();

    let analyzer = TopologyAnalyzer::new(&graph);
    let subgraphs = analyzer.find_subgraphs();
    assert_eq!(subgraphs.len(), 2);
    let total: usize = subgraphs.iter().map(|c| c.len()).sum();
    assert_eq!(total, 3);
}

#[test]
fn test_node_depth_follows_chain() {
    let mut graph = ProcessingGraph::new();
    let a = graph.add_node(create_test_node());
    let b = graph.add_node(create_test_node());
    let c = graph.add_node(create_test_node());
    graph.connect(a, "output", b, "input").ok().unwrap();
    graph.connect(b, "output", c, "input").ok().unwrap();

    let analyzer = TopologyAnalyzer::new(&graph);
    assert_eq!(analyzer.node_depth(a).ok(), Some(0));
    assert_eq!(analyzer.node_depth(b).ok(), Some(1));
    assert_eq!(analyzer.node_depth(c).ok(), Some(2));
    assert!(analyzer.node_depth(NodeId::new()).is_err());
}
