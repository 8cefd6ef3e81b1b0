use ambara::contexts::{ExecutionContext, ValidationContext};
use ambara::errors::{NodeId, ValidationError, ValidationReport};
use ambara::nodes::{Category, FilterNode, NodeMetadata, PassthroughNode};
use ambara::ports::{Constraint, ParameterDefinition, PortDefinition, PortDirection};
use ambara::values::{Color, ImageFormat, PortType, Value, ValueMap};

#[test]
fn test_category_display() {
    assert_eq!(Category::Blur.display_name(), "Blur");
    assert_eq!(Category::Transform.display_name(), "Transform");
}

#[test]
fn test_port_type_compatibility() {
    assert!(PortType::Integer.compatible_with(&PortType::Integer));
    assert!(PortType::Integer.compatible_with(&PortType::Float)); // Can connect int to float
    assert!(PortType::Any.compatible_with(&PortType::Image));
    assert!(!PortType::String.compatible_with(&PortType::Integer));
}

#[test]
fn test_port_type_matching() {
    assert!(PortType::Integer.matches(&Value::Integer(42)));
    assert!(PortType::Float.matches(&Value::Float(3.14f64.to_bits())));
    assert!(PortType::Float.matches(&Value::Integer(42))); // Implicit conversion
    assert!(!PortType::Integer.matches(&Value::Float(3.14f64.to_bits()))); // No downcast
    assert!(PortType::Any.matches(&Value::String("test".to_string())));
}

#[test]
fn test_color_from_hex() {
    let color = Color::from_hex("#FF0000").unwrap();
    assert_eq!(color, Color::rgb(255, 0, 0));

    let color = Color::from_hex("#00FF00FF").unwrap();
    assert_eq!(color, Color::new(0, 255, 0, 255));

    let color = Color::from_hex("F00").unwrap();
    assert_eq!(color, Color::rgb(255, 0, 0));
}

#[test]
fn test_color_to_hex() {
    assert_eq!(Color::rgb(255, 0, 0).to_hex(), "#FF0000");
    assert_eq!(Color::new(0, 255, 0, 128).to_hex(), "#00FF0080");
}

#[test]
fn test_value_type_inference() {
    assert!(matches!(Value::Integer(42).get_type(), PortType::Integer));
    assert!(matches!(
        Value::Float(3.14f64.to_bits()).get_type(),
        PortType::Float
    ));
    let arr = Value::Array(vec![Value::Integer(1), Value::Integer(2)]);
    match arr.get_type() {
        PortType::Array(inner) => assert!(matches!(*inner, PortType::Integer)),
        _ => panic!("expected an array type"),
    }
}

#[test]
fn test_value_map_insert_get() {
    let mut map = ValueMap::new();
    map.insert("alpha".to_string(), Value::Integer(7));
    map.insert("beta".to_string(), Value::Boolean(true));
    assert!(matches!(map.get("alpha"), Some(Value::Integer(7))));
    assert!(matches!(map.get("beta"), Some(Value::Boolean(true))));
    assert!(map.get("gamma").is_none());
    map.insert("alpha".to_string(), Value::Integer(9));
    assert!(matches!(map.get("alpha"), Some(Value::Integer(9))));
    assert_eq!(map.len(), 2);
    let taken = map.remove("alpha");
    assert!(matches!(taken, Some(Value::Integer(9))));
    assert!(map.get("alpha").is_none());
}

#[test]
fn test_constraint_range_validation() {
    let constraint = Constraint::Range {
        min: 0.0f64.to_bits(),
        max: 100.0f64.to_bits(),
    };

    assert!(constraint.validate(&Value::Float(50.0f64.to_bits())).is_ok());
    assert!(constraint.validate(&Value::Float(0.0f64.to_bits())).is_ok());
    assert!(constraint.validate(&Value::Float(100.0f64.to_bits())).is_ok());
    assert!(constraint.validate(&Value::Float((-1.0f64).to_bits())).is_err());
    assert!(constraint.validate(&Value::Float(101.0f64.to_bits())).is_err());
}

#[test]
fn test_constraint_not_empty() {
    let constraint = Constraint::NotEmpty;

    assert!(constraint.validate(&Value::String("hello".to_string())).is_ok());
    assert!(constraint.validate(&Value::String("".to_string())).is_err());
    assert!(constraint.validate(&Value::Array(vec![Value::Integer(1)])).is_ok());
    assert!(constraint.validate(&Value::Array(vec![])).is_err());
}

#[test]
fn test_constraint_pattern() {
    let constraint = Constraint::Pattern("img".to_string());
    assert!(constraint.validate(&Value::String("my_img.png".to_string())).is_ok());
    assert!(constraint.validate(&Value::String("photo.png".to_string())).is_err());
}

#[test]
fn test_image_format_from_path() {
    assert_eq!(ImageFormat::from_path("picture.PNG"), ImageFormat::Png);
    assert_eq!(ImageFormat::from_path("shots/raw.jpeg"), ImageFormat::Jpeg);
    assert_eq!(ImageFormat::from_path("a/b.tif"), ImageFormat::Tiff);
    assert_eq!(ImageFormat::from_path("noext"), ImageFormat::Unknown);
    assert_eq!(ImageFormat::from_path("dir.d/noext"), ImageFormat::Unknown);
    assert_eq!(ImageFormat::Png.extension(), "png");
    assert_eq!(ImageFormat::Unknown.extension(), "bin");
}

#[test]
fn test_metadata_builder() {
    let metadata = NodeMetadata::builder("test_filter".to_string(), "Test Filter".to_string())
        .category(Category::Utility)
        .description("A test filter".to_string())
        .input(PortDefinition::input("input".to_string(), PortType::Image))
        .output(PortDefinition::output("output".to_string(), PortType::Image))
        .tag("test".to_string())
        .tag("debug".to_string())
        .build();

    assert_eq!(metadata.id, "test_filter");
    assert_eq!(metadata.name, "Test Filter");
    assert_eq!(metadata.category, Category::Utility);
    assert_eq!(metadata.inputs.len(), 1);
    assert_eq!(metadata.outputs.len(), 1);
    assert_eq!(metadata.tags.len(), 2);
}

#[test]
fn test_port_definition_builder() {
    let port = PortDefinition::input("my_input".to_string(), PortType::Float)
        .with_display_name("My Input".to_string())
        .with_description("A test input".to_string())
        .with_range(0.0f64.to_bits(), 100.0f64.to_bits())
        .with_default(Value::Float(50.0f64.to_bits()));

    assert_eq!(port.name, "my_input");
    assert_eq!(port.display_name, "My Input");
    assert!(matches!(port.port_type, PortType::Float));
    assert!(matches!(port.direction, PortDirection::Input));
    assert_eq!(port.constraints.len(), 1);
}

#[test]
fn test_parameter_definition_defaults() {
    let param = ParameterDefinition::new(
        "sigma".to_string(),
        PortType::Float,
        Value::Float(1.0f64.to_bits()),
    );
    assert_eq!(param.name, "sigma");
    assert!(matches!(param.default_value, Value::Float(b) if b == 1.0f64.to_bits()));
}

#[test]
fn test_validation_error_suggestions() {
    let error = ValidationError::MissingRequiredInput {
        node_id: NodeId::new(),
        port: "image".to_string(),
    };
    assert!(error.suggested_fix().is_some());
    assert!(error.suggested_fix().unwrap().contains("image"));
}

#[test]
fn test_validation_report() {
    let mut report = ValidationReport::new();
    assert!(report.can_execute());

    report.add_error(ValidationError::CycleDetected);
    assert!(!report.can_execute());
    assert_eq!(report.errors.len(), 1);
}

#[test]
fn test_validation_report_summary() {
    let report = ValidationReport::new();
    assert_eq!(report.summary(), "\u{2713} Graph is valid and ready to execute");
    let mut with_warning = ValidationReport::new();
    with_warning.add_warning(ambara::errors::ValidationWarning {
        message: "something minor".to_string(),
        node_id: None,
        suggestion: None,
    });
    assert_eq!(with_warning.summary(), "\u{2713} Graph is valid with 1 warning(s)");
    let mut failed = ValidationReport::new();
    failed.add_error(ValidationError::NoOutputNodes);
    failed.add_error(ValidationError::CycleDetected);
    assert_eq!(failed.summary(), "\u{2717} Validation failed with 2 error(s)");
}

#[test]
fn test_node_id_short_hex() {
    let id = NodeId::from_uuid(0xdeadbeef_00000000_00000000_00000000u128);
    assert_eq!(id.short_hex(), "deadbeef");
    assert_eq!(NodeId::new().short_hex().len(), 8);
}

#[test]
fn test_passthrough_node() {
    let node = PassthroughNode;
    let metadata = node.metadata();

    assert_eq!(metadata.id, "passthrough");
    assert_eq!(metadata.inputs.len(), 1);
    assert_eq!(metadata.outputs.len(), 1);

    let mut ctx = ExecutionContext::new(NodeId::new());
    ctx.add_input("input".to_string(), Value::Integer(42));

    node.execute(&mut ctx).ok().unwrap();

    let outputs = ctx.take_outputs();
    assert!(matches!(outputs.get("output"), Some(Value::Integer(42))));
}

#[test]
fn test_execution_context_outputs() {
    let mut ctx = ExecutionContext::new(NodeId::new());
    ctx.set_output("result".to_string(), Value::Integer(100)).ok().unwrap();

    assert!(ctx.has_output("result"));
    let outputs = ctx.take_outputs();
    assert!(matches!(outputs.get("result"), Some(Value::Integer(100))));
}

#[test]
fn test_execution_context_cancellation() {
    let mut ctx = ExecutionContext::new(NodeId::new());

    assert!(!ctx.is_cancelled());
    assert!(ctx.check_cancelled().is_ok());

    ctx.cancel();
    assert!(ctx.is_cancelled());
    assert!(ctx.check_cancelled().is_err());
}

#[test]
fn test_validation_context_parameters() {
    let mut ctx = ValidationContext::new(NodeId::new());
    ctx.add_parameter("radius".to_string(), Value::Float(5.0f64.to_bits()));

    assert!(ctx.has_parameter("radius"));
    assert_eq!(ctx.get_float_bits("radius").ok().unwrap(), 5.0f64.to_bits());
}

#[test]
fn test_validation_context_inputs() {
    let mut ctx = ValidationContext::new(NodeId::new());
    ctx.add_input("test".to_string(), Value::Integer(42));

    assert!(ctx.has_input("test"));
    assert!(!ctx.has_input("nonexistent"));
    // the integer sits among the inputs, not the parameters
    assert!(ctx.get_integer("test").is_err());
}

#[test]
fn test_gpu_support() {
    assert!(ambara::filters::Grayscale.supports_gpu());
    assert!(ambara::filters::Invert.supports_gpu());
}
