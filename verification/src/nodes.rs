//! Filter metadata and the filter contract: the three-method interface a
//! filter implementation satisfies.

use crate::contexts::{ExecutionContext, ValidationContext};
use crate::errors::{ExecutionError, ValidationError};
use crate::ports::{ParameterDefinition, PortDefinition, PortDirection};
use crate::values::{Color, PortType};
use vstd::prelude::*;

verus! {

/// Category for organising filters.
#[derive(Debug, Clone, Copy, PartialEq, Eq, Structural, Hash)]
pub enum Category {
    /// Input nodes: load images, folders.
    Input,
    /// Output nodes: save, preview.
    Output,
    /// Basic transformations: resize, crop, rotate.
    Transform,
    /// Colour adjustments: brightness, contrast.
    Adjust,
    /// Blur effects.
    Blur,
    /// Sharpening effects.
    Sharpen,
    /// Edge detection and effects.
    Edge,
    /// Noise operations.
    Noise,
    /// Drawing operations.
    Draw,
    /// Text operations.
    Text,
    /// Compositing operations.
    Composite,
    /// Colour manipulation.
    Color,
    /// Analysis and measurement.
    Analyze,
    /// Mathematical operations.
    Math,
    /// Utility nodes.
    Utility,
    /// Custom or user-defined.
    Custom,
}

impl Category {
    /// The display name for this category.
    pub fn display_name(&self) -> (r: &'static str)
        ensures
            match self {
                Category::Input => r@ == "Input"@,
                Category::Output => r@ == "Output"@,
                Category::Transform => r@ == "Transform"@,
                Category::Adjust => r@ == "Adjust"@,
                Category::Blur => r@ == "Blur"@,
                Category::Sharpen => r@ == "Sharpen"@,
                Category::Edge => r@ == "Edge"@,
                Category::Noise => r@ == "Noise"@,
                Category::Draw => r@ == "Draw"@,
                Category::Text => r@ == "Text"@,
                Category::Composite => r@ == "Composite"@,
                Category::Color => r@ == "Color"@,
                Category::Analyze => r@ == "Analyze"@,
                Category::Math => r@ == "Math"@,
                Category::Utility => r@ == "Utility"@,
                Category::Custom => r@ == "Custom"@,
            },
    {
        match self {
            Category::Input => "Input",
            Category::Output => "Output",
            Category::Transform => "Transform",
            Category::Adjust => "Adjust",
            Category::Blur => "Blur",
            Category::Sharpen => "Sharpen",
            Category::Edge => "Edge",
            Category::Noise => "Noise",
            Category::Draw => "Draw",
            Category::Text => "Text",
            Category::Composite => "Composite",
            Category::Color => "Color",
            Category::Analyze => "Analyze",
            Category::Math => "Math",
            Category::Utility => "Utility",
            Category::Custom => "Custom",
        }
    }

    /// All categories, in display order.
    pub fn all() -> (r: Vec<Category>)
        ensures
            r@ == seq![
                Category::Input,
                Category::Output,
                Category::Transform,
                Category::Adjust,
                Category::Blur,
                Category::Sharpen,
                Category::Edge,
                Category::Noise,
                Category::Draw,
                Category::Text,
                Category::Composite,
                Category::Color,
                Category::Analyze,
                Category::Utility,
                Category::Custom,
            ],
    {
        let mut out: Vec<Category> = Vec::new();
        out.push(Category::Input);
        out.push(Category::Output);
        out.push(Category::Transform);
        out.push(Category::Adjust);
        out.push(Category::Blur);
        out.push(Category::Sharpen);
        out.push(Category::Edge);
        out.push(Category::Noise);
        out.push(Category::Draw);
        out.push(Category::Text);
        out.push(Category::Composite);
        out.push(Category::Color);
        out.push(Category::Analyze);
        out.push(Category::Utility);
        out.push(Category::Custom);
        proof {
            assert(out@ =~= seq![
                Category::Input,
                Category::Output,
                Category::Transform,
                Category::Adjust,
                Category::Blur,
                Category::Sharpen,
                Category::Edge,
                Category::Noise,
                Category::Draw,
                Category::Text,
                Category::Composite,
                Category::Color,
                Category::Analyze,
                Category::Utility,
                Category::Custom,
            ]);
        }
        out
    }
}

impl Default for Category {
    /// Custom, the category of user-defined filters.
    fn default() -> (r: Self)
        ensures
            r == Category::Custom,
    {
        Category::Custom
    }
}

/// Metadata describing a filter node type.
pub struct NodeMetadata {
    /// Unique identifier for this filter type.
    pub id: String,
    /// Human-readable name.
    pub name: String,
    /// Category for organisation.
    pub category: Category,
    /// Detailed description.
    pub description: String,
    /// Version string.
    pub version: String,
    /// Author or source.
    pub author: String,
    /// Input port definitions, in order.
    pub inputs: Vec<PortDefinition>,
    /// Output port definitions, in order.
    pub outputs: Vec<PortDefinition>,
    /// Parameter definitions, in order.
    pub parameters: Vec<ParameterDefinition>,
    /// Searchable tags.
    pub tags: Vec<String>,
    /// Optional colour hint.
    pub color: Option<Color>,
    /// Whether this filter reports progress.
    pub supports_progress: bool,
    /// Whether equal inputs always give equal outputs.
    pub deterministic: bool,
}

/// The first port definition with a given name.
pub open spec fn port_lookup(s: Seq<PortDefinition>, name: Seq<char>) -> Option<PortDefinition>
    decreases s.len(),
{
    if s.len() == 0 {
        None
    } else if s[0].name@ == name {
        Some(s[0])
    } else {
        port_lookup(s.drop_first(), name)
    }
}

/// The first parameter definition with a given name.
pub open spec fn param_lookup(s: Seq<ParameterDefinition>, name: Seq<char>) -> Option<
    ParameterDefinition,
>
    decreases s.len(),
{
    if s.len() == 0 {
        None
    } else if s[0].name@ == name {
        Some(s[0])
    } else {
        param_lookup(s.drop_first(), name)
    }
}

impl NodeMetadata {
    /// Find an input port by name.
    pub fn get_input(&self, name: &str) -> (r: Option<&PortDefinition>)
        ensures
            match r {
                Some(p) => port_lookup(self.inputs@, name@) == Some(*p),
                None => port_lookup(self.inputs@, name@) is None,
            },
    {
        find_port(&self.inputs, name)
    }

    /// Find an output port by name.
    pub fn get_output(&self, name: &str) -> (r: Option<&PortDefinition>)
        ensures
            match r {
                Some(p) => port_lookup(self.outputs@, name@) == Some(*p),
                None => port_lookup(self.outputs@, name@) is None,
            },
    {
        find_port(&self.outputs, name)
    }

    /// Find a parameter by name.
    pub fn get_parameter(&self, name: &str) -> (r: Option<&ParameterDefinition>)
        ensures
            match r {
                Some(p) => param_lookup(self.parameters@, name@) == Some(*p),
                None => param_lookup(self.parameters@, name@) is None,
            },
    {
        let n = self.parameters.len();
        let mut i: usize = 0;
        proof {
            assert(self.parameters@.skip(0) =~= self.parameters@);
        }
        while i < n
            invariant
                i <= n,
                n == self.parameters@.len(),
                param_lookup(self.parameters@, name@) == param_lookup(
                    self.parameters@.skip(i as int),
                    name@,
                ),
            decreases n - i,
        {
            proof {
                let rest = self.parameters@.skip(i as int);
                assert(rest[0] == self.parameters@[i as int]);
                assert(rest.drop_first() =~= self.parameters@.skip(i + 1));
            }
            if crate::strutil::str_eq(self.parameters[i].name.as_str(), name) {
                return Some(&self.parameters[i]);
            }
            i = i + 1;
        }
        proof {
            assert(self.parameters@.skip(n as int) =~= Seq::<ParameterDefinition>::empty());
        }
        None
    }

    /// Create a metadata builder.
    pub fn builder(id: String, name: String) -> (r: NodeMetadataBuilder)
        ensures
            r.meta.id@ == id@,
            r.meta.name@ == name@,
            r.meta.category == Category::Custom,
            r.meta.inputs@.len() == 0,
            r.meta.outputs@.len() == 0,
            r.meta.parameters@.len() == 0,
            r.meta.color is None,
            !r.meta.supports_progress,
            r.meta.deterministic,
    {
        NodeMetadataBuilder::new(id, name)
    }
}

/// The first port with a given name, by direct scan.
fn find_port<'a>(ports: &'a Vec<PortDefinition>, name: &str) -> (r: Option<&'a PortDefinition>)
    ensures
        match r {
            Some(p) => port_lookup(ports@, name@) == Some(*p),
            None => port_lookup(ports@, name@) is None,
        },
{
    let n = ports.len();
    let mut i: usize = 0;
    proof {
        assert(ports@.skip(0) =~= ports@);
    }
    while i < n
        invariant
            i <= n,
            n == ports@.len(),
            port_lookup(ports@, name@) == port_lookup(ports@.skip(i as int), name@),
        decreases n - i,
    {
        proof {
            let rest = ports@.skip(i as int);
            assert(rest[0] == ports@[i as int]);
            assert(rest.drop_first() =~= ports@.skip(i + 1));
        }
        if crate::strutil::str_eq(ports[i].name.as_str(), name) {
            return Some(&ports[i]);
        }
        i = i + 1;
    }
    proof {
        assert(ports@.skip(n as int) =~= Seq::<PortDefinition>::empty());
    }
    None
}

/// Builder for node metadata.
pub struct NodeMetadataBuilder {
    /// The metadata under construction.
    pub meta: NodeMetadata,
}

impl NodeMetadataBuilder {
    /// Start a builder with the required fields; version, author and the
    /// category get their usual defaults.
    pub fn new(id: String, name: String) -> (r: Self)
        ensures
            r.meta.id@ == id@,
            r.meta.name@ == name@,
            r.meta.category == Category::Custom,
            r.meta.inputs@.len() == 0,
            r.meta.outputs@.len() == 0,
            r.meta.parameters@.len() == 0,
            r.meta.tags@.len() == 0,
            r.meta.color is None,
            !r.meta.supports_progress,
            r.meta.deterministic,
    {
        NodeMetadataBuilder {
            meta: NodeMetadata {
                id,
                name,
                category: Category::Custom,
                description: String::new(),
                version: "1.0.0".to_owned(),
                author: "Ambara".to_owned(),
                inputs: Vec::new(),
                outputs: Vec::new(),
                parameters: Vec::new(),
                tags: Vec::new(),
                color: None,
                supports_progress: false,
                deterministic: true,
            },
        }
    }

    /// Set the category.
    pub fn category(self, category: Category) -> (r: Self)
        ensures
            r.meta == (NodeMetadata { category, ..self.meta }),
    {
        NodeMetadataBuilder { meta: NodeMetadata { category, ..self.meta } }
    }

    /// Set the description.
    pub fn description(self, description: String) -> (r: Self)
        ensures
            r.meta == (NodeMetadata { description, ..self.meta }),
    {
        NodeMetadataBuilder { meta: NodeMetadata { description, ..self.meta } }
    }

    /// Set the version.
    pub fn version(self, version: String) -> (r: Self)
        ensures
            r.meta == (NodeMetadata { version, ..self.meta }),
    {
        NodeMetadataBuilder { meta: NodeMetadata { version, ..self.meta } }
    }

    /// Set the author.
    pub fn author(self, author: String) -> (r: Self)
        ensures
            r.meta == (NodeMetadata { author, ..self.meta }),
    {
        NodeMetadataBuilder { meta: NodeMetadata { author, ..self.meta } }
    }

    /// Add an input port.
    pub fn input(self, port: PortDefinition) -> (r: Self)
        ensures
            r.meta.inputs@ == self.meta.inputs@.push(port),
            r.meta.outputs@ == self.meta.outputs@,
            r.meta.parameters@ == self.meta.parameters@,
            r.meta.id == self.meta.id,
            r.meta.name == self.meta.name,
            r.meta.category == self.meta.category,
    {
        let mut meta = self.meta;
        meta.inputs.push(port);
        NodeMetadataBuilder { meta }
    }

    /// Add an output port.
    pub fn output(self, port: PortDefinition) -> (r: Self)
        ensures
            r.meta.outputs@ == self.meta.outputs@.push(port),
            r.meta.inputs@ == self.meta.inputs@,
            r.meta.parameters@ == self.meta.parameters@,
            r.meta.id == self.meta.id,
            r.meta.name == self.meta.name,
            r.meta.category == self.meta.category,
    {
        let mut meta = self.meta;
        meta.outputs.push(port);
        NodeMetadataBuilder { meta }
    }

    /// Add a parameter.
    pub fn parameter(self, param: ParameterDefinition) -> (r: Self)
        ensures
            r.meta.parameters@ == self.meta.parameters@.push(param),
            r.meta.inputs@ == self.meta.inputs@,
            r.meta.outputs@ == self.meta.outputs@,
            r.meta.id == self.meta.id,
            r.meta.name == self.meta.name,
            r.meta.category == self.meta.category,
    {
        let mut meta = self.meta;
        meta.parameters.push(param);
        NodeMetadataBuilder { meta }
    }

    /// Add a tag.
    pub fn tag(self, tag: String) -> (r: Self)
        ensures
            r.meta.tags@ == self.meta.tags@.push(tag),
            r.meta.inputs@ == self.meta.inputs@,
            r.meta.outputs@ == self.meta.outputs@,
            r.meta.parameters@ == self.meta.parameters@,
            r.meta.id == self.meta.id,
            r.meta.name == self.meta.name,
    {
        let mut meta = self.meta;
        meta.tags.push(tag);
        NodeMetadataBuilder { meta }
    }

    /// Set the colour hint.
    pub fn color(self, color: Color) -> (r: Self)
        ensures
            r.meta == (NodeMetadata { color: Some(color), ..self.meta }),
    {
        NodeMetadataBuilder { meta: NodeMetadata { color: Some(color), ..self.meta } }
    }

    /// Mark the filter as reporting progress.
    pub fn supports_progress(self) -> (r: Self)
        ensures
            r.meta == (NodeMetadata { supports_progress: true, ..self.meta }),
    {
        NodeMetadataBuilder { meta: NodeMetadata { supports_progress: true, ..self.meta } }
    }

    /// Mark the filter as non-deterministic.
    pub fn non_deterministic(self) -> (r: Self)
        ensures
            r.meta == (NodeMetadata { deterministic: false, ..self.meta }),
    {
        NodeMetadataBuilder { meta: NodeMetadata { deterministic: false, ..self.meta } }
    }

    /// Finish building.
    pub fn build(self) -> (r: NodeMetadata)
        ensures
            r == self.meta,
    {
        self.meta
    }
}

/// The contract a filter implementation satisfies: constant metadata, a
/// pre-execution validation pass, and the execution step that reads inputs
/// and parameters from the context and writes outputs back into it.
pub trait FilterNode: Send + Sync {
    /// The metadata for this filter.  Implementations return the same
    /// metadata on every call.
    fn metadata(&self) -> (r: NodeMetadata)
        ensures
            true,
    ;

    /// Validate the configuration before execution begins.
    fn validate(&self, ctx: &ValidationContext) -> (r: Result<(), ValidationError>)
        ensures
            true,
    ;

    /// Execute the node: read inputs and parameters from the context and
    /// set outputs.
    fn execute(&self, ctx: &mut ExecutionContext) -> (r: Result<(), ExecutionError>)
        ensures
            true,
    ;
}

/// A filter that copies its input to its output unchanged.
pub struct PassthroughNode;

impl FilterNode for PassthroughNode {
    fn metadata(&self) -> (r: NodeMetadata) {
        NodeMetadata::builder("passthrough".to_owned(), "Passthrough".to_owned())
            .category(Category::Utility)
            .description("Passes the input through unchanged".to_owned())
            .input(PortDefinition::input("input".to_owned(), PortType::Any))
            .output(PortDefinition::output("output".to_owned(), PortType::Any))
            .build()
    }

    fn validate(&self, _ctx: &ValidationContext) -> (r: Result<(), ValidationError>) {
        Ok(())
    }

    fn execute(&self, ctx: &mut ExecutionContext) -> (r: Result<(), ExecutionError>) {
        let value = match ctx.take_input("input") {
            Ok(v) => v,
            Err(e) => {
                return Err(e);
            }
        };
        ctx.set_output("output".to_owned(), value);
        Ok(())
    }
}

} // verus!
