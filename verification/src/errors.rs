//! Identifiers and the error taxonomy: graph errors, validation errors with
//! their report, execution errors, and the top-level error sum.

use crate::strutil::{byte_hex_lower, hex_digit_lower, str_concat, u64_dec, dec_str};
use crate::values::PortType;
use vstd::prelude::*;

verus! {

/// Relies on uuid's version-4 generator: a fresh random identifier.
/// Nothing is promised of the value.
#[verifier::external_body]
fn fresh_uuid_bits() -> u128 {
    uuid::Uuid::new_v4().as_u128()
}

/// Unique identifier for a node in a graph.
#[derive(Debug, Clone, Copy, PartialEq, Eq, Structural, Hash)]
pub struct NodeId(pub u128);

/// The eight lower-case hex digits of an identifier's top four bytes, the
/// short form a report shows.
pub open spec fn short_hex_of(bits: u128) -> Seq<char> {
    seq![
        hex_digit_lower(((bits / 0x10000000000000000000000000000000) % 16) as nat),
        hex_digit_lower(((bits / 0x1000000000000000000000000000000) % 16) as nat),
        hex_digit_lower(((bits / 0x100000000000000000000000000000) % 16) as nat),
        hex_digit_lower(((bits / 0x10000000000000000000000000000) % 16) as nat),
        hex_digit_lower(((bits / 0x1000000000000000000000000000) % 16) as nat),
        hex_digit_lower(((bits / 0x100000000000000000000000000) % 16) as nat),
        hex_digit_lower(((bits / 0x10000000000000000000000000) % 16) as nat),
        hex_digit_lower(((bits / 0x1000000000000000000000000) % 16) as nat),
    ]
}

impl NodeId {
    /// Create a new random node identifier.
    pub fn new() -> Self {
        NodeId(fresh_uuid_bits())
    }

    /// Create a node identifier from the 128 bits of a UUID.
    pub fn from_uuid(bits: u128) -> (r: Self)
        ensures
            r == NodeId(bits),
    {
        NodeId(bits)
    }

    /// The short form shown in messages: the first eight hex digits.
    pub fn short_hex(&self) -> (r: String)
        ensures
            r@ == short_hex_of(self.0),
    {
        let v = self.0;
        let b0 = (v >> 120) as u8;
        let b1 = ((v >> 112) & 0xff) as u8;
        let b2 = ((v >> 104) & 0xff) as u8;
        let b3 = ((v >> 96) & 0xff) as u8;
        proof {
            assert(((v >> 120) as u8) / 16 == (v / 0x10000000000000000000000000000000) % 16
                && ((v >> 120) as u8) % 16 == (v / 0x1000000000000000000000000000000) % 16
                && (((v >> 112) & 0xff) as u8) / 16 == (v / 0x100000000000000000000000000000) % 16
                && (((v >> 112) & 0xff) as u8) % 16 == (v / 0x10000000000000000000000000000) % 16
                && (((v >> 104) & 0xff) as u8) / 16 == (v / 0x1000000000000000000000000000) % 16
                && (((v >> 104) & 0xff) as u8) % 16 == (v / 0x100000000000000000000000000) % 16
                && (((v >> 96) & 0xff) as u8) / 16 == (v / 0x10000000000000000000000000) % 16
                && (((v >> 96) & 0xff) as u8) % 16 == (v / 0x1000000000000000000000000) % 16)
                by (bit_vector);
        }
        let s0 = byte_hex_lower(b0);
        let s1 = byte_hex_lower(b1);
        let s2 = byte_hex_lower(b2);
        let s3 = byte_hex_lower(b3);
        let r = str_concat(s0.as_str(), s1.as_str());
        let r = str_concat(r.as_str(), s2.as_str());
        let r = str_concat(r.as_str(), s3.as_str());
        proof {
            assert(r@ =~= short_hex_of(self.0));
        }
        r
    }
}

impl Default for NodeId {
    /// A fresh random identifier.
    fn default() -> Self {
        NodeId::new()
    }
}

/// Unique identifier for a connection in a graph.
#[derive(Debug, Clone, Copy, PartialEq, Eq, Structural, Hash)]
pub struct ConnectionId(pub u128);

impl ConnectionId {
    /// Create a new random connection identifier.
    pub fn new() -> Self {
        ConnectionId(fresh_uuid_bits())
    }
}

impl Default for ConnectionId {
    /// A fresh random identifier.
    fn default() -> Self {
        ConnectionId::new()
    }
}

/// Errors from graph structure and mutation.
pub enum GraphError {
    /// The named node does not exist.
    NodeNotFound(NodeId),
    /// The named connection does not exist.
    ConnectionNotFound(ConnectionId),
    /// The named port does not exist on the node.
    PortNotFound { node_id: NodeId, port: String },
    /// The mutation would close a directed cycle.
    CycleDetected { nodes: Vec<NodeId> },
    /// The connection is invalid for another reason.
    InvalidConnection { reason: String },
    /// The source type cannot feed the target type.
    TypeMismatch { from_type: PortType, to_type: PortType },
    /// The input port already has an incoming connection.
    PortAlreadyConnected { node_id: NodeId, port: String },
    /// The node still has connections.
    NodeHasConnections(NodeId),
    /// The graph is empty.
    EmptyGraph,
}

/// Errors found by the validation pipeline.
pub enum ValidationError {
    /// A connection's types do not fit.
    TypeMismatch { expected: PortType, got: PortType },
    /// A required input has no connection and no default.
    MissingRequiredInput { node_id: NodeId, port: String },
    /// A parameter value breaks one of its constraints.
    ConstraintViolation { node_id: NodeId, parameter: String, error: String },
    /// A filter's own validation failed.
    CustomValidation { node_id: NodeId, error: String },
    /// A file or pattern a node refers to cannot be found.
    ResourceNotFound { node_id: NodeId, resource: String },
    /// The work would not fit in the memory budget.
    InsufficientMemory { required: usize, available: usize },
    /// The graph contains a cycle.
    CycleDetected,
    /// The graph has no output nodes.
    NoOutputNodes,
    /// A node cannot be reached.
    UnreachableNode(NodeId),
    /// Any other validation failure.
    Other(String),
}

/// Errors during graph execution.
pub enum ExecutionError {
    /// A node's filter failed.
    NodeExecution { node_id: NodeId, error: String },
    /// An input a node needs was never produced.
    MissingInput { node_id: NodeId, port: String },
    /// A parameter a node needs is missing.
    MissingParameter { node_id: NodeId, parameter: String },
    /// A filter finished without setting a declared output.
    OutputNotSet { node_id: NodeId, port: String },
    /// An allocation would exceed the memory budget.
    OutOfMemory,
    /// Execution was cancelled.
    Cancelled,
    /// A node ran past its time budget.
    Timeout { duration_secs: u64 },
    /// An image operation failed.
    ImageProcessing(String),
    /// Any other execution failure.
    Other(String),
}

impl ExecutionError {
    /// The node this error points at, if it is node-scoped.
    pub fn node_id(&self) -> (r: Option<NodeId>)
        ensures
            match *self {
                ExecutionError::NodeExecution { node_id, .. } => r == Some(node_id),
                ExecutionError::MissingInput { node_id, .. } => r == Some(node_id),
                ExecutionError::MissingParameter { node_id, .. } => r == Some(node_id),
                ExecutionError::OutputNotSet { node_id, .. } => r == Some(node_id),
                _ => r is None,
            },
    {
        match self {
            ExecutionError::NodeExecution { node_id, .. } => Some(*node_id),
            ExecutionError::MissingInput { node_id, .. } => Some(*node_id),
            ExecutionError::MissingParameter { node_id, .. } => Some(*node_id),
            ExecutionError::OutputNotSet { node_id, .. } => Some(*node_id),
            _ => None,
        }
    }

    /// Whether other work may continue after this error.  Running out of
    /// memory, cancellation and timeouts end the run.
    pub fn is_recoverable(&self) -> (r: bool)
        ensures
            r == !(*self is OutOfMemory || *self is Cancelled || *self is Timeout),
    {
        !matches!(self, ExecutionError::OutOfMemory | ExecutionError::Cancelled | ExecutionError::Timeout { .. })
    }
}

/// Errors from the plugin loader.
pub enum PluginError {
    /// The plugin could not be loaded.
    LoadFailed { path: String, error: String },
    /// The plugin was built against another API version.
    IncompatibleVersion { host_version: u32, plugin_version: u32 },
    /// The plugin failed to initialise.
    InitializationFailed(String),
    /// No plugin of that name is loaded.
    PluginNotFound { name: String },
    /// A plugin of that name is already loaded.
    AlreadyLoaded { name: String },
    /// The plugin's script does not compile.
    ScriptCompilation(String),
    /// The plugin failed while running.
    Execution(String),
}

/// Errors from batch processing.
pub enum BatchError {
    /// The batch's graph failed validation.
    ValidationFailed(ValidationError),
    /// One item of the batch failed.
    ItemFailed { index: usize, error: ExecutionError },
    /// No input files match the pattern.
    NoInputsFound { pattern: String },
    /// The output directory does not exist.
    OutputDirectoryMissing { path: String },
    /// The batch was cancelled part-way.
    Cancelled { completed: usize, total: usize },
    /// Any other batch failure.
    Other(String),
}

/// The top-level error sum.
pub enum AmbaraError {
    /// A graph mutation failed.
    Graph(GraphError),
    /// Validation failed.
    Validation(ValidationError),
    /// Execution failed.
    Execution(ExecutionError),
    /// A plugin failed.
    Plugin(PluginError),
    /// Anything else.
    Other(String),
}

/// A non-fatal validation finding.
pub struct ValidationWarning {
    /// The warning message.
    pub message: String,
    /// The node it points at, if any.
    pub node_id: Option<NodeId>,
    /// A suggestion for addressing it, if any.
    pub suggestion: Option<String>,
}

/// The outcome of running the validation pipeline.
pub struct ValidationReport {
    /// Whether validation found no errors.
    pub success: bool,
    /// The errors found.
    pub errors: Vec<ValidationError>,
    /// The warnings found.
    pub warnings: Vec<ValidationWarning>,
    /// How long validation took, in milliseconds.
    pub duration_ms: u64,
}

impl ValidationError {
    /// Whether this error stops the pipeline at once.
    pub fn is_fatal(&self) -> (r: bool)
        ensures
            r == (*self is CycleDetected || *self is InsufficientMemory || *self is NoOutputNodes),
    {
        matches!(
            self,
            ValidationError::CycleDetected
                | ValidationError::InsufficientMemory { .. }
                | ValidationError::NoOutputNodes
        )
    }

    /// A suggestion for fixing this error, keyed on its kind.
    pub fn suggested_fix(&self) -> (r: Option<String>)
        ensures
            match *self {
                ValidationError::TypeMismatch { expected, got } => r matches Some(s) && s@
                    == "Insert a conversion node to convert "@ + crate::values::spec_type_name(got)
                    + " to "@ + crate::values::spec_type_name(expected),
                ValidationError::MissingRequiredInput { node_id, port } => r matches Some(s) && s@
                    == "Connect an output to the '"@ + port@ + "' input"@,
                ValidationError::ResourceNotFound { node_id, resource } => r matches Some(s) && s@
                    == "Check that the file '"@ + resource@ + "' exists"@,
                ValidationError::ConstraintViolation { node_id, parameter, error } => r matches Some(
                    s,
                ) && s@ == "Adjust '"@ + parameter@ + "': "@ + error@,
                _ => r is None,
            },
    {
        match self {
            ValidationError::TypeMismatch { expected, got } => {
                let got_name = got.display_name();
                let expected_name = expected.display_name();
                let s = str_concat("Insert a conversion node to convert ", got_name.as_str());
                let s = str_concat(s.as_str(), " to ");
                let s = str_concat(s.as_str(), expected_name.as_str());
                proof {
                    assert(s@ =~= "Insert a conversion node to convert "@
                        + crate::values::spec_type_name(self->TypeMismatch_got) + " to "@
                        + crate::values::spec_type_name(self->TypeMismatch_expected));
                }
                Some(s)
            }
            ValidationError::MissingRequiredInput { port, .. } => {
                let s = str_concat("Connect an output to the '", port.as_str());
                let s = str_concat(s.as_str(), "' input");
                proof {
                    assert(s@ =~= "Connect an output to the '"@ + port@ + "' input"@);
                }
                Some(s)
            }
            ValidationError::ResourceNotFound { resource, .. } => {
                let s = str_concat("Check that the file '", resource.as_str());
                let s = str_concat(s.as_str(), "' exists");
                proof {
                    assert(s@ =~= "Check that the file '"@ + resource@ + "' exists"@);
                }
                Some(s)
            }
            ValidationError::ConstraintViolation { parameter, error, .. } => {
                let s = str_concat("Adjust '", parameter.as_str());
                let s = str_concat(s.as_str(), "': ");
                let s = str_concat(s.as_str(), error.as_str());
                proof {
                    assert(s@ =~= "Adjust '"@ + parameter@ + "': "@ + error@);
                }
                Some(s)
            }
            _ => None,
        }
    }

    /// The nodes this error points at.
    pub fn affected_nodes(&self) -> (r: Vec<NodeId>)
        ensures
            match *self {
                ValidationError::MissingRequiredInput { node_id, .. } => r@ == seq![node_id],
                ValidationError::ConstraintViolation { node_id, .. } => r@ == seq![node_id],
                ValidationError::CustomValidation { node_id, .. } => r@ == seq![node_id],
                ValidationError::ResourceNotFound { node_id, .. } => r@ == seq![node_id],
                ValidationError::UnreachableNode(node_id) => r@ == seq![node_id],
                _ => r@ == Seq::<NodeId>::empty(),
            },
    {
        let mut out: Vec<NodeId> = Vec::new();
        match self {
            ValidationError::MissingRequiredInput { node_id, .. } => out.push(*node_id),
            ValidationError::ConstraintViolation { node_id, .. } => out.push(*node_id),
            ValidationError::CustomValidation { node_id, .. } => out.push(*node_id),
            ValidationError::ResourceNotFound { node_id, .. } => out.push(*node_id),
            ValidationError::UnreachableNode(node_id) => out.push(*node_id),
            _ => {}
        }
        proof {
            match *self {
                ValidationError::MissingRequiredInput { node_id, .. } => {
                    assert(out@ =~= seq![node_id]);
                }
                ValidationError::ConstraintViolation { node_id, .. } => {
                    assert(out@ =~= seq![node_id]);
                }
                ValidationError::CustomValidation { node_id, .. } => {
                    assert(out@ =~= seq![node_id]);
                }
                ValidationError::ResourceNotFound { node_id, .. } => {
                    assert(out@ =~= seq![node_id]);
                }
                ValidationError::UnreachableNode(node_id) => {
                    assert(out@ =~= seq![node_id]);
                }
                _ => {
                    assert(out@ =~= Seq::<NodeId>::empty());
                }
            }
        }
        out
    }
}

/// The report's one-line summary.
pub open spec fn spec_summary(success: bool, n_errors: nat, n_warnings: nat) -> Seq<char> {
    if success {
        if n_warnings == 0 {
            "\u{2713} Graph is valid and ready to execute"@
        } else {
            "\u{2713} Graph is valid with "@ + dec_str(n_warnings) + " warning(s)"@
        }
    } else {
        "\u{2717} Validation failed with "@ + dec_str(n_errors) + " error(s)"@
    }
}

impl ValidationReport {
    /// Create a new empty report, counting as success.
    pub fn new() -> (r: Self)
        ensures
            r.success,
            r.errors@ == Seq::<ValidationError>::empty(),
            r.warnings@ == Seq::<ValidationWarning>::empty(),
            r.duration_ms == 0,
    {
        ValidationReport { success: true, errors: Vec::new(), warnings: Vec::new(), duration_ms: 0 }
    }

    /// Record an error; the report is no longer a success.
    pub fn add_error(&mut self, error: ValidationError)
        ensures
            !final(self).success,
            final(self).errors@ == old(self).errors@.push(error),
            final(self).warnings@ == old(self).warnings@,
            final(self).duration_ms == old(self).duration_ms,
    {
        self.success = false;
        self.errors.push(error);
    }

    /// Record a warning.
    pub fn add_warning(&mut self, warning: ValidationWarning)
        ensures
            final(self).success == old(self).success,
            final(self).errors@ == old(self).errors@,
            final(self).warnings@ == old(self).warnings@.push(warning),
            final(self).duration_ms == old(self).duration_ms,
    {
        self.warnings.push(warning);
    }

    /// Whether the graph may be executed.
    pub fn can_execute(&self) -> (r: bool)
        ensures
            r == self.success,
    {
        self.success
    }

    /// A human-readable one-line summary.
    pub fn summary(&self) -> (r: String)
        ensures
            r@ == spec_summary(self.success, self.errors@.len() as nat, self.warnings@.len() as nat),
    {
        if self.success {
            if self.warnings.len() == 0 {
                "\u{2713} Graph is valid and ready to execute".to_owned()
            } else {
                let count = u64_dec(self.warnings.len() as u64);
                let s = str_concat("\u{2713} Graph is valid with ", count.as_str());
                let s = str_concat(s.as_str(), " warning(s)");
                proof {
                    assert(s@ =~= spec_summary(
                        self.success,
                        self.errors@.len() as nat,
                        self.warnings@.len() as nat,
                    ));
                }
                s
            }
        } else {
            let count = u64_dec(self.errors.len() as u64);
            let s = str_concat("\u{2717} Validation failed with ", count.as_str());
            let s = str_concat(s.as_str(), " error(s)");
            proof {
                assert(s@ =~= spec_summary(
                    self.success,
                    self.errors@.len() as nat,
                    self.warnings@.len() as nat,
                ));
            }
            s
        }
    }
}

impl Default for ValidationReport {
    /// An empty, successful report.
    fn default() -> (r: Self)
        ensures
            r.success,
            r.errors@ == Seq::<ValidationError>::empty(),
            r.warnings@ == Seq::<ValidationWarning>::empty(),
    {
        ValidationReport::new()
    }
}

} // verus!
