//! Validation and execution contexts: the data a filter sees while it is
//! being validated or run.

use crate::errors::{ExecutionError, NodeId, ValidationError};
use crate::values::{lookup, Color, ImageValue, PortType, Value, ValueMap, ValueView};
use vstd::prelude::*;

verus! {

/// Context handed to a filter's validation pass: placeholder inputs and the
/// effective parameter values.
pub struct ValidationContext {
    /// The node being validated.
    pub node_id: NodeId,
    /// Input values or metadata.
    pub inputs: ValueMap,
    /// Parameter values.
    pub parameters: ValueMap,
}

impl ValidationContext {
    /// Create an empty context for a node.
    pub fn new(node_id: NodeId) -> (r: Self)
        ensures
            r.node_id == node_id,
            r.inputs_view() =~= Seq::<(Seq<char>, ValueView)>::empty(),
            r.params_view() =~= Seq::<(Seq<char>, ValueView)>::empty(),
    {
        ValidationContext { node_id, inputs: ValueMap::new(), parameters: ValueMap::new() }
    }

    /// The inputs, for contracts.
    pub closed spec fn inputs_view(&self) -> Seq<(Seq<char>, ValueView)> {
        self.inputs@
    }

    /// The parameters, for contracts.
    pub closed spec fn params_view(&self) -> Seq<(Seq<char>, ValueView)> {
        self.parameters@
    }

    /// Add an input value.
    pub fn add_input(&mut self, name: String, value: Value)
        ensures
            final(self).node_id == old(self).node_id,
            lookup(final(self).inputs_view(), name@) == Some(value@),
            forall|k2: Seq<char>|
                k2 != name@ ==> #[trigger] lookup(final(self).inputs_view(), k2) == lookup(
                    old(self).inputs_view(),
                    k2,
                ),
            final(self).params_view() == old(self).params_view(),
    {
        self.inputs.insert(name, value);
    }

    /// Add a parameter value.
    pub fn add_parameter(&mut self, name: String, value: Value)
        ensures
            final(self).node_id == old(self).node_id,
            lookup(final(self).params_view(), name@) == Some(value@),
            forall|k2: Seq<char>|
                k2 != name@ ==> #[trigger] lookup(final(self).params_view(), k2) == lookup(
                    old(self).params_view(),
                    k2,
                ),
            final(self).inputs_view() == old(self).inputs_view(),
    {
        self.parameters.insert(name, value);
    }

    /// All inputs.
    pub fn inputs(&self) -> (r: &ValueMap)
        ensures
            r@ == self.inputs_view(),
    {
        &self.inputs
    }

    /// All parameters.
    pub fn parameters(&self) -> (r: &ValueMap)
        ensures
            r@ == self.params_view(),
    {
        &self.parameters
    }

    /// An input value by name, or the missing-input error.
    pub fn get_input(&self, name: &str) -> (r: Result<&Value, ValidationError>)
        ensures
            match r {
                Ok(v) => lookup(self.inputs_view(), name@) == Some(v@),
                Err(e) => lookup(self.inputs_view(), name@) is None && (e matches
                    ValidationError::MissingRequiredInput { node_id, port } && node_id
                    == self.node_id && port@ == name@),
            },
    {
        match self.inputs.get(name) {
            Some(v) => Ok(v),
            None => Err(
                ValidationError::MissingRequiredInput {
                    node_id: self.node_id,
                    port: name.to_owned(),
                },
            ),
        }
    }

    /// Whether an input exists.
    pub fn has_input(&self, name: &str) -> (r: bool)
        ensures
            r == (lookup(self.inputs_view(), name@) is Some),
    {
        self.inputs.contains_key(name)
    }

    /// A parameter value by name, or a constraint error.
    pub fn get_parameter(&self, name: &str) -> (r: Result<&Value, ValidationError>)
        ensures
            match r {
                Ok(v) => lookup(self.params_view(), name@) == Some(v@),
                Err(_) => lookup(self.params_view(), name@) is None,
            },
    {
        match self.parameters.get(name) {
            Some(v) => Ok(v),
            None => Err(
                ValidationError::ConstraintViolation {
                    node_id: self.node_id,
                    parameter: name.to_owned(),
                    error: "Parameter not set".to_owned(),
                },
            ),
        }
    }

    /// An input as an image.
    pub fn get_input_image(&self, name: &str) -> (r: Result<&ImageValue, ValidationError>)
        ensures
            match r {
                Ok(img) => lookup(self.inputs_view(), name@) == Some(ValueView::Image(img@)),
                Err(_) => !(lookup(self.inputs_view(), name@) matches Some(v) && v is Image),
            },
    {
        match self.get_input(name) {
            Ok(v) => match v.as_image() {
                Some(img) => Ok(img),
                None => Err(
                    ValidationError::TypeMismatch {
                        expected: PortType::Image,
                        got: v.get_type(),
                    },
                ),
            },
            Err(e) => Err(e),
        }
    }

    /// A parameter as an integer.
    pub fn get_integer(&self, name: &str) -> (r: Result<i64, ValidationError>)
        ensures
            match r {
                Ok(i) => lookup(self.params_view(), name@) == Some(ValueView::Integer(i)),
                Err(_) => !(lookup(self.params_view(), name@) matches Some(v) && v is Integer),
            },
    {
        match self.get_parameter(name) {
            Ok(v) => match v.as_integer() {
                Some(i) => Ok(i),
                None => Err(
                    ValidationError::TypeMismatch {
                        expected: PortType::Integer,
                        got: v.get_type(),
                    },
                ),
            },
            Err(e) => Err(e),
        }
    }

    /// A parameter as a float bit pattern.
    pub fn get_float_bits(&self, name: &str) -> (r: Result<u64, ValidationError>)
        ensures
            match r {
                Ok(b) => lookup(self.params_view(), name@) == Some(ValueView::Float(b)),
                Err(_) => !(lookup(self.params_view(), name@) matches Some(v) && v is Float),
            },
    {
        match self.get_parameter(name) {
            Ok(v) => match v.as_float_bits() {
                Some(b) => Ok(b),
                None => Err(
                    ValidationError::TypeMismatch { expected: PortType::Float, got: v.get_type() },
                ),
            },
            Err(e) => Err(e),
        }
    }

    /// A parameter as a string.
    pub fn get_string(&self, name: &str) -> (r: Result<&String, ValidationError>)
        ensures
            match r {
                Ok(s) => lookup(self.params_view(), name@) == Some(ValueView::String(s@)),
                Err(_) => !(lookup(self.params_view(), name@) matches Some(v) && v is String),
            },
    {
        match self.get_parameter(name) {
            Ok(v) => match v.as_string() {
                Some(s) => Ok(s),
                None => Err(
                    ValidationError::TypeMismatch { expected: PortType::String, got: v.get_type() },
                ),
            },
            Err(e) => Err(e),
        }
    }

    /// A parameter as a boolean.
    pub fn get_bool(&self, name: &str) -> (r: Result<bool, ValidationError>)
        ensures
            match r {
                Ok(b) => lookup(self.params_view(), name@) == Some(ValueView::Boolean(b)),
                Err(_) => !(lookup(self.params_view(), name@) matches Some(v) && v is Boolean),
            },
    {
        match self.get_parameter(name) {
            Ok(v) => match v.as_bool() {
                Some(b) => Ok(b),
                None => Err(
                    ValidationError::TypeMismatch {
                        expected: PortType::Boolean,
                        got: v.get_type(),
                    },
                ),
            },
            Err(e) => Err(e),
        }
    }

    /// A parameter as a colour.
    pub fn get_color(&self, name: &str) -> (r: Result<Color, ValidationError>)
        ensures
            match r {
                Ok(c) => lookup(self.params_view(), name@) == Some(ValueView::Color(c)),
                Err(_) => !(lookup(self.params_view(), name@) matches Some(v) && v is Color),
            },
    {
        match self.get_parameter(name) {
            Ok(v) => match v.as_color() {
                Some(c) => Ok(c),
                None => Err(
                    ValidationError::TypeMismatch { expected: PortType::Color, got: v.get_type() },
                ),
            },
            Err(e) => Err(e),
        }
    }

    /// Whether a parameter exists.
    pub fn has_parameter(&self, name: &str) -> (r: bool)
        ensures
            r == (lookup(self.params_view(), name@) is Some),
    {
        self.parameters.contains_key(name)
    }
}

/// Context handed to a filter's execution step: real input values, effective
/// parameters, the output map the filter fills, and the memory and
/// cancellation settings.
pub struct ExecutionContext {
    /// The node being executed.
    pub node_id: NodeId,
    /// Input values.
    pub inputs: ValueMap,
    /// Parameter values.
    pub parameters: ValueMap,
    /// Output values the filter has set.
    pub outputs: ValueMap,
    /// Progress through the node's own work, in thousandths.
    pub progress_permille: u32,
    /// Whether cancellation was requested.
    pub cancelled: bool,
    /// Memory limit in bytes.
    pub memory_limit: usize,
    /// Whether large images are tiled automatically.
    pub auto_chunk: bool,
    /// Preferred tile size.
    pub tile_size: (u32, u32),
}

impl ExecutionContext {
    /// The inputs, for contracts.
    pub closed spec fn inputs_view(&self) -> Seq<(Seq<char>, ValueView)> {
        self.inputs@
    }

    /// The parameters, for contracts.
    pub closed spec fn params_view(&self) -> Seq<(Seq<char>, ValueView)> {
        self.parameters@
    }

    /// The outputs, for contracts.
    pub closed spec fn outputs_view(&self) -> Seq<(Seq<char>, ValueView)> {
        self.outputs@
    }

    /// The memory limit, for contracts.
    pub closed spec fn memory_limit_spec(&self) -> int {
        self.memory_limit as int
    }

    /// The cancellation flag, for contracts.
    pub closed spec fn cancelled_spec(&self) -> bool {
        self.cancelled
    }

    /// Create a context with the default memory settings.
    pub fn new(node_id: NodeId) -> (r: Self)
        ensures
            r.node_id == node_id,
            r.inputs_view() =~= Seq::<(Seq<char>, ValueView)>::empty(),
            r.params_view() =~= Seq::<(Seq<char>, ValueView)>::empty(),
            r.outputs_view() =~= Seq::<(Seq<char>, ValueView)>::empty(),
            !r.cancelled_spec(),
            r.memory_limit_spec() == 500 * 1024 * 1024,
    {
        ExecutionContext {
            node_id,
            inputs: ValueMap::new(),
            parameters: ValueMap::new(),
            outputs: ValueMap::new(),
            progress_permille: 0,
            cancelled: false,
            memory_limit: 500 * 1024 * 1024,
            auto_chunk: true,
            tile_size: (512, 512),
        }
    }

    /// Create a context with explicit memory settings.
    pub fn with_memory_settings(
        node_id: NodeId,
        memory_limit: usize,
        auto_chunk: bool,
        tile_size: (u32, u32),
    ) -> (r: Self)
        ensures
            r.node_id == node_id,
            r.inputs_view() =~= Seq::<(Seq<char>, ValueView)>::empty(),
            r.params_view() =~= Seq::<(Seq<char>, ValueView)>::empty(),
            r.outputs_view() =~= Seq::<(Seq<char>, ValueView)>::empty(),
            !r.cancelled_spec(),
            r.memory_limit_spec() == memory_limit,
    {
        ExecutionContext {
            node_id,
            inputs: ValueMap::new(),
            parameters: ValueMap::new(),
            outputs: ValueMap::new(),
            progress_permille: 0,
            cancelled: false,
            memory_limit,
            auto_chunk,
            tile_size,
        }
    }

    /// Add an input value.
    pub fn add_input(&mut self, name: String, value: Value)
        ensures
            final(self).node_id == old(self).node_id,
            lookup(final(self).inputs_view(), name@) == Some(value@),
            forall|k2: Seq<char>|
                k2 != name@ ==> #[trigger] lookup(final(self).inputs_view(), k2) == lookup(
                    old(self).inputs_view(),
                    k2,
                ),
            final(self).params_view() == old(self).params_view(),
            final(self).outputs_view() == old(self).outputs_view(),
            final(self).cancelled_spec() == old(self).cancelled_spec(),
    {
        self.inputs.insert(name, value);
    }

    /// Add a parameter value.
    pub fn add_parameter(&mut self, name: String, value: Value)
        ensures
            final(self).node_id == old(self).node_id,
            lookup(final(self).params_view(), name@) == Some(value@),
            forall|k2: Seq<char>|
                k2 != name@ ==> #[trigger] lookup(final(self).params_view(), k2) == lookup(
                    old(self).params_view(),
                    k2,
                ),
            final(self).inputs_view() == old(self).inputs_view(),
            final(self).outputs_view() == old(self).outputs_view(),
            final(self).cancelled_spec() == old(self).cancelled_spec(),
    {
        self.parameters.insert(name, value);
    }

    /// All inputs.
    pub fn inputs(&self) -> (r: &ValueMap)
        ensures
            r@ == self.inputs_view(),
    {
        &self.inputs
    }

    /// All parameters.
    pub fn parameters(&self) -> (r: &ValueMap)
        ensures
            r@ == self.params_view(),
    {
        &self.parameters
    }

    /// All outputs set so far.
    pub fn outputs(&self) -> (r: &ValueMap)
        ensures
            r@ == self.outputs_view(),
    {
        &self.outputs
    }

    /// Take the outputs out of the context.
    pub fn take_outputs(self) -> (r: ValueMap)
        ensures
            r@ == self.outputs_view(),
    {
        self.outputs
    }

    /// An input value by name, or the missing-input error.
    pub fn get_input(&self, name: &str) -> (r: Result<&Value, ExecutionError>)
        ensures
            match r {
                Ok(v) => lookup(self.inputs_view(), name@) == Some(v@),
                Err(e) => lookup(self.inputs_view(), name@) is None && (e matches
                    ExecutionError::MissingInput { node_id, port } && node_id == self.node_id
                    && port@ == name@),
            },
    {
        match self.inputs.get(name) {
            Some(v) => Ok(v),
            None => Err(
                ExecutionError::MissingInput { node_id: self.node_id, port: name.to_owned() },
            ),
        }
    }

    /// An input as an image.
    pub fn get_input_image(&self, name: &str) -> (r: Result<&ImageValue, ExecutionError>)
        ensures
            match r {
                Ok(img) => lookup(self.inputs_view(), name@) == Some(ValueView::Image(img@)),
                Err(_) => !(lookup(self.inputs_view(), name@) matches Some(v) && v is Image),
            },
    {
        match self.get_input(name) {
            Ok(v) => match v.as_image() {
                Some(img) => Ok(img),
                None => Err(
                    ExecutionError::NodeExecution {
                        node_id: self.node_id,
                        error: crate::strutil::str_concat("input is not an image: ", name),
                    },
                ),
            },
            Err(e) => Err(e),
        }
    }

    /// An input as an image, or nothing when it is absent or not an image.
    pub fn get_input_image_optional(&self, name: &str) -> (r: Option<&ImageValue>)
        ensures
            match r {
                Some(img) => lookup(self.inputs_view(), name@) == Some(ValueView::Image(img@)),
                None => !(lookup(self.inputs_view(), name@) matches Some(v) && v is Image),
            },
    {
        match self.inputs.get(name) {
            Some(v) => v.as_image(),
            None => None,
        }
    }

    /// Take ownership of an input value.
    pub fn take_input(&mut self, name: &str) -> (r: Result<Value, ExecutionError>)
        ensures
            final(self).node_id == old(self).node_id,
            match r {
                Ok(v) => lookup(old(self).inputs_view(), name@) == Some(v@),
                Err(e) => lookup(old(self).inputs_view(), name@) is None && (e matches
                    ExecutionError::MissingInput { node_id, port } && node_id == old(
                    self,
                ).node_id && port@ == name@),
            },
            lookup(final(self).inputs_view(), name@) is None,
            forall|k2: Seq<char>|
                k2 != name@ ==> #[trigger] lookup(final(self).inputs_view(), k2) == lookup(
                    old(self).inputs_view(),
                    k2,
                ),
            final(self).params_view() == old(self).params_view(),
            final(self).outputs_view() == old(self).outputs_view(),
            final(self).cancelled_spec() == old(self).cancelled_spec(),
    {
        match self.inputs.remove(name) {
            Some(v) => Ok(v),
            None => Err(
                ExecutionError::MissingInput { node_id: self.node_id, port: name.to_owned() },
            ),
        }
    }

    /// Take ownership of an input as an image.
    pub fn take_input_image(&mut self, name: &str) -> (r: Result<ImageValue, ExecutionError>)
        ensures
            final(self).node_id == old(self).node_id,
            match r {
                Ok(img) => lookup(old(self).inputs_view(), name@) == Some(ValueView::Image(img@)),
                Err(_) => !(lookup(old(self).inputs_view(), name@) matches Some(v) && v is Image),
            },
            final(self).params_view() == old(self).params_view(),
            final(self).outputs_view() == old(self).outputs_view(),
            final(self).cancelled_spec() == old(self).cancelled_spec(),
    {
        let value = match self.take_input(name) {
            Ok(v) => v,
            Err(e) => {
                return Err(e);
            }
        };
        match value {
            Value::Image(img) => Ok(img),
            _ => Err(
                ExecutionError::NodeExecution {
                    node_id: self.node_id,
                    error: crate::strutil::str_concat("input is not an image: ", name),
                },
            ),
        }
    }

    /// Whether an input exists.
    pub fn has_input(&self, name: &str) -> (r: bool)
        ensures
            r == (lookup(self.inputs_view(), name@) is Some),
    {
        self.inputs.contains_key(name)
    }

    /// A parameter value by name.
    pub fn get_parameter(&self, name: &str) -> (r: Result<&Value, ExecutionError>)
        ensures
            match r {
                Ok(v) => lookup(self.params_view(), name@) == Some(v@),
                Err(_) => lookup(self.params_view(), name@) is None,
            },
    {
        match self.parameters.get(name) {
            Some(v) => Ok(v),
            None => Err(
                ExecutionError::MissingParameter {
                    node_id: self.node_id,
                    parameter: name.to_owned(),
                },
            ),
        }
    }

    /// A parameter as an integer.
    pub fn get_integer(&self, name: &str) -> (r: Result<i64, ExecutionError>)
        ensures
            match r {
                Ok(i) => lookup(self.params_view(), name@) == Some(ValueView::Integer(i)),
                Err(_) => !(lookup(self.params_view(), name@) matches Some(v) && v is Integer),
            },
    {
        match self.get_parameter(name) {
            Ok(v) => match v.as_integer() {
                Some(i) => Ok(i),
                None => Err(
                    ExecutionError::NodeExecution {
                        node_id: self.node_id,
                        error: crate::strutil::str_concat("parameter is not an integer: ", name),
                    },
                ),
            },
            Err(e) => Err(e),
        }
    }

    /// A parameter as a float bit pattern.
    pub fn get_float_bits(&self, name: &str) -> (r: Result<u64, ExecutionError>)
        ensures
            match r {
                Ok(b) => lookup(self.params_view(), name@) == Some(ValueView::Float(b)),
                Err(_) => !(lookup(self.params_view(), name@) matches Some(v) && v is Float),
            },
    {
        match self.get_parameter(name) {
            Ok(v) => match v.as_float_bits() {
                Some(b) => Ok(b),
                None => Err(
                    ExecutionError::NodeExecution {
                        node_id: self.node_id,
                        error: crate::strutil::str_concat("parameter is not a float: ", name),
                    },
                ),
            },
            Err(e) => Err(e),
        }
    }

    /// A parameter as a string.
    pub fn get_string(&self, name: &str) -> (r: Result<&String, ExecutionError>)
        ensures
            match r {
                Ok(s) => lookup(self.params_view(), name@) == Some(ValueView::String(s@)),
                Err(_) => !(lookup(self.params_view(), name@) matches Some(v) && v is String),
            },
    {
        match self.get_parameter(name) {
            Ok(v) => match v.as_string() {
                Some(s) => Ok(s),
                None => Err(
                    ExecutionError::NodeExecution {
                        node_id: self.node_id,
                        error: crate::strutil::str_concat("parameter is not a string: ", name),
                    },
                ),
            },
            Err(e) => Err(e),
        }
    }

    /// A parameter as a boolean.
    pub fn get_bool(&self, name: &str) -> (r: Result<bool, ExecutionError>)
        ensures
            match r {
                Ok(b) => lookup(self.params_view(), name@) == Some(ValueView::Boolean(b)),
                Err(_) => !(lookup(self.params_view(), name@) matches Some(v) && v is Boolean),
            },
    {
        match self.get_parameter(name) {
            Ok(v) => match v.as_bool() {
                Some(b) => Ok(b),
                None => Err(
                    ExecutionError::NodeExecution {
                        node_id: self.node_id,
                        error: crate::strutil::str_concat("parameter is not a boolean: ", name),
                    },
                ),
            },
            Err(e) => Err(e),
        }
    }

    /// A parameter as a colour.
    pub fn get_color(&self, name: &str) -> (r: Result<Color, ExecutionError>)
        ensures
            match r {
                Ok(c) => lookup(self.params_view(), name@) == Some(ValueView::Color(c)),
                Err(_) => !(lookup(self.params_view(), name@) matches Some(v) && v is Color),
            },
    {
        match self.get_parameter(name) {
            Ok(v) => match v.as_color() {
                Some(c) => Ok(c),
                None => Err(
                    ExecutionError::NodeExecution {
                        node_id: self.node_id,
                        error: crate::strutil::str_concat("parameter is not a colour: ", name),
                    },
                ),
            },
            Err(e) => Err(e),
        }
    }

    /// A parameter as a 2D vector of float bit patterns.
    pub fn get_vector2_bits(&self, name: &str) -> (r: Result<(u64, u64), ExecutionError>)
        ensures
            match r {
                Ok(p) => lookup(self.params_view(), name@) == Some(ValueView::Vector2(p.0, p.1)),
                Err(_) => !(lookup(self.params_view(), name@) matches Some(v) && v is Vector2),
            },
    {
        match self.get_parameter(name) {
            Ok(v) => match v.as_vector2_bits() {
                Some(p) => Ok(p),
                None => Err(
                    ExecutionError::NodeExecution {
                        node_id: self.node_id,
                        error: crate::strutil::str_concat("parameter is not a vector: ", name),
                    },
                ),
            },
            Err(e) => Err(e),
        }
    }

    /// Whether a parameter exists.
    pub fn has_parameter(&self, name: &str) -> (r: bool)
        ensures
            r == (lookup(self.params_view(), name@) is Some),
    {
        self.parameters.contains_key(name)
    }

    /// Set an output value.
    pub fn set_output(&mut self, name: String, value: Value) -> (r: Result<(), ExecutionError>)
        ensures
            r is Ok,
            final(self).node_id == old(self).node_id,
            lookup(final(self).outputs_view(), name@) == Some(value@),
            forall|k2: Seq<char>|
                k2 != name@ ==> #[trigger] lookup(final(self).outputs_view(), k2) == lookup(
                    old(self).outputs_view(),
                    k2,
                ),
            final(self).inputs_view() == old(self).inputs_view(),
            final(self).params_view() == old(self).params_view(),
            final(self).cancelled_spec() == old(self).cancelled_spec(),
    {
        self.outputs.insert(name, value);
        Ok(())
    }

    /// Set an output image value.
    pub fn set_output_image(&mut self, name: String, image: ImageValue) -> (r: Result<
        (),
        ExecutionError,
    >)
        ensures
            r is Ok,
            final(self).node_id == old(self).node_id,
            lookup(final(self).outputs_view(), name@) == Some(ValueView::Image(image@)),
            forall|k2: Seq<char>|
                k2 != name@ ==> #[trigger] lookup(final(self).outputs_view(), k2) == lookup(
                    old(self).outputs_view(),
                    k2,
                ),
            final(self).inputs_view() == old(self).inputs_view(),
            final(self).params_view() == old(self).params_view(),
            final(self).cancelled_spec() == old(self).cancelled_spec(),
    {
        self.set_output(name, Value::Image(image))
    }

    /// Whether an output has been set.
    pub fn has_output(&self, name: &str) -> (r: bool)
        ensures
            r == (lookup(self.outputs_view(), name@) is Some),
    {
        self.outputs.contains_key(name)
    }

    /// The memory limit in bytes.
    pub fn memory_limit(&self) -> (r: usize)
        ensures
            r == self.memory_limit_spec(),
    {
        self.memory_limit
    }

    /// The memory limit in whole megabytes.
    pub fn memory_limit_mb(&self) -> (r: usize)
        ensures
            r == self.memory_limit_spec() / (1048576 as int),
    {
        self.memory_limit / (1024 * 1024)
    }

    /// Whether automatic tiling of large images is on.
    pub fn auto_chunk(&self) -> bool {
        self.auto_chunk
    }

    /// The preferred tile size.
    pub fn tile_size(&self) -> (u32, u32) {
        self.tile_size
    }

    /// Whether an image of these dimensions exceeds half the memory budget
    /// and so needs tiled processing.
    pub fn needs_chunking(&self, width: u32, height: u32) -> (r: bool)
        ensures
            r == (width * height * 4 > self.memory_limit_spec() / 2),
    {
        proof {
            assert(width as int * height as int * 4 < u128::MAX as int) by (nonlinear_arith)
                requires
                    width <= u32::MAX,
                    height <= u32::MAX,
            ;
        }
        let image_size = width as u128 * height as u128 * 4;
        image_size > (self.memory_limit / 2) as u128
    }

    /// The memory needed for an image of these dimensions, saturating.
    pub fn calculate_image_memory(width: u32, height: u32) -> (r: usize)
        ensures
            r == vstd::math::min(width * height * 4, usize::MAX as int),
    {
        proof {
            assert(width as int * height as int * 4 < u128::MAX as int) by (nonlinear_arith)
                requires
                    width <= u32::MAX,
                    height <= u32::MAX,
            ;
        }
        let wide = width as u128 * height as u128 * 4;
        if wide > usize::MAX as u128 {
            usize::MAX
        } else {
            wide as usize
        }
    }

    /// Progress through the node's own work, in thousandths, clamped.
    pub fn set_progress(&mut self, permille: u32)
        ensures
            final(self).progress() == vstd::math::min(permille as int, 1000),
            final(self).node_id == old(self).node_id,
            final(self).inputs_view() == old(self).inputs_view(),
            final(self).params_view() == old(self).params_view(),
            final(self).outputs_view() == old(self).outputs_view(),
            final(self).cancelled_spec() == old(self).cancelled_spec(),
    {
        self.progress_permille = if permille > 1000 {
            1000
        } else {
            permille
        };
    }

    /// The progress through the node's own work, in thousandths.
    pub closed spec fn progress(&self) -> int {
        self.progress_permille as int
    }

    /// The current progress, in thousandths.
    pub fn get_progress(&self) -> (r: u32)
        ensures
            r == self.progress(),
    {
        self.progress_permille
    }

    /// Ask the node to stop at its next opportunity.
    pub fn cancel(&mut self)
        ensures
            final(self).cancelled_spec(),
            final(self).node_id == old(self).node_id,
            final(self).inputs_view() == old(self).inputs_view(),
            final(self).params_view() == old(self).params_view(),
            final(self).outputs_view() == old(self).outputs_view(),
    {
        self.cancelled = true;
    }

    /// Whether cancellation was requested.
    pub fn is_cancelled(&self) -> (r: bool)
        ensures
            r == self.cancelled_spec(),
    {
        self.cancelled
    }

    /// The cancellation flag as an error.
    pub fn check_cancelled(&self) -> (r: Result<(), ExecutionError>)
        ensures
            self.cancelled_spec() <==> (r matches Err(e) && e is Cancelled),
            !self.cancelled_spec() <==> r is Ok,
    {
        if self.cancelled {
            Err(ExecutionError::Cancelled)
        } else {
            Ok(())
        }
    }
}

} // verus!
