//! Port and parameter definitions: the typed interface of a node, with the
//! constraints its values must satisfy.

use crate::values::{ImageFormat, PortType, Value};
use vstd::prelude::*;

verus! {

/// Direction of a port.
#[derive(Debug, Clone, Copy, PartialEq, Eq, Structural, Hash)]
pub enum PortDirection {
    Input,
    Output,
}

/// UI hints for parameter display.
pub enum UiHint {
    /// The default input widget for the type.
    Default,
    /// Slider for numeric values.
    Slider { logarithmic: bool },
    /// Dropdown over a fixed set of options.
    Dropdown { options: Vec<String> },
    /// Colour picker widget.
    ColorPicker,
    /// File chooser dialog with glob filters.
    FileChooser { filters: Vec<String> },
    /// Text input field.
    TextInput { multiline: bool, placeholder: Option<String> },
    /// Checkbox for booleans.
    Checkbox,
    /// Spin box for integers.
    SpinBox,
    /// Angle input.
    Angle,
    /// 2D position picker.
    Position2D,
}

/// A constraint on a port or parameter value.  Numeric bounds are 64-bit
/// float bit patterns.
pub enum Constraint {
    /// Numeric value must lie in `[min, max]`.
    Range { min: u64, max: u64 },
    /// Numeric value must be at least this.
    MinValue(u64),
    /// Numeric value must be at most this.
    MaxValue(u64),
    /// Numeric value must be a whole multiple of this.
    Step(u64),
    /// String or array length must be at least this.
    MinLength(usize),
    /// String or array length must be at most this.
    MaxLength(usize),
    /// String must contain this pattern.
    Pattern(String),
    /// String, array or map must not be empty.
    NotEmpty,
    /// Image dimensions must be at least this.
    ImageMinDimensions { width: u32, height: u32 },
    /// Image dimensions must be at most this.
    ImageMaxDimensions { width: u32, height: u32 },
    /// Image aspect ratio must lie within a tolerance of a target; both are
    /// float bit patterns.
    ImageAspectRatio { ratio: u64, tolerance: u64 },
    /// Image format must be one of these.
    ImageFormat(Vec<ImageFormat>),
    /// Image must have an alpha channel.
    ImageRequiresAlpha,
    /// Value must be the same variant as one of these options.
    OneOf(Vec<Value>),
    /// Numeric value must be strictly positive.
    Positive,
    /// Numeric value must not be negative.
    NonNegative,
}

/// Definition of a node port.
pub struct PortDefinition {
    /// Unique name within the node.
    pub name: String,
    /// Human-readable name.
    pub display_name: String,
    /// The type of data this port carries.
    pub port_type: PortType,
    /// Whether the port is an input or an output.
    pub direction: PortDirection,
    /// Default value for an unconnected input, if any.
    pub default_value: Option<Value>,
    /// Whether this port may be left unconnected.
    pub optional: bool,
    /// Description for documentation.
    pub description: String,
    /// Constraints values must satisfy.
    pub constraints: Vec<Constraint>,
}

/// Definition of a node parameter: configured rather than connected.
pub struct ParameterDefinition {
    /// Unique name within the node.
    pub name: String,
    /// Human-readable name.
    pub display_name: String,
    /// The type of the parameter.
    pub param_type: PortType,
    /// The default value; parameters always have one.
    pub default_value: Value,
    /// Description for documentation.
    pub description: String,
    /// Constraints values must satisfy.
    pub constraints: Vec<Constraint>,
    /// UI widget hint.
    pub ui_hint: UiHint,
    /// Group name for organising parameters.
    pub group: Option<String>,
}

impl PortDefinition {
    /// Create an input port definition.
    pub fn input(name: String, port_type: PortType) -> (r: Self)
        ensures
            r.name@ == name@,
            r.display_name@ == name@,
            r.port_type == port_type,
            r.direction == PortDirection::Input,
            r.default_value is None,
            !r.optional,
            r.constraints@.len() == 0,
    {
        let display_name = name.clone();
        PortDefinition {
            name,
            display_name,
            port_type,
            direction: PortDirection::Input,
            default_value: None,
            optional: false,
            description: String::new(),
            constraints: Vec::new(),
        }
    }

    /// Create an output port definition.
    pub fn output(name: String, port_type: PortType) -> (r: Self)
        ensures
            r.name@ == name@,
            r.display_name@ == name@,
            r.port_type == port_type,
            r.direction == PortDirection::Output,
            r.default_value is None,
            !r.optional,
            r.constraints@.len() == 0,
    {
        let display_name = name.clone();
        PortDefinition {
            name,
            display_name,
            port_type,
            direction: PortDirection::Output,
            default_value: None,
            optional: false,
            description: String::new(),
            constraints: Vec::new(),
        }
    }

    /// Set the display name.
    pub fn with_display_name(self, display_name: String) -> (r: Self)
        ensures
            r == (PortDefinition { display_name, ..self }),
    {
        PortDefinition { display_name, ..self }
    }

    /// Set the default value.
    pub fn with_default(self, value: Value) -> (r: Self)
        ensures
            r == (PortDefinition { default_value: Some(value), ..self }),
    {
        PortDefinition { default_value: Some(value), ..self }
    }

    /// Set the description.
    pub fn with_description(self, description: String) -> (r: Self)
        ensures
            r == (PortDefinition { description, ..self }),
    {
        PortDefinition { description, ..self }
    }

    /// Mark this port as optional.
    pub fn optional(self) -> (r: Self)
        ensures
            r == (PortDefinition { optional: true, ..self }),
    {
        PortDefinition { optional: true, ..self }
    }

    /// Add a range constraint; the bounds are float bit patterns.
    pub fn with_range(self, min: u64, max: u64) -> (r: Self)
        ensures
            r.constraints@ == self.constraints@.push(Constraint::Range { min, max }),
            r.name == self.name,
            r.display_name == self.display_name,
            r.port_type == self.port_type,
            r.direction == self.direction,
            r.default_value == self.default_value,
            r.optional == self.optional,
            r.description == self.description,
    {
        let mut constraints = self.constraints;
        constraints.push(Constraint::Range { min, max });
        PortDefinition { constraints, ..self }
    }

    /// Add a constraint.
    pub fn with_constraint(self, constraint: Constraint) -> (r: Self)
        ensures
            r.constraints@ == self.constraints@.push(constraint),
            r.name == self.name,
            r.display_name == self.display_name,
            r.port_type == self.port_type,
            r.direction == self.direction,
            r.default_value == self.default_value,
            r.optional == self.optional,
            r.description == self.description,
    {
        let mut constraints = self.constraints;
        constraints.push(constraint);
        PortDefinition { constraints, ..self }
    }
}

impl ParameterDefinition {
    /// Create a parameter definition with its default value.
    pub fn new(name: String, param_type: PortType, default_value: Value) -> (r: Self)
        ensures
            r.name@ == name@,
            r.display_name@ == name@,
            r.param_type == param_type,
            r.default_value == default_value,
            r.constraints@.len() == 0,
            r.ui_hint is Default,
            r.group is None,
    {
        let display_name = name.clone();
        ParameterDefinition {
            name,
            display_name,
            param_type,
            default_value,
            description: String::new(),
            constraints: Vec::new(),
            ui_hint: UiHint::Default,
            group: None,
        }
    }

    /// Set the display name.
    pub fn with_display_name(self, display_name: String) -> (r: Self)
        ensures
            r == (ParameterDefinition { display_name, ..self }),
    {
        ParameterDefinition { display_name, ..self }
    }

    /// Set the description.
    pub fn with_description(self, description: String) -> (r: Self)
        ensures
            r == (ParameterDefinition { description, ..self }),
    {
        ParameterDefinition { description, ..self }
    }

    /// Add a range constraint and, if no other hint was set, show a slider.
    pub fn with_range(self, min: u64, max: u64) -> (r: Self)
        ensures
            r.constraints@ == self.constraints@.push(Constraint::Range { min, max }),
            r.ui_hint == if self.ui_hint is Default {
                UiHint::Slider { logarithmic: false }
            } else {
                self.ui_hint
            },
            r.name == self.name,
            r.param_type == self.param_type,
            r.default_value == self.default_value,
            r.group == self.group,
    {
        let mut constraints = self.constraints;
        constraints.push(Constraint::Range { min, max });
        let ui_hint = match self.ui_hint {
            UiHint::Default => UiHint::Slider { logarithmic: false },
            other => other,
        };
        ParameterDefinition { constraints, ui_hint, ..self }
    }

    /// Show a logarithmic slider.
    pub fn logarithmic(self) -> (r: Self)
        ensures
            r == (ParameterDefinition { ui_hint: UiHint::Slider { logarithmic: true }, ..self }),
    {
        ParameterDefinition { ui_hint: UiHint::Slider { logarithmic: true }, ..self }
    }

    /// Add a constraint.
    pub fn with_constraint(self, constraint: Constraint) -> (r: Self)
        ensures
            r.constraints@ == self.constraints@.push(constraint),
            r.name == self.name,
            r.param_type == self.param_type,
            r.default_value == self.default_value,
            r.ui_hint == self.ui_hint,
            r.group == self.group,
    {
        let mut constraints = self.constraints;
        constraints.push(constraint);
        ParameterDefinition { constraints, ..self }
    }

    /// Set the UI hint.
    pub fn with_ui_hint(self, ui_hint: UiHint) -> (r: Self)
        ensures
            r == (ParameterDefinition { ui_hint, ..self }),
    {
        ParameterDefinition { ui_hint, ..self }
    }

    /// Set the parameter group.
    pub fn with_group(self, group: String) -> (r: Self)
        ensures
            r == (ParameterDefinition { group: Some(group), ..self }),
    {
        ParameterDefinition { group: Some(group), ..self }
    }
}

} // verus!
