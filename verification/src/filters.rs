//! Filters whose work is pure value plumbing: constants, boolean logic, and
//! small utilities.  Filters that compute on pixels or floats live outside
//! the verified core and plug in through the `FilterNode` trait.

use crate::contexts::{ExecutionContext, ValidationContext};
use crate::errors::{ExecutionError, ValidationError};
use crate::nodes::{Category, FilterNode, NodeMetadata};
use crate::ports::{ParameterDefinition, PortDefinition};
use crate::values::{lookup, PortType, Value, ValueView};
use vstd::prelude::*;

verus! {

/// Batch size configuration.
#[derive(Debug, Clone, Copy)]
pub enum BatchSize {
    /// Process all images at once.
    Auto,
    /// A fixed batch size.
    Fixed(usize),
    /// Sized dynamically from available memory.
    Dynamic,
}

impl Default for BatchSize {
    /// All images at once.
    fn default() -> (r: Self)
        ensures
            r is Auto,
    {
        BatchSize::Auto
    }
}

/// How a filter consumes a batch of images.
#[derive(Debug, Clone, Copy, PartialEq, Eq, Structural)]
pub enum BatchMode {
    /// One image at a time.
    Sequential,
    /// Several images concurrently.
    Parallel,
    /// The whole batch as one operation.
    Batched,
}

/// Outputs a constant integer from its parameter.
pub struct IntegerConstant;

impl FilterNode for IntegerConstant {
    fn metadata(&self) -> (r: NodeMetadata) {
        NodeMetadata::builder("integer_constant".to_owned(), "Integer".to_owned())
            .category(Category::Math)
            .description("Outputs a constant integer value".to_owned())
            .output(PortDefinition::output("value".to_owned(), PortType::Integer))
            .parameter(
                ParameterDefinition::new("value".to_owned(), PortType::Integer, Value::Integer(0)),
            )
            .build()
    }

    fn validate(&self, _ctx: &ValidationContext) -> (r: Result<(), ValidationError>) {
        Ok(())
    }

    fn execute(&self, ctx: &mut ExecutionContext) -> (r: Result<(), ExecutionError>) {
        let value = match ctx.get_integer("value") {
            Ok(v) => v,
            Err(e) => {
                return Err(e);
            }
        };
        match ctx.set_output("value".to_owned(), Value::Integer(value)) {
            Ok(()) => Ok(()),
            Err(e) => Err(e),
        }
    }
}

/// Outputs a constant float from its parameter.
pub struct FloatConstant;

impl FilterNode for FloatConstant {
    fn metadata(&self) -> (r: NodeMetadata) {
        NodeMetadata::builder("float_constant".to_owned(), "Float".to_owned())
            .category(Category::Math)
            .description("Outputs a constant float value".to_owned())
            .output(PortDefinition::output("value".to_owned(), PortType::Float))
            .parameter(
                ParameterDefinition::new("value".to_owned(), PortType::Float, Value::Float(0)),
            )
            .build()
    }

    fn validate(&self, _ctx: &ValidationContext) -> (r: Result<(), ValidationError>) {
        Ok(())
    }

    fn execute(&self, ctx: &mut ExecutionContext) -> (r: Result<(), ExecutionError>) {
        let value = match ctx.get_float_bits("value") {
            Ok(v) => v,
            Err(e) => {
                return Err(e);
            }
        };
        match ctx.set_output("value".to_owned(), Value::Float(value)) {
            Ok(()) => Ok(()),
            Err(e) => Err(e),
        }
    }
}

/// Outputs a constant string from its parameter.
pub struct StringConstant;

impl FilterNode for StringConstant {
    fn metadata(&self) -> (r: NodeMetadata) {
        NodeMetadata::builder("string_constant".to_owned(), "String".to_owned())
            .category(Category::Utility)
            .description("Outputs a constant string value".to_owned())
            .output(PortDefinition::output("value".to_owned(), PortType::String))
            .parameter(
                ParameterDefinition::new(
                    "value".to_owned(),
                    PortType::String,
                    Value::String(String::new()),
                ),
            )
            .build()
    }

    fn validate(&self, _ctx: &ValidationContext) -> (r: Result<(), ValidationError>) {
        Ok(())
    }

    fn execute(&self, ctx: &mut ExecutionContext) -> (r: Result<(), ExecutionError>) {
        let value = match ctx.get_string("value") {
            Ok(v) => v.clone(),
            Err(e) => {
                return Err(e);
            }
        };
        match ctx.set_output("value".to_owned(), Value::String(value)) {
            Ok(()) => Ok(()),
            Err(e) => Err(e),
        }
    }
}

/// Outputs a constant boolean from its parameter.
pub struct BooleanConstant;

impl FilterNode for BooleanConstant {
    fn metadata(&self) -> (r: NodeMetadata) {
        NodeMetadata::builder("boolean_constant".to_owned(), "Boolean".to_owned())
            .category(Category::Math)
            .description("Outputs a constant boolean value".to_owned())
            .output(PortDefinition::output("value".to_owned(), PortType::Boolean))
            .parameter(
                ParameterDefinition::new(
                    "value".to_owned(),
                    PortType::Boolean,
                    Value::Boolean(false),
                ),
            )
            .build()
    }

    fn validate(&self, _ctx: &ValidationContext) -> (r: Result<(), ValidationError>) {
        Ok(())
    }

    fn execute(&self, ctx: &mut ExecutionContext) -> (r: Result<(), ExecutionError>) {
        let value = match ctx.get_bool("value") {
            Ok(v) => v,
            Err(e) => {
                return Err(e);
            }
        };
        match ctx.set_output("value".to_owned(), Value::Boolean(value)) {
            Ok(()) => Ok(()),
            Err(e) => Err(e),
        }
    }
}

/// Outputs a constant colour from its parameter.
pub struct ColorConstant;

impl FilterNode for ColorConstant {
    fn metadata(&self) -> (r: NodeMetadata) {
        NodeMetadata::builder("color_constant".to_owned(), "Color".to_owned())
            .category(Category::Color)
            .description("Outputs a constant colour value".to_owned())
            .output(PortDefinition::output("value".to_owned(), PortType::Color))
            .parameter(
                ParameterDefinition::new(
                    "value".to_owned(),
                    PortType::Color,
                    Value::Color(crate::values::Color::rgb(0, 0, 0)),
                ),
            )
            .build()
    }

    fn validate(&self, _ctx: &ValidationContext) -> (r: Result<(), ValidationError>) {
        Ok(())
    }

    fn execute(&self, ctx: &mut ExecutionContext) -> (r: Result<(), ExecutionError>) {
        let value = match ctx.get_color("value") {
            Ok(v) => v,
            Err(e) => {
                return Err(e);
            }
        };
        match ctx.set_output("value".to_owned(), Value::Color(value)) {
            Ok(()) => Ok(()),
            Err(e) => Err(e),
        }
    }
}

/// Read the two boolean inputs of a logic gate.
fn two_bools(ctx: &ExecutionContext) -> (r: Result<(bool, bool), ExecutionError>)
    ensures
        r matches Ok(p) ==> lookup(ctx.inputs_view(), "a"@) == Some(ValueView::Boolean(p.0))
            && lookup(ctx.inputs_view(), "b"@) == Some(ValueView::Boolean(p.1)),
{
    let a = match ctx.get_input("a") {
        Ok(v) => match v.as_bool() {
            Some(b) => b,
            None => {
                return Err(
                    ExecutionError::NodeExecution {
                        node_id: ctx.node_id,
                        error: "input must be boolean".to_owned(),
                    },
                );
            }
        },
        Err(e) => {
            return Err(e);
        }
    };
    let b = match ctx.get_input("b") {
        Ok(v) => match v.as_bool() {
            Some(b) => b,
            None => {
                return Err(
                    ExecutionError::NodeExecution {
                        node_id: ctx.node_id,
                        error: "input must be boolean".to_owned(),
                    },
                );
            }
        },
        Err(e) => {
            return Err(e);
        }
    };
    Ok((a, b))
}

/// The metadata of a two-input boolean gate.
fn gate_metadata(id: &str, name: &str, description: &str) -> (r: NodeMetadata) {
    NodeMetadata::builder(id.to_owned(), name.to_owned())
        .category(Category::Math)
        .description(description.to_owned())
        .input(PortDefinition::input("a".to_owned(), PortType::Boolean))
        .input(PortDefinition::input("b".to_owned(), PortType::Boolean))
        .output(PortDefinition::output("result".to_owned(), PortType::Boolean))
        .build()
}

/// Logical conjunction of two booleans.
pub struct And;

impl FilterNode for And {
    fn metadata(&self) -> (r: NodeMetadata) {
        gate_metadata("and", "And", "Logical AND of the two inputs")
    }

    fn validate(&self, _ctx: &ValidationContext) -> (r: Result<(), ValidationError>) {
        Ok(())
    }

    fn execute(&self, ctx: &mut ExecutionContext) -> (r: Result<(), ExecutionError>) {
        let (a, b) = match two_bools(ctx) {
            Ok(p) => p,
            Err(e) => {
                return Err(e);
            }
        };
        match ctx.set_output("result".to_owned(), Value::Boolean(a && b)) {
            Ok(()) => Ok(()),
            Err(e) => Err(e),
        }
    }
}

/// Logical disjunction of two booleans.
pub struct Or;

impl FilterNode for Or {
    fn metadata(&self) -> (r: NodeMetadata) {
        gate_metadata("or", "Or", "Logical OR of the two inputs")
    }

    fn validate(&self, _ctx: &ValidationContext) -> (r: Result<(), ValidationError>) {
        Ok(())
    }

    fn execute(&self, ctx: &mut ExecutionContext) -> (r: Result<(), ExecutionError>) {
        let (a, b) = match two_bools(ctx) {
            Ok(p) => p,
            Err(e) => {
                return Err(e);
            }
        };
        match ctx.set_output("result".to_owned(), Value::Boolean(a || b)) {
            Ok(()) => Ok(()),
            Err(e) => Err(e),
        }
    }
}

/// Exclusive disjunction of two booleans.
pub struct Xor;

impl FilterNode for Xor {
    fn metadata(&self) -> (r: NodeMetadata) {
        gate_metadata("xor", "Xor", "Logical exclusive OR of the two inputs")
    }

    fn validate(&self, _ctx: &ValidationContext) -> (r: Result<(), ValidationError>) {
        Ok(())
    }

    fn execute(&self, ctx: &mut ExecutionContext) -> (r: Result<(), ExecutionError>) {
        let (a, b) = match two_bools(ctx) {
            Ok(p) => p,
            Err(e) => {
                return Err(e);
            }
        };
        match ctx.set_output("result".to_owned(), Value::Boolean(a != b)) {
            Ok(()) => Ok(()),
            Err(e) => Err(e),
        }
    }
}

/// Logical negation of one boolean.
pub struct Not;

impl FilterNode for Not {
    fn metadata(&self) -> (r: NodeMetadata) {
        NodeMetadata::builder("not".to_owned(), "Not".to_owned())
            .category(Category::Math)
            .description("Logical NOT of the input".to_owned())
            .input(PortDefinition::input("a".to_owned(), PortType::Boolean))
            .output(PortDefinition::output("result".to_owned(), PortType::Boolean))
            .build()
    }

    fn validate(&self, _ctx: &ValidationContext) -> (r: Result<(), ValidationError>) {
        Ok(())
    }

    fn execute(&self, ctx: &mut ExecutionContext) -> (r: Result<(), ExecutionError>) {
        let a = match ctx.get_input("a") {
            Ok(v) => match v.as_bool() {
                Some(b) => b,
                None => {
                    return Err(
                        ExecutionError::NodeExecution {
                            node_id: ctx.node_id,
                            error: "input must be boolean".to_owned(),
                        },
                    );
                }
            },
            Err(e) => {
                return Err(e);
            }
        };
        match ctx.set_output("result".to_owned(), Value::Boolean(!a)) {
            Ok(()) => Ok(()),
            Err(e) => Err(e),
        }
    }
}

/// The number of elements of an array value.
pub struct ArrayLength;

impl FilterNode for ArrayLength {
    fn metadata(&self) -> (r: NodeMetadata) {
        NodeMetadata::builder("array_length".to_owned(), "Array Length".to_owned())
            .category(Category::Utility)
            .description("Outputs the number of elements of the input array".to_owned())
            .input(
                PortDefinition::input(
                    "array".to_owned(),
                    PortType::Array(Box::new(PortType::Any)),
                ),
            )
            .output(PortDefinition::output("length".to_owned(), PortType::Integer))
            .build()
    }

    fn validate(&self, _ctx: &ValidationContext) -> (r: Result<(), ValidationError>) {
        Ok(())
    }

    fn execute(&self, ctx: &mut ExecutionContext) -> (r: Result<(), ExecutionError>) {
        let len = match ctx.get_input("array") {
            Ok(v) => match v.as_array() {
                Some(items) => items.len(),
                None => {
                    return Err(
                        ExecutionError::NodeExecution {
                            node_id: ctx.node_id,
                            error: "input must be an array".to_owned(),
                        },
                    );
                }
            },
            Err(e) => {
                return Err(e);
            }
        };
        let wide = if len as u128 > i64::MAX as u128 {
            i64::MAX
        } else {
            len as i64
        };
        match ctx.set_output("length".to_owned(), Value::Integer(wide)) {
            Ok(()) => Ok(()),
            Err(e) => Err(e),
        }
    }
}

/// A note for documenting the graph; does nothing when run.
pub struct Note;

impl FilterNode for Note {
    fn metadata(&self) -> (r: NodeMetadata) {
        NodeMetadata::builder("note".to_owned(), "Note".to_owned())
            .category(Category::Utility)
            .description("Add a note or comment to document your graph".to_owned())
            .parameter(
                ParameterDefinition::new(
                    "text".to_owned(),
                    PortType::String,
                    Value::String("Add your notes here...".to_owned()),
                ),
            )
            .build()
    }

    fn validate(&self, _ctx: &ValidationContext) -> (r: Result<(), ValidationError>) {
        Ok(())
    }

    fn execute(&self, _ctx: &mut ExecutionContext) -> (r: Result<(), ExecutionError>) {
        Ok(())
    }
}

} // verus!

verus! {

/// Invert the colour channels of an image, keeping alpha.  Runs through the
/// tiled substrate under the context's memory budget.
pub struct Invert;

impl Invert {
    /// This operation has a compute-shader implementation available when a
    /// GPU device is plugged in from outside.
    pub fn supports_gpu(&self) -> (r: bool)
        ensures
            r,
    {
        true
    }
}

impl FilterNode for Invert {
    fn metadata(&self) -> (r: NodeMetadata) {
        NodeMetadata::builder("invert".to_owned(), "Invert".to_owned())
            .category(Category::Color)
            .description("Invert the colours of the image".to_owned())
            .input(PortDefinition::input("image".to_owned(), PortType::Image))
            .output(PortDefinition::output("image".to_owned(), PortType::Image))
            .build()
    }

    fn validate(&self, _ctx: &ValidationContext) -> (r: Result<(), ValidationError>) {
        Ok(())
    }

    fn execute(&self, ctx: &mut ExecutionContext) -> (r: Result<(), ExecutionError>) {
        let image = match ctx.take_input_image("image") {
            Ok(img) => img,
            Err(e) => {
                return Err(e);
            }
        };
        let format = image.metadata.format;
        let has_alpha = image.metadata.has_alpha;
        let pixels = match image.into_image() {
            Some(p) => p,
            None => {
                return Err(
                    ExecutionError::NodeExecution {
                        node_id: ctx.node_id,
                        error: "image pixels are not loaded".to_owned(),
                    },
                );
            }
        };
        if !pixel_buffer_ok(&pixels) {
            return Err(
                ExecutionError::NodeExecution {
                    node_id: ctx.node_id,
                    error: "image buffer size does not match its dimensions".to_owned(),
                },
            );
        }
        let config = crate::chunked::ProcessingConfig::new().with_memory_limit(
            ctx.memory_limit(),
        );
        let inverted = match crate::chunked::process_pointwise(
            &pixels,
            &config,
            crate::chunked::PointOp::Invert,
        ) {
            Ok(p) => p,
            Err(_) => {
                return Err(ExecutionError::OutOfMemory);
            }
        };
        let out = crate::values::ImageValue::new(inverted, format, has_alpha);
        match ctx.set_output_image("image".to_owned(), out) {
            Ok(()) => Ok(()),
            Err(e) => Err(e),
        }
    }
}

/// Whether a pixel buffer's byte count matches its dimensions.
fn pixel_buffer_ok(p: &crate::values::PixelImage) -> (r: bool)
    ensures
        r == p@.wf(),
{
    let w = p.width();
    let h = p.height();
    proof {
        assert((w as int) * (h as int) * 4 < (u128::MAX as int)) by (nonlinear_arith)
            requires
                w <= u32::MAX,
                h <= u32::MAX,
        ;
    }
    let expect = w as u128 * h as u128 * 4;
    p.bytes().len() as u128 == expect
}

/// Convert an image to grey, weighing the channels with the usual integer
/// approximation of the luma weights.
pub struct Grayscale;

impl Grayscale {
    /// This operation has a compute-shader implementation available when a
    /// GPU device is plugged in from outside.
    pub fn supports_gpu(&self) -> (r: bool)
        ensures
            r,
    {
        true
    }
}

/// The grey level of one pixel: the luma weights 77, 150 and 29 over 256.
pub open spec fn grey_of(r: u8, g: u8, b: u8) -> u8 {
    ((77 * r + 150 * g + 29 * b) / 256) as u8
}

impl FilterNode for Grayscale {
    fn metadata(&self) -> (r: NodeMetadata) {
        NodeMetadata::builder("grayscale".to_owned(), "Grayscale".to_owned())
            .category(Category::Color)
            .description("Convert the image to greyscale".to_owned())
            .input(PortDefinition::input("image".to_owned(), PortType::Image))
            .output(PortDefinition::output("image".to_owned(), PortType::Image))
            .build()
    }

    fn validate(&self, _ctx: &ValidationContext) -> (r: Result<(), ValidationError>) {
        Ok(())
    }

    fn execute(&self, ctx: &mut ExecutionContext) -> (r: Result<(), ExecutionError>) {
        let image = match ctx.take_input_image("image") {
            Ok(img) => img,
            Err(e) => {
                return Err(e);
            }
        };
        let format = image.metadata.format;
        let has_alpha = image.metadata.has_alpha;
        let pixels = match image.into_image() {
            Some(p) => p,
            None => {
                return Err(
                    ExecutionError::NodeExecution {
                        node_id: ctx.node_id,
                        error: "image pixels are not loaded".to_owned(),
                    },
                );
            }
        };
        let width = pixels.width();
        let height = pixels.height();
        let src = pixels.bytes();
        let n = src.len();
        if n % 4 != 0 || !pixel_buffer_ok(&pixels) {
            return Err(
                ExecutionError::NodeExecution {
                    node_id: ctx.node_id,
                    error: "image buffer size does not match its dimensions".to_owned(),
                },
            );
        }
        let mut out: Vec<u8> = Vec::new();
        let mut i: usize = 0;
        while i < n
            invariant
                n == src@.len(),
                src@ == pixels@.data,
                i % 4 == 0,
                n % 4 == 0,
                i <= n,
                out@.len() == i,
                forall|p: int|
                    0 <= p && p * 4 + 3 < i ==> #[trigger] out@[p * 4] == grey_of(
                        pixels@.data[p * 4],
                        pixels@.data[p * 4 + 1],
                        pixels@.data[p * 4 + 2],
                    ) && out@[p * 4 + 1] == out@[p * 4] && out@[p * 4 + 2] == out@[p * 4]
                        && out@[p * 4 + 3] == pixels@.data[p * 4 + 3],
            decreases n - i,
        {
            proof {
                assert(i + 4 <= n) by (nonlinear_arith)
                    requires
                        i < n,
                        i % 4 == 0,
                        n % 4 == 0,
                ;
            }
            let r = src[i];
            let g = src[i + 1];
            let b = src[i + 2];
            let a = src[i + 3];
            let grey = ((77 * (r as u32) + 150 * (g as u32) + 29 * (b as u32)) / 256) as u8;
            let ghost pre = out@;
            out.push(grey);
            out.push(grey);
            out.push(grey);
            out.push(a);
            proof {
                assert(grey == grey_of(src@[i as int], src@[i + 1], src@[i + 2]));
                assert forall|p: int| 0 <= p && p * 4 + 3 < i + 4 implies #[trigger] out@[p * 4]
                    == grey_of(
                    pixels@.data[p * 4],
                    pixels@.data[p * 4 + 1],
                    pixels@.data[p * 4 + 2],
                ) && out@[p * 4 + 1] == out@[p * 4] && out@[p * 4 + 2] == out@[p * 4] && out@[p * 4
                    + 3] == pixels@.data[p * 4 + 3] by {
                    if p * 4 + 3 < i {
                        assert(out@[p * 4] == pre[p * 4]);
                        assert(out@[p * 4 + 1] == pre[p * 4 + 1]);
                        assert(out@[p * 4 + 2] == pre[p * 4 + 2]);
                        assert(out@[p * 4 + 3] == pre[p * 4 + 3]);
                    } else {
                        assert(p * 4 == i) by (nonlinear_arith)
                            requires
                                i <= p * 4 + 3 < i + 4,
                                i % 4 == 0,
                        ;
                    }
                }
            }
            i = i + 4;
        }
        let grey_pixels = crate::values::PixelImage::from_raw(width, height, out);
        let out_image = crate::values::ImageValue::new(grey_pixels, format, has_alpha);
        match ctx.set_output_image("image".to_owned(), out_image) {
            Ok(()) => Ok(()),
            Err(e) => Err(e),
        }
    }
}

} // verus!
