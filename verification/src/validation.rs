//! The validation pipeline: ordered stages that check a graph before it
//! runs, collecting warnings and errors.

use crate::contexts::ValidationContext;
use crate::errors::{ValidationError, ValidationReport, ValidationWarning};
use crate::graph::ProcessingGraph;
use crate::ports::{Constraint, ParameterDefinition, PortDefinition};
use crate::strutil::{contains_bytes, dec_str, find_bytes, str_concat, u64_dec};
use crate::topology::TopologyAnalyzer;
use crate::values::{same_variant_spec, ImageFormat, PortType, Value, ValueView};
use vstd::prelude::*;
use vstd::string::StringSliceAdditionalSpecFns;

verus! {

/// The total-order key of a 64-bit float bit pattern: magnitude, negated
/// for negative sign.  It orders every pair of doubles with a value as the
/// IEEE ordering does; the two zeroes share the key zero.
pub open spec fn f64_key(bits: u64) -> int {
    let mag = (bits & 0x7fffffffffffffff) as int;
    if bits >= 0x8000000000000000 {
        -mag
    } else {
        mag
    }
}

/// Compare two float bit patterns by their order keys.
pub fn f64_le(a: u64, b: u64) -> (r: bool)
    ensures
        r == (f64_key(a) <= f64_key(b)),
{
    let amag = a & 0x7fffffffffffffff;
    let bmag = b & 0x7fffffffffffffff;
    let aneg = a >= 0x8000000000000000;
    let bneg = b >= 0x8000000000000000;
    proof {
        assert(amag == (a & 0x7fffffffffffffff) && bmag == (b & 0x7fffffffffffffff) && amag >= 0
            && bmag >= 0) by (bit_vector)
            requires
                amag == (a & 0x7fffffffffffffff),
                bmag == (b & 0x7fffffffffffffff),
        ;
    }
    proof {
        assert(f64_key(a) == if aneg {
            -((a & 0x7fffffffffffffff) as int)
        } else {
            (a & 0x7fffffffffffffff) as int
        });
        assert(f64_key(b) == if bneg {
            -((b & 0x7fffffffffffffff) as int)
        } else {
            (b & 0x7fffffffffffffff) as int
        });
    }
    if aneg && bneg {
        bmag <= amag
    } else if aneg {
        true
    } else if bneg {
        // only the two zeroes compare equal across the sign boundary
        amag == 0 && bmag == 0
    } else {
        amag <= bmag
    }
}

/// The length a length constraint sees: UTF-8 bytes of a string or
/// elements of an array, and zero for anything else.
pub open spec fn len_of_value(v: ValueView) -> int {
    match v {
        ValueView::String(s) => vstd::utf8::encode_utf8(s).len() as int,
        ValueView::Array(items) => items.len() as int,
        _ => 0,
    }
}

/// Whether a value is empty for the non-empty constraint.
pub open spec fn value_is_empty(v: ValueView) -> bool {
    match v {
        ValueView::String(s) => vstd::utf8::encode_utf8(s).len() == 0,
        ValueView::Array(items) => items.len() == 0,
        ValueView::Dict(entries) => entries.len() == 0,
        _ => false,
    }
}

/// What a constraint accepts.  Numeric bounds apply to float values by the
/// IEEE order; pattern, length, emptiness, image and option constraints
/// apply to the value kinds they mention and pass everything else through.
/// The step and aspect-ratio constraints involve float division and always
/// pass.
pub open spec fn constraint_ok(c: Constraint, v: ValueView) -> bool {
    match c {
        Constraint::Range { min, max } => match v {
            ValueView::Float(b) => f64_key(min) <= f64_key(b) && f64_key(b) <= f64_key(max),
            _ => true,
        },
        Constraint::MinValue(min) => match v {
            ValueView::Float(b) => f64_key(min) <= f64_key(b),
            _ => true,
        },
        Constraint::MaxValue(max) => match v {
            ValueView::Float(b) => f64_key(b) <= f64_key(max),
            _ => true,
        },
        Constraint::Step(_) => true,
        Constraint::MinLength(min_len) => len_of_value(v) >= min_len,
        Constraint::MaxLength(max_len) => len_of_value(v) <= max_len,
        Constraint::Pattern(p) => match v {
            ValueView::String(s) => contains_bytes(
                vstd::utf8::encode_utf8(s),
                vstd::utf8::encode_utf8(p@),
            ),
            _ => true,
        },
        Constraint::NotEmpty => !value_is_empty(v),
        Constraint::ImageMinDimensions { width, height } => match v {
            ValueView::Image(img) => img.metadata.width >= width && img.metadata.height >= height,
            _ => true,
        },
        Constraint::ImageMaxDimensions { width, height } => match v {
            ValueView::Image(img) => img.metadata.width <= width && img.metadata.height <= height,
            _ => true,
        },
        Constraint::ImageAspectRatio { .. } => true,
        Constraint::ImageFormat(formats) => match v {
            ValueView::Image(img) => formats@.contains(img.metadata.format),
            _ => true,
        },
        Constraint::ImageRequiresAlpha => match v {
            ValueView::Image(img) => img.metadata.has_alpha,
            _ => true,
        },
        Constraint::OneOf(options) => exists|i: int|
            0 <= i < options@.len() && same_variant_spec(#[trigger] options@[i]@, v),
        Constraint::Positive => match v {
            ValueView::Float(b) => f64_key(b) > 0,
            ValueView::Integer(i) => i > 0,
            _ => true,
        },
        Constraint::NonNegative => match v {
            ValueView::Float(b) => f64_key(b) >= 0,
            ValueView::Integer(i) => i >= 0,
            _ => true,
        },
    }
}

} // verus!

verus! {

impl Constraint {
    /// Whether a value satisfies this constraint.  The step and aspect-ratio
    /// constraints involve float division and are advisory here: they always
    /// pass.
    pub fn holds_for(&self, value: &Value) -> (r: bool)
        ensures
            r == constraint_ok(*self, value@),
    {
        match self {
            Constraint::Range { .. } => self.holds_scalar(value),
            Constraint::MinValue(_) => self.holds_scalar(value),
            Constraint::MaxValue(_) => self.holds_scalar(value),
            Constraint::Step(_) => self.holds_scalar(value),
            Constraint::MinLength(_) => self.holds_scalar(value),
            Constraint::MaxLength(_) => self.holds_scalar(value),
            Constraint::Pattern(_) => self.holds_scalar(value),
            Constraint::NotEmpty => self.holds_scalar(value),
            _ => self.holds_special(value),
        }
    }

    /// The numeric, length, pattern and emptiness constraints.
    #[verifier::rlimit(100)]
    fn holds_scalar(&self, value: &Value) -> (r: bool)
        requires
            self is Range || self is MinValue || self is MaxValue || self is Step || self
                is MinLength || self is MaxLength || self is Pattern || self is NotEmpty,
        ensures
            r == constraint_ok(*self, value@),
    {
        proof {
            match value {
                Value::Array(items) => {
                    crate::values::lemma_views_of_index(items@);
                }
                Value::Dict(m) => {
                    crate::values::lemma_entry_views_index(m.entries@);
                }
                _ => {}
            }
        }
        match self {
            Constraint::Range { min, max } => match value {
                Value::Float(b) => {
                    proof {
                        assert(value@ == ValueView::Float(*b));
                        assert(constraint_ok(*self, value@) == (f64_key(*min) <= f64_key(*b)
                            && f64_key(*b) <= f64_key(*max)));
                    }
                    if f64_le(*min, *b) && f64_le(*b, *max) {
                        true
                    } else {
                        false
                    }
                }
                _ => true,
            },
            Constraint::MinValue(min) => match value {
                Value::Float(b) => {
                    if f64_le(*min, *b) {
                        true
                    } else {
                        false
                    }
                }
                _ => true,
            },
            Constraint::MaxValue(max) => match value {
                Value::Float(b) => {
                    if f64_le(*b, *max) {
                        true
                    } else {
                        false
                    }
                }
                _ => true,
            },
            Constraint::Step(_) => true,
            Constraint::MinLength(min_len) => {
                let ok = match value {
                    Value::String(s) => s.as_str().as_bytes().len() >= *min_len,
                    Value::Array(items) => items.len() >= *min_len,
                    _ => 0 >= *min_len,
                };
                if ok {
                    true
                } else {
                    false
                }
            }
            Constraint::MaxLength(max_len) => {
                let ok = match value {
                    Value::String(s) => s.as_str().as_bytes().len() <= *max_len,
                    Value::Array(items) => items.len() <= *max_len,
                    _ => true,
                };
                if ok {
                    true
                } else {
                    false
                }
            }
            Constraint::Pattern(p) => match value {
                Value::String(s) => {
                    if find_bytes(s.as_str().as_bytes(), p.as_str().as_bytes()) {
                        true
                    } else {
                        false
                    }
                }
                _ => true,
            },
            Constraint::NotEmpty => {
                let is_empty = match value {
                    Value::String(s) => s.as_str().as_bytes().len() == 0,
                    Value::Array(items) => items.len() == 0,
                    Value::Dict(m) => m.entries.len() == 0,
                    _ => false,
                };
                !is_empty
            }
            _ => true,
        }
    }

    /// The image, option and sign constraints, dispatched once more so
    /// each prover query stays small.
    fn holds_special(&self, value: &Value) -> (r: bool)
        requires
            self is ImageMinDimensions || self is ImageMaxDimensions || self is ImageAspectRatio
                || self is ImageFormat || self is ImageRequiresAlpha || self is OneOf || self
                is Positive || self is NonNegative,
        ensures
            r == constraint_ok(*self, value@),
    {
        match self {
            Constraint::ImageMinDimensions { .. } => self.holds_image(value),
            Constraint::ImageMaxDimensions { .. } => self.holds_image(value),
            Constraint::ImageAspectRatio { .. } => self.holds_image(value),
            Constraint::ImageFormat(_) => self.holds_image(value),
            Constraint::OneOf(_) => self.holds_one_of(value),
            _ => self.holds_misc(value),
        }
    }

    /// The image dimension and format constraints.
    #[verifier::rlimit(100)]
    fn holds_image(&self, value: &Value) -> (r: bool)
        requires
            self is ImageMinDimensions || self is ImageMaxDimensions || self is ImageAspectRatio
                || self is ImageFormat,
        ensures
            r == constraint_ok(*self, value@),
    {
        match self {
            Constraint::ImageMinDimensions { width, height } => match value {
                Value::Image(img) => {
                    if img.metadata.width >= *width && img.metadata.height >= *height {
                        true
                    } else {
                        false
                    }
                }
                _ => true,
            },
            Constraint::ImageMaxDimensions { width, height } => match value {
                Value::Image(img) => {
                    if img.metadata.width <= *width && img.metadata.height <= *height {
                        true
                    } else {
                        false
                    }
                }
                _ => true,
            },
            Constraint::ImageAspectRatio { .. } => true,
            Constraint::ImageFormat(formats) => match value {
                Value::Image(img) => {
                    let n = formats.len();
                    let mut i: usize = 0;
                    let mut found = false;
                    while i < n
                        invariant
                            *self is ImageFormat,
                            self->ImageFormat_0 == *formats,
                            *value is Image,
                            value->Image_0 == *img,
                            n == formats@.len(),
                            i <= n,
                            found == exists|j: int|
                                0 <= j < i && formats@[j] == img.metadata.format,
                        decreases n - i,
                    {
                        if formats[i] == img.metadata.format {
                            found = true;
                            i = n;
                        } else {
                            i = i + 1;
                        }
                    }
                    proof {
                        assert(found == formats@.contains(img.metadata.format));
                    }
                    if found {
                        true
                    } else {
                        false
                    }
                }
                _ => true,
            },
            _ => true,
        }
    }

    /// The alpha and sign constraints, with the option constraint in its
    /// own function.
    #[verifier::spinoff_prover]
    fn holds_misc(&self, value: &Value) -> (r: bool)
        requires
            self is ImageRequiresAlpha || self is Positive || self is NonNegative,
        ensures
            r == constraint_ok(*self, value@),
    {
        match self {
            Constraint::ImageRequiresAlpha => match value {
                Value::Image(img) => {
                    if img.metadata.has_alpha {
                        true
                    } else {
                        false
                    }
                }
                _ => true,
            },
            Constraint::Positive => {
                proof {
                    assert(f64_key(0) == 0) by {
                        assert((0u64 & 0x7fffffffffffffff) == 0u64) by (bit_vector);
                    }
                }
                let ok = match value {
                    Value::Float(b) => !f64_le(*b, 0),
                    Value::Integer(i) => *i > 0,
                    _ => true,
                };
                if ok {
                    true
                } else {
                    false
                }
            }
            Constraint::NonNegative => {
                proof {
                    assert(f64_key(0) == 0) by {
                        assert((0u64 & 0x7fffffffffffffff) == 0u64) by (bit_vector);
                    }
                }
                let ok = match value {
                    Value::Float(b) => f64_le(0, *b),
                    Value::Integer(i) => *i >= 0,
                    _ => true,
                };
                if ok {
                    true
                } else {
                    false
                }
            }            _ => true,
        }
    }

    /// The option constraint: the value must share a variant with one of
    /// the allowed options.
    #[verifier::rlimit(100)]
    fn holds_one_of(&self, value: &Value) -> (r: bool)
        requires
            self is OneOf,
        ensures
            r == constraint_ok(*self, value@),
    {
        match self {
            Constraint::OneOf(options) => {
                let n = options.len();
                let mut i: usize = 0;
                let mut found = false;
                while i < n
                    invariant
                        *self is OneOf,
                        self->OneOf_0 == *options,
                        n == options@.len(),
                        i <= n,
                        found == exists|j: int|
                            0 <= j < i && same_variant_spec(#[trigger] options@[j]@, value@),
                    decreases n - i,
                {
                    if options[i].same_variant(value) {
                        found = true;
                        i = n;
                    } else {
                        i = i + 1;
                    }
                }
                proof {
                    assert(found == constraint_ok(*self, value@));
                }
                found
            }
            _ => true,
        }
    }
}


} // verus!

verus! {

impl PortType {
    /// Whether a value may travel through a port of this type: any type
    /// takes anything, a float port takes an integer, and containers check
    /// their elements.
    pub fn matches(&self, value: &Value) -> (r: bool)
        decreases *self,
    {
        match (self, value) {
            (PortType::Any, _) => true,
            (PortType::Image, Value::Image(_)) => true,
            (PortType::Integer, Value::Integer(_)) => true,
            (PortType::Float, Value::Float(_)) => true,
            (PortType::Float, Value::Integer(_)) => true,
            (PortType::String, Value::String(_)) => true,
            (PortType::Boolean, Value::Boolean(_)) => true,
            (PortType::Color, Value::Color(_)) => true,
            (PortType::Vector2, Value::Vector2(_, _)) => true,
            (PortType::Vector3, Value::Vector3(_, _, _)) => true,
            (PortType::Array(inner), Value::Array(items)) => {
                let n = items.len();
                let mut i: usize = 0;
                let mut all = true;
                while i < n
                    invariant
                        *self is Array,
                        self->Array_0 == *inner,
                        n == items@.len(),
                        i <= n,
                    decreases n - i,
                {
                    proof {
                        assert(decreases_to!(*self => self->Array_0));
                    }
                    if !inner.matches(&items[i]) {
                        all = false;
                        i = n;
                    } else {
                        i = i + 1;
                    }
                }
                all
            }
            (PortType::Dict(inner), Value::Dict(m)) => {
                let n = m.entries.len();
                let mut i: usize = 0;
                let mut all = true;
                while i < n
                    invariant
                        *self is Dict,
                        self->Dict_0 == *inner,
                        n == m.entries@.len(),
                        i <= n,
                    decreases n - i,
                {
                    proof {
                        assert(decreases_to!(*self => self->Dict_0));
                    }
                    if !inner.matches(&m.entries[i].1) {
                        all = false;
                        i = n;
                    } else {
                        i = i + 1;
                    }
                }
                all
            }
            _ => false,
        }
    }
}

impl PortDefinition {
    /// Check a value against this port's type and constraints.
    pub fn validate(&self, value: &Value) -> (r: Result<(), String>)
        ensures
            r is Ok ==> forall|i: int|
                0 <= i < self.constraints@.len() ==> constraint_ok(
                    #[trigger] self.constraints@[i],
                    value@,
                ),
    {
        if !self.port_type.matches(value) {
            return Err("value does not match the port type".to_owned());
        }
        let n = self.constraints.len();
        let mut i: usize = 0;
        while i < n
            invariant
                n == self.constraints@.len(),
                i <= n,
                forall|j: int|
                    0 <= j < i ==> constraint_ok(#[trigger] self.constraints@[j], value@),
            decreases n - i,
        {
            match self.constraints[i].validate(value) {
                Ok(()) => {},
                Err(e) => {
                    return Err(e);
                }
            }
            i = i + 1;
        }
        Ok(())
    }
}

impl ParameterDefinition {
    /// Check a value against this parameter's type and constraints.
    pub fn validate(&self, value: &Value) -> (r: Result<(), String>)
        ensures
            r is Ok ==> forall|i: int|
                0 <= i < self.constraints@.len() ==> constraint_ok(
                    #[trigger] self.constraints@[i],
                    value@,
                ),
    {
        if !self.param_type.matches(value) {
            return Err("value does not match the parameter type".to_owned());
        }
        let n = self.constraints.len();
        let mut i: usize = 0;
        while i < n
            invariant
                n == self.constraints@.len(),
                i <= n,
                forall|j: int|
                    0 <= j < i ==> constraint_ok(#[trigger] self.constraints@[j], value@),
            decreases n - i,
        {
            match self.constraints[i].validate(value) {
                Ok(()) => {},
                Err(e) => {
                    return Err(e);
                }
            }
            i = i + 1;
        }
        Ok(())
    }
}

/// A filesystem oracle the resource stage consults; the library never
/// touches the filesystem itself.
pub trait ResourceProbe {
    /// Whether a path names an existing file.
    fn file_exists(&self, path: &str) -> (r: bool)
        ensures
            true,
    ;

    /// How many entries a glob pattern matches, or nothing when the pattern
    /// itself is invalid.
    fn glob_match_count(&self, pattern: &str) -> (r: Option<u64>)
        ensures
            true,
    ;

    /// Whether the parent directory of a path exists.
    fn parent_dir_exists(&self, path: &str) -> (r: bool)
        ensures
            true,
    ;
}

/// A required, defaultless input of a node left without an incoming
/// connection.
pub open spec fn missing_required(g: &ProcessingGraph, k: int, pi: int) -> bool {
    &&& 0 <= k < g.nodes@.len()
    &&& 0 <= pi < g.nodes@[k].metadata.inputs@.len()
    &&& !g.nodes@[k].metadata.inputs@[pi].optional
    &&& g.nodes@[k].metadata.inputs@[pi].default_value is None
    &&& !(exists|ci: int|
        0 <= ci < g.connections@.len() && (#[trigger] g.connections@[ci]).to.node_id
            == g.nodes@[k].id && g.connections@[ci].to.port_name@
            == g.nodes@[k].metadata.inputs@[pi].name@)
}

/// The effective value of a parameter: the node's override, or the declared
/// default.
pub open spec fn effective_param(g: &ProcessingGraph, k: int, pi: int) -> ValueView {
    match crate::values::lookup(
        g.nodes@[k].parameters@,
        g.nodes@[k].metadata.parameters@[pi].name@,
    ) {
        Option::Some(v) => v,
        Option::None => g.nodes@[k].metadata.parameters@[pi].default_value@,
    }
}

/// Every constraint of every parameter accepts its effective value.
pub open spec fn all_constraints_ok(g: &ProcessingGraph) -> bool {
    forall|k: int, pi: int, ci: int|
        0 <= k < g.nodes@.len() && 0 <= pi < g.nodes@[k].metadata.parameters@.len() && 0 <= ci
            < g.nodes@[k].metadata.parameters@[pi].constraints@.len() ==> constraint_ok(
            #[trigger] g.nodes@[k].metadata.parameters@[pi].constraints@[ci],
            effective_param(g, k, pi),
        )
}

/// Structural checks: cycles, required inputs, disabled nodes that feed
/// others, and the empty graph.
pub struct StructuralValidation;

impl StructuralValidation {
    /// Run the structural checks: an error for every required, defaultless
    /// input left unconnected; a warning for an empty graph or a disabled
    /// node with downstream connections.  A well-formed graph never has a
    /// cycle to report, so it fails exactly when some required input is
    /// missing.
    pub fn validate(&self, graph: &ProcessingGraph) -> (r: Result<
        Vec<ValidationWarning>,
        Vec<ValidationError>,
    >)
        requires
            graph.wf(),
        ensures
            match r {
                Ok(_) => !(exists|k: int, pi: int| missing_required(graph, k, pi)),
                Err(errors) => errors@.len() > 0 && (exists|k: int, pi: int|
                    missing_required(graph, k, pi)) && forall|e: int|
                    0 <= e < errors@.len() ==> (#[trigger] errors@[e]) is MissingRequiredInput,
            },
    {
        let mut warnings: Vec<ValidationWarning> = Vec::new();
        let mut errors: Vec<ValidationError> = Vec::new();
        if graph.is_empty() {
            warnings.push(
                ValidationWarning {
                    message: "graph is empty".to_owned(),
                    node_id: None,
                    suggestion: Some("add some filter nodes".to_owned()),
                },
            );
            return Ok(warnings);
        }
        let analyzer = TopologyAnalyzer::new(graph);
        if analyzer.has_cycle() {
            // a well-formed graph is acyclic, so this branch never runs
            proof {
                assert(false);
            }
            errors.push(ValidationError::CycleDetected);
        }
        let n = graph.nodes.len();
        let mut k: usize = 0;
        while k < n
            invariant
                graph.wf(),
                n == graph.nodes@.len(),
                k <= n,
                forall|e: int|
                    0 <= e < errors@.len() ==> (#[trigger] errors@[e]) is MissingRequiredInput,
                errors@.len() > 0 ==> exists|kk: int, pi: int| missing_required(graph, kk, pi),
                errors@.len() == 0 ==> forall|kk: int, pi: int|
                    0 <= kk < k ==> !missing_required(graph, kk, pi),
            decreases n - k,
        {
            let node = &graph.nodes[k];
            let pn = node.metadata.inputs.len();
            let mut pi: usize = 0;
            while pi < pn
                invariant
                    graph.wf(),
                    pn == node.metadata.inputs@.len(),
                    pi <= pn,
                    k < n,
                    n == graph.nodes@.len(),
                    node == &graph.nodes@[k as int],
                    forall|e: int|
                        0 <= e < errors@.len() ==> (#[trigger] errors@[e]) is MissingRequiredInput,
                    errors@.len() > 0 ==> exists|kk: int, pii: int|
                        missing_required(graph, kk, pii),
                    errors@.len() == 0 ==> forall|kk: int, pii: int|
                        0 <= kk < k ==> !missing_required(graph, kk, pii),
                    errors@.len() == 0 ==> forall|pii: int|
                        0 <= pii < pi ==> !missing_required(graph, k as int, pii),
                decreases pn - pi,
            {
                let ghost pre_errors = errors@;
                let input = &node.metadata.inputs[pi];
                if !input.optional && input.default_value.is_none() {
                    if !graph.is_input_connected(node.id, input.name.as_str()) {
                        proof {
                            assert(missing_required(graph, k as int, pi as int));
                        }
                        errors.push(
                            ValidationError::MissingRequiredInput {
                                node_id: node.id,
                                port: input.name.clone(),
                            },
                        );
                        proof {
                            assert(forall|e: int|
                                0 <= e < pre_errors.len() ==> errors@[e] == pre_errors[e]);
                        }
                    } else {
                        proof {
                            assert(!missing_required(graph, k as int, pi as int));
                        }
                    }
                } else {
                    proof {
                        assert(!missing_required(graph, k as int, pi as int));
                    }
                }
                pi = pi + 1;
            }
            if node.disabled {
                let cn = graph.connections.len();
                let mut ci: usize = 0;
                let mut has_downstream = false;
                while ci < cn
                    invariant
                        cn == graph.connections@.len(),
                        ci <= cn,
                        k < n,
                        n == graph.nodes@.len(),
                    decreases cn - ci,
                {
                    if graph.connections[ci].from.node_id.0 == node.id.0 {
                        has_downstream = true;
                        ci = cn;
                    } else {
                        ci = ci + 1;
                    }
                }
                if has_downstream {
                    warnings.push(
                        ValidationWarning {
                            message: "a disabled node has downstream connections".to_owned(),
                            node_id: Some(node.id),
                            suggestion: Some(
                                "downstream nodes may not receive expected inputs".to_owned(),
                            ),
                        },
                    );
                }
            }
            proof {
                if errors@.len() == 0 {
                    assert forall|kk: int, pii: int| 0 <= kk < k + 1 implies !missing_required(
                        graph,
                        kk,
                        pii,
                    ) by {
                        if kk == k {
                            if 0 <= pii < graph.nodes@[kk].metadata.inputs@.len() {
                                assert(!missing_required(graph, kk, pii));
                            }
                        }
                    }
                }
            }
            k = k + 1;
        }
        let subgraphs = analyzer.find_subgraphs();
        if subgraphs.len() > 1 {
            warnings.push(
                ValidationWarning {
                    message: "graph contains disconnected subgraphs".to_owned(),
                    node_id: None,
                    suggestion: Some(
                        "consider connecting all parts or removing unused nodes".to_owned(),
                    ),
                },
            );
        }
        if errors.len() == 0 {
            proof {
                assert forall|kk: int, pii: int| !missing_required(graph, kk, pii) by {
                    if 0 <= kk < n {
                        assert(!missing_required(graph, kk, pii));
                    }
                }
            }
            Ok(warnings)
        } else {
            Err(errors)
        }
    }
}

/// Type checks: every connection's source type must be compatible with its
/// target type.
pub struct TypeValidation;

impl TypeValidation {
    /// Recheck every connection's types.  On a well-formed graph this never
    /// finds an error, which is exactly what well-formedness means.
    pub fn validate(&self, graph: &ProcessingGraph) -> (r: Result<
        Vec<ValidationWarning>,
        Vec<ValidationError>,
    >)
        requires
            graph.wf(),
        ensures
            r is Ok,
    {
        let warnings: Vec<ValidationWarning> = Vec::new();
        let cn = graph.connections.len();
        let mut ci: usize = 0;
        while ci < cn
            invariant
                graph.wf(),
                cn == graph.connections@.len(),
                ci <= cn,
            decreases cn - ci,
        {
            proof {
                assert(crate::graph::conn_endpoints_ok(
                    graph.nodes@,
                    graph.connections@[ci as int],
                ));
            }
            ci = ci + 1;
        }
        Ok(warnings)
    }
}

/// Constraint checks: every parameter's effective value must satisfy its
/// declared constraints.
pub struct ConstraintValidation;

impl ConstraintValidation {
    /// Check every parameter's effective value, override or default,
    /// against its type and constraints.  When the stage passes, every
    /// declared constraint accepts its parameter's effective value.
    pub fn validate(&self, graph: &ProcessingGraph) -> (r: Result<
        Vec<ValidationWarning>,
        Vec<ValidationError>,
    >)
        ensures
            match r {
                Ok(_) => all_constraints_ok(graph),
                Err(errors) => errors@.len() > 0 && forall|e: int|
                    0 <= e < errors@.len() ==> (#[trigger] errors@[e]) is ConstraintViolation,
            },
    {
        let mut errors: Vec<ValidationError> = Vec::new();
        let n = graph.nodes.len();
        let mut k: usize = 0;
        while k < n
            invariant
                n == graph.nodes@.len(),
                k <= n,
                forall|e: int|
                    0 <= e < errors@.len() ==> (#[trigger] errors@[e]) is ConstraintViolation,
                errors@.len() == 0 ==> forall|kk: int, pii: int, ci: int|
                    0 <= kk < k && 0 <= pii < graph.nodes@[kk].metadata.parameters@.len() && 0
                        <= ci < graph.nodes@[kk].metadata.parameters@[pii].constraints@.len()
                        ==> constraint_ok(
                        #[trigger] graph.nodes@[kk].metadata.parameters@[pii].constraints@[ci],
                        effective_param(graph, kk, pii),
                    ),
            decreases n - k,
        {
            let node = &graph.nodes[k];
            let pn = node.metadata.parameters.len();
            let mut pi: usize = 0;
            while pi < pn
                invariant
                    pn == node.metadata.parameters@.len(),
                    pi <= pn,
                    k < n,
                    n == graph.nodes@.len(),
                    node == &graph.nodes@[k as int],
                    forall|e: int|
                        0 <= e < errors@.len() ==> (#[trigger] errors@[e]) is ConstraintViolation,
                    errors@.len() == 0 ==> forall|kk: int, pii: int, ci: int|
                        0 <= kk < k && 0 <= pii < graph.nodes@[kk].metadata.parameters@.len() && 0
                            <= ci < graph.nodes@[kk].metadata.parameters@[pii].constraints@.len()
                            ==> constraint_ok(
                            #[trigger] graph.nodes@[kk].metadata.parameters@[pii].constraints@[ci],
                            effective_param(graph, kk, pii),
                        ),
                    errors@.len() == 0 ==> forall|pii: int, ci: int|
                        0 <= pii < pi && 0 <= ci
                            < graph.nodes@[k as int].metadata.parameters@[pii].constraints@.len()
                            ==> constraint_ok(
                            #[trigger] graph.nodes@[
                                k as int
                            ].metadata.parameters@[pii].constraints@[ci],
                            effective_param(graph, k as int, pii),
                        ),
                decreases pn - pi,
            {
                let ghost pre_errors = errors@;
                let param = &node.metadata.parameters[pi];
                let value = match node.parameters.get(param.name.as_str()) {
                    Some(v) => v.duplicate(),
                    None => param.default_value.duplicate(),
                };
                proof {
                    assert(value@ == effective_param(graph, k as int, pi as int));
                }
                match param.validate(&value) {
                    Ok(()) => {},
                    Err(error) => {
                        errors.push(
                            ValidationError::ConstraintViolation {
                                node_id: node.id,
                                parameter: param.name.clone(),
                                error,
                            },
                        );
                        proof {
                            assert(forall|e: int|
                                0 <= e < pre_errors.len() ==> errors@[e] == pre_errors[e]);
                        }
                    }
                }
                pi = pi + 1;
            }
            k = k + 1;
        }
        if errors.len() == 0 {
            Ok(Vec::new())
        } else {
            Err(errors)
        }
    }
}

/// Custom checks: each enabled node's own validation pass, over placeholder
/// inputs and real parameter values.
pub struct CustomValidation;

/// A placeholder value of a port type, for validating without real data: a
/// typed zero for numbers, a nominal screen-sized image, and empty
/// containers.
pub fn create_placeholder(port_type: &PortType) -> (r: Value)
    decreases *port_type,
{
    match port_type {
        PortType::Image => {
            let metadata = crate::values::ImageMetadata {
                width: 1920,
                height: 1080,
                format: ImageFormat::Png,
                has_alpha: true,
            };
            Value::Image(crate::values::ImageValue::from_metadata(metadata, String::new()))
        }
        PortType::Integer => Value::Integer(0),
        PortType::Float => Value::Float(0),
        PortType::String => Value::String(String::new()),
        PortType::Boolean => Value::Boolean(false),
        PortType::Color => Value::Color(crate::values::Color::rgb(0, 0, 0)),
        PortType::Vector2 => Value::Vector2(0, 0),
        PortType::Vector3 => Value::Vector3(0, 0, 0),
        PortType::Array(inner) => {
            let mut items: Vec<Value> = Vec::new();
            items.push(create_placeholder(inner));
            Value::Array(items)
        }
        PortType::Dict(_) => Value::Dict(crate::values::ValueMap::new()),
        PortType::Any => Value::Null,
    }
}

impl CustomValidation {
    /// Run each enabled node's own validation, with placeholder values for
    /// its connected inputs and its effective parameter values.
    pub fn validate(&self, graph: &ProcessingGraph) -> (r: Result<
        Vec<ValidationWarning>,
        Vec<ValidationError>,
    >)
        requires
            graph.wf(),
        ensures
            r matches Err(errors) ==> errors@.len() > 0,
    {
        let mut errors: Vec<ValidationError> = Vec::new();
        let n = graph.nodes.len();
        let mut k: usize = 0;
        while k < n
            invariant
                graph.wf(),
                n == graph.nodes@.len(),
                k <= n,
            decreases n - k,
        {
            let node = &graph.nodes[k];
            if !node.disabled {
                let mut ctx = ValidationContext::new(node.id);
                // placeholder values for each connected input
                let cn = graph.connections.len();
                let mut ci: usize = 0;
                while ci < cn
                    invariant
                        graph.wf(),
                        cn == graph.connections@.len(),
                        ci <= cn,
                        k < n,
                        n == graph.nodes@.len(),
                    decreases cn - ci,
                {
                    let conn = &graph.connections[ci];
                    if conn.to.node_id.0 == node.id.0 {
                        match graph.get_node(conn.from.node_id) {
                            Ok(from_node) => {
                                match from_node.metadata.get_output(conn.from.port_name.as_str()) {
                                    Some(port) => {
                                        let placeholder = create_placeholder(&port.port_type);
                                        ctx.add_input(conn.to.port_name.clone(), placeholder);
                                    }
                                    None => {},
                                }
                            }
                            Err(_) => {},
                        }
                    }
                    ci = ci + 1;
                }
                // real parameter values
                let pn = node.metadata.parameters.len();
                let mut pi: usize = 0;
                while pi < pn
                    invariant
                        pn == node.metadata.parameters@.len(),
                        pi <= pn,
                        k < n,
                        n == graph.nodes@.len(),
                    decreases pn - pi,
                {
                    let param = &node.metadata.parameters[pi];
                    let value = match node.parameters.get(param.name.as_str()) {
                        Some(v) => v.duplicate(),
                        None => param.default_value.duplicate(),
                    };
                    ctx.add_parameter(param.name.clone(), value);
                    pi = pi + 1;
                }
                match node.filter.validate(&ctx) {
                    Ok(()) => {},
                    Err(error) => {
                        errors.push(error);
                    }
                }
            }
            k = k + 1;
        }
        if errors.len() == 0 {
            Ok(Vec::new())
        } else {
            Err(errors)
        }
    }
}

/// Resource checks: file and pattern parameters of load-style nodes must
/// resolve, and a save-style node whose target directory is missing gets a
/// warning.
pub struct ResourceValidation;

impl ResourceValidation {
    /// Check the path-like parameters of every enabled node against the
    /// given filesystem oracle.
    pub fn validate_with<P: ResourceProbe>(&self, graph: &ProcessingGraph, probe: &P) -> (r:
        Result<Vec<ValidationWarning>, Vec<ValidationError>>)
        ensures
            r matches Err(errors) ==> errors@.len() > 0,
    {
        let mut errors: Vec<ValidationError> = Vec::new();
        let mut warnings: Vec<ValidationWarning> = Vec::new();
        let n = graph.nodes.len();
        let mut k: usize = 0;
        while k < n
            invariant
                n == graph.nodes@.len(),
                k <= n,
            decreases n - k,
        {
            let node = &graph.nodes[k];
            if !node.disabled {
                let pn = node.metadata.parameters.len();
                let mut pi: usize = 0;
                while pi < pn
                    invariant
                        pn == node.metadata.parameters@.len(),
                        pi <= pn,
                        k < n,
                        n == graph.nodes@.len(),
                    decreases pn - pi,
                {
                    let param = &node.metadata.parameters[pi];
                    let is_pathy = find_bytes(param.name.as_str().as_bytes(), "path".as_bytes())
                        || find_bytes(param.name.as_str().as_bytes(), "file".as_bytes());
                    if is_pathy {
                        match node.parameters.get(param.name.as_str()) {
                            Some(value) => match value.as_string() {
                                Some(path) => {
                                    let is_load = find_bytes(
                                        node.metadata.id.as_str().as_bytes(),
                                        "load".as_bytes(),
                                    ) || find_bytes(
                                        node.metadata.id.as_str().as_bytes(),
                                        "input".as_bytes(),
                                    );
                                    let is_save = find_bytes(
                                        node.metadata.id.as_str().as_bytes(),
                                        "save".as_bytes(),
                                    ) || find_bytes(
                                        node.metadata.id.as_str().as_bytes(),
                                        "output".as_bytes(),
                                    );
                                    if is_load && !probe.file_exists(path.as_str()) {
                                        let is_glob = find_bytes(
                                            path.as_str().as_bytes(),
                                            "*".as_bytes(),
                                        ) || find_bytes(path.as_str().as_bytes(), "?".as_bytes());
                                        if is_glob {
                                            match probe.glob_match_count(path.as_str()) {
                                                Some(count) => {
                                                    if count == 0 {
                                                        errors.push(
                                                            ValidationError::ResourceNotFound {
                                                                node_id: node.id,
                                                                resource: path.clone(),
                                                            },
                                                        );
                                                    }
                                                }
                                                None => {
                                                    warnings.push(
                                                        ValidationWarning {
                                                            message:
                                                                "could not evaluate a glob pattern".to_owned(),
                                                            node_id: Some(node.id),
                                                            suggestion: None,
                                                        },
                                                    );
                                                }
                                            }
                                        } else {
                                            errors.push(
                                                ValidationError::ResourceNotFound {
                                                    node_id: node.id,
                                                    resource: path.clone(),
                                                },
                                            );
                                        }
                                    }
                                    if is_save && !probe.parent_dir_exists(path.as_str()) {
                                        warnings.push(
                                            ValidationWarning {
                                                message: "output directory does not exist".to_owned(),
                                                node_id: Some(node.id),
                                                suggestion: Some(
                                                    "the directory will be created on execution".to_owned(),
                                                ),
                                            },
                                        );
                                    }
                                }
                                None => {},
                            },
                            None => {},
                        }
                    }
                    pi = pi + 1;
                }
            }
            k = k + 1;
        }
        if errors.len() == 0 {
            Ok(warnings)
        } else {
            Err(errors)
        }
    }
}

/// The fixed, ordered validation pipeline.  The resource stage consults the
/// filesystem and so runs only when an oracle is supplied.
pub struct ValidationPipeline {
    /// Whether the constraint stage runs.
    pub run_constraints: bool,
    /// Whether each filter's own validation runs.
    pub run_custom: bool,
}

impl ValidationPipeline {
    /// All stages that need no filesystem.
    pub fn default_pipeline() -> (r: Self)
        ensures
            r.run_constraints,
            r.run_custom,
    {
        ValidationPipeline { run_constraints: true, run_custom: true }
    }

    /// Structural and type checks only.
    pub fn minimal_pipeline() -> (r: Self)
        ensures
            !r.run_constraints,
            !r.run_custom,
    {
        ValidationPipeline { run_constraints: false, run_custom: false }
    }

    /// Run the stages in their fixed order, stopping at the first fatal
    /// error; each stage's findings accumulate in the report.  The report is
    /// a success exactly when no stage recorded an error; a successful
    /// report certifies that no required input is missing and, when the
    /// constraint stage ran, that every constraint accepts its parameter's
    /// effective value.
    pub fn validate(&self, graph: &ProcessingGraph) -> (r: ValidationReport)
        requires
            graph.wf(),
        ensures
            r.success <==> r.errors@.len() == 0,
            r.success ==> !(exists|k: int, pi: int| missing_required(graph, k, pi)),
            r.success && self.run_constraints ==> all_constraints_ok(graph),
    {
        let start = crate::progress::now_millis();
        let mut report = ValidationReport::new();
        let structural = StructuralValidation;
        match structural.validate(graph) {
            Ok(warnings) => {
                let mut ws = warnings;
                while ws.len() > 0
                    invariant
                        report.success <==> report.errors@.len() == 0,
                        report.success,
                    decreases ws@.len(),
                {
                    let w = ws.remove(0);
                    report.add_warning(w);
                }
            }
            Err(errors) => {
                let mut es = errors;
                let ghost init_len = es@.len();
                let mut fatal = false;
                while es.len() > 0
                    invariant
                        report.success <==> report.errors@.len() == 0,
                        init_len > 0,
                        report.success ==> es@.len() == init_len,
                    decreases es@.len(),
                {
                    let e = es.remove(0);
                    if e.is_fatal() {
                        fatal = true;
                    }
                    report.add_error(e);
                }
                proof {
                    assert(!report.success);
                }
                if fatal {
                    let end = crate::progress::now_millis();
                    report.duration_ms = if end >= start {
                        end - start
                    } else {
                        0
                    };
                    return report;
                }
            }
        }
        proof {
            assert(report.success ==> !(exists|k: int, pi: int| missing_required(graph, k, pi)));
        }
        let types = TypeValidation;
        match types.validate(graph) {
            Ok(_) => {},
            Err(_) => {},
        }
        if self.run_constraints {
            let constraints = ConstraintValidation;
            match constraints.validate(graph) {
                Ok(_) => {},
                Err(errors) => {
                    let mut es = errors;
                    let ghost init_len = es@.len();
                    while es.len() > 0
                        invariant
                            report.success <==> report.errors@.len() == 0,
                            init_len > 0,
                            report.success ==> es@.len() == init_len,
                            report.success ==> !(exists|k: int, pi: int|
                                missing_required(graph, k, pi)),
                        decreases es@.len(),
                    {
                        let e = es.remove(0);
                        report.add_error(e);
                    }
                    proof {
                        assert(!report.success);
                    }
                }
            }
        }
        proof {
            assert(report.success && self.run_constraints ==> all_constraints_ok(graph));
        }
        if self.run_custom {
            let custom = CustomValidation;
            match custom.validate(graph) {
                Ok(_) => {},
                Err(errors) => {
                    let mut es = errors;
                    let ghost init_len = es@.len();
                    while es.len() > 0
                        invariant
                            report.success <==> report.errors@.len() == 0,
                            init_len > 0,
                            report.success ==> es@.len() == init_len,
                            report.success ==> !(exists|k: int, pi: int|
                                missing_required(graph, k, pi)),
                            report.success && self.run_constraints ==> all_constraints_ok(graph),
                        decreases es@.len(),
                    {
                        let e = es.remove(0);
                        report.add_error(e);
                    }
                    proof {
                        assert(!report.success);
                    }
                }
            }
        }
        let end = crate::progress::now_millis();
        report.duration_ms = if end >= start {
            end - start
        } else {
            0
        };
        report
    }

    /// Run every stage including the resource checks, against the given
    /// filesystem oracle.
    pub fn validate_with_probe<P: ResourceProbe>(
        &self,
        graph: &ProcessingGraph,
        probe: &P,
    ) -> (r: ValidationReport)
        requires
            graph.wf(),
        ensures
            r.success <==> r.errors@.len() == 0,
            r.success ==> !(exists|k: int, pi: int| missing_required(graph, k, pi)),
            r.success && self.run_constraints ==> all_constraints_ok(graph),
    {
        let mut report = self.validate(graph);
        if !report.success {
            return report;
        }
        let resource = ResourceValidation;
        match resource.validate_with(graph, probe) {
            Ok(warnings) => {
                let mut ws = warnings;
                while ws.len() > 0
                    invariant
                        report.success <==> report.errors@.len() == 0,
                        report.success ==> !(exists|k: int, pi: int|
                            missing_required(graph, k, pi)),
                        report.success && self.run_constraints ==> all_constraints_ok(graph),
                    decreases ws@.len(),
                {
                    let w = ws.remove(0);
                    report.add_warning(w);
                }
            }
            Err(errors) => {
                let mut es = errors;
                let ghost init_len = es@.len();
                while es.len() > 0
                    invariant
                        report.success <==> report.errors@.len() == 0,
                        init_len > 0,
                        report.success ==> es@.len() == init_len,
                    decreases es@.len(),
                {
                    let e = es.remove(0);
                    report.add_error(e);
                }
                proof {
                    assert(!report.success);
                }
            }
        }
        report
    }

    /// Whether the graph can be executed as judged by the default stages.
    pub fn can_execute(&self, graph: &ProcessingGraph) -> (r: bool)
        requires
            graph.wf(),
        ensures
            r ==> !(exists|k: int, pi: int| missing_required(graph, k, pi)),
            r && self.run_constraints ==> all_constraints_ok(graph),
    {
        let report = self.validate(graph);
        report.success
    }
}

impl Default for ValidationPipeline {
    /// All filesystem-free stages.
    fn default() -> (r: Self)
        ensures
            r.run_constraints,
            r.run_custom,
    {
        ValidationPipeline::default_pipeline()
    }
}

} // verus!

verus! {

impl Constraint {
    /// Check a value against this constraint, with a message on failure.
    pub fn validate(&self, value: &Value) -> (r: Result<(), String>)
        ensures
            r is Ok <==> constraint_ok(*self, value@),
    {
        if self.holds_for(value) {
            Ok(())
        } else {
            Err(self.description())
        }
    }

    /// A human-readable description of this constraint.
    pub fn description(&self) -> (r: String)
        ensures
            match *self {
                Constraint::Range { .. } => r@ == "Must lie in the allowed range"@,
                Constraint::MinValue(_) => r@ == "Must be at least the minimum"@,
                Constraint::MaxValue(_) => r@ == "Must be at most the maximum"@,
                Constraint::Step(_) => r@ == "Must be a whole multiple of the step"@,
                Constraint::MinLength(n) => r@ == "Minimum length: "@ + dec_str(n as nat),
                Constraint::MaxLength(n) => r@ == "Maximum length: "@ + dec_str(n as nat),
                Constraint::Pattern(p) => r@ == "Must match pattern: "@ + p@,
                Constraint::NotEmpty => r@ == "Cannot be empty"@,
                Constraint::ImageMinDimensions { width, height } => r@ == "Minimum dimensions: "@
                    + dec_str(width as nat) + "x"@ + dec_str(height as nat),
                Constraint::ImageMaxDimensions { width, height } => r@ == "Maximum dimensions: "@
                    + dec_str(width as nat) + "x"@ + dec_str(height as nat),
                Constraint::ImageAspectRatio { .. } => r@
                    == "Aspect ratio is out of tolerance"@,
                Constraint::ImageFormat(_) => r@ == "Image format is not allowed"@,
                Constraint::ImageRequiresAlpha => r@ == "Must have alpha channel"@,
                Constraint::OneOf(options) => r@ == "One of "@ + dec_str(options@.len() as nat)
                    + " options"@,
                Constraint::Positive => r@ == "Must be positive"@,
                Constraint::NonNegative => r@ == "Must be non-negative"@,
            },
    {
        match self {
            Constraint::Range { .. } => "Must lie in the allowed range".to_owned(),
            Constraint::MinValue(_) => "Must be at least the minimum".to_owned(),
            Constraint::MaxValue(_) => "Must be at most the maximum".to_owned(),
            Constraint::Step(_) => "Must be a whole multiple of the step".to_owned(),
            Constraint::MinLength(n) => {
                let d = u64_dec(*n as u64);
                let s = str_concat("Minimum length: ", d.as_str());
                proof {
                    assert(s@ =~= "Minimum length: "@ + dec_str(self->MinLength_0 as nat));
                }
                s
            }
            Constraint::MaxLength(n) => {
                let d = u64_dec(*n as u64);
                let s = str_concat("Maximum length: ", d.as_str());
                proof {
                    assert(s@ =~= "Maximum length: "@ + dec_str(self->MaxLength_0 as nat));
                }
                s
            }
            Constraint::Pattern(p) => {
                let s = str_concat("Must match pattern: ", p.as_str());
                proof {
                    assert(s@ =~= "Must match pattern: "@ + self->Pattern_0@);
                }
                s
            }
            Constraint::NotEmpty => "Cannot be empty".to_owned(),
            Constraint::ImageMinDimensions { width, height } => {
                let w = u64_dec(*width as u64);
                let h = u64_dec(*height as u64);
                let s = str_concat("Minimum dimensions: ", w.as_str());
                let s = str_concat(s.as_str(), "x");
                let s = str_concat(s.as_str(), h.as_str());
                proof {
                    assert(s@ =~= "Minimum dimensions: "@ + dec_str(
                        self->ImageMinDimensions_width as nat,
                    ) + "x"@ + dec_str(self->ImageMinDimensions_height as nat));
                }
                s
            }
            Constraint::ImageMaxDimensions { width, height } => {
                let w = u64_dec(*width as u64);
                let h = u64_dec(*height as u64);
                let s = str_concat("Maximum dimensions: ", w.as_str());
                let s = str_concat(s.as_str(), "x");
                let s = str_concat(s.as_str(), h.as_str());
                proof {
                    assert(s@ =~= "Maximum dimensions: "@ + dec_str(
                        self->ImageMaxDimensions_width as nat,
                    ) + "x"@ + dec_str(self->ImageMaxDimensions_height as nat));
                }
                s
            }
            Constraint::ImageAspectRatio { .. } => "Aspect ratio is out of tolerance".to_owned(),
            Constraint::ImageFormat(_) => "Image format is not allowed".to_owned(),
            Constraint::ImageRequiresAlpha => "Must have alpha channel".to_owned(),
            Constraint::OneOf(options) => {
                let d = u64_dec(options.len() as u64);
                let s = str_concat("One of ", d.as_str());
                let s = str_concat(s.as_str(), " options");
                proof {
                    assert(s@ =~= "One of "@ + dec_str(self->OneOf_0@.len() as nat) + " options"@);
                }
                s
            }
            Constraint::Positive => "Must be positive".to_owned(),
            Constraint::NonNegative => "Must be non-negative".to_owned(),
        }
    }
}

} // verus!
