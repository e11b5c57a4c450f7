//! The vertical stack of thermal layers and the configuration it is built
//! from.

use vstd::prelude::*;
use crate::error::Error;
use crate::geometry::MAX_LENGTH;

verus! {

/// The largest conductivity, specific heat and convection coefficient.
pub const MAX_COEFFICIENT: i64 = 10_000_000_000;

/// The thickness and the thermal properties of a slab of material.
#[derive(Clone, Copy, Debug, PartialEq, Eq, Structural)]
pub struct Material {
    /// The thickness of the slab.
    pub thickness: i64,
    /// The thermal conductivity.
    pub conductivity: i64,
    /// The volumetric specific heat.
    pub specific_heat: i64,
}

/// A uniform plate: a slab of material with its lateral extents.
#[derive(Clone, Copy, Debug, PartialEq, Eq, Structural)]
pub struct Plate {
    /// What the plate is made of, and how thick it is.
    pub material: Material,
    /// The extent along x.
    pub width: i64,
    /// The extent along y.
    pub height: i64,
}

/// The thermal and material parameters of a package. A part that is `None`
/// is absent.
#[derive(Clone, Copy, Debug, PartialEq, Eq, Structural)]
pub struct Config {
    /// The silicon die. It is required.
    pub die: Option<Material>,
    /// The interface material between the die and what lies above it.
    pub interface: Option<Plate>,
    /// The heat spreader.
    pub spreader: Option<Plate>,
    /// The heat sink.
    pub sink: Option<Plate>,
    /// The convection coefficient between the last layer and the ambient.
    /// It is required.
    pub convection: Option<i64>,
    /// The convection coefficient of the secondary cooling path, between the
    /// die and the ambient.
    pub secondary_convection: Option<i64>,
}

/// One horizontal slab of the stack.
#[derive(Clone, Copy, Debug, PartialEq, Eq, Structural)]
pub struct Layer {
    /// The thickness of the slab.
    pub thickness: i64,
    /// The thermal conductivity.
    pub conductivity: i64,
    /// The volumetric specific heat.
    pub specific_heat: i64,
    /// Whether the layer is divided into the blocks of the floorplan. A layer
    /// that is not is a single uniform plate.
    pub partitioned: bool,
    /// The extent of a uniform plate along x; zero for a partitioned layer.
    pub width: i64,
    /// The extent of a uniform plate along y; zero for a partitioned layer.
    pub height: i64,
}

/// The model of a layer stack: the layers from the die up, and the two
/// convection coefficients. A secondary coefficient of zero stands for no
/// secondary path.
pub struct Stack {
    pub layers: Seq<Layer>,
    pub convection: int,
    pub secondary_convection: int,
}

/// A material has positive, representable properties.
pub open spec fn material_valid(m: Material) -> bool {
    &&& 0 < m.thickness <= MAX_LENGTH
    &&& 0 < m.conductivity <= MAX_COEFFICIENT
    &&& 0 < m.specific_heat <= MAX_COEFFICIENT
}

/// A plate has a valid material and positive, representable extents.
pub open spec fn plate_valid(p: Plate) -> bool {
    &&& material_valid(p.material)
    &&& 0 < p.width <= MAX_LENGTH
    &&& 0 < p.height <= MAX_LENGTH
}

/// A layer has positive, representable properties, and extents exactly when
/// it is a uniform plate.
pub open spec fn layer_valid(l: Layer) -> bool {
    &&& 0 < l.thickness <= MAX_LENGTH
    &&& 0 < l.conductivity <= MAX_COEFFICIENT
    &&& 0 < l.specific_heat <= MAX_COEFFICIENT
    &&& l.partitioned ==> l.width == 0 && l.height == 0
    &&& !l.partitioned ==> 0 < l.width <= MAX_LENGTH && 0 < l.height <= MAX_LENGTH
}

/// The layer that a die of the given material forms.
pub open spec fn die_layer(m: Material) -> Layer {
    Layer {
        thickness: m.thickness,
        conductivity: m.conductivity,
        specific_heat: m.specific_heat,
        partitioned: true,
        width: 0,
        height: 0,
    }
}

/// The layer that a uniform plate forms.
pub open spec fn plate_layer(p: Plate) -> Layer {
    Layer {
        thickness: p.material.thickness,
        conductivity: p.material.conductivity,
        specific_heat: p.material.specific_heat,
        partitioned: false,
        width: p.width,
        height: p.height,
    }
}

/// No layer, or the one layer that an optional plate forms.
pub open spec fn optional_layer(p: Option<Plate>) -> Seq<Layer> {
    match p {
        Some(p) => seq![plate_layer(p)],
        None => Seq::empty(),
    }
}

/// An optional plate is absent or valid.
pub open spec fn optional_plate_valid(p: Option<Plate>) -> bool {
    match p {
        Some(p) => plate_valid(p),
        None => true,
    }
}

/// The configuration names a valid die and a valid convection coefficient,
/// and whatever else it names is valid.
pub open spec fn config_valid(c: Config) -> bool {
    &&& c.die matches Some(m) && material_valid(m)
    &&& optional_plate_valid(c.interface)
    &&& optional_plate_valid(c.spreader)
    &&& optional_plate_valid(c.sink)
    &&& c.convection matches Some(h) && 0 < h <= MAX_COEFFICIENT
    &&& c.secondary_convection matches Some(h) ==> 0 < h <= MAX_COEFFICIENT
}

/// The stack that a configuration describes: the die, then the interface
/// material, the spreader and the sink, as far as they are present.
pub open spec fn stack_of(c: Config) -> Stack {
    Stack {
        layers: seq![die_layer(c.die.unwrap())] + optional_layer(c.interface) + optional_layer(
            c.spreader,
        ) + optional_layer(c.sink),
        convection: c.convection.unwrap() as int,
        secondary_convection: match c.secondary_convection {
            Some(h) => h as int,
            None => 0,
        },
    }
}

/// The stack begins with a partitioned layer, every layer is valid, the
/// convection coefficient is positive and the secondary one is not negative.
pub open spec fn stack_valid(s: Stack) -> bool {
    &&& s.layers.len() >= 1
    &&& s.layers[0].partitioned
    &&& forall|i: int| 0 <= i < s.layers.len() ==> layer_valid(#[trigger] s.layers[i])
    &&& 0 < s.convection <= MAX_COEFFICIENT
    &&& 0 <= s.secondary_convection <= MAX_COEFFICIENT
}

/// The stack of a valid configuration is valid.
pub proof fn lemma_stack_of_valid(c: Config)
    requires
        config_valid(c),
    ensures
        stack_valid(stack_of(c)),
        1 <= stack_of(c).layers.len() <= 4,
{
}

impl Material {
    /// Tells whether the material is valid.
    pub fn is_valid(&self) -> (r: bool)
        ensures
            r == material_valid(*self),
    {
        0 < self.thickness && self.thickness <= MAX_LENGTH && 0 < self.conductivity
            && self.conductivity <= MAX_COEFFICIENT && 0 < self.specific_heat && self.specific_heat
            <= MAX_COEFFICIENT
    }
}

impl Plate {
    /// Tells whether the plate is valid.
    pub fn is_valid(&self) -> (r: bool)
        ensures
            r == plate_valid(*self),
    {
        self.material.is_valid() && 0 < self.width && self.width <= MAX_LENGTH && 0 < self.height
            && self.height <= MAX_LENGTH
    }

    /// The layer that the plate forms.
    pub fn layer(&self) -> (l: Layer)
        ensures
            l == plate_layer(*self),
    {
        Layer {
            thickness: self.material.thickness,
            conductivity: self.material.conductivity,
            specific_heat: self.material.specific_heat,
            partitioned: false,
            width: self.width,
            height: self.height,
        }
    }
}

impl Layer {
    /// Tells whether the layer is valid.
    pub fn is_valid(&self) -> (r: bool)
        ensures
            r == layer_valid(*self),
    {
        let material = 0 < self.thickness && self.thickness <= MAX_LENGTH && 0 < self.conductivity
            && self.conductivity <= MAX_COEFFICIENT && 0 < self.specific_heat && self.specific_heat
            <= MAX_COEFFICIENT;
        let extents = if self.partitioned {
            self.width == 0 && self.height == 0
        } else {
            0 < self.width && self.width <= MAX_LENGTH && 0 < self.height && self.height
                <= MAX_LENGTH
        };
        material && extents
    }
}

impl Config {
    /// A configuration that names nothing.
    pub fn empty() -> (c: Config)
        ensures
            c == (Config {
                die: None,
                interface: None,
                spreader: None,
                sink: None,
                convection: None,
                secondary_convection: None,
            }),
    {
        Config {
            die: None,
            interface: None,
            spreader: None,
            sink: None,
            convection: None,
            secondary_convection: None,
        }
    }

    /// Tells whether the configuration is valid.
    pub fn is_valid(&self) -> (r: bool)
        ensures
            r == config_valid(*self),
    {
        let die = match self.die {
            Some(m) => m.is_valid(),
            None => false,
        };
        let interface = match self.interface {
            Some(p) => p.is_valid(),
            None => true,
        };
        let spreader = match self.spreader {
            Some(p) => p.is_valid(),
            None => true,
        };
        let sink = match self.sink {
            Some(p) => p.is_valid(),
            None => true,
        };
        let convection = match self.convection {
            Some(h) => 0 < h && h <= MAX_COEFFICIENT,
            None => false,
        };
        let secondary = match self.secondary_convection {
            Some(h) => 0 < h && h <= MAX_COEFFICIENT,
            None => true,
        };
        die && interface && spreader && sink && convection && secondary
    }
}

/// A validated layer stack, ordered from the die towards the ambient.
#[derive(Debug)]
pub struct LayerStack {
    layers: Vec<Layer>,
    convection: i64,
    secondary_convection: i64,
}

impl LayerStack {
    /// The model of the stack.
    pub closed spec fn view(&self) -> Stack {
        Stack {
            layers: self.layers@,
            convection: self.convection as int,
            secondary_convection: self.secondary_convection as int,
        }
    }

    /// The stack is valid, and its layers can be counted.
    pub open spec fn wf(&self) -> bool {
        stack_valid(self@) && self@.layers.len() <= usize::MAX
    }

    /// Accepts the layers, given from the die up, and the two convection
    /// coefficients as a stack if they form a valid one. A secondary
    /// coefficient of zero stands for no secondary path.
    pub fn new(layers: Vec<Layer>, convection: i64, secondary_convection: i64) -> (r: Result<
        LayerStack,
        Error,
    >)
        ensures
            match r {
                Ok(s) => s.wf() && s@ == (Stack {
                    layers: layers@,
                    convection: convection as int,
                    secondary_convection: secondary_convection as int,
                }),
                Err(e) => e == Error::ConfigError,
            },
            r is Ok <==> stack_valid(
                Stack {
                    layers: layers@,
                    convection: convection as int,
                    secondary_convection: secondary_convection as int,
                },
            ),
    {
        if layers.len() == 0 || !layers[0].partitioned {
            return Err(Error::ConfigError);
        }
        if convection <= 0 || convection > MAX_COEFFICIENT || secondary_convection < 0
            || secondary_convection > MAX_COEFFICIENT {
            return Err(Error::ConfigError);
        }
        let n: usize = layers.len();
        let mut i: usize = 0;
        while i < n
            invariant
                n == layers.len(),
                i <= n,
                forall|k: int| 0 <= k < i ==> layer_valid(#[trigger] layers@[k]),
            decreases n - i,
        {
            if !layers[i].is_valid() {
                return Err(Error::ConfigError);
            }
            i += 1;
        }
        Ok(LayerStack { layers, convection, secondary_convection })
    }

    /// Builds the stack that a configuration describes: the die, which is
    /// partitioned by the floorplan, then the interface material, the
    /// spreader and the sink, each a uniform plate, as far as they are
    /// present.
    pub fn build(config: &Config) -> (r: Result<LayerStack, Error>)
        ensures
            match r {
                Ok(s) => s.wf() && s@ == stack_of(*config),
                Err(e) => e == Error::ConfigError,
            },
            r is Ok <==> config_valid(*config),
    {
        if !config.is_valid() {
            return Err(Error::ConfigError);
        }
        let die = match config.die {
            Some(m) => m,
            None => {
                return Err(Error::ConfigError);
            },
        };
        let convection = match config.convection {
            Some(h) => h,
            None => {
                return Err(Error::ConfigError);
            },
        };
        let secondary_convection = match config.secondary_convection {
            Some(h) => h,
            None => 0,
        };
        let mut layers: Vec<Layer> = Vec::new();
        layers.push(
            Layer {
                thickness: die.thickness,
                conductivity: die.conductivity,
                specific_heat: die.specific_heat,
                partitioned: true,
                width: 0,
                height: 0,
            },
        );
        if let Some(p) = config.interface {
            layers.push(p.layer());
        }
        if let Some(p) = config.spreader {
            layers.push(p.layer());
        }
        if let Some(p) = config.sink {
            layers.push(p.layer());
        }
        proof {
            assert(layers@ =~= stack_of(*config).layers);
            lemma_stack_of_valid(*config);
        }
        Ok(LayerStack { layers, convection, secondary_convection })
    }

    /// The number of layers.
    pub fn len(&self) -> (n: usize)
        ensures
            n == self@.layers.len(),
    {
        self.layers.len()
    }

    /// The layer at position `i`, counted from the die.
    pub fn layer(&self, i: usize) -> (l: Layer)
        requires
            i < self@.layers.len(),
        ensures
            l == self@.layers[i as int],
    {
        self.layers[i]
    }

    /// The layers, from the die up.
    pub fn layers(&self) -> (v: &Vec<Layer>)
        ensures
            v@ == self@.layers,
    {
        &self.layers
    }

    /// The convection coefficient between the last layer and the ambient.
    pub fn convection(&self) -> (h: i64)
        ensures
            h == self@.convection,
    {
        self.convection
    }

    /// The convection coefficient of the secondary path; zero without one.
    pub fn secondary_convection(&self) -> (h: i64)
        ensures
            h == self@.secondary_convection,
    {
        self.secondary_convection
    }
}

} // verus!
