use hotspot::capacitance::capacitance_vector;
use hotspot::circuit::Circuit;
use hotspot::conductance::{ambient, conductance_matrix, coupling, lateral, vertical};
use hotspot::error::Error;
use hotspot::geometry::{same_bytes, Block, Floorplan};
use hotspot::layers::{Config, Layer, LayerStack, Material, Plate};
use hotspot::nodes::{NodeIndex, ThermalNode};
use hotspot::numeric::{divide_by_root, isqrt, square_times_at_most};

fn block(label: &str, width: i64, height: i64, x: i64, y: i64) -> Block {
    Block::new(label.as_bytes().to_vec(), width, height, x, y)
}

fn silicon() -> Material {
    Material { thickness: 150, conductivity: 100_000_000, specific_heat: 1_750_000 }
}

fn copper(thickness: i64) -> Material {
    Material { thickness, conductivity: 400_000_000, specific_heat: 3_550_000 }
}

fn die_only() -> Config {
    let mut config = Config::empty();
    config.die = Some(silicon());
    config.convection = Some(10);
    config
}

fn with_spreader() -> Config {
    let mut config = die_only();
    config.spreader = Some(Plate { material: copper(1000), width: 3000, height: 3000 });
    config
}

fn two_blocks() -> Vec<Block> {
    vec![block("a", 1000, 1000, 0, 0), block("b", 1000, 1000, 1000, 0)]
}

#[test]
fn integer_square_roots() {
    assert_eq!(isqrt(0), 0);
    assert_eq!(isqrt(1), 1);
    assert_eq!(isqrt(3), 1);
    assert_eq!(isqrt(4), 2);
    assert_eq!(isqrt(24), 4);
    assert_eq!(isqrt(25), 5);
    assert_eq!(isqrt(1_000_000), 1000);
    assert_eq!(isqrt(u64::MAX), 4_294_967_295);
}

#[test]
fn byte_strings_compare_by_content() {
    assert!(same_bytes(&b"core".to_vec(), &b"core".to_vec()));
    assert!(!same_bytes(&b"core".to_vec(), &b"cord".to_vec()));
    assert!(!same_bytes(&b"core".to_vec(), &b"cor".to_vec()));
    assert!(same_bytes(&Vec::new(), &Vec::new()));
}

#[test]
fn blocks_side_by_side_share_their_edge() {
    let a = block("a", 1000, 1000, 0, 0);
    let b = block("b", 1000, 600, 1000, 700);
    assert_eq!(a.shared_boundary_with(&b), 300);
    assert_eq!(b.shared_boundary_with(&a), 300);
    assert!(a.is_adjacent_to(&b));
    assert!(!a.overlaps(&b));
    assert_eq!(a.area(), 1_000_000);
}

#[test]
fn blocks_stacked_share_their_edge() {
    let a = block("a", 400, 100, 0, 0);
    let b = block("b", 300, 100, 200, 100);
    assert_eq!(a.shared_boundary_with(&b), 200);
    assert!(b.is_adjacent_to(&a));
}

#[test]
fn blocks_touching_at_a_corner_are_not_adjacent() {
    let a = block("a", 100, 100, 0, 0);
    let b = block("b", 100, 100, 100, 100);
    assert_eq!(a.shared_boundary_with(&b), 0);
    assert!(!a.is_adjacent_to(&b));
    assert!(!a.overlaps(&b));
}

#[test]
fn blocks_apart_are_not_adjacent() {
    let a = block("a", 100, 100, 0, 0);
    let b = block("b", 100, 100, 101, 0);
    assert!(!a.is_adjacent_to(&b));
    assert!(!a.is_adjacent_to(&a));
}

#[test]
fn distance_between_centres_is_euclidean() {
    let a = block("a", 1000, 1000, 0, 0);
    let b = block("b", 1000, 1000, 1000, 0);
    assert_eq!(a.doubled_distance_squared_to(&b), 2000 * 2000);
    assert_eq!(b.doubled_distance_squared_to(&a), 2000 * 2000);
    // The centres are 3 apart along x and 4 along y.
    let c = block("c", 2, 2, 0, 0);
    let d = block("d", 2, 2, 3, 4);
    assert_eq!(c.doubled_distance_squared_to(&d), 10 * 10);
    // The centres are half a unit apart along x.
    let e = block("e", 3, 2, 0, 0);
    assert_eq!(c.doubled_distance_squared_to(&e), 1);
    assert_eq!(c.doubled_distance_squared_to(&c), 0);
    let far = block("f", 100_000_000, 100_000_000, -100_000_000, -100_000_000);
    let off = block("g", 100_000_000, 100_000_000, 100_000_000, 100_000_000);
    assert_eq!(far.doubled_distance_squared_to(&off), 320_000_000_000_000_000);
}

#[test]
fn quotients_by_square_roots_are_exact_to_one_unit() {
    assert_eq!(divide_by_root(10, 4), 5);
    assert_eq!(divide_by_root(10, 5), 4);
    assert_eq!(divide_by_root(0, 7), 0);
    assert_eq!(divide_by_root(1, 1), 1);
    assert_eq!(divide_by_root(7, 50), 0);
    assert_eq!(divide_by_root(7, 49), 1);
    assert_eq!(divide_by_root(5, 25), 1);
    assert_eq!(divide_by_root(200_000, 20), 44_721);
    assert_eq!(divide_by_root(15_400, 3_400_000), 8);
    for n in 0..200u128 {
        for s in 1..60u64 {
            let g = divide_by_root(n, s);
            assert!(g * g * (s as u128) <= n * n);
            assert!(n * n < (g + 1) * (g + 1) * (s as u128));
        }
    }
}

#[test]
fn quotients_by_square_roots_of_large_numbers() {
    let n: u128 = 200_000_000_000_000_000_000_000_000;
    assert_eq!(divide_by_root(n, 1), n);
    assert_eq!(divide_by_root(n, 499_999_999_999_999_999), 282_842_712_474_619_010);
    assert_eq!(divide_by_root(n, 500_000_000_000_000_000), 282_842_712_474_619_009);
    assert_eq!(divide_by_root(30_000_000_000_000_000_000_000_000, 5), 13_416_407_864_998_738_178_455_042);
    assert_eq!(
        divide_by_root(123_456_789_012_345_678_901_234, 987_654_321_987_654_321),
        124_225_997_569_064
    );
    let most: u128 = 309_485_009_821_345_068_724_781_055;
    assert_eq!(divide_by_root(most, 576_460_752_303_423_487), 407_619_307_041_649_444);
    assert_eq!(divide_by_root(most, 2), 218_838_949_120_258_359_057_546_632);
    assert_eq!(divide_by_root(most, 1), most);
}

#[test]
fn squares_are_compared_beyond_128_bits() {
    let n: u128 = 200_000_000_000_000_000_000_000_000;
    let s: u64 = 500_000_000_000_000_000;
    assert!(square_times_at_most(282_842_712_474_619_009, s, n));
    assert!(!square_times_at_most(282_842_712_474_619_010, s, n));
    assert!(square_times_at_most(n, 1, n));
    assert!(!square_times_at_most(n, 2, n));
    assert!(!square_times_at_most(n + 1, 1, n));
    assert!(square_times_at_most(0, s, 0));
    assert!(square_times_at_most(3, 4, 6));
    assert!(!square_times_at_most(3, 5, 6));
}

#[test]
fn floorplan_keeps_the_declared_order() {
    let plan = Floorplan::new(two_blocks()).unwrap();
    assert_eq!(plan.len(), 2);
    assert_eq!(plan.block(0).label, b"a".to_vec());
    assert_eq!(plan.block(1).label, b"b".to_vec());
    assert_eq!(plan.blocks().len(), 2);
    assert_eq!(plan.area(), 2_000_000);
    assert!(plan.adjacent(0, 1));
    assert!(plan.fits_within(2000, 1000));
    assert!(!plan.fits_within(1999, 1000));
    assert!(!plan.fits_within(2000, 999));
}

#[test]
fn duplicate_label_is_a_geometry_error() {
    let blocks = vec![block("core", 10, 10, 0, 0), block("core", 10, 10, 10, 0)];
    assert_eq!(Floorplan::new(blocks).unwrap_err(), Error::GeometryError);
    let blocks = vec![block("core", 10, 10, 0, 0), block("core", 10, 10, 10, 0)];
    assert_eq!(Circuit::build(blocks, &die_only()).unwrap_err(), Error::GeometryError);
}

#[test]
fn dimensions_that_are_not_positive_are_a_geometry_error() {
    for (w, h) in [(0, 10), (10, 0), (-1, 10), (10, -5)] {
        let blocks = vec![block("a", w, h, 0, 0)];
        assert_eq!(Floorplan::new(blocks).unwrap_err(), Error::GeometryError);
    }
}

#[test]
fn numbers_out_of_range_are_a_geometry_error() {
    assert!(Floorplan::new(vec![block("a", 100_000_000, 1, 0, 0)]).is_ok());
    for b in [
        block("a", 100_000_001, 1, 0, 0),
        block("a", 1, 100_000_001, 0, 0),
        block("a", 1, 1, 100_000_001, 0),
        block("a", 1, 1, 0, -100_000_001),
    ] {
        assert_eq!(Floorplan::new(vec![b]).unwrap_err(), Error::GeometryError);
    }
}

#[test]
fn overlapping_blocks_are_a_geometry_error() {
    let blocks = vec![block("a", 10, 10, 0, 0), block("b", 10, 10, 9, 9)];
    assert_eq!(Floorplan::new(blocks).unwrap_err(), Error::GeometryError);
}

#[test]
fn stack_follows_the_configuration() {
    let mut config = with_spreader();
    config.interface = Some(Plate {
        material: Material { thickness: 20, conductivity: 4_000_000, specific_heat: 4_000_000 },
        width: 2000,
        height: 1000,
    });
    config.sink = Some(Plate { material: copper(6900), width: 6000, height: 6000 });
    config.secondary_convection = Some(3);
    let stack = LayerStack::build(&config).unwrap();
    assert_eq!(stack.len(), 4);
    assert!(stack.layer(0).partitioned);
    assert_eq!(stack.layer(0).thickness, 150);
    assert_eq!(stack.layer(0).width, 0);
    assert!(!stack.layer(1).partitioned);
    assert_eq!(stack.layer(1).thickness, 20);
    assert_eq!(stack.layer(2).width, 3000);
    assert_eq!(stack.layer(3).thickness, 6900);
    assert_eq!(stack.layer(3).specific_heat, 3_550_000);
    assert_eq!(stack.layers().len(), 4);
    assert_eq!(stack.convection(), 10);
    assert_eq!(stack.secondary_convection(), 3);
    let bare = LayerStack::build(&die_only()).unwrap();
    assert_eq!(bare.len(), 1);
    assert_eq!(bare.secondary_convection(), 0);
}

#[test]
fn specific_heat_that_is_not_positive_is_a_config_error() {
    for heat in [0, -1, -1_750_000] {
        let mut config = die_only();
        config.die = Some(Material { thickness: 150, conductivity: 100, specific_heat: heat });
        assert_eq!(LayerStack::build(&config).unwrap_err(), Error::ConfigError);
        assert_eq!(Circuit::build(two_blocks(), &config).unwrap_err(), Error::ConfigError);
        let mut config = with_spreader();
        config.spreader = Some(Plate {
            material: Material { thickness: 1000, conductivity: 400, specific_heat: heat },
            width: 3000,
            height: 3000,
        });
        assert_eq!(Circuit::build(two_blocks(), &config).unwrap_err(), Error::ConfigError);
    }
}

#[test]
fn missing_or_bad_parameters_are_a_config_error() {
    assert_eq!(LayerStack::build(&Config::empty()).unwrap_err(), Error::ConfigError);
    let mut config = die_only();
    config.convection = None;
    assert_eq!(LayerStack::build(&config).unwrap_err(), Error::ConfigError);
    let mut config = die_only();
    config.die = None;
    assert_eq!(LayerStack::build(&config).unwrap_err(), Error::ConfigError);
    let mut config = die_only();
    config.convection = Some(0);
    assert_eq!(LayerStack::build(&config).unwrap_err(), Error::ConfigError);
    let mut config = die_only();
    config.secondary_convection = Some(0);
    assert_eq!(LayerStack::build(&config).unwrap_err(), Error::ConfigError);
    let mut config = die_only();
    config.die = Some(Material { thickness: 0, conductivity: 1, specific_heat: 1 });
    assert_eq!(LayerStack::build(&config).unwrap_err(), Error::ConfigError);
    let mut config = die_only();
    config.die = Some(Material { thickness: 1, conductivity: 10_000_000_001, specific_heat: 1 });
    assert_eq!(LayerStack::build(&config).unwrap_err(), Error::ConfigError);
    let mut config = die_only();
    config.sink = Some(Plate { material: copper(1), width: 0, height: 5 });
    assert_eq!(LayerStack::build(&config).unwrap_err(), Error::ConfigError);
}

#[test]
fn floorplan_error_comes_before_config_error() {
    let blocks = vec![block("a", 0, 10, 0, 0)];
    assert_eq!(Circuit::build(blocks, &Config::empty()).unwrap_err(), Error::GeometryError);
}

#[test]
fn general_stacks_are_checked() {
    let die = Layer {
        thickness: 1,
        conductivity: 1,
        specific_heat: 1,
        partitioned: true,
        width: 0,
        height: 0,
    };
    let plate = Layer { partitioned: false, width: 5, height: 5, ..die };
    assert!(LayerStack::new(vec![die, plate, die], 1, 0).is_ok());
    assert_eq!(LayerStack::new(vec![], 1, 0).unwrap_err(), Error::ConfigError);
    assert_eq!(LayerStack::new(vec![plate, die], 1, 0).unwrap_err(), Error::ConfigError);
    assert_eq!(LayerStack::new(vec![die], 0, 0).unwrap_err(), Error::ConfigError);
    assert_eq!(LayerStack::new(vec![die], 1, -1).unwrap_err(), Error::ConfigError);
    let bad = Layer { width: 5, ..die };
    assert_eq!(LayerStack::new(vec![die, bad], 1, 0).unwrap_err(), Error::ConfigError);
    assert!(die.is_valid());
    assert!(!bad.is_valid());
}

#[test]
fn nodes_are_numbered_layer_by_layer() {
    let plan = Floorplan::new(two_blocks()).unwrap();
    let mut config = with_spreader();
    config.sink = Some(Plate { material: copper(6900), width: 6000, height: 5000 });
    let stack = LayerStack::build(&config).unwrap();
    let index = NodeIndex::assign(&plan, &stack).unwrap();
    assert_eq!(index.cores(), 2);
    assert_eq!(index.len(), 4);
    assert_eq!(
        index.nodes().clone(),
        vec![
            ThermalNode { index: 0, layer: 0, block: Some(0), area: 1_000_000 },
            ThermalNode { index: 1, layer: 0, block: Some(1), area: 1_000_000 },
            ThermalNode { index: 2, layer: 1, block: None, area: 9_000_000 },
            ThermalNode { index: 3, layer: 2, block: None, area: 30_000_000 },
        ]
    );
    assert_eq!(index.node(3).layer, 2);
}

#[test]
fn partitioned_layers_each_get_a_node_per_block() {
    let plan = Floorplan::new(two_blocks()).unwrap();
    let die = Layer {
        thickness: 100,
        conductivity: 1000,
        specific_heat: 1000,
        partitioned: true,
        width: 0,
        height: 0,
    };
    let plate = Layer { partitioned: false, width: 2000, height: 1000, ..die };
    let stack = LayerStack::new(vec![die, plate, die], 1, 0).unwrap();
    let index = NodeIndex::assign(&plan, &stack).unwrap();
    assert_eq!(index.len(), 5);
    assert_eq!(index.cores(), 2);
    let seen: Vec<(usize, usize, Option<usize>)> =
        index.nodes().iter().map(|p| (p.index, p.layer, p.block)).collect();
    assert_eq!(
        seen,
        vec![(0, 0, Some(0)), (1, 0, Some(1)), (2, 1, None), (3, 2, Some(0)), (4, 2, Some(1))]
    );
}

#[test]
fn empty_floorplan_is_a_geometry_error() {
    let plan = Floorplan::new(vec![]).unwrap();
    let stack = LayerStack::build(&die_only()).unwrap();
    assert_eq!(NodeIndex::assign(&plan, &stack).unwrap_err(), Error::GeometryError);
    assert_eq!(Circuit::build(vec![], &die_only()).unwrap_err(), Error::GeometryError);
}

#[test]
fn plate_smaller_than_the_die_is_a_geometry_error() {
    let mut config = with_spreader();
    config.spreader = Some(Plate { material: copper(1000), width: 1999, height: 3000 });
    assert_eq!(Circuit::build(two_blocks(), &config).unwrap_err(), Error::GeometryError);
    config.spreader = Some(Plate { material: copper(1000), width: 2000, height: 1000 });
    assert!(Circuit::build(two_blocks(), &config).is_ok());
}

#[test]
fn too_many_nodes_are_a_geometry_error() {
    let plan = Floorplan::new(vec![block("a", 10, 10, 0, 0)]).unwrap();
    let die = Layer {
        thickness: 1,
        conductivity: 1,
        specific_heat: 1,
        partitioned: true,
        width: 0,
        height: 0,
    };
    let stack = LayerStack::new(vec![die; 65_536], 1, 0).unwrap();
    assert_eq!(NodeIndex::assign(&plan, &stack).unwrap_err(), Error::GeometryError);
    let stack = LayerStack::new(vec![die; 65_535], 1, 0).unwrap();
    assert_eq!(NodeIndex::assign(&plan, &stack).unwrap().len(), 65_535);
}

#[test]
fn lateral_conductance_of_two_blocks() {
    // k L T / d with k = 1e8, L = 1000, T = 150 and d = 1000.
    let blocks = two_blocks();
    let layer = LayerStack::build(&die_only()).unwrap().layer(0);
    assert_eq!(lateral(&blocks[0], &blocks[1], &layer), 15_000_000_000);
    assert_eq!(lateral(&blocks[1], &blocks[0], &layer), 15_000_000_000);
    assert_eq!(lateral(&blocks[0], &blocks[0], &layer), 0);
    let circuit = Circuit::build(two_blocks(), &die_only()).unwrap();
    assert_eq!(circuit.conductance[1], 15_000_000_000);
    assert_eq!(circuit.conductance[2], 15_000_000_000);
}

#[test]
fn lateral_conductance_rounds_down() {
    // The centres are 600 apart along x and 700 along y.
    let a = block("a", 600, 800, 0, 0);
    let b = block("b", 600, 800, 600, 700);
    let layer = Layer {
        thickness: 7,
        conductivity: 11,
        specific_heat: 1,
        partitioned: true,
        width: 0,
        height: 0,
    };
    assert_eq!(a.shared_boundary_with(&b), 100);
    assert_eq!(a.doubled_distance_squared_to(&b), 3_400_000);
    // 2 * 11 * 100 * 7 = 15400 over the root of 3 400 000, which is 1843.9.
    assert_eq!(lateral(&a, &b, &layer), 8);
}

#[test]
fn vertical_conductance_is_the_series_of_two_halves() {
    let stack = LayerStack::build(&with_spreader()).unwrap();
    let (die, spreader) = (stack.layer(0), stack.layer(1));
    // 2 A k1 k2 / (t1 k2 + t2 k1) = 8e22 / 1.6e11.
    assert_eq!(vertical(1_000_000, &die, &spreader), 500_000_000_000);
    assert_eq!(vertical(1_000_000, &spreader, &die), 500_000_000_000);
    let thin = Layer { thickness: 2, conductivity: 1, ..die };
    assert_eq!(vertical(1, &thin, &thin), 0);
    assert_eq!(vertical(3, &thin, &thin), 1);
}

#[test]
fn circuit_of_a_bare_die() {
    let circuit = Circuit::build(two_blocks(), &die_only()).unwrap();
    assert_eq!(circuit.cores, 2);
    assert_eq!(circuit.nodes, 2);
    assert_eq!(circuit.capacitance, vec![262_500_000_000_000, 262_500_000_000_000]);
    assert_eq!(
        circuit.conductance,
        vec![-15_010_000_000, 15_000_000_000, 15_000_000_000, -15_010_000_000]
    );
}

#[test]
fn circuit_of_a_die_under_a_spreader() {
    let mut config = with_spreader();
    config.secondary_convection = Some(2);
    let circuit = Circuit::build(two_blocks(), &config).unwrap();
    assert_eq!(circuit.cores, 2);
    assert_eq!(circuit.nodes, 3);
    assert_eq!(
        circuit.capacitance,
        vec![262_500_000_000_000, 262_500_000_000_000, 31_950_000_000_000_000]
    );
    let lateral = 15_000_000_000;
    let up = 500_000_000_000;
    let below = 2_000_000;
    let above = 90_000_000;
    assert_eq!(
        circuit.conductance,
        vec![
            -(lateral + up + below),
            lateral,
            up,
            lateral,
            -(lateral + up + below),
            up,
            up,
            up,
            -(up + up + above),
        ]
    );
}

#[test]
fn plates_touch_over_the_smaller_area() {
    let mut config = with_spreader();
    config.sink = Some(Plate { material: copper(1000), width: 6000, height: 6000 });
    let circuit = Circuit::build(two_blocks(), &config).unwrap();
    assert_eq!(circuit.nodes, 4);
    // 2 A k k / (2 t k) = A k / t with A = 9e6, k = 4e8 and t = 1000.
    assert_eq!(circuit.conductance[2 * 4 + 3], 3_600_000_000_000);
    assert_eq!(circuit.conductance[3 * 4 + 2], 3_600_000_000_000);
    // The die does not touch the sink.
    assert_eq!(circuit.conductance[3], 0);
    assert_eq!(circuit.conductance[3 * 4], 0);
    // Only the sink loses heat to the ambient.
    assert_eq!(circuit.conductance[3 * 4 + 3], -(3_600_000_000_000 + 360_000_000));
    assert_eq!(circuit.conductance[2 * 4 + 2], -(3_600_000_000_000 + 1_000_000_000_000));
}

fn sample() -> (Vec<Block>, Config) {
    let blocks = vec![
        block("fetch", 2000, 1000, 0, 0),
        block("decode", 1000, 1000, 2000, 0),
        block("cache", 3000, 2000, 0, 1000),
        block("alu", 500, 3000, 3000, 0),
    ];
    let mut config = with_spreader();
    config.interface = Some(Plate {
        material: Material { thickness: 20, conductivity: 4_000_000, specific_heat: 4_000_000 },
        width: 3500,
        height: 3000,
    });
    config.spreader = Some(Plate { material: copper(1000), width: 30_000, height: 30_000 });
    config.sink = Some(Plate { material: copper(6900), width: 60_000, height: 60_000 });
    config.secondary_convection = Some(1);
    (blocks, config)
}

#[test]
fn cores_are_at_most_nodes() {
    let (blocks, config) = sample();
    let circuit = Circuit::build(blocks, &config).unwrap();
    assert_eq!(circuit.cores, 4);
    assert_eq!(circuit.nodes, 7);
    assert!(circuit.cores <= circuit.nodes);
    assert!(circuit.nodes > 0);
}

#[test]
fn capacitances_are_positive_one_per_node() {
    let (blocks, config) = sample();
    let circuit = Circuit::build(blocks, &config).unwrap();
    assert_eq!(circuit.capacitance.len(), circuit.nodes);
    assert!(circuit.capacitance.iter().all(|&c| c > 0));
    assert_eq!(circuit.capacitance[0], 2_000_000 * 150 * 1_750_000);
    assert_eq!(circuit.capacitance[4], 3500 * 3000 * 20 * 4_000_000);
}

#[test]
fn conductances_form_a_symmetric_matrix() {
    let (blocks, config) = sample();
    let circuit = Circuit::build(blocks, &config).unwrap();
    let n = circuit.nodes;
    assert_eq!(circuit.conductance.len(), n * n);
    for i in 0..n {
        let mut others = 0;
        for j in 0..n {
            if i != j {
                assert!(circuit.conductance[i * n + j] >= 0);
                assert_eq!(circuit.conductance[i * n + j], circuit.conductance[j * n + i]);
                others += circuit.conductance[i * n + j];
            }
        }
        assert!(circuit.conductance[i * n + i] <= -others);
    }
    // No node but those of the first and of the last layer loses heat to the
    // ambient: their rows sum to zero.
    for i in 4..6 {
        let row: i128 = circuit.conductance[i * n..(i + 1) * n].iter().sum();
        assert_eq!(row, 0);
    }
}

#[test]
fn heat_into_a_plate_is_the_heat_out_of_the_blocks() {
    let (blocks, config) = sample();
    let stack = LayerStack::build(&config).unwrap();
    let circuit = Circuit::build(blocks, &config).unwrap();
    let n = circuit.nodes;
    let plate = 4;
    let out_of_blocks: i128 = (0..4).map(|b| circuit.conductance[b * n + plate]).sum();
    let into_plate: i128 = (0..4).map(|b| circuit.conductance[plate * n + b]).sum();
    assert_eq!(out_of_blocks, into_plate);
    let areas = [2_000_000, 1_000_000, 6_000_000, 1_500_000];
    let expected: i128 =
        areas.iter().map(|&a| vertical(a, &stack.layer(0), &stack.layer(1))).sum();
    assert_eq!(into_plate, expected);
}

#[test]
fn building_twice_gives_the_same_circuit() {
    let (blocks, config) = sample();
    let first = Circuit::build(blocks, &config).unwrap();
    let (blocks, config) = sample();
    let second = Circuit::build(blocks, &config).unwrap();
    assert_eq!(first, second);
    assert_eq!(first.capacitance, second.capacitance);
    assert_eq!(first.conductance, second.conductance);
}

#[test]
fn assembling_by_stages_gives_the_same_circuit() {
    let (blocks, config) = sample();
    let plan = Floorplan::new(blocks).unwrap();
    let stack = LayerStack::build(&config).unwrap();
    let index = NodeIndex::assign(&plan, &stack).unwrap();
    let conductance = conductance_matrix(&plan, &stack, &index).unwrap();
    let capacitance = capacitance_vector(index.nodes(), &stack).unwrap();
    let circuit = Circuit::assemble(&plan, &stack).unwrap();
    assert_eq!(circuit.conductance, conductance);
    assert_eq!(circuit.capacitance, capacitance);
    assert_eq!(coupling(&plan, &stack, index.node(0), index.node(1)), Some(conductance[1]));
    assert_eq!(coupling(&plan, &stack, index.node(0), index.node(4)), Some(conductance[4]));
    assert_eq!(coupling(&plan, &stack, index.node(0), index.node(5)), None);
    assert_eq!(coupling(&plan, &stack, index.node(0), index.node(3)), None);
    assert_eq!(ambient(&stack, index.node(0)), 2_000_000);
    assert_eq!(ambient(&stack, index.node(4)), 0);
    assert_eq!(ambient(&stack, index.node(6)), 36_000_000_000);
}

#[test]
fn conductance_that_rounds_to_zero_is_a_numerical_error() {
    let blocks = vec![block("a", 100, 1, 0, 0), block("b", 100, 1, 100, 0)];
    let mut config = die_only();
    config.die = Some(Material { thickness: 1, conductivity: 1, specific_heat: 1 });
    assert_eq!(Circuit::build(blocks, &config).unwrap_err(), Error::NumericalError);
    // One block alone has no lateral path that could vanish.
    let blocks = vec![block("a", 100, 1, 0, 0)];
    assert!(Circuit::build(blocks, &config).is_ok());
}

#[test]
fn vertical_conductance_that_rounds_to_zero_is_a_numerical_error() {
    let blocks = vec![block("a", 1, 1, 0, 0)];
    let mut config = die_only();
    config.die = Some(Material { thickness: 2, conductivity: 1, specific_heat: 1 });
    config.spreader = Some(Plate {
        material: Material { thickness: 2, conductivity: 1, specific_heat: 1 },
        width: 1,
        height: 1,
    });
    assert_eq!(Circuit::build(blocks, &config).unwrap_err(), Error::NumericalError);
}

#[test]
fn capacitance_that_is_not_positive_is_a_numerical_error() {
    let stack = LayerStack::build(&die_only()).unwrap();
    let good = ThermalNode { index: 0, layer: 0, block: Some(0), area: 4 };
    let empty = ThermalNode { index: 1, layer: 0, block: Some(1), area: 0 };
    let negative = ThermalNode { index: 1, layer: 0, block: Some(1), area: -4 };
    assert_eq!(capacitance_vector(&vec![good], &stack).unwrap(), vec![4 * 150 * 1_750_000]);
    assert_eq!(capacitance_vector(&vec![good, empty], &stack).unwrap_err(), Error::NumericalError);
    assert_eq!(
        capacitance_vector(&vec![negative, good], &stack).unwrap_err(),
        Error::NumericalError
    );
    assert_eq!(capacitance_vector(&vec![], &stack).unwrap(), Vec::<i128>::new());
}

#[test]
fn largest_quantities_do_not_overflow() {
    let blocks = vec![
        block("a", 100_000_000, 100_000_000, -100_000_000, -100_000_000),
        block("b", 100_000_000, 100_000_000, 0, -100_000_000),
    ];
    let big = Material {
        thickness: 1,
        conductivity: 10_000_000_000,
        specific_heat: 10_000_000_000,
    };
    let mut config = Config::empty();
    config.die = Some(big);
    config.spreader = Some(Plate { material: big, width: 100_000_000, height: 100_000_000 });
    config.convection = Some(10_000_000_000);
    config.secondary_convection = Some(10_000_000_000);
    assert_eq!(Circuit::build(copies(&blocks), &config).unwrap_err(), Error::GeometryError);
    let mut config = config;
    config.spreader = None;
    let circuit = Circuit::build(blocks, &config).unwrap();
    let area: i128 = 10_000_000_000_000_000;
    let lateral: i128 = 2 * 10_000_000_000 * 100_000_000 / 200_000_000;
    assert_eq!(circuit.capacitance, vec![area * 10_000_000_000; 2]);
    assert_eq!(circuit.conductance[1], lateral);
    assert_eq!(circuit.conductance[0], -(lateral + 2 * area * 10_000_000_000));
}

fn copies(blocks: &[Block]) -> Vec<Block> {
    blocks.iter().map(|b| Block::new(b.label.clone(), b.width, b.height, b.x, b.y)).collect()
}

#[test]
fn plate_between_two_partitioned_layers() {
    let plan = Floorplan::new(two_blocks()).unwrap();
    let die = Layer {
        thickness: 100,
        conductivity: 1000,
        specific_heat: 1000,
        partitioned: true,
        width: 0,
        height: 0,
    };
    let plate = Layer { partitioned: false, width: 2000, height: 1000, ..die };
    let stack = LayerStack::new(vec![die, plate, die], 1, 0).unwrap();
    let circuit = Circuit::assemble(&plan, &stack).unwrap();
    assert_eq!((circuit.cores, circuit.nodes), (2, 5));
    let side = 100_000;
    let up = 10_000_000;
    let out = 1_000_000;
    assert_eq!(
        circuit.conductance,
        vec![
            -(side + up), side, up, 0, 0,
            side, -(side + up), up, 0, 0,
            up, up, -4 * up, up, up,
            0, 0, up, -(up + side + out), side,
            0, 0, up, side, -(up + side + out),
        ]
    );
    let cell = 100_000_000_000;
    assert_eq!(circuit.capacitance, vec![cell, cell, 2 * cell, cell, cell]);
}

#[test]
fn coordinates_may_be_negative() {
    let blocks = vec![block("a", 1000, 1000, -1000, -500), block("b", 1000, 1000, 0, -500)];
    let moved = Circuit::build(blocks, &with_spreader()).unwrap();
    let plain = Circuit::build(two_blocks(), &with_spreader()).unwrap();
    assert_eq!(moved, plain);
    let plan = Floorplan::new(vec![block("a", 10, 10, -30, -40), block("b", 5, 5, 20, 10)]).unwrap();
    assert!(plan.fits_within(55, 55));
    assert!(!plan.fits_within(54, 55));
    assert!(!plan.fits_within(55, 54));
    assert!(Floorplan::new(vec![]).unwrap().fits_within(1, 1));
}

#[test]
fn lateral_conductance_does_not_round_the_distance() {
    // Two blocks of 2 by 2 share one unit of boundary; their centres are 2
    // apart along x and 1 along y, the root of 5 in all.
    let blocks = vec![block("a", 2, 2, 0, 0), block("b", 2, 2, 2, 1)];
    let mut config = Config::empty();
    config.die = Some(Material { thickness: 100, conductivity: 1000, specific_heat: 1 });
    config.convection = Some(1);
    let circuit = Circuit::build(blocks, &config).unwrap();
    // 1000 * 1 * 100 over the root of 5 is 44 721.4.
    assert_eq!(circuit.conductance[1], 44_721);
    assert_eq!(circuit.conductance[2], 44_721);
    assert_eq!(circuit.conductance[0], -(44_721 + 4));
}

#[test]
fn lateral_conductance_of_offset_blocks() {
    // A shared boundary of 4, and centres 3 apart along x and 4 along y.
    let a = block("a", 2, 8, 0, 0);
    let b = block("b", 4, 8, 2, 4);
    assert_eq!(a.shared_boundary_with(&b), 4);
    let layer = Layer {
        thickness: 5,
        conductivity: 100,
        specific_heat: 1,
        partitioned: true,
        width: 0,
        height: 0,
    };
    // 100 * 4 * 5 over 5.
    assert_eq!(lateral(&a, &b, &layer), 400);
    assert_eq!(lateral(&b, &a, &layer), 400);
}

#[test]
fn lateral_conductance_of_the_largest_blocks() {
    let a = block("a", 100_000_000, 100_000_000, -100_000_000, -100_000_000);
    let b = block("b", 100_000_000, 100_000_000, 0, -50_000_000);
    let layer = Layer {
        thickness: 100_000_000,
        conductivity: 10_000_000_000,
        specific_heat: 1,
        partitioned: true,
        width: 0,
        height: 0,
    };
    assert_eq!(a.shared_boundary_with(&b), 50_000_000);
    // 1e26 over the root of 5e16.
    assert_eq!(lateral(&a, &b, &layer), 447_213_595_499_957_939);
    let c = block("c", 100_000_000, 100_000_000, 0, -100_000_000);
    // 2e26 over 2e8.
    assert_eq!(lateral(&a, &c, &layer), 1_000_000_000_000_000_000);
}
