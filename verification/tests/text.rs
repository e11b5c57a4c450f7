use hotspot::parse::{
    is_word, parse_block, parse_config, parse_floorplan, parse_numbers, parse_record,
};
use hotspot::text::{check_text, equal_bytes, parse_number, split_lines, split_tokens};
use hotspot::{Block, Circuit, Config, Error, Material, Plate};

const FLOORPLAN: &[u8] = b"# label width height x y\n\
a 1000 1000 0 0\n\
\n\
b\t1000\t1000\t1000\t0   # to the right of a\n";

const CONFIG: &[u8] = b"# the package\n\
die 150 100000000 1750000\n\
spreader 1000 400000000 3550000 3000 3000\r\n\
convection 10\n\
secondary_convection 2";

fn rows(lines: &[&str]) -> Vec<Vec<u8>> {
    lines.iter().map(|l| l.as_bytes().to_vec()).collect()
}

#[test]
fn plain_text_has_no_zero_and_no_high_byte() {
    assert!(check_text(b""));
    assert!(check_text(b"die 1 2 3\n\t# x\r\n"));
    assert!(check_text(&[1, 127]));
    assert!(!check_text(&[b'a', 0, b'b']));
    assert!(!check_text(&[b'a', 128]));
    assert!(!check_text("d\u{e9}".as_bytes()));
}

#[test]
fn byte_slices_compare_by_content() {
    assert!(equal_bytes(b"sink", b"sink"));
    assert!(!equal_bytes(b"sink", b"sinks"));
    assert!(!equal_bytes(b"sink", b"sunk"));
    assert!(equal_bytes(b"", b""));
    assert!(is_word(&b"die".to_vec(), "die"));
    assert!(!is_word(&b"dye".to_vec(), "die"));
}

#[test]
fn lines_end_at_line_feeds() {
    assert_eq!(split_lines(b""), rows(&[""]));
    assert_eq!(split_lines(b"a"), rows(&["a"]));
    assert_eq!(split_lines(b"a\nb"), rows(&["a", "b"]));
    assert_eq!(split_lines(b"a\n"), rows(&["a", ""]));
    assert_eq!(split_lines(b"\n\n"), rows(&["", "", ""]));
    assert_eq!(split_lines(b"a b\r\n c"), rows(&["a b\r", " c"]));
}

#[test]
fn tokens_end_at_blanks_and_comments() {
    assert_eq!(split_tokens(b""), rows(&[]));
    assert_eq!(split_tokens(b"   \t "), rows(&[]));
    assert_eq!(split_tokens(b"a"), rows(&["a"]));
    assert_eq!(split_tokens(b"  a\tbc  d "), rows(&["a", "bc", "d"]));
    assert_eq!(split_tokens(b"a\r"), rows(&["a"]));
    assert_eq!(split_tokens(b"a # b"), rows(&["a"]));
    assert_eq!(split_tokens(b"a#b c"), rows(&["a"]));
    assert_eq!(split_tokens(b"#a b"), rows(&[]));
    assert_eq!(split_tokens(b"a b# c # d"), rows(&["a", "b"]));
}

#[test]
fn numbers_are_signed_decimals() {
    assert_eq!(parse_number(b"0"), Some(0));
    assert_eq!(parse_number(b"42"), Some(42));
    assert_eq!(parse_number(b"-42"), Some(-42));
    assert_eq!(parse_number(b"-0"), Some(0));
    assert_eq!(parse_number(b"000012"), Some(12));
    assert_eq!(parse_number(b"9223372036854775807"), Some(i64::MAX));
    assert_eq!(parse_number(b"-9223372036854775807"), Some(-i64::MAX));
    assert_eq!(parse_number(b"00009223372036854775807"), Some(i64::MAX));
}

#[test]
fn what_is_no_number_is_refused() {
    for token in [
        "", "-", "--1", "+4", "4x", "x4", "1.5", "1e3", "1 ", "0x10", "4-",
        "9223372036854775808", "-9223372036854775808", "99999999999999999999999999",
    ] {
        assert_eq!(parse_number(token.as_bytes()), None, "{}", token);
    }
}

#[test]
fn numbers_are_read_from_a_position_on() {
    let tokens = rows(&["die", "1", "-2", "3"]);
    assert_eq!(parse_numbers(&tokens, 1), Some(vec![1, -2, 3]));
    assert_eq!(parse_numbers(&tokens, 3), Some(vec![3]));
    assert_eq!(parse_numbers(&tokens, 4), Some(vec![]));
    assert_eq!(parse_numbers(&tokens, 0), None);
}

#[test]
fn a_line_describes_a_block() {
    let b = parse_block(&rows(&["core", "30", "40", "-1", "2"])).unwrap();
    assert_eq!(b.label, b"core".to_vec());
    assert_eq!((b.width, b.height, b.x, b.y), (30, 40, -1, 2));
    assert!(b.scaling.is_empty());
    let b = parse_block(&rows(&["core", "30", "40", "1", "2", "7", "-8"])).unwrap();
    assert_eq!((b.width, b.height, b.x, b.y), (30, 40, 1, 2));
    assert_eq!(b.scaling, vec![7, -8]);
    assert!(parse_block(&rows(&["core", "30", "40", "1"])).is_none());
    assert!(parse_block(&rows(&["core", "30", "40", "1", "y"])).is_none());
    assert!(parse_block(&rows(&["core", "30", "40", "1", "2", "z"])).is_none());
    assert!(parse_block(&rows(&[])).is_none());
}

#[test]
fn a_floorplan_is_read_block_by_block() {
    let blocks = parse_floorplan(FLOORPLAN).unwrap();
    assert_eq!(blocks.len(), 2);
    assert_eq!(blocks[0].label, b"a".to_vec());
    assert_eq!(blocks[1].label, b"b".to_vec());
    assert_eq!((blocks[1].width, blocks[1].height, blocks[1].x, blocks[1].y), (1000, 1000, 1000, 0));
    assert_eq!(parse_floorplan(b"").unwrap().len(), 0);
    assert_eq!(parse_floorplan(b"# nothing\n\n   \n").unwrap().len(), 0);
    // Numbers are not judged here.
    assert_eq!(parse_floorplan(b"a 0 -5 0 0").unwrap()[0].height, -5);
}

#[test]
fn a_malformed_floorplan_is_a_geometry_error() {
    for text in ["a 1 2 3", "a 1 2 3 4\nb", "a 1 2 3 four", "a 1.0 2 3 4", "a 1 2 3 4 5 x", "a"] {
        assert_eq!(parse_floorplan(text.as_bytes()).unwrap_err(), Error::GeometryError, "{}", text);
    }
}

#[test]
fn a_configuration_is_read_record_by_record() {
    let config = parse_config(CONFIG).unwrap();
    assert_eq!(
        config.die,
        Some(Material { thickness: 150, conductivity: 100_000_000, specific_heat: 1_750_000 })
    );
    assert_eq!(
        config.spreader,
        Some(Plate {
            material: Material {
                thickness: 1000,
                conductivity: 400_000_000,
                specific_heat: 3_550_000
            },
            width: 3000,
            height: 3000,
        })
    );
    assert_eq!(config.interface, None);
    assert_eq!(config.sink, None);
    assert_eq!(config.convection, Some(10));
    assert_eq!(config.secondary_convection, Some(2));
    assert_eq!(parse_config(b"").unwrap(), Config::empty());
    assert_eq!(parse_config(b"\n# nothing\n").unwrap(), Config::empty());
    let config = parse_config(b"sink 1 2 3 4 5\ninterface 6 7 8 9 10").unwrap();
    assert_eq!(config.sink.unwrap().width, 4);
    assert_eq!(config.interface.unwrap().material.conductivity, 7);
    // Numbers are not judged here.
    assert_eq!(parse_config(b"convection -3").unwrap().convection, Some(-3));
}

#[test]
fn a_malformed_configuration_is_a_config_error() {
    for text in [
        "die",
        "die 1 2",
        "die 1 2 3 4",
        "die 1 2 x",
        "die 1 2 3\ndie 1 2 3",
        "sink 1 2 3",
        "spreader 1 2 3 4 5 6",
        "interface 1 2 3 4",
        "convection",
        "convection 1 2",
        "convection 1\nconvection 1",
        "secondary_convection 1.5",
        "secondary_convection 1\nsecondary_convection 2",
        "Die 1 2 3",
        "heat 1",
        "-t_chip 0.00015",
        "7",
    ] {
        assert_eq!(parse_config(text.as_bytes()).unwrap_err(), Error::ConfigError, "{}", text);
    }
}

#[test]
fn a_record_is_added_once() {
    let config = parse_record(Config::empty(), &rows(&["convection", "5"])).unwrap();
    assert_eq!(config.convection, Some(5));
    assert_eq!(parse_record(config, &rows(&[])), Some(config));
    assert_eq!(parse_record(config, &rows(&["convection", "5"])), None);
    let more = parse_record(config, &rows(&["die", "1", "2", "3"])).unwrap();
    assert_eq!(more.convection, Some(5));
    assert_eq!(more.die, Some(Material { thickness: 1, conductivity: 2, specific_heat: 3 }));
}

#[test]
fn circuit_from_text() {
    let circuit = Circuit::new(Some(FLOORPLAN), Some(CONFIG)).unwrap();
    assert_eq!(circuit.cores, 2);
    assert_eq!(circuit.nodes, 3);
    assert_eq!(
        circuit.capacitance,
        vec![262_500_000_000_000, 262_500_000_000_000, 31_950_000_000_000_000]
    );
    assert_eq!(
        circuit.conductance,
        vec![
            -515_002_000_000,
            15_000_000_000,
            500_000_000_000,
            15_000_000_000,
            -515_002_000_000,
            500_000_000_000,
            500_000_000_000,
            500_000_000_000,
            -1_000_090_000_000,
        ]
    );
}

#[test]
fn circuit_from_text_is_the_circuit_of_what_the_text_says() {
    let blocks = vec![
        Block::new(b"a".to_vec(), 1000, 1000, 0, 0),
        Block::new(b"b".to_vec(), 1000, 1000, 1000, 0),
    ];
    let config = parse_config(CONFIG).unwrap();
    assert_eq!(
        Circuit::new(Some(FLOORPLAN), Some(CONFIG)).unwrap(),
        Circuit::build(blocks, &config).unwrap()
    );
}

#[test]
fn building_twice_from_text_gives_the_same_circuit() {
    let first = Circuit::new(Some(FLOORPLAN), Some(CONFIG)).unwrap();
    let second = Circuit::new(Some(FLOORPLAN), Some(CONFIG)).unwrap();
    assert_eq!(first.capacitance, second.capacitance);
    assert_eq!(first.conductance, second.conductance);
    assert_eq!(first, second);
}

#[test]
fn missing_floorplan_is_not_found() {
    assert_eq!(Circuit::new(None, Some(CONFIG)).unwrap_err(), Error::NotFound);
}

#[test]
fn missing_config_is_not_found() {
    assert_eq!(Circuit::new(Some(FLOORPLAN), None).unwrap_err(), Error::NotFound);
    assert_eq!(Circuit::new(None, None).unwrap_err(), Error::NotFound);
}

#[test]
fn missing_description_comes_before_any_reading() {
    assert_eq!(Circuit::new(None, Some(b"die ( 1 2\n\x00\xff")).unwrap_err(), Error::NotFound);
    assert_eq!(Circuit::new(Some(b"a b c\n\x00\xff"), None).unwrap_err(), Error::NotFound);
}

#[test]
fn text_that_is_not_plain_is_another_error() {
    assert_eq!(Circuit::new(Some(b"a 1 1 0 0\n\xc3\xa9"), Some(CONFIG)).unwrap_err(), Error::Other);
    assert_eq!(Circuit::new(Some(FLOORPLAN), Some(b"die 1 2 3\x00")).unwrap_err(), Error::Other);
    // It comes before what is wrong with the other text.
    assert_eq!(Circuit::new(Some(b"a 1 1"), Some(b"\xff")).unwrap_err(), Error::Other);
}

#[test]
fn duplicate_label_in_text_is_a_geometry_error() {
    let floorplan = b"core 10 10 0 0\ncache 10 10 10 0\ncore 10 10 20 0\n";
    assert_eq!(Circuit::new(Some(floorplan), Some(CONFIG)).unwrap_err(), Error::GeometryError);
}

#[test]
fn malformed_floorplan_text_is_a_geometry_error() {
    assert_eq!(Circuit::new(Some(b"a 10 10 0"), Some(CONFIG)).unwrap_err(), Error::GeometryError);
    assert_eq!(Circuit::new(Some(b"a 10 0 0 0"), Some(CONFIG)).unwrap_err(), Error::GeometryError);
    assert_eq!(Circuit::new(Some(b""), Some(CONFIG)).unwrap_err(), Error::GeometryError);
}

#[test]
fn floorplan_comes_before_configuration() {
    assert_eq!(Circuit::new(Some(b"a 10 10 0"), Some(b"die")).unwrap_err(), Error::GeometryError);
    assert_eq!(
        Circuit::new(Some(b"a 1 1 0 0\na 1 1 1 0"), Some(b"die")).unwrap_err(),
        Error::GeometryError
    );
    assert_eq!(Circuit::new(Some(FLOORPLAN), Some(b"die")).unwrap_err(), Error::ConfigError);
}

#[test]
fn specific_heat_that_is_not_positive_in_text_is_a_config_error() {
    for heat in ["0", "-1750000"] {
        let config = format!("die 150 100000000 {}\nconvection 10\n", heat);
        assert_eq!(
            Circuit::new(Some(FLOORPLAN), Some(config.as_bytes())).unwrap_err(),
            Error::ConfigError
        );
    }
}

#[test]
fn incomplete_configuration_is_a_config_error() {
    assert_eq!(Circuit::new(Some(FLOORPLAN), Some(b"")).unwrap_err(), Error::ConfigError);
    assert_eq!(
        Circuit::new(Some(FLOORPLAN), Some(b"die 150 100 100")).unwrap_err(),
        Error::ConfigError
    );
    assert_eq!(
        Circuit::new(Some(FLOORPLAN), Some(b"convection 10")).unwrap_err(),
        Error::ConfigError
    );
}

#[test]
fn blocks_that_do_not_fit_the_plate_are_a_geometry_error() {
    let config = b"die 150 100 100\nsink 10 100 100 1999 1000\nconvection 1";
    assert_eq!(Circuit::new(Some(FLOORPLAN), Some(config)).unwrap_err(), Error::GeometryError);
}

#[test]
fn vanishing_conductance_from_text_is_a_numerical_error() {
    let floorplan = b"a 100 1 0 0\nb 100 1 100 0";
    let config = b"die 1 1 1\nconvection 1";
    assert_eq!(Circuit::new(Some(floorplan), Some(config)).unwrap_err(), Error::NumericalError);
}
