//! The two descriptions that a circuit is built from, as text.
//!
//! A floorplan holds one block per line: the label, then width, height, x
//! and y, and then scaling factors, if any. A configuration holds one record
//! per line: `die`, with thickness, conductivity and specific heat;
//! `interface`, `spreader` and `sink`, each with thickness, conductivity,
//! specific heat, width and height; `convection` and `secondary_convection`,
//! each with a coefficient. No record may occur twice. Empty lines and
//! comments are passed over in both.

use vstd::prelude::*;
use vstd::slice::slice_to_vec;
use vstd::string::StringSliceAdditionalSpecFns;
use crate::error::Error;
use crate::geometry::{block_models, Block, BlockModel};
use crate::layers::{Config, Material, Plate};
use crate::text::{
    byte_rows,
    equal_bytes,
    lines_of,
    number_value,
    parse_number,
    split_lines,
    split_tokens,
    tokens_of,
};

verus! {

/// The numbers that the tokens denote, if each denotes one.
pub open spec fn numbers_of(tokens: Seq<Seq<u8>>) -> Option<Seq<i64>>
    decreases tokens.len(),
{
    if tokens.len() == 0 {
        Some(Seq::empty())
    } else {
        match (numbers_of(tokens.drop_last()), number_value(tokens.last())) {
            (Some(ns), Some(v)) => Some(ns.push(v)),
            _ => None,
        }
    }
}

/// The block that the tokens of a line describe, if they describe one.
pub open spec fn block_of(tokens: Seq<Seq<u8>>) -> Option<BlockModel> {
    if tokens.len() < 5 {
        None
    } else {
        match numbers_of(tokens.subrange(1, tokens.len() as int)) {
            Some(ns) => Some(
                BlockModel {
                    label: tokens[0],
                    width: ns[0] as int,
                    height: ns[1] as int,
                    x: ns[2] as int,
                    y: ns[3] as int,
                    scaling: ns.subrange(4, ns.len() as int),
                },
            ),
            None => None,
        }
    }
}

/// The blocks that the lines describe, in order, if every line that holds
/// a token describes a block.
pub open spec fn blocks_of_lines(lines: Seq<Seq<u8>>) -> Option<Seq<BlockModel>>
    decreases lines.len(),
{
    if lines.len() == 0 {
        Some(Seq::empty())
    } else {
        match blocks_of_lines(lines.drop_last()) {
            Some(blocks) => {
                let tokens = tokens_of(lines.last());
                if tokens.len() == 0 {
                    Some(blocks)
                } else {
                    match block_of(tokens) {
                        Some(b) => Some(blocks.push(b)),
                        None => None,
                    }
                }
            },
            None => None,
        }
    }
}

/// The blocks that a floorplan text describes, if it is well formed.
pub open spec fn floorplan_blocks(text: Seq<u8>) -> Option<Seq<BlockModel>> {
    blocks_of_lines(lines_of(text))
}

/// The material that three numbers describe.
pub open spec fn material_from(ns: Seq<i64>) -> Material {
    Material { thickness: ns[0], conductivity: ns[1], specific_heat: ns[2] }
}

/// The plate that five numbers describe.
pub open spec fn plate_from(ns: Seq<i64>) -> Plate {
    Plate { material: material_from(ns), width: ns[3], height: ns[4] }
}

/// The configuration that names nothing.
pub open spec fn empty_config() -> Config {
    Config {
        die: None,
        interface: None,
        spreader: None,
        sink: None,
        convection: None,
        secondary_convection: None,
    }
}

/// The configuration with the record of one line added, if the line holds
/// a well-formed record that the configuration does not hold yet. A line
/// without a token adds nothing.
pub open spec fn record_into(config: Config, tokens: Seq<Seq<u8>>) -> Option<Config> {
    if tokens.len() == 0 {
        Some(config)
    } else {
        match numbers_of(tokens.subrange(1, tokens.len() as int)) {
            Some(ns) => {
                if tokens[0] == "die".spec_bytes() {
                    if config.die is None && ns.len() == 3 {
                        Some(Config { die: Some(material_from(ns)), ..config })
                    } else {
                        None
                    }
                } else if tokens[0] == "interface".spec_bytes() {
                    if config.interface is None && ns.len() == 5 {
                        Some(Config { interface: Some(plate_from(ns)), ..config })
                    } else {
                        None
                    }
                } else if tokens[0] == "spreader".spec_bytes() {
                    if config.spreader is None && ns.len() == 5 {
                        Some(Config { spreader: Some(plate_from(ns)), ..config })
                    } else {
                        None
                    }
                } else if tokens[0] == "sink".spec_bytes() {
                    if config.sink is None && ns.len() == 5 {
                        Some(Config { sink: Some(plate_from(ns)), ..config })
                    } else {
                        None
                    }
                } else if tokens[0] == "convection".spec_bytes() {
                    if config.convection is None && ns.len() == 1 {
                        Some(Config { convection: Some(ns[0]), ..config })
                    } else {
                        None
                    }
                } else if tokens[0] == "secondary_convection".spec_bytes() {
                    if config.secondary_convection is None && ns.len() == 1 {
                        Some(Config { secondary_convection: Some(ns[0]), ..config })
                    } else {
                        None
                    }
                } else {
                    None
                }
            },
            None => None,
        }
    }
}

/// The configuration that the lines describe, if every line is well formed.
pub open spec fn config_of_lines(lines: Seq<Seq<u8>>) -> Option<Config>
    decreases lines.len(),
{
    if lines.len() == 0 {
        Some(empty_config())
    } else {
        match config_of_lines(lines.drop_last()) {
            Some(config) => record_into(config, tokens_of(lines.last())),
            None => None,
        }
    }
}

/// The configuration that a text describes, if it is well formed.
pub open spec fn config_record(text: Seq<u8>) -> Option<Config> {
    config_of_lines(lines_of(text))
}

/// Where the first tokens do not all denote numbers, neither do all tokens.
pub proof fn lemma_numbers_fail(tokens: Seq<Seq<u8>>, k: int)
    requires
        0 <= k <= tokens.len(),
        numbers_of(tokens.take(k)) is None,
    ensures
        numbers_of(tokens) is None,
    decreases tokens.len() - k,
{
    if k < tokens.len() {
        assert(tokens.take(k + 1).drop_last() =~= tokens.take(k));
        lemma_numbers_fail(tokens, k + 1);
    } else {
        assert(tokens.take(k) =~= tokens);
    }
}

/// Where the first lines do not describe blocks, neither do all lines.
pub proof fn lemma_blocks_fail(lines: Seq<Seq<u8>>, k: int)
    requires
        0 <= k <= lines.len(),
        blocks_of_lines(lines.take(k)) is None,
    ensures
        blocks_of_lines(lines) is None,
    decreases lines.len() - k,
{
    if k < lines.len() {
        assert(lines.take(k + 1).drop_last() =~= lines.take(k));
        lemma_blocks_fail(lines, k + 1);
    } else {
        assert(lines.take(k) =~= lines);
    }
}

/// Where the first lines do not describe a configuration, neither do all
/// lines.
pub proof fn lemma_config_fails(lines: Seq<Seq<u8>>, k: int)
    requires
        0 <= k <= lines.len(),
        config_of_lines(lines.take(k)) is None,
    ensures
        config_of_lines(lines) is None,
    decreases lines.len() - k,
{
    if k < lines.len() {
        assert(lines.take(k + 1).drop_last() =~= lines.take(k));
        lemma_config_fails(lines, k + 1);
    } else {
        assert(lines.take(k) =~= lines);
    }
}

/// Reads the tokens from position `from` on as numbers.
pub fn parse_numbers(tokens: &Vec<Vec<u8>>, from: usize) -> (r: Option<Vec<i64>>)
    requires
        from <= tokens@.len(),
    ensures
        match r {
            Some(v) => numbers_of(
                byte_rows(tokens@).subrange(from as int, tokens@.len() as int),
            ) == Some(v@) && v@.len() == tokens@.len() - from,
            None => numbers_of(byte_rows(tokens@).subrange(from as int, tokens@.len() as int))
                is None,
        },
{
    let n: usize = tokens.len();
    let ghost rest = byte_rows(tokens@).subrange(from as int, n as int);
    let mut numbers: Vec<i64> = Vec::new();
    let mut i: usize = from;
    assert(rest.take(0) =~= Seq::<Seq<u8>>::empty());
    while i < n
        invariant
            n == tokens@.len(),
            from <= i <= n,
            rest == byte_rows(tokens@).subrange(from as int, n as int),
            numbers_of(rest.take(i - from)) == Some(numbers@),
            numbers@.len() == i - from,
        decreases n - i,
    {
        proof {
            assert(rest.take(i - from + 1).drop_last() =~= rest.take(i - from));
            assert(rest.take(i - from + 1).last() == tokens@[i as int]@);
        }
        match parse_number(tokens[i].as_slice()) {
            Some(v) => {
                numbers.push(v);
            },
            None => {
                proof {
                    lemma_numbers_fail(rest, i - from + 1);
                }
                return None;
            },
        }
        i += 1;
    }
    proof {
        assert(rest.take(n - from) =~= rest);
    }
    Some(numbers)
}

/// Reads the tokens of a line as a block.
pub fn parse_block(tokens: &Vec<Vec<u8>>) -> (r: Option<Block>)
    ensures
        match r {
            Some(b) => block_of(byte_rows(tokens@)) == Some(b@),
            None => block_of(byte_rows(tokens@)) is None,
        },
{
    if tokens.len() < 5 {
        return None;
    }
    let mut numbers = match parse_numbers(tokens, 1) {
        Some(v) => v,
        None => {
            return None;
        },
    };
    let ghost ns = numbers@;
    let scaling = numbers.split_off(4);
    let label = slice_to_vec(tokens[0].as_slice());
    let b = Block {
        label,
        width: numbers[0],
        height: numbers[1],
        x: numbers[2],
        y: numbers[3],
        scaling,
    };
    proof {
        assert(b@ =~= block_of(byte_rows(tokens@)).unwrap());
    }
    Some(b)
}

/// Reads a floorplan: one block per line that holds a token.
pub fn parse_floorplan(text: &[u8]) -> (r: Result<Vec<Block>, Error>)
    ensures
        match r {
            Ok(blocks) => floorplan_blocks(text@) == Some(block_models(blocks@)),
            Err(e) => e == Error::GeometryError && floorplan_blocks(text@) is None,
        },
{
    let lines = split_lines(text);
    let ghost rows = byte_rows(lines@);
    let n: usize = lines.len();
    let mut blocks: Vec<Block> = Vec::new();
    let mut i: usize = 0;
    assert(rows.take(0) =~= Seq::<Seq<u8>>::empty());
    assert(block_models(blocks@) =~= Seq::<BlockModel>::empty());
    while i < n
        invariant
            n == lines@.len(),
            rows == byte_rows(lines@),
            rows == lines_of(text@),
            i <= n,
            blocks_of_lines(rows.take(i as int)) == Some(block_models(blocks@)),
        decreases n - i,
    {
        proof {
            assert(rows.take(i + 1).drop_last() =~= rows.take(i as int));
            assert(rows.take(i + 1).last() == lines@[i as int]@);
        }
        let tokens = split_tokens(lines[i].as_slice());
        if tokens.len() > 0 {
            match parse_block(&tokens) {
                Some(b) => {
                    let ghost before = block_models(blocks@);
                    blocks.push(b);
                    assert(block_models(blocks@) =~= before.push(b@));
                },
                None => {
                    proof {
                        lemma_blocks_fail(rows, i + 1);
                    }
                    return Err(Error::GeometryError);
                },
            }
        }
        i += 1;
    }
    proof {
        assert(rows.take(n as int) =~= rows);
    }
    Ok(blocks)
}

/// Tells whether a token is the given word.
pub fn is_word(token: &Vec<u8>, word: &str) -> (r: bool)
    ensures
        r == (token@ == word.spec_bytes()),
{
    equal_bytes(token.as_slice(), word.as_bytes())
}

/// Reads the tokens of a line as a record and adds it to a configuration.
pub fn parse_record(config: Config, tokens: &Vec<Vec<u8>>) -> (r: Option<Config>)
    ensures
        r == record_into(config, byte_rows(tokens@)),
{
    if tokens.len() == 0 {
        return Some(config);
    }
    let numbers = match parse_numbers(tokens, 1) {
        Some(v) => v,
        None => {
            return None;
        },
    };
    let key = &tokens[0];
    assert(byte_rows(tokens@)[0] == key@);
    if is_word(key, "die") {
        if config.die.is_none() && numbers.len() == 3 {
            Some(Config { die: Some(material(&numbers)), ..config })
        } else {
            None
        }
    } else if is_word(key, "interface") {
        if config.interface.is_none() && numbers.len() == 5 {
            Some(Config { interface: Some(plate(&numbers)), ..config })
        } else {
            None
        }
    } else if is_word(key, "spreader") {
        if config.spreader.is_none() && numbers.len() == 5 {
            Some(Config { spreader: Some(plate(&numbers)), ..config })
        } else {
            None
        }
    } else if is_word(key, "sink") {
        if config.sink.is_none() && numbers.len() == 5 {
            Some(Config { sink: Some(plate(&numbers)), ..config })
        } else {
            None
        }
    } else if is_word(key, "convection") {
        if config.convection.is_none() && numbers.len() == 1 {
            Some(Config { convection: Some(numbers[0]), ..config })
        } else {
            None
        }
    } else if is_word(key, "secondary_convection") {
        if config.secondary_convection.is_none() && numbers.len() == 1 {
            Some(Config { secondary_convection: Some(numbers[0]), ..config })
        } else {
            None
        }
    } else {
        None
    }
}

/// The material that the first three numbers describe.
fn material(numbers: &Vec<i64>) -> (m: Material)
    requires
        numbers@.len() >= 3,
    ensures
        m == material_from(numbers@),
{
    Material { thickness: numbers[0], conductivity: numbers[1], specific_heat: numbers[2] }
}

/// The plate that the first five numbers describe.
fn plate(numbers: &Vec<i64>) -> (p: Plate)
    requires
        numbers@.len() >= 5,
    ensures
        p == plate_from(numbers@),
{
    Plate { material: material(numbers), width: numbers[3], height: numbers[4] }
}

/// Reads a configuration: one record per line that holds a token.
pub fn parse_config(text: &[u8]) -> (r: Result<Config, Error>)
    ensures
        match r {
            Ok(c) => config_record(text@) == Some(c),
            Err(e) => e == Error::ConfigError && config_record(text@) is None,
        },
{
    let lines = split_lines(text);
    let ghost rows = byte_rows(lines@);
    let n: usize = lines.len();
    let mut config = Config::empty();
    let mut i: usize = 0;
    assert(rows.take(0) =~= Seq::<Seq<u8>>::empty());
    while i < n
        invariant
            n == lines@.len(),
            rows == byte_rows(lines@),
            rows == lines_of(text@),
            i <= n,
            config_of_lines(rows.take(i as int)) == Some(config),
        decreases n - i,
    {
        proof {
            assert(rows.take(i + 1).drop_last() =~= rows.take(i as int));
            assert(rows.take(i + 1).last() == lines@[i as int]@);
        }
        let tokens = split_tokens(lines[i].as_slice());
        match parse_record(config, &tokens) {
            Some(c) => {
                config = c;
            },
            None => {
                proof {
                    lemma_config_fails(rows, i + 1);
                }
                return Err(Error::ConfigError);
            },
        }
        i += 1;
    }
    proof {
        assert(rows.take(n as int) =~= rows);
    }
    Ok(config)
}

} // verus!
