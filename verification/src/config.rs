//! Lobby and maze generation configuration.
use vstd::prelude::*;

verus! {

/// Where the nest of a generated maze is placed.
#[derive(Debug, Clone, Copy, PartialEq, Eq, Structural)]
pub enum NestPositioning {
    /// Uniformly random over the grid.
    Randomized,
    /// A fixed `(column, line)` position.
    Fixed(u32, u32),
}

/// Maze generation parameters.
///
/// A coefficient is stored in hundredths, so that the dimension formulas
/// `base + floor(coeff * difficulty)` can be computed exactly in integers:
/// a stored `coeff_centi` of 300 stands for a coefficient of 3.0.
#[derive(Debug, Clone, Copy)]
pub struct GeneratorConfig {
    pub column_min: u32,
    pub column_coeff_centi: u32,
    pub line_min: u32,
    pub line_coeff_centi: u32,
    pub nb_food_min: u32,
    pub nb_food_coeff_centi: u32,
    pub carving_amount: u32,
    pub basic_generator_size: u32,
    pub nest_pos: NestPositioning,
}

/// `base + floor((coeff_centi / 100) * d)`, exactly, without overflow.
pub open spec fn spec_scaled(base: u32, coeff_centi: u32, d: u32) -> int {
    base + (coeff_centi * d) / 100
}

/// Compute one scaled generation parameter in 64 bits.
pub fn scaled(base: u32, coeff_centi: u32, d: u32) -> (r: u64)
    ensures
        r == spec_scaled(base, coeff_centi, d),
{
    proof {
        assert((coeff_centi as int) * (d as int) < 0x10000000000000000int) by (nonlinear_arith)
            requires
                coeff_centi <= u32::MAX,
                d <= u32::MAX,
        ;
        assert((coeff_centi as int) * (d as int) >= 0) by (nonlinear_arith)
            requires
                coeff_centi >= 0,
                d >= 0,
        ;
    }
    base as u64 + (coeff_centi as u64) * (d as u64) / 100
}

/// The default generation parameters: a 5 by 4 maze at difficulty zero,
/// growing by 3 tiles each way per difficulty step, one food plus one
/// more every fourth step, two carving passes, and a fixed nest.
pub open spec fn spec_default_generator() -> GeneratorConfig {
    GeneratorConfig {
        column_min: 5,
        column_coeff_centi: 300,
        line_min: 4,
        line_coeff_centi: 300,
        nb_food_min: 1,
        nb_food_coeff_centi: 25,
        carving_amount: 2,
        basic_generator_size: 6,
        nest_pos: NestPositioning::Fixed(1, 1),
    }
}

impl Default for GeneratorConfig {
    fn default() -> (r: GeneratorConfig)
        ensures
            r == spec_default_generator(),
    {
        GeneratorConfig {
            column_min: 5,
            column_coeff_centi: 300,
            line_min: 4,
            line_coeff_centi: 300,
            nb_food_min: 1,
            nb_food_coeff_centi: 25,
            carving_amount: 2,
            basic_generator_size: 6,
            nest_pos: NestPositioning::Fixed(1, 1),
        }
    }
}

/// Lobby configuration.
#[derive(Debug, Clone, Copy)]
pub struct LobbyConfig {
    /// Whether sessions keep a record of the messages they process.
    pub record_games: bool,
    pub generator: GeneratorConfig,
}

impl Default for LobbyConfig {
    fn default() -> (r: LobbyConfig)
        ensures
            !r.record_games,
            r.generator == spec_default_generator(),
    {
        LobbyConfig { record_games: false, generator: GeneratorConfig::default() }
    }
}

} // verus!
