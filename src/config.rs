//! Calculator settings: angle unit, precision and notation, and the
//! settings of the scientific backends and of number display.
use vstd::prelude::*;
use crate::token::NumberFormat;

verus! {

pub const DEFAULT_PRECISION: u32 = 10;

pub const MAX_PRECISION: u32 = 100;

pub const SCIENTIFIC_PRECISION: u32 = 15;

/// The unit in which trigonometric functions read their argument.
#[derive(Debug, Clone, Copy, PartialEq, Eq, Structural)]
pub enum AngleMode {
    Degrees,
    Radians,
}

#[derive(Debug, Clone, Copy, PartialEq, Eq, Structural)]
pub struct CalculatorConfig {
    pub precision: u32,
    pub angle_mode: AngleMode,
    pub notation: NumberFormat,
}

impl Default for CalculatorConfig {
    fn default() -> (r: CalculatorConfig)
        ensures
            r == (CalculatorConfig {
                precision: DEFAULT_PRECISION,
                angle_mode: AngleMode::Radians,
                notation: NumberFormat::Decimal,
            }),
    {
        CalculatorConfig {
            precision: DEFAULT_PRECISION,
            angle_mode: AngleMode::Radians,
            notation: NumberFormat::Decimal,
        }
    }
}

impl CalculatorConfig {
    pub fn scientific() -> (r: CalculatorConfig)
        ensures
            r == (CalculatorConfig {
                precision: SCIENTIFIC_PRECISION,
                angle_mode: AngleMode::Radians,
                notation: NumberFormat::Scientific,
            }),
    {
        CalculatorConfig {
            precision: SCIENTIFIC_PRECISION,
            angle_mode: AngleMode::Radians,
            notation: NumberFormat::Scientific,
        }
    }

    /// The default settings with engineering notation.
    pub fn engineering() -> (r: CalculatorConfig)
        ensures
            r == (CalculatorConfig {
                precision: DEFAULT_PRECISION,
                angle_mode: AngleMode::Radians,
                notation: NumberFormat::Engineering,
            }),
    {
        let base = CalculatorConfig::default();
        CalculatorConfig { notation: NumberFormat::Engineering, ..base }
    }
}

/// The settings shared by every calculator of a process: the defaults.
pub fn get_global_config() -> (r: CalculatorConfig)
    ensures
        r == (CalculatorConfig {
            precision: DEFAULT_PRECISION,
            angle_mode: AngleMode::Radians,
            notation: NumberFormat::Decimal,
        }),
{
    CalculatorConfig::default()
}

/// Calculators that share one configuration.
pub struct CalculatorPool {
    shared_config: CalculatorConfig,
}

impl CalculatorPool {
    pub fn new(config: CalculatorConfig) -> (r: CalculatorPool)
        ensures
            r.config() == config,
    {
        CalculatorPool { shared_config: config }
    }

    pub closed spec fn config(&self) -> CalculatorConfig {
        self.shared_config
    }

    pub fn get_config(&self) -> (r: CalculatorConfig)
        ensures
            r == self.config(),
    {
        self.shared_config
    }
}

/// The settings of the standard scientific backend.
#[derive(Debug, Clone, Copy, PartialEq, Eq, Structural)]
pub struct StandardScientificOperations {
    pub angle_mode: AngleMode,
}

/// The settings of a backend that an outside numeric library provides.
#[derive(Debug, Clone, Copy, PartialEq, Eq, Structural)]
pub struct ExternalLibraryAdapter {
    pub angle_mode: AngleMode,
}

impl ExternalLibraryAdapter {
    pub fn new(angle_mode: AngleMode) -> (r: ExternalLibraryAdapter)
        ensures
            r.angle_mode == angle_mode,
    {
        ExternalLibraryAdapter { angle_mode }
    }
}

/// Display with a fixed number of decimal places.
#[derive(Debug, Clone, Copy, PartialEq, Eq, Structural)]
pub struct StandardPrecision {
    pub decimal_places: usize,
}

impl StandardPrecision {
    pub fn new(decimal_places: usize) -> (r: StandardPrecision)
        ensures
            r.decimal_places == decimal_places,
    {
        StandardPrecision { decimal_places }
    }
}

/// Display with a fixed number of significant figures.
#[derive(Debug, Clone, Copy, PartialEq, Eq, Structural)]
pub struct ScientificPrecision {
    pub significant_figures: usize,
}

impl ScientificPrecision {
    pub fn new(significant_figures: usize) -> (r: ScientificPrecision)
        ensures
            r.significant_figures == significant_figures,
    {
        ScientificPrecision { significant_figures }
    }
}

/// The base in which programmer mode shows integers.
#[derive(Debug, Clone, Copy, PartialEq, Eq, Structural)]
pub enum NumberBase {
    Binary,
    Octal,
    Decimal,
    Hexadecimal,
}

/// The calculator mode for integer work in several bases.
#[derive(Debug, Clone, Copy, PartialEq, Eq, Structural)]
pub struct ProgrammerMode {
    pub base: NumberBase,
}

impl ProgrammerMode {
    pub fn new() -> (r: ProgrammerMode)
        ensures
            r.base == NumberBase::Decimal,
    {
        ProgrammerMode { base: NumberBase::Decimal }
    }
}

/// Which mode a saved calculator state was in.
#[derive(Debug, Clone, Copy, PartialEq, Eq, Structural)]
pub enum CalculatorStateType {
    Standard,
    Scientific,
    Programmer,
}

} // verus!
