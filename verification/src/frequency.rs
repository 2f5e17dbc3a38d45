use vstd::prelude::*;

verus! {

/// An octave band that the simulation runs at.
pub trait SimulationFrequency {
    /// The band's nominal centre frequency, in hertz.
    fn hz() -> (f: u32)
        ensures
            f > 0,
    ;

    /// The ISO 9613-1 atmospheric absorption coefficient at the band's
    /// frequency, for air at 20 degrees Celsius, 50 % relative humidity and
    /// 101.325 kPa, as an exponential amplitude attenuation (a gain of
    /// `exp(-alpha * d)` over `d` metres), in units of 1e-12 per metre: the
    /// standard's formula evaluated in single precision and rounded to the
    /// nearest unit.
    fn air_alpha() -> (alpha: u64)
        ensures
            alpha > 0,
    ;
}

/// The octave band centred on 63 Hz.
#[allow(non_camel_case_types)]
pub struct F_63_HZ(());

impl SimulationFrequency for F_63_HZ {
    fn hz() -> (f: u32)
        ensures
            f == 63,
    {
        63
    }

    fn air_alpha() -> (alpha: u64)
        ensures
            alpha == 14097689,
    {
        14097689
    }
}

/// The octave band centred on 125 Hz.
#[allow(non_camel_case_types)]
pub struct F_125_HZ(());

impl SimulationFrequency for F_125_HZ {
    fn hz() -> (f: u32)
        ensures
            f == 125,
    {
        125
    }

    fn air_alpha() -> (alpha: u64)
        ensures
            alpha == 50632698,
    {
        50632698
    }
}

/// The octave band centred on 250 Hz.
#[allow(non_camel_case_types)]
pub struct F_250_HZ(());

impl SimulationFrequency for F_250_HZ {
    fn hz() -> (f: u32)
        ensures
            f == 250,
    {
        250
    }

    fn air_alpha() -> (alpha: u64)
        ensures
            alpha == 150790496,
    {
        150790496
    }
}

/// The octave band centred on 500 Hz.
#[allow(non_camel_case_types)]
pub struct F_500_HZ(());

impl SimulationFrequency for F_500_HZ {
    fn hz() -> (f: u32)
        ensures
            f == 500,
    {
        500
    }

    fn air_alpha() -> (alpha: u64)
        ensures
            alpha == 314087898,
    {
        314087898
    }
}

/// The octave band centred on 1000 Hz.
#[allow(non_camel_case_types)]
pub struct F_1000_HZ(());

impl SimulationFrequency for F_1000_HZ {
    fn hz() -> (f: u32)
        ensures
            f == 1000,
    {
        1000
    }

    fn air_alpha() -> (alpha: u64)
        ensures
            alpha == 537046872,
    {
        537046872
    }
}

/// The octave band centred on 2000 Hz.
#[allow(non_camel_case_types)]
pub struct F_2000_HZ(());

impl SimulationFrequency for F_2000_HZ {
    fn hz() -> (f: u32)
        ensures
            f == 2000,
    {
        2000
    }

    fn air_alpha() -> (alpha: u64)
        ensures
            alpha == 1138284802,
    {
        1138284802
    }
}

/// The octave band centred on 4000 Hz.
#[allow(non_camel_case_types)]
pub struct F_4000_HZ(());

impl SimulationFrequency for F_4000_HZ {
    fn hz() -> (f: u32)
        ensures
            f == 4000,
    {
        4000
    }

    fn air_alpha() -> (alpha: u64)
        ensures
            alpha == 3415371524,
    {
        3415371524
    }
}

/// The octave band centred on 8000 Hz.
#[allow(non_camel_case_types)]
pub struct F_8000_HZ(());

impl SimulationFrequency for F_8000_HZ {
    fn hz() -> (f: u32)
        ensures
            f == 8000,
    {
        8000
    }

    fn air_alpha() -> (alpha: u64)
        ensures
            alpha == 12122072279,
    {
        12122072279
    }
}

/// The octave band centred on 16000 Hz.
#[allow(non_camel_case_types)]
pub struct F_16000_HZ(());

impl SimulationFrequency for F_16000_HZ {
    fn hz() -> (f: u32)
        ensures
            f == 16000,
    {
        16000
    }

    fn air_alpha() -> (alpha: u64)
        ensures
            alpha == 41969344020,
    {
        41969344020
    }
}

} // verus!
