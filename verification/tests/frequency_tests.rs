use ga_sim::frequency::{
    SimulationFrequency, F_1000_HZ, F_125_HZ, F_16000_HZ, F_2000_HZ, F_250_HZ, F_4000_HZ, F_500_HZ,
    F_63_HZ, F_8000_HZ,
};

#[test]
fn frequency_crabtime() {
    assert!(F_63_HZ::air_alpha() > 0);
    assert!(F_125_HZ::air_alpha() > 0);
    assert!(F_250_HZ::air_alpha() > 0);
    assert!(F_500_HZ::air_alpha() > 0);
    assert!(F_1000_HZ::air_alpha() > 0);
    assert!(F_2000_HZ::air_alpha() > 0);
    assert!(F_4000_HZ::air_alpha() > 0);
    assert!(F_8000_HZ::air_alpha() > 0);
    assert!(F_16000_HZ::air_alpha() > 0);
}

#[test]
fn band_centres_and_known_absorption() {
    assert_eq!(F_63_HZ::hz(), 63);
    assert_eq!(F_16000_HZ::hz(), 16000);
    // About 4.66 dB per kilometre at 1 kHz.
    let db_per_km = F_1000_HZ::air_alpha() as f64 * 1e-12 * 20.0 / std::f64::consts::LN_10 * 1000.0;
    assert!((db_per_km - 4.66).abs() < 0.01);
    assert!(F_63_HZ::air_alpha() < F_125_HZ::air_alpha());
    assert!(F_8000_HZ::air_alpha() < F_16000_HZ::air_alpha());
}
