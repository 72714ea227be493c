use gov::cell::{stations, L1_MM, L2_MM};

#[test]
fn every_station_is_reachable() {
    for s in stations() {
        let (x, y) = (s.x_mm as f64, s.y_mm as f64);
        assert!(
            (x * x + y * y).sqrt() < (L1_MM + L2_MM) as f64,
            "{} is outside the workspace",
            s.name
        );
    }
}
