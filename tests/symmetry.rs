use photometry::photweb::PhotometricWeb;
use photometry::symmetry::{reconcile, Assignment, EulumdatSymmetry, ReconcileError};

fn tens(from: i64, to_excl: i64) -> Vec<i64> {
    (from..to_excl).step_by(10).map(|a| a * 1000).collect()
}

fn full_circle() -> Vec<i64> {
    (0..360).step_by(10).map(|a| a * 1000).collect()
}

fn first_intensities(web: &PhotometricWeb) -> Vec<i64> {
    web.planes().iter().map(|pl| pl.intensities()[0]).collect()
}

fn azimuths(web: &PhotometricWeb) -> Vec<i64> {
    web.planes().iter().map(|pl| pl.angle_mdeg()).collect()
}

#[test]
fn test_get_planes_c0c180_symmetry() {
    let c = tens(0, 190);
    let photweb =
        PhotometricWeb::from_samples(&c, &[0], &c, EulumdatSymmetry::C0C180Plane).unwrap();
    assert_eq!(photweb.planes().iter().count(), 36);
    assert_eq!(azimuths(&photweb), full_circle());
    let expected: Vec<i64> = vec![
        0.0, 10.0, 20.0, 30.0, 40.0, 50.0, 60.0, 70.0, 80.0, 90.0, 100.0, 110.0, 120.0, 130.0,
        140.0, 150.0, 160.0, 170.0, 180.0, 170.0, 160.0, 150.0, 140.0, 130.0, 120.0, 110.0,
        100.0, 90.0, 80.0, 70.0, 60.0, 50.0, 40.0, 30.0, 20.0, 10.0,
    ]
    .iter()
    .map(|v: &f64| (v * 1000.0) as i64)
    .collect();
    assert_eq!(first_intensities(&photweb), expected);
}

#[test]
fn test_get_planes_c90c270_symmetry() {
    let c = tens(90, 280);
    let photweb =
        PhotometricWeb::from_samples(&c, &[0], &c, EulumdatSymmetry::C90C270Plane).unwrap();
    assert_eq!(photweb.planes().iter().count(), 36);
    assert_eq!(azimuths(&photweb), full_circle());
    let expected: Vec<i64> = vec![
        180.0, 170.0, 160.0, 150.0, 140.0, 130.0, 120.0, 110.0, 100.0, 90.0, 100.0, 110.0,
        120.0, 130.0, 140.0, 150.0, 160.0, 170.0, 180.0, 190.0, 200.0, 210.0, 220.0, 230.0,
        240.0, 250.0, 260.0, 270.0, 260.0, 250.0, 240.0, 230.0, 220.0, 210.0, 200.0, 190.0,
    ]
    .iter()
    .map(|v: &f64| (v * 1000.0) as i64)
    .collect();
    assert_eq!(first_intensities(&photweb), expected);
}

#[test]
fn test_get_planes_c0c180c90c270_symmetry() {
    let c = tens(0, 100);
    let photweb =
        PhotometricWeb::from_samples(&c, &[0], &c, EulumdatSymmetry::C0C180C90C270Plane)
            .unwrap();
    assert_eq!(photweb.planes().iter().count(), 36);
    assert_eq!(azimuths(&photweb), full_circle());
    let expected: Vec<i64> = vec![
        0.0, 10.0, 20.0, 30.0, 40.0, 50.0, 60.0, 70.0, 80.0, 90.0, 80.0, 70.0, 60.0, 50.0, 40.0,
        30.0, 20.0, 10.0, 0.0, 10.0, 20.0, 30.0, 40.0, 50.0, 60.0, 70.0, 80.0, 90.0, 80.0, 70.0,
        60.0, 50.0, 40.0, 30.0, 20.0, 10.0,
    ]
    .iter()
    .map(|v: &f64| (v * 1000.0) as i64)
    .collect();
    assert_eq!(first_intensities(&photweb), expected);
}

#[test]
fn test_get_planes_spherical_symmetry() {
    let photweb = PhotometricWeb::from_samples(
        &[0],
        &[0],
        &[1000],
        EulumdatSymmetry::AboutVerticalAxis,
    )
    .unwrap();
    assert_eq!(photweb.planes().iter().count(), 1);
    assert_eq!(azimuths(&photweb), vec![0]);
    assert_eq!(first_intensities(&photweb), vec![1000]);
}

#[test]
fn spherical_ignores_resolution() {
    let c = tens(0, 360);
    let values: Vec<i64> = (0..36).map(|i| i + 7).collect();
    let out = reconcile(&c, EulumdatSymmetry::AboutVerticalAxis).unwrap();
    assert_eq!(out, vec![Assignment { azimuth: 0, source: 0 }]);
    let web = PhotometricWeb::from_samples(&c, &[0], &values, EulumdatSymmetry::AboutVerticalAxis)
        .unwrap();
    assert_eq!(first_intensities(&web), vec![7]);
    assert_eq!(web.planes()[0].width(), 360000);
}

#[test]
fn no_symmetry_passes_through() {
    let c = tens(0, 360);
    let out = reconcile(&c, EulumdatSymmetry::NoSymmetry).unwrap();
    assert_eq!(out.len(), c.len());
    for (k, a) in out.iter().enumerate() {
        assert_eq!(a.azimuth, c[k]);
        assert_eq!(a.source, k);
    }
}

#[test]
fn no_symmetry_needs_full_coverage() {
    let c = tens(0, 180);
    assert_eq!(reconcile(&c, EulumdatSymmetry::NoSymmetry), Err(ReconcileError::AngleNotFound));
}

#[test]
fn uneven_grid_fails() {
    let c = vec![0, 10000, 25000, 30000];
    assert_eq!(reconcile(&c, EulumdatSymmetry::C0C180Plane), Err(ReconcileError::NonUniformGrid));
}

#[test]
fn step_must_tile_the_domain() {
    let c = tens(0, 90).into_iter().step_by(2).collect::<Vec<i64>>();
    assert_eq!(c, vec![0, 20000, 40000, 60000, 80000]);
    assert_eq!(
        reconcile(&c, EulumdatSymmetry::C0C180C90C270Plane),
        Err(ReconcileError::NonUniformGrid)
    );
}

#[test]
fn missing_fold_target_fails() {
    let c = tens(0, 180);
    assert_eq!(reconcile(&c, EulumdatSymmetry::C0C180Plane), Err(ReconcileError::AngleNotFound));
    let c = tens(100, 280);
    assert_eq!(reconcile(&c, EulumdatSymmetry::C90C270Plane), Err(ReconcileError::AngleNotFound));
}

#[test]
fn single_sample_has_no_step() {
    assert_eq!(reconcile(&[0], EulumdatSymmetry::C0C180Plane), Err(ReconcileError::NonUniformGrid));
    assert_eq!(reconcile(&[], EulumdatSymmetry::AboutVerticalAxis), Err(ReconcileError::AngleNotFound));
}

#[test]
fn mirror_laws_on_concrete_grid() {
    let c = tens(0, 190);
    let out = reconcile(&c, EulumdatSymmetry::C0C180Plane).unwrap();
    for a in &out {
        let mirrored = (360000 - a.azimuth) % 360000;
        let m = out.iter().find(|b| b.azimuth == mirrored).unwrap();
        assert_eq!(m.source, a.source);
    }
    let c = tens(0, 100);
    let out = reconcile(&c, EulumdatSymmetry::C0C180C90C270Plane).unwrap();
    for a in &out {
        let m1 = (180000 - a.azimuth).rem_euclid(360000);
        let m2 = (360000 - a.azimuth) % 360000;
        assert_eq!(out.iter().find(|b| b.azimuth == m1).unwrap().source, a.source);
        assert_eq!(out.iter().find(|b| b.azimuth == m2).unwrap().source, a.source);
    }
    let c = tens(90, 280);
    let out = reconcile(&c, EulumdatSymmetry::C90C270Plane).unwrap();
    for a in &out {
        let m = (180000 - a.azimuth).rem_euclid(360000);
        assert_eq!(out.iter().find(|b| b.azimuth == m).unwrap().source, a.source);
    }
}
