use photometry::photometric_web_renderer::PhotometricWebRenderer;
use photometry::photweb::PhotometricWeb;
use photometry::symmetry::EulumdatSymmetry;

#[test]
fn test_default() {
    let phot_web_render = PhotometricWebRenderer::new();
    assert_eq!(phot_web_render.chart_radius, 200);
    assert_eq!(phot_web_render.ring_diff, 50);
    assert_eq!(phot_web_render.num_rings, 5);
    assert_eq!(phot_web_render.num_divisions, 12);
    assert_eq!(phot_web_render.label_radius, 220);
    assert_eq!(phot_web_render.label_font_size, 14);
    assert_eq!(phot_web_render.chart_size, 500);
    assert_eq!(phot_web_render.input_file, None);
    assert_eq!(phot_web_render.photweb.planes().len(), 0);
}

#[test]
fn trapezoid_integration() {
    let web = PhotometricWeb::from_samples(
        &[0],
        &[0, 90000],
        &[1000, 3000],
        EulumdatSymmetry::AboutVerticalAxis,
    )
    .unwrap();
    assert_eq!(web.planes()[0].integrate_intensity(), 180000000);
    assert_eq!(web.total_intensity(), 180000000);
}

#[test]
fn integration_rounds_down_and_sums_segments() {
    let web = PhotometricWeb::from_samples(
        &[0],
        &[0, 1, 4],
        &[1, 2, 2],
        EulumdatSymmetry::AboutVerticalAxis,
    )
    .unwrap();
    // Twice the area is 1 * 3 + 3 * 4 = 15.
    assert_eq!(web.planes()[0].integrate_intensity(), 7);
}

#[test]
fn total_sums_planes() {
    let az = vec![0, 90000, 180000, 270000];
    let values = vec![0, 2, 0, 4, 0, 6, 0, 8];
    let web = PhotometricWeb::from_samples(&az, &[0, 10], &values, EulumdatSymmetry::NoSymmetry)
        .unwrap();
    let each: Vec<u128> = web.planes().iter().map(|p| p.integrate_intensity()).collect();
    assert_eq!(each, vec![10, 20, 30, 40]);
    assert_eq!(web.total_intensity(), 100);
}

#[test]
fn plane_orientation_and_width() {
    let az: Vec<i64> = (0..4).map(|i| i * 90000).collect();
    let web = PhotometricWeb::from_samples(&az, &[0], &[1, 2, 3, 4], EulumdatSymmetry::NoSymmetry)
        .unwrap();
    let o: Vec<i64> = web.planes().iter().map(|p| p.orientation()).collect();
    assert_eq!(o, vec![0, 90000, 180000, -90000]);
    assert!(web.planes().iter().all(|p| p.width() == 90000));
}

#[test]
fn empty_web_totals_zero() {
    let web = PhotometricWeb::default();
    assert_eq!(web.total_intensity(), 0);
}
