use photometry::eulumdat::{EulumdatFile, ParseError};
use photometry::number::{parse_count, parse_decimal};
use photometry::photweb::PhotometricWeb;
use photometry::symmetry::EulumdatSymmetry;

/// A file without lamp sets, mirrored about the C0/C180 plane.
const EXAMPLE_LDT_FILE_NO_LAMPSET: &str = "Example luminaire data\n1\n2\n4\n90.0\n3\n45.0\nreport-1\nTest Luminaire\nLUM-001\nexample.ldt\n2024-01-01 tester\n600\n600\n80\n600\n600\n0\n0\n0\n0\n100\n85.5\n1.0\n0\n0\n0.512\n0.601\n0.672\n0.705\n0.760\n0.801\n0.852\n0.880\n0.905\n0.931\n0\n90\n180\n270\n0\n45\n90\n100\n80.5\n20\n90\n70\n10\n80\n60\n5\n";

/// A file with one lamp set and no symmetry, with Windows line ends.
const EXAMPLE_LDT_FILE_LAMPSET: &str = "Example with lamps\r\n1\r\n0\r\n4\r\n90\r\n2\r\n90\r\nreport-2\r\nLamp Luminaire\r\nLUM-002\r\nlampsets.ldt\r\n2024-02-02\r\n600\r\n600\r\n80\r\n600\r\n600\r\n0\r\n0\r\n0\r\n0\r\n100\r\n85.5\r\n1.0\r\n0\r\n1\r\n2\r\nLED module\r\n3000.0\r\n3000K\r\n80\r\n25.5\r\n0.5\r\n0.6\r\n0.7\r\n0.7\r\n0.8\r\n0.8\r\n0.9\r\n0.9\r\n0.9\r\n0.9\r\n0\r\n90\r\n180\r\n270\r\n0\r\n90\r\n100\r\n50\r\n110\r\n40\r\n120\r\n30\r\n130\r\n20\r\n";

fn lines_of(text: &str) -> Vec<String> {
    text.lines().map(|l| l.to_string()).collect()
}

fn join(lines: &[String]) -> String {
    let mut s = String::new();
    for l in lines {
        s.push_str(l);
        s.push('\n');
    }
    s
}

fn test_parse_ldt(ldt_string: &str) {
    match EulumdatFile::parse(ldt_string) {
        Ok(ldt) => {
            assert_eq!(ldt.c_angles().iter().count(), ldt.n_cplanes());
            assert_eq!(
                ldt.g_angles().iter().count(),
                ldt.n_luminous_intensities_per_cplane()
            );
            assert_eq!(
                ldt.intensities().iter().count(),
                (ldt.mc2() - ldt.mc1() + 1) * ldt.n_luminous_intensities_per_cplane()
            );
        }
        Err(e) => panic!("LDT parse error: {:?}", e),
    }
}

#[test]
fn test_parse_ldt_example_no_lampset() {
    test_parse_ldt(EXAMPLE_LDT_FILE_NO_LAMPSET);
}

#[test]
fn test_parse_ldt_example_lampset() {
    test_parse_ldt(EXAMPLE_LDT_FILE_LAMPSET);
}

#[test]
fn test_parse_ldt_file() {
    match EulumdatFile::parse_bytes(EXAMPLE_LDT_FILE_NO_LAMPSET.as_bytes()) {
        Ok(ldt) => {
            assert_eq!(ldt.c_angles().iter().count(), ldt.n_cplanes());
            assert_eq!(
                ldt.g_angles().iter().count(),
                ldt.n_luminous_intensities_per_cplane()
            );
            assert_eq!(
                ldt.intensities().iter().count(),
                (ldt.mc2() - ldt.mc1() + 1) * ldt.n_luminous_intensities_per_cplane()
            );
        }
        Err(e) => panic!("LDT file parse error: {:?}", e),
    }
}

#[test]
fn test_ldt_into_photweb() {
    match EulumdatFile::parse(EXAMPLE_LDT_FILE_LAMPSET) {
        Ok(ldt) => {
            let photweb = PhotometricWeb::from_record(&ldt).unwrap();
            let _total_intensity = photweb.total_intensity();
            assert_eq!(photweb.planes().iter().count() as usize, ldt.n_cplanes());
        }
        Err(e) => panic!("LDT parse error: {:?}", e),
    }
}

#[test]
fn parsed_values_are_exact() {
    let ldt = EulumdatFile::parse(EXAMPLE_LDT_FILE_NO_LAMPSET).unwrap();
    assert_eq!(ldt.symmetry(), EulumdatSymmetry::C0C180Plane);
    assert_eq!(ldt.n_cplanes(), 4);
    assert_eq!(ldt.mc1(), 1);
    assert_eq!(ldt.mc2(), 3);
    assert_eq!(ldt.c_angles(), &[0, 90000, 180000, 270000][..]);
    assert_eq!(ldt.g_angles(), &[0, 45000, 90000][..]);
    assert_eq!(
        ldt.intensities(),
        &[100000, 80500, 20000, 90000, 70000, 10000, 80000, 60000, 5000][..]
    );
    assert_eq!(ldt.identification(), b"Example luminaire data");
    assert_eq!(ldt.luminaire_name(), b"Test Luminaire");
    assert_eq!(ldt.lamp_sets().len(), 0);
    assert_eq!(ldt.total_lamp_flux(), 0);
}

#[test]
fn parsed_lamp_set_fields() {
    let ldt = EulumdatFile::parse(EXAMPLE_LDT_FILE_LAMPSET).unwrap();
    assert_eq!(ldt.symmetry(), EulumdatSymmetry::NoSymmetry);
    assert_eq!(ldt.identification(), b"Example with lamps");
    let sets = ldt.lamp_sets();
    assert_eq!(sets.len(), 1);
    assert_eq!(sets[0].count(), 2);
    assert_eq!(sets[0].flux(), 3000000);
    assert_eq!(sets[0].wattage(), 25500);
    assert_eq!(ldt.total_lamp_flux(), 3000000);
    assert_eq!(ldt.intensities().len(), 8);
}

#[test]
fn web_from_mirrored_file() {
    let ldt = EulumdatFile::parse(EXAMPLE_LDT_FILE_NO_LAMPSET).unwrap();
    let web = PhotometricWeb::from_record(&ldt).unwrap();
    let planes = web.planes();
    assert_eq!(planes.len(), 4);
    let azimuths: Vec<i64> = planes.iter().map(|p| p.angle_mdeg()).collect();
    assert_eq!(azimuths, vec![0, 90000, 180000, 270000]);
    // The plane at 270 degrees mirrors the one at 90 degrees.
    assert_eq!(planes[3].intensities(), &[90000, 70000, 10000][..]);
    assert_eq!(planes[3].angles(), &[0, 45000, 90000][..]);
    assert_eq!(planes[1].width(), 90000);
}

#[test]
fn truncated_header() {
    let text = join(&lines_of(EXAMPLE_LDT_FILE_NO_LAMPSET)[..10]);
    assert_eq!(EulumdatFile::parse(&text).unwrap_err(), ParseError::Truncated { line: 10 });
}

#[test]
fn truncated_ratios() {
    let text = join(&lines_of(EXAMPLE_LDT_FILE_NO_LAMPSET)[..30]);
    assert_eq!(EulumdatFile::parse(&text).unwrap_err(), ParseError::Truncated { line: 30 });
}

#[test]
fn truncated_lamp_block() {
    let text = join(&lines_of(EXAMPLE_LDT_FILE_LAMPSET)[..29]);
    assert_eq!(EulumdatFile::parse(&text).unwrap_err(), ParseError::Truncated { line: 29 });
}

#[test]
fn malformed_count() {
    let mut lines = lines_of(EXAMPLE_LDT_FILE_NO_LAMPSET);
    lines[5] = "three".to_string();
    assert_eq!(EulumdatFile::parse(&join(&lines)).unwrap_err(), ParseError::Malformed { line: 5 });
}

#[test]
fn malformed_intensity() {
    let mut lines = lines_of(EXAMPLE_LDT_FILE_NO_LAMPSET);
    lines[44] = "8O.5".to_string();
    assert_eq!(EulumdatFile::parse(&join(&lines)).unwrap_err(), ParseError::Malformed { line: 44 });
}

#[test]
fn negative_angle_is_malformed() {
    let mut lines = lines_of(EXAMPLE_LDT_FILE_NO_LAMPSET);
    lines[41] = "-45".to_string();
    assert_eq!(EulumdatFile::parse(&join(&lines)).unwrap_err(), ParseError::Malformed { line: 41 });
}

#[test]
fn unknown_symmetry_code() {
    let mut lines = lines_of(EXAMPLE_LDT_FILE_NO_LAMPSET);
    lines[2] = "7".to_string();
    assert_eq!(
        EulumdatFile::parse(&join(&lines)).unwrap_err(),
        ParseError::UnknownSymmetry { code: 7 }
    );
}

#[test]
fn no_azimuths_under_symmetry() {
    let mut lines = lines_of(EXAMPLE_LDT_FILE_NO_LAMPSET);
    lines[3] = "0".to_string();
    assert_eq!(
        EulumdatFile::parse(&join(&lines)).unwrap_err(),
        ParseError::InvalidPlaneCount { declared: 0 }
    );
}

#[test]
fn missing_azimuth_lines() {
    let text = join(&lines_of(EXAMPLE_LDT_FILE_NO_LAMPSET)[..38]);
    assert_eq!(
        EulumdatFile::parse(&text).unwrap_err(),
        ParseError::CAnglesLength { declared: 4, found: 2 }
    );
}

#[test]
fn missing_polar_lines() {
    let text = join(&lines_of(EXAMPLE_LDT_FILE_NO_LAMPSET)[..41]);
    assert_eq!(
        EulumdatFile::parse(&text).unwrap_err(),
        ParseError::GAnglesLength { declared: 3, found: 1 }
    );
}

#[test]
fn missing_intensity_lines() {
    let text = join(&lines_of(EXAMPLE_LDT_FILE_NO_LAMPSET)[..50]);
    assert_eq!(
        EulumdatFile::parse(&text).unwrap_err(),
        ParseError::IntensitiesLength { declared: 9, found: 7 }
    );
}

#[test]
fn extra_intensity_lines() {
    let mut lines = lines_of(EXAMPLE_LDT_FILE_NO_LAMPSET);
    lines.push("1".to_string());
    assert_eq!(
        EulumdatFile::parse(&join(&lines)).unwrap_err(),
        ParseError::IntensitiesLength { declared: 9, found: 10 }
    );
}

#[test]
fn unordered_polar_angles() {
    let mut lines = lines_of(EXAMPLE_LDT_FILE_NO_LAMPSET);
    lines[41] = "95".to_string();
    assert_eq!(
        EulumdatFile::parse(&join(&lines)).unwrap_err(),
        ParseError::UnorderedPolarAngles
    );
}

#[test]
fn constructor_checks_lengths() {
    let r = EulumdatFile::new(
        EulumdatSymmetry::C0C180Plane,
        18,
        1,
        (0..19).map(|i| i * 10000).collect(),
        vec![0],
        (0..19).map(|i| i * 10000).collect(),
    );
    assert_eq!(r.unwrap_err(), ParseError::CAnglesLength { declared: 18, found: 19 });
    let r = EulumdatFile::new(
        EulumdatSymmetry::C0C180Plane,
        36,
        1,
        (0..36).map(|i| i * 10000).collect(),
        vec![0],
        (0..18).map(|i| i * 10000).collect(),
    );
    assert_eq!(r.unwrap_err(), ParseError::IntensitiesLength { declared: 19, found: 18 });
    let r = EulumdatFile::new(
        EulumdatSymmetry::NoSymmetry,
        1,
        2,
        vec![0],
        vec![0, 10000],
        vec![5, -1],
    );
    assert_eq!(r.unwrap_err(), ParseError::ValueOutOfRange);
    let r = EulumdatFile::new(
        EulumdatSymmetry::NoSymmetry,
        1,
        2,
        vec![0],
        vec![0, 10000],
        vec![5, 1],
    );
    assert!(r.is_ok());
}

#[test]
fn count_fields() {
    assert_eq!(parse_count(b" 12 \r"), Some(12));
    assert_eq!(parse_count(b"0"), Some(0));
    assert_eq!(parse_count(b"4294967295"), Some(4294967295));
    assert_eq!(parse_count(b"4294967296"), None);
    assert_eq!(parse_count(b""), None);
    assert_eq!(parse_count(b"1.0"), None);
    assert_eq!(parse_count(b"-1"), None);
}

#[test]
fn decimal_fields() {
    assert_eq!(parse_decimal(b"1.2345"), Some(1234));
    assert_eq!(parse_decimal(b" -0.5 "), Some(-500));
    assert_eq!(parse_decimal(b"+7"), Some(7000));
    assert_eq!(parse_decimal(b".25"), Some(250));
    assert_eq!(parse_decimal(b"3."), Some(3000));
    assert_eq!(parse_decimal(b"999999999.999"), Some(999999999999));
    assert_eq!(parse_decimal(b"1000000000"), None);
    assert_eq!(parse_decimal(b"1.2.3"), None);
    assert_eq!(parse_decimal(b"."), None);
    assert_eq!(parse_decimal(b"-"), None);
    assert_eq!(parse_decimal(b"abc"), None);
}
