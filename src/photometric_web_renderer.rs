//! Settings for drawing a photometric web as a polar chart.

use vstd::prelude::*;
use crate::photweb::PhotometricWeb;

verus! {

/// The geometry of a polar chart of a photometric web, the web itself, and
/// the path of the file it came from.
#[derive(Debug)]
pub struct PhotometricWebRenderer {
    /// Radius of the chart.
    pub chart_radius: i32,
    /// Difference between two rings.
    pub ring_diff: i32,
    /// Number of rings.
    pub num_rings: i32,
    /// Number of angular divisions.
    pub num_divisions: i32,
    /// Radius at which labels stand.
    pub label_radius: i32,
    /// Font size of the labels.
    pub label_font_size: i32,
    /// Width and height of the chart.
    pub chart_size: u32,
    /// The web to draw.
    pub photweb: PhotometricWeb,
    /// The path of the input file, if any.
    pub input_file: Option<String>,
}

impl PhotometricWebRenderer {
    /// A renderer with the default chart geometry, an empty web and no input file.
    pub fn new() -> (r: PhotometricWebRenderer)
        ensures
            r.chart_radius == 200,
            r.ring_diff == 50,
            r.num_rings == 5,
            r.num_divisions == 12,
            r.label_radius == 220,
            r.label_font_size == 14,
            r.chart_size == 500,
            r.photweb.spec_planes().len() == 0,
            r.input_file is None,
    {
        PhotometricWebRenderer {
            chart_radius: 200,
            ring_diff: 50,
            num_rings: 5,
            num_divisions: 12,
            label_radius: 220,
            label_font_size: 14,
            chart_size: 500,
            photweb: PhotometricWeb::default(),
            input_file: None,
        }
    }
}

} // verus!
