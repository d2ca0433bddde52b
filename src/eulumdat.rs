//! The EULUMDAT luminaire file: its line layout, the parser, and the record
//! it produces.

use vstd::prelude::*;
use vstd::string::StringSliceAdditionalSpecFns;
use crate::lines::{lines_of, lines_view, split_lines};
use crate::number::{count_of, decimal_of, parse_count, parse_decimal, read_token, token};
use crate::photweb::{in_range, nondecreasing, polar_grid_ok, web_of, PhotometricWeb, MAX_VALUE};
use crate::symmetry::{reconcilable, reconcile_error, EulumdatSymmetry, ReconcileError};

verus! {

/// Lines before the lamp sets.
pub const HEADER_LINES: u64 = 26;

/// Lines of direct ratios after the lamp sets.
pub const DIRECT_RATIOS: u64 = 10;

/// Decimal header lines from the luminaire's dimensions to its tilt.
pub const HEADER_VALUES: u64 = 13;

/// What a line of the file holds.
#[derive(Clone, Copy, Debug, PartialEq, Eq, Structural)]
pub enum FieldKind {
    Text,
    Count,
    Decimal,
    /// A decimal in `[0, MAX_VALUE]`.
    Magnitude,
}

/// The counts that fix where each block of lines lies.
#[derive(Clone, Copy, Debug, PartialEq, Eq, Structural)]
pub struct Layout {
    pub lamps: u64,
    pub mc: u64,
    pub ng: u64,
    pub rows: u64,
}

impl Layout {
    pub open spec fn ratio_start(self) -> int {
        26 + 6 * self.lamps
    }

    pub open spec fn c_start(self) -> int {
        self.ratio_start() + 10
    }

    pub open spec fn g_start(self) -> int {
        self.c_start() + self.mc
    }

    pub open spec fn i_start(self) -> int {
        self.g_start() + self.ng
    }

    pub open spec fn end(self) -> int {
        self.i_start() + self.rows * self.ng
    }
}

/// Why a file could not be read.
#[derive(Clone, Copy, Debug, PartialEq, Eq, Structural)]
pub enum ParseError {
    /// The text ends before the line with this zero-based index.
    Truncated { line: usize },
    /// The line with this zero-based index does not hold what it must.
    Malformed { line: usize },
    /// The symmetry code is not one of 0 to 4.
    UnknownSymmetry { code: u64 },
    /// Too few azimuths are declared for the symmetry's range of planes.
    InvalidPlaneCount { declared: u64 },
    /// The number of azimuth angles differs from the declared count.
    CAnglesLength { declared: u64, found: usize },
    /// The number of polar angles differs from the declared count.
    GAnglesLength { declared: u64, found: usize },
    /// The number of intensities differs from the declared planes times polar angles.
    IntensitiesLength { declared: u64, found: usize },
    /// The polar angles decrease somewhere.
    UnorderedPolarAngles,
    /// An angle or intensity lies outside `[0, MAX_VALUE]`.
    ValueOutOfRange,
}

pub open spec fn header_kind(i: int) -> FieldKind {
    if i == 1 || i == 2 || i == 3 || i == 5 || i == 25 {
        FieldKind::Count
    } else if i == 4 || i == 6 || (12 <= i <= 24) {
        FieldKind::Decimal
    } else {
        FieldKind::Text
    }
}

/// What the line with index `i` holds under the layout.
pub open spec fn kind_at(lay: Layout, i: int) -> FieldKind {
    let l = lay.lamps as int;
    let h = HEADER_LINES as int;
    if i < h {
        header_kind(i)
    } else if i < h + l {
        FieldKind::Count
    } else if i < h + 2 * l {
        FieldKind::Text
    } else if i < h + 3 * l {
        FieldKind::Decimal
    } else if i < h + 5 * l {
        FieldKind::Text
    } else if i < lay.c_start() {
        FieldKind::Decimal
    } else {
        FieldKind::Magnitude
    }
}

pub open spec fn line_ok(kind: FieldKind, line: Seq<u8>) -> bool {
    match kind {
        FieldKind::Text => true,
        FieldKind::Count => count_of(line) is Some,
        FieldKind::Decimal => decimal_of(line) is Some,
        FieldKind::Magnitude => match decimal_of(line) {
            Some(v) => 0 <= v <= MAX_VALUE,
            None => false,
        },
    }
}

/// The first index in `[i, hi)` whose line is missing or does not hold its kind.
pub open spec fn first_fault(ls: Seq<Seq<u8>>, lay: Layout, i: int, hi: int) -> Option<int>
    decreases hi - i,
{
    if i >= hi {
        None
    } else if i >= ls.len() || !line_ok(kind_at(lay, i), ls[i]) {
        Some(i)
    } else {
        first_fault(ls, lay, i + 1, hi)
    }
}

/// The error for a fault at line `i`.
pub open spec fn fault_error(ls: Seq<Seq<u8>>, lay: Layout, i: int) -> ParseError {
    if i < ls.len() {
        ParseError::Malformed { line: i as usize }
    } else if i < lay.c_start() {
        ParseError::Truncated { line: i as usize }
    } else if i < lay.g_start() {
        ParseError::CAnglesLength { declared: lay.mc, found: (ls.len() - lay.c_start()) as usize }
    } else if i < lay.i_start() {
        ParseError::GAnglesLength { declared: lay.ng, found: (ls.len() - lay.g_start()) as usize }
    } else {
        ParseError::IntensitiesLength {
            declared: (lay.rows * lay.ng) as u64,
            found: (ls.len() - lay.i_start()) as usize,
        }
    }
}

pub open spec fn count_value(line: Seq<u8>) -> int {
    match count_of(line) {
        Some(v) => v,
        None => 0,
    }
}

pub open spec fn decimal_value(line: Seq<u8>) -> int {
    match decimal_of(line) {
        Some(v) => v,
        None => 0,
    }
}

pub open spec fn symmetry_of(code: int) -> EulumdatSymmetry {
    if code == 0 {
        EulumdatSymmetry::NoSymmetry
    } else if code == 1 {
        EulumdatSymmetry::AboutVerticalAxis
    } else if code == 2 {
        EulumdatSymmetry::C0C180Plane
    } else if code == 3 {
        EulumdatSymmetry::C90C270Plane
    } else {
        EulumdatSymmetry::C0C180C90C270Plane
    }
}

/// The first plane, counted from one, whose intensities the file holds.
pub open spec fn mc1_of(sym: EulumdatSymmetry, mc: int) -> int {
    match sym {
        EulumdatSymmetry::C90C270Plane => mc / 4 + 1,
        _ => 1,
    }
}

/// The last plane, counted from one, whose intensities the file holds.
pub open spec fn mc2_of(sym: EulumdatSymmetry, mc: int) -> int {
    match sym {
        EulumdatSymmetry::NoSymmetry => mc,
        EulumdatSymmetry::AboutVerticalAxis => 1,
        EulumdatSymmetry::C0C180Plane => mc / 2 + 1,
        EulumdatSymmetry::C90C270Plane => mc / 4 + 1 + mc / 2,
        EulumdatSymmetry::C0C180C90C270Plane => mc / 4 + 1,
    }
}

/// The values of `n` decimal lines from `lo`.
pub open spec fn decimals(ls: Seq<Seq<u8>>, lo: int, n: int) -> Seq<i64> {
    Seq::new(n as nat, |j: int| decimal_value(ls[lo + j]) as i64)
}

/// How the lines of a file are read: the layout, or the first error.
pub open spec fn outcome(ls: Seq<Seq<u8>>) -> Result<Layout, ParseError> {
    let head = Layout { lamps: 0, mc: 0, ng: 0, rows: 0 };
    match first_fault(ls, head, 0, HEADER_LINES as int) {
        Some(i) => Err(fault_error(ls, head, i)),
        None => {
            let code = count_value(ls[2]);
            let mc = count_value(ls[3]);
            let sym = symmetry_of(code);
            if code > 4 {
                Err(ParseError::UnknownSymmetry { code: code as u64 })
            } else if mc2_of(sym, mc) > mc {
                Err(ParseError::InvalidPlaneCount { declared: mc as u64 })
            } else {
                let lay = Layout {
                    lamps: count_value(ls[25]) as u64,
                    mc: mc as u64,
                    ng: count_value(ls[5]) as u64,
                    rows: (mc2_of(sym, mc) - mc1_of(sym, mc) + 1) as u64,
                };
                match first_fault(ls, lay, HEADER_LINES as int, lay.end()) {
                    Some(i) => Err(fault_error(ls, lay, i)),
                    None => if ls.len() > lay.end() {
                        Err(
                            ParseError::IntensitiesLength {
                                declared: (lay.rows * lay.ng) as u64,
                                found: (ls.len() - lay.i_start()) as usize,
                            },
                        )
                    } else if !nondecreasing(decimals(ls, lay.g_start(), lay.ng as int)) {
                        Err(ParseError::UnorderedPolarAngles)
                    } else {
                        Ok(lay)
                    },
                }
            }
        },
    }
}


/// A lamp set as values.
pub ghost struct LampSetView {
    pub count: int,
    pub lamp_type: Seq<u8>,
    pub flux: int,
    pub color_temperature: Seq<u8>,
    pub color_rendering: Seq<u8>,
    pub wattage: int,
}

/// A record as values.
pub ghost struct RecordView {
    pub identification: Seq<u8>,
    pub type_indicator: int,
    pub symmetry: EulumdatSymmetry,
    pub mc: int,
    pub dc: int,
    pub ng: int,
    pub dg: int,
    pub luminaire_name: Seq<u8>,
    pub header_values: Seq<i64>,
    pub lamp_sets: Seq<LampSetView>,
    pub direct_ratios: Seq<i64>,
    pub c_angles: Seq<i64>,
    pub g_angles: Seq<i64>,
    pub intensities: Seq<i64>,
    pub mc1: int,
    pub mc2: int,
}

impl RecordView {
    /// The declared lengths hold, the range of planes with intensities lies
    /// within the declared azimuths as the symmetry fixes it, and the angles
    /// and intensities are in range, the polar angles never decreasing.
    pub open spec fn wf(self) -> bool {
        &&& self.c_angles.len() == self.mc
        &&& self.g_angles.len() == self.ng
        &&& self.intensities.len() == (self.mc2 - self.mc1 + 1) * self.ng
        &&& self.mc1 == mc1_of(self.symmetry, self.mc)
        &&& self.mc2 == mc2_of(self.symmetry, self.mc)
        &&& self.mc2 <= self.mc
        &&& in_range(self.c_angles)
        &&& polar_grid_ok(self.g_angles)
        &&& in_range(self.intensities)
        &&& forall|k: int|
            0 <= k < self.lamp_sets.len() ==> -MAX_VALUE <= (#[trigger] self.lamp_sets[k]).flux
                <= MAX_VALUE
    }

    /// The azimuths whose intensity rows the record holds.
    pub open spec fn sampled_azimuths(self) -> Seq<i64> {
        self.c_angles.subrange(self.mc1 - 1, self.mc2)
    }
}

/// The sum of the fluxes of the first `m` lamp sets.
pub open spec fn flux_sum(sets: Seq<LampSetView>, m: int) -> int
    decreases m,
{
    if m <= 0 {
        0
    } else {
        flux_sum(sets, m - 1) + sets[m - 1].flux
    }
}

/// The lamp set with index `k` read from the lines.
pub open spec fn lamp_of(ls: Seq<Seq<u8>>, lay: Layout, k: int) -> LampSetView {
    let h = HEADER_LINES as int;
    let l = lay.lamps as int;
    LampSetView {
        count: count_value(ls[h + k]),
        lamp_type: token(ls[h + l + k]),
        flux: decimal_value(ls[h + 2 * l + k]),
        color_temperature: token(ls[h + 3 * l + k]),
        color_rendering: token(ls[h + 4 * l + k]),
        wattage: decimal_value(ls[h + 5 * l + k]),
    }
}

/// The record that the lines hold under the layout.
pub open spec fn record_of(ls: Seq<Seq<u8>>, lay: Layout) -> RecordView {
    let sym = symmetry_of(count_value(ls[2]));
    let mc = count_value(ls[3]);
    RecordView {
        identification: token(ls[0]),
        type_indicator: count_value(ls[1]),
        symmetry: sym,
        mc: mc,
        dc: decimal_value(ls[4]),
        ng: count_value(ls[5]),
        dg: decimal_value(ls[6]),
        luminaire_name: token(ls[8]),
        header_values: decimals(ls, 12, HEADER_VALUES as int),
        lamp_sets: Seq::new(lay.lamps as nat, |k: int| lamp_of(ls, lay, k)),
        direct_ratios: decimals(ls, lay.ratio_start(), DIRECT_RATIOS as int),
        c_angles: decimals(ls, lay.c_start(), lay.mc as int),
        g_angles: decimals(ls, lay.g_start(), lay.ng as int),
        intensities: decimals(ls, lay.i_start(), lay.rows * lay.ng),
        mc1: mc1_of(sym, mc),
        mc2: mc2_of(sym, mc),
    }
}

/// A lamp set: how many lamps, their type, their total flux, colour
/// temperature, colour rendering and wattage.
#[derive(Clone, Debug)]
pub struct LampSet {
    count: u64,
    lamp_type: Vec<u8>,
    flux: i64,
    color_temperature: Vec<u8>,
    color_rendering: Vec<u8>,
    wattage: i64,
}

impl LampSet {
    pub closed spec fn view(&self) -> LampSetView {
        LampSetView {
            count: self.count as int,
            lamp_type: self.lamp_type@,
            flux: self.flux as int,
            color_temperature: self.color_temperature@,
            color_rendering: self.color_rendering@,
            wattage: self.wattage as int,
        }
    }

    /// The number of lamps.
    pub fn count(&self) -> (r: u64)
        ensures
            r == self.view().count,
    {
        self.count
    }

    /// The total luminous flux, in thousandths of a lumen.
    pub fn flux(&self) -> (r: i64)
        ensures
            r == self.view().flux,
    {
        self.flux
    }

    /// The wattage, in thousandths of a watt.
    pub fn wattage(&self) -> (r: i64)
        ensures
            r == self.view().wattage,
    {
        self.wattage
    }
}

/// A parsed EULUMDAT file. Angles are in thousandths of a degree, and other
/// decimals in thousandths of their unit.
#[derive(Clone, Debug)]
pub struct EulumdatFile {
    identification: Vec<u8>,
    type_indicator: u64,
    symmetry: EulumdatSymmetry,
    mc: usize,
    dc: i64,
    ng: usize,
    dg: i64,
    luminaire_name: Vec<u8>,
    header_values: Vec<i64>,
    lamp_sets: Vec<LampSet>,
    direct_ratios: Vec<i64>,
    c_angles: Vec<i64>,
    g_angles: Vec<i64>,
    intensities: Vec<i64>,
    mc1: usize,
    mc2: usize,
}

impl EulumdatFile {
    pub closed spec fn view(&self) -> RecordView {
        RecordView {
            identification: self.identification@,
            type_indicator: self.type_indicator as int,
            symmetry: self.symmetry,
            mc: self.mc as int,
            dc: self.dc as int,
            ng: self.ng as int,
            dg: self.dg as int,
            luminaire_name: self.luminaire_name@,
            header_values: self.header_values@,
            lamp_sets: self.lamp_sets@.map_values(|l: LampSet| l.view()),
            direct_ratios: self.direct_ratios@,
            c_angles: self.c_angles@,
            g_angles: self.g_angles@,
            intensities: self.intensities@,
            mc1: self.mc1 as int,
            mc2: self.mc2 as int,
        }
    }

    pub open spec fn wf(&self) -> bool {
        self.view().wf()
    }
}

fn kind_at_exec(lay: Layout, i: u128) -> (r: FieldKind)
    ensures
        r == kind_at(lay, i as int),
{
    let l = lay.lamps as u128;
    let h = HEADER_LINES as u128;
    if i < h {
        if i == 1 || i == 2 || i == 3 || i == 5 || i == 25 {
            FieldKind::Count
        } else if i == 4 || i == 6 || (12 <= i && i <= 24) {
            FieldKind::Decimal
        } else {
            FieldKind::Text
        }
    } else if i < h + l {
        FieldKind::Count
    } else if i < h + 2 * l {
        FieldKind::Text
    } else if i < h + 3 * l {
        FieldKind::Decimal
    } else if i < h + 5 * l {
        FieldKind::Text
    } else if i < h + 6 * l + DIRECT_RATIOS as u128 {
        FieldKind::Decimal
    } else {
        FieldKind::Magnitude
    }
}

fn line_ok_exec(kind: FieldKind, line: &Vec<u8>) -> (r: bool)
    ensures
        r == line_ok(kind, line@),
{
    match kind {
        FieldKind::Text => true,
        FieldKind::Count => parse_count(line.as_slice()).is_some(),
        FieldKind::Decimal => parse_decimal(line.as_slice()).is_some(),
        FieldKind::Magnitude => match parse_decimal(line.as_slice()) {
            Some(v) => 0 <= v && v <= MAX_VALUE,
            None => false,
        },
    }
}

proof fn lemma_no_fault(ls: Seq<Seq<u8>>, lay: Layout, lo: int, hi: int)
    requires
        first_fault(ls, lay, lo, hi) is None,
    ensures
        forall|i: int| #![trigger kind_at(lay, i)] lo <= i < hi ==> i < ls.len() && line_ok(kind_at(lay, i), ls[i]),
    decreases hi - lo,
{
    if lo < hi {
        lemma_no_fault(ls, lay, lo + 1, hi);
        assert forall|i: int| #![trigger kind_at(lay, i)] lo <= i < hi implies i < ls.len() && line_ok(
            kind_at(lay, i),
            ls[i],
        ) by {
            if i == lo {
                assert(!(lo >= ls.len() || !line_ok(kind_at(lay, lo), ls[lo])));
            } else {
                assert(lo + 1 <= i < hi);
                assert(line_ok(kind_at(lay, i), ls[i]));
            }
        }
    }
}

/// The first faulty line in `[lo, hi)`.
fn scan(ls: &Vec<Vec<u8>>, lay: Layout, lo: u128, hi: u128) -> (r: Option<usize>)
    requires
        lo <= ls@.len(),
    ensures
        first_fault(lines_view(ls@), lay, lo as int, hi as int) == match r {
            Some(i) => Some(i as int),
            None => None::<int>,
        },
        r matches Some(i) ==> i <= ls@.len(),
{
    let ghost v = lines_view(ls@);
    let n = ls.len();
    let mut i = lo;
    while i < hi
        invariant
            lo <= i,
            i <= n,
            n == ls@.len(),
            v == lines_view(ls@),
            first_fault(v, lay, i as int, hi as int) == first_fault(v, lay, lo as int, hi as int),
        decreases hi - i,
    {
        if i == n as u128 {
            return Some(n);
        }
        let idx = i as usize;
        let kind = kind_at_exec(lay, i);
        assert(v[idx as int] == ls@[idx as int]@);
        if !line_ok_exec(kind, &ls[idx]) {
            return Some(idx);
        }
        i += 1;
    }
    None
}

fn count_at(ls: &Vec<Vec<u8>>, i: usize) -> (r: u64)
    requires
        i < ls@.len(),
        count_of(lines_view(ls@)[i as int]) is Some,
    ensures
        r == count_value(lines_view(ls@)[i as int]),
        r <= crate::number::MAX_COUNT,
{
    assert(lines_view(ls@)[i as int] == ls@[i as int]@);
    match parse_count(ls[i].as_slice()) {
        Some(v) => v,
        None => 0,
    }
}

fn decimal_at(ls: &Vec<Vec<u8>>, i: usize) -> (r: i64)
    requires
        i < ls@.len(),
        decimal_of(lines_view(ls@)[i as int]) is Some,
    ensures
        r == decimal_value(lines_view(ls@)[i as int]),
{
    assert(lines_view(ls@)[i as int] == ls@[i as int]@);
    match parse_decimal(ls[i].as_slice()) {
        Some(v) => v,
        None => 0,
    }
}

fn text_at(ls: &Vec<Vec<u8>>, i: usize) -> (r: Vec<u8>)
    requires
        i < ls@.len(),
    ensures
        r@ == token(lines_view(ls@)[i as int]),
{
    assert(lines_view(ls@)[i as int] == ls@[i as int]@);
    read_token(ls[i].as_slice())
}

fn decimals_at(ls: &Vec<Vec<u8>>, lo: usize, n: usize) -> (r: Vec<i64>)
    requires
        lo + n <= ls@.len(),
        forall|j: int| lo <= j < lo + n ==> #[trigger] decimal_of(lines_view(ls@)[j]) is Some,
    ensures
        r@ == decimals(lines_view(ls@), lo as int, n as int),
{
    let mut r: Vec<i64> = Vec::new();
    let mut k: usize = 0;
    let len = ls.len();
    while k < n
        invariant
            len == ls@.len(),
            lo + n <= ls@.len(),
            forall|j: int| lo <= j < lo + n ==> #[trigger] decimal_of(lines_view(ls@)[j]) is Some,
            k <= n,
            r@ =~= decimals(lines_view(ls@), lo as int, k as int),
        decreases n - k,
    {
        let x = decimal_at(ls, lo + k);
        r.push(x);
        k += 1;
    }
    r
}


/// `r` is what reading the lines `ls` gives: the record they hold, or the
/// first error met.
pub open spec fn parsed(ls: Seq<Seq<u8>>, r: Result<EulumdatFile, ParseError>) -> bool {
    match outcome(ls) {
        Ok(lay) => r matches Ok(rec) && rec.view() == record_of(ls, lay) && rec.wf(),
        Err(e) => r == Err::<EulumdatFile, ParseError>(e),
    }
}

fn cell_count(rows: u64, ng: u64) -> (r: u128)
    ensures
        r == rows * ng,
{
    assert(rows * ng <= 0xffff_ffff_ffff_ffff * 0xffff_ffff_ffff_ffff) by (nonlinear_arith)
        requires
            rows <= 0xffff_ffff_ffff_ffff,
            ng <= 0xffff_ffff_ffff_ffff,
    ;
    rows as u128 * ng as u128
}

fn fault_error_exec(ls: &Vec<Vec<u8>>, lay: Layout, i: usize) -> (r: ParseError)
    requires
        i <= ls@.len(),
    ensures
        r == fault_error(lines_view(ls@), lay, i as int),
{
    let n = ls.len();
    let l = lay.lamps as u128;
    let c0 = 26 + 6 * l + 10;
    let g0 = c0 + lay.mc as u128;
    let i0 = g0 + lay.ng as u128;
    if i < n {
        ParseError::Malformed { line: i }
    } else if (i as u128) < c0 {
        ParseError::Truncated { line: i }
    } else if (i as u128) < g0 {
        ParseError::CAnglesLength { declared: lay.mc, found: (n as u128 - c0) as usize }
    } else if (i as u128) < i0 {
        ParseError::GAnglesLength { declared: lay.ng, found: (n as u128 - g0) as usize }
    } else {
        ParseError::IntensitiesLength {
            declared: cell_count(lay.rows, lay.ng) as u64,
            found: (n as u128 - i0) as usize,
        }
    }
}

fn symmetry_exec(code: u64) -> (r: EulumdatSymmetry)
    ensures
        r == symmetry_of(code as int),
{
    if code == 0 {
        EulumdatSymmetry::NoSymmetry
    } else if code == 1 {
        EulumdatSymmetry::AboutVerticalAxis
    } else if code == 2 {
        EulumdatSymmetry::C0C180Plane
    } else if code == 3 {
        EulumdatSymmetry::C90C270Plane
    } else {
        EulumdatSymmetry::C0C180C90C270Plane
    }
}

fn plane_range(sym: EulumdatSymmetry, mc: u64) -> (r: (u64, u64))
    requires
        mc <= crate::number::MAX_COUNT,
    ensures
        r.0 == mc1_of(sym, mc as int),
        r.1 == mc2_of(sym, mc as int),
        1 <= r.0 <= r.1 + 1,
{
    match sym {
        EulumdatSymmetry::NoSymmetry => (1, mc),
        EulumdatSymmetry::AboutVerticalAxis => (1, 1),
        EulumdatSymmetry::C0C180Plane => (1, mc / 2 + 1),
        EulumdatSymmetry::C90C270Plane => (mc / 4 + 1, mc / 4 + 1 + mc / 2),
        EulumdatSymmetry::C0C180C90C270Plane => (1, mc / 4 + 1),
    }
}

fn nondecreasing_exec(v: &Vec<i64>) -> (r: bool)
    ensures
        r == nondecreasing(v@),
{
    let n = v.len();
    let mut i: usize = 0;
    while n > 0 && i < n - 1
        invariant
            n == v@.len(),
            forall|j: int| 0 <= j < i ==> #[trigger] v@[j] <= v@[j + 1],
        decreases n - i,
    {
        if v[i] > v[i + 1] {
            return false;
        }
        i += 1;
    }
    true
}

/// What the layout checks establish of the lines.
pub open spec fn lines_fit(v: Seq<Seq<u8>>, lay: Layout) -> bool {
    &&& v.len() == lay.end()
    &&& forall|i: int|
        #![trigger kind_at(lay, i)]
        0 <= i < lay.end() ==> line_ok(kind_at(lay, i), v[i])
}

/// Checks the lines against the layout that their header declares.
#[verifier::rlimit(40)]
fn read_layout(ls: &Vec<Vec<u8>>) -> (r: Result<Layout, ParseError>)
    ensures
        r == outcome(lines_view(ls@)),
        r matches Ok(lay) ==> {
            let v = lines_view(ls@);
            let sym = symmetry_of(count_value(v[2]));
            &&& lines_fit(v, lay)
            &&& lay.mc == count_value(v[3])
            &&& lay.ng == count_value(v[5])
            &&& lay.lamps == count_value(v[25])
            &&& lay.rows == mc2_of(sym, lay.mc as int) - mc1_of(sym, lay.mc as int) + 1
            &&& mc2_of(sym, lay.mc as int) <= lay.mc
        },
{
    let ghost v = lines_view(ls@);
    let head = Layout { lamps: 0, mc: 0, ng: 0, rows: 0 };
    if let Some(i) = scan(ls, head, 0, 26) {
        return Err(fault_error_exec(ls, head, i));
    }
    proof {
        lemma_no_fault(v, head, 0, 26);
        assert(kind_at(head, 2) == FieldKind::Count);
        assert(kind_at(head, 3) == FieldKind::Count);
        assert(kind_at(head, 5) == FieldKind::Count);
        assert(kind_at(head, 25) == FieldKind::Count);
    }
    let code = count_at(ls, 2);
    let mc = count_at(ls, 3);
    if code > 4 {
        return Err(ParseError::UnknownSymmetry { code });
    }
    let sym = symmetry_exec(code);
    let (mc1, mc2) = plane_range(sym, mc);
    if mc2 > mc {
        return Err(ParseError::InvalidPlaneCount { declared: mc });
    }
    let lamps = count_at(ls, 25);
    let ng = count_at(ls, 5);
    let lay = Layout { lamps, mc, ng, rows: mc2 + 1 - mc1 };
    let c0 = 26 + 6 * lamps as u128 + 10;
    let g0 = c0 + mc as u128;
    let i0 = g0 + ng as u128;
    assert(lay.rows * ng <= 0x1_0000_0000 * 0xffff_ffff) by (nonlinear_arith)
        requires
            lay.rows <= 0x1_0000_0000,
            ng <= 0xffff_ffff,
    ;
    let end = i0 + cell_count(lay.rows, ng);
    if let Some(i) = scan(ls, lay, 26, end) {
        return Err(fault_error_exec(ls, lay, i));
    }
    proof {
        lemma_no_fault(v, lay, 26, end as int);
        let _ = kind_at(lay, end - 1);
    }
    let n = ls.len();
    if n as u128 > end {
        return Err(
            ParseError::IntensitiesLength {
                declared: cell_count(lay.rows, ng) as u64,
                found: (n as u128 - i0) as usize,
            },
        );
    }
    let g0 = g0 as usize;
    let ngu = ng as usize;
    assert forall|j: int| g0 <= j < g0 + ngu implies #[trigger] decimal_of(v[j]) is Some by {
        assert(kind_at(lay, j) == FieldKind::Magnitude);
    }
    let g_angles = decimals_at(ls, g0, ngu);
    if !nondecreasing_exec(&g_angles) {
        return Err(ParseError::UnorderedPolarAngles);
    }
    proof {
        assert forall|i: int| #![trigger kind_at(lay, i)] 0 <= i < lay.end() implies line_ok(
            kind_at(lay, i),
            v[i],
        ) by {
            if i < 26 {
                assert(kind_at(head, i) == kind_at(lay, i));
            }
        }
    }
    Ok(lay)
}

fn read_lamp_sets(ls: &Vec<Vec<u8>>, lay: Layout) -> (r: Vec<LampSet>)
    requires
        lines_fit(lines_view(ls@), lay),
    ensures
        r@.map_values(|s: LampSet| s.view()) == Seq::new(
            lay.lamps as nat,
            |q: int| lamp_of(lines_view(ls@), lay, q),
        ),
{
    let ghost v = lines_view(ls@);
    let n = ls.len();
    let l = lay.lamps as usize;
    let h: usize = 26;
    let mut lamp_sets: Vec<LampSet> = Vec::new();
    let mut k: usize = 0;
    proof {
        let _ = kind_at(lay, lay.end() - 1);
    }
    while k < l
        invariant
            v == lines_view(ls@),
            n == ls@.len(),
            l == lay.lamps,
            h == 26,
            lines_fit(v, lay),
            h + 6 * l + 10 <= n,
            k <= l,
            lamp_sets@.len() == k,
            forall|q: int| 0 <= q < k ==> (#[trigger] lamp_sets@[q]).view() == lamp_of(v, lay, q),
        decreases l - k,
    {
        proof {
            assert(kind_at(lay, h + k) == FieldKind::Count);
            assert(kind_at(lay, h + 2 * l + k) == FieldKind::Decimal);
            assert(kind_at(lay, h + 5 * l + k) == FieldKind::Decimal);
        }
        let set = LampSet {
            count: count_at(ls, h + k),
            lamp_type: text_at(ls, h + l + k),
            flux: decimal_at(ls, h + 2 * l + k),
            color_temperature: text_at(ls, h + 3 * l + k),
            color_rendering: text_at(ls, h + 4 * l + k),
            wattage: decimal_at(ls, h + 5 * l + k),
        };
        lamp_sets.push(set);
        k += 1;
    }
    assert(lamp_sets@.map_values(|s: LampSet| s.view()) =~= Seq::new(
        lay.lamps as nat,
        |q: int| lamp_of(v, lay, q),
    ));
    lamp_sets
}

/// Reads the blocks of decimals that the layout places.
fn read_block(ls: &Vec<Vec<u8>>, lay: Layout, lo: usize, len: usize, kind: FieldKind) -> (r: Vec<i64>)
    requires
        lines_fit(lines_view(ls@), lay),
        kind == FieldKind::Decimal || kind == FieldKind::Magnitude,
        lo + len <= lay.end(),
        forall|j: int| lo <= j < lo + len ==> kind_at(lay, j) == kind,
    ensures
        r@ == decimals(lines_view(ls@), lo as int, len as int),
        kind == FieldKind::Magnitude ==> in_range(r@),
{
    let ghost v = lines_view(ls@);
    assert forall|j: int| lo <= j < lo + len implies #[trigger] decimal_of(v[j]) is Some by {
        assert(kind_at(lay, j) == kind);
    }
    let r = decimals_at(ls, lo, len);
    assert(kind == FieldKind::Magnitude ==> in_range(r@)) by {
        if kind == FieldKind::Magnitude {
            assert forall|j: int| 0 <= j < r@.len() implies 0 <= #[trigger] r@[j] <= MAX_VALUE by {
                assert(kind_at(lay, lo + j) == kind);
            }
        }
    }
    r
}

impl EulumdatFile {
    /// Reads a record from the lines of a file.
    pub fn parse_lines(ls: &Vec<Vec<u8>>) -> (r: Result<EulumdatFile, ParseError>)
        ensures
            parsed(lines_view(ls@), r),
    {
        let ghost v = lines_view(ls@);
        let lay = match read_layout(ls) {
            Ok(lay) => lay,
            Err(e) => {
                return Err(e);
            },
        };
        proof {
            let _ = kind_at(lay, lay.end() - 1);
            assert(kind_at(lay, 1) == FieldKind::Count);
            assert(kind_at(lay, 2) == FieldKind::Count);
            assert(kind_at(lay, 3) == FieldKind::Count);
            assert(kind_at(lay, 4) == FieldKind::Decimal);
            assert(kind_at(lay, 6) == FieldKind::Decimal);
        }
        let code = count_at(ls, 2);
        let sym = symmetry_exec(code);
        let mc = count_at(ls, 3);
        let (mc1, mc2) = plane_range(sym, mc);
        let n = ls.len();
        let r0 = (26 + 6 * lay.lamps as u128) as usize;
        let c0 = r0 + 10;
        let mcu = lay.mc as usize;
        let ngu = lay.ng as usize;
        let g0 = c0 + mcu;
        let i0 = g0 + ngu;
        let cells = cell_count(lay.rows, lay.ng) as usize;
        let g_angles = read_block(ls, lay, g0, ngu, FieldKind::Magnitude);
        let c_angles = read_block(ls, lay, c0, mcu, FieldKind::Magnitude);
        let intensities = read_block(ls, lay, i0, cells, FieldKind::Magnitude);
        let direct_ratios = read_block(ls, lay, r0, DIRECT_RATIOS as usize, FieldKind::Decimal);
        let header_values = read_block(ls, lay, 12, HEADER_VALUES as usize, FieldKind::Decimal);
        let rec = EulumdatFile {
            identification: text_at(ls, 0),
            type_indicator: count_at(ls, 1),
            symmetry: sym,
            mc: mcu,
            dc: decimal_at(ls, 4),
            ng: ngu,
            dg: decimal_at(ls, 6),
            luminaire_name: text_at(ls, 8),
            header_values,
            lamp_sets: read_lamp_sets(ls, lay),
            direct_ratios,
            c_angles,
            g_angles,
            intensities,
            mc1: mc1 as usize,
            mc2: mc2 as usize,
        };
        proof {
            let w = record_of(v, lay);
            assert(rec.view().lamp_sets == w.lamp_sets);
            assert(rec.view().c_angles == w.c_angles);
            assert(rec.view().g_angles == w.g_angles);
            assert(rec.view().intensities == w.intensities);
            assert(rec.view().header_values == w.header_values);
            assert(rec.view().direct_ratios == w.direct_ratios);
            assert(rec.view().mc == w.mc);
            assert(rec.view().ng == w.ng);
            assert(rec.view().mc1 == w.mc1);
            assert(rec.view().mc2 == w.mc2);
            assert(rec.view() == w);
            assert forall|k: int| 0 <= k < w.lamp_sets.len() implies -MAX_VALUE <= (
            #[trigger] w.lamp_sets[k]).flux <= MAX_VALUE by {
                let i = 26 + 2 * lay.lamps + k;
                assert(kind_at(lay, i) == FieldKind::Decimal);
                crate::number::lemma_decimal_bound(v[i]);
            }
        }
        Ok(rec)
    }
}

fn check_range(v: &Vec<i64>) -> (r: bool)
    ensures
        r == in_range(v@),
{
    let mut i: usize = 0;
    while i < v.len()
        invariant
            i <= v@.len(),
            forall|j: int| 0 <= j < i ==> 0 <= #[trigger] v@[j] <= MAX_VALUE,
        decreases v@.len() - i,
    {
        if v[i] < 0 || v[i] > MAX_VALUE {
            return false;
        }
        i += 1;
    }
    true
}

/// The error that `EulumdatFile::new` reports for the given parts, if any.
pub open spec fn new_error(
    symmetry: EulumdatSymmetry,
    mc: int,
    ng: int,
    c_angles: Seq<i64>,
    g_angles: Seq<i64>,
    intensities: Seq<i64>,
) -> Option<ParseError> {
    let rows = mc2_of(symmetry, mc) - mc1_of(symmetry, mc) + 1;
    if c_angles.len() != mc {
        Some(ParseError::CAnglesLength { declared: mc as u64, found: c_angles.len() as usize })
    } else if g_angles.len() != ng {
        Some(ParseError::GAnglesLength { declared: ng as u64, found: g_angles.len() as usize })
    } else if mc2_of(symmetry, mc) > mc {
        Some(ParseError::InvalidPlaneCount { declared: mc as u64 })
    } else if intensities.len() != rows * ng {
        Some(
            ParseError::IntensitiesLength {
                declared: (rows * ng) as u64,
                found: intensities.len() as usize,
            },
        )
    } else if !in_range(c_angles) || !in_range(g_angles) || !in_range(intensities) {
        Some(ParseError::ValueOutOfRange)
    } else if !nondecreasing(g_angles) {
        Some(ParseError::UnorderedPolarAngles)
    } else {
        None
    }
}

impl EulumdatFile {
    /// Reads a record from the text of a file.
    pub fn parse(text: &str) -> (r: Result<EulumdatFile, ParseError>)
        ensures
            parsed(lines_of(text.spec_bytes()), r),
            r matches Ok(rec) ==> {
                &&& rec.view().c_angles.len() == rec.view().mc
                &&& rec.view().g_angles.len() == rec.view().ng
                &&& rec.view().intensities.len() == (rec.view().mc2 - rec.view().mc1 + 1)
                    * rec.view().ng
            },
    {
        Self::parse_bytes(text.as_bytes())
    }

    /// Reads a record from the bytes of a file.
    pub fn parse_bytes(text: &[u8]) -> (r: Result<EulumdatFile, ParseError>)
        ensures
            parsed(lines_of(text@), r),
            r matches Ok(rec) ==> {
                &&& rec.view().c_angles.len() == rec.view().mc
                &&& rec.view().g_angles.len() == rec.view().ng
                &&& rec.view().intensities.len() == (rec.view().mc2 - rec.view().mc1 + 1)
                    * rec.view().ng
            },
    {
        let ls = split_lines(text);
        Self::parse_lines(&ls)
    }

    /// Builds a record from its parts: the symmetry, the declared numbers of
    /// azimuths `mc` and of polar angles `ng`, the azimuths, the polar angles
    /// and the intensities of the planes that the symmetry keeps, row by row.
    /// Inconsistent parts are refused.
    pub fn new(
        symmetry: EulumdatSymmetry,
        mc: usize,
        ng: usize,
        c_angles: Vec<i64>,
        g_angles: Vec<i64>,
        intensities: Vec<i64>,
    ) -> (r: Result<EulumdatFile, ParseError>)
        ensures
            new_error(symmetry, mc as int, ng as int, c_angles@, g_angles@, intensities@) matches Some(
                e,
            ) ==> r == Err::<EulumdatFile, ParseError>(e),
            new_error(symmetry, mc as int, ng as int, c_angles@, g_angles@, intensities@) is None
                ==> (r matches Ok(rec) && rec.wf() && rec.view().symmetry == symmetry
                && rec.view().mc == mc && rec.view().ng == ng && rec.view().c_angles == c_angles@
                && rec.view().g_angles == g_angles@ && rec.view().intensities == intensities@
                && rec.view().lamp_sets.len() == 0),
    {
        if c_angles.len() != mc {
            return Err(ParseError::CAnglesLength { declared: mc as u64, found: c_angles.len() });
        }
        if g_angles.len() != ng {
            return Err(ParseError::GAnglesLength { declared: ng as u64, found: g_angles.len() });
        }
        let (mc1, mc2) = plane_range_wide(symmetry, mc);
        if mc2 > mc {
            return Err(ParseError::InvalidPlaneCount { declared: mc as u64 });
        }
        let rows = mc2 - (mc1 - 1);
        assert(rows * ng <= mc * ng) by (nonlinear_arith)
            requires
                rows <= mc,
        ;
        assert(mc * ng <= c_angles@.len() * g_angles@.len());
        let cells = cell_count(rows as u64, ng as u64);
        if intensities.len() as u128 != cells {
            return Err(
                ParseError::IntensitiesLength { declared: cells as u64, found: intensities.len() },
            );
        }
        if !check_range(&c_angles) || !check_range(&g_angles) || !check_range(&intensities) {
            return Err(ParseError::ValueOutOfRange);
        }
        if !nondecreasing_exec(&g_angles) {
            return Err(ParseError::UnorderedPolarAngles);
        }
        let rec = EulumdatFile {
            identification: Vec::new(),
            type_indicator: 0,
            symmetry,
            mc,
            dc: 0,
            ng,
            dg: 0,
            luminaire_name: Vec::new(),
            header_values: Vec::new(),
            lamp_sets: Vec::new(),
            direct_ratios: Vec::new(),
            c_angles,
            g_angles,
            intensities,
            mc1,
            mc2,
        };
        assert(rec.view().lamp_sets =~= Seq::<LampSetView>::empty());
        Ok(rec)
    }

    /// The total luminous flux of all lamp sets, in thousandths of a lumen.
    pub fn total_lamp_flux(&self) -> (r: i128)
        requires
            self.wf(),
        ensures
            r == flux_sum(self.view().lamp_sets, self.view().lamp_sets.len() as int),
    {
        let ghost sets = self.view().lamp_sets;
        let mut acc: i128 = 0;
        let mut i: usize = 0;
        while i < self.lamp_sets.len()
            invariant
                self.wf(),
                sets == self.view().lamp_sets,
                sets == self.lamp_sets@.map_values(|s: LampSet| s.view()),
                i <= sets.len(),
                acc == flux_sum(sets, i as int),
                -(i * MAX_VALUE) <= acc <= i * MAX_VALUE,
            decreases sets.len() - i,
        {
            let f = self.lamp_sets[i].flux;
            assert(sets[i as int].flux == f);
            assert(i * MAX_VALUE + MAX_VALUE == (i + 1) * MAX_VALUE) by (nonlinear_arith);
            assert((i + 1) * MAX_VALUE <= 0xffff_ffff_ffff_ffff * MAX_VALUE) by (nonlinear_arith)
                requires
                    i < 0xffff_ffff_ffff_ffff,
            ;
            acc = acc + f as i128;
            i += 1;
        }
        acc
    }

    /// The symmetry the file declares.
    pub fn symmetry(&self) -> (r: EulumdatSymmetry)
        ensures
            r == self.view().symmetry,
    {
        self.symmetry
    }

    /// The declared number of azimuths.
    pub fn n_cplanes(&self) -> (r: usize)
        ensures
            r == self.view().mc,
    {
        self.mc
    }

    /// The declared number of polar angles per azimuth.
    pub fn n_luminous_intensities_per_cplane(&self) -> (r: usize)
        ensures
            r == self.view().ng,
    {
        self.ng
    }

    /// The first plane, counted from one, whose intensities the file holds.
    pub fn mc1(&self) -> (r: usize)
        ensures
            r == self.view().mc1,
    {
        self.mc1
    }

    /// The last plane, counted from one, whose intensities the file holds.
    pub fn mc2(&self) -> (r: usize)
        ensures
            r == self.view().mc2,
    {
        self.mc2
    }

    /// The azimuths, in thousandths of a degree.
    pub fn c_angles(&self) -> (r: &[i64])
        ensures
            r@ == self.view().c_angles,
    {
        self.c_angles.as_slice()
    }

    /// The polar angles, in thousandths of a degree.
    pub fn g_angles(&self) -> (r: &[i64])
        ensures
            r@ == self.view().g_angles,
    {
        self.g_angles.as_slice()
    }

    /// The intensities, row by row, in thousandths.
    pub fn intensities(&self) -> (r: &[i64])
        ensures
            r@ == self.view().intensities,
    {
        self.intensities.as_slice()
    }

    /// The lamp sets.
    pub fn lamp_sets(&self) -> (r: &[LampSet])
        ensures
            r@.map_values(|s: LampSet| s.view()) == self.view().lamp_sets,
    {
        self.lamp_sets.as_slice()
    }

    /// The identification line, without surrounding blanks.
    pub fn identification(&self) -> (r: &[u8])
        ensures
            r@ == self.view().identification,
    {
        self.identification.as_slice()
    }

    /// The luminaire name line, without surrounding blanks.
    pub fn luminaire_name(&self) -> (r: &[u8])
        ensures
            r@ == self.view().luminaire_name,
    {
        self.luminaire_name.as_slice()
    }
}

fn plane_range_wide(sym: EulumdatSymmetry, mc: usize) -> (r: (usize, usize))
    ensures
        r.0 == mc1_of(sym, mc as int),
        r.1 == mc2_of(sym, mc as int) || (r.1 > mc && mc2_of(sym, mc as int) > mc),
        r.1 <= mc ==> 1 <= r.0 <= r.1 + 1,
{
    match sym {
        EulumdatSymmetry::NoSymmetry => (1, mc),
        EulumdatSymmetry::AboutVerticalAxis => (1, 1),
        EulumdatSymmetry::C0C180Plane => (1, mc / 2 + 1),
        EulumdatSymmetry::C90C270Plane => (mc / 4 + 1, mc / 4 + 1 + mc / 2),
        EulumdatSymmetry::C0C180C90C270Plane => (1, mc / 4 + 1),
    }
}

impl PhotometricWeb {
    /// Builds the web of a record: the planes whose intensities the record
    /// holds are expanded to the full revolution under its symmetry.
    pub fn from_record(rec: &EulumdatFile) -> (r: Result<PhotometricWeb, ReconcileError>)
        requires
            rec.wf(),
        ensures
            r is Ok <==> reconcilable(rec.view().sampled_azimuths(), rec.view().symmetry),
            r matches Err(e) ==> e == reconcile_error(
                rec.view().sampled_azimuths(),
                rec.view().symmetry,
            ),
            r matches Ok(w) ==> w.wf() && web_of(
                rec.view().sampled_azimuths(),
                rec.view().g_angles,
                rec.view().intensities,
                rec.view().symmetry,
                w.spec_planes(),
            ),
    {
        let mut az: Vec<i64> = Vec::new();
        let mut i = rec.mc1 - 1;
        while i < rec.mc2
            invariant
                rec.wf(),
                rec.mc1 - 1 <= i <= rec.mc2,
                az@ == rec.c_angles@.subrange(rec.mc1 - 1, i as int),
            decreases rec.mc2 - i,
        {
            az.push(rec.c_angles[i]);
            i += 1;
        }
        PhotometricWeb::from_samples(az.as_slice(), rec.g_angles.as_slice(), rec.intensities.as_slice(), rec.symmetry)
    }
}

} // verus!
