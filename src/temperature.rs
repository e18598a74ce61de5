//! Temperature readings: unit conversion and display order.
//!
//! Temperatures are fixed-point values in thousandths of a degree.
use vstd::prelude::*;
use crate::names::{name_at_most, name_le, lemma_name_le_total, lemma_name_le_trans, lemma_name_le_antisym, lemma_name_le_refl};

verus! {

/// The largest magnitude, in thousandths of a degree Celsius, of a reading.
pub const MAX_READING: i64 = 1_000_000_000_000;

#[derive(Clone, Copy, Debug, PartialEq, Eq, Structural)]
pub enum TemperatureType {
    Celsius,
    Kelvin,
    Fahrenheit,
}

impl Default for TemperatureType {
    fn default() -> (r: Self)
        ensures
            r == TemperatureType::Celsius,
    {
        TemperatureType::Celsius
    }
}

/// One sensor's reading: its label and its temperature, in thousandths of a
/// degree of the unit in use.
#[derive(Clone, Debug)]
pub struct TempHarvest {
    pub component_name: String,
    pub temperature: i64,
}

impl TempHarvest {
    pub open spec fn view(&self) -> (Seq<char>, int) {
        (self.component_name@, self.temperature as int)
    }
}

/// A Celsius reading `c` (thousandths of a degree) in the unit `t`
/// (thousandths of a degree, Fahrenheit rounded down).
pub open spec fn converted(c: int, t: TemperatureType) -> int {
    match t {
        TemperatureType::Celsius => c,
        TemperatureType::Kelvin => c + 273_150,
        TemperatureType::Fahrenheit => (9 * c) / 5 + 32_000,
    }
}

pub open spec fn reading_in_range(c: int) -> bool {
    -MAX_READING <= c <= MAX_READING
}

/// Converts a Celsius reading to the unit `t`.
pub fn convert_temperature(celsius: i64, t: TemperatureType) -> (r: i64)
    requires
        reading_in_range(celsius as int),
    ensures
        r as int == converted(celsius as int, t),
{
    match t {
        TemperatureType::Celsius => celsius,
        TemperatureType::Kelvin => celsius + 273_150,
        TemperatureType::Fahrenheit => {
            // shift to a non-negative value so that division rounds down
            let shifted: u64 = (9 * celsius + 9 * MAX_READING) as u64;
            let q: u64 = shifted / 5;
            assert(q as int == (9 * celsius as int) / 5 + 9 * MAX_READING / 5) by (nonlinear_arith)
                requires
                    shifted as int == 9 * celsius as int + 9 * MAX_READING,
                    q as int == shifted as int / 5,
                    MAX_READING == 1_000_000_000_000,
            ;
            (q as i64) - 1_800_000_000_000 + 32_000
        },
    }
}

/// Kelvin is Celsius plus 273.15 degrees; Fahrenheit is Celsius times 9/5
/// plus 32 degrees, exact whenever the reading is a multiple of 5
/// thousandths, and otherwise the largest thousandth not above it.
pub proof fn lemma_conversion(c: int)
    ensures
        converted(c, TemperatureType::Celsius) == c,
        converted(c, TemperatureType::Kelvin) == c + 273_150,
        5 * (converted(c, TemperatureType::Fahrenheit) - 32_000) <= 9 * c,
        9 * c < 5 * (converted(c, TemperatureType::Fahrenheit) - 32_000) + 5,
        c % 5 == 0 ==> 5 * (converted(c, TemperatureType::Fahrenheit) - 32_000) == 9 * c,
{
    let f = (9 * c) / 5;
    assert(5 * f <= 9 * c < 5 * f + 5) by (nonlinear_arith)
        requires
            f == (9 * c) / 5,
    ;
    if c % 5 == 0 {
        assert(5 * f == 9 * c) by (nonlinear_arith)
            requires
                f == (9 * c) / 5,
                c % 5 == 0,
        ;
    }
}

/// Display order of rows: by name, and among equal names the warmer first.
pub open spec fn row_le(x: (Seq<char>, int), y: (Seq<char>, int)) -> bool {
    if x.0 == y.0 {
        x.1 >= y.1
    } else {
        name_le(x.0, y.0)
    }
}

pub open spec fn rows_view(v: Seq<TempHarvest>) -> Seq<(Seq<char>, int)> {
    v.map_values(|h: TempHarvest| h@)
}

pub open spec fn rows_sorted(s: Seq<(Seq<char>, int)>) -> bool {
    forall|i: int, j: int| 0 <= i < j < s.len() ==> row_le(#[trigger] s[i], #[trigger] s[j])
}

/// The readings converted to the unit `t`, in the order given.
pub open spec fn converted_rows(readings: Seq<TempHarvest>, t: TemperatureType) -> Seq<(Seq<char>, int)> {
    readings.map_values(|h: TempHarvest| (h.component_name@, converted(h.temperature as int, t)))
}

proof fn lemma_row_le_total(x: (Seq<char>, int), y: (Seq<char>, int))
    ensures
        row_le(x, y) || row_le(y, x),
{
    lemma_name_le_total(x.0, y.0);
}

proof fn lemma_row_le_trans(x: (Seq<char>, int), y: (Seq<char>, int), z: (Seq<char>, int))
    requires
        row_le(x, y),
        row_le(y, z),
    ensures
        row_le(x, z),
{
    lemma_name_le_refl(x.0);
    lemma_name_le_refl(y.0);
    if x.0 != y.0 && y.0 != z.0 {
        lemma_name_le_trans(x.0, y.0, z.0);
        if x.0 == z.0 {
            lemma_name_le_antisym(x.0, y.0);
        }
    }
}

/// Whether row `a` may stand before row `b`.
fn row_at_most(a: &TempHarvest, b: &TempHarvest) -> (r: bool)
    ensures
        r == row_le(a@, b@),
{
    let ab = name_at_most(&a.component_name, &b.component_name);
    let ba = name_at_most(&b.component_name, &a.component_name);
    proof {
        lemma_name_le_refl(a.component_name@);
        if ab && ba {
            lemma_name_le_antisym(a.component_name@, b.component_name@);
        }
    }
    if ab && ba {
        a.temperature >= b.temperature
    } else {
        ab
    }
}

/// Converts raw Celsius readings to the unit `temp_type` and orders them for
/// display: by name, and among rows of one name the warmest first. This is
/// the order that a sort by temperature, warmest first, followed by a stable
/// sort by name gives.
pub fn get_temperature_data(readings: &Vec<TempHarvest>, temp_type: &TemperatureType) -> (r: Vec<TempHarvest>)
    requires
        forall|i: int| 0 <= i < readings@.len() ==> reading_in_range(#[trigger] readings@[i].temperature as int),
    ensures
        rows_view(r@).to_multiset() == converted_rows(readings@, *temp_type).to_multiset(),
        rows_sorted(rows_view(r@)),
{
    let mut out: Vec<TempHarvest> = Vec::new();
    let mut i: usize = 0;
    assert(rows_view(out@) =~= Seq::empty());
    assert(converted_rows(readings@.subrange(0, 0), *temp_type) =~= Seq::empty());
    while i < readings.len()
        invariant
            i <= readings@.len(),
            forall|k: int| 0 <= k < readings@.len() ==> reading_in_range(#[trigger] readings@[k].temperature as int),
            rows_view(out@).to_multiset() == converted_rows(readings@.subrange(0, i as int), *temp_type).to_multiset(),
            rows_sorted(rows_view(out@)),
        decreases readings.len() - i,
    {
        let row = TempHarvest {
            component_name: readings[i].component_name.clone(),
            temperature: convert_temperature(readings[i].temperature, *temp_type),
        };
        let mut pos: usize = 0;
        while pos < out.len() && row_at_most(&out[pos], &row)
            invariant
                pos <= out@.len(),
                forall|k: int| 0 <= k < pos ==> row_le(#[trigger] rows_view(out@)[k], row@),
            decreases out.len() - pos,
        {
            pos = pos + 1;
        }
        proof {
            let s = rows_view(out@);
            assert forall|k: int| pos <= k < s.len() implies row_le(row@, #[trigger] s[k]) by {
                lemma_row_le_total(s[pos as int], row@);
                if k > pos {
                    lemma_row_le_trans(row@, s[pos as int], s[k]);
                }
            }
            assert(converted_rows(readings@.subrange(0, i + 1), *temp_type) =~= converted_rows(
                readings@.subrange(0, i as int),
                *temp_type,
            ).push(row@));
            vstd::seq_lib::to_multiset_build(converted_rows(readings@.subrange(0, i as int), *temp_type), row@);
            vstd::seq_lib::to_multiset_insert(s, pos as int, row@);
        }
        let ghost old_out = out@;
        out.insert(pos, row);
        proof {
            assert(rows_view(out@) =~= rows_view(old_out).insert(pos as int, row@));
        }
        i = i + 1;
    }
    assert(readings@.subrange(0, readings@.len() as int) =~= readings@);
    out
}

} // verus!
