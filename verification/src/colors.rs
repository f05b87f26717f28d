//! Color sampling: one mean RGB color per texture, taken from a downsampled
//! raster, and the table that maps texture names to those colors.

use vstd::prelude::*;
use crate::textures::str_eq;

verus! {

/// A raster handed in for sampling holds at most this many bytes, so that the
/// channel sums fit in `u64`.
pub const RASTER_LIMIT: u64 = 0x1_0000_0000;

/// The sum of channel `ch` (0, 1 or 2) over the first `count` texels of a
/// flat, interleaved 3-channel raster.
pub open spec fn spec_channel_sum(data: Seq<u8>, ch: int, count: int) -> int
    decreases count,
{
    if count <= 0 {
        0
    } else {
        spec_channel_sum(data, ch, count - 1) + data[3 * (count - 1) + ch]
    }
}

/// The mean color of a raster: each channel averaged independently over all
/// texels, the fractional part truncated. An empty raster yields black.
pub open spec fn spec_average_color(data: Seq<u8>) -> (u8, u8, u8) {
    let count = (data.len() / 3) as int;
    if count == 0 {
        (0u8, 0u8, 0u8)
    } else {
        (
            (spec_channel_sum(data, 0, count) / count) as u8,
            (spec_channel_sum(data, 1, count) / count) as u8,
            (spec_channel_sum(data, 2, count) / count) as u8,
        )
    }
}

proof fn lemma_channel_sum_bounds(data: Seq<u8>, ch: int, count: int)
    requires
        0 <= count,
    ensures
        0 <= spec_channel_sum(data, ch, count) <= 255 * count,
    decreases count,
{
    if count > 0 {
        lemma_channel_sum_bounds(data, ch, count - 1);
    }
}

proof fn lemma_uniform_channel_sum(data: Seq<u8>, ch: int, count: int, val: u8)
    requires
        0 <= count,
        forall|i: int| 0 <= i < count ==> #[trigger] data[3 * i + ch] == val,
    ensures
        spec_channel_sum(data, ch, count) == val * count,
    decreases count,
{
    if count > 0 {
        lemma_uniform_channel_sum(data, ch, count - 1, val);
        assert(data[3 * (count - 1) + ch] == val);
        assert(val * count == val * (count - 1) + val) by (nonlinear_arith);
    } else {
        assert(val * 0 == 0) by (nonlinear_arith);
    }
}

/// Sampling a raster whose every texel holds one color yields exactly that
/// color.
pub proof fn lemma_uniform_raster(data: Seq<u8>, c: (u8, u8, u8))
    requires
        data.len() % 3 == 0,
        data.len() > 0,
        forall|i: int| 0 <= i < data.len() / 3 ==> #[trigger] data[3 * i] == c.0,
        forall|i: int| 0 <= i < data.len() / 3 ==> #[trigger] data[3 * i + 1] == c.1,
        forall|i: int| 0 <= i < data.len() / 3 ==> #[trigger] data[3 * i + 2] == c.2,
    ensures
        spec_average_color(data) == c,
{
    let count = (data.len() / 3) as int;
    assert forall|i: int| 0 <= i < count implies #[trigger] data[3 * i + 0] == c.0 by {
        assert(data[3 * i] == c.0);
    }
    lemma_uniform_channel_sum(data, 0, count, c.0);
    lemma_uniform_channel_sum(data, 1, count, c.1);
    lemma_uniform_channel_sum(data, 2, count, c.2);
    assert(c.0 * count == count * c.0) by (nonlinear_arith);
    assert(c.1 * count == count * c.1) by (nonlinear_arith);
    assert(c.2 * count == count * c.2) by (nonlinear_arith);
    vstd::arithmetic::div_mod::lemma_div_multiples_vanish(c.0 as int, count);
    vstd::arithmetic::div_mod::lemma_div_multiples_vanish(c.1 as int, count);
    vstd::arithmetic::div_mod::lemma_div_multiples_vanish(c.2 as int, count);
}

/// Computes the truncated mean of each channel of a flat RGB raster.
pub fn average_color(data: &Vec<u8>) -> (c: (u8, u8, u8))
    requires
        data@.len() <= RASTER_LIMIT,
    ensures
        c == spec_average_color(data@),
{
    let count = data.len() / 3;
    if count == 0 {
        return (0, 0, 0);
    }
    let mut sr: u64 = 0;
    let mut sg: u64 = 0;
    let mut sb: u64 = 0;
    let mut i: usize = 0;
    while i < count
        invariant
            count == data@.len() / 3,
            data@.len() <= RASTER_LIMIT,
            i <= count,
            sr == spec_channel_sum(data@, 0, i as int),
            sg == spec_channel_sum(data@, 1, i as int),
            sb == spec_channel_sum(data@, 2, i as int),
            sr <= 255 * i,
            sg <= 255 * i,
            sb <= 255 * i,
        decreases count - i,
    {
        sr = sr + data[3 * i] as u64;
        sg = sg + data[3 * i + 1] as u64;
        sb = sb + data[3 * i + 2] as u64;
        i += 1;
    }
    proof {
        lemma_channel_sum_bounds(data@, 0, count as int);
        lemma_channel_sum_bounds(data@, 1, count as int);
        lemma_channel_sum_bounds(data@, 2, count as int);
    }
    ((sr / count as u64) as u8, (sg / count as u64) as u8, (sb / count as u64) as u8)
}

/// The mapping from texture name to sampled mean color. A name that occurs
/// twice resolves to the color of its latest occurrence.
pub struct ColorTable {
    pub entries: Vec<(String, (u8, u8, u8))>,
}

impl View for ColorTable {
    type V = Seq<(Seq<char>, (u8, u8, u8))>;

    open spec fn view(&self) -> Seq<(Seq<char>, (u8, u8, u8))> {
        self.entries.deep_view()
    }
}

/// The color stored for name `k`: the latest entry with that key wins.
pub open spec fn spec_lookup(
    entries: Seq<(Seq<char>, (u8, u8, u8))>,
    k: Seq<char>,
) -> Option<(u8, u8, u8)>
    decreases entries.len(),
{
    if entries.len() == 0 {
        None
    } else if entries.last().0 == k {
        Some(entries.last().1)
    } else {
        spec_lookup(entries.drop_last(), k)
    }
}

/// The table built from index-aligned texture names and rasters.
pub open spec fn spec_table(
    names: Seq<Seq<char>>,
    rasters: Seq<Seq<u8>>,
) -> Seq<(Seq<char>, (u8, u8, u8))> {
    Seq::new(names.len(), |i: int| (names[i], spec_average_color(rasters[i])))
}

impl ColorTable {
    /// Looks a texture name up; `None` when the table holds no entry for it.
    pub fn lookup(&self, name: &str) -> (r: Option<(u8, u8, u8)>)
        ensures
            r == spec_lookup(self@, name@),
    {
        let mut i: usize = self.entries.len();
        proof {
            assert(self@ =~= self@.take(self.entries@.len() as int));
        }
        while i > 0
            invariant
                i <= self.entries@.len(),
                self@.len() == self.entries@.len(),
                spec_lookup(self@, name@) == spec_lookup(self@.take(i as int), name@),
            decreases i,
        {
            let ghost prev = i as int;
            i -= 1;
            proof {
                assert(self@.take(prev).last() == self@[i as int]);
                assert(self@.take(prev).drop_last() =~= self@.take(i as int));
                assert(self@[i as int].0 == self.entries@[i as int].0@);
                assert(self@[i as int].1 == self.entries@[i as int].1);
            }
            if str_eq(self.entries[i].0.as_str(), name) {
                return Some(self.entries[i].1);
            }
        }
        proof {
            assert(self@.take(0).len() == 0);
        }
        None
    }
}

/// Builds the color table: one entry per texture, in order, each holding the
/// texture's name and the mean color of its raster.
pub fn build_color_table(textures: &Vec<String>, rasters: &Vec<Vec<u8>>) -> (t: ColorTable)
    requires
        textures@.len() == rasters@.len(),
        forall|i: int| 0 <= i < rasters@.len() ==> (#[trigger] rasters@[i])@.len() <= RASTER_LIMIT,
    ensures
        t@ == spec_table(textures.deep_view(), rasters.deep_view()),
{
    let mut entries: Vec<(String, (u8, u8, u8))> = Vec::new();
    let n = textures.len();
    let mut i: usize = 0;
    while i < n
        invariant
            n == textures@.len(),
            textures@.len() == rasters@.len(),
            forall|j: int| 0 <= j < rasters@.len() ==> (#[trigger] rasters@[j])@.len() <= RASTER_LIMIT,
            i <= n,
            entries.deep_view().len() == i as int,
            forall|j: int|
                0 <= j < i ==> #[trigger] entries.deep_view()[j] == (
                    textures@[j]@,
                    spec_average_color(rasters@[j]@),
                ),
        decreases n - i,
    {
        let name = textures[i].clone();
        let color = average_color(&rasters[i]);
        let ghost name_view = name@;
        let ghost prev_entries = entries@;
        let ghost prev_dv = entries.deep_view();
        entries.push((name, color));
        proof {
            assert forall|j: int| 0 <= j < i + 1 implies #[trigger] entries.deep_view()[j] == (
                textures@[j]@,
                spec_average_color(rasters@[j]@),
            ) by {
                assert(entries.deep_view()[j] == entries@[j].deep_view());
                if j < i {
                    assert(entries@[j] == prev_entries[j]);
                    assert(prev_dv[j] == prev_entries[j].deep_view());
                } else {
                    assert(entries@[j].deep_view() == (name_view, color));
                    assert(name_view == textures@[j]@);
                }
            }
        }
        i += 1;
    }
    let t = ColorTable { entries };
    proof {
        let names = textures.deep_view();
        let rs = rasters.deep_view();
        assert forall|j: int| 0 <= j < n implies t@[j] == #[trigger] spec_table(names, rs)[j] by {
            assert(names[j] == textures@[j]@);
            assert(rs[j] == rasters@[j]@);
            assert(t@[j] == (textures@[j]@, spec_average_color(rasters@[j]@)));
        }
        assert(t@ =~= spec_table(names, rs));
    }
    t
}

} // verus!
