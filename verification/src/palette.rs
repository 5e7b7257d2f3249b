//! The target palette and nearest-neighbor search over it.
//!
//! A palette is an ordered, non-empty sequence of colors. Nearest
//! selection uses squared Euclidean distance; ties are broken by first
//! occurrence in palette order. The k-nearest selection repeatedly
//! extracts the not-yet-chosen entry of least distance, so it lists the
//! chosen entries in nondecreasing distance order.

use vstd::prelude::*;

use crate::color::{spec_sq_dist, Color};
use crate::error::Error;

verus! {

/// Largest accepted palette length. A longer sequence of 8-bit RGB
/// colors necessarily repeats one, so it cannot be deduplicated; the
/// bound also keeps every weighted sum inside 64-bit arithmetic.
pub const PALETTE_MAX: usize = 0x100_0000;

/// A palette is well formed when it is non-empty and no longer than the
/// number of distinct colors.
pub open spec fn spec_palette_wf(s: Seq<Color>) -> bool {
    1 <= s.len() <= PALETTE_MAX
}

/// An ordered, non-empty set of target colors.
#[derive(Debug)]
pub struct Palette {
    colors: Vec<Color>,
}

impl View for Palette {
    type V = Seq<Color>;

    closed spec fn view(&self) -> Seq<Color> {
        self.colors@
    }
}

/// Index of the palette entry nearest to `c` among the first `n`
/// entries; on equal distances the earlier index wins.
pub open spec fn spec_nearest_in_prefix(pal: Seq<Color>, c: Color, n: int) -> int
    decreases n,
{
    if n <= 1 {
        0
    } else {
        let p = spec_nearest_in_prefix(pal, c, n - 1);
        if spec_sq_dist(pal[n - 1], c) < spec_sq_dist(pal[p], c) {
            n - 1
        } else {
            p
        }
    }
}

/// Index of the palette entry nearest to `c`.
pub open spec fn spec_nearest(pal: Seq<Color>, c: Color) -> int {
    spec_nearest_in_prefix(pal, c, pal.len() as int)
}

/// The prefix argmin lies in range and no prefix entry is nearer.
pub proof fn lemma_nearest_in_prefix(pal: Seq<Color>, c: Color, n: int)
    requires
        1 <= n,
    ensures
        0 <= spec_nearest_in_prefix(pal, c, n) < n,
        forall|j: int|
            0 <= j < n ==> spec_sq_dist(pal[spec_nearest_in_prefix(pal, c, n)], c)
                <= #[trigger] spec_sq_dist(pal[j], c),
    decreases n,
{
    if n > 1 {
        lemma_nearest_in_prefix(pal, c, n - 1);
    }
}

/// The nearest index of a whole palette lies in range and is minimal.
pub proof fn lemma_nearest(pal: Seq<Color>, c: Color)
    requires
        pal.len() >= 1,
    ensures
        0 <= spec_nearest(pal, c) < pal.len(),
        forall|j: int|
            0 <= j < pal.len() ==> spec_sq_dist(pal[spec_nearest(pal, c)], c)
                <= #[trigger] spec_sq_dist(pal[j], c),
{
    lemma_nearest_in_prefix(pal, c, pal.len() as int);
}

/// Least-index argmin over the first `n` entries whose `used` flag is
/// clear, or `-1` when every one of them is set.
pub open spec fn spec_argmin_unused(pal: Seq<Color>, c: Color, used: Seq<bool>, n: int) -> int
    decreases n,
{
    if n <= 0 {
        -1
    } else {
        let p = spec_argmin_unused(pal, c, used, n - 1);
        if used[n - 1] {
            p
        } else if p == -1 || spec_sq_dist(pal[n - 1], c) < spec_sq_dist(pal[p], c) {
            n - 1
        } else {
            p
        }
    }
}

/// What the unused argmin returns: `-1` exactly when no flag is clear,
/// else an in-range unused index of least distance.
pub proof fn lemma_argmin_unused(pal: Seq<Color>, c: Color, used: Seq<bool>, n: int)
    ensures
        spec_argmin_unused(pal, c, used, n) == -1 <==> (forall|j: int| 0 <= j < n ==> used[j]),
        spec_argmin_unused(pal, c, used, n) != -1 ==> {
            let i = spec_argmin_unused(pal, c, used, n);
            &&& 0 <= i < n
            &&& !used[i]
            &&& forall|j: int|
                0 <= j < n && !used[j] ==> spec_sq_dist(pal[i], c) <= #[trigger] spec_sq_dist(
                    pal[j],
                    c,
                )
        },
    decreases n,
{
    if n > 0 {
        lemma_argmin_unused(pal, c, used, n - 1);
    }
}

/// Greedy k-nearest selection: picks the unused entry of least distance,
/// marks it, and recurses; stops early if everything is used.
pub open spec fn spec_select_nearest(pal: Seq<Color>, c: Color, used: Seq<bool>, k: int) -> Seq<int>
    decreases k,
{
    if k <= 0 {
        Seq::empty()
    } else {
        let i = spec_argmin_unused(pal, c, used, pal.len() as int);
        if i < 0 {
            Seq::empty()
        } else {
            seq![i] + spec_select_nearest(pal, c, used.update(i, true), k - 1)
        }
    }
}

/// Indices of the `k` palette entries nearest to `c`, nearest first.
pub open spec fn spec_k_nearest(pal: Seq<Color>, c: Color, k: int) -> Seq<int> {
    spec_select_nearest(pal, c, Seq::new(pal.len(), |i: int| false), k)
}

/// Every selected index is in range.
pub proof fn lemma_select_nearest_in_bounds(
    pal: Seq<Color>,
    c: Color,
    used: Seq<bool>,
    k: int,
)
    ensures
        forall|j: int|
            0 <= j < spec_select_nearest(pal, c, used, k).len()
                ==> 0 <= #[trigger] spec_select_nearest(pal, c, used, k)[j] < pal.len(),
    decreases k,
{
    if k > 0 {
        let i = spec_argmin_unused(pal, c, used, pal.len() as int);
        lemma_argmin_unused(pal, c, used, pal.len() as int);
        if i >= 0 {
            lemma_select_nearest_in_bounds(pal, c, used.update(i, true), k - 1);
            let s = spec_select_nearest(pal, c, used, k);
            let rest = spec_select_nearest(pal, c, used.update(i, true), k - 1);
            assert(s == seq![i] + rest);
            assert forall|j: int| 0 <= j < s.len() implies 0 <= #[trigger] s[j] < pal.len() by {
                if j == 0 {
                    assert(s[0] == i);
                } else {
                    assert(s[j] == rest[j - 1]);
                }
            }
        }
    }
}

/// At most `k` entries are selected.
pub proof fn lemma_select_nearest_len(pal: Seq<Color>, c: Color, used: Seq<bool>, k: int)
    ensures
        spec_select_nearest(pal, c, used, k).len() <= k || k < 0,
    decreases k,
{
    if k > 0 {
        let i = spec_argmin_unused(pal, c, used, pal.len() as int);
        if i >= 0 {
            lemma_select_nearest_len(pal, c, used.update(i, true), k - 1);
        }
    }
}

/// With at least one entry unused, the selection is non-empty and
/// starts with an unused entry of least distance.
pub proof fn lemma_select_nearest_head(pal: Seq<Color>, c: Color, used: Seq<bool>, k: int)
    requires
        k >= 1,
        exists|j: int| 0 <= j < pal.len() && !used[j],
    ensures
        spec_select_nearest(pal, c, used, k).len() >= 1,
        0 <= spec_select_nearest(pal, c, used, k)[0] < pal.len(),
        !used[spec_select_nearest(pal, c, used, k)[0]],
        forall|j: int|
            0 <= j < pal.len() && !used[j] ==> spec_sq_dist(
                pal[spec_select_nearest(pal, c, used, k)[0]],
                c,
            ) <= #[trigger] spec_sq_dist(pal[j], c),
{
    lemma_argmin_unused(pal, c, used, pal.len() as int);
}

impl Palette {
    /// Whether this palette satisfies the palette invariant.
    pub open spec fn wf(&self) -> bool {
        spec_palette_wf(self@)
    }

    /// Builds a palette from an ordered list of colors. Fails with
    /// [`Error::InvalidPalette`] exactly when the list is empty or
    /// longer than [`PALETTE_MAX`].
    pub fn new(colors: Vec<Color>) -> (r: Result<Palette, Error>)
        ensures
            match r {
                Ok(p) => p@ == colors@ && p.wf(),
                Err(e) => e == Error::InvalidPalette && !spec_palette_wf(colors@),
            },
    {
        if colors.len() == 0 || colors.len() > PALETTE_MAX {
            Err(Error::InvalidPalette)
        } else {
            Ok(Palette { colors })
        }
    }

    /// Number of colors.
    pub fn len(&self) -> (n: usize)
        ensures
            n == self@.len(),
    {
        self.colors.len()
    }

    /// The color at index `i`.
    pub fn get(&self, i: usize) -> (c: Color)
        requires
            i < self@.len(),
        ensures
            c == self@[i as int],
    {
        self.colors[i]
    }

    /// Index of the entry nearest to `c`, ties to the first occurrence.
    pub fn nearest(&self, c: &Color) -> (i: usize)
        requires
            self@.len() >= 1,
        ensures
            i == spec_nearest(self@, *c),
            i < self@.len(),
    {
        let len = self.colors.len();
        let mut best: usize = 0;
        let mut best_d: u32 = self.colors[0].sq_dist(c);
        let mut j: usize = 1;
        while j < len
            invariant
                1 <= j <= len,
                len == self@.len(),
                best == spec_nearest_in_prefix(self@, *c, j as int),
                best < j,
                best_d == spec_sq_dist(self@[best as int], *c),
            decreases len - j,
        {
            let d = self.colors[j].sq_dist(c);
            if d < best_d {
                best = j;
                best_d = d;
            }
            j = j + 1;
        }
        best
    }

    /// Indices of the `k` entries nearest to `c`, nearest first.
    pub fn k_nearest(&self, c: &Color, k: usize) -> (idxs: Vec<usize>)
        requires
            self@.len() >= 1,
        ensures
            idxs@.len() == spec_k_nearest(self@, *c, k as int).len(),
            forall|j: int|
                0 <= j < idxs@.len() ==> idxs@[j] == spec_k_nearest(self@, *c, k as int)[j],
            forall|j: int| 0 <= j < idxs@.len() ==> #[trigger] idxs@[j] < self@.len(),
    {
        let len = self.colors.len();
        let mut used: Vec<bool> = Vec::new();
        let mut t: usize = 0;
        while t < len
            invariant
                t <= len,
                used@.len() == t,
                forall|j: int| 0 <= j < t ==> !used@[j],
            decreases len - t,
        {
            used.push(false);
            t = t + 1;
        }
        proof {
            assert(used@ =~= Seq::new(self@.len(), |i: int| false));
        }

        let ghost goal: Seq<int> = spec_k_nearest(self@, *c, k as int);
        let mut idxs: Vec<usize> = Vec::new();
        let ghost mut picked: Seq<int> = Seq::empty();
        let mut step: usize = 0;
        proof {
            assert(picked + spec_select_nearest(self@, *c, used@, k as int) =~= goal);
        }
        while step < k
            invariant
                step <= k,
                len == self@.len(),
                used@.len() == len,
                idxs@.len() == picked.len(),
                forall|j: int| 0 <= j < picked.len() ==> idxs@[j] == picked[j],
                forall|j: int| 0 <= j < idxs@.len() ==> #[trigger] idxs@[j] < len,
                picked + spec_select_nearest(self@, *c, used@, k - step) == goal,
            decreases k - step,
        {
            let mut found: bool = false;
            let mut best: usize = 0;
            let mut j: usize = 0;
            while j < len
                invariant
                    j <= len,
                    len == self@.len(),
                    used@.len() == len,
                    found == (spec_argmin_unused(self@, *c, used@, j as int) != -1),
                    found ==> best == spec_argmin_unused(self@, *c, used@, j as int) && best < j
                        && !used@[best as int],
                decreases len - j,
            {
                if !used[j] {
                    if !found {
                        found = true;
                        best = j;
                    } else {
                        let dj = self.colors[j].sq_dist(c);
                        let db = self.colors[best].sq_dist(c);
                        if dj < db {
                            best = j;
                        }
                    }
                }
                j = j + 1;
            }
            let ghost used_before = used@;
            let ghost picked_before = picked;
            if found {
                idxs.push(best);
                used.set(best, true);
                proof {
                    picked = picked.push(best as int);
                    assert(spec_argmin_unused(self@, *c, used_before, len as int) == best as int);
                    assert(spec_select_nearest(self@, *c, used_before, k - step) == seq![
                        best as int,
                    ] + spec_select_nearest(
                        self@,
                        *c,
                        used_before.update(best as int, true),
                        k - step - 1,
                    ));
                    assert(used@ =~= used_before.update(best as int, true));
                    assert(picked + spec_select_nearest(self@, *c, used@, k - step - 1)
                        =~= picked_before + spec_select_nearest(self@, *c, used_before, k - step));
                }
            } else {
                proof {
                    assert(spec_select_nearest(self@, *c, used_before, k - step)
                        =~= Seq::<int>::empty());
                    assert(spec_select_nearest(self@, *c, used@, k - step - 1)
                        =~= Seq::<int>::empty());
                    assert(picked + spec_select_nearest(self@, *c, used@, k - step - 1)
                        =~= picked_before + spec_select_nearest(self@, *c, used_before, k - step));
                }
            }
            step = step + 1;
        }
        proof {
            assert(picked + spec_select_nearest(self@, *c, used@, 0) =~= picked);
        }
        idxs
    }
}

} // verus!
