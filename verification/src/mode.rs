//! Choice of the display mode that a connector is driven with.

use vstd::prelude::*;

verus! {

/// The fastest refresh rate, in hertz, that is picked on its own account.
pub const MAX_REFRESH: u32 = 100;

/// The bit of a mode's type that marks the display's preferred mode.
pub const PREFERRED: u32 = 8;

/// What the choice reads of a display mode.
#[derive(Clone, Copy, PartialEq, Eq, Structural, Debug)]
pub struct Mode {
    pub width: u16,
    pub height: u16,
    /// Refresh rate in hertz.
    pub vrefresh: u32,
    /// The kernel's bits for the kind of mode.
    pub mode_type: u32,
}

impl Mode {
    /// Width and height together.
    pub open spec fn spec_size(self) -> (u16, u16) {
        (self.width, self.height)
    }

    /// Whether the display prefers this mode.
    pub open spec fn preferred(self) -> bool {
        self.mode_type & PREFERRED == PREFERRED
    }

    /// Width and height together.
    pub fn size(&self) -> (size: (u16, u16))
        ensures
            size == self.spec_size(),
    {
        (self.width, self.height)
    }
}

/// Calls `drm::control::ModeTypeFlags::contains` on the flags that `from_bits_truncate` makes of
/// `mode_type`, with `PREFERRED` as the argument. Claimed: the answer is whether the preferred
/// bit of `mode_type` is set.
#[verifier::external_body]
fn has_preferred_flag(mode_type: u32) -> (set: bool)
    ensures
        set == (mode_type & PREFERRED == PREFERRED),
{
    let flags = drm::control::ModeTypeFlags::from_bits_truncate(mode_type);
    flags.contains(drm::control::ModeTypeFlags::PREFERRED)
}

/// `k` is the first preferred mode of the list.
pub open spec fn is_first_preferred(modes: Seq<Mode>, k: int) -> bool {
    &&& 0 <= k < modes.len()
    &&& modes[k].preferred()
    &&& forall|i: int| 0 <= i < k ==> !(#[trigger] modes[i]).preferred()
}

/// Where the first preferred mode stands, if there is one.
pub open spec fn first_preferred(modes: Seq<Mode>) -> Option<int> {
    if exists|k: int| is_first_preferred(modes, k) {
        Some(choose|k: int| is_first_preferred(modes, k))
    } else {
        None
    }
}

/// Order of sizes: by width, then by height.
pub open spec fn size_le(a: (u16, u16), b: (u16, u16)) -> bool {
    a.0 < b.0 || (a.0 == b.0 && a.1 <= b.1)
}

/// `size` is the largest size of the list.
pub open spec fn is_largest_size(modes: Seq<Mode>, size: (u16, u16)) -> bool {
    &&& exists|i: int| 0 <= i < modes.len() && (#[trigger] modes[i]).spec_size() == size
    &&& forall|i: int| 0 <= i < modes.len() ==> size_le((#[trigger] modes[i]).spec_size(), size)
}

/// The size that the output gets by default: that of the first preferred mode, else the largest
/// one.
pub open spec fn default_size(modes: Seq<Mode>) -> (u16, u16) {
    match first_preferred(modes) {
        Some(p) => modes[p].spec_size(),
        None => if modes.len() == 0 {
            (0, 0)
        } else {
            choose|size: (u16, u16)| is_largest_size(modes, size)
        },
    }
}

/// The mode has the wanted size and does not refresh faster than `MAX_REFRESH`.
pub open spec fn eligible(mode: Mode, size: (u16, u16)) -> bool {
    mode.spec_size() == size && mode.vrefresh <= MAX_REFRESH
}

/// `k` is the first of the fastest eligible modes among the first `n` of the list.
pub open spec fn is_fastest(modes: Seq<Mode>, size: (u16, u16), n: int, k: int) -> bool {
    &&& 0 <= k < n
    &&& eligible(modes[k], size)
    &&& forall|i: int|
        0 <= i < n && eligible(#[trigger] modes[i], size) ==> modes[i].vrefresh
            <= modes[k].vrefresh
    &&& forall|i: int|
        0 <= i < k && eligible(#[trigger] modes[i], size) ==> modes[i].vrefresh
            < modes[k].vrefresh
}

/// No mode of the list is eligible.
pub open spec fn none_eligible(modes: Seq<Mode>, size: (u16, u16)) -> bool {
    forall|i: int| 0 <= i < modes.len() ==> !eligible(#[trigger] modes[i], size)
}

/// `k` is the mode that is picked: the first of the fastest eligible modes of the default size;
/// where no mode is eligible, the first preferred mode; where none is preferred either, the
/// first of the list.
pub open spec fn is_selected(modes: Seq<Mode>, k: int) -> bool {
    if exists|i: int| 0 <= i < modes.len() && eligible(#[trigger] modes[i], default_size(modes)) {
        is_fastest(modes, default_size(modes), modes.len() as int, k)
    } else {
        match first_preferred(modes) {
            Some(p) => k == p,
            None => k == 0,
        }
    }
}

/// Finds the first preferred mode.
pub fn preferred_mode(modes: &Vec<Mode>) -> (found: Option<usize>)
    ensures
        match found {
            Some(k) => first_preferred(modes@) == Some(k as int) && is_first_preferred(
                modes@,
                k as int,
            ),
            None => first_preferred(modes@) is None,
        },
{
    let mut k: usize = 0;
    while k < modes.len()
        invariant
            k <= modes.len(),
            forall|i: int| 0 <= i < k ==> !(#[trigger] modes@[i]).preferred(),
        decreases modes.len() - k,
    {
        if has_preferred_flag(modes[k].mode_type) {
            assert(is_first_preferred(modes@, k as int));
            proof {
                lemma_first_preferred(modes@, k as int);
            }
            return Some(k);
        }
        k = k + 1;
    }
    None
}

proof fn lemma_first_preferred(modes: Seq<Mode>, k: int)
    requires
        is_first_preferred(modes, k),
    ensures
        first_preferred(modes) == Some(k),
{
    let c = choose|c: int| is_first_preferred(modes, c);
    assert(is_first_preferred(modes, c));
    assert(c == k) by {
        if c < k {
            assert(!modes[c].preferred());
        }
        if k < c {
            assert(!modes[k].preferred());
        }
    }
}

proof fn lemma_largest_size(modes: Seq<Mode>, size: (u16, u16))
    requires
        is_largest_size(modes, size),
    ensures
        forall|other: (u16, u16)| is_largest_size(modes, other) ==> other == size,
{
    assert forall|other: (u16, u16)| is_largest_size(modes, other) implies other == size by {
        let i = choose|i: int| 0 <= i < modes.len() && (#[trigger] modes[i]).spec_size() == size;
        let j = choose|j: int| 0 <= j < modes.len() && (#[trigger] modes[j]).spec_size() == other;
        assert(size_le(modes[i].spec_size(), other));
        assert(size_le(modes[j].spec_size(), size));
    }
}

/// Finds the largest size of the list, ordered by width and then by height; an empty list gives
/// zero.
pub fn largest_size(modes: &Vec<Mode>) -> (size: (u16, u16))
    ensures
        modes@.len() == 0 ==> size == (0u16, 0u16),
        modes@.len() > 0 ==> is_largest_size(modes@, size),
{
    if modes.len() == 0 {
        return (0, 0);
    }
    let mut size: (u16, u16) = modes[0].size();
    let mut k: usize = 1;
    while k < modes.len()
        invariant
            1 <= k <= modes.len(),
            exists|i: int| 0 <= i < k && (#[trigger] modes@[i]).spec_size() == size,
            forall|i: int| 0 <= i < k ==> size_le((#[trigger] modes@[i]).spec_size(), size),
        decreases modes.len() - k,
    {
        let next: (u16, u16) = modes[k].size();
        if size.0 < next.0 || (size.0 == next.0 && size.1 <= next.1) {
            size = next;
            assert(modes@[k as int].spec_size() == size);
        }
        k = k + 1;
    }
    size
}

/// Finds the first of the fastest modes that have the given size and refresh at `MAX_REFRESH` or
/// less.
pub fn fastest_mode(modes: &Vec<Mode>, size: (u16, u16)) -> (found: Option<usize>)
    ensures
        match found {
            Some(k) => is_fastest(modes@, size, modes@.len() as int, k as int),
            None => forall|i: int|
                0 <= i < modes@.len() ==> !eligible(#[trigger] modes@[i], size),
        },
        found is None ==> none_eligible(modes@, size),
{
    let mut best: Option<usize> = None;
    let mut k: usize = 0;
    while k < modes.len()
        invariant
            k <= modes.len(),
            match best {
                Some(b) => is_fastest(modes@, size, k as int, b as int),
                None => forall|i: int| 0 <= i < k ==> !eligible(#[trigger] modes@[i], size),
            },
        decreases modes.len() - k,
    {
        let (width, height) = modes[k].size();
        if width == size.0 && height == size.1 && modes[k].vrefresh <= MAX_REFRESH {
            assert(eligible(modes@[k as int], size));
            match best {
                Some(b) => {
                    if modes[k].vrefresh > modes[b].vrefresh {
                        best = Some(k);
                    }
                },
                None => {
                    best = Some(k);
                },
            }
        } else {
            assert(!eligible(modes@[k as int], size));
        }
        k = k + 1;
    }
    best
}

/// Picks the mode that the connector is driven with.
pub fn select_mode(modes: &Vec<Mode>) -> (k: usize)
    requires
        modes@.len() > 0,
    ensures
        k < modes@.len(),
        is_selected(modes@, k as int),
{
    let preferred = preferred_mode(modes);
    let size: (u16, u16) = match preferred {
        Some(p) => modes[p].size(),
        None => {
            let largest = largest_size(modes);
            proof {
                lemma_largest_size(modes@, largest);
            }
            largest
        },
    };
    assert(size == default_size(modes@));
    match fastest_mode(modes, size) {
        Some(k) => {
            assert(eligible(modes@[k as int], size));
            k
        },
        None => match preferred {
            Some(p) => p,
            None => 0,
        },
    }
}

/// Only one mode of a list is the one that is picked.
pub proof fn law_selection_is_unique(modes: Seq<Mode>, j: int, k: int)
    requires
        is_selected(modes, j),
        is_selected(modes, k),
    ensures
        j == k,
{
    if exists|i: int| 0 <= i < modes.len() && eligible(#[trigger] modes[i], default_size(modes)) {
        assert(eligible(modes[j], default_size(modes)));
        assert(eligible(modes[k], default_size(modes)));
    }
}

/// A display that has a preferred mode is driven at the preferred mode's resolution.
pub proof fn law_preferred_size_is_kept(modes: Seq<Mode>, p: int, k: int)
    requires
        is_first_preferred(modes, p),
        is_selected(modes, k),
    ensures
        modes[k].spec_size() == modes[p].spec_size(),
{
    lemma_first_preferred(modes, p);
}

/// A display is driven above `MAX_REFRESH` only where no mode of the default size stays within
/// it, and otherwise at the fastest rate within it that the size offers.
pub proof fn law_refresh_limit(modes: Seq<Mode>, k: int, i: int)
    requires
        is_selected(modes, k),
        0 <= i < modes.len(),
        eligible(modes[i], default_size(modes)),
    ensures
        eligible(modes[k], default_size(modes)),
        modes[i].vrefresh <= modes[k].vrefresh <= MAX_REFRESH,
{
}

/// The size that `size` hands out is the width and the height.
pub proof fn law_size(mode: &Mode, size: (u16, u16))
    requires
        call_ensures(Mode::size, (mode,), size),
    ensures
        size.0 == mode.width,
        size.1 == mode.height,
{
}

proof fn lemma_some_first_preferred(modes: Seq<Mode>, n: int)
    requires
        0 <= n <= modes.len(),
        exists|i: int| 0 <= i < n && (#[trigger] modes[i]).preferred(),
    ensures
        exists|k: int| is_first_preferred(modes, k),
    decreases n,
{
    if exists|i: int| 0 <= i < n - 1 && (#[trigger] modes[i]).preferred() {
        lemma_some_first_preferred(modes, n - 1);
    } else {
        assert(is_first_preferred(modes, n - 1));
    }
}

/// The preferred mode of a list is the first one whose bit of value eight is set, and there is
/// none only where that bit is set in no mode.
pub proof fn law_preferred_mode(modes: &Vec<Mode>, found: Option<usize>)
    requires
        call_ensures(preferred_mode, (modes,), found),
    ensures
        found matches Some(k) ==> {
            &&& k < modes@.len()
            &&& modes@[k as int].mode_type & 8 == 8
            &&& forall|i: int| 0 <= i < k ==> (#[trigger] modes@[i]).mode_type & 8 != 8
        },
        found is None <==> forall|i: int|
            0 <= i < modes@.len() ==> (#[trigger] modes@[i]).mode_type & 8 != 8,
{
    if found is None {
        assert forall|i: int| 0 <= i < modes@.len() implies (#[trigger] modes@[i]).mode_type & 8
            != 8 by {
            if modes@[i].preferred() {
                lemma_some_first_preferred(modes@, modes@.len() as int);
            }
        }
    }
}

/// The largest size is that of some mode; no mode is wider, and none of that width is higher.
pub proof fn law_largest_size(modes: &Vec<Mode>, size: (u16, u16))
    requires
        call_ensures(largest_size, (modes,), size),
    ensures
        modes@.len() == 0 ==> size.0 == 0 && size.1 == 0,
        modes@.len() > 0 ==> exists|i: int|
            0 <= i < modes@.len() && (#[trigger] modes@[i]).width == size.0 && modes@[i].height
                == size.1,
        forall|i: int|
            0 <= i < modes@.len() ==> (#[trigger] modes@[i]).width <= size.0 && (modes@[i].width
                == size.0 ==> modes@[i].height <= size.1),
{
    if modes@.len() > 0 {
        let i = choose|i: int|
            0 <= i < modes@.len() && (#[trigger] modes@[i]).spec_size() == size;
        assert(modes@[i].width == size.0 && modes@[i].height == size.1);
        assert forall|j: int| 0 <= j < modes@.len() implies (#[trigger] modes@[j]).width <= size.0
            && (modes@[j].width == size.0 ==> modes@[j].height <= size.1) by {
            assert(size_le(modes@[j].spec_size(), size));
        }
    }
}

/// The fastest mode of a size is a mode of that size at a hundred hertz or less; no other such
/// mode is faster, and none before it is as fast. There is none only where no mode is such.
pub proof fn law_fastest_mode(modes: &Vec<Mode>, size: (u16, u16), found: Option<usize>)
    requires
        call_ensures(fastest_mode, (modes, size), found),
    ensures
        found matches Some(k) ==> {
            &&& k < modes@.len()
            &&& modes@[k as int].width == size.0
            &&& modes@[k as int].height == size.1
            &&& modes@[k as int].vrefresh <= 100
            &&& forall|i: int|
                0 <= i < modes@.len() && (#[trigger] modes@[i]).width == size.0
                    && modes@[i].height == size.1 && modes@[i].vrefresh <= 100
                    ==> modes@[i].vrefresh <= modes@[k as int].vrefresh && (i < k
                    ==> modes@[i].vrefresh < modes@[k as int].vrefresh)
        },
        found is None <==> forall|i: int|
            0 <= i < modes@.len() && (#[trigger] modes@[i]).width == size.0 && modes@[i].height
                == size.1 ==> modes@[i].vrefresh > 100,
{
    match found {
        Some(k) => {
            assert(eligible(modes@[k as int], size));
            assert forall|i: int|
                0 <= i < modes@.len() && (#[trigger] modes@[i]).width == size.0
                    && modes@[i].height == size.1 && modes@[i].vrefresh
                    <= 100 implies modes@[i].vrefresh <= modes@[k as int].vrefresh && (i < k
                ==> modes@[i].vrefresh < modes@[k as int].vrefresh) by {
                assert(eligible(modes@[i], size));
            }
        },
        None => {
            assert forall|i: int|
                0 <= i < modes@.len() && (#[trigger] modes@[i]).width == size.0
                    && modes@[i].height == size.1 implies modes@[i].vrefresh > 100 by {
                let m = modes@[i];
                assert(eligible(m, size) <==> m.vrefresh <= 100);
            }
        },
    }
}

/// The size of the first preferred mode is the default size; and so is the largest size where no
/// mode is preferred.
proof fn lemma_default_size(modes: Seq<Mode>, width: u16, height: u16)
    requires
        (exists|p: int|
            0 <= p < modes.len() && (#[trigger] modes[p]).mode_type & 8 == 8 && modes[p].width
                == width && modes[p].height == height && forall|j: int|
                0 <= j < p ==> (#[trigger] modes[j]).mode_type & 8 != 8) || ((forall|j: int|
            0 <= j < modes.len() ==> (#[trigger] modes[j]).mode_type & 8 != 8) && (exists|i: int|
            0 <= i < modes.len() && (#[trigger] modes[i]).width == width && modes[i].height
                == height) && (forall|i: int|
            0 <= i < modes.len() ==> (#[trigger] modes[i]).width <= width && (modes[i].width
                == width ==> modes[i].height <= height))),
    ensures
        default_size(modes) == (width, height),
{
    if exists|p: int|
        0 <= p < modes.len() && (#[trigger] modes[p]).mode_type & 8 == 8 && modes[p].width == width
            && modes[p].height == height && forall|j: int|
            0 <= j < p ==> (#[trigger] modes[j]).mode_type & 8 != 8 {
        let p = choose|p: int|
            0 <= p < modes.len() && (#[trigger] modes[p]).mode_type & 8 == 8 && modes[p].width
                == width && modes[p].height == height && forall|j: int|
                0 <= j < p ==> (#[trigger] modes[j]).mode_type & 8 != 8;
        assert(is_first_preferred(modes, p));
        lemma_first_preferred(modes, p);
    } else {
        let i = choose|i: int|
            0 <= i < modes.len() && (#[trigger] modes[i]).width == width && modes[i].height
                == height;
        assert(modes[i].spec_size() == (width, height));
        assert(is_largest_size(modes, (width, height)));
        lemma_largest_size(modes, (width, height));
    }
}

/// The display is driven at the size of its first preferred mode, or at the largest size where
/// none is preferred, at the fastest rate up to a hundred hertz that the size offers; of equally
/// fast modes the first is picked.
pub proof fn law_picked_mode_is_the_fastest(
    modes: &Vec<Mode>,
    k: usize,
    width: u16,
    height: u16,
    i: int,
)
    requires
        call_ensures(select_mode, (modes,), k),
        (exists|p: int|
            0 <= p < modes@.len() && (#[trigger] modes@[p]).mode_type & 8 == 8 && modes@[p].width
                == width && modes@[p].height == height && forall|j: int|
                0 <= j < p ==> (#[trigger] modes@[j]).mode_type & 8 != 8) || ((forall|j: int|
            0 <= j < modes@.len() ==> (#[trigger] modes@[j]).mode_type & 8 != 8) && (exists|m: int|
            0 <= m < modes@.len() && (#[trigger] modes@[m]).width == width && modes@[m].height
                == height) && (forall|m: int|
            0 <= m < modes@.len() ==> (#[trigger] modes@[m]).width <= width && (modes@[m].width
                == width ==> modes@[m].height <= height))),
        0 <= i < modes@.len(),
        modes@[i].width == width,
        modes@[i].height == height,
        modes@[i].vrefresh <= 100,
    ensures
        k < modes@.len(),
        modes@[k as int].width == width,
        modes@[k as int].height == height,
        modes@[i].vrefresh <= modes@[k as int].vrefresh <= 100,
        modes@[i].vrefresh == modes@[k as int].vrefresh ==> k <= i,
{
    lemma_default_size(modes@, width, height);
    assert(eligible(modes@[i], default_size(modes@)));
    assert(eligible(modes@[k as int], default_size(modes@)));
}

/// Where every mode of that size refreshes faster than a hundred hertz, the first preferred mode
/// is picked, or the first of the list where none is preferred.
pub proof fn law_picked_mode_above_the_limit(
    modes: &Vec<Mode>,
    k: usize,
    width: u16,
    height: u16,
)
    requires
        call_ensures(select_mode, (modes,), k),
        (exists|p: int|
            0 <= p < modes@.len() && (#[trigger] modes@[p]).mode_type & 8 == 8 && modes@[p].width
                == width && modes@[p].height == height && forall|j: int|
                0 <= j < p ==> (#[trigger] modes@[j]).mode_type & 8 != 8) || ((forall|j: int|
            0 <= j < modes@.len() ==> (#[trigger] modes@[j]).mode_type & 8 != 8) && (exists|m: int|
            0 <= m < modes@.len() && (#[trigger] modes@[m]).width == width && modes@[m].height
                == height) && (forall|m: int|
            0 <= m < modes@.len() ==> (#[trigger] modes@[m]).width <= width && (modes@[m].width
                == width ==> modes@[m].height <= height))),
        forall|i: int|
            0 <= i < modes@.len() && (#[trigger] modes@[i]).width == width && modes@[i].height
                == height ==> modes@[i].vrefresh > 100,
    ensures
        k < modes@.len(),
        (forall|j: int| 0 <= j < modes@.len() ==> (#[trigger] modes@[j]).mode_type & 8 != 8) ==> k
            == 0,
        (exists|j: int| 0 <= j < modes@.len() && (#[trigger] modes@[j]).mode_type & 8 == 8) ==> (
        modes@[k as int].mode_type & 8 == 8 && forall|j: int|
            0 <= j < k ==> (#[trigger] modes@[j]).mode_type & 8 != 8),
{
    lemma_default_size(modes@, width, height);
    assert forall|i: int| 0 <= i < modes@.len() implies !eligible(
        #[trigger] modes@[i],
        default_size(modes@),
    ) by {
        assert(modes@[i].width != width || modes@[i].height != height || modes@[i].vrefresh > 100);
    }
    if exists|j: int| 0 <= j < modes@.len() && (#[trigger] modes@[j]).mode_type & 8 == 8 {
        let j = choose|j: int| 0 <= j < modes@.len() && (#[trigger] modes@[j]).mode_type & 8 == 8;
        assert(modes@[j].preferred());
        lemma_some_first_preferred(modes@, modes@.len() as int);
        let p = first_preferred(modes@)->Some_0;
        assert(is_first_preferred(modes@, p));
        assert forall|j: int| 0 <= j < p implies (#[trigger] modes@[j]).mode_type & 8 != 8 by {
            assert(!modes@[j].preferred());
        }
    } else {
        if first_preferred(modes@) is Some {
            let p = first_preferred(modes@)->Some_0;
            assert(is_first_preferred(modes@, p));
            assert(modes@[p].mode_type & 8 == 8);
        }
    }
}

/// A mode can be picked from every list that is not empty.
pub proof fn law_every_list_has_a_pick(modes: &Vec<Mode>)
    requires
        modes@.len() > 0,
    ensures
        call_requires(select_mode, (modes,)),
{
}

} // verus!
