//! Buffer formats: sets of them, which of them a surface renders to, and what a client is told
//! about them.

use vstd::prelude::*;

verus! {

/// A pixel format with its memory layout, by the kernel's numbers.
#[derive(Clone, Copy, PartialEq, Eq, Structural, Debug)]
pub struct Format {
    pub code: u32,
    pub modifier: u64,
}

/// The items of a sequence without repetition, each where it stands first.
pub open spec fn distinct(items: Seq<Format>) -> Seq<Format>
    decreases items.len(),
{
    if items.len() == 0 {
        Seq::empty()
    } else {
        let before = distinct(items.drop_last());
        if before.contains(items.last()) {
            before
        } else {
            before.push(items.last())
        }
    }
}

/// A set of formats that keeps the order in which they were put in.
#[derive(Debug)]
pub struct FormatSet {
    formats: Vec<Format>,
}

impl View for FormatSet {
    type V = Seq<Format>;

    closed spec fn view(&self) -> Seq<Format> {
        self.formats@
    }
}

impl FormatSet {
    /// No format stands in the set twice.
    #[verifier::type_invariant]
    pub open spec fn wf(self) -> bool {
        self@.no_duplicates()
    }

    /// Makes a set of the formats, in their order.
    pub fn from_formats(formats: &Vec<Format>) -> (set: FormatSet)
        ensures
            set@ == distinct(formats@),
            set.wf(),
    {
        let mut kept: Vec<Format> = Vec::new();
        let mut i: usize = 0;
        while i < formats.len()
            invariant
                i <= formats.len(),
                kept@ == distinct(formats@.take(i as int)),
                kept@.no_duplicates(),
            decreases formats.len() - i,
        {
            assert(formats@.take(i + 1).drop_last() =~= formats@.take(i as int));
            if !holds(&kept, formats[i]) {
                kept.push(formats[i]);
            }
            i = i + 1;
        }
        assert(formats@.take(i as int) =~= formats@);
        FormatSet { formats: kept }
    }

    /// Hands out the formats in their order.
    pub fn formats(&self) -> (formats: Vec<Format>)
        ensures
            formats@ == self@,
            formats@.no_duplicates(),
    {
        proof {
            use_type_invariant(self);
        }
        copy_formats(&self.formats)
    }

    /// Whether the set holds the format.
    pub fn contains(&self, format: Format) -> (found: bool)
        ensures
            found == self@.contains(format),
    {
        holds(&self.formats, format)
    }

    /// The formats of this set that the other one holds too, in the order of this set.
    pub fn intersection(&self, other: &FormatSet) -> (common: FormatSet)
        ensures
            common@ == self@.filter(|f: Format| other@.contains(f)),
            common.wf(),
    {
        proof {
            use_type_invariant(self);
        }
        let ghost pred = |f: Format| other@.contains(f);
        let mut kept: Vec<Format> = Vec::new();
        let mut i: usize = 0;
        proof {
            assert(self@.take(0) =~= Seq::<Format>::empty());
            reveal(Seq::filter);
        }
        while i < self.formats.len()
            invariant
                i <= self.formats.len(),
                self@ == self.formats@,
                pred == (|f: Format| other@.contains(f)),
                kept@ == self@.take(i as int).filter(pred),
            decreases self.formats.len() - i,
        {
            proof {
                lemma_filter_take(self@, pred, i as int);
            }
            if other.contains(self.formats[i]) {
                kept.push(self.formats[i]);
            }
            i = i + 1;
        }
        assert(self@.take(i as int) =~= self@);
        proof {
            lemma_filter_distinct(self@, pred);
        }
        FormatSet { formats: kept }
    }

    /// A set of the same formats in the same order.
    pub fn duplicate(&self) -> (set: FormatSet)
        ensures
            set@ == self@,
            set.wf(),
    {
        proof {
            use_type_invariant(self);
        }
        FormatSet { formats: copy_formats(&self.formats) }
    }
}

proof fn lemma_filter_take(s: Seq<Format>, pred: spec_fn(Format) -> bool, i: int)
    requires
        0 <= i < s.len(),
    ensures
        s.take(i + 1).filter(pred) == if pred(s[i]) {
            s.take(i).filter(pred).push(s[i])
        } else {
            s.take(i).filter(pred)
        },
{
    reveal(Seq::filter);
    assert(s.take(i + 1).drop_last() =~= s.take(i));
}

proof fn lemma_filter_distinct(s: Seq<Format>, pred: spec_fn(Format) -> bool)
    requires
        s.no_duplicates(),
    ensures
        s.filter(pred).no_duplicates(),
        forall|f: Format| #[trigger] s.filter(pred).contains(f) <==> s.contains(f) && pred(f),
    decreases s.len(),
{
    reveal(Seq::filter);
    if s.len() > 0 {
        let rest = s.drop_last();
        lemma_filter_distinct(rest, pred);
        assert(!rest.contains(s.last()));
        assert(!rest.filter(pred).contains(s.last()));
        assert(s.filter(pred).no_duplicates());
        assert forall|f: Format| #[trigger] s.filter(pred).contains(f) <==> s.contains(f) && pred(
            f,
        ) by {
            assert(s =~= rest.push(s.last()));
            if s.contains(f) && pred(f) {
                if f == s.last() {
                    assert(s.filter(pred)[s.filter(pred).len() - 1] == f);
                } else {
                    let k = choose|k: int| 0 <= k < s.len() && s[k] == f;
                    assert(rest[k] == f);
                    assert(rest.filter(pred).contains(f));
                    let j = choose|j: int|
                        0 <= j < rest.filter(pred).len() && rest.filter(pred)[j] == f;
                    assert(s.filter(pred)[j] == f);
                }
            }
            if s.filter(pred).contains(f) {
                let j = choose|j: int| 0 <= j < s.filter(pred).len() && s.filter(pred)[j] == f;
                if j < rest.filter(pred).len() {
                    assert(rest.filter(pred)[j] == f);
                    assert(rest.filter(pred).contains(f));
                    let k = choose|k: int| 0 <= k < rest.len() && rest[k] == f;
                    assert(s[k] == f);
                } else {
                    assert(s[s.len() - 1] == f);
                }
            }
        }
    }
}

proof fn lemma_distinct(items: Seq<Format>)
    ensures
        distinct(items).no_duplicates(),
        forall|f: Format| #[trigger] distinct(items).contains(f) <==> items.contains(f),
    decreases items.len(),
{
    if items.len() > 0 {
        let rest = items.drop_last();
        lemma_distinct(rest);
        assert forall|f: Format| #[trigger] distinct(items).contains(f) <==> items.contains(f) by {
            if items.contains(f) {
                if f == items.last() {
                    if !distinct(rest).contains(f) {
                        assert(distinct(items)[distinct(items).len() - 1] == f);
                    }
                } else {
                    let k = choose|k: int| 0 <= k < items.len() && items[k] == f;
                    assert(rest[k] == f);
                    assert(distinct(rest).contains(f));
                    let j = choose|j: int| 0 <= j < distinct(rest).len() && distinct(rest)[j] == f;
                    assert(distinct(items)[j] == f);
                }
            }
            if distinct(items).contains(f) {
                let j = choose|j: int| 0 <= j < distinct(items).len() && distinct(items)[j] == f;
                if j < distinct(rest).len() {
                    assert(distinct(rest)[j] == f);
                    assert(distinct(rest).contains(f));
                    let k = choose|k: int| 0 <= k < rest.len() && rest[k] == f;
                    assert(items[k] == f);
                } else {
                    assert(items[items.len() - 1] == f);
                }
            }
        }
    }
}

/// Whether the format stands in the list.
fn holds(formats: &Vec<Format>, format: Format) -> (found: bool)
    ensures
        found == formats@.contains(format),
{
    let mut i: usize = 0;
    while i < formats.len()
        invariant
            i <= formats.len(),
            forall|j: int| 0 <= j < i ==> formats@[j] != format,
        decreases formats.len() - i,
    {
        if formats[i] == format {
            return true;
        }
        i = i + 1;
    }
    false
}

/// Copies a list of formats.
fn copy_formats(formats: &Vec<Format>) -> (copy: Vec<Format>)
    ensures
        copy@ == formats@,
{
    let mut copy: Vec<Format> = Vec::new();
    append_formats(&mut copy, formats);
    assert(copy@ =~= formats@);
    copy
}

/// Puts the formats behind those of the list.
fn append_formats(list: &mut Vec<Format>, formats: &Vec<Format>)
    ensures
        final(list)@ == old(list)@ + formats@,
{
    let mut i: usize = 0;
    while i < formats.len()
        invariant
            i <= formats.len(),
            list@ == old(list)@ + formats@.take(i as int),
        decreases formats.len() - i,
    {
        list.push(formats[i]);
        assert(formats@.take(i + 1) =~= formats@.take(i as int).push(formats@[i as int]));
        i = i + 1;
    }
    assert(formats@.take(i as int) =~= formats@);
}

/// The compressed memory layouts of Intel cards that have a name of their own.
#[derive(Clone, Copy, PartialEq, Eq, Structural, Debug)]
pub enum CompressedLayout {
    YTiled,
    YTiledGen12Render,
    YTiledGen12Media,
}

/// The kernel's number of a compressed layout.
pub open spec fn layout_code(layout: CompressedLayout) -> u64 {
    match layout {
        CompressedLayout::YTiled => 0x0100_0000_0000_0004,
        CompressedLayout::YTiledGen12Render => 0x0100_0000_0000_0006,
        CompressedLayout::YTiledGen12Media => 0x0100_0000_0000_0007,
    }
}

/// Calls `u64::from` on the `drm::buffer::DrmModifier` of the layout. Claimed: the numbers that
/// `layout_code` gives.
#[verifier::external_body]
fn compressed_code(layout: CompressedLayout) -> (code: u64)
    ensures
        code == layout_code(layout),
{
    let modifier = match layout {
        CompressedLayout::YTiled => drm::buffer::DrmModifier::I915_y_tiled_ccs,
        CompressedLayout::YTiledGen12Render => drm::buffer::DrmModifier::I915_y_tiled_gen12_rc_ccs,
        CompressedLayout::YTiledGen12Media => drm::buffer::DrmModifier::I915_y_tiled_gen12_mc_ccs,
    };
    u64::from(modifier)
}

/// Yf-tiled layout with compression.
pub const YF_TILED_CCS: u64 = 0x0100_0000_0000_0005;

/// Y-tiled layout with compression for rendering and a clear colour.
pub const Y_TILED_GEN12_RC_CCS_CC: u64 = 0x0100_0000_0000_0008;

/// Tile-4 layout with compression for rendering.
pub const TILE4_DG2_RC_CCS: u64 = 0x0100_0000_0000_000a;

/// Tile-4 layout with compression for media.
pub const TILE4_DG2_MC_CCS: u64 = 0x0100_0000_0000_000b;

/// Tile-4 layout with compression for rendering and a clear colour.
pub const TILE4_DG2_RC_CCS_CC: u64 = 0x0100_0000_0000_000c;

/// The layout is a compressed one, which costs scan-out bandwidth.
pub open spec fn is_compressed(modifier: u64) -> bool {
    ||| modifier == layout_code(CompressedLayout::YTiled)
    ||| modifier == YF_TILED_CCS
    ||| modifier == layout_code(CompressedLayout::YTiledGen12Render)
    ||| modifier == layout_code(CompressedLayout::YTiledGen12Media)
    ||| modifier == Y_TILED_GEN12_RC_CCS_CC
    ||| modifier == TILE4_DG2_RC_CCS
    ||| modifier == TILE4_DG2_MC_CCS
    ||| modifier == TILE4_DG2_RC_CCS_CC
}

/// Whether the layout is a compressed one.
pub fn compressed(modifier: u64) -> (yes: bool)
    ensures
        yes == is_compressed(modifier),
{
    modifier == compressed_code(CompressedLayout::YTiled) || modifier == YF_TILED_CCS || modifier
        == compressed_code(CompressedLayout::YTiledGen12Render) || modifier == compressed_code(
        CompressedLayout::YTiledGen12Media,
    ) || modifier == Y_TILED_GEN12_RC_CCS_CC || modifier == TILE4_DG2_RC_CCS || modifier
        == TILE4_DG2_MC_CCS || modifier == TILE4_DG2_RC_CCS_CC
}

/// The formats of a sequence that are not compressed, in their order.
pub open spec fn without_compressed(formats: Seq<Format>) -> Seq<Format> {
    formats.filter(|f: Format| !is_compressed(f.modifier))
}

/// The formats that a surface is rendered to: those of the renderer without the compressed ones,
/// whose bandwidth keeps some monitors from working.
pub fn surface_formats(render: &FormatSet) -> (set: FormatSet)
    ensures
        set@ == without_compressed(render@),
        set.wf(),
{
    proof {
        use_type_invariant(render);
    }
    let ghost pred = |f: Format| !is_compressed(f.modifier);
    let all: Vec<Format> = render.formats();
    let mut kept: Vec<Format> = Vec::new();
    let mut i: usize = 0;
    proof {
        assert(all@.take(0) =~= Seq::<Format>::empty());
        reveal(Seq::filter);
    }
    while i < all.len()
        invariant
            i <= all.len(),
            pred == (|f: Format| !is_compressed(f.modifier)),
            kept@ == all@.take(i as int).filter(pred),
        decreases all.len() - i,
    {
        proof {
            lemma_filter_take(all@, pred, i as int);
        }
        if !compressed(all[i].modifier) {
            kept.push(all[i]);
        }
        i = i + 1;
    }
    assert(all@.take(i as int) =~= all@);
    proof {
        lemma_filter_distinct(all@, pred);
    }
    FormatSet { formats: kept }
}

/// A surface is never rendered to a compressed format, and every other format of the renderer
/// stays available.
pub proof fn law_surface_formats(render: Seq<Format>, f: Format)
    requires
        render.no_duplicates(),
    ensures
        without_compressed(render).contains(f) <==> render.contains(f) && !is_compressed(
            f.modifier,
        ),
{
    lemma_filter_distinct(render, |f: Format| !is_compressed(f.modifier));
}

/// Part of what a client is told: buffers in these formats can be used by this device.
#[derive(Debug)]
pub struct Tranche {
    pub target_device: u64,
    /// The device can show the buffers without a copy.
    pub scanout: bool,
    pub formats: FormatSet,
}

/// What `Tranche` holds.
pub struct TrancheView {
    pub target_device: u64,
    pub scanout: bool,
    pub formats: Seq<Format>,
}

impl View for Tranche {
    type V = TrancheView;

    open spec fn view(&self) -> TrancheView {
        TrancheView {
            target_device: self.target_device,
            scanout: self.scanout,
            formats: self.formats@,
        }
    }
}

/// What a client is told about the buffers it should allocate: the device and formats that
/// always work, and before them the tranches to prefer, best first.
#[derive(Debug)]
pub struct DmabufFeedback {
    pub main_device: u64,
    pub formats: FormatSet,
    pub tranches: Vec<Tranche>,
}

/// What `DmabufFeedback` holds.
#[verifier::ext_equal]
pub struct DmabufFeedbackView {
    pub main_device: u64,
    pub formats: Seq<Format>,
    pub tranches: Seq<TrancheView>,
}

impl View for DmabufFeedback {
    type V = DmabufFeedbackView;

    open spec fn view(&self) -> DmabufFeedbackView {
        DmabufFeedbackView {
            main_device: self.main_device,
            formats: self.formats@,
            tranches: self.tranches@.map_values(|t: Tranche| t@),
        }
    }
}

/// The feedback for clients whose buffers are composited, and for those whose buffers may be
/// scanned out directly.
#[derive(Debug)]
pub struct SurfaceDmabufFeedback {
    pub render_feedback: DmabufFeedback,
    pub scanout_feedback: DmabufFeedback,
}

/// What `SurfaceDmabufFeedback` holds.
#[verifier::ext_equal]
pub struct SurfaceDmabufFeedbackView {
    pub render_feedback: DmabufFeedbackView,
    pub scanout_feedback: DmabufFeedbackView,
}

impl View for SurfaceDmabufFeedback {
    type V = SurfaceDmabufFeedbackView;

    open spec fn view(&self) -> SurfaceDmabufFeedbackView {
        SurfaceDmabufFeedbackView {
            render_feedback: self.render_feedback@,
            scanout_feedback: self.scanout_feedback@,
        }
    }
}

/// The feedback that holds where nothing is known of the surface.
pub fn default_feedback(main_device: u64, formats: &FormatSet) -> (feedback: DmabufFeedback)
    ensures
        feedback@ == (DmabufFeedbackView {
            main_device,
            formats: formats@,
            tranches: Seq::empty(),
        }),
{
    let tranches: Vec<Tranche> = Vec::new();
    assert(tranches@.map_values(|t: Tranche| t@) =~= Seq::<TrancheView>::empty());
    DmabufFeedback { main_device, formats: formats.duplicate(), tranches }
}

/// What was found out about a surface before its feedback is worked out.
#[derive(Debug)]
pub struct FeedbackProbe {
    /// Formats of the renderer of the primary GPU, if there is such a renderer.
    pub primary_formats: Option<FormatSet>,
    /// Formats of the renderer of the surface's own GPU, if there is such a renderer.
    pub render_formats: Option<FormatSet>,
    /// Formats of the plane that the surface is shown on.
    pub plane_formats: FormatSet,
    /// Formats of each overlay plane of the surface.
    pub overlay_formats: Vec<FormatSet>,
    /// The device that shows the surface.
    pub scanout_device: u64,
}

/// The formats of all the sets, one set after the other.
pub open spec fn all_formats(sets: Seq<FormatSet>) -> Seq<Format>
    decreases sets.len(),
{
    if sets.len() == 0 {
        Seq::empty()
    } else {
        all_formats(sets.drop_last()) + sets.last()@
    }
}

/// The formats that either renderer can read.
pub open spec fn renderable(primary: Seq<Format>, render: Seq<Format>) -> Seq<Format> {
    distinct(primary + render)
}

/// The formats that a plane can show and a renderer can read.
pub open spec fn scanout_formats(
    plane: Seq<Format>,
    overlays: Seq<Format>,
    primary: Seq<Format>,
    render: Seq<Format>,
) -> Seq<Format> {
    distinct(plane + overlays).filter(|f: Format| renderable(primary, render).contains(f))
}

/// The feedback of a surface, out of the formats of both renderers and of the planes.
pub open spec fn feedback_of(
    primary_device: u64,
    render_device: u64,
    scanout_device: u64,
    primary: Seq<Format>,
    render: Seq<Format>,
    scanout: Seq<Format>,
) -> SurfaceDmabufFeedbackView {
    let fallback = TrancheView { target_device: render_device, scanout: false, formats: render };
    SurfaceDmabufFeedbackView {
        render_feedback: DmabufFeedbackView {
            main_device: primary_device,
            formats: primary,
            tranches: seq![fallback],
        },
        scanout_feedback: DmabufFeedbackView {
            main_device: primary_device,
            formats: primary,
            tranches: seq![
                TrancheView { target_device: scanout_device, scanout: true, formats: scanout },
                fallback,
            ],
        },
    }
}

/// The feedback of a surface, or none where a renderer is missing.
pub open spec fn probed_feedback(
    primary_device: u64,
    render_device: u64,
    probe: FeedbackProbe,
) -> Option<SurfaceDmabufFeedbackView> {
    match (probe.primary_formats, probe.render_formats) {
        (Some(primary), Some(render)) => Some(
            feedback_of(
                primary_device,
                render_device,
                probe.scanout_device,
                primary@,
                render@,
                scanout_formats(
                    probe.plane_formats@,
                    all_formats(probe.overlay_formats@),
                    primary@,
                    render@,
                ),
            ),
        ),
        _ => None,
    }
}

/// Works out the feedback of a surface. The tranche for scan-out is limited to formats that can
/// be rendered from, so that a buffer that cannot be scanned out can still be composited.
pub fn surface_dmabuf_feedback(
    primary_device: u64,
    render_device: u64,
    probe: &FeedbackProbe,
) -> (feedback: Option<SurfaceDmabufFeedback>)
    ensures
        feedback is Some <==> probed_feedback(primary_device, render_device, *probe) is Some,
        feedback matches Some(f) ==> Some(f@) == probed_feedback(
            primary_device,
            render_device,
            *probe,
        ),
{
    let primary: &FormatSet = match &probe.primary_formats {
        Some(set) => set,
        None => {
            return None;
        },
    };
    let render: &FormatSet = match &probe.render_formats {
        Some(set) => set,
        None => {
            return None;
        },
    };
    let mut either: Vec<Format> = primary.formats();
    append_formats(&mut either, &render.formats());
    let readable: FormatSet = FormatSet::from_formats(&either);

    let mut shown: Vec<Format> = probe.plane_formats.formats();
    let mut i: usize = 0;
    assert(shown@ =~= probe.plane_formats@ + all_formats(probe.overlay_formats@.take(0)));
    while i < probe.overlay_formats.len()
        invariant
            i <= probe.overlay_formats.len(),
            shown@ == probe.plane_formats@ + all_formats(probe.overlay_formats@.take(i as int)),
        decreases probe.overlay_formats.len() - i,
    {
        append_formats(&mut shown, &probe.overlay_formats[i].formats());
        proof {
            let sets = probe.overlay_formats@;
            assert(sets.take(i + 1).drop_last() =~= sets.take(i as int));
            assert(shown@ =~= probe.plane_formats@ + all_formats(sets.take(i + 1)));
        }
        i = i + 1;
    }
    assert(probe.overlay_formats@.take(i as int) =~= probe.overlay_formats@);
    let scanout: FormatSet = FormatSet::from_formats(&shown).intersection(&readable);

    let mut render_tranches: Vec<Tranche> = Vec::new();
    render_tranches.push(
        Tranche { target_device: render_device, scanout: false, formats: render.duplicate() },
    );
    let mut scanout_tranches: Vec<Tranche> = Vec::new();
    scanout_tranches.push(
        Tranche { target_device: probe.scanout_device, scanout: true, formats: scanout },
    );
    scanout_tranches.push(
        Tranche { target_device: render_device, scanout: false, formats: render.duplicate() },
    );
    let feedback = SurfaceDmabufFeedback {
        render_feedback: DmabufFeedback {
            main_device: primary_device,
            formats: primary.duplicate(),
            tranches: render_tranches,
        },
        scanout_feedback: DmabufFeedback {
            main_device: primary_device,
            formats: primary.duplicate(),
            tranches: scanout_tranches,
        },
    };
    proof {
        let expected = probed_feedback(primary_device, render_device, *probe)->Some_0;
        assert(feedback@.render_feedback.tranches =~= expected.render_feedback.tranches);
        assert(feedback@.scanout_feedback.tranches =~= expected.scanout_feedback.tranches);
        assert(feedback@ == expected);
    }
    Some(feedback)
}

/// Every format that is offered for scan-out can be shown by a plane and read by a renderer, so
/// there is always a way to composite the buffer instead; and every such format is offered.
pub proof fn law_scanout_has_fallback(
    plane: Seq<Format>,
    overlays: Seq<Format>,
    primary: Seq<Format>,
    render: Seq<Format>,
    f: Format,
)
    ensures
        scanout_formats(plane, overlays, primary, render).contains(f) <==> (plane.contains(f)
            || overlays.contains(f)) && (primary.contains(f) || render.contains(f)),
{
    lemma_distinct(plane + overlays);
    lemma_distinct(primary + render);
    lemma_filter_distinct(
        distinct(plane + overlays),
        |f: Format| renderable(primary, render).contains(f),
    );
    lemma_contains_add(plane, overlays, f);
    lemma_contains_add(primary, render, f);
}

proof fn lemma_contains_add(a: Seq<Format>, b: Seq<Format>, f: Format)
    ensures
        (a + b).contains(f) <==> a.contains(f) || b.contains(f),
{
    if a.contains(f) {
        let i = choose|i: int| 0 <= i < a.len() && a[i] == f;
        assert((a + b)[i] == f);
    }
    if b.contains(f) {
        let i = choose|i: int| 0 <= i < b.len() && b[i] == f;
        assert((a + b)[a.len() + i] == f);
    }
    if (a + b).contains(f) {
        let i = choose|i: int| 0 <= i < (a + b).len() && (a + b)[i] == f;
        if i < a.len() {
            assert(a[i] == f);
        } else {
            assert(b[i - a.len()] == f);
        }
    }
}

/// A set holds exactly the formats that it was made of.
pub proof fn law_set_holds_its_formats(items: Seq<Format>, f: Format)
    ensures
        distinct(items).contains(f) <==> items.contains(f),
        distinct(items).no_duplicates(),
{
    lemma_distinct(items);
}

/// The pixel formats that an output is composited in, best first: two with ten bits a channel
/// (`AB30`, `AR30`), then two with eight (`AB24`, `AR24`). They are widely supported and lose no
/// colour.
pub const SUPPORTED_COLOR_FORMATS: [u32; 4] = [
    0x3033_4241,
    0x3033_5241,
    0x3432_4241,
    0x3432_5241,
];

proof fn lemma_filter_order(s: Seq<Format>, pred: spec_fn(Format) -> bool, i: int, j: int) -> (res: (
    int,
    int,
))
    requires
        0 <= i < j < s.filter(pred).len(),
    ensures
        0 <= res.0 < res.1 < s.len(),
        s[res.0] == s.filter(pred)[i],
        s[res.1] == s.filter(pred)[j],
    decreases s.len(),
{
    reveal(Seq::filter);
    let rest = s.drop_last();
    let kept = s.filter(pred);
    let earlier = rest.filter(pred);
    assert(kept[i] == earlier[i]);
    if j < earlier.len() {
        assert(kept[j] == earlier[j]);
        lemma_filter_order(rest, pred, i, j)
    } else {
        lemma_filter_source(rest, pred);
        let p = choose|p: int| 0 <= p < rest.len() && #[trigger] rest[p] == earlier[i];
        (p, s.len() - 1)
    }
}

proof fn lemma_filter_source(s: Seq<Format>, pred: spec_fn(Format) -> bool)
    ensures
        forall|i: int|
            0 <= i < s.filter(pred).len() ==> exists|p: int|
                0 <= p < s.len() && #[trigger] s[p] == (#[trigger] s.filter(pred)[i]),
    decreases s.len(),
{
    reveal(Seq::filter);
    if s.len() > 0 {
        let rest = s.drop_last();
        let kept = s.filter(pred);
        let earlier = rest.filter(pred);
        lemma_filter_source(rest, pred);
        assert forall|i: int| 0 <= i < kept.len() implies exists|p: int|
            0 <= p < s.len() && #[trigger] s[p] == (#[trigger] kept[i]) by {
            if i < earlier.len() {
                assert(kept[i] == earlier[i]);
                let p = choose|p: int| 0 <= p < rest.len() && #[trigger] rest[p] == earlier[i];
                assert(s[p] == kept[i]);
            } else {
                assert(s[s.len() - 1] == kept[i]);
            }
        }
    }
}

proof fn lemma_distinct_order(items: Seq<Format>, i: int, j: int) -> (a: int)
    requires
        0 <= i < j < distinct(items).len(),
    ensures
        0 <= a < items.len(),
        items[a] == distinct(items)[i],
        forall|b: int| 0 <= b <= a ==> #[trigger] items[b] != distinct(items)[j],
    decreases items.len(),
{
    let rest = items.drop_last();
    let all = distinct(items);
    let earlier = distinct(rest);
    lemma_distinct(rest);
    assert(all[i] == earlier[i]);
    let a = if j < earlier.len() {
        assert(all[j] == earlier[j]);
        lemma_distinct_order(rest, i, j)
    } else {
        assert(earlier.contains(earlier[i]));
        assert(rest.contains(earlier[i]));
        assert(!earlier.contains(all[j]));
        assert(!rest.contains(all[j]));
        choose|a: int| 0 <= a < rest.len() && rest[a] == earlier[i]
    };
    assert(items[a] == rest[a]);
    assert forall|b: int| 0 <= b <= a implies #[trigger] items[b] != all[j] by {
        assert(items[b] == rest[b]);
    }
    a
}

/// A set that is made of a list holds the formats of the list, each once, in the order in which
/// they first stand in the list.
pub proof fn law_from_formats(formats: &Vec<Format>, set: FormatSet, i: int, j: int)
    requires
        call_ensures(FormatSet::from_formats, (formats,), set),
    ensures
        forall|f: Format| #[trigger] set@.contains(f) <==> formats@.contains(f),
        forall|i: int, j: int| 0 <= i < j < set@.len() ==> #[trigger] set@[i] != #[trigger] set@[j],
        0 <= i < j < set@.len() ==> exists|a: int|
            0 <= a < formats@.len() && #[trigger] formats@[a] == set@[i] && forall|b: int|
                0 <= b <= a ==> #[trigger] formats@[b] != set@[j],
{
    lemma_distinct(formats@);
    if 0 <= i < j < set@.len() {
        let a = lemma_distinct_order(formats@, i, j);
        assert(formats@[a] == set@[i]);
    }
}

/// A set hands out what it holds, duplicates keep it, and it holds what stands in it somewhere.
pub proof fn law_set_reads(
    set: &FormatSet,
    formats: Vec<Format>,
    copy: FormatSet,
    format: Format,
    found: bool,
)
    requires
        call_ensures(FormatSet::formats, (set,), formats),
        call_ensures(FormatSet::duplicate, (set,), copy),
        call_ensures(FormatSet::contains, (set, format), found),
    ensures
        formats@ == set@,
        copy@ == set@,
        found <==> exists|i: int| 0 <= i < formats@.len() && #[trigger] formats@[i] == format,
{
}

/// What two sets have in common are the formats that both hold, each once, in the order of the
/// first set.
pub proof fn law_intersection(
    a: &FormatSet,
    b: &FormatSet,
    common: FormatSet,
    i: int,
    j: int,
)
    requires
        a@.no_duplicates(),
        call_ensures(FormatSet::intersection, (a, b), common),
    ensures
        forall|f: Format| #[trigger] common@.contains(f) <==> a@.contains(f) && b@.contains(f),
        forall|i: int, j: int|
            0 <= i < j < common@.len() ==> #[trigger] common@[i] != #[trigger] common@[j],
        0 <= i < j < common@.len() ==> exists|p: int, q: int|
            0 <= p < q < a@.len() && #[trigger] a@[p] == common@[i] && #[trigger] a@[q]
                == common@[j],
{
    let pred = |f: Format| b@.contains(f);
    lemma_filter_distinct(a@, pred);
    if 0 <= i < j < common@.len() {
        let (p, q) = lemma_filter_order(a@, pred, i, j);
        assert(a@[p] == common@[i] && a@[q] == common@[j]);
    }
}

/// A layout is compressed where its number is one of these eight.
pub proof fn law_compressed(modifier: u64, yes: bool)
    requires
        call_ensures(compressed, (modifier,), yes),
    ensures
        yes <==> modifier == 0x0100_0000_0000_0004 || modifier == 0x0100_0000_0000_0005 || modifier
            == 0x0100_0000_0000_0006 || modifier == 0x0100_0000_0000_0007 || modifier
            == 0x0100_0000_0000_0008 || modifier == 0x0100_0000_0000_000a || modifier
            == 0x0100_0000_0000_000b || modifier == 0x0100_0000_0000_000c,
{
}

/// A surface is rendered to the formats of the renderer but for those that are found compressed,
/// each once, in the renderer's order.
pub proof fn law_surface_is_rendered_uncompressed(
    render: &FormatSet,
    set: FormatSet,
    format: Format,
    yes: bool,
    i: int,
    j: int,
)
    requires
        render@.no_duplicates(),
        call_ensures(surface_formats, (render,), set),
        call_ensures(compressed, (format.modifier,), yes),
    ensures
        set@.contains(format) <==> render@.contains(format) && !yes,
        forall|i: int, j: int| 0 <= i < j < set@.len() ==> #[trigger] set@[i] != #[trigger] set@[j],
        0 <= i < j < set@.len() ==> exists|p: int, q: int|
            0 <= p < q < render@.len() && #[trigger] render@[p] == set@[i] && #[trigger] render@[q]
                == set@[j],
{
    let pred = |f: Format| !is_compressed(f.modifier);
    lemma_filter_distinct(render@, pred);
    if 0 <= i < j < set@.len() {
        let (p, q) = lemma_filter_order(render@, pred, i, j);
        assert(render@[p] == set@[i] && render@[q] == set@[j]);
    }
}

/// The feedback of which nothing is known names the device and the formats, and prefers nothing.
pub proof fn law_default_feedback(main_device: u64, formats: &FormatSet, feedback: DmabufFeedback)
    requires
        call_ensures(default_feedback, (main_device, formats), feedback),
    ensures
        feedback.main_device == main_device,
        feedback.formats@ == formats@,
        feedback.tranches@.len() == 0,
{
    assert(feedback@.tranches.len() == 0);
}

/// A surface has feedback where both renderers are there. Both halves of it name the primary
/// device and its formats. Where buffers are composited, the render device with its formats is
/// preferred. Where they may be scanned out, the device that shows the surface comes first,
/// marked for scan-out, and the render device second, without the mark. This is so whichever of
/// the devices are the same.
pub proof fn law_feedback_of_a_surface(
    primary_device: u64,
    render_device: u64,
    probe: &FeedbackProbe,
    feedback: Option<SurfaceDmabufFeedback>,
)
    requires
        call_ensures(
            surface_dmabuf_feedback,
            (primary_device, render_device, probe),
            feedback,
        ),
    ensures
        feedback is Some <==> probe.primary_formats is Some && probe.render_formats is Some,
        feedback matches Some(f) ==> {
            let primary = probe.primary_formats->Some_0@;
            let render = probe.render_formats->Some_0@;
            let composited = f.render_feedback;
            let direct = f.scanout_feedback;
            &&& composited.main_device == primary_device
            &&& composited.formats@ == primary
            &&& composited.tranches@.len() == 1
            &&& composited.tranches@[0].target_device == render_device
            &&& !composited.tranches@[0].scanout
            &&& composited.tranches@[0].formats@ == render
            &&& direct.main_device == primary_device
            &&& direct.formats@ == primary
            &&& direct.tranches@.len() == 2
            &&& direct.tranches@[0].target_device == probe.scanout_device
            &&& direct.tranches@[0].scanout
            &&& direct.tranches@[1].target_device == render_device
            &&& !direct.tranches@[1].scanout
            &&& direct.tranches@[1].formats@ == render
        },
{
    if let Some(f) = feedback {
        let composited = f.render_feedback@.tranches;
        let direct = f.scanout_feedback@.tranches;
        assert(composited.len() == 1 && direct.len() == 2);
        assert(composited[0] == f.render_feedback.tranches@[0]@);
        assert(direct[0] == f.scanout_feedback.tranches@[0]@);
        assert(direct[1] == f.scanout_feedback.tranches@[1]@);
    }
}

proof fn lemma_all_formats(sets: Seq<FormatSet>)
    ensures
        all_formats(sets) == sets.map_values(|s: FormatSet| s@).flatten(),
        forall|f: Format| #[trigger]
            all_formats(sets).contains(f) <==> exists|o: int|
                0 <= o < sets.len() && (#[trigger] sets[o])@.contains(f),
    decreases sets.len(),
{
    let views = sets.map_values(|s: FormatSet| s@);
    if sets.len() == 0 {
        assert(views.flatten() =~= Seq::<Format>::empty());
        assert(all_formats(sets) =~= Seq::<Format>::empty());
    } else {
        let rest = sets.drop_last();
        let rest_views = rest.map_values(|s: FormatSet| s@);
        lemma_all_formats(rest);
        assert(views =~= rest_views.push(sets.last()@));
        rest_views.lemma_flatten_push(sets.last()@);
        assert forall|f: Format| #[trigger] all_formats(sets).contains(f) <==> exists|o: int|
            0 <= o < sets.len() && (#[trigger] sets[o])@.contains(f) by {
            lemma_contains_add(all_formats(rest), sets.last()@, f);
            if all_formats(rest).contains(f) {
                let o = choose|o: int| 0 <= o < rest.len() && (#[trigger] rest[o])@.contains(f);
                assert(sets[o]@.contains(f));
            }
            if sets.last()@.contains(f) {
                assert(sets[sets.len() - 1]@.contains(f));
            }
            if exists|o: int| 0 <= o < sets.len() && (#[trigger] sets[o])@.contains(f) {
                let o = choose|o: int| 0 <= o < sets.len() && (#[trigger] sets[o])@.contains(f);
                if o < rest.len() {
                    assert(rest[o]@.contains(f));
                }
            }
        }
    }
}

/// The formats that are marked for scan-out are those that the plane or an overlay shows and a
/// renderer reads, each once, in the order in which they first stand in the formats of the plane
/// and then of one overlay after the other.
pub proof fn law_scanout_tranche(
    primary_device: u64,
    render_device: u64,
    probe: &FeedbackProbe,
    feedback: Option<SurfaceDmabufFeedback>,
    i: int,
    j: int,
)
    requires
        call_ensures(
            surface_dmabuf_feedback,
            (primary_device, render_device, probe),
            feedback,
        ),
        feedback is Some,
    ensures
        ({
            let primary = probe.primary_formats->Some_0@;
            let render = probe.render_formats->Some_0@;
            let overlays = probe.overlay_formats@;
            let shown = probe.plane_formats@ + overlays.map_values(|s: FormatSet| s@).flatten();
            let offered = feedback->Some_0.scanout_feedback.tranches@[0].formats@;
            &&& forall|f: Format| #[trigger]
                offered.contains(f) <==> (probe.plane_formats@.contains(f) || exists|o: int|
                    0 <= o < overlays.len() && (#[trigger] overlays[o])@.contains(f)) && (
                primary.contains(f) || render.contains(f))
            &&& 0 <= i < j < offered.len() ==> offered[i] != offered[j] && exists|a: int|
                0 <= a < shown.len() && #[trigger] shown[a] == offered[i] && forall|b: int|
                    0 <= b <= a ==> #[trigger] shown[b] != offered[j]
        }),
{
    law_feedback_of_a_surface(primary_device, render_device, probe, feedback);
    let primary = probe.primary_formats->Some_0@;
    let render = probe.render_formats->Some_0@;
    let overlays = probe.overlay_formats@;
    let plane = probe.plane_formats@;
    let shown = plane + overlays.map_values(|s: FormatSet| s@).flatten();
    let direct = feedback->Some_0.scanout_feedback;
    let offered = direct.tranches@[0].formats@;
    let pred = |f: Format| renderable(primary, render).contains(f);
    lemma_all_formats(overlays);
    assert(direct@.tranches[0] == direct.tranches@[0]@);
    assert(offered == distinct(shown).filter(pred));
    lemma_distinct(shown);
    lemma_filter_distinct(distinct(shown), pred);
    assert forall|f: Format| #[trigger] offered.contains(f) <==> (plane.contains(f) || exists|o: int|
        0 <= o < overlays.len() && (#[trigger] overlays[o])@.contains(f)) && (primary.contains(f)
        || render.contains(f)) by {
        law_scanout_has_fallback(plane, all_formats(overlays), primary, render, f);
        assert(all_formats(overlays).contains(f) <==> exists|o: int|
            0 <= o < overlays.len() && (#[trigger] overlays[o])@.contains(f));
    }
    if 0 <= i < j < offered.len() {
        let (p, q) = lemma_filter_order(distinct(shown), pred, i, j);
        let a = lemma_distinct_order(shown, p, q);
        assert(shown[a] == offered[i]);
    }
}

} // verus!
