//! What clients are told about the buffers that each surface can take, and which of their
//! buffers are taken.

use vstd::prelude::*;
use vstd::std_specs::hash::*;

use crate::formats::{
    default_feedback, probed_feedback, surface_dmabuf_feedback, DmabufFeedback,
    DmabufFeedbackView, FeedbackProbe, FormatSet, SurfaceDmabufFeedback,
};
use crate::tty::{
    key_list, lemma_take_contains, lists, DrmNode, GpuDevice, Surface, SurfaceView, Tty, TtyView,
};

verus! {

broadcast use group_hash_axioms;

/// A surface, by its device and CRTC, and the node that renders for it.
#[derive(Clone, Copy, PartialEq, Eq, Structural, Debug)]
pub struct SurfaceKey {
    pub node: DrmNode,
    pub crtc: u32,
    pub render_node: DrmNode,
}

/// The key names a surface of the record.
pub open spec fn names_surface(tty: TtyView, key: SurfaceKey) -> bool {
    tty.has_surface(key.node, key.crtc) && key.render_node == tty.device(
        key.node,
    ).surfaces[key.crtc].render_node
}

/// The keys name every surface of the record once.
pub open spec fn names_surfaces(tty: TtyView, keys: Seq<SurfaceKey>) -> bool {
    &&& keys.no_duplicates()
    &&& forall|key: SurfaceKey| #[trigger] keys.contains(key) <==> names_surface(tty, key)
}

/// What is left to do after the devices of the start were added.
#[derive(Debug)]
pub struct InitPlan {
    /// The surfaces whose feedback is to be worked out.
    pub surfaces: Vec<SurfaceKey>,
    /// The device to import explicit synchronisation from, if it supports it.
    pub syncobj: Option<DrmNode>,
}

/// The record after the feedback of a surface was worked out.
pub open spec fn after_feedback(
    tty: TtyView,
    node: DrmNode,
    crtc: u32,
    probe: FeedbackProbe,
) -> TtyView {
    if tty.has_surface(node, crtc) {
        let surface = tty.device(node).surfaces[crtc];
        tty.with_surface(
            node,
            crtc,
            SurfaceView {
                dmabuf_feedback: probed_feedback(
                    tty.primary_render_node.dev_id,
                    surface.render_node.dev_id,
                    probe,
                ),
                ..surface
            },
        )
    } else {
        tty
    }
}

impl Tty {
    /// The feedback for surfaces of which nothing is known.
    pub fn default_feedback(&self, formats: &FormatSet) -> (feedback: DmabufFeedback)
        ensures
            feedback@ == (DmabufFeedbackView {
                main_device: self@.primary_render_node.dev_id,
                formats: formats@,
                tranches: Seq::empty(),
            }),
    {
        default_feedback(self.primary_render_node.dev_id, formats)
    }

    /// Names all surfaces, in any order.
    pub fn surface_keys(&self) -> (keys: Vec<SurfaceKey>)
        ensures
            names_surfaces(self@, keys@),
    {
        let numbers: Vec<u64> = key_list(&self.devices);
        let mut keys: Vec<SurfaceKey> = Vec::new();
        let mut i: usize = 0;
        while i < numbers.len()
            invariant
                i <= numbers.len(),
                lists(numbers@, self.devices@.dom()),
                keys@.no_duplicates(),
                forall|key: SurfaceKey| #[trigger]
                    keys@.contains(key) <==> names_surface(self@, key) && numbers@.take(
                        i as int,
                    ).contains(key.node.dev_id),
            decreases numbers.len() - i,
        {
            let node = DrmNode { dev_id: numbers[i] };
            proof {
                lemma_take_contains(numbers@, i as int);
                assert(numbers@.to_set().contains(node.dev_id));
                assert(!numbers@.take(i as int).contains(node.dev_id));
            }
            match self.devices.get(&node.dev_id) {
                Some(device) => {
                    self.device_keys(node, device, &mut keys);
                },
                None => {
                    assert(false);
                },
            }
            i = i + 1;
        }
        proof {
            assert(numbers@.take(i as int) =~= numbers@);
            assert forall|key: SurfaceKey| #[trigger] keys@.contains(key) <==> names_surface(
                self@,
                key,
            ) by {
                if names_surface(self@, key) {
                    assert(numbers@.to_set().contains(key.node.dev_id));
                }
            }
        }
        keys
    }

    /// Adds the keys of all surfaces of a device.
    fn device_keys(&self, node: DrmNode, device: &GpuDevice, keys: &mut Vec<SurfaceKey>)
        requires
            self@.knows(node),
            self@.device(node) == device@,
            old(keys)@.no_duplicates(),
            forall|key: SurfaceKey| #[trigger] old(keys)@.contains(key) ==> key.node != node,
        ensures
            final(keys)@.no_duplicates(),
            forall|key: SurfaceKey| #[trigger]
                final(keys)@.contains(key) <==> old(keys)@.contains(key) || (key.node == node
                    && names_surface(self@, key)),
    {
        let crtcs: Vec<u32> = key_list(&device.surfaces);
        let mut i: usize = 0;
        while i < crtcs.len()
            invariant
                i <= crtcs.len(),
                self@.knows(node),
                self@.device(node) == device@,
                lists(crtcs@, device.surfaces@.dom()),
                keys@.no_duplicates(),
                forall|key: SurfaceKey| #[trigger] old(keys)@.contains(key) ==> key.node != node,
                forall|key: SurfaceKey| #[trigger]
                    keys@.contains(key) <==> old(keys)@.contains(key) || (key.node == node
                        && names_surface(self@, key) && crtcs@.take(i as int).contains(key.crtc)),
            decreases crtcs.len() - i,
        {
            let crtc: u32 = crtcs[i];
            proof {
                lemma_take_contains(crtcs@, i as int);
                assert(crtcs@.to_set().contains(crtc));
                assert(!crtcs@.take(i as int).contains(crtc));
            }
            match device.surfaces.get(&crtc) {
                Some(surface) => {
                    let key = SurfaceKey { node, crtc, render_node: surface.render_node };
                    let ghost before = keys@;
                    assert(names_surface(self@, key));
                    assert(!before.contains(key));
                    keys.push(key);
                    proof {
                        lemma_push_contains(before, key);
                    }
                },
                None => {
                    assert(false);
                },
            }
            i = i + 1;
        }
        proof {
            assert(crtcs@.take(i as int) =~= crtcs@);
            assert forall|key: SurfaceKey| key.node == node && #[trigger] names_surface(
                self@,
                key,
            ) implies crtcs@.contains(key.crtc) by {
                assert(crtcs@.to_set().contains(key.crtc));
            }
        }
    }

    /// Takes note of the buffer global that clients are offered, and says what is left to do at
    /// the start.
    pub fn init(&mut self, dmabuf_global: u64) -> (plan: InitPlan)
        ensures
            final(self)@ == (TtyView { dmabuf_global: Some(dmabuf_global), ..old(self)@ }),
            names_surfaces(old(self)@, plan.surfaces@),
            plan.syncobj == if old(self)@.knows(old(self)@.primary_node) {
                Some(old(self)@.primary_node)
            } else {
                None
            },
    {
        let surfaces = self.surface_keys();
        let syncobj: Option<DrmNode> = if self.devices.contains_key(&self.primary_node.dev_id) {
            Some(self.primary_node)
        } else {
            None
        };
        self.dmabuf_global = Some(dmabuf_global);
        InitPlan { surfaces, syncobj }
    }

    /// The feedback of a surface, if there is such a surface and it has any.
    pub fn surface_feedback(&self, node: DrmNode, crtc: u32) -> (feedback: Option<
        &SurfaceDmabufFeedback,
    >)
        ensures
            feedback is Some <==> self@.has_surface(node, crtc) && self@.device(
                node,
            ).surfaces[crtc].dmabuf_feedback is Some,
            feedback matches Some(f) ==> Some(f@) == self@.device(
                node,
            ).surfaces[crtc].dmabuf_feedback,
    {
        match self.devices.get(&node.dev_id) {
            Some(device) => match device.surfaces.get(&crtc) {
                Some(surface) => match &surface.dmabuf_feedback {
                    Some(feedback) => Some(feedback),
                    None => None,
                },
                None => None,
            },
            None => None,
        }
    }

    /// Works out the feedback of a surface anew.
    pub fn update_feedback(&mut self, node: DrmNode, crtc: u32, probe: &FeedbackProbe)
        ensures
            final(self)@ == after_feedback(old(self)@, node, crtc, *probe),
    {
        let ghost before = self@;
        let ghost expected = after_feedback(before, node, crtc, *probe);
        let device = match self.devices.remove(&node.dev_id) {
            Some(device) => device,
            None => {
                assert(self@ =~= before);
                return ;
            },
        };
        proof {
            use_type_invariant(&device);
        }
        let GpuDevice { token, render_node, surfaces, non_desktop_connectors } = device;
        let mut surfaces = surfaces;
        match surfaces.remove(&crtc) {
            Some(surface) => {
                let feedback = surface_dmabuf_feedback(
                    self.primary_render_node.dev_id,
                    surface.render_node.dev_id,
                    probe,
                );
                surfaces.insert(
                    crtc,
                    Surface {
                        output: surface.output,
                        device_id: surface.device_id,
                        render_node: surface.render_node,
                        dmabuf_feedback: feedback,
                    },
                );
            },
            None => {},
        }
        let device = GpuDevice { token, render_node, surfaces, non_desktop_connectors };
        assert(device@ =~= expected.device(node));
        self.devices.insert(node.dev_id, device);
        assert(self@.devices =~= expected.devices);
    }
}

proof fn lemma_push_contains(s: Seq<SurfaceKey>, key: SurfaceKey)
    ensures
        forall|k: SurfaceKey| #[trigger] s.push(key).contains(k) <==> s.contains(k) || k == key,
{
    assert forall|k: SurfaceKey| #[trigger] s.push(key).contains(k) <==> s.contains(k) || k
        == key by {
        if s.contains(k) {
            let j = choose|j: int| 0 <= j < s.len() && s[j] == k;
            assert(s.push(key)[j] == k);
        }
        assert(s.push(key)[s.len() as int] == key);
    }
}

/// What trying to use a client's buffer on the primary GPU came to.
#[derive(Clone, Copy, PartialEq, Eq, Structural, Debug)]
pub enum ImportResult {
    /// There is no renderer.
    NoRenderer,
    /// The renderer refused the buffer.
    Refused,
    /// The renderer took the buffer.
    Imported,
}

impl Tty {
    /// Whether a client's buffer is taken: if so, gives the node that the buffer is from now on
    /// known to belong to.
    pub fn dmabuf_imported(&self, result: ImportResult) -> (node: Option<DrmNode>)
        ensures
            node == if result == ImportResult::Imported {
                Some(self@.primary_render_node)
            } else {
                None
            },
    {
        match result {
            ImportResult::Imported => Some(self.primary_render_node),
            _ => None,
        }
    }

    /// The node that a client's buffers are brought to as soon as they are committed: everything
    /// is rendered on the primary GPU.
    pub fn early_import(&self) -> (node: DrmNode)
        ensures
            node == self@.primary_render_node,
    {
        self.primary_render_node
    }
}

/// The record after the feedback of all the surfaces was worked out, one after the other, from
/// what is found out of each.
pub open spec fn after_all_feedback(
    tty: TtyView,
    keys: Seq<SurfaceKey>,
    probes: spec_fn(SurfaceKey) -> FeedbackProbe,
) -> TtyView
    decreases keys.len(),
{
    if keys.len() == 0 {
        tty
    } else {
        let key = keys.last();
        after_feedback(
            after_all_feedback(tty, keys.drop_last(), probes),
            key.node,
            key.crtc,
            probes(key),
        )
    }
}

/// The record with the feedback of the named surfaces worked out, and all else as it was.
pub open spec fn has_fresh_feedback(
    tty: TtyView,
    after: TtyView,
    keys: Seq<SurfaceKey>,
    probes: spec_fn(SurfaceKey) -> FeedbackProbe,
) -> bool {
    &&& after.primary_node == tty.primary_node
    &&& after.primary_render_node == tty.primary_render_node
    &&& after.seat_name == tty.seat_name
    &&& after.dmabuf_global == tty.dmabuf_global
    &&& after.devices.dom() == tty.devices.dom()
    &&& forall|node: DrmNode| #[trigger]
        tty.knows(node) ==> {
            &&& after.device(node).token == tty.device(node).token
            &&& after.device(node).render_node == tty.device(node).render_node
            &&& after.device(node).non_desktop == tty.device(node).non_desktop
            &&& after.device(node).surfaces.dom() == tty.device(node).surfaces.dom()
        }
    &&& forall|key: SurfaceKey| #[trigger]
        names_surface(tty, key) ==> after.device(key.node).surfaces[key.crtc] == if keys.contains(
            key,
        ) {
            SurfaceView {
                dmabuf_feedback: probed_feedback(
                    tty.primary_render_node.dev_id,
                    key.render_node.dev_id,
                    probes(key),
                ),
                ..tty.device(key.node).surfaces[key.crtc]
            }
        } else {
            tty.device(key.node).surfaces[key.crtc]
        }
}

proof fn lemma_fresh_feedback(
    tty: TtyView,
    keys: Seq<SurfaceKey>,
    probes: spec_fn(SurfaceKey) -> FeedbackProbe,
)
    requires
        keys.no_duplicates(),
        forall|key: SurfaceKey| #[trigger] keys.contains(key) ==> names_surface(tty, key),
    ensures
        has_fresh_feedback(tty, after_all_feedback(tty, keys, probes), keys, probes),
    decreases keys.len(),
{
    if keys.len() > 0 {
        let rest = keys.drop_last();
        let last = keys.last();
        assert forall|key: SurfaceKey| #[trigger] rest.contains(key) implies names_surface(
            tty,
            key,
        ) by {
            lemma_push_contains(rest, last);
            assert(keys =~= rest.push(last));
            assert(rest.push(last).contains(key));
        }
        lemma_fresh_feedback(tty, rest, probes);
        let before = after_all_feedback(tty, rest, probes);
        let after = after_all_feedback(tty, keys, probes);
        assert(keys[keys.len() - 1] == last);
        assert(keys.contains(last));
        assert(names_surface(tty, last));
        assert(!rest.contains(last));
        assert(tty.knows(last.node));
        assert(before.has_surface(last.node, last.crtc));
        assert(after.devices.dom() =~= tty.devices.dom());
        assert forall|node: DrmNode| #[trigger] tty.knows(node) implies {
            &&& after.device(node).token == tty.device(node).token
            &&& after.device(node).render_node == tty.device(node).render_node
            &&& after.device(node).non_desktop == tty.device(node).non_desktop
            &&& after.device(node).surfaces.dom() == tty.device(node).surfaces.dom()
        } by {
            assert(before.device(node).token == tty.device(node).token);
            if node == last.node {
                assert(after.device(node).surfaces.dom() =~= tty.device(node).surfaces.dom());
            } else {
                assert(node.dev_id != last.node.dev_id);
            }
        }
        assert forall|key: SurfaceKey| #[trigger] names_surface(tty, key) implies after.device(
            key.node,
        ).surfaces[key.crtc] == if keys.contains(key) {
            SurfaceView {
                dmabuf_feedback: probed_feedback(
                    tty.primary_render_node.dev_id,
                    key.render_node.dev_id,
                    probes(key),
                ),
                ..tty.device(key.node).surfaces[key.crtc]
            }
        } else {
            tty.device(key.node).surfaces[key.crtc]
        } by {
            lemma_push_contains(rest, last);
            assert(keys =~= rest.push(last));
            if key.node == last.node && key.crtc == last.crtc {
                assert(key == last);
            } else if key.node != last.node {
                assert(key.node.dev_id != last.node.dev_id);
            }
        }
    }
}

/// After the start, the feedback of every surface has been worked out from what was found out
/// of it, and nothing else has changed.
pub proof fn law_all_feedback_is_fresh(
    tty: TtyView,
    keys: Seq<SurfaceKey>,
    probes: spec_fn(SurfaceKey) -> FeedbackProbe,
)
    requires
        names_surfaces(tty, keys),
    ensures
        has_fresh_feedback(tty, after_all_feedback(tty, keys, probes), keys, probes),
        forall|key: SurfaceKey| #[trigger] names_surface(tty, key) ==> keys.contains(key),
{
    lemma_fresh_feedback(tty, keys, probes);
}

/// The keys name every surface of every device, each once, with the node that renders for it, and
/// nothing else.
pub proof fn law_surface_keys(tty: &Tty, keys: Vec<SurfaceKey>)
    requires
        call_ensures(Tty::surface_keys, (tty,), keys),
    ensures
        forall|i: int, j: int|
            0 <= i < j < keys@.len() ==> #[trigger] keys@[i] != #[trigger] keys@[j],
        forall|key: SurfaceKey| #[trigger]
            keys@.contains(key) <==> tty@.devices.contains_key(key.node.dev_id)
                && tty@.devices[key.node.dev_id].surfaces.contains_key(key.crtc)
                && tty@.devices[key.node.dev_id].surfaces[key.crtc].render_node == key.render_node,
{
    assert forall|key: SurfaceKey| #[trigger] keys@.contains(key) <==> tty@.devices.contains_key(
        key.node.dev_id,
    ) && tty@.devices[key.node.dev_id].surfaces.contains_key(key.crtc)
        && tty@.devices[key.node.dev_id].surfaces[key.crtc].render_node == key.render_node by {
        assert(names_surface(tty@, key) <==> keys@.contains(key));
    }
}

/// From the start on the global is the one that is offered, and nothing else of the record has
/// changed. Left to do is every surface, once; and explicit synchronisation on the primary GPU
/// where it is known.
pub proof fn law_init(tty: &mut Tty, dmabuf_global: u64, plan: InitPlan)
    requires
        call_ensures(Tty::init, (tty, dmabuf_global), plan),
    ensures
        final(tty)@.dmabuf_global == Some(dmabuf_global),
        final(tty)@.devices == old(tty)@.devices,
        final(tty)@.primary_node == old(tty)@.primary_node,
        final(tty)@.primary_render_node == old(tty)@.primary_render_node,
        final(tty)@.seat_name == old(tty)@.seat_name,
        forall|i: int, j: int|
            0 <= i < j < plan.surfaces@.len() ==> #[trigger] plan.surfaces@[i]
                != #[trigger] plan.surfaces@[j],
        forall|key: SurfaceKey| #[trigger]
            plan.surfaces@.contains(key) <==> old(tty)@.devices.contains_key(key.node.dev_id)
                && old(tty)@.devices[key.node.dev_id].surfaces.contains_key(key.crtc)
                && old(tty)@.devices[key.node.dev_id].surfaces[key.crtc].render_node
                == key.render_node,
        plan.syncobj is Some <==> old(tty)@.devices.contains_key(old(tty)@.primary_node.dev_id),
        plan.syncobj matches Some(node) ==> node == old(tty)@.primary_node,
{
    assert forall|key: SurfaceKey| #[trigger]
        plan.surfaces@.contains(key) <==> old(tty)@.devices.contains_key(key.node.dev_id) && old(
        tty,
    )@.devices[key.node.dev_id].surfaces.contains_key(key.crtc) && old(
        tty,
    )@.devices[key.node.dev_id].surfaces[key.crtc].render_node == key.render_node by {
        assert(names_surface(old(tty)@, key) <==> plan.surfaces@.contains(key));
    }
}

/// What is read as the feedback of a surface is what the record holds.
pub proof fn law_surface_feedback(
    tty: &Tty,
    node: DrmNode,
    crtc: u32,
    feedback: Option<&SurfaceDmabufFeedback>,
)
    requires
        call_ensures(Tty::surface_feedback, (tty, node, crtc), feedback),
    ensures
        feedback is Some <==> tty@.devices.contains_key(node.dev_id)
            && tty@.devices[node.dev_id].surfaces.contains_key(crtc)
            && tty@.devices[node.dev_id].surfaces[crtc].dmabuf_feedback is Some,
        feedback matches Some(f) ==> tty@.devices[node.dev_id].surfaces[crtc].dmabuf_feedback
            == Some(f@),
{
}

/// Working out the feedback of a surface gives it what its render node, the render node of the
/// primary GPU and what was found out lead to. No other surface is touched, nor anything else of
/// the record; and where there is no such surface nothing is.
pub proof fn law_update_feedback(
    tty: &mut Tty,
    node: DrmNode,
    crtc: u32,
    probe: &FeedbackProbe,
    worked_out: Option<SurfaceDmabufFeedback>,
)
    requires
        call_ensures(Tty::update_feedback, (tty, node, crtc, probe), ()),
        call_ensures(
            surface_dmabuf_feedback,
            (
                old(tty)@.primary_render_node.dev_id,
                old(tty)@.devices[node.dev_id].surfaces[crtc].render_node.dev_id,
                probe,
            ),
            worked_out,
        ),
    ensures
        final(tty)@.primary_node == old(tty)@.primary_node,
        final(tty)@.primary_render_node == old(tty)@.primary_render_node,
        final(tty)@.seat_name == old(tty)@.seat_name,
        final(tty)@.dmabuf_global == old(tty)@.dmabuf_global,
        final(tty)@.devices.dom() == old(tty)@.devices.dom(),
        forall|d: u64| #[trigger]
            old(tty)@.devices.contains_key(d) ==> {
                let before = old(tty)@.devices[d];
                let after = final(tty)@.devices[d];
                &&& after.token == before.token
                &&& after.render_node == before.render_node
                &&& after.non_desktop == before.non_desktop
                &&& after.surfaces.dom() == before.surfaces.dom()
                &&& forall|c: u32| #[trigger]
                    before.surfaces.contains_key(c) ==> {
                        &&& after.surfaces[c].output == before.surfaces[c].output
                        &&& after.surfaces[c].device_id == before.surfaces[c].device_id
                        &&& after.surfaces[c].render_node == before.surfaces[c].render_node
                        &&& after.surfaces[c].dmabuf_feedback == if d == node.dev_id && c == crtc {
                            match worked_out {
                                Some(f) => Some(f@),
                                None => None,
                            }
                        } else {
                            before.surfaces[c].dmabuf_feedback
                        }
                    }
            },
{
    assert(final(tty)@.devices.dom() =~= old(tty)@.devices.dom());
    assert forall|d: u64| #[trigger]
        old(tty)@.devices.contains_key(d) implies final(tty)@.devices[d].surfaces.dom() == old(
        tty,
    )@.devices[d].surfaces.dom() by {
        assert(final(tty)@.devices[d].surfaces.dom() =~= old(tty)@.devices[d].surfaces.dom());
    }
}

/// A client's buffer is taken where the renderer took it, and then belongs to the node that
/// renders for the primary GPU, which is also where buffers are brought early.
pub proof fn law_buffers_go_to_the_primary_renderer(
    tty: &Tty,
    result: ImportResult,
    node: Option<DrmNode>,
    early: DrmNode,
)
    requires
        call_ensures(Tty::dmabuf_imported, (tty, result), node),
        call_ensures(Tty::early_import, (tty,), early),
    ensures
        node is Some <==> result is Imported,
        node matches Some(n) ==> n == tty@.primary_render_node,
        early == tty@.primary_render_node,
{
}

/// The feedback of which nothing is known names the node that renders for the primary GPU and the
/// formats, and prefers nothing.
pub proof fn law_default_feedback_is_of_the_primary(
    tty: &Tty,
    formats: &FormatSet,
    feedback: DmabufFeedback,
)
    requires
        call_ensures(Tty::default_feedback, (tty, formats), feedback),
    ensures
        feedback.main_device == tty@.primary_render_node.dev_id,
        feedback.formats@ == formats@,
        feedback.tranches@.len() == 0,
{
    assert(feedback@.tranches.len() == 0);
}

} // verus!
