use drm::buffer::{DrmFourcc, DrmModifier};
use nuonuo::formats::{
    compressed, default_feedback, surface_dmabuf_feedback, surface_formats, FeedbackProbe, Format,
    FormatSet, SUPPORTED_COLOR_FORMATS,
};

fn format(code: u32, modifier: u64) -> Format {
    Format { code, modifier }
}

fn set(formats: Vec<Format>) -> FormatSet {
    FormatSet::from_formats(&formats)
}

#[test]
fn sets_keep_order_and_drop_repetition() {
    let s = set(vec![format(2, 0), format(1, 0), format(2, 0), format(2, 1), format(1, 0)]);
    assert_eq!(s.formats(), vec![format(2, 0), format(1, 0), format(2, 1)]);
    assert!(s.contains(format(2, 1)));
    assert!(!s.contains(format(1, 1)));
    assert_eq!(s.duplicate().formats(), s.formats());
}

#[test]
fn intersections_keep_the_order_of_the_first() {
    let a = set(vec![format(3, 0), format(1, 0), format(2, 0)]);
    let b = set(vec![format(1, 0), format(2, 0), format(3, 0), format(4, 0)]);
    assert_eq!(a.intersection(&b).formats(), a.formats());
    assert_eq!(b.intersection(&a).formats(), vec![format(1, 0), format(2, 0), format(3, 0)]);
}

#[test]
fn compressed_layouts() {
    let base = 0x0100_0000_0000_0000u64;
    for low in 0..16u64 {
        let expected = matches!(low, 4 | 5 | 6 | 7 | 8 | 10 | 11 | 12);
        assert_eq!(compressed(base + low), expected);
    }
    assert!(!compressed(4));
    assert!(compressed(u64::from(DrmModifier::I915_y_tiled_ccs)));
    assert!(compressed(u64::from(DrmModifier::I915_y_tiled_gen12_rc_ccs)));
    assert!(compressed(u64::from(DrmModifier::I915_y_tiled_gen12_mc_ccs)));
    assert!(!compressed(u64::from(DrmModifier::I915_y_tiled)));
    assert!(!compressed(u64::from(DrmModifier::Linear)));
}

#[test]
fn surfaces_are_not_rendered_to_compressed_formats() {
    let s = set(vec![
        format(1, 0),
        format(1, 0x0100_0000_0000_0004),
        format(2, 0x0100_0000_0000_000c),
        format(2, 0x0100_0000_0000_0001),
    ]);
    let kept = surface_formats(&s);
    assert_eq!(kept.formats(), vec![format(1, 0), format(2, 0x0100_0000_0000_0001)]);
    assert_eq!(surface_formats(&kept).formats(), kept.formats());
}

fn probe(primary: Option<FormatSet>, render: Option<FormatSet>) -> FeedbackProbe {
    FeedbackProbe {
        primary_formats: primary,
        render_formats: render,
        plane_formats: set(vec![format(9, 0), format(1, 0)]),
        overlay_formats: vec![
            set(vec![format(5, 0), format(1, 0)]),
            set(vec![format(2, 0), format(7, 0)]),
        ],
        scanout_device: 30,
    }
}

#[test]
fn feedback_of_a_surface() {
    let p = probe(
        Some(set(vec![format(1, 0), format(5, 0)])),
        Some(set(vec![format(2, 0), format(1, 0)])),
    );
    let feedback = surface_dmabuf_feedback(10, 20, &p).unwrap();

    let render = feedback.render_feedback;
    assert_eq!(render.main_device, 10);
    assert_eq!(render.formats.formats(), vec![format(1, 0), format(5, 0)]);
    assert_eq!(render.tranches.len(), 1);
    assert_eq!(render.tranches[0].target_device, 20);
    assert!(!render.tranches[0].scanout);
    assert_eq!(render.tranches[0].formats.formats(), vec![format(2, 0), format(1, 0)]);

    let scanout = feedback.scanout_feedback;
    assert_eq!(scanout.main_device, 10);
    assert_eq!(scanout.formats.formats(), vec![format(1, 0), format(5, 0)]);
    assert_eq!(scanout.tranches.len(), 2);
    assert_eq!(scanout.tranches[0].target_device, 30);
    assert!(scanout.tranches[0].scanout);
    assert_eq!(
        scanout.tranches[0].formats.formats(),
        vec![format(1, 0), format(5, 0), format(2, 0)]
    );
    assert_eq!(scanout.tranches[1].target_device, 20);
    assert!(!scanout.tranches[1].scanout);
    assert_eq!(scanout.tranches[1].formats.formats(), vec![format(2, 0), format(1, 0)]);
}

#[test]
fn scanout_formats_can_be_rendered_from() {
    let p = probe(Some(set(vec![format(5, 0)])), Some(set(vec![format(8, 0)])));
    let feedback = surface_dmabuf_feedback(1, 2, &p).unwrap();
    assert_eq!(feedback.scanout_feedback.tranches[0].formats.formats(), vec![format(5, 0)]);
}

#[test]
fn no_feedback_without_both_renderers() {
    assert!(surface_dmabuf_feedback(1, 2, &probe(None, Some(set(vec![])))).is_none());
    assert!(surface_dmabuf_feedback(1, 2, &probe(Some(set(vec![])), None)).is_none());
    assert!(surface_dmabuf_feedback(1, 2, &probe(None, None)).is_none());
    assert!(surface_dmabuf_feedback(1, 2, &probe(Some(set(vec![])), Some(set(vec![])))).is_some());
}

#[test]
fn default_feedback_has_no_tranches() {
    let feedback = default_feedback(7, &set(vec![format(1, 2)]));
    assert_eq!(feedback.main_device, 7);
    assert_eq!(feedback.formats.formats(), vec![format(1, 2)]);
    assert!(feedback.tranches.is_empty());
}

#[test]
fn colour_formats_are_the_ten_and_eight_bit_ones() {
    let expected = [
        DrmFourcc::Abgr2101010 as u32,
        DrmFourcc::Argb2101010 as u32,
        DrmFourcc::Abgr8888 as u32,
        DrmFourcc::Argb8888 as u32,
    ];
    assert_eq!(SUPPORTED_COLOR_FORMATS, expected);
}
