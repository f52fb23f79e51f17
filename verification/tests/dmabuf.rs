//! The parts of importing a dma-buf that need no GPU.
//!
//! The import itself is a driver call and is checked at runtime instead; what
//! is left is the reasoning around it - which is also where a mistake is silent
//! rather than loud.

use way_small::dmabuf::{
    advertisable_format, describe_formats, fourcc, fourcc_name, has_extension, import_attributes,
    self_test_pattern, DmabufFormat, ImportRefusal, DRM_FORMAT_ARGB8888, DRM_FORMAT_MOD_INVALID,
    DRM_FORMAT_XRGB8888, EGL_DMA_BUF_PLANE0_FD_EXT, EGL_DMA_BUF_PLANE0_MODIFIER_HI_EXT,
    EGL_DMA_BUF_PLANE0_MODIFIER_LO_EXT, EGL_DMA_BUF_PLANE0_OFFSET_EXT,
    EGL_DMA_BUF_PLANE0_PITCH_EXT, EGL_HEIGHT, EGL_LINUX_DRM_FOURCC_EXT, EGL_NONE, EGL_WIDTH,
};
use way_small::objects::{DmabufImage, DmabufPlane};
use way_small::wire::Fd;

/// A linear layout, which any driver can sample.
const LINEAR: u64 = 0;
/// A tiled layout, standing in for anything a driver might name.
const TILED: u64 = 0x0100_0000_0000_0001;

#[test]
fn an_extension_is_matched_whole() {
    let extensions = "EGL_KHR_image_base EGL_EXT_image_dma_buf_import_modifiers EGL_EXT_buffer_age";

    assert!(has_extension(extensions, "EGL_KHR_image_base"));
    assert!(has_extension(
        extensions,
        "EGL_EXT_image_dma_buf_import_modifiers"
    ));
    // The base import extension is a different one with different entry
    // points, and a substring match would claim the driver has it.
    assert!(!has_extension(extensions, "EGL_EXT_image_dma_buf_import"));
    assert!(!has_extension(extensions, "EGL_KHR_image"));
    assert!(!has_extension("", "EGL_EXT_image_dma_buf_import"));
}

#[test]
fn fourccs_are_the_four_characters_they_are_named_for() {
    assert_eq!(fourcc_name(DRM_FORMAT_ARGB8888), "AR24");
    assert_eq!(fourcc_name(DRM_FORMAT_XRGB8888), "XR24");
    // Whatever a driver hands back, the log line stays readable.
    assert_eq!(fourcc_name(0), "????");
}

#[test]
fn a_driver_that_names_no_modifiers_leaves_the_format_importable() {
    // Nothing named means the implicit layout is all there is, and that
    // imports. Dropping the format here would refuse buffers that work.
    let format = advertisable_format(DRM_FORMAT_ARGB8888, &[]).expect("should be advertised");

    assert_eq!(format.fourcc, DRM_FORMAT_ARGB8888);
    assert!(
        format.modifiers.is_empty(),
        "an empty list is what says {DRM_FORMAT_MOD_INVALID:#x} is the only option"
    );
}

#[test]
fn modifiers_needing_an_external_sampler_are_not_offered() {
    let format = advertisable_format(DRM_FORMAT_XRGB8888, &[(LINEAR, false), (TILED, true)])
        .expect("should be advertised");

    // The tiled one could only be sampled through `samplerExternalOES`, which
    // this renderer has no program for, so a client must not be told to
    // allocate with it.
    assert_eq!(format.modifiers, [LINEAR]);
}

#[test]
fn a_format_no_modifier_of_which_can_be_sampled_is_dropped() {
    // Every YUV format Mesa reports looks like this. Offering one would have a
    // client allocate NV12 against our list and then find nothing drawn - and
    // by then it has no fallback left.
    assert!(advertisable_format(fourcc(*b"NV12"), &[(LINEAR, true), (TILED, true)]).is_none());
}

#[test]
fn naming_nothing_and_naming_nothing_usable_are_opposite_answers() {
    // The two look alike - both end with no usable modifier named - and mean
    // opposite things. Collapsing them is the mistake this whole rule exists to
    // avoid, in one direction or the other.
    let unnamed = advertisable_format(fourcc(*b"AR24"), &[]);
    let unusable = advertisable_format(fourcc(*b"NV12"), &[(TILED, true)]);

    assert!(unnamed.is_some_and(|f| f.modifiers.is_empty()));
    assert!(unusable.is_none());
}

fn image(planes: usize) -> DmabufImage {
    let mut described = Vec::new();
    for i in 0..planes {
        described.push(DmabufPlane {
            fd: Fd(7 + i as u32),
            offset: 16,
            stride: 32,
        });
    }
    DmabufImage {
        width: 8,
        height: 4,
        fourcc: DRM_FORMAT_XRGB8888,
        modifier: TILED,
        planes: described,
    }
}

#[test]
fn an_import_lists_what_the_driver_is_told() {
    assert_eq!(
        import_attributes(&image(1), true).unwrap(),
        vec![
            EGL_WIDTH,
            8,
            EGL_HEIGHT,
            4,
            EGL_LINUX_DRM_FOURCC_EXT,
            DRM_FORMAT_XRGB8888 as i32,
            EGL_DMA_BUF_PLANE0_FD_EXT,
            7,
            EGL_DMA_BUF_PLANE0_OFFSET_EXT,
            16,
            EGL_DMA_BUF_PLANE0_PITCH_EXT,
            32,
            EGL_DMA_BUF_PLANE0_MODIFIER_LO_EXT,
            1,
            EGL_DMA_BUF_PLANE0_MODIFIER_HI_EXT,
            0x0100_0000,
            EGL_NONE,
        ]
    );
}

#[test]
fn a_driver_that_names_no_layouts_is_told_none() {
    let attributes = import_attributes(&image(1), false).unwrap();
    assert!(!attributes.contains(&EGL_DMA_BUF_PLANE0_MODIFIER_LO_EXT));
    assert_eq!(attributes.len(), 13);
}

#[test]
fn only_an_image_of_one_plane_is_described() {
    assert_eq!(import_attributes(&image(0), true), Err(ImportRefusal::Planes(0)));
    assert_eq!(import_attributes(&image(2), true), Err(ImportRefusal::Planes(2)));
}

#[test]
fn an_image_of_no_area_is_not_described() {
    let mut flat = image(1);
    flat.height = 0;
    assert_eq!(
        import_attributes(&flat, true),
        Err(ImportRefusal::Empty { width: 8, height: 0 })
    );
}

#[test]
fn no_two_pixels_of_the_self_test_are_alike() {
    let pattern = self_test_pattern();
    assert_eq!(pattern.len(), 64);
    for i in 0..16 {
        for j in 0..i {
            assert_ne!(pattern[4 * i..4 * i + 4], pattern[4 * j..4 * j + 4]);
        }
    }
}

#[test]
fn formats_are_described_by_name() {
    let formats = [
        DmabufFormat { fourcc: DRM_FORMAT_ARGB8888, modifiers: vec![LINEAR, TILED] },
        DmabufFormat { fourcc: DRM_FORMAT_XRGB8888, modifiers: vec![] },
    ];
    assert_eq!(
        describe_formats(&formats),
        "AR24 (2 modifier(s)), XR24 (0 modifier(s))"
    );
}
