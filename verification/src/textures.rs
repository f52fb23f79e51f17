//! What the renderer has on the GPU, and what it has to upload.
//!
//! One texture is kept per [`TextureId`], so a surface that has not been
//! redrawn costs no upload. Which textures those are in GL is the renderer's
//! business; what each of them holds is kept here.

use crate::pacer::scenes_view;
use crate::scene::CachedImage;
use crate::seqs;
use crate::shared::{
    copy_rects, Scene, SceneView, TextureId, TextureImage, TextureImageView, TextureRect,
    TextureSource, TextureSourceView, UploadPixels, UploadPixelsView,
};
use crate::table::{self, Key, Table};
use vstd::prelude::*;

verus! {

impl Key for TextureId {
    open spec fn rank(self) -> int {
        match self {
            TextureId::DefaultCursor => 0,
            TextureId::FallbackCursor => 1,
            TextureId::Buffer(client_id, buffer_id) => 2 + client_id * 0x1_0000_0000 + buffer_id,
        }
    }

    proof fn rank_names(a: Self, b: Self) {
    }

    fn before(&self, other: &Self) -> (r: bool) {
        match (self, other) {
            (TextureId::Buffer(a, b), TextureId::Buffer(c, d)) => *a < *c || (*a == *c && *b < *d),
            (TextureId::Buffer(_, _), _) => false,
            (_, TextureId::Buffer(_, _)) => true,
            (TextureId::DefaultCursor, TextureId::FallbackCursor) => true,
            _ => false,
        }
    }

    fn again(&self) -> (r: Self) {
        *self
    }
}

/// What of an image has to go to the GPU.
#[derive(Debug)]
pub enum UploadPlan {
    /// Nothing: the texture is as the image is.
    Current,
    /// These parts of it.
    Patch(Vec<TextureRect>),
    /// All of it, into a texture of its own.
    Whole,
    /// Nothing, but a texture has to be made that samples the image where it
    /// lies.
    Import,
}

/// What of an image has to go to the GPU, parts as a sequence.
#[verifier::ext_equal]
pub enum UploadPlanView {
    Current,
    Patch(Seq<TextureRect>),
    Whole,
    Import,
}

impl View for UploadPlan {
    type V = UploadPlanView;

    open spec fn view(&self) -> UploadPlanView {
        match *self {
            UploadPlan::Current => UploadPlanView::Current,
            UploadPlan::Patch(rects) => UploadPlanView::Patch(rects@),
            UploadPlan::Whole => UploadPlanView::Whole,
            UploadPlan::Import => UploadPlanView::Import,
        }
    }
}

/// A texture is what an image is a patch against.
pub open spec fn patches(cached: CachedImage, image: TextureImageView, previous: Option<u64>) -> bool {
    previous == Some(cached.serial) && cached.width == image.width && cached.height == image.height
}

/// What of an image has to go to the GPU, given what its texture holds.
pub open spec fn planned(cached: Option<CachedImage>, image: TextureImageView) -> UploadPlanView {
    if cached matches Some(c) && c.serial == image.serial {
        UploadPlanView::Current
    } else {
        match image.source {
            TextureSourceView::Upload { previous_serial, damage, .. } => {
                if cached matches Some(c) && patches(c, image, previous_serial) && damage.len()
                    > 0 {
                    UploadPlanView::Patch(damage)
                } else {
                    UploadPlanView::Whole
                }
            },
            TextureSourceView::Dmabuf(_) => UploadPlanView::Import,
        }
    }
}

/// What an image's texture holds once it has been uploaded.
pub open spec fn holding(image: TextureImageView) -> CachedImage {
    CachedImage { serial: image.serial, width: image.width, height: image.height }
}

/// Work out what of an image has to go to the GPU, given what its texture
/// holds.
///
/// A full upload happens when there is nothing to patch: no cached texture, one
/// at a different serial than this image was derived from, a change of
/// dimensions, or damage the compositor could not describe. Otherwise only the
/// damaged rectangles go up, which for a client redrawing a small part of a
/// large window is the difference between megabytes and kilobytes per frame.
pub fn plan_upload(cached: Option<CachedImage>, image: &TextureImage) -> (r: UploadPlan)
    ensures
        r@ == planned(cached, image@),
{
    if let Some(c) = cached {
        if c.serial == image.serial {
            return UploadPlan::Current;
        }
    }
    match &image.source {
        TextureSource::Upload { previous_serial, damage, .. } => {
            let patchable = match (cached, previous_serial) {
                (Some(c), Some(serial)) => *serial == c.serial && c.width == image.width && c.height
                    == image.height,
                _ => false,
            };
            if patchable && damage.len() > 0 {
                UploadPlan::Patch(copy_rects(damage))
            } else {
                UploadPlan::Whole
            }
        },
        TextureSource::Dmabuf(_) => UploadPlan::Import,
    }
}

/// How many pixels it is from one row of an image to the next.
pub open spec fn row_pixels(image: TextureImageView) -> int {
    match image.source {
        TextureSourceView::Upload { pixels: UploadPixelsView::Mapped { stride, .. }, .. } => (stride
            / 4) as int,
        _ => if image.width > 0 {
            image.width as int
        } else {
            0
        },
    }
}

/// How many pixels it is from one row of an image to the next.
pub fn row_length(image: &TextureImage) -> (r: u64)
    ensures
        r == row_pixels(image@),
{
    if let TextureSource::Upload { pixels: UploadPixels::Mapped { stride, .. }, .. } = &image.source {
        return *stride / 4;
    }
    if image.width > 0 {
        image.width as u64
    } else {
        0
    }
}

/// The bytes of a part of an image: from its first pixel through to the end of
/// its last row.
pub open spec fn span_of(rect: TextureRect, row: int) -> (int, int) {
    (
        (rect.y * row + rect.x) * 4,
        ((rect.height - 1) * row + rect.width) * 4,
    )
}

/// Where among the bytes of an image a part of it is, as where it begins and
/// how long it is. `None` if it is not wholly there.
///
/// The rows of a part are not contiguous, so the renderer is told the real
/// distance between rows and the bytes simply start at the part's first pixel.
pub fn region_span(rect: TextureRect, row: u64, total: u64) -> (r: Option<(u64, u64)>)
    ensures
        r is Some == (rect.x >= 0 && rect.y >= 0 && rect.width > 0 && rect.height > 0 && span_of(
            rect,
            row as int,
        ).0 + span_of(rect, row as int).1 <= total),
        r matches Some(span) ==> (span.0 as int, span.1 as int) == span_of(rect, row as int),
{
    if rect.x < 0 || rect.y < 0 || rect.width <= 0 || rect.height <= 0 {
        return None;
    }
    let (x, y, w, h): (u64, u64, u64, u64) = (
        rect.x as u64,
        rect.y as u64,
        rect.width as u64,
        rect.height as u64,
    );
    assert(0 <= y * row <= 0x7fff_ffff * u64::MAX && 0 <= (h - 1) * row <= 0x7fff_ffff * u64::MAX)
        by (nonlinear_arith)
        requires
            0 <= y <= 0x7fff_ffff,
            1 <= h <= 0x7fff_ffff,
            0 <= row <= u64::MAX,
    ;
    let start: u128 = (y as u128 * row as u128 + x as u128) * 4;
    let len: u128 = ((h - 1) as u128 * row as u128 + w as u128) * 4;
    if start + len > total as u128 {
        return None;
    }
    Some((start as u64, len as u64))
}

/// What each texture holds.
pub struct TextureCache {
    pub textures: Table<TextureId, CachedImage>,
}

impl View for TextureCache {
    type V = Map<TextureId, CachedImage>;

    open spec fn view(&self) -> Map<TextureId, CachedImage> {
        self.textures@
    }
}

/// A texture is drawn in a frame.
pub open spec fn drawn_in(frame: Seq<SceneView>, id: TextureId) -> bool {
    exists|i: int, j: int|
        0 <= i < frame.len() && 0 <= j < frame[i].elements.len() && (
        #[trigger] frame[i].elements[j]).texture.id == id
}

/// A texture that is not drawn in a frame.
pub open spec fn unused_in(frame: Seq<SceneView>) -> spec_fn(TextureId) -> bool {
    |id: TextureId| !drawn_in(frame, id)
}

/// The textures drawn in a frame.
pub open spec fn all_drawn(frame: Seq<SceneView>) -> Set<TextureId> {
    Set::new(|id: TextureId| drawn_in(frame, id))
}

/// Whether a texture is drawn in a frame.
fn is_drawn(frame: &Vec<Scene>, id: TextureId) -> (r: bool)
    ensures
        r == drawn_in(scenes_view(frame@), id),
{
    let ghost views = scenes_view(frame@);
    let mut i: usize = 0;
    while i < frame.len()
        invariant
            i <= frame@.len(),
            views == scenes_view(frame@),
            forall|a: int, b: int|
                0 <= a < i && 0 <= b < views[a].elements.len() ==> (
                #[trigger] views[a].elements[b]).texture.id != id,
        decreases frame@.len() - i,
    {
        let scene = &frame[i];
        assert(views[i as int] == scene@);
        let mut j: usize = 0;
        while j < scene.elements.len()
            invariant
                i < frame@.len(),
                j <= scene.elements@.len(),
                views == scenes_view(frame@),
                views[i as int] == scene@,
                forall|b: int|
                    0 <= b < j ==> (#[trigger] views[i as int].elements[b]).texture.id != id,
            decreases scene.elements@.len() - j,
        {
            assert(views[i as int].elements[j as int] == scene.elements@[j as int]@);
            if scene.elements[j].texture.id == id {
                assert(views[i as int].elements[j as int].texture.id == id);
                return true;
            }
            j = j + 1;
        }
        i = i + 1;
    }
    false
}

impl TextureCache {
    /// The cache is in order.
    pub open spec fn wf(&self) -> bool {
        self.textures.wf()
    }

    /// A cache with no texture in it.
    pub fn new() -> (r: Self)
        ensures
            r.wf(),
            r@ == Map::<TextureId, CachedImage>::empty(),
    {
        TextureCache { textures: Table::new() }
    }

    /// Work out what of an image has to go to the GPU.
    pub fn plan(&self, image: &TextureImage) -> (r: UploadPlan)
        requires
            self.wf(),
        ensures
            r@ == planned(
                if self@.contains_key(image.id) {
                    Some(self@[image.id])
                } else {
                    None
                },
                image@,
            ),
    {
        let cached: Option<CachedImage> = match self.textures.get(image.id) {
            Some(c) => Some(*c),
            None => None,
        };
        plan_upload(cached, image)
    }

    /// Note that an image's texture holds it.
    pub fn record(&mut self, image: &TextureImage)
        requires
            old(self).wf(),
        ensures
            final(self).wf(),
            final(self)@ == old(self)@.insert(image.id, holding(image@)),
    {
        self.textures.insert(
            image.id,
            CachedImage { serial: image.serial, width: image.width, height: image.height },
        );
    }

    /// Note that a texture is gone.
    pub fn forget(&mut self, id: TextureId)
        requires
            old(self).wf(),
        ensures
            final(self).wf(),
            final(self)@ == old(self)@.remove(id),
    {
        self.textures.remove(id);
    }

    /// Forget every texture that a frame does not draw. Gives those, for them
    /// to be deleted.
    ///
    /// Buffers and cursors are destroyed without the renderer hearing about it,
    /// so the cache is trimmed against what is actually still being drawn.
    ///
    /// Takes the whole frame rather than one scene: with more than one output
    /// the same texture can appear in one scene and not another, and evicting
    /// per scene would drop and re-upload it on every frame.
    pub fn drop_unused(&mut self, frame: &Vec<Scene>) -> (r: Vec<TextureId>)
        requires
            old(self).wf(),
        ensures
            final(self).wf(),
            final(self)@ == old(self)@.restrict(all_drawn(scenes_view(frame@))),
            r@ == table::ordered(old(self)@.dom()).filter(unused_in(scenes_view(frame@))),
    {
        let ghost views = scenes_view(frame@);
        let ghost before = self@;
        let ghost p = unused_in(views);
        let keys = self.textures.keys();
        let mut r: Vec<TextureId> = Vec::new();
        let mut i: usize = 0;
        proof {
            reveal(Seq::filter);
            assert(keys@.take(0) =~= Seq::empty());
        }
        while i < keys.len()
            invariant
                self.wf(),
                i <= keys@.len(),
                views == scenes_view(frame@),
                p == unused_in(views),
                table::lists(keys@, before.dom()),
                forall|id: TextureId| #[trigger]
                    self@.contains_key(id) ==> before.contains_key(id) && self@[id] == before[id],
                forall|id: TextureId| #[trigger]
                    before.contains_key(id) && drawn_in(views, id) ==> self@.contains_key(id),
                forall|j: int|
                    0 <= j < i && !drawn_in(views, #[trigger] keys@[j]) ==> !self@.contains_key(
                        keys@[j],
                    ),
                r@ == keys@.take(i as int).filter(p),
            decreases keys@.len() - i,
        {
            proof {
                seqs::lemma_filter_step(keys@, p, i as int);
            }
            let ghost was = self@;
            if !is_drawn(frame, keys[i]) {
                self.textures.remove(keys[i]);
                r.push(keys[i]);
                assert(self@ == was.remove(keys@[i as int]));
            }
            assert forall|id: TextureId| #[trigger] self@.contains_key(
                id,
            ) implies before.contains_key(id) && self@[id] == before[id] by {
                assert(was.contains_key(id));
            }
            i = i + 1;
        }
        proof {
            assert(keys@.take(i as int) =~= keys@);
            assert forall|id: TextureId| #[trigger] self@.contains_key(id) implies drawn_in(
                views,
                id,
            ) by {
                assert(keys@.contains(id));
                let j = choose|j: int| 0 <= j < keys@.len() && keys@[j] == id;
                assert(keys@[j] == id);
            }
            assert(self@ =~= before.restrict(all_drawn(views)));
        }
        r
    }
}

/// A texture that holds an image is left alone the next time the image is
/// drawn.
pub proof fn law_what_has_been_uploaded_is_not_again(image: TextureImageView)
    ensures
        planned(Some(holding(image)), image) == UploadPlanView::Current,
{
}

/// Only part of an image goes up only where the texture holds what the image is
/// a patch against, in the same shape, and it is known what changed.
pub proof fn law_only_a_known_copy_is_patched(
    cached: Option<CachedImage>,
    image: TextureImageView,
)
    ensures
        planned(cached, image) is Patch ==> {
            &&& cached matches Some(c) && c.width == image.width && c.height == image.height
            &&& image.source matches TextureSourceView::Upload { previous_serial, damage, .. }
                && previous_serial == Some(cached.unwrap().serial) && damage.len() > 0
        },
{
}

} // verus!
