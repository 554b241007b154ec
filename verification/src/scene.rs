//! The scene catalog, the wrapping scene cursor, and scene rendering.

use vstd::prelude::*;

use crate::dimensions::Dimensions;
use crate::framebuffer::clear_buffer;
use crate::png::{
    decode_and_center_png, packed_frame_byte, png_dims, png_error_of, png_height, png_pixels,
    png_renders, PngError,
};

verus! {

/// Relies on `rand::random`: a value drawn from the thread-local generator.
/// Nothing can be promised about it.
pub assume_specification<T>[ rand::random::<T> ]() -> (r: T)
    where
        rand::distributions::Standard: rand::distributions::Distribution<T>,
;

/// One entry of the fixed scene catalog.
#[derive(Clone, Copy, Debug, PartialEq, Eq, Structural)]
pub enum Scene {
    /// The greeting and connectivity status, rasterized as centered text.
    Text,
    /// The first embedded image.
    Ferris,
    /// The second embedded image.
    Hexagons,
    /// The third embedded image.
    SpecklePng,
    /// Every byte drawn from the random generator.
    RandomNoise,
}

/// The ordered scene catalog and the wrapping cursor into it: the only
/// mutable per-session display state.
pub struct SceneCycle {
    pub scenes: Vec<Scene>,
    pub current_index: usize,
}

impl SceneCycle {
    /// The cursor always points inside the catalog.
    pub open spec fn wf(&self) -> bool {
        self.current_index < self.scenes.len()
    }

    /// A cycle over the given catalog, starting at its first scene.
    pub fn new(scenes: Vec<Scene>) -> (r: SceneCycle)
        requires
            scenes.len() >= 1,
        ensures
            r.wf(),
            r.scenes == scenes,
            r.current_index == 0,
    {
        SceneCycle { scenes, current_index: 0 }
    }

    /// The scene the cursor points at.
    pub fn current(&self) -> (r: Scene)
        requires
            self.wf(),
        ensures
            r == self.scenes[self.current_index as int],
    {
        self.scenes[self.current_index]
    }

    /// Moves the cursor to the next scene, wrapping from the last entry back
    /// to the first: the new index is the old one plus one, modulo the
    /// catalog length.
    pub fn advance(&mut self)
        requires
            old(self).wf(),
        ensures
            final(self).wf(),
            final(self).scenes == old(self).scenes,
            final(self).current_index == (old(self).current_index + 1) % (old(self).scenes.len() as int),
    {
        self.current_index = (self.current_index + 1) % self.scenes.len();
    }
}

/// Fills every byte of the buffer from the random generator. Nothing is
/// promised about the bytes themselves, only that the buffer keeps its
/// length.
pub fn draw_random_noise(buffer: &mut Vec<u8>)
    ensures
        final(buffer).len() == old(buffer).len(),
{
    let n = buffer.len();
    let mut i: usize = 0;
    while i < n
        invariant
            n == buffer.len(),
            i <= n,
        decreases n - i,
    {
        buffer[i] = rand::random::<u8>();
        i = i + 1;
    }
}

/// The embedded image streams the image scenes decode.
pub struct SceneAssets {
    pub ferris: Vec<u8>,
    pub hexagons: Vec<u8>,
    pub speckle: Vec<u8>,
}

impl SceneAssets {
    /// The PNG stream a scene renders, if it is an image scene.
    pub open spec fn stream_of(&self, scene: Scene) -> Option<Seq<u8>> {
        match scene {
            Scene::Ferris => Some(self.ferris@),
            Scene::Hexagons => Some(self.hexagons@),
            Scene::SpecklePng => Some(self.speckle@),
            _ => None,
        }
    }
}

/// What a successful render still needs from the caller.
#[derive(Clone, Copy, Debug, PartialEq, Eq, Structural)]
pub enum RenderOutcome {
    /// The buffer holds the scene; nothing is left to do but display it.
    Drawn,
    /// The buffer is cleared; the text rasterization capability must now
    /// draw the status message into it before it is displayed.
    TextNeeded,
}

/// Renders one scene into the framebuffer. Image scenes decode and center
/// their embedded PNG, leaving the buffer holding exactly the packed frame
/// the decoder produces, and fail exactly as the decoder does; the noise
/// scene always succeeds; the text scene clears the buffer and hands it back
/// for the opaque text rasterizer to fill.
pub fn render_scene(
    scene: &Scene,
    buffer: &mut Vec<u8>,
    screen: Dimensions,
    assets: &SceneAssets,
) -> (r: Result<RenderOutcome, PngError>)
    requires
        screen.width % 8 == 0,
        old(buffer).len() >= (screen.width as int * screen.height as int + 7) / 8,
        ((screen.width as int + 7) / 8 + 1) * screen.height as int <= usize::MAX,
    ensures
        final(buffer).len() == old(buffer).len(),
        ({
            match assets.stream_of(*scene) {
                Some(data) => {
                    &&& r == if png_renders(data, screen) {
                        Result::<RenderOutcome, PngError>::Ok(RenderOutcome::Drawn)
                    } else {
                        Result::<RenderOutcome, PngError>::Err(png_error_of(data, screen))
                    }
                    &&& png_renders(data, screen) ==> forall|i: int|
                        0 <= i < final(buffer).len() ==> final(buffer)@[i] == packed_frame_byte(
                            Seq::new(old(buffer).len() as nat, |j: int| 0u8),
                            png_pixels(data),
                            png_dims(data),
                            screen,
                            png_height(data) as int,
                            i,
                        )
                    &&& !png_renders(data, screen) ==> forall|i: int|
                        0 <= i < final(buffer).len() ==> final(buffer)@[i] == 0u8
                },
                None => r == Result::<RenderOutcome, PngError>::Ok(
                    if scene is Text {
                        RenderOutcome::TextNeeded
                    } else {
                        RenderOutcome::Drawn
                    },
                ),
            }
        }),
        scene is Text ==> forall|i: int|
            0 <= i < final(buffer).len() ==> final(buffer)@[i] == 0u8,
{
    match scene {
        Scene::Text => {
            clear_buffer(buffer);
            Ok(RenderOutcome::TextNeeded)
        },
        Scene::Ferris => {
            match decode_and_center_png(buffer, assets.ferris.as_slice(), screen) {
                Ok(()) => Ok(RenderOutcome::Drawn),
                Err(e) => Err(e),
            }
        },
        Scene::Hexagons => {
            match decode_and_center_png(buffer, assets.hexagons.as_slice(), screen) {
                Ok(()) => Ok(RenderOutcome::Drawn),
                Err(e) => Err(e),
            }
        },
        Scene::SpecklePng => {
            match decode_and_center_png(buffer, assets.speckle.as_slice(), screen) {
                Ok(()) => Ok(RenderOutcome::Drawn),
                Err(e) => Err(e),
            }
        },
        Scene::RandomNoise => {
            draw_random_noise(buffer);
            Ok(RenderOutcome::Drawn)
        },
    }
}

} // verus!
