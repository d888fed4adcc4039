//! Textures: what is asked of the texture codec and what comes back.
//!
//! The codec itself is not part of this library: it takes the pixels of an
//! image, the number of channels, a colour space and a target format, and
//! returns the compressed bytes with the final width and height.

use std::sync::Arc;
use vstd::prelude::*;
use crate::scene::Scene;

verus! {

/// The colour space of the pixels of a texture.
#[derive(Clone, Copy, Debug, PartialEq, Eq, Structural)]
pub enum ColorSpace {
    Linear,
    Srgb,
}

/// The compressed format of a texture.
#[derive(Clone, Copy, Debug, PartialEq, Eq, Structural)]
pub enum TextureFormat {
    Rgba8,
    Bc1Rgb,
    Bc7Rgba,
}

/// The pixel format of an image of the scene.
#[derive(Clone, Copy, Debug, PartialEq, Eq, Structural)]
pub enum ImageFormat {
    R8,
    R8G8,
    R8G8B8,
    R8G8B8A8,
    B8G8R8,
    B8G8R8A8,
    R16,
    R16G16,
    R16G16B16,
    R16G16B16A16,
}

/// The number of channels of a pixel format.
pub open spec fn spec_channel_count(format: ImageFormat) -> u8 {
    match format {
        ImageFormat::R8 | ImageFormat::R16 => 1,
        ImageFormat::R8G8 | ImageFormat::R16G16 => 2,
        ImageFormat::R8G8B8 | ImageFormat::B8G8R8 | ImageFormat::R16G16B16 => 3,
        ImageFormat::R8G8B8A8 | ImageFormat::B8G8R8A8 | ImageFormat::R16G16B16A16 => 4,
    }
}

#[verifier::when_used_as_spec(spec_channel_count)]
pub fn channel_count(format: ImageFormat) -> (count: u8)
    ensures
        count == spec_channel_count(format),
        1 <= count <= 4,
{
    match format {
        ImageFormat::R8 | ImageFormat::R16 => 1,
        ImageFormat::R8G8 | ImageFormat::R16G16 => 2,
        ImageFormat::R8G8B8 | ImageFormat::B8G8R8 | ImageFormat::R16G16B16 => 3,
        ImageFormat::R8G8B8A8 | ImageFormat::B8G8R8A8 | ImageFormat::R16G16B16A16 => 4,
    }
}

impl ColorSpace {
    /// The number that stands for the colour space in a texture table.
    pub open spec fn spec_code(&self) -> u32 {
        match self {
            ColorSpace::Linear => 0,
            ColorSpace::Srgb => 1,
        }
    }

    #[verifier::when_used_as_spec(spec_code)]
    pub fn code(&self) -> (c: u32)
        ensures
            c == self.spec_code(),
    {
        match self {
            ColorSpace::Linear => 0,
            ColorSpace::Srgb => 1,
        }
    }

    /// The colour space that a number stands for, if it stands for one.
    pub fn from_code(code: u32) -> (r: Option<ColorSpace>)
        ensures
            r matches Some(space) ==> space.spec_code() == code,
            r is None ==> code > 1,
    {
        if code == 0 {
            Some(ColorSpace::Linear)
        } else if code == 1 {
            Some(ColorSpace::Srgb)
        } else {
            None
        }
    }
}

impl TextureFormat {
    /// The number that stands for the format in a texture table.
    pub open spec fn spec_code(&self) -> u32 {
        match self {
            TextureFormat::Rgba8 => 0,
            TextureFormat::Bc1Rgb => 1,
            TextureFormat::Bc7Rgba => 2,
        }
    }

    #[verifier::when_used_as_spec(spec_code)]
    pub fn code(&self) -> (c: u32)
        ensures
            c == self.spec_code(),
    {
        match self {
            TextureFormat::Rgba8 => 0,
            TextureFormat::Bc1Rgb => 1,
            TextureFormat::Bc7Rgba => 2,
        }
    }

    /// The format that a number stands for, if it stands for one.
    pub fn from_code(code: u32) -> (r: Option<TextureFormat>)
        ensures
            r matches Some(format) ==> format.spec_code() == code,
            r is None ==> code > 2,
    {
        if code == 0 {
            Some(TextureFormat::Rgba8)
        } else if code == 1 {
            Some(TextureFormat::Bc1Rgb)
        } else if code == 2 {
            Some(TextureFormat::Bc7Rgba)
        } else {
            None
        }
    }
}

/// One texture that a material needs: an image of the scene, and how to
/// compress it.
#[derive(Clone, Copy, Debug, PartialEq, Eq, Structural)]
pub struct TextureRequest {
    pub texture_index: usize,
    pub color_space: ColorSpace,
    pub format: TextureFormat,
}

/// What a texture table says of a texture: its size, and its format and
/// colour space by their numbers.
#[derive(Clone, Copy, Debug, PartialEq, Eq, Structural)]
pub struct TextureData {
    pub width: u32,
    pub height: u32,
    pub format: u32,
    pub color_space: u32,
}

impl TextureData {
    pub fn new(width: u32, height: u32, format: TextureFormat, color_space: ColorSpace) -> (r: TextureData)
        ensures
            r == (TextureData {
                width,
                height,
                format: format.spec_code(),
                color_space: color_space.spec_code(),
            }),
    {
        TextureData { width, height, format: format.code(), color_space: color_space.code() }
    }
}

/// A compressed texture.
#[derive(Debug)]
pub struct CompiledTextureData {
    pub data: Vec<u8>,
    pub texture_info: TextureData,
}

/// The build step that compresses one texture.
pub struct TextureResource {
    pub scene: Arc<Scene>,
    pub request: TextureRequest,
}

impl TextureResource {
    pub fn new(scene: Arc<Scene>, request: TextureRequest) -> (r: TextureResource)
        ensures
            r.scene == scene,
            r.request == request,
    {
        TextureResource { scene, request }
    }

    /// The compiled texture for what the codec returned: the compressed
    /// bytes with the size that the codec reports and the format and colour
    /// space that were asked for.
    pub fn finish(&self, data: Vec<u8>, width: u32, height: u32) -> (r: CompiledTextureData)
        ensures
            r.data == data,
            r.texture_info == (TextureData {
                width,
                height,
                format: self.request.format.spec_code(),
                color_space: self.request.color_space.spec_code(),
            }),
    {
        CompiledTextureData {
            data,
            texture_info: TextureData::new(width, height, self.request.format, self.request.color_space),
        }
    }
}

} // verus!
