//! The material extraction: the materials in use with the textures they ask
//! for.

use std::sync::Arc;
use vstd::prelude::*;
use crate::compiler::AsyncCompiler;
use crate::geometry_database::{Material, NO_TEXTURE};
use crate::resources::Resource;
use crate::scene::{MaterialSource, Scene};
use crate::texture::{ColorSpace, TextureFormat, TextureRequest};

verus! {

/// Why the materials could not be extracted.
#[derive(Clone, Copy, Debug, PartialEq, Eq, Structural)]
pub enum MaterialError {
    /// The materials ask for more textures than a 32-bit index can name.
    TooManyTextures,
}

/// The request for the base colour texture of a material. Colour data is
/// sRGB encoded in the scene.
pub open spec fn base_color_request(image: usize) -> TextureRequest {
    TextureRequest {
        texture_index: image,
        color_space: ColorSpace::Srgb,
        format: TextureFormat::Bc1Rgb,
    }
}

/// The request for the metallic-roughness texture of a material. These are
/// no colours, so they are linear.
pub open spec fn metallic_roughness_request(image: usize) -> TextureRequest {
    TextureRequest {
        texture_index: image,
        color_space: ColorSpace::Linear,
        format: TextureFormat::Bc1Rgb,
    }
}

/// The texture requests of one material: one for its base colour texture,
/// then one for its metallic-roughness texture, as far as it has them.
pub open spec fn requests_of(source: MaterialSource) -> Seq<TextureRequest> {
    let base = match source.base_color_texture {
        Some(image) => seq![base_color_request(image)],
        None => Seq::empty(),
    };
    let surface = match source.metallic_roughness_texture {
        Some(image) => seq![metallic_roughness_request(image)],
        None => Seq::empty(),
    };
    base + surface
}

/// The texture requests of the first `n` materials in use.
pub open spec fn texture_requests(sources: Seq<MaterialSource>, used: Seq<usize>, n: nat) -> Seq<
    TextureRequest,
>
    decreases n,
{
    if n == 0 || n > used.len() {
        Seq::empty()
    } else {
        texture_requests(sources, used, (n - 1) as nat) + requests_of(sources[used[n - 1] as int])
    }
}

/// The material record of a material whose textures are requested from
/// `first_request` on: its textures are named by the place of their request,
/// `NO_TEXTURE` where it has none.
pub open spec fn requested_material(source: MaterialSource, first_request: int) -> Material {
    Material {
        albedo_red: source.base_color_factor[0],
        albedo_green: source.base_color_factor[1],
        albedo_blue: source.base_color_factor[2],
        albedo_alpha: source.base_color_factor[3],
        metallic_factor: source.metallic_factor,
        roughness_factor: source.roughness_factor,
        albedo_color_texture_index: match source.base_color_texture {
            Some(_) => first_request as u32,
            None => NO_TEXTURE,
        },
        metallic_roughness_texture_index: match source.metallic_roughness_texture {
            Some(_) => match source.base_color_texture {
                Some(_) => (first_request + 1) as u32,
                None => first_request as u32,
            },
            None => NO_TEXTURE,
        },
    }
}

/// The texture requests only grow as more materials are counted.
pub proof fn lemma_requests_monotonic(sources: Seq<MaterialSource>, used: Seq<usize>, a: nat, b: nat)
    requires
        a <= b <= used.len(),
    ensures
        texture_requests(sources, used, a).len() <= texture_requests(sources, used, b).len(),
    decreases b - a,
{
    if a < b {
        lemma_requests_monotonic(sources, used, a, (b - 1) as nat);
    }
}

/// The first request for the image `image` from place `from` of the list on.
pub open spec fn request_from(requests: Seq<TextureRequest>, image: usize, from: int) -> Option<
    TextureRequest,
>
    decreases requests.len() - from,
{
    if from < 0 || from >= requests.len() {
        None
    } else if requests[from].texture_index == image {
        Some(requests[from])
    } else {
        request_from(requests, image, from + 1)
    }
}

/// The request by which an image is compressed: the first that is made for
/// it.
pub open spec fn request_for(requests: Seq<TextureRequest>, image: usize) -> Option<TextureRequest> {
    request_from(requests, image, 0)
}

/// Finds the request by which an image is compressed.
pub fn find_request(requests: &Vec<TextureRequest>, image: usize) -> (r: Option<TextureRequest>)
    ensures
        r == request_for(requests@, image),
{
    let mut i: usize = 0;
    while i < requests.len()
        invariant
            i <= requests@.len(),
            request_for(requests@, image) == request_from(requests@, image, i as int),
        decreases requests@.len() - i,
    {
        if requests[i].texture_index == image {
            return Some(requests[i]);
        }
        i = i + 1;
    }
    None
}

/// The requests by which the given images are compressed, in the order of the
/// images. There are none if some image has no request.
pub fn requests_for_images(requests: &Vec<TextureRequest>, images: &Vec<usize>) -> (r: Option<
    Vec<TextureRequest>,
>)
    ensures
        r is Some <==> forall|i: int|
            0 <= i < images@.len() ==> request_for(requests@, #[trigger] images@[i]) is Some,
        r matches Some(chosen) ==> {
            &&& chosen@.len() == images@.len()
            &&& forall|i: int|
                0 <= i < images@.len() ==> Some(#[trigger] chosen@[i]) == request_for(
                    requests@,
                    images@[i],
                )
        },
{
    let mut chosen: Vec<TextureRequest> = Vec::new();
    let mut i: usize = 0;
    while i < images.len()
        invariant
            i <= images@.len(),
            chosen@.len() == i,
            forall|j: int|
                0 <= j < i ==> Some(#[trigger] chosen@[j]) == request_for(requests@, images@[j]),
            forall|j: int| 0 <= j < i ==> request_for(requests@, #[trigger] images@[j]) is Some,
        decreases images@.len() - i,
    {
        match find_request(requests, images[i]) {
            Some(request) => chosen.push(request),
            None => {
                return None;
            },
        }
        i = i + 1;
    }
    Some(chosen)
}

/// A request that stands in the list from `from` on is found, or one before
/// it for the same image.
pub proof fn lemma_request_found(requests: Seq<TextureRequest>, image: usize, from: int, at: int)
    requires
        0 <= from <= at < requests.len(),
        requests[at].texture_index == image,
    ensures
        request_from(requests, image, from) matches Some(r) && r.texture_index == image,
    decreases at - from,
{
    if requests[from].texture_index != image {
        lemma_request_found(requests, image, from + 1, at);
    }
}

/// The requests of the first `n` materials are still there, at their places,
/// when more materials are counted.
pub proof fn lemma_requests_prefix(sources: Seq<MaterialSource>, used: Seq<usize>, a: nat, b: nat)
    requires
        a <= b <= used.len(),
    ensures
        texture_requests(sources, used, a).len() <= texture_requests(sources, used, b).len(),
        texture_requests(sources, used, b).take(texture_requests(sources, used, a).len() as int)
            == texture_requests(sources, used, a),
    decreases b - a,
{
    let short = texture_requests(sources, used, a);
    if a < b {
        lemma_requests_prefix(sources, used, a, (b - 1) as nat);
        let middle = texture_requests(sources, used, (b - 1) as nat);
        let long = texture_requests(sources, used, b);
        assert(long.take(short.len() as int) =~= middle.take(short.len() as int));
    } else {
        assert(short.take(short.len() as int) =~= short);
    }
}

/// Every image that a scene uses as a texture is asked for: the materials in
/// use make a request for it.
pub proof fn lemma_textures_are_requested(scene: &Scene, image: usize)
    requires
        scene.wf(),
        scene.textures@.contains(image),
    ensures
        request_for(
            texture_requests(scene.gltf.materials@, scene.materials@, scene.materials@.len()),
            image,
        ) matches Some(r) && r.texture_index == image,
{
    let sources = scene.gltf.materials@;
    let used = scene.materials@;
    let i = choose|i: int|
        0 <= i < used.len() && (sources[(#[trigger] used[i]) as int].base_color_texture == Some(image)
            || sources[used[i] as int].metallic_roughness_texture == Some(image));
    let before = texture_requests(sources, used, i as nat);
    let with = texture_requests(sources, used, (i + 1) as nat);
    let all = texture_requests(sources, used, used.len());
    let own = requests_of(sources[used[i] as int]);
    assert(with == before + own);
    lemma_requests_prefix(sources, used, (i + 1) as nat, used.len());
    let at = if sources[used[i] as int].base_color_texture == Some(image) {
        before.len() as int
    } else {
        before.len() + own.len() - 1
    };
    assert(with[at] == own[at - before.len()]);
    assert(all.take(with.len() as int)[at] == all[at]);
    lemma_request_found(all, image, 0, at);
}

/// The build step that extracts the materials of a scene.
pub struct MaterialDatabaseResource {
    pub scene: Arc<Scene>,
}

impl MaterialDatabaseResource {
    pub fn new(scene: Arc<Scene>) -> (r: MaterialDatabaseResource)
        ensures
            r.scene == scene,
    {
        MaterialDatabaseResource { scene }
    }

    /// All texture requests of the scene.
    pub open spec fn requests(&self) -> Seq<TextureRequest> {
        texture_requests(
            self.scene.gltf.materials@,
            self.scene.materials@,
            self.scene.materials@.len(),
        )
    }
}

impl Resource for MaterialDatabaseResource {
    type ReturnValue = Result<(Vec<TextureRequest>, Vec<Material>), MaterialError>;

    open spec fn is_ready(&self) -> bool {
        self.scene.wf()
    }

    /// There is a value exactly when every request can be named by a 32-bit
    /// index. It holds the texture requests of the materials in use, in
    /// order, and one material record for each material in use, whose
    /// textures are named by the place of their request.
    open spec fn yields(
        &self,
        value: &Result<(Vec<TextureRequest>, Vec<Material>), MaterialError>,
    ) -> bool {
        let sources = self.scene.gltf.materials@;
        let used = self.scene.materials@;
        &&& value is Ok <==> self.requests().len() <= NO_TEXTURE
        &&& value matches Ok(pair) ==> {
            &&& pair.0@ == self.requests()
            &&& pair.1@.len() == used.len()
            &&& forall|i: int|
                0 <= i < used.len() ==> #[trigger] pair.1@[i] == requested_material(
                    sources[used[i] as int],
                    texture_requests(sources, used, i as nat).len() as int,
                )
        }
    }

    fn compile(&self, compiler: Arc<AsyncCompiler>) -> (value: Result<
        (Vec<TextureRequest>, Vec<Material>),
        MaterialError,
    >) {
        let sources = &self.scene.gltf.materials;
        let used = &self.scene.materials;
        let mut materials: Vec<Material> = Vec::new();
        let mut texture_requests: Vec<TextureRequest> = Vec::new();
        let mut i: usize = 0;
        while i < used.len()
            invariant
                i <= used@.len(),
                self.scene.wf(),
                sources == &self.scene.gltf.materials,
                used == &self.scene.materials,
                texture_requests@ == crate::material_database::texture_requests(
                    sources@,
                    used@,
                    i as nat,
                ),
                texture_requests@.len() <= NO_TEXTURE,
                materials@.len() == i,
                forall|j: int|
                    0 <= j < i ==> #[trigger] materials@[j] == requested_material(
                        sources@[used@[j] as int],
                        crate::material_database::texture_requests(sources@, used@, j as nat).len() as int,
                    ),
            decreases used@.len() - i,
        {
            let source = &sources[used[i]];
            let ghost before = texture_requests@;
            let base_texture_index = match source.base_color_texture {
                Some(image) => {
                    texture_requests.push(
                        TextureRequest {
                            texture_index: image,
                            color_space: ColorSpace::Srgb,
                            format: TextureFormat::Bc1Rgb,
                        },
                    );
                    (texture_requests.len() - 1) as u32
                },
                None => NO_TEXTURE,
            };
            let metallic_roughness_texture_index = match source.metallic_roughness_texture {
                Some(image) => {
                    if texture_requests.len() >= NO_TEXTURE as usize {
                        proof {
                            assert(texture_requests@.push(metallic_roughness_request(image))
                                =~= before + requests_of(*source));
                            lemma_requests_monotonic(
                                sources@,
                                used@,
                                (i + 1) as nat,
                                used@.len(),
                            );
                        }
                        return Err(MaterialError::TooManyTextures);
                    }
                    texture_requests.push(
                        TextureRequest {
                            texture_index: image,
                            color_space: ColorSpace::Linear,
                            format: TextureFormat::Bc1Rgb,
                        },
                    );
                    (texture_requests.len() - 1) as u32
                },
                None => NO_TEXTURE,
            };
            proof {
                assert(texture_requests@ =~= before + requests_of(*source));
            }
            if texture_requests.len() > NO_TEXTURE as usize {
                proof {
                    lemma_requests_monotonic(sources@, used@, (i + 1) as nat, used@.len());
                }
                return Err(MaterialError::TooManyTextures);
            }
            materials.push(
                Material::new(
                    &source.base_color_factor,
                    source.metallic_factor,
                    source.roughness_factor,
                    base_texture_index,
                    metallic_roughness_texture_index,
                ),
            );
            i = i + 1;
        }
        Ok((texture_requests, materials))
    }
}

} // verus!
