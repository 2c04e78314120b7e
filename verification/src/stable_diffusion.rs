//! The Stable Diffusion model versions and where their weight files are
//! found.

use vstd::prelude::*;

verus! {

/// A Stable Diffusion model version.
#[derive(Clone, Copy, Debug, PartialEq, Eq, Structural)]
pub enum StableDiffusionVersion {
    V1_5,
    V2_1,
    Xl,
    Turbo,
}

/// A file that image generation loads.
#[derive(Clone, Copy, Debug, PartialEq, Eq, Structural)]
pub enum ModelFile {
    Tokenizer,
    Tokenizer2,
    Clip,
    Clip2,
    Unet,
    Vae,
}

/// The Hugging Face repository of a version.
pub open spec fn version_repo(v: StableDiffusionVersion) -> Seq<char> {
    match v {
        StableDiffusionVersion::Xl => "stabilityai/stable-diffusion-xl-base-1.0"@,
        StableDiffusionVersion::V2_1 => "stabilityai/stable-diffusion-2-1"@,
        StableDiffusionVersion::V1_5 => "runwayml/stable-diffusion-v1-5"@,
        StableDiffusionVersion::Turbo => "stabilityai/sdxl-turbo"@,
    }
}

/// The weight file of a model part in a repository: the half-precision file
/// when `use_f16` is set, else the full-precision one.
pub open spec fn weights_path(part: ModelFile, use_f16: bool) -> Seq<char> {
    match part {
        ModelFile::Unet => if use_f16 {
            "unet/diffusion_pytorch_model.fp16.safetensors"@
        } else {
            "unet/diffusion_pytorch_model.safetensors"@
        },
        ModelFile::Vae => if use_f16 {
            "vae/diffusion_pytorch_model.fp16.safetensors"@
        } else {
            "vae/diffusion_pytorch_model.safetensors"@
        },
        ModelFile::Clip => if use_f16 {
            "text_encoder/model.fp16.safetensors"@
        } else {
            "text_encoder/model.safetensors"@
        },
        ModelFile::Clip2 => if use_f16 {
            "text_encoder_2/model.fp16.safetensors"@
        } else {
            "text_encoder_2/model.safetensors"@
        },
        _ => seq![],
    }
}

impl StableDiffusionVersion {
    /// The Hugging Face repository of this version.
    pub fn repo(&self) -> (r: &'static str)
        ensures
            r@ == version_repo(*self),
    {
        match self {
            StableDiffusionVersion::Xl => "stabilityai/stable-diffusion-xl-base-1.0",
            StableDiffusionVersion::V2_1 => "stabilityai/stable-diffusion-2-1",
            StableDiffusionVersion::V1_5 => "runwayml/stable-diffusion-v1-5",
            StableDiffusionVersion::Turbo => "stabilityai/sdxl-turbo",
        }
    }

    /// The UNet weights in the repository (the same for every version).
    pub fn unet_file(&self, use_f16: bool) -> (r: &'static str)
        ensures
            r@ == weights_path(ModelFile::Unet, use_f16),
    {
        if use_f16 {
            "unet/diffusion_pytorch_model.fp16.safetensors"
        } else {
            "unet/diffusion_pytorch_model.safetensors"
        }
    }

    /// The autoencoder weights in the repository (the same for every
    /// version).
    pub fn vae_file(&self, use_f16: bool) -> (r: &'static str)
        ensures
            r@ == weights_path(ModelFile::Vae, use_f16),
    {
        if use_f16 {
            "vae/diffusion_pytorch_model.fp16.safetensors"
        } else {
            "vae/diffusion_pytorch_model.safetensors"
        }
    }

    /// The first text encoder's weights in the repository (the same for
    /// every version).
    pub fn clip_file(&self, use_f16: bool) -> (r: &'static str)
        ensures
            r@ == weights_path(ModelFile::Clip, use_f16),
    {
        if use_f16 {
            "text_encoder/model.fp16.safetensors"
        } else {
            "text_encoder/model.safetensors"
        }
    }

    /// The second text encoder's weights in the repository (the same for
    /// every version).
    pub fn clip2_file(&self, use_f16: bool) -> (r: &'static str)
        ensures
            r@ == weights_path(ModelFile::Clip2, use_f16),
    {
        if use_f16 {
            "text_encoder_2/model.fp16.safetensors"
        } else {
            "text_encoder_2/model.safetensors"
        }
    }
}

/// The repository and path from which a model file is fetched when no local
/// file is given. Tokenizers come from the CLIP repositories (the base
/// patch32 one for v1.5 and v2.1, the large patch14 one for XL and Turbo,
/// and the LAION bigG one for the second tokenizer); the autoencoder of XL
/// and Turbo in half precision comes from the fp16-fix repository; the other
/// weights come from the version's repository.
pub open spec fn hub_source(part: ModelFile, version: StableDiffusionVersion, use_f16: bool) -> (
    Seq<char>,
    Seq<char>,
) {
    match part {
        ModelFile::Tokenizer => (
            match version {
                StableDiffusionVersion::V1_5 | StableDiffusionVersion::V2_1 => "openai/clip-vit-base-patch32"@,
                _ => "openai/clip-vit-large-patch14"@,
            },
            "tokenizer.json"@,
        ),
        ModelFile::Tokenizer2 => ("laion/CLIP-ViT-bigG-14-laion2B-39B-b160k"@, "tokenizer.json"@),
        ModelFile::Vae => if (version == StableDiffusionVersion::Xl || version
            == StableDiffusionVersion::Turbo) && use_f16 {
            ("madebyollin/sdxl-vae-fp16-fix"@, "diffusion_pytorch_model.safetensors"@)
        } else {
            (version_repo(version), weights_path(part, use_f16))
        },
        _ => (version_repo(version), weights_path(part, use_f16)),
    }
}

/// Where a model file comes from.
pub enum ModelSource {
    /// A file given by the user.
    Local(String),
    /// A file of a Hugging Face repository: the repository and the path in it.
    Hub(&'static str, &'static str),
}

impl ModelFile {
    /// The repository and path of this file (see `hub_source`).
    pub fn hub_file(&self, version: StableDiffusionVersion, use_f16: bool) -> (r: (
        &'static str,
        &'static str,
    ))
        ensures
            (r.0@, r.1@) == hub_source(*self, version, use_f16),
    {
        match self {
            ModelFile::Tokenizer => {
                let repo = match version {
                    StableDiffusionVersion::V1_5 | StableDiffusionVersion::V2_1 => {
                        "openai/clip-vit-base-patch32"
                    },
                    StableDiffusionVersion::Xl | StableDiffusionVersion::Turbo => {
                        "openai/clip-vit-large-patch14"
                    },
                };
                (repo, "tokenizer.json")
            },
            ModelFile::Tokenizer2 => ("laion/CLIP-ViT-bigG-14-laion2B-39B-b160k", "tokenizer.json"),
            ModelFile::Clip => (version.repo(), version.clip_file(use_f16)),
            ModelFile::Clip2 => (version.repo(), version.clip2_file(use_f16)),
            ModelFile::Unet => (version.repo(), version.unet_file(use_f16)),
            ModelFile::Vae => {
                let xl_like = match version {
                    StableDiffusionVersion::Xl | StableDiffusionVersion::Turbo => true,
                    _ => false,
                };
                if xl_like && use_f16 {
                    ("madebyollin/sdxl-vae-fp16-fix", "diffusion_pytorch_model.safetensors")
                } else {
                    (version.repo(), version.vae_file(use_f16))
                }
            },
        }
    }

    /// Where to load this file from: the file the user named, if any, and
    /// otherwise the repository file of `hub_file`.
    pub fn source(&self, filename: Option<String>, version: StableDiffusionVersion, use_f16: bool) -> (r: ModelSource)
        ensures
            filename matches Some(f) ==> r == ModelSource::Local(f),
            filename is None ==> (r matches ModelSource::Hub(repo, path) && (repo@, path@)
                == hub_source(*self, version, use_f16)),
    {
        match filename {
            Some(f) => ModelSource::Local(f),
            None => {
                let (repo, path) = self.hub_file(version, use_f16);
                ModelSource::Hub(repo, path)
            },
        }
    }
}

/// The number of denoising steps: the one asked for, or else 30, and 1 for
/// Turbo.
pub open spec fn steps_for(version: StableDiffusionVersion, n_steps: Option<usize>) -> usize {
    match n_steps {
        Some(n) => n,
        None => if version == StableDiffusionVersion::Turbo {
            1
        } else {
            30
        },
    }
}

/// The number of denoising steps for a configuration (see `steps_for`).
pub fn denoising_steps(version: StableDiffusionVersion, n_steps: Option<usize>) -> (r: usize)
    ensures
        r == steps_for(version, n_steps),
{
    match n_steps {
        Some(n) => n,
        None => match version {
            StableDiffusionVersion::V1_5 | StableDiffusionVersion::V2_1 | StableDiffusionVersion::Xl => 30,
            StableDiffusionVersion::Turbo => 1,
        },
    }
}

/// The text encoders to run, as the `first` flag of each pass: XL and Turbo
/// run the first and the second encoder, the other versions the first only.
pub fn text_encoder_passes(version: StableDiffusionVersion) -> (r: Vec<bool>)
    ensures
        (version == StableDiffusionVersion::Xl || version == StableDiffusionVersion::Turbo) ==> r@
            == seq![true, false],
        !(version == StableDiffusionVersion::Xl || version == StableDiffusionVersion::Turbo) ==> r@
            == seq![true],
{
    match version {
        StableDiffusionVersion::Xl | StableDiffusionVersion::Turbo => {
            let v = vec![true, false];
            assert(v@ =~= seq![true, false]);
            v
        },
        _ => {
            let v = vec![true];
            assert(v@ =~= seq![true]);
            v
        },
    }
}

/// The size an input image is cut to before encoding: height and width each
/// rounded down to a multiple of 32.
pub fn preprocess_dims(height: usize, width: usize) -> (r: (usize, usize))
    ensures
        r.0 == height - height % 32,
        r.1 == width - width % 32,
        r.0 % 32 == 0 && r.1 % 32 == 0,
        r.0 <= height && height < r.0 + 32,
        r.1 <= width && width < r.1 + 32,
{
    (height - height % 32, width - width % 32)
}

/// The tokenizer and the text-encoder weights of a text-encoder pass: the
/// first ones for the first pass and the second ones otherwise.
pub fn encoder_files(first: bool) -> (r: (ModelFile, ModelFile))
    ensures
        first ==> r == (ModelFile::Tokenizer, ModelFile::Clip),
        !first ==> r == (ModelFile::Tokenizer2, ModelFile::Clip2),
{
    if first {
        (ModelFile::Tokenizer, ModelFile::Clip)
    } else {
        (ModelFile::Tokenizer2, ModelFile::Clip2)
    }
}

/// The token that pads a prompt: the one the text encoder is configured
/// with, or else "<|endoftext|>".
pub fn pad_token(pad_with: Option<String>) -> (r: String)
    ensures
        pad_with matches Some(p) ==> r@ == p@,
        pad_with is None ==> r@ == "<|endoftext|>"@,
{
    match pad_with {
        Some(p) => p,
        None => crate::text::string_of(crate::text::chars_of("<|endoftext|>").as_slice()),
    }
}

/// The token ids of a prompt padded with `pad_id` up to `max_len` ids; a
/// prompt with that many ids or more is left as it is.
pub open spec fn padded(tokens: Seq<u32>, pad_id: u32, max_len: nat) -> Seq<u32> {
    if tokens.len() < max_len {
        tokens + Seq::new((max_len - tokens.len()) as nat, |i: int| pad_id)
    } else {
        tokens
    }
}

/// Pads the token ids of a prompt (see `padded`).
pub fn pad_tokens(tokens: Vec<u32>, pad_id: u32, max_len: usize) -> (r: Vec<u32>)
    ensures
        r@ == padded(tokens@, pad_id, max_len as nat),
{
    let mut out = tokens;
    let ghost start = out@;
    while out.len() < max_len
        invariant
            start.len() <= out@.len() <= if start.len() < max_len {
                max_len as nat
            } else {
                start.len()
            },
            out@.subrange(0, start.len() as int) == start,
            forall|i: int| start.len() <= i < out@.len() ==> out@[i] == pad_id,
        decreases max_len - out.len(),
    {
        out.push(pad_id);
    }
    assert(out@ =~= padded(start, pad_id, max_len as nat));
    out
}

} // verus!
