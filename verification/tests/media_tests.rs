use rsllm::candle_mistral::{
    after_retry, context_start, mistral_model_id, repeat_penalty_start, repeat_window, weight_source, RetryAction,
    RetryOutcome, WeightSource,
};
use rsllm::images::{place_on_frame, RgbImage};
use rsllm::mimic3_tts::mimic3_request_url;
use rsllm::ndi::{audio_format_supported, subtitle_start_row};
use rsllm::numfmt::{push_dec_digits, push_hex_digits, push_hex_padded};
use rsllm::openai_tts::{Request, ResponseFormat, Voice};
use rsllm::pipeline::{image_file_name, select_tts_backend, speech_sample_rate, subtitle_text, TtsBackend};
use rsllm::stable_diffusion::{
    denoising_steps, encoder_files, pad_token, pad_tokens, preprocess_dims, text_encoder_passes, ModelFile,
    ModelSource, StableDiffusionVersion,
};
use rsllm::text::{contains_exec, join_chars, replace_chars, split_whitespace};
use rsllm::{convert_rgb_to_rgba, current_unix_timestamp_ms, long_string_text, scale_image, StatsType};

#[test]
fn sd_repositories() {
    assert_eq!(StableDiffusionVersion::Xl.repo(), "stabilityai/stable-diffusion-xl-base-1.0");
    assert_eq!(StableDiffusionVersion::V2_1.repo(), "stabilityai/stable-diffusion-2-1");
    assert_eq!(StableDiffusionVersion::V1_5.repo(), "runwayml/stable-diffusion-v1-5");
    assert_eq!(StableDiffusionVersion::Turbo.repo(), "stabilityai/sdxl-turbo");
}

#[test]
fn sd_weight_files() {
    let v = StableDiffusionVersion::Turbo;
    assert_eq!(v.unet_file(true), "unet/diffusion_pytorch_model.fp16.safetensors");
    assert_eq!(v.unet_file(false), "unet/diffusion_pytorch_model.safetensors");
    assert_eq!(v.vae_file(true), "vae/diffusion_pytorch_model.fp16.safetensors");
    assert_eq!(v.vae_file(false), "vae/diffusion_pytorch_model.safetensors");
    assert_eq!(v.clip_file(true), "text_encoder/model.fp16.safetensors");
    assert_eq!(v.clip_file(false), "text_encoder/model.safetensors");
    assert_eq!(v.clip2_file(true), "text_encoder_2/model.fp16.safetensors");
    assert_eq!(v.clip2_file(false), "text_encoder_2/model.safetensors");
}

#[test]
fn sd_hub_files() {
    assert_eq!(ModelFile::Tokenizer.hub_file(StableDiffusionVersion::V1_5, false), ("openai/clip-vit-base-patch32", "tokenizer.json"));
    assert_eq!(ModelFile::Tokenizer.hub_file(StableDiffusionVersion::Xl, false), ("openai/clip-vit-large-patch14", "tokenizer.json"));
    assert_eq!(
        ModelFile::Tokenizer2.hub_file(StableDiffusionVersion::Turbo, true),
        ("laion/CLIP-ViT-bigG-14-laion2B-39B-b160k", "tokenizer.json")
    );
    assert_eq!(
        ModelFile::Vae.hub_file(StableDiffusionVersion::Turbo, true),
        ("madebyollin/sdxl-vae-fp16-fix", "diffusion_pytorch_model.safetensors")
    );
    assert_eq!(
        ModelFile::Vae.hub_file(StableDiffusionVersion::V2_1, true),
        ("stabilityai/stable-diffusion-2-1", "vae/diffusion_pytorch_model.fp16.safetensors")
    );
    assert_eq!(
        ModelFile::Unet.hub_file(StableDiffusionVersion::Xl, false),
        ("stabilityai/stable-diffusion-xl-base-1.0", "unet/diffusion_pytorch_model.safetensors")
    );
    assert_eq!(ModelFile::Clip2.hub_file(StableDiffusionVersion::Xl, true).1, "text_encoder_2/model.fp16.safetensors");
}

#[test]
fn sd_source_prefers_local_file() {
    match ModelFile::Unet.source(Some("my.safetensors".to_string()), StableDiffusionVersion::Xl, true) {
        ModelSource::Local(f) => assert_eq!(f, "my.safetensors"),
        ModelSource::Hub(..) => panic!("expected the local file"),
    }
    match ModelFile::Clip.source(None, StableDiffusionVersion::V1_5, false) {
        ModelSource::Hub(repo, path) => {
            assert_eq!(repo, "runwayml/stable-diffusion-v1-5");
            assert_eq!(path, "text_encoder/model.safetensors");
        }
        ModelSource::Local(_) => panic!("expected the hub file"),
    }
}

#[test]
fn sd_steps_and_encoders() {
    assert_eq!(denoising_steps(StableDiffusionVersion::Turbo, None), 1);
    assert_eq!(denoising_steps(StableDiffusionVersion::Xl, None), 30);
    assert_eq!(denoising_steps(StableDiffusionVersion::Turbo, Some(4)), 4);
    assert_eq!(text_encoder_passes(StableDiffusionVersion::Xl), vec![true, false]);
    assert_eq!(text_encoder_passes(StableDiffusionVersion::Turbo), vec![true, false]);
    assert_eq!(text_encoder_passes(StableDiffusionVersion::V1_5), vec![true]);
}

#[test]
fn sd_input_size_rounds_down_to_32() {
    assert_eq!(preprocess_dims(512, 512), (512, 512));
    assert_eq!(preprocess_dims(600, 31), (576, 0));
    assert_eq!(preprocess_dims(1080, 1920), (1056, 1920));
}

#[test]
fn tts_backend_choice() {
    assert_eq!(select_tts_backend(false, false, false, false), None);
    assert_eq!(select_tts_backend(true, true, true, true), Some(TtsBackend::OpenAi));
    assert_eq!(select_tts_backend(true, false, false, true), Some(TtsBackend::Mimic3));
    assert_eq!(select_tts_backend(false, false, true, false), Some(TtsBackend::Mimic3));
    assert_eq!(select_tts_backend(false, false, false, true), Some(TtsBackend::MetaVoice));
}

#[test]
fn pipeline_names_and_rates() {
    assert_eq!(image_file_name("abc-123", 4, 0), "images/abc-123_4_0_.png");
    assert_eq!(image_file_name("", 10, 25), "images/_10_25_.png");
    assert_eq!(subtitle_text(true, "Hello".to_string()), "Hello");
    assert_eq!(subtitle_text(false, "Hello".to_string()), "");
    assert_eq!(speech_sample_rate(true), 22050);
    assert_eq!(speech_sample_rate(false), 24000);
}

#[test]
fn subtitle_rows() {
    assert_eq!(subtitle_start_row(1080, "top"), (10, true));
    assert_eq!(subtitle_start_row(1080, "mid-top"), (810, true));
    assert_eq!(subtitle_start_row(1080, "center"), (540, true));
    assert_eq!(subtitle_start_row(1080, "middle"), (540, true));
    assert_eq!(subtitle_start_row(1080, "low-center"), (720, true));
    assert_eq!(subtitle_start_row(1080, "mid-bottom"), (810, true));
    assert_eq!(subtitle_start_row(1080, "bottom"), (864, true));
    assert_eq!(subtitle_start_row(1080, "sideways"), (720, false));
    assert_eq!(subtitle_start_row(3_000_000_000, "center"), (-647483648, true));
}

#[test]
fn audio_formats() {
    assert!(audio_format_supported(24000, 1));
    assert!(audio_format_supported(8000, 16));
    assert!(audio_format_supported(192000, 2));
    assert!(!audio_format_supported(7999, 1));
    assert!(!audio_format_supported(192001, 1));
    assert!(!audio_format_supported(44100, 0));
    assert!(!audio_format_supported(44100, 17));
}

#[test]
fn mistral_models() {
    assert_eq!(mistral_model_id(None, false), "mistralai/Mistral-7B-Instruct-v0.2");
    assert_eq!(mistral_model_id(None, true), "lmz/candle-mistral");
    assert_eq!(mistral_model_id(Some("auto".to_string()), true), "lmz/candle-mistral");
    assert_eq!(mistral_model_id(Some(String::new()), false), "mistralai/Mistral-7B-Instruct-v0.2");
    assert_eq!(mistral_model_id(Some("7B-IT".to_string()), true), "mistralai/Mistral-7B-Instruct-v0.2");
    assert_eq!(mistral_model_id(Some("7b".to_string()), false), "mistralai/Mistral-7B-v0.1");
    assert_eq!(mistral_model_id(Some("me/My-Model".to_string()), false), "me/My-Model");
}

#[test]
fn mistral_token_windows() {
    assert_eq!(repeat_window(100, "abc"), 28);
    assert_eq!(repeat_window(10, "é"), 4);
    assert_eq!(context_start(7, 0), 0);
    assert_eq!(context_start(7, 3), 6);
    assert_eq!(context_start(0, 3), 0);
    assert_eq!(repeat_penalty_start(100, 64), 36);
    assert_eq!(repeat_penalty_start(10, 64), 0);
}

#[test]
fn mistral_retries() {
    assert_eq!(after_retry(1, 3, RetryOutcome::NonZero), RetryAction::Proceed);
    assert_eq!(after_retry(1, 3, RetryOutcome::AllZero), RetryAction::TryAgain);
    assert_eq!(after_retry(3, 3, RetryOutcome::AllZero), RetryAction::GiveUpZero);
    assert_eq!(after_retry(2, 3, RetryOutcome::ForwardFailed), RetryAction::TryAgain);
    assert_eq!(after_retry(3, 3, RetryOutcome::ForwardFailed), RetryAction::GiveUpFailed);
    assert_eq!(after_retry(1, 3, RetryOutcome::ReadFailed), RetryAction::GiveUpRead);
}

#[test]
fn mimic3_url_defaults() {
    let url = mimic3_request_url("Hello world!", "en_US/vctk_low#p326", "0.333", "0.333", "1", None, None);
    assert_eq!(
        url,
        "http://localhost:59125/api/tts?text=Hello%20world%21&voice=en_US%2Fvctk_low%23p326&noiseScale=0.333&noiseW=0.333&lengthScale=1&ssml=false&audioTarget=client"
    );
}

#[test]
fn mimic3_url_options_and_unicode() {
    let url = mimic3_request_url("café-au_lait.~", "v", "0.5", "0.6", "1.5", Some(true), Some("file out".to_string()));
    assert_eq!(
        url,
        "http://localhost:59125/api/tts?text=caf%C3%A9-au_lait.~&voice=v&noiseScale=0.5&noiseW=0.6&lengthScale=1.5&ssml=true&audioTarget=file%20out"
    );
    let plain = mimic3_request_url("x", "v", "1", "1", "1", Some(false), None);
    assert!(plain.ends_with("&ssml=false&audioTarget=client"));
}

#[test]
fn openai_tts_requests() {
    let r = Request::new("tts-1".to_string(), "Hi there! :)".to_string(), Voice::Nova);
    assert_eq!(r.response_format, ResponseFormat::Mp3);
    let r = r.with_response_format(ResponseFormat::Opus);
    assert_eq!(r.response_format, ResponseFormat::Opus);
    assert_eq!(r.model, "tts-1");
    let r = r.speakable();
    assert_eq!(r.input, "Hi there ");
    assert_eq!(r.voice, Voice::Nova);
    assert_eq!(Voice::Nova.as_str(), "nova");
    assert_eq!(Voice::Shimmer.as_str(), "shimmer");
    assert_eq!(ResponseFormat::Flac.as_str(), "flac");
}

#[test]
fn rgb_to_rgba() {
    let img = RgbImage { width: 2, height: 1, data: vec![1, 2, 3, 4, 5, 6] };
    assert_eq!(convert_rgb_to_rgba(&img), vec![1, 2, 3, 255, 4, 5, 6, 255]);
    let empty = RgbImage { width: 0, height: 5, data: Vec::new() };
    assert!(convert_rgb_to_rgba(&empty).is_empty());
}

fn two_by_two() -> RgbImage {
    RgbImage { width: 2, height: 2, data: (1..=12).collect() }
}

#[test]
fn placing_on_a_black_frame() {
    let framed = place_on_frame(&two_by_two(), 4, 2, None);
    assert_eq!(framed.width, 4);
    assert_eq!(framed.height, 2);
    assert_eq!(
        framed.data,
        vec![0, 0, 0, 1, 2, 3, 4, 5, 6, 0, 0, 0, 0, 0, 0, 7, 8, 9, 10, 11, 12, 0, 0, 0]
    );
    let left = place_on_frame(&two_by_two(), 3, 3, Some("left".to_string()));
    assert_eq!(&left.data[0..6], &[1, 2, 3, 4, 5, 6]);
    assert_eq!(&left.data[21..27], &[0; 6]);
    let right = place_on_frame(&two_by_two(), 3, 2, Some("right".to_string()));
    assert_eq!(right.data, vec![0, 0, 0, 1, 2, 3, 4, 5, 6, 0, 0, 0, 7, 8, 9, 10, 11, 12]);
}

#[test]
fn scaling_keeps_picture_without_frame_size() {
    let img = two_by_two();
    let same = scale_image(two_by_two(), None, Some(4), None, (0, 0));
    assert_eq!(same.data, img.data);
    let zero = scale_image(two_by_two(), Some(0), Some(4), None, (0, 0));
    assert_eq!((zero.width, zero.height), (2, 2));
}

#[test]
fn scaling_at_same_size_places_the_picture() {
    let framed = scale_image(two_by_two(), Some(4), Some(2), None, (2, 2));
    assert_eq!(
        framed.data,
        vec![0, 0, 0, 1, 2, 3, 4, 5, 6, 0, 0, 0, 0, 0, 0, 7, 8, 9, 10, 11, 12, 0, 0, 0]
    );
}

#[test]
fn scaling_down_resizes() {
    let img = RgbImage { width: 4, height: 4, data: vec![200; 48] };
    let r = scale_image(img, Some(2), Some(4), None, (2, 2));
    assert_eq!((r.width, r.height), (2, 4));
    assert_eq!(r.data.len(), 24);
    assert_eq!(&r.data[0..6], &[0; 6]);
    assert_ne!(&r.data[6..18], &[0; 12]);
}

#[test]
fn scaling_an_empty_picture_gives_a_black_frame() {
    let tall = RgbImage { width: 0, height: 5, data: vec![] };
    let r = scale_image(tall, Some(4), Some(3), None, (0, 3));
    assert_eq!((r.width, r.height), (4, 3));
    assert_eq!(r.data, vec![0; 36]);
    let wide = RgbImage { width: 5, height: 0, data: vec![] };
    let r = scale_image(wide, Some(4), Some(3), Some("left".to_string()), (4, 0));
    assert_eq!((r.width, r.height), (4, 3));
    assert_eq!(r.data, vec![0; 36]);
}

#[test]
fn long_strings_break_on_full_lines() {
    assert_eq!(long_string_text("Hello, world. Next", 80), ("Hello, world.\n Next".to_string(), 0));
    assert_eq!(long_string_text("abc", 10), ("abc".to_string(), 10));
    assert_eq!(long_string_text("no delimiters here", 85), ("no \ndelimiters here".to_string(), 0));
    assert_eq!(long_string_text("end.", 80), ("end.\n".to_string(), 0));
    assert_eq!(long_string_text("word", 90), ("word".to_string(), 90));
    assert_eq!(long_string_text("a\nb", 80), ("a\n\nb".to_string(), 0));
}

#[test]
fn clock_is_after_2020() {
    let now = current_unix_timestamp_ms().expect("clock before the epoch");
    assert!(now > 1_577_836_800_000);
}

#[test]
fn stats_type() {
    assert_eq!(StatsType::System, StatsType::System);
}

#[test]
fn number_formatting() {
    let mut out = Vec::new();
    push_dec_digits(&mut out, 0);
    out.push(' ');
    push_dec_digits(&mut out, 12345);
    out.push(' ');
    push_hex_digits(&mut out, 0xbeef, true);
    out.push(' ');
    push_hex_padded(&mut out, 0xab, 4, false);
    out.push(' ');
    push_hex_padded(&mut out, 0x12345, 4, true);
    assert_eq!(out.iter().collect::<String>(), "0 12345 BEEF 00ab 12345");
}

#[test]
fn text_helpers() {
    let s: Vec<char> = "  one two\tthree ".chars().collect();
    let words = split_whitespace(&s);
    assert_eq!(words.len(), 3);
    let joined = join_chars(&words, &['-']);
    assert_eq!(joined.iter().collect::<String>(), "one-two-three");
    let r = replace_chars(&joined, &['-'], &[',', ' ']);
    assert_eq!(r.iter().collect::<String>(), "one, two, three");
    assert!(contains_exec(&r, &['t', 'w']));
    assert!(!contains_exec(&r, &['x']));
    assert!(contains_exec(&r, &[]));
}

#[test]
fn sd_prompt_tokens() {
    assert_eq!(encoder_files(true), (ModelFile::Tokenizer, ModelFile::Clip));
    assert_eq!(encoder_files(false), (ModelFile::Tokenizer2, ModelFile::Clip2));
    assert_eq!(pad_token(None), "<|endoftext|>");
    assert_eq!(pad_token(Some("!".to_string())), "!");
    assert_eq!(pad_tokens(vec![49406, 320, 49407], 0, 6), vec![49406, 320, 49407, 0, 0, 0]);
    assert_eq!(pad_tokens(vec![1, 2, 3], 9, 2), vec![1, 2, 3]);
    assert_eq!(pad_tokens(Vec::new(), 7, 0), Vec::<u32>::new());
}

#[test]
fn mistral_weight_files() {
    match weight_source(Some("a.safetensors,b.safetensors".to_string()), true) {
        WeightSource::Local(files) => assert_eq!(files, vec!["a.safetensors".to_string(), "b.safetensors".to_string()]),
        _ => panic!("expected local files"),
    }
    assert!(matches!(weight_source(None, true), WeightSource::HubFile("model-q4k.gguf")));
    assert!(matches!(weight_source(None, false), WeightSource::HubIndex("model.safetensors.index.json")));
}
