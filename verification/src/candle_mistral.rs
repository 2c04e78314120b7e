//! The decisions of local text generation with Mistral: which model to
//! load, which tokens each step looks at, and how a step with all-zero
//! logits is retried.

use vstd::prelude::*;
use crate::speech_text::{str_to_lowercase, unicode_lower};
use crate::speech_text::{split_on, split_on_exec};
use crate::text::{chars_of, str_equal, string_of};
use vstd::string::StringSliceAdditionalSpecFns;

verus! {

/// The model repository for a requested model id: an empty or "auto" id (or
/// none) picks the quantized model when quantization is on and
/// Mistral-7B-Instruct-v0.2 otherwise; "7b-it" and "7b" (in any case) name
/// the instruct and base 7B models; any other id is used as it is.
pub open spec fn mistral_repo(model_id: Option<Seq<char>>, quantized: bool) -> Seq<char> {
    let default = if quantized {
        "lmz/candle-mistral"@
    } else {
        "mistralai/Mistral-7B-Instruct-v0.2"@
    };
    match model_id {
        Some(id) => if id.len() == 0 || id == "auto"@ {
            default
        } else if unicode_lower(id) == "7b-it"@ {
            "mistralai/Mistral-7B-Instruct-v0.2"@
        } else if unicode_lower(id) == "7b"@ {
            "mistralai/Mistral-7B-v0.1"@
        } else {
            id
        },
        None => default,
    }
}

/// The characters of an optional string.
pub open spec fn opt_chars(o: Option<String>) -> Option<Seq<char>> {
    match o {
        Some(s) => Some(s@),
        None => None,
    }
}

/// Resolves the model repository to load (see `mistral_repo`).
pub fn mistral_model_id(model_id: Option<String>, quantized: bool) -> (r: String)
    ensures
        r@ == mistral_repo(opt_chars(model_id), quantized),
{
    let default = if quantized {
        "lmz/candle-mistral"
    } else {
        "mistralai/Mistral-7B-Instruct-v0.2"
    };
    match model_id {
        Some(id) => {
            let c = chars_of(id.as_str());
            if c.len() == 0 || str_equal(id.as_str(), "auto") {
                string_of(chars_of(default).as_slice())
            } else {
                let lower = str_to_lowercase(id.as_str());
                if str_equal(lower.as_str(), "7b-it") {
                    string_of(chars_of("mistralai/Mistral-7B-Instruct-v0.2").as_slice())
                } else if str_equal(lower.as_str(), "7b") {
                    string_of(chars_of("mistralai/Mistral-7B-v0.1").as_slice())
                } else {
                    id
                }
            }
        },
        None => string_of(chars_of(default).as_slice()),
    }
}

/// How many of the last tokens the repeat penalty looks at: a quarter of the
/// sample length plus the prompt's length in bytes.
pub fn repeat_window(sample_len: usize, prompt: &str) -> (r: usize)
    requires
        sample_len / 4 + prompt.spec_bytes().len() <= usize::MAX,
    ensures
        r == sample_len / 4 + prompt.spec_bytes().len(),
{
    sample_len / 4 + prompt.len()
}

/// Where the tokens fed to the model at step `index` start: the whole
/// prompt at the first step, only the last token afterwards.
pub fn context_start(tokens_len: usize, index: usize) -> (r: usize)
    ensures
        index == 0 ==> r == 0,
        index > 0 ==> r == if tokens_len >= 1 {
            (tokens_len - 1) as usize
        } else {
            0
        },
{
    let context_size = if index > 0 {
        1
    } else {
        tokens_len
    };
    tokens_len.saturating_sub(context_size)
}

/// Where the tokens that the repeat penalty looks at start: the last
/// `repeat_last_n` tokens, or all when there are fewer.
pub fn repeat_penalty_start(tokens_len: usize, repeat_last_n: usize) -> (r: usize)
    ensures
        r == if tokens_len >= repeat_last_n {
            (tokens_len - repeat_last_n) as usize
        } else {
            0
        },
{
    tokens_len.saturating_sub(repeat_last_n)
}

/// What one more forward pass gave, when the logits of a step were all zero.
#[derive(Clone, Copy, Debug, PartialEq, Eq, Structural)]
pub enum RetryOutcome {
    /// The forward pass failed.
    ForwardFailed,
    /// The logits could not be read back.
    ReadFailed,
    /// The logits are all zero again.
    AllZero,
    /// The logits are not all zero.
    NonZero,
}

/// What the generator does after a retry.
#[derive(Clone, Copy, Debug, PartialEq, Eq, Structural)]
pub enum RetryAction {
    /// Run the forward pass once more.
    TryAgain,
    /// Go on with the step.
    Proceed,
    /// Stop: the forward pass failed on the last retry.
    GiveUpFailed,
    /// Stop: the logits could not be read back.
    GiveUpRead,
    /// Stop: the logits were still all zero on the last retry.
    GiveUpZero,
}

/// The decision after retry number `retry` of `max_retries`: non-zero logits
/// let the step go on; logits that cannot be read back end the generation;
/// a failed pass or zero logits lead to another retry, or end the generation
/// on the last one.
pub open spec fn retry_decision(retry: u32, max_retries: u32, outcome: RetryOutcome) -> RetryAction {
    match outcome {
        RetryOutcome::NonZero => RetryAction::Proceed,
        RetryOutcome::ReadFailed => RetryAction::GiveUpRead,
        RetryOutcome::ForwardFailed => if retry == max_retries {
            RetryAction::GiveUpFailed
        } else {
            RetryAction::TryAgain
        },
        RetryOutcome::AllZero => if retry == max_retries {
            RetryAction::GiveUpZero
        } else {
            RetryAction::TryAgain
        },
    }
}

/// Decides what follows a retry (see `retry_decision`). The last retry never
/// asks for another one, so a step is retried at most `max_retries` times.
pub fn after_retry(retry: u32, max_retries: u32, outcome: RetryOutcome) -> (r: RetryAction)
    requires
        1 <= retry <= max_retries,
    ensures
        r == retry_decision(retry, max_retries, outcome),
        retry == max_retries ==> r != RetryAction::TryAgain,
        r == RetryAction::Proceed <==> outcome == RetryOutcome::NonZero,
{
    match outcome {
        RetryOutcome::NonZero => RetryAction::Proceed,
        RetryOutcome::ReadFailed => RetryAction::GiveUpRead,
        RetryOutcome::ForwardFailed => {
            if retry == max_retries {
                RetryAction::GiveUpFailed
            } else {
                RetryAction::TryAgain
            }
        },
        RetryOutcome::AllZero => {
            if retry == max_retries {
                RetryAction::GiveUpZero
            } else {
                RetryAction::TryAgain
            }
        },
    }
}

/// Where the model weights come from.
pub enum WeightSource {
    /// Files given by the user.
    Local(Vec<String>),
    /// One file of the model repository.
    HubFile(&'static str),
    /// The files listed in an index file of the model repository.
    HubIndex(&'static str),
}

/// The weights to load: the files named in `weight_files` (separated by
/// commas) when given, and otherwise "model-q4k.gguf" of the repository for
/// the quantized model or the safetensors files listed in
/// "model.safetensors.index.json".
pub fn weight_source(weight_files: Option<String>, quantized: bool) -> (r: WeightSource)
    ensures
        weight_files matches Some(f) ==> (r matches WeightSource::Local(v) && v@.map_values(
            |s: String| s@,
        ) == split_on(f@, ',')),
        weight_files is None && quantized ==> (r matches WeightSource::HubFile(n) && n@
            == "model-q4k.gguf"@),
        weight_files is None && !quantized ==> (r matches WeightSource::HubIndex(n) && n@
            == "model.safetensors.index.json"@),
{
    match weight_files {
        Some(f) => {
            let c = chars_of(f.as_str());
            let parts = split_on_exec(c.as_slice(), ',');
            let mut files: Vec<String> = Vec::new();
            let mut i: usize = 0;
            while i < parts.len()
                invariant
                    i <= parts@.len(),
                    files@.map_values(|s: String| s@) == crate::text::views(parts@).take(i as int),
                decreases parts.len() - i,
            {
                let ghost f0 = files@.map_values(|s: String| s@);
                files.push(string_of(parts[i].as_slice()));
                assert(files@.map_values(|s: String| s@) =~= f0.push(parts@[i as int]@));
                assert(crate::text::views(parts@).take(i + 1) =~= crate::text::views(parts@).take(
                    i as int,
                ).push(parts@[i as int]@));
                i = i + 1;
            }
            assert(crate::text::views(parts@).take(i as int) =~= crate::text::views(parts@));
            WeightSource::Local(files)
        },
        None => {
            if quantized {
                WeightSource::HubFile("model-q4k.gguf")
            } else {
                WeightSource::HubIndex("model.safetensors.index.json")
            }
        },
    }
}

} // verus!
