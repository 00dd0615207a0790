//! The model registry (which models exist and which a machine can run)
//! and the chat prompt formats of the model families.
use vstd::prelude::*;
use crate::system::SystemSpecs;
use crate::text::{chars_of, concat_chars, eq_lit, starts_with, starts_with_exec, slice_chars, string_of};

verus! {

/// The pieces of a chat prompt format: the text around the system prompt
/// (left out by formats without one), around each user and assistant turn,
/// and around the new user message that ends the prompt.
pub struct PromptFormat {
    pub sys_pre: Seq<char>,
    pub sys_post: Seq<char>,
    pub has_system: bool,
    pub user_pre: Seq<char>,
    pub user_post: Seq<char>,
    pub assistant_pre: Seq<char>,
    pub assistant_post: Seq<char>,
    pub end_pre: Seq<char>,
    pub end_post: Seq<char>,
}

/// The prompt format of a model family (`llama3` for any name not known).
pub open spec fn prompt_format(template: Seq<char>) -> PromptFormat {
    if template == "phi3"@ {
        PromptFormat {
            sys_pre: "<|system|>\n"@,
            sys_post: "<|end|>\n"@,
            has_system: true,
            user_pre: "<|user|>\n"@,
            user_post: "<|end|>\n"@,
            assistant_pre: "<|assistant|>\n"@,
            assistant_post: "<|end|>\n"@,
            end_pre: "<|user|>\n"@,
            end_post: "<|end|>\n<|assistant|>\n"@,
        }
    } else if template == "deepseek"@ {
        PromptFormat {
            sys_pre: "### System:\n"@,
            sys_post: "\n"@,
            has_system: true,
            user_pre: "### Human:\n"@,
            user_post: "\n"@,
            assistant_pre: "### Assistant:\n"@,
            assistant_post: "\n"@,
            end_pre: "### Human:\n"@,
            end_post: "\n### Assistant:\n"@,
        }
    } else if template == "chatml"@ {
        PromptFormat {
            sys_pre: "<|im_start|>system\n"@,
            sys_post: "<|im_end|>\n"@,
            has_system: true,
            user_pre: "<|im_start|>user\n"@,
            user_post: "<|im_end|>\n"@,
            assistant_pre: "<|im_start|>assistant\n"@,
            assistant_post: "<|im_end|>\n"@,
            end_pre: "<|im_start|>user\n"@,
            end_post: "<|im_end|>\n<|im_start|>assistant\n"@,
        }
    } else if template == "mistral"@ {
        PromptFormat {
            sys_pre: "<s>"@,
            sys_post: Seq::empty(),
            has_system: false,
            user_pre: "[INST] "@,
            user_post: " [/INST]"@,
            assistant_pre: " "@,
            assistant_post: " "@,
            end_pre: "[INST] "@,
            end_post: " [/INST]"@,
        }
    } else if template == "gemma"@ {
        PromptFormat {
            sys_pre: "<bos><start_of_turn>system\n"@,
            sys_post: "<end_of_turn>\n"@,
            has_system: true,
            user_pre: "<start_of_turn>user\n"@,
            user_post: "<end_of_turn>\n"@,
            assistant_pre: "<start_of_turn>model\n"@,
            assistant_post: "<end_of_turn>\n"@,
            end_pre: "<start_of_turn>user\n"@,
            end_post: "<end_of_turn>\n<start_of_turn>model\n"@,
        }
    } else {
        PromptFormat {
            sys_pre: "<|begin_of_text|><|start_header_id|>system<|end_header_id|>\n\n"@,
            sys_post: "<|eot_id|>"@,
            has_system: true,
            user_pre: "<|start_header_id|>user<|end_header_id|>\n\n"@,
            user_post: "<|eot_id|>"@,
            assistant_pre: "<|start_header_id|>assistant<|end_header_id|>\n\n"@,
            assistant_post: "<|eot_id|>"@,
            end_pre: "<|start_header_id|>user<|end_header_id|>\n\n"@,
            end_post: "<|eot_id|><|start_header_id|>assistant<|end_header_id|>\n\n"@,
        }
    }
}

/// One history entry in the prompt: `User: ...` and `Assistant: ...`
/// entries become turns; anything else is left out.
pub open spec fn history_turn(f: PromptFormat, msg: Seq<char>) -> Seq<char> {
    if starts_with(msg, "User: "@) {
        f.user_pre + msg.skip(6) + f.user_post
    } else if starts_with(msg, "Assistant: "@) {
        f.assistant_pre + msg.skip(11) + f.assistant_post
    } else {
        Seq::empty()
    }
}

/// The turns of a history, in order.
pub open spec fn history_text(f: PromptFormat, h: Seq<Seq<char>>) -> Seq<char>
    decreases h.len(),
{
    if h.len() == 0 {
        Seq::empty()
    } else {
        history_text(f, h.drop_last()) + history_turn(f, h.last())
    }
}

/// The full prompt: system prompt, history, and the new user message.
pub open spec fn chat_prompt(
    template: Seq<char>,
    history: Seq<Seq<char>>,
    user_input: Seq<char>,
    system_prompt: Seq<char>,
) -> Seq<char> {
    let f = prompt_format(template);
    (if f.has_system {
        f.sys_pre + system_prompt + f.sys_post
    } else {
        f.sys_pre
    }) + history_text(f, history) + f.end_pre + user_input + f.end_post
}

/// The pieces of a prompt format, as characters.
struct FormatExec {
    sys_pre: Vec<char>,
    sys_post: Vec<char>,
    has_system: bool,
    user_pre: Vec<char>,
    user_post: Vec<char>,
    assistant_pre: Vec<char>,
    assistant_post: Vec<char>,
    end_pre: Vec<char>,
    end_post: Vec<char>,
}

spec fn format_view(f: FormatExec) -> PromptFormat {
    PromptFormat {
        sys_pre: f.sys_pre@,
        sys_post: f.sys_post@,
        has_system: f.has_system,
        user_pre: f.user_pre@,
        user_post: f.user_post@,
        assistant_pre: f.assistant_pre@,
        assistant_post: f.assistant_post@,
        end_pre: f.end_pre@,
        end_post: f.end_post@,
    }
}

fn make_format(
    sys_pre: &str,
    sys_post: &str,
    has_system: bool,
    user_pre: &str,
    user_post: &str,
    assistant_pre: &str,
    assistant_post: &str,
    end_pre: &str,
    end_post: &str,
) -> (r: FormatExec)
    ensures
        r.sys_pre@ == sys_pre@,
        r.sys_post@ == sys_post@,
        r.has_system == has_system,
        r.user_pre@ == user_pre@,
        r.user_post@ == user_post@,
        r.assistant_pre@ == assistant_pre@,
        r.assistant_post@ == assistant_post@,
        r.end_pre@ == end_pre@,
        r.end_post@ == end_post@,
{
    FormatExec {
        sys_pre: chars_of(sys_pre),
        sys_post: chars_of(sys_post),
        has_system,
        user_pre: chars_of(user_pre),
        user_post: chars_of(user_post),
        assistant_pre: chars_of(assistant_pre),
        assistant_post: chars_of(assistant_post),
        end_pre: chars_of(end_pre),
        end_post: chars_of(end_post),
    }
}

fn format_of(template: &str) -> (r: FormatExec)
    ensures
        format_view(r) == prompt_format(template@),
{
    let t = chars_of(template);
    if eq_lit(&t, "phi3") {
        make_format("<|system|>\n", "<|end|>\n", true, "<|user|>\n", "<|end|>\n", "<|assistant|>\n", "<|end|>\n", "<|user|>\n", "<|end|>\n<|assistant|>\n")
    } else if eq_lit(&t, "deepseek") {
        make_format("### System:\n", "\n", true, "### Human:\n", "\n", "### Assistant:\n", "\n", "### Human:\n", "\n### Assistant:\n")
    } else if eq_lit(&t, "chatml") {
        make_format("<|im_start|>system\n", "<|im_end|>\n", true, "<|im_start|>user\n", "<|im_end|>\n", "<|im_start|>assistant\n", "<|im_end|>\n", "<|im_start|>user\n", "<|im_end|>\n<|im_start|>assistant\n")
    } else if eq_lit(&t, "mistral") {
        let r = make_format("<s>", "", false, "[INST] ", " [/INST]", " ", " ", "[INST] ", " [/INST]");
        proof {
            reveal_strlit("");
        }
        assert(r.sys_post@ =~= Seq::<char>::empty());
        r
    } else if eq_lit(&t, "gemma") {
        make_format("<bos><start_of_turn>system\n", "<end_of_turn>\n", true, "<start_of_turn>user\n", "<end_of_turn>\n", "<start_of_turn>model\n", "<end_of_turn>\n", "<start_of_turn>user\n", "<end_of_turn>\n<start_of_turn>model\n")
    } else {
        make_format("<|begin_of_text|><|start_header_id|>system<|end_header_id|>\n\n", "<|eot_id|>", true, "<|start_header_id|>user<|end_header_id|>\n\n", "<|eot_id|>", "<|start_header_id|>assistant<|end_header_id|>\n\n", "<|eot_id|>", "<|start_header_id|>user<|end_header_id|>\n\n", "<|eot_id|><|start_header_id|>assistant<|end_header_id|>\n\n")
    }
}

fn history_turn_exec(f: &FormatExec, msg: &str) -> (r: Vec<char>)
    ensures
        r@ == history_turn(format_view(*f), msg@),
{
    let m = chars_of(msg);
    proof {
        reveal_strlit("User: ");
        reveal_strlit("Assistant: ");
    }
    if starts_with_exec(&m, &chars_of("User: ")) {
        let body = slice_chars(&m, 6, m.len());
        concat_chars(&concat_chars(&f.user_pre, &body), &f.user_post)
    } else if starts_with_exec(&m, &chars_of("Assistant: ")) {
        let body = slice_chars(&m, 11, m.len());
        concat_chars(&concat_chars(&f.assistant_pre, &body), &f.assistant_post)
    } else {
        Vec::new()
    }
}

/// The prompt for a chat with `history` (entries `User: ...` and
/// `Assistant: ...`), in the format of the model family `template_type`.
pub fn format_chat_prompt(
    template_type: &str,
    history: &[String],
    user_input: &str,
    system_prompt: &str,
) -> (r: String)
    ensures
        r@ == chat_prompt(
            template_type@,
            history@.map_values(|s: String| s@),
            user_input@,
            system_prompt@,
        ),
{
    let f = format_of(template_type);
    let mut prompt: Vec<char> = if f.has_system {
        concat_chars(&concat_chars(&f.sys_pre, &chars_of(system_prompt)), &f.sys_post)
    } else {
        concat_chars(&f.sys_pre, &Vec::new())
    };
    let ghost head = prompt@;
    let ghost hv = history@.map_values(|s: String| s@);
    let mut i: usize = 0;
    while i < history.len()
        invariant
            i <= history@.len(),
            hv == history@.map_values(|s: String| s@),
            prompt@ == head + history_text(format_view(f), hv.take(i as int)),
        decreases history.len() - i,
    {
        assert(hv.take(i + 1).drop_last() =~= hv.take(i as int));
        let turn = history_turn_exec(&f, history[i].as_str());
        prompt = concat_chars(&prompt, &turn);
        i = i + 1;
        assert(prompt@ =~= head + history_text(format_view(f), hv.take(i as int)));
    }
    assert(hv.take(history@.len() as int) =~= hv);
    prompt = concat_chars(&prompt, &f.end_pre);
    prompt = concat_chars(&prompt, &chars_of(user_input));
    prompt = concat_chars(&prompt, &f.end_post);
    assert(prompt@ =~= chat_prompt(template_type@, hv, user_input@, system_prompt@));
    string_of(&prompt)
}

/// The prompt for a single message with no history.
pub fn format_prompt(template_type: &str, user_input: &str, system_prompt: &str) -> (r: String)
    ensures
        r@ == chat_prompt(template_type@, Seq::empty(), user_input@, system_prompt@),
{
    let h: Vec<String> = Vec::new();
    let r = format_chat_prompt(template_type, h.as_slice(), user_input, system_prompt);
    assert(h@.map_values(|s: String| s@) =~= Seq::<Seq<char>>::empty());
    r
}


/// The kind of work a model is for.
#[derive(Clone, Copy, Debug, PartialEq, Eq, Structural)]
pub enum ModelType {
    General,
    Coding,
    Design,
}

/// A downloadable model. Its download size is kept in tenths of a gigabyte.
pub struct Model {
    pub name: String,
    pub description: String,
    pub model_type: ModelType,
    pub min_ram_gb: u64,
    pub size_tenths_gb: u32,
    pub quality_score: u8,
    pub huggingface_url: String,
    pub filename: String,
    pub template_type: String,
}

/// A model, over mathematical values.
pub struct ModelInfo {
    pub name: Seq<char>,
    pub description: Seq<char>,
    pub model_type: ModelType,
    pub min_ram_gb: nat,
    pub size_tenths_gb: nat,
    pub quality_score: nat,
    pub huggingface_url: Seq<char>,
    pub filename: Seq<char>,
    pub template_type: Seq<char>,
}

/// The value of a model.
pub open spec fn model_info(m: Model) -> ModelInfo {
    ModelInfo {
        name: m.name@,
        description: m.description@,
        model_type: m.model_type,
        min_ram_gb: m.min_ram_gb as nat,
        size_tenths_gb: m.size_tenths_gb as nat,
        quality_score: m.quality_score as nat,
        huggingface_url: m.huggingface_url@,
        filename: m.filename@,
        template_type: m.template_type@,
    }
}

/// The models the assistant offers: general models by rising quality, then
/// coding models, then image models.
pub open spec fn catalog() -> Seq<ModelInfo> {
    seq![
        ModelInfo {
            name: "Phi-3 Mini (3.8B)"@,
            description: "Microsoft's compact 3.8B model. Punches above its weight; ideal for 4 GB machines."@,
            model_type: ModelType::General,
            min_ram_gb: 4,
            size_tenths_gb: 22,
            quality_score: 5,
            huggingface_url: "https://huggingface.co/microsoft/Phi-3-mini-4k-instruct-gguf/resolve/main/Phi-3-mini-4k-instruct-q4.gguf"@,
            filename: "phi-3-mini.gguf"@,
            template_type: "phi3"@,
        },
        ModelInfo {
            name: "Llama 3.2 (3B)"@,
            description: "Meta's lightweight 3B model. Fast and capable; great for low-memory setups."@,
            model_type: ModelType::General,
            min_ram_gb: 4,
            size_tenths_gb: 20,
            quality_score: 6,
            huggingface_url: "https://huggingface.co/lmstudio-community/Llama-3.2-3B-Instruct-GGUF/resolve/main/Llama-3.2-3B-Instruct-Q4_K_M.gguf"@,
            filename: "llama-3.2-3b.gguf"@,
            template_type: "llama3"@,
        },
        ModelInfo {
            name: "Mistral 7B v0.3"@,
            description: "Mistral's flagship 7B model. Excellent instruction following and reasoning."@,
            model_type: ModelType::General,
            min_ram_gb: 8,
            size_tenths_gb: 44,
            quality_score: 7,
            huggingface_url: "https://huggingface.co/lmstudio-community/Mistral-7B-Instruct-v0.3-GGUF/resolve/main/Mistral-7B-Instruct-v0.3-Q4_K_M.gguf"@,
            filename: "mistral-7b-v0.3.gguf"@,
            template_type: "mistral"@,
        },
        ModelInfo {
            name: "Llama 3 (8B)"@,
            description: "Meta's flagship 8B model. Best general-purpose performance under 8 GB RAM."@,
            model_type: ModelType::General,
            min_ram_gb: 8,
            size_tenths_gb: 47,
            quality_score: 8,
            huggingface_url: "https://huggingface.co/lmstudio-community/Meta-Llama-3-8B-Instruct-GGUF/resolve/main/Meta-Llama-3-8B-Instruct-Q4_K_M.gguf"@,
            filename: "llama-3-8b.gguf"@,
            template_type: "llama3"@,
        },
        ModelInfo {
            name: "Gemma 2 (9B)"@,
            description: "Google's 9B model. Outperforms most 7-8B models. Best-in-class for 12+ GB."@,
            model_type: ModelType::General,
            min_ram_gb: 12,
            size_tenths_gb: 55,
            quality_score: 9,
            huggingface_url: "https://huggingface.co/bartowski/gemma-2-9b-it-GGUF/resolve/main/gemma-2-9b-it-Q4_K_M.gguf"@,
            filename: "gemma-2-9b.gguf"@,
            template_type: "gemma"@,
        },
        ModelInfo {
            name: "DeepSeek Coder 1.3B"@,
            description: "Ultra-compact coding model. Surprisingly capable for simple tasks under 4 GB."@,
            model_type: ModelType::Coding,
            min_ram_gb: 4,
            size_tenths_gb: 8,
            quality_score: 4,
            huggingface_url: "https://huggingface.co/TheBloke/deepseek-coder-1.3b-instruct-GGUF/resolve/main/deepseek-coder-1.3b-instruct.Q4_K_M.gguf"@,
            filename: "deepseek-coder-1.3b.gguf"@,
            template_type: "deepseek"@,
        },
        ModelInfo {
            name: "DeepSeek Coder 6.7B"@,
            description: "Solid coding model for 8 GB machines. Strong across multiple languages."@,
            model_type: ModelType::Coding,
            min_ram_gb: 8,
            size_tenths_gb: 38,
            quality_score: 7,
            huggingface_url: "https://huggingface.co/TheBloke/deepseek-coder-6.7B-instruct-GGUF/resolve/main/deepseek-coder-6.7b-instruct.Q4_K_M.gguf"@,
            filename: "deepseek-coder-6.7b.gguf"@,
            template_type: "deepseek"@,
        },
        ModelInfo {
            name: "Qwen2.5 Coder 7B"@,
            description: "State-of-the-art 7B coding model. Beats much larger models on benchmarks."@,
            model_type: ModelType::Coding,
            min_ram_gb: 8,
            size_tenths_gb: 44,
            quality_score: 9,
            huggingface_url: "https://huggingface.co/bartowski/Qwen2.5-Coder-7B-Instruct-GGUF/resolve/main/Qwen2.5-Coder-7B-Instruct-Q4_K_M.gguf"@,
            filename: "qwen2.5-coder-7b.gguf"@,
            template_type: "chatml"@,
        },
        ModelInfo {
            name: "DeepSeek Coder 33B"@,
            description: "DeepSeek's flagship 33B coding model. Near-GPT-4 coding quality."@,
            model_type: ModelType::Coding,
            min_ram_gb: 32,
            size_tenths_gb: 189,
            quality_score: 10,
            huggingface_url: "https://huggingface.co/TheBloke/deepseek-coder-33B-instruct-GGUF/resolve/main/deepseek-coder-33b-instruct.Q4_K_M.gguf"@,
            filename: "deepseek-coder-33b.gguf"@,
            template_type: "deepseek"@,
        },
        ModelInfo {
            name: "Stable Diffusion v1.5 (GGUF)"@,
            description: "Classic image generation model. Fast and reliable; ideal for most machines."@,
            model_type: ModelType::Design,
            min_ram_gb: 8,
            size_tenths_gb: 21,
            quality_score: 7,
            huggingface_url: "https://huggingface.co/lmstudio-community/sd1.5-v-q4_0.gguf/resolve/main/sd1.5-v-q4_0.gguf"@,
            filename: "sd-v1.5-q4_0.gguf"@,
            template_type: "sd"@,
        },
    ]
}

fn model(
    name: &str,
    description: &str,
    model_type: ModelType,
    min_ram_gb: u64,
    size_tenths_gb: u32,
    quality_score: u8,
    huggingface_url: &str,
    filename: &str,
    template_type: &str,
) -> (r: Model)
    ensures
        model_info(r) == (ModelInfo {
            name: name@,
            description: description@,
            model_type,
            min_ram_gb: min_ram_gb as nat,
            size_tenths_gb: size_tenths_gb as nat,
            quality_score: quality_score as nat,
            huggingface_url: huggingface_url@,
            filename: filename@,
            template_type: template_type@,
        }),
{
    Model {
        name: name.to_owned(),
        description: description.to_owned(),
        model_type,
        min_ram_gb,
        size_tenths_gb,
        quality_score,
        huggingface_url: huggingface_url.to_owned(),
        filename: filename.to_owned(),
        template_type: template_type.to_owned(),
    }
}

/// The models that can be downloaded.
pub struct ModelRegistry {
    pub models: Vec<Model>,
}

/// The values of models.
pub open spec fn models_info(v: Seq<Model>) -> Seq<ModelInfo> {
    v.map_values(|m: Model| model_info(m))
}

/// Whether a model of type `t` can run with `ram_gb` gigabytes of memory.
pub open spec fn fits(m: ModelInfo, ram_gb: nat, t: ModelType) -> bool {
    m.model_type == t && m.min_ram_gb <= ram_gb
}

impl ModelRegistry {
    /// The registry of all models the assistant offers.
    pub fn new() -> (r: ModelRegistry)
        ensures
            models_info(r.models@) == catalog(),
    {
        let models = vec![
        model(
            "Phi-3 Mini (3.8B)",
            "Microsoft's compact 3.8B model. Punches above its weight; ideal for 4 GB machines.",
            ModelType::General,
            4,
            22,
            5,
            "https://huggingface.co/microsoft/Phi-3-mini-4k-instruct-gguf/resolve/main/Phi-3-mini-4k-instruct-q4.gguf",
            "phi-3-mini.gguf",
            "phi3",
        ),
        model(
            "Llama 3.2 (3B)",
            "Meta's lightweight 3B model. Fast and capable; great for low-memory setups.",
            ModelType::General,
            4,
            20,
            6,
            "https://huggingface.co/lmstudio-community/Llama-3.2-3B-Instruct-GGUF/resolve/main/Llama-3.2-3B-Instruct-Q4_K_M.gguf",
            "llama-3.2-3b.gguf",
            "llama3",
        ),
        model(
            "Mistral 7B v0.3",
            "Mistral's flagship 7B model. Excellent instruction following and reasoning.",
            ModelType::General,
            8,
            44,
            7,
            "https://huggingface.co/lmstudio-community/Mistral-7B-Instruct-v0.3-GGUF/resolve/main/Mistral-7B-Instruct-v0.3-Q4_K_M.gguf",
            "mistral-7b-v0.3.gguf",
            "mistral",
        ),
        model(
            "Llama 3 (8B)",
            "Meta's flagship 8B model. Best general-purpose performance under 8 GB RAM.",
            ModelType::General,
            8,
            47,
            8,
            "https://huggingface.co/lmstudio-community/Meta-Llama-3-8B-Instruct-GGUF/resolve/main/Meta-Llama-3-8B-Instruct-Q4_K_M.gguf",
            "llama-3-8b.gguf",
            "llama3",
        ),
        model(
            "Gemma 2 (9B)",
            "Google's 9B model. Outperforms most 7-8B models. Best-in-class for 12+ GB.",
            ModelType::General,
            12,
            55,
            9,
            "https://huggingface.co/bartowski/gemma-2-9b-it-GGUF/resolve/main/gemma-2-9b-it-Q4_K_M.gguf",
            "gemma-2-9b.gguf",
            "gemma",
        ),
        model(
            "DeepSeek Coder 1.3B",
            "Ultra-compact coding model. Surprisingly capable for simple tasks under 4 GB.",
            ModelType::Coding,
            4,
            8,
            4,
            "https://huggingface.co/TheBloke/deepseek-coder-1.3b-instruct-GGUF/resolve/main/deepseek-coder-1.3b-instruct.Q4_K_M.gguf",
            "deepseek-coder-1.3b.gguf",
            "deepseek",
        ),
        model(
            "DeepSeek Coder 6.7B",
            "Solid coding model for 8 GB machines. Strong across multiple languages.",
            ModelType::Coding,
            8,
            38,
            7,
            "https://huggingface.co/TheBloke/deepseek-coder-6.7B-instruct-GGUF/resolve/main/deepseek-coder-6.7b-instruct.Q4_K_M.gguf",
            "deepseek-coder-6.7b.gguf",
            "deepseek",
        ),
        model(
            "Qwen2.5 Coder 7B",
            "State-of-the-art 7B coding model. Beats much larger models on benchmarks.",
            ModelType::Coding,
            8,
            44,
            9,
            "https://huggingface.co/bartowski/Qwen2.5-Coder-7B-Instruct-GGUF/resolve/main/Qwen2.5-Coder-7B-Instruct-Q4_K_M.gguf",
            "qwen2.5-coder-7b.gguf",
            "chatml",
        ),
        model(
            "DeepSeek Coder 33B",
            "DeepSeek's flagship 33B coding model. Near-GPT-4 coding quality.",
            ModelType::Coding,
            32,
            189,
            10,
            "https://huggingface.co/TheBloke/deepseek-coder-33B-instruct-GGUF/resolve/main/deepseek-coder-33b-instruct.Q4_K_M.gguf",
            "deepseek-coder-33b.gguf",
            "deepseek",
        ),
        model(
            "Stable Diffusion v1.5 (GGUF)",
            "Classic image generation model. Fast and reliable; ideal for most machines.",
            ModelType::Design,
            8,
            21,
            7,
            "https://huggingface.co/lmstudio-community/sd1.5-v-q4_0.gguf/resolve/main/sd1.5-v-q4_0.gguf",
            "sd-v1.5-q4_0.gguf",
            "sd",
        ),
        ];
        assert(models_info(models@) =~= catalog());
        ModelRegistry { models }
    }

    /// The models of type `model_type` that fit the memory of `specs`, in
    /// registry order.
    pub fn get_compatible_models(&self, specs: &SystemSpecs, model_type: ModelType) -> (r: Vec<
        &Model,
    >)
        ensures
            r@.map_values(|m: &Model| model_info(*m)) == models_info(self.models@).filter(
                |m: ModelInfo| fits(m, specs.total_memory_gb as nat, model_type),
            ),
    {
        let ghost pred = |m: ModelInfo| fits(m, specs.total_memory_gb as nat, model_type);
        let ghost mv = models_info(self.models@);
        let mut r: Vec<&Model> = Vec::new();
        let mut i: usize = 0;
        while i < self.models.len()
            invariant
                i <= self.models@.len(),
                mv == models_info(self.models@),
                pred == (|m: ModelInfo| fits(m, specs.total_memory_gb as nat, model_type)),
                r@.map_values(|m: &Model| model_info(*m)) == mv.take(i as int).filter(pred),
            decreases self.models.len() - i,
        {
            proof {
                reveal(Seq::filter);
                assert(mv.take(i + 1).drop_last() =~= mv.take(i as int));
            }
            let m = &self.models[i];
            let ghost before = r@;
            if m.model_type == model_type && m.min_ram_gb <= specs.total_memory_gb {
                r.push(m);
                assert(r@.map_values(|m: &Model| model_info(*m)) =~= before.map_values(
                    |m: &Model| model_info(*m),
                ).push(mv[i as int]));
            }
            i = i + 1;
        }
        assert(mv.take(self.models@.len() as int) =~= mv);
        r
    }
}

/// A machine with more memory is offered every model that a machine with less
/// memory is offered, for each kind of work.
pub proof fn law_more_memory_offers_more(models: Seq<ModelInfo>, ram1: nat, ram2: nat, t: ModelType, m: ModelInfo)
    requires
        ram1 <= ram2,
        models.filter(|x: ModelInfo| fits(x, ram1, t)).contains(m),
    ensures
        models.filter(|x: ModelInfo| fits(x, ram2, t)).contains(m),
{
    let p1 = |x: ModelInfo| fits(x, ram1, t);
    let p2 = |x: ModelInfo| fits(x, ram2, t);
    let f1 = models.filter(p1);
    let j = choose|j: int| 0 <= j < f1.len() && f1[j] == m;
    models.lemma_filter_pred(p1, j);
    models.lemma_filter_contains_rev(p1, m);
    let i = choose|i: int| 0 <= i < models.len() && models[i] == m;
    models.lemma_filter_contains(p2, i);
}

/// Whether `pos` places the items of `a` in `b`, in order: `a[k]` is
/// `b[pos[k]]`, and the positions rise strictly.
pub open spec fn placed_in_order(a: Seq<ModelInfo>, b: Seq<ModelInfo>, pos: Seq<int>) -> bool {
    &&& pos.len() == a.len()
    &&& forall|k: int| 0 <= k < a.len() ==> 0 <= #[trigger] pos[k] < b.len() && a[k] == b[pos[k]]
    &&& forall|k: int, l: int| 0 <= k < l < a.len() ==> #[trigger] pos[k] < #[trigger] pos[l]
}

/// Whether `a` is a subsequence of `b`: its items occur in `b` in the same order.
pub open spec fn is_subsequence(a: Seq<ModelInfo>, b: Seq<ModelInfo>) -> bool {
    exists|pos: Seq<int>| placed_in_order(a, b, pos)
}

proof fn lemma_filter_subsequence(s: Seq<ModelInfo>, ram1: nat, ram2: nat, t: ModelType) -> (pos:
    Seq<int>)
    requires
        ram1 <= ram2,
    ensures
        placed_in_order(
            s.filter(|x: ModelInfo| fits(x, ram1, t)),
            s.filter(|x: ModelInfo| fits(x, ram2, t)),
            pos,
        ),
    decreases s.len(),
{
    let p1 = |x: ModelInfo| fits(x, ram1, t);
    let p2 = |x: ModelInfo| fits(x, ram2, t);
    reveal(Seq::filter);
    if s.len() == 0 {
        assert(s.filter(p1) =~= Seq::<ModelInfo>::empty());
        Seq::<int>::empty()
    } else {
        let s0 = s.drop_last();
        let x = s.last();
        let pos0 = lemma_filter_subsequence(s0, ram1, ram2, t);
        let f1 = s0.filter(p1);
        let f2 = s0.filter(p2);
        assert(s.filter(p1) == if p1(x) { f1.push(x) } else { f1 });
        assert(s.filter(p2) == if p2(x) { f2.push(x) } else { f2 });
        if p1(x) {
            let pos = pos0.push(f2.len() as int);
            assert(placed_in_order(f1.push(x), f2.push(x), pos));
            pos
        } else if p2(x) {
            assert(placed_in_order(f1, f2.push(x), pos0));
            pos0
        } else {
            pos0
        }
    }
}

/// A machine with more memory is offered, for each kind of work, every model
/// that a machine with less memory is offered, and in the same order: the
/// smaller offer is a subsequence of the larger.
pub proof fn law_more_memory_offers_superset_in_order(
    models: Seq<ModelInfo>,
    ram1: nat,
    ram2: nat,
    t: ModelType,
)
    requires
        ram1 <= ram2,
    ensures
        is_subsequence(
            models.filter(|x: ModelInfo| fits(x, ram1, t)),
            models.filter(|x: ModelInfo| fits(x, ram2, t)),
        ),
{
    let pos = lemma_filter_subsequence(models, ram1, ram2, t);
}

/// In every prompt format, the model's earlier replies stand under a marker
/// of their own, not the user's; the user's earlier messages stand under the
/// same marker as the new message; and (for every family with role headers,
/// all but `mistral`) the prompt ends by opening the model's reply under the
/// very marker its earlier replies stand under.
pub proof fn law_roles_keep_their_markers(template: Seq<char>)
    ensures
        ({
            let f = prompt_format(template);
            &&& f.assistant_pre != f.user_pre
            &&& f.user_pre == f.end_pre
            &&& template != "mistral"@ ==> f.end_post.len() >= f.assistant_pre.len()
                && f.end_post.skip(f.end_post.len() - f.assistant_pre.len()) == f.assistant_pre
        }),
{
    let f = prompt_format(template);
    reveal_strlit("phi3");
    reveal_strlit("deepseek");
    reveal_strlit("chatml");
    reveal_strlit("mistral");
    reveal_strlit("gemma");
    reveal_strlit("<|user|>\n");
    reveal_strlit("<|assistant|>\n");
    reveal_strlit("<|end|>\n<|assistant|>\n");
    reveal_strlit("### Human:\n");
    reveal_strlit("### Assistant:\n");
    reveal_strlit("\n### Assistant:\n");
    reveal_strlit("<|im_start|>user\n");
    reveal_strlit("<|im_start|>assistant\n");
    reveal_strlit("<|im_end|>\n<|im_start|>assistant\n");
    reveal_strlit("[INST] ");
    reveal_strlit(" ");
    reveal_strlit("<start_of_turn>user\n");
    reveal_strlit("<start_of_turn>model\n");
    reveal_strlit("<end_of_turn>\n<start_of_turn>model\n");
    reveal_strlit("<|start_header_id|>user<|end_header_id|>\n\n");
    reveal_strlit("<|start_header_id|>assistant<|end_header_id|>\n\n");
    reveal_strlit("<|eot_id|><|start_header_id|>assistant<|end_header_id|>\n\n");
    if template == "phi3"@ {
        assert(f.assistant_pre[2] != f.user_pre[2]);
        assert(f.end_post.skip(f.end_post.len() - f.assistant_pre.len()) =~= f.assistant_pre);
    } else if template == "deepseek"@ {
        assert(f.assistant_pre[4] != f.user_pre[4]);
        assert(f.end_post.skip(f.end_post.len() - f.assistant_pre.len()) =~= f.assistant_pre);
    } else if template == "chatml"@ {
        assert(f.assistant_pre[12] != f.user_pre[12]);
        assert(f.end_post.skip(f.end_post.len() - f.assistant_pre.len()) =~= f.assistant_pre);
    } else if template == "mistral"@ {
        assert(f.assistant_pre.len() != f.user_pre.len());
    } else if template == "gemma"@ {
        assert(f.assistant_pre[15] != f.user_pre[15]);
        assert(f.end_post.skip(f.end_post.len() - f.assistant_pre.len()) =~= f.assistant_pre);
    } else {
        assert(f.assistant_pre[19] != f.user_pre[19]);
        assert(f.end_post.skip(f.end_post.len() - f.assistant_pre.len()) =~= f.assistant_pre);
    }
}

} // verus!
