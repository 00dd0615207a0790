use aide::models::{format_chat_prompt, format_prompt, ModelRegistry, ModelType};
use aide::system::SystemSpecs;

fn specs(ram: u64, cores: usize) -> SystemSpecs {
    SystemSpecs {
        os_name: "Linux".to_string(),
        os_version: "6".to_string(),
        total_memory_gb: ram,
        available_memory_gb: ram,
        cpu_brand: "cpu".to_string(),
        cpu_cores: cores,
        cpu_threads: cores,
    }
}

#[test]
fn prompt_formats_by_family() {
    assert_eq!(
        format_prompt("phi3", "hi", "sys"),
        "<|system|>\nsys<|end|>\n<|user|>\nhi<|end|>\n<|assistant|>\n"
    );
    assert_eq!(format_prompt("mistral", "hi", "sys"), "<s>[INST] hi [/INST]");
    assert_eq!(
        format_prompt("unknown", "hi", "sys"),
        "<|begin_of_text|><|start_header_id|>system<|end_header_id|>\n\nsys<|eot_id|><|start_header_id|>user<|end_header_id|>\n\nhi<|eot_id|><|start_header_id|>assistant<|end_header_id|>\n\n"
    );
}

#[test]
fn chat_prompt_includes_history_turns() {
    let h = vec!["User: a".to_string(), "Assistant: b".to_string(), "noise".to_string()];
    assert_eq!(
        format_chat_prompt("deepseek", &h, "c", "s"),
        "### System:\ns\n### Human:\na\n### Assistant:\nb\n### Human:\nc\n### Assistant:\n"
    );
    assert_eq!(
        format_chat_prompt("gemma", &[], "c", "s"),
        "<bos><start_of_turn>system\ns<end_of_turn>\n<start_of_turn>user\nc<end_of_turn>\n<start_of_turn>model\n"
    );
}

#[test]
fn registry_lists_all_models() {
    let r = ModelRegistry::new();
    assert_eq!(r.models.len(), 10);
    assert_eq!(r.models[0].name, "Phi-3 Mini (3.8B)");
    assert_eq!(r.models[9].model_type, ModelType::Design);
}

#[test]
fn compatible_models_by_type_and_memory() {
    let r = ModelRegistry::new();
    let names: Vec<&str> = r
        .get_compatible_models(&specs(8, 4), ModelType::General)
        .iter()
        .map(|m| m.name.as_str())
        .collect();
    assert_eq!(names, vec!["Phi-3 Mini (3.8B)", "Llama 3.2 (3B)", "Mistral 7B v0.3", "Llama 3 (8B)"]);
    assert_eq!(r.get_compatible_models(&specs(4, 4), ModelType::Coding).len(), 1);
    assert_eq!(r.get_compatible_models(&specs(2, 4), ModelType::General).len(), 0);
    assert_eq!(r.get_compatible_models(&specs(64, 4), ModelType::Coding).len(), 4);
}

#[test]
fn compatibility_checks() {
    assert_eq!(specs(16, 8).check_compatibility(), (true, vec![]));
    let (ok, w) = specs(3, 1).check_compatibility();
    assert!(ok);
    assert_eq!(
        w,
        vec![
            "Limited RAM detected. Aide will suggest extremely small models.".to_string(),
            "Single-core CPU detected. Performance may be very slow.".to_string()
        ]
    );
    assert_eq!(
        specs(6, 2).check_compatibility(),
        (true, vec!["8GB+ RAM is recommended for better quality models.".to_string()])
    );
    assert!(!specs(1, 4).check_compatibility().0);
}

#[test]
fn more_memory_offers_at_least_the_same_models() {
    let r = ModelRegistry::new();
    for t in [ModelType::General, ModelType::Coding, ModelType::Design] {
        for (small, large) in [(4u64, 8u64), (8, 12), (12, 32), (2, 64)] {
            let a: Vec<String> = r.get_compatible_models(&specs(small, 4), t).iter().map(|m| m.name.clone()).collect();
            let b: Vec<String> = r.get_compatible_models(&specs(large, 4), t).iter().map(|m| m.name.clone()).collect();
            assert!(a.iter().all(|n| b.contains(n)));
        }
    }
}

#[test]
fn smaller_offer_is_a_subsequence_of_larger() {
    let r = ModelRegistry::new();
    for t in [ModelType::General, ModelType::Coding, ModelType::Design] {
        for (small, large) in [(4u64, 8u64), (8, 12), (12, 32), (2, 64), (6, 6)] {
            let a: Vec<String> = r.get_compatible_models(&specs(small, 4), t).iter().map(|m| m.name.clone()).collect();
            let b: Vec<String> = r.get_compatible_models(&specs(large, 4), t).iter().map(|m| m.name.clone()).collect();
            let mut it = b.iter();
            assert!(a.iter().all(|n| it.any(|m| m == n)));
        }
    }
}
