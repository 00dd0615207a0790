use aide::profile::{capitalize, Profile};

const BASE: &str = "You are Aide, a helpful assistant. When the user specifically asks you to create, generate, or produce an image, first describe what you're creating, then return a fenced code block with language 'image-prompt' containing a detailed, high-quality prompt for Stable Diffusion. Otherwise, chat normally and do not output image prompts. Do not output base64 data, and do not output Python or shell commands for image generation. IMPORTANT: If you don't know something about the user (like their name, preference, or context) and it's relevant to the conversation, feel free to ask them. You have long-term memory and will remember their answers for future sessions.";

#[test]
fn empty_profile_summary_is_base_prompt() {
    let p = Profile::new();
    assert_eq!(p.get_profile_summary(), BASE);
    assert_eq!(p.profile_entry_count(), 0);
}

#[test]
fn languages_are_learned_and_summarised() {
    let mut p = Profile::new();
    let learned = p.extract_and_learn("I love Rust and python", None);
    assert_eq!(p.get_profile_value("languages_mentioned"), Some("rust,python".to_string()));
    assert_eq!(p.get_profile_value("total_turns"), Some("1".to_string()));
    assert_eq!(learned.semantic, vec!["User identity/intro: I love Rust and python".to_string()]);
    assert_eq!(
        p.get_profile_summary(),
        format!("{} The user works with: Rust, Python. You have had 1 conversations together.", BASE)
    );
}

#[test]
fn languages_accumulate_without_repeats() {
    let mut p = Profile::new();
    p.extract_and_learn("rust is great", None);
    p.extract_and_learn("I also write golang and rust", None);
    assert_eq!(p.get_profile_value("languages_mentioned"), Some("rust,go".to_string()));
    assert_eq!(p.get_profile_value("total_turns"), Some("2".to_string()));
}

#[test]
fn skill_topics_and_project() {
    let mut p = Profile::new();
    p.extract_and_learn("I'm new to machine learning and working on my project", None);
    assert_eq!(p.get_profile_value("skill_level"), Some("beginner".to_string()));
    assert_eq!(p.get_profile_value("topics_of_interest"), Some("ml".to_string()));
    assert_eq!(p.get_profile_value("has_active_project"), Some("true".to_string()));
    p.extract_and_learn("we run it in production", None);
    assert_eq!(p.get_profile_value("skill_level"), Some("expert".to_string()));
}

#[test]
fn remember_once() {
    let mut p = Profile::new();
    let l = p.extract_and_learn("Remember that my cat is Tom", None);
    assert_eq!(p.get_profile_value("remembered_facts"), Some("my cat is Tom".to_string()));
    assert!(l.semantic.contains(&"my cat is Tom".to_string()));
    p.extract_and_learn("remember that MY CAT IS TOM", None);
    assert_eq!(p.get_profile_value("remembered_facts"), Some("my cat is Tom".to_string()));
    assert_eq!(p.remembered_facts_count(), 1);
    p.extract_and_learn("don't forget I like tea", None);
    assert_eq!(p.get_profile_value("remembered_facts"), Some("my cat is Tom|I like tea".to_string()));
    assert_eq!(p.remembered_facts_count(), 2);
    p.clear_remembered_facts();
    assert_eq!(p.remembered_facts_count(), 0);
}

#[test]
fn answer_to_question_goes_to_semantic_memory() {
    let mut p = Profile::new();
    let l = p.extract_and_learn(" Blue ", Some("What is your favourite colour? "));
    assert_eq!(
        l.semantic,
        vec!["Aide asked: What is your favourite colour?\nUser answered: Blue".to_string()]
    );
    let l2 = p.extract_and_learn("Blue", Some("Nice."));
    assert!(l2.semantic.is_empty());
}

#[test]
fn profile_table_operations() {
    let mut p = Profile::new();
    p.upsert_profile("a", "1");
    p.upsert_profile("b", "2");
    p.upsert_profile("a", "3");
    assert_eq!(p.profile_entry_count(), 2);
    assert_eq!(p.get_profile_value("a"), Some("3".to_string()));
    p.remove_profile_value("a");
    assert_eq!(p.get_profile_value("a"), None);
    assert_eq!(p.entries(), vec![("b".to_string(), "2".to_string())]);
    p.clear_profile();
    assert_eq!(p.profile_entry_count(), 0);
}

#[test]
fn capitalize_first_char() {
    assert_eq!(capitalize("rust"), "Rust");
    assert_eq!(capitalize(""), "");
    assert_eq!(capitalize("ßx"), "SSx");
}

fn turns_after(stored: &str) -> Option<String> {
    let mut p = Profile::new();
    p.upsert_profile("total_turns", stored);
    p.extract_and_learn("hello", None);
    p.get_profile_value("total_turns")
}

#[test]
fn turn_counter_reads_like_sqlite_cast() {
    assert_eq!(turns_after("7"), Some("8".to_string()));
    assert_eq!(turns_after("  7"), Some("8".to_string()));
    assert_eq!(turns_after("\t+41xyz"), Some("42".to_string()));
    assert_eq!(turns_after("-5"), Some("-4".to_string()));
    assert_eq!(turns_after("abc"), Some("1".to_string()));
    assert_eq!(turns_after(""), Some("1".to_string()));
    assert_eq!(turns_after("99999999999999999999"), Some("9223372036854775807".to_string()));
    assert_eq!(turns_after("-99999999999999999999"), Some("-9223372036854775807".to_string()));
}

#[test]
fn learning_a_message_twice_only_counts_again() {
    let msg = "Remember that I'm new to rust and machine learning, working on my project";
    let mut p = Profile::new();
    p.upsert_profile("languages_mentioned", "go");
    p.extract_and_learn(msg, None);
    let mut once = p.entries();
    p.extract_and_learn(msg, None);
    let mut twice = p.entries();
    once.sort();
    twice.sort();
    for (a, b) in once.iter().zip(twice.iter()) {
        assert_eq!(a.0, b.0);
        if a.0 == "total_turns" {
            assert_eq!(a.1, "1");
            assert_eq!(b.1, "2");
        } else {
            assert_eq!(a, b);
        }
    }
    assert_eq!(once.len(), twice.len());
    assert_eq!(p.get_profile_value("languages_mentioned"), Some("go,rust".to_string()));
    assert_eq!(p.get_profile_value("topics_of_interest"), Some("ml".to_string()));
    assert_eq!(p.get_profile_value("skill_level"), Some("beginner".to_string()));
    assert_eq!(p.get_profile_value("has_active_project"), Some("true".to_string()));
    assert_eq!(p.get_profile_value("remembered_facts"), Some("I'm new to rust and machine learning, working on my project".to_string()));
}

#[test]
fn clearing_facts_drops_one_entry_only_when_there_were_facts() {
    let mut p = Profile::new();
    p.extract_and_learn("remember that I like tea", None);
    let before = p.profile_entry_count();
    p.clear_remembered_facts();
    assert_eq!(p.profile_entry_count(), before - 1);
    assert_eq!(p.remembered_facts_count(), 0);
    assert_eq!(p.get_profile_value("total_turns"), Some("1".to_string()));
    p.clear_remembered_facts();
    assert_eq!(p.profile_entry_count(), before - 1);
}
