//! Chat template.
use crane_oai::chat_template::{ChatTemplateProcessor, Qwen3ChatTemplate};
use crane_oai::openai_api::{ChatMessage, ChatMessageContent};


fn make_messages(pairs: &[(&str, &str)]) -> Vec<ChatMessage> {
    pairs
        .iter()
        .map(|(role, content)| ChatMessage {
            role: role.to_string(),
            content: ChatMessageContent::Text(content.to_string()),
        })
        .collect()
}

// ── Qwen3ChatTemplate ──

#[test]
fn qwen3_basic_user_message() {
    let tmpl = Qwen3ChatTemplate;
    let msgs = make_messages(&[("user", "Hello")]);
    let result = tmpl.apply(&msgs).unwrap();

    assert!(result.starts_with("<|im_start|>user\nHello<|im_end|>\n"));
    assert!(result.ends_with("<|im_start|>assistant\n"));
}

#[test]
fn qwen3_system_message_prepended() {
    let tmpl = Qwen3ChatTemplate;
    let msgs = make_messages(&[("system", "You are helpful"), ("user", "Hi")]);
    let result = tmpl.apply(&msgs).unwrap();

    assert!(result.contains("<|im_start|>system\nYou are helpful<|im_end|>\n"));
    assert!(result.contains("<|im_start|>user\nHi<|im_end|>\n"));
}

#[test]
fn qwen3_multi_turn() {
    let tmpl = Qwen3ChatTemplate;
    let msgs = make_messages(&[
        ("user", "Hello"),
        ("assistant", "Hi!"),
        ("user", "How are you?"),
    ]);
    let result = tmpl.apply(&msgs).unwrap();

    assert!(result.contains("<|im_start|>assistant\nHi!<|im_end|>\n"));
    assert!(result.contains("How are you?"));
}

#[test]
fn qwen3_empty_messages() {
    let tmpl = Qwen3ChatTemplate;
    let msgs: Vec<ChatMessage> = vec![];
    let result = tmpl.apply(&msgs).unwrap();

    assert_eq!(result, "<|im_start|>assistant\n");
}

#[test]
fn qwen3_unknown_role_skipped() {
    let tmpl = Qwen3ChatTemplate;
    let msgs = make_messages(&[
        ("user", "Hello"),
        ("tool", "some tool output"),
        ("user", "Next"),
    ]);
    let result = tmpl.apply(&msgs).unwrap();
    assert!(!result.contains("some tool output"));
}

// ── ChatTemplateProcessor trait ──

#[test]
fn qwen3_implements_trait() {
    let proc: Box<dyn ChatTemplateProcessor> = Box::new(Qwen3ChatTemplate);
    let msgs = make_messages(&[("user", "test")]);
    assert!(proc.apply(&msgs).is_ok());
}

#[test]
fn turns_of_two_conversations_join() {
    let tmpl = Qwen3ChatTemplate;
    let first = make_messages(&[("system", "s"), ("user", "a")]);
    let second = make_messages(&[("tool", "t"), ("user", "b")]);
    let mut both = make_messages(&[("system", "s"), ("user", "a")]);
    both.extend(make_messages(&[("tool", "t"), ("user", "b")]));
    let tail = "<|im_start|>assistant\n";
    let one = tmpl.apply(&first).unwrap();
    let two = tmpl.apply(&second).unwrap();
    let all = tmpl.apply(&both).unwrap();
    assert_eq!(all, format!("{}{}", one.strip_suffix(tail).unwrap(), two));
    assert_eq!(
        all,
        "<|im_start|>system\ns<|im_end|>\n<|im_start|>user\na<|im_end|>\n<|im_start|>user\nb<|im_end|>\n<|im_start|>assistant\n"
    );
}
