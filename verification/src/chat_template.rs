//! Chat template formatting.
use crate::openai_api::ChatMessage;
use crate::text;
use vstd::prelude::*;
use vstd::string::*;

verus! {

/// Formats chat messages into the prompt of a model.
pub trait ChatTemplateProcessor: Send + Sync {
    fn apply(&self, messages: &[ChatMessage]) -> Result<String, String>;
}

/// The chat template of Qwen3, for models that come without one.
#[derive(Debug)]
pub struct Qwen3ChatTemplate;

/// The role takes part in the conversation.
pub open spec fn takes_part(role: Seq<char>) -> bool {
    role == "system"@ || role == "user"@ || role == "assistant"@
}

/// One message as a turn; nothing for a role that takes no part.
pub open spec fn turn(message: ChatMessage) -> Seq<char> {
    if takes_part(message.role@) {
        "<|im_start|>"@ + message.role@ + "\n"@ + message.text() + "<|im_end|>\n"@
    } else {
        Seq::empty()
    }
}

/// All messages as turns, in order.
pub open spec fn turns(messages: Seq<ChatMessage>) -> Seq<char>
    decreases messages.len(),
{
    if messages.len() == 0 {
        Seq::empty()
    } else {
        turns(messages.drop_last()) + turn(messages.last())
    }
}

/// The prompt: all turns, and the beginning of the answer.
pub open spec fn prompt(messages: Seq<ChatMessage>) -> Seq<char> {
    turns(messages) + "<|im_start|>assistant\n"@
}

impl ChatTemplateProcessor for Qwen3ChatTemplate {
    fn apply(&self, messages: &[ChatMessage]) -> (result: Result<String, String>)
        ensures
            match result {
                Ok(text) => text@ == prompt(messages@),
                Err(_) => false,
            },
    {
        let mut out = String::new();
        let mut i: usize = 0;
        assert(messages@.take(0) =~= Seq::<ChatMessage>::empty());
        while i < messages.len()
            invariant
                i <= messages@.len(),
                out@ == turns(messages@.take(i as int)),
            decreases messages@.len() - i,
        {
            let ghost before = out@;
            let message = &messages[i];
            assert(messages@.take(i + 1).drop_last() =~= messages@.take(i as int));
            let role = message.role.as_str();
            if text::same_text(role, "system") || text::same_text(role, "user") || text::same_text(
                role,
                "assistant",
            ) {
                out.append("<|im_start|>");
                out.append(role);
                out.append("\n");
                out.append(message.text_content().as_str());
                out.append("<|im_end|>\n");
                assert(out@ =~= before + turn(*message));
            } else {
                assert(out@ =~= before + turn(*message));
            }
            i = i + 1;
        }
        assert(messages@.take(i as int) =~= messages@);
        out.append("<|im_start|>assistant\n");
        Ok(out)
    }
}

/// The turns of two conversations, one after the other, are those of the joined conversation.
pub proof fn law_turns_join(first: Seq<ChatMessage>, second: Seq<ChatMessage>)
    ensures
        turns(first + second) == turns(first) + turns(second),
    decreases second.len(),
{
    if second.len() == 0 {
        assert(first + second =~= first);
        assert(turns(first) + turns(second) =~= turns(first));
    } else {
        law_turns_join(first, second.drop_last());
        assert((first + second).drop_last() =~= first + second.drop_last());
        assert((first + second).last() == second.last());
        assert(turns(first + second) =~= turns(first) + turns(second));
    }
}

/// Each message that takes part stands in the prompt as one turn, in its place between those before
/// it and those after it, under its own role and with its own text; and the prompt ends where the
/// answer begins.
pub proof fn law_prompt_holds_every_message(
    first: Seq<ChatMessage>,
    message: ChatMessage,
    rest: Seq<ChatMessage>,
)
    ensures
        message.role@ == "system"@ || message.role@ == "user"@ || message.role@ == "assistant"@
            ==> prompt(first.push(message) + rest) == turns(first) + "<|im_start|>"@
            + message.role@ + "\n"@ + message.text() + "<|im_end|>\n"@ + turns(rest)
            + "<|im_start|>assistant\n"@,
        !(message.role@ == "system"@ || message.role@ == "user"@ || message.role@
            == "assistant"@) ==> prompt(first.push(message) + rest) == prompt(first + rest),
        prompt(Seq::empty()) == "<|im_start|>assistant\n"@,
{
    law_turns_join(first.push(message), rest);
    law_turns_join(first, rest);
    assert(first.push(message).drop_last() =~= first);
    let all = prompt(first.push(message) + rest);
    if takes_part(message.role@) {
        assert(all =~= turns(first) + "<|im_start|>"@ + message.role@ + "\n"@ + message.text()
            + "<|im_end|>\n"@ + turns(rest) + "<|im_start|>assistant\n"@);
    } else {
        assert(all =~= prompt(first + rest));
    }
    assert(prompt(Seq::empty()) =~= "<|im_start|>assistant\n"@);
}

} // verus!
