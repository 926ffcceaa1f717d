//! Chat messages as clients send them.
use vstd::prelude::*;
use vstd::string::*;

verus! {

/// What a message says.
#[derive(Debug, Clone)]
pub enum ChatMessageContent {
    Text(String),
}

/// One turn of a conversation.
#[derive(Debug, Clone)]
pub struct ChatMessage {
    pub role: String,
    pub content: ChatMessageContent,
}

impl ChatMessage {
    /// The text of the message.
    pub open spec fn text(&self) -> Seq<char> {
        match self.content {
            ChatMessageContent::Text(text) => text@,
        }
    }

    pub fn text_content(&self) -> (result: String)
        ensures
            result@ == self.text(),
    {
        match &self.content {
            ChatMessageContent::Text(text) => String::from_str(text.as_str()),
        }
    }
}

} // verus!
