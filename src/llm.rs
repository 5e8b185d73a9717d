//! Conversation turns and the completion client's configuration, request
//! details and failure taxonomy. The HTTP exchange itself is made by the caller.

use vstd::prelude::*;
use vstd::string::*;

verus! {

/// One role-tagged turn of a conversation.
#[derive(Clone, Debug)]
pub struct Message {
    pub role: String,
    pub content: String,
}

/// A turn as the contracts see it: role and content.
pub type Turn = (Seq<char>, Seq<char>);

pub open spec fn system_role() -> Seq<char> {
    "system"@
}

pub open spec fn user_role() -> Seq<char> {
    "user"@
}

pub open spec fn assistant_role() -> Seq<char> {
    "assistant"@
}

pub open spec fn turns_of(ms: Seq<Message>) -> Seq<Turn> {
    ms.map_values(|m: Message| (m.role@, m.content@))
}

impl Message {
    pub fn system(content: String) -> (r: Message)
        ensures
            r.role@ == system_role(),
            r.content == content,
    {
        Message { role: String::from_str("system"), content }
    }

    pub fn user(content: String) -> (r: Message)
        ensures
            r.role@ == user_role(),
            r.content == content,
    {
        Message { role: String::from_str("user"), content }
    }

    pub fn assistant(content: String) -> (r: Message)
        ensures
            r.role@ == assistant_role(),
            r.content == content,
    {
        Message { role: String::from_str("assistant"), content }
    }
}

/// Why a completion call produced no reply.
#[derive(Debug)]
pub enum CompletionError {
    /// The request could not be sent or its answer not received.
    Transport,
    /// The endpoint answered with a status outside 200..=299.
    Api { status: String, body: String },
    /// The answer's body was not of the expected shape.
    Malformed,
    /// The answer held no choices.
    NoChoices,
}

pub open spec fn error_text(e: CompletionError) -> Seq<char> {
    match e {
        CompletionError::Transport => "Failed to send request to LLM"@,
        CompletionError::Api { status, body } => "LLM API error "@ + status@ + ": "@ + body@,
        CompletionError::Malformed => "Failed to parse LLM response"@,
        CompletionError::NoChoices => "No response from LLM"@,
    }
}

impl CompletionError {
    /// The description shown to the user.
    pub fn describe(&self) -> (r: String)
        ensures
            r@ == error_text(*self),
    {
        match self {
            CompletionError::Transport => String::from_str("Failed to send request to LLM"),
            CompletionError::Api { status, body } => {
                let mut r = String::from_str("LLM API error ");
                r.append(status.as_str());
                r.append(": ");
                r.append(body.as_str());
                r
            },
            CompletionError::Malformed => String::from_str("Failed to parse LLM response"),
            CompletionError::NoChoices => String::from_str("No response from LLM"),
        }
    }
}

/// Where and how completions are requested.
#[derive(Clone, Debug)]
pub struct LlmClient {
    pub endpoint: String,
    pub model: String,
    pub api_key: String,
}

impl LlmClient {
    pub fn new(endpoint: String, model: String, api_key: String) -> (r: LlmClient)
        ensures
            r.endpoint == endpoint,
            r.model == model,
            r.api_key == api_key,
    {
        LlmClient { endpoint, model, api_key }
    }

    /// `<endpoint>/chat/completions`.
    pub fn completions_url(&self) -> (r: String)
        ensures
            r@ == self.endpoint@ + "/chat/completions"@,
    {
        let mut r = self.endpoint.clone();
        r.append("/chat/completions");
        r
    }

    /// The `Authorization` header's value, present only when a key is configured.
    pub fn authorization(&self) -> (r: Option<String>)
        ensures
            r is None <==> self.api_key@.len() == 0,
            r matches Some(v) ==> v@ == "Bearer "@ + self.api_key@,
    {
        if self.api_key.as_str().is_empty() {
            None
        } else {
            let mut v = String::from_str("Bearer ");
            v.append(self.api_key.as_str());
            Some(v)
        }
    }

    /// Whether a status code is a success, 200..=299.
    pub fn is_success(status: u16) -> (r: bool)
        ensures
            r == (200 <= status <= 299),
    {
        200 <= status && status <= 299
    }

    /// The reply from the contents of the answer's choices: the first one.
    pub fn first_reply(choices: Vec<String>) -> (r: Result<String, CompletionError>)
        ensures
            choices@.len() == 0 ==> r matches Err(CompletionError::NoChoices),
            choices@.len() > 0 ==> r == Ok::<String, CompletionError>(choices@[0]),
    {
        let mut choices = choices;
        if choices.len() == 0 {
            Err(CompletionError::NoChoices)
        } else {
            Ok(choices.swap_remove(0))
        }
    }
}

} // verus!
