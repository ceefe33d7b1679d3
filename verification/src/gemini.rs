//! The generation backend's request and response shapes, the provider
//! abstraction, and the strict decoding of the backend's structured output.

use vstd::prelude::*;
use vstd::string::StringExecFns;
use crate::entry::DebriefResponse;
use crate::json::{parse_entries, spec_parse_entries};

verus! {

pub struct SystemInstructionPart {
    pub text: Option<String>,
}

pub struct SystemInstructionContent {
    pub parts: Vec<SystemInstructionPart>,
}

pub struct GenerationConfig {
    pub response_mime_type: Option<String>,
}

pub struct Part {
    pub text: Option<String>,
}

pub struct RequestContent {
    pub role: String,
    pub parts: Vec<Part>,
}

/// One generation request: a system instruction, a configuration asking
/// for structured output, and the user content carrying the batch.
pub struct Request {
    pub system_instruction: Option<SystemInstructionContent>,
    pub generation_config: Option<GenerationConfig>,
    pub contents: Vec<RequestContent>,
}

pub struct ResponseContent {
    pub parts: Vec<Part>,
}

pub struct Candidate {
    pub content: ResponseContent,
}

/// The backend's answer: a list of candidates, each holding text parts.
pub struct Response {
    pub candidates: Vec<Candidate>,
}

/// The connection data of the generation backend.
pub struct Gemini {
    pub api_key: String,
}

/// The backend returned no usable structured output: either no candidate
/// carried any text, or the text broke the required schema. Either way the
/// run has no digest to deliver.
#[derive(Debug)]
pub enum GenerationError {
    NoUsableText,
    SchemaViolation,
}

/// A backend that turns a system instruction and a serialized batch into
/// structured digest entries. Implementations perform the outbound call.
pub trait ChatProvider {
    fn send_message(&self, system_instruction: String, message: String) -> Result<
        Vec<DebriefResponse>,
        GenerationError,
    >;
}

pub struct GeminiChatProvider {
    pub client: Gemini,
}

impl GeminiChatProvider {
    pub fn new(api_token: String) -> (r: Self)
        ensures
            r.client.api_key@ == api_token@,
    {
        let gemini = Gemini { api_key: api_token };
        GeminiChatProvider { client: gemini }
    }
}

/// Builds the one generation request of a run: the system instruction as
/// instruction content, a configuration demanding a JSON answer, and the
/// serialized batch as the single user message.
pub fn build_request(system_instruction: String, message: String) -> (r: Request)
    ensures
        r.system_instruction is Some,
        r.system_instruction->0.parts@.len() == 1,
        (r.system_instruction->0.parts@[0].text matches Some(t) && t@ == system_instruction@),
        r.generation_config is Some,
        (r.generation_config->0.response_mime_type matches Some(m) && m@ == "application/json"@),
        r.contents@.len() == 1,
        r.contents@[0].role@ == "user"@,
        r.contents@[0].parts@.len() == 1,
        (r.contents@[0].parts@[0].text matches Some(t) && t@ == message@),
{
    Request {
        system_instruction: Some(
            SystemInstructionContent {
                parts: vec![SystemInstructionPart { text: Some(system_instruction) }],
            },
        ),
        generation_config: Some(
            GenerationConfig { response_mime_type: Some(String::from_str("application/json")) },
        ),
        contents: vec![
            RequestContent {
                role: String::from_str("user"),
                parts: vec![Part { text: Some(message) }],
            },
        ],
    }
}

/// The text the pipeline reads from a backend response: the first text
/// part of the first candidate, when all three are there.
pub open spec fn spec_first_text(r: Response) -> Option<Seq<char>> {
    if r.candidates@.len() > 0 && r.candidates@[0].content.parts@.len() > 0 && r.candidates@[0].content.parts@[0].text is Some {
        Some(r.candidates@[0].content.parts@[0].text->0@)
    } else {
        None
    }
}

/// Decodes a backend response into digest entries. A response without a
/// first text part fails with `NoUsableText`; a text that is not a valid
/// entry array fails with `SchemaViolation`; nothing is salvaged from a
/// malformed answer.
pub fn parse_generation_response(response: &Response) -> (r: Result<
    Vec<DebriefResponse>,
    GenerationError,
>)
    ensures
        match spec_first_text(*response) {
            None => r == Err::<Vec<DebriefResponse>, GenerationError>(
                GenerationError::NoUsableText,
            ),
            Some(text) => match spec_parse_entries(text) {
                Some(es) => (r matches Ok(v) && v.deep_view() == es),
                None => r == Err::<Vec<DebriefResponse>, GenerationError>(
                    GenerationError::SchemaViolation,
                ),
            },
        },
{
    if response.candidates.len() == 0 {
        return Err(GenerationError::NoUsableText);
    }
    let cand = &response.candidates[0];
    if cand.content.parts.len() == 0 {
        return Err(GenerationError::NoUsableText);
    }
    match &cand.content.parts[0].text {
        None => Err(GenerationError::NoUsableText),
        Some(text) => {
            match parse_entries(text.as_str()) {
                Some(es) => Ok(es),
                None => Err(GenerationError::SchemaViolation),
            }
        },
    }
}

/// The fixed system instruction: the output format and style the backend
/// must honour, including the JSON schema of the entry array.
pub open spec fn spec_system_instruction() -> Seq<char> {
    "You will be provided with a set of pull requests that have been completed the working day.\n    Avoid using technical language where possible.\n    The PR title should be stripped of prefixes such as 'refactor:',\n    'fro-123:', etc. and rewritten in a human readable way. Capitalize the first letter of the title.\n    Each description must be at most 70 characters.\n    Each line should be a human readable sentence. Rewrite it if necessary.\n    Do not prefix the lines with hyphens.\n    The entire message must be at most 1500 characters, if the message is too long, skip the least important changes.\n    The type of change should be a capitalized string such as 'Feature', 'Bug\n     fix', 'Refactor', etc. Add an emoji to the beginning of the type of change.\n    Output the result using this JSON schema:\n    { \"type\": \"array\"\n    , \"items\": { \"type\": \"object\"\n               , \"properties\": { \"description\": { \"type\": \"string\" }\n                               , \"url\": { \"type\": \"string\" }\n                               , \"type_of_change\": { \"type\": \"string\" }\n                               }\n               }\n    }\n    "@
}

pub fn system_instruction() -> (r: String)
    ensures
        r@ == spec_system_instruction(),
{
    String::from_str(
        "You will be provided with a set of pull requests that have been completed the working day.\n    Avoid using technical language where possible.\n    The PR title should be stripped of prefixes such as 'refactor:',\n    'fro-123:', etc. and rewritten in a human readable way. Capitalize the first letter of the title.\n    Each description must be at most 70 characters.\n    Each line should be a human readable sentence. Rewrite it if necessary.\n    Do not prefix the lines with hyphens.\n    The entire message must be at most 1500 characters, if the message is too long, skip the least important changes.\n    The type of change should be a capitalized string such as 'Feature', 'Bug\n     fix', 'Refactor', etc. Add an emoji to the beginning of the type of change.\n    Output the result using this JSON schema:\n    { \"type\": \"array\"\n    , \"items\": { \"type\": \"object\"\n               , \"properties\": { \"description\": { \"type\": \"string\" }\n                               , \"url\": { \"type\": \"string\" }\n                               , \"type_of_change\": { \"type\": \"string\" }\n                               }\n               }\n    }\n    ",
    )
}

} // verus!
