//! Model providers: the Ollama API and OpenAI-compatible servers. The
//! requests themselves are made by the caller; what is here is how each
//! provider is set up and how the lines of a streamed reply become events.

use vstd::prelude::*;

pub mod ollama;
pub mod openai_compatible;
pub mod registry;
pub mod stream_lines;

verus! {

#[verifier::external_type_specification]
#[verifier::external_body]
pub struct ExClient(reqwest::Client);

} // verus!
