//! Finding the configured provider to talk to.

use vstd::prelude::*;
use crate::text::{concat3, first_index, join, join_strings, lemma_first_index_unique, str_eq};
use crate::providers::ollama::OllamaProvider;
use crate::providers::openai_compatible::OpenAiCompatibleProvider;
use crate::text::trim_end_slashes;
use crate::types::{opt_view, LocalCodeConfig, ProviderConfig, ProviderType, ProviderView};
use vstd::string::StringExecFns;

verus! {

/// The providers of the configuration.
pub fn list_providers(config: &LocalCodeConfig) -> (r: &[ProviderConfig])
    ensures
        r@ == config.providers@,
{
    config.providers.as_slice()
}

/// The ids of the providers, in order.
pub open spec fn provider_ids(ps: Seq<ProviderView>) -> Seq<Seq<char>> {
    ps.map_values(|p: ProviderView| p.id)
}

/// The error for a provider id that is not configured.
pub open spec fn unknown_provider_message(id: Seq<char>, ids: Seq<Seq<char>>) -> Seq<char> {
    "Unknown provider \""@ + id + "\". Configured providers: "@ + join(ids, ", "@)
}

/// The configured provider with the id `provider_id` (the default provider
/// when none is given), or the error naming the providers there are.
pub fn resolve_provider<'a>(config: &'a LocalCodeConfig, provider_id: Option<&str>) -> (r: Result<
    &'a ProviderConfig,
    String,
>)
    ensures
        ({
            let id = match provider_id {
                Some(p) => p@,
                None => config@.default_provider,
            };
            let k = first_index(config@.providers, |p: ProviderView| p.id == id);
            match r {
                Ok(p) => k >= 0 && p@ == config@.providers[k],
                Err(e) => k < 0 && e@ == unknown_provider_message(id, provider_ids(config@.providers)),
            }
        }),
{
    let id: &str = match provider_id {
        Some(p) => p,
        None => config.default_provider.as_str(),
    };
    let ghost f = |p: ProviderView| p.id == id@;
    let mut k: usize = 0;
    let mut ids: Vec<String> = Vec::new();
    while k < config.providers.len()
        invariant
            id@ == match provider_id {
                Some(p) => p@,
                None => config@.default_provider,
            },
            f == (|p: ProviderView| p.id == id@),
            k <= config@.providers.len(),
            forall|m: int| 0 <= m < k ==> !f(#[trigger] config@.providers[m]),
            ids@.map_values(|x: String| x@) == provider_ids(config@.providers).take(k as int),
        decreases config@.providers.len() - k,
    {
        if str_eq(config.providers[k].id.as_str(), id) {
            proof {
                lemma_first_index_unique(config@.providers, f, k as int);
            }
            return Ok(&config.providers[k]);
        }
        let ghost before = ids@.map_values(|x: String| x@);
        ids.push(config.providers[k].id.clone());
        assert(ids@.map_values(|x: String| x@) =~= before.push(config@.providers[k as int].id));
        assert(provider_ids(config@.providers).take(k + 1) =~= provider_ids(config@.providers).take(k as int).push(
            config@.providers[k as int].id,
        ));
        k += 1;
    }
    proof {
        lemma_first_index_unique(config@.providers, f, -1);
        assert(provider_ids(config@.providers).take(k as int) =~= provider_ids(config@.providers));
    }
    let known = join_strings(&ids, ", ");
    let mut e = concat3("Unknown provider \"", id, "\". Configured providers: ");
    e.append(known.as_str());
    Err(e)
}

/// A provider of either kind.
pub enum AnyProvider {
    Ollama(OllamaProvider),
    OpenAiCompatible(OpenAiCompatibleProvider),
}

/// The provider for `config`, of the kind it names, sending its requests
/// with `client`.
pub fn create_provider(config: &ProviderConfig, client: reqwest::Client) -> (p: AnyProvider)
    ensures
        match p {
            AnyProvider::Ollama(o) => {
                &&& config.kind == ProviderType::Ollama
                &&& o.id_view() == config.id@
                &&& o.label_view() == match config.label {
                    Some(l) => l@,
                    None => "Ollama"@,
                }
                &&& o.base_url_view() == trim_end_slashes(config.base_url@)
            },
            AnyProvider::OpenAiCompatible(o) => {
                &&& config.kind == ProviderType::OpenAiCompatible
                &&& o.id_view() == config.id@
                &&& o.label_view() == match config.label {
                    Some(l) => l@,
                    None => "OpenAI-compatible"@,
                }
                &&& o.base_url_view() == trim_end_slashes(config.base_url@)
                &&& o.api_key_view() == opt_view(config.api_key)
            },
        },
{
    match config.kind {
        ProviderType::Ollama => AnyProvider::Ollama(OllamaProvider::new(config, client)),
        ProviderType::OpenAiCompatible => AnyProvider::OpenAiCompatible(OpenAiCompatibleProvider::new(config, client)),
    }
}

} // verus!
