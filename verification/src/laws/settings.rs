//! What the settings are read from, and when a request is made again.

use crate::config::{
    contact_known, database_usable, models_usable, numeric_name, placeholder_value, range_fault,
    settings_fault, settings_of, ConfigError, NumericVariable, SettingsView,
};
use crate::retry::{
    action_after_answer, action_after_failure, download_policy, first_attempt, model_policy,
    next_attempt, source_policy, RetryAction, RetryPolicy, RetryState,
};
use crate::text::{
    decimal, holds_text, lemma_decimal_value, lowered, trimmed, trimmed_end_of, unsigned_value,
};
use vstd::prelude::*;

verus! {

/// Each text of the settings is that of its own variable, without white space around it;
/// the address of the vector database also without slashes behind it.
pub proof fn law_settings_are_read_from_their_variables(variables: Map<Seq<char>, Seq<char>>)
    ensures
        ({
            let settings = settings_of(variables);
            &&& variables.contains_key("NVIDIA_API_KEY"@) ==> settings.nvidia_api_key == trimmed(
                variables["NVIDIA_API_KEY"@],
            )
            &&& variables.contains_key("NEMOTRON_EMBED_MODEL_ID"@) ==> settings.embed_model
                == trimmed(variables["NEMOTRON_EMBED_MODEL_ID"@])
            &&& variables.contains_key("NEMOTRON_RERANK_MODEL_ID"@) ==> settings.rerank_model
                == trimmed(variables["NEMOTRON_RERANK_MODEL_ID"@])
            &&& variables.contains_key("NVIDIA_EMBED_URL"@) ==> settings.embed_url == trimmed(
                variables["NVIDIA_EMBED_URL"@],
            )
            &&& variables.contains_key("NVIDIA_RERANK_URL"@) ==> settings.rerank_url == trimmed(
                variables["NVIDIA_RERANK_URL"@],
            )
            &&& variables.contains_key("OPENALEX_API_KEY"@) ==> settings.openalex_api_key
                == trimmed(variables["OPENALEX_API_KEY"@])
            &&& variables.contains_key("SEMANTIC_SCHOLAR_API_KEY"@)
                ==> settings.semantic_scholar_api_key == trimmed(
                variables["SEMANTIC_SCHOLAR_API_KEY"@],
            )
            &&& variables.contains_key("CONTACT_EMAIL"@) ==> settings.contact_email == trimmed(
                variables["CONTACT_EMAIL"@],
            )
            &&& variables.contains_key("QDRANT_URL"@) ==> settings.qdrant_url == trimmed_end_of(
                trimmed(variables["QDRANT_URL"@]),
                "/"@,
            )
            &&& variables.contains_key("QDRANT_API_KEY"@) ==> settings.qdrant_api_key == trimmed(
                variables["QDRANT_API_KEY"@],
            )
            &&& variables.contains_key("QDRANT_COLLECTION"@) ==> settings.qdrant_collection
                == trimmed(variables["QDRANT_COLLECTION"@])
        }),
{
}

/// Texts that no variable holds have the values that the program comes with; there are no
/// keys and no contact among them.
pub proof fn law_settings_have_defaults(variables: Map<Seq<char>, Seq<char>>)
    ensures
        ({
            let settings = settings_of(variables);
            &&& !variables.contains_key("NVIDIA_API_KEY"@) ==> settings.nvidia_api_key.len() == 0
            &&& !variables.contains_key("OPENALEX_API_KEY"@) ==> settings.openalex_api_key.len()
                == 0
            &&& !variables.contains_key("SEMANTIC_SCHOLAR_API_KEY"@)
                ==> settings.semantic_scholar_api_key.len() == 0
            &&& !variables.contains_key("CONTACT_EMAIL"@) ==> settings.contact_email.len() == 0
            &&& !variables.contains_key("QDRANT_API_KEY"@) ==> settings.qdrant_api_key.len() == 0
            &&& !variables.contains_key("NEMOTRON_EMBED_MODEL_ID"@) ==> settings.embed_model
                == trimmed("nvidia/llama-nemotron-embed-vl-1b-v2"@)
            &&& !variables.contains_key("NEMOTRON_RERANK_MODEL_ID"@) ==> settings.rerank_model
                == trimmed("nvidia/llama-nemotron-rerank-vl-1b-v2"@)
            &&& !variables.contains_key("NVIDIA_EMBED_URL"@) ==> settings.embed_url == trimmed(
                "https://integrate.api.nvidia.com/v1/embeddings"@,
            )
            &&& !variables.contains_key("QDRANT_URL"@) ==> settings.qdrant_url == trimmed_end_of(
                trimmed("http://localhost:6333"@),
                "/"@,
            )
            &&& !variables.contains_key("QDRANT_COLLECTION"@) ==> settings.qdrant_collection
                == trimmed("academic_literature_v2"@)
        }),
{
    reveal_strlit("");
    assert(""@.len() == 0);
    assert(trimmed(""@).len() == 0);
}

proof fn lemma_number(n: nat, max: nat)
    requires
        n <= max,
    ensures
        unsigned_value(decimal(n), max) == Some(n),
{
    lemma_decimal_value(n);
}

/// Each number of the settings is the one that its own variable holds, the size of a PDF
/// in mebibytes.
pub proof fn law_numbers_are_read_from_their_variables(
    variables: Map<Seq<char>, Seq<char>>,
    n: nat,
)
    requires
        n <= 0xff,
    ensures
        ({
            let settings = settings_of(variables);
            let given = |name: Seq<char>|
                variables.contains_key(name) && variables[name] == decimal(n);
            &&& given("QDRANT_VECTOR_SIZE"@) ==> settings.vector_size == n
            &&& given("HTTP_TIMEOUT_SECONDS"@) ==> settings.timeout_seconds == n
            &&& given("DOWNLOAD_WORKERS"@) ==> settings.download_workers == n
            &&& given("NVIDIA_EMBED_BATCH_SIZE"@) ==> settings.embed_batch_size == n
            &&& given("NVIDIA_RERANK_BATCH_SIZE"@) ==> settings.rerank_batch_size == n
            &&& given("PDF_RENDER_DPI"@) ==> settings.render_dpi == n
            &&& given("PDF_JPEG_QUALITY"@) ==> settings.jpeg_quality == n
            &&& given("MAX_PDF_MIB"@) ==> settings.max_pdf_bytes == n * 1024 * 1024
        }),
{
    lemma_number(n, 0xffff_ffff_ffff_ffff);
    lemma_number(n, usize::MAX as nat);
    lemma_number(n, 0xffff);
    lemma_number(n, 0xff);
}

/// Without variables the settings are usable and are those that the program comes with.
pub proof fn law_the_program_runs_without_settings(variables: Map<Seq<char>, Seq<char>>)
    requires
        variables == Map::<Seq<char>, Seq<char>>::empty(),
    ensures
        settings_fault(variables) is None,
        ({
            let settings = settings_of(variables);
            &&& settings.vector_size == 2048
            &&& settings.timeout_seconds == 60
            &&& settings.download_workers == 4
            &&& settings.embed_batch_size == 4
            &&& settings.rerank_batch_size == 32
            &&& settings.max_pdf_bytes == 200 * 1024 * 1024
            &&& settings.render_dpi == 144
            &&& settings.jpeg_quality == 85
        }),
{
}

/// Settings are usable only where every number is in its range.
pub proof fn law_usable_settings_are_in_range(settings: SettingsView)
    ensures
        range_fault(settings) is None <==> {
            &&& settings.vector_size == 2048
            &&& settings.timeout_seconds > 0
            &&& settings.download_workers > 0
            &&& settings.embed_batch_size > 0
            &&& 1 <= settings.rerank_batch_size <= 1000
            &&& settings.max_pdf_bytes > 0
            &&& settings.render_dpi > 0
            &&& 1 <= settings.jpeg_quality <= 100
        },
        settings.vector_size != 2048 ==> range_fault(settings) == Some(ConfigError::VectorSize),
        range_fault(settings) == Some(ConfigError::NoTimeout) ==> settings.timeout_seconds == 0,
        range_fault(settings) == Some(ConfigError::NoDownloadWorkers) ==> settings.download_workers
            == 0,
        range_fault(settings) == Some(ConfigError::NoEmbedBatch) ==> settings.embed_batch_size == 0,
        range_fault(settings) == Some(ConfigError::NoPdfLimit) ==> settings.max_pdf_bytes == 0,
        range_fault(settings) == Some(ConfigError::NoRenderDpi) ==> settings.render_dpi == 0,
{
}

/// A variable that should hold a number and does not is named in the fault.
pub proof fn law_unreadable_numbers_are_named(
    variables: Map<Seq<char>, Seq<char>>,
    variable: NumericVariable,
)
    requires
        settings_fault(variables) == Some(ConfigError::NotANumber(variable)),
    ensures
        variables.contains_key(numeric_name(variable)),
        unsigned_value(variables[numeric_name(variable)], 0xff) is None,
{
}

/// A value stands for one that is still to be set exactly where it is empty or speaks of
/// being replaced.
pub proof fn law_placeholders_are_no_values(value: Seq<char>)
    ensures
        placeholder_value(value) <==> value.len() == 0 || holds_text(lowered(value), "replace"@),
{
}

/// A response is taken for the answer where it succeeded, or where any is taken but one
/// that says that the server is overloaded or in trouble; such a response calls for
/// another attempt, and every other is reported.
pub proof fn law_only_trouble_is_tried_again(
    policy: RetryPolicy,
    state: RetryState,
    status: u16,
    retry_after: Option<Seq<char>>,
)
    ensures
        ({
            let action = action_after_answer(policy, state, status, retry_after);
            let trouble = status == 429 || 500 <= status < 600;
            &&& action is Wait <==> trouble
            &&& action is Accept <==> !trouble && (policy.takes_any_status || 200 <= status < 300)
            &&& action is Reject <==> !trouble && !policy.takes_any_status && !(200 <= status
                < 300)
        }),
{
}

/// A wait is as long as the server asks for in seconds, up to a minute, where it is
/// heeded; else it is the delay of the attempt.
pub proof fn law_waits_heed_the_server(
    policy: RetryPolicy,
    state: RetryState,
    status: u16,
    asked: nat,
)
    requires
        status == 429 || 500 <= status < 600,
        asked <= 0xffff_ffff_ffff_ffff,
    ensures
        action_after_answer(policy, state, status, Some(decimal(asked))) matches RetryAction::Wait {
            seconds,
            next,
        } && (policy.heeds_server ==> seconds == (if asked <= 60 {
            asked
        } else {
            60
        })) && (!policy.heeds_server ==> seconds == state.delay),
        action_after_answer(policy, state, status, None) matches RetryAction::Wait {
            seconds,
            next,
        } && (policy.heeds_server && state.delay <= 60 ==> seconds == state.delay) && (
        !policy.heeds_server ==> seconds == state.delay),
{
    lemma_number(asked, 0xffff_ffff_ffff_ffff);
}

/// Each attempt is counted, and the delay doubles up to the longest; behind the last
/// attempt there is none.
pub proof fn law_delays_double(policy: RetryPolicy, state: RetryState)
    requires
        state.delay <= 0x7fff_ffff_ffff_ffff,
    ensures
        next_attempt(policy, state) is Some <==> state.attempt + 1 < policy.attempts,
        next_attempt(policy, state) matches Some(next) ==> next.attempt == state.attempt + 1 && (
        state.delay * 2 <= policy.longest_delay ==> next.delay == state.delay * 2) && (state.delay
            * 2 > policy.longest_delay ==> next.delay == policy.longest_delay),
        first_attempt().attempt == 0 && first_attempt().delay == 1,
{
}

/// Where no response came the request is made again after the delay, until all attempts
/// are spent.
pub proof fn law_failures_are_tried_again(policy: RetryPolicy, state: RetryState)
    ensures
        state.attempt + 1 < policy.attempts ==> action_after_failure(policy, state) == (
        RetryAction::Wait { seconds: state.delay, next: next_attempt(policy, state) }),
        state.attempt + 1 >= policy.attempts ==> action_after_failure(policy, state)
            == RetryAction::GiveUp,
{
}

/// Sources and models are asked up to five times with delays up to half a minute, PDFs are
/// downloaded up to four times with delays up to twenty seconds. Sources and models are
/// heeded where they ask for a wait, and of sources any status is taken.
pub proof fn law_policies_bound_the_attempts()
    ensures
        source_policy().attempts == 5 && source_policy().longest_delay == 30,
        model_policy().attempts == 5 && model_policy().longest_delay == 30,
        download_policy().attempts == 4 && download_policy().longest_delay == 20,
        source_policy().heeds_server && model_policy().heeds_server
            && !download_policy().heeds_server,
        source_policy().takes_any_status && !model_policy().takes_any_status
            && !download_policy().takes_any_status,
{
}

/// The models are asked exactly where a key is set and both models are the known ones; the
/// vector database exactly where it has an address and a key; and a source is told of a
/// contact only where that is an address of mail.
pub proof fn law_services_need_their_keys(settings: SettingsView)
    ensures
        models_usable(settings) <==> settings.nvidia_api_key.len() > 0 && !holds_text(
            lowered(settings.nvidia_api_key),
            "replace"@,
        ) && settings.embed_model == "nvidia/llama-nemotron-embed-vl-1b-v2"@
            && settings.rerank_model == "nvidia/llama-nemotron-rerank-vl-1b-v2"@,
        database_usable(settings) <==> settings.qdrant_url.len() > 0
            && settings.qdrant_api_key.len() > 0 && !holds_text(
            lowered(settings.qdrant_api_key),
            "replace"@,
        ),
        contact_known(settings) <==> trimmed(settings.contact_email).len() > 0 && holds_text(
            settings.contact_email,
            "@"@,
        ),
{
}

} // verus!
