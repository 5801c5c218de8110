//! The settings of the program, read from environment variables.

use crate::model::Duplicate;
use crate::table::TextMap;
use crate::text::{
    contains, holds_text, is_blank, lower, lowered, parse_unsigned, same_text, trim, trim_end_of,
    trimmed, trimmed_end_of, unsigned_value,
};
use vstd::prelude::*;

verus! {

/// The model that embeds pages and queries.
pub const EMBED_MODEL: &'static str = "nvidia/llama-nemotron-embed-vl-1b-v2";

/// The model that reranks candidates.
pub const RERANK_MODEL: &'static str = "nvidia/llama-nemotron-rerank-vl-1b-v2";

/// The settings of the program.
#[derive(Debug)]
pub struct Settings {
    pub nvidia_api_key: String,
    pub embed_model: String,
    pub rerank_model: String,
    pub embed_url: String,
    pub rerank_url: String,
    pub openalex_api_key: String,
    pub semantic_scholar_api_key: String,
    pub contact_email: String,
    pub qdrant_url: String,
    pub qdrant_api_key: String,
    pub qdrant_collection: String,
    pub vector_size: usize,
    pub timeout_seconds: u64,
    pub download_workers: usize,
    pub embed_batch_size: usize,
    pub rerank_batch_size: usize,
    pub max_pdf_bytes: u64,
    pub render_dpi: u16,
    pub jpeg_quality: u8,
}

/// What a `Settings` holds.
#[verifier::ext_equal]
pub struct SettingsView {
    pub nvidia_api_key: Seq<char>,
    pub embed_model: Seq<char>,
    pub rerank_model: Seq<char>,
    pub embed_url: Seq<char>,
    pub rerank_url: Seq<char>,
    pub openalex_api_key: Seq<char>,
    pub semantic_scholar_api_key: Seq<char>,
    pub contact_email: Seq<char>,
    pub qdrant_url: Seq<char>,
    pub qdrant_api_key: Seq<char>,
    pub qdrant_collection: Seq<char>,
    pub vector_size: usize,
    pub timeout_seconds: u64,
    pub download_workers: usize,
    pub embed_batch_size: usize,
    pub rerank_batch_size: usize,
    pub max_pdf_bytes: u64,
    pub render_dpi: u16,
    pub jpeg_quality: u8,
}

impl View for Settings {
    type V = SettingsView;

    open spec fn view(&self) -> SettingsView {
        SettingsView {
            nvidia_api_key: self.nvidia_api_key@,
            embed_model: self.embed_model@,
            rerank_model: self.rerank_model@,
            embed_url: self.embed_url@,
            rerank_url: self.rerank_url@,
            openalex_api_key: self.openalex_api_key@,
            semantic_scholar_api_key: self.semantic_scholar_api_key@,
            contact_email: self.contact_email@,
            qdrant_url: self.qdrant_url@,
            qdrant_api_key: self.qdrant_api_key@,
            qdrant_collection: self.qdrant_collection@,
            vector_size: self.vector_size,
            timeout_seconds: self.timeout_seconds,
            download_workers: self.download_workers,
            embed_batch_size: self.embed_batch_size,
            rerank_batch_size: self.rerank_batch_size,
            max_pdf_bytes: self.max_pdf_bytes,
            render_dpi: self.render_dpi,
            jpeg_quality: self.jpeg_quality,
        }
    }
}

impl Duplicate for Settings {
    fn duplicate(&self) -> (r: Settings) {
        Settings {
            nvidia_api_key: self.nvidia_api_key.clone(),
            embed_model: self.embed_model.clone(),
            rerank_model: self.rerank_model.clone(),
            embed_url: self.embed_url.clone(),
            rerank_url: self.rerank_url.clone(),
            openalex_api_key: self.openalex_api_key.clone(),
            semantic_scholar_api_key: self.semantic_scholar_api_key.clone(),
            contact_email: self.contact_email.clone(),
            qdrant_url: self.qdrant_url.clone(),
            qdrant_api_key: self.qdrant_api_key.clone(),
            qdrant_collection: self.qdrant_collection.clone(),
            vector_size: self.vector_size,
            timeout_seconds: self.timeout_seconds,
            download_workers: self.download_workers,
            embed_batch_size: self.embed_batch_size,
            rerank_batch_size: self.rerank_batch_size,
            max_pdf_bytes: self.max_pdf_bytes,
            render_dpi: self.render_dpi,
            jpeg_quality: self.jpeg_quality,
        }
    }
}

/// The variables that hold numbers.
#[derive(Clone, Copy, Debug, PartialEq, Eq, Structural)]
pub enum NumericVariable {
    MaxPdfMib,
    VectorSize,
    Timeout,
    DownloadWorkers,
    EmbedBatch,
    RerankBatch,
    RenderDpi,
    JpegQuality,
}

/// The name of the variable.
pub open spec fn numeric_name(variable: NumericVariable) -> Seq<char> {
    match variable {
        NumericVariable::MaxPdfMib => "MAX_PDF_MIB"@,
        NumericVariable::VectorSize => "QDRANT_VECTOR_SIZE"@,
        NumericVariable::Timeout => "HTTP_TIMEOUT_SECONDS"@,
        NumericVariable::DownloadWorkers => "DOWNLOAD_WORKERS"@,
        NumericVariable::EmbedBatch => "NVIDIA_EMBED_BATCH_SIZE"@,
        NumericVariable::RerankBatch => "NVIDIA_RERANK_BATCH_SIZE"@,
        NumericVariable::RenderDpi => "PDF_RENDER_DPI"@,
        NumericVariable::JpegQuality => "PDF_JPEG_QUALITY"@,
    }
}

impl NumericVariable {
    /// The name of the variable.
    pub fn name(&self) -> (r: &'static str)
        ensures
            r@ == numeric_name(*self),
    {
        match self {
            NumericVariable::MaxPdfMib => "MAX_PDF_MIB",
            NumericVariable::VectorSize => "QDRANT_VECTOR_SIZE",
            NumericVariable::Timeout => "HTTP_TIMEOUT_SECONDS",
            NumericVariable::DownloadWorkers => "DOWNLOAD_WORKERS",
            NumericVariable::EmbedBatch => "NVIDIA_EMBED_BATCH_SIZE",
            NumericVariable::RerankBatch => "NVIDIA_RERANK_BATCH_SIZE",
            NumericVariable::RenderDpi => "PDF_RENDER_DPI",
            NumericVariable::JpegQuality => "PDF_JPEG_QUALITY",
        }
    }
}

/// What is wrong with the settings.
#[derive(Clone, Copy, Debug, PartialEq, Eq, Structural)]
pub enum ConfigError {
    NotANumber(NumericVariable),
    PdfLimitTooLarge,
    MissingNvidiaKey,
    WrongEmbedModel,
    WrongRerankModel,
    MissingQdrantUrl,
    MissingLocalQdrantKey,
    MissingQdrantKey,
    MissingContactEmail,
    MissingOpenalexKey,
    VectorSize,
    NoTimeout,
    NoDownloadWorkers,
    NoEmbedBatch,
    RerankBatch,
    NoPdfLimit,
    NoRenderDpi,
    JpegQuality,
}

/// The words for what is wrong with the settings.
pub open spec fn config_fault_text(error: ConfigError) -> Seq<char> {
    match error {
        ConfigError::NotANumber(variable) => numeric_name(variable)
            + " must be a valid positive number"@,
        ConfigError::PdfLimitTooLarge => {
            "MAX_PDF_MIB is too large"@
        },
        ConfigError::MissingNvidiaKey => {
            "NVIDIA_API_KEY is missing: sign in at https://build.nvidia.com/settings/api-keys, generate a key, and set NVIDIA_API_KEY=<key> in the skill-root .env (or --env-file); never paste the key into chat or commit it"@
        },
        ConfigError::WrongEmbedModel => {
            "NEMOTRON_EMBED_MODEL_ID must be nvidia/llama-nemotron-embed-vl-1b-v2"@
        },
        ConfigError::WrongRerankModel => {
            "NEMOTRON_RERANK_MODEL_ID must be nvidia/llama-nemotron-rerank-vl-1b-v2"@
        },
        ConfigError::MissingQdrantUrl => {
            "QDRANT_URL is required"@
        },
        ConfigError::MissingLocalQdrantKey => {
            "QDRANT_API_KEY is missing: generate a strong local secret (for example, openssl rand -hex 32), set QDRANT_API_KEY=<secret> in the skill-root .env (or --env-file), and let docker-compose.yml read that same value"@
        },
        ConfigError::MissingQdrantKey => {
            "QDRANT_API_KEY is missing: for Qdrant Cloud, create a Database API key from the cluster's API Keys page (https://qdrant.tech/documentation/cloud/authentication/) and set QDRANT_API_KEY=<key> in the skill-root .env (or --env-file); for another secured deployment, obtain the key from its operator; never paste it into chat or commit it"@
        },
        ConfigError::MissingContactEmail => {
            "CONTACT_EMAIL is required for Crossref polite-pool requests: set CONTACT_EMAIL=<your-email> in the skill-root .env (or --env-file); no token is needed"@
        },
        ConfigError::MissingOpenalexKey => {
            "OPENALEX_API_KEY is required to resolve an OpenAlex-only candidate"@
        },
        ConfigError::VectorSize => {
            "QDRANT_VECTOR_SIZE must be 2048 for the configured float embedding output"@
        },
        ConfigError::NoTimeout => {
            "HTTP_TIMEOUT_SECONDS must be positive"@
        },
        ConfigError::NoDownloadWorkers => {
            "DOWNLOAD_WORKERS must be positive"@
        },
        ConfigError::NoEmbedBatch => {
            "NVIDIA_EMBED_BATCH_SIZE must be positive"@
        },
        ConfigError::RerankBatch => {
            "NVIDIA_RERANK_BATCH_SIZE must be between 1 and 1000"@
        },
        ConfigError::NoPdfLimit => {
            "MAX_PDF_MIB must be positive"@
        },
        ConfigError::NoRenderDpi => {
            "PDF_RENDER_DPI must be positive"@
        },
        ConfigError::JpegQuality => {
            "PDF_JPEG_QUALITY must be between 1 and 100"@
        },
    }
}

impl ConfigError {
    /// The error in words.
    pub fn message(&self) -> (r: String)
        ensures
            r@ == config_fault_text(*self),
    {
        match self {
            ConfigError::NotANumber(variable) => {
                let mut text = variable.name().to_owned();
                text.append(" must be a valid positive number");
                text
            },
            ConfigError::PdfLimitTooLarge => {
                "MAX_PDF_MIB is too large".to_owned()
            },
            ConfigError::MissingNvidiaKey => {
                "NVIDIA_API_KEY is missing: sign in at https://build.nvidia.com/settings/api-keys, generate a key, and set NVIDIA_API_KEY=<key> in the skill-root .env (or --env-file); never paste the key into chat or commit it".to_owned()
            },
            ConfigError::WrongEmbedModel => {
                "NEMOTRON_EMBED_MODEL_ID must be nvidia/llama-nemotron-embed-vl-1b-v2".to_owned()
            },
            ConfigError::WrongRerankModel => {
                "NEMOTRON_RERANK_MODEL_ID must be nvidia/llama-nemotron-rerank-vl-1b-v2".to_owned()
            },
            ConfigError::MissingQdrantUrl => {
                "QDRANT_URL is required".to_owned()
            },
            ConfigError::MissingLocalQdrantKey => {
                "QDRANT_API_KEY is missing: generate a strong local secret (for example, openssl rand -hex 32), set QDRANT_API_KEY=<secret> in the skill-root .env (or --env-file), and let docker-compose.yml read that same value".to_owned()
            },
            ConfigError::MissingQdrantKey => {
                "QDRANT_API_KEY is missing: for Qdrant Cloud, create a Database API key from the cluster's API Keys page (https://qdrant.tech/documentation/cloud/authentication/) and set QDRANT_API_KEY=<key> in the skill-root .env (or --env-file); for another secured deployment, obtain the key from its operator; never paste it into chat or commit it".to_owned()
            },
            ConfigError::MissingContactEmail => {
                "CONTACT_EMAIL is required for Crossref polite-pool requests: set CONTACT_EMAIL=<your-email> in the skill-root .env (or --env-file); no token is needed".to_owned()
            },
            ConfigError::MissingOpenalexKey => {
                "OPENALEX_API_KEY is required to resolve an OpenAlex-only candidate".to_owned()
            },
            ConfigError::VectorSize => {
                "QDRANT_VECTOR_SIZE must be 2048 for the configured float embedding output".to_owned()
            },
            ConfigError::NoTimeout => {
                "HTTP_TIMEOUT_SECONDS must be positive".to_owned()
            },
            ConfigError::NoDownloadWorkers => {
                "DOWNLOAD_WORKERS must be positive".to_owned()
            },
            ConfigError::NoEmbedBatch => {
                "NVIDIA_EMBED_BATCH_SIZE must be positive".to_owned()
            },
            ConfigError::RerankBatch => {
                "NVIDIA_RERANK_BATCH_SIZE must be between 1 and 1000".to_owned()
            },
            ConfigError::NoPdfLimit => {
                "MAX_PDF_MIB must be positive".to_owned()
            },
            ConfigError::NoRenderDpi => {
                "PDF_RENDER_DPI must be positive".to_owned()
            },
            ConfigError::JpegQuality => {
                "PDF_JPEG_QUALITY must be between 1 and 100".to_owned()
            },
        }
    }
}

/// The value of a variable without white space around it, or the default where it
/// is not set.
pub open spec fn variable_value(
    variables: Map<Seq<char>, Seq<char>>,
    name: Seq<char>,
    default: Seq<char>,
) -> Seq<char> {
    if variables.contains_key(name) {
        trimmed(variables[name])
    } else {
        trimmed(default)
    }
}

/// The number that a variable holds, or the default where it is not set.
pub open spec fn variable_number(
    variables: Map<Seq<char>, Seq<char>>,
    variable: NumericVariable,
    default: nat,
    max: nat,
) -> Option<nat> {
    if variables.contains_key(numeric_name(variable)) {
        unsigned_value(variables[numeric_name(variable)], max)
    } else {
        Some(default)
    }
}

/// The value of a variable without white space around it, or the default where it
/// is not set.
fn variable(variables: &TextMap<String>, name: &str, default: &str) -> (r: String)
    ensures
        r@ == variable_value(variables@, name@, default@),
{
    match variables.get(name) {
        Some(value) => trim(value),
        None => trim(default),
    }
}

/// The number that a variable holds, or the default where it is not set.
fn numeric(
    variables: &TextMap<String>,
    which: NumericVariable,
    default: u64,
    max: u64,
) -> (r: Result<u64, ConfigError>)
    requires
        default <= max,
    ensures
        match r {
            Ok(number) => number <= max && variable_number(
                variables@,
                which,
                default as nat,
                max as nat,
            ) == Some(number as nat),
            Err(error) => error == ConfigError::NotANumber(which) && variable_number(
                variables@,
                which,
                default as nat,
                max as nat,
            ) is None,
        },
{
    match variables.get(which.name()) {
        Some(value) => match parse_unsigned(value, max) {
            Some(number) => Ok(number),
            None => Err(ConfigError::NotANumber(which)),
        },
        None => Ok(default),
    }
}

/// The value is empty or stands for one that is still to be set.
pub open spec fn placeholder_value(value: Seq<char>) -> bool {
    value.len() == 0 || holds_text(lowered(value), "replace"@)
}

/// Whether the value is empty or stands for one that is still to be set.
pub fn placeholder(value: &str) -> (r: bool)
    ensures
        r == placeholder_value(value@),
{
    value.is_empty() || contains(&lower(value), "replace")
}

/// The number of a variable with the default and the bound that it has.
pub open spec fn setting_number(
    variables: Map<Seq<char>, Seq<char>>,
    variable: NumericVariable,
) -> Option<nat> {
    match variable {
        NumericVariable::MaxPdfMib => variable_number(variables, variable, 200, 0xffff_ffff_ffff_ffff),
        NumericVariable::VectorSize => variable_number(variables, variable, 2048, usize::MAX as nat),
        NumericVariable::Timeout => variable_number(variables, variable, 60, 0xffff_ffff_ffff_ffff),
        NumericVariable::DownloadWorkers => variable_number(variables, variable, 4, usize::MAX as nat),
        NumericVariable::EmbedBatch => variable_number(variables, variable, 4, usize::MAX as nat),
        NumericVariable::RerankBatch => variable_number(variables, variable, 32, usize::MAX as nat),
        NumericVariable::RenderDpi => variable_number(variables, variable, 144, 0xffff),
        NumericVariable::JpegQuality => variable_number(variables, variable, 85, 0xff),
    }
}

/// The settings that the variables make, where each number is one.
pub open spec fn settings_of(variables: Map<Seq<char>, Seq<char>>) -> SettingsView {
    SettingsView {
        nvidia_api_key: variable_value(variables, "NVIDIA_API_KEY"@, ""@),
        embed_model: variable_value(variables, "NEMOTRON_EMBED_MODEL_ID"@, EMBED_MODEL@),
        rerank_model: variable_value(variables, "NEMOTRON_RERANK_MODEL_ID"@, RERANK_MODEL@),
        embed_url: variable_value(variables, "NVIDIA_EMBED_URL"@, "https://integrate.api.nvidia.com/v1/embeddings"@),
        rerank_url: variable_value(variables, "NVIDIA_RERANK_URL"@, "https://ai.api.nvidia.com/v1/retrieval/nvidia/llama-nemotron-rerank-vl-1b-v2/reranking"@),
        openalex_api_key: variable_value(variables, "OPENALEX_API_KEY"@, ""@),
        semantic_scholar_api_key: variable_value(variables, "SEMANTIC_SCHOLAR_API_KEY"@, ""@),
        contact_email: variable_value(variables, "CONTACT_EMAIL"@, ""@),
        qdrant_url: trimmed_end_of(variable_value(variables, "QDRANT_URL"@, "http://localhost:6333"@), "/"@),
        qdrant_api_key: variable_value(variables, "QDRANT_API_KEY"@, ""@),
        qdrant_collection: variable_value(variables, "QDRANT_COLLECTION"@, "academic_literature_v2"@),
        vector_size: setting_number(variables, NumericVariable::VectorSize)->0 as usize,
        timeout_seconds: setting_number(variables, NumericVariable::Timeout)->0 as u64,
        download_workers: setting_number(variables, NumericVariable::DownloadWorkers)->0 as usize,
        embed_batch_size: setting_number(variables, NumericVariable::EmbedBatch)->0 as usize,
        rerank_batch_size: setting_number(variables, NumericVariable::RerankBatch)->0 as usize,
        render_dpi: setting_number(variables, NumericVariable::RenderDpi)->0 as u16,
        jpeg_quality: setting_number(variables, NumericVariable::JpegQuality)->0 as u8,
        max_pdf_bytes: (setting_number(variables, NumericVariable::MaxPdfMib)->0 * 1_048_576) as u64,
    }
}

/// What is wrong with settings that are all numbers where they have to be.
pub open spec fn range_fault(settings: SettingsView) -> Option<ConfigError> {
    if settings.vector_size != 2048 {
        Some(ConfigError::VectorSize)
    } else if settings.timeout_seconds == 0 {
        Some(ConfigError::NoTimeout)
    } else if settings.download_workers == 0 {
        Some(ConfigError::NoDownloadWorkers)
    } else if settings.embed_batch_size == 0 {
        Some(ConfigError::NoEmbedBatch)
    } else if settings.rerank_batch_size == 0 || settings.rerank_batch_size > 1000 {
        Some(ConfigError::RerankBatch)
    } else if settings.max_pdf_bytes == 0 {
        Some(ConfigError::NoPdfLimit)
    } else if settings.render_dpi == 0 {
        Some(ConfigError::NoRenderDpi)
    } else if settings.jpeg_quality < 1 || settings.jpeg_quality > 100 {
        Some(ConfigError::JpegQuality)
    } else {
        None
    }
}

/// What is wrong with the settings that the variables make.
pub open spec fn settings_fault(variables: Map<Seq<char>, Seq<char>>) -> Option<ConfigError> {
    if setting_number(variables, NumericVariable::MaxPdfMib) is None {
        Some(ConfigError::NotANumber(NumericVariable::MaxPdfMib))
    } else if setting_number(variables, NumericVariable::MaxPdfMib)->0 * 1_048_576
        > 0xffff_ffff_ffff_ffff {
        Some(ConfigError::PdfLimitTooLarge)
    } else if setting_number(variables, NumericVariable::VectorSize) is None {
        Some(ConfigError::NotANumber(NumericVariable::VectorSize))
    } else if setting_number(variables, NumericVariable::Timeout) is None {
        Some(ConfigError::NotANumber(NumericVariable::Timeout))
    } else if setting_number(variables, NumericVariable::DownloadWorkers) is None {
        Some(ConfigError::NotANumber(NumericVariable::DownloadWorkers))
    } else if setting_number(variables, NumericVariable::EmbedBatch) is None {
        Some(ConfigError::NotANumber(NumericVariable::EmbedBatch))
    } else if setting_number(variables, NumericVariable::RerankBatch) is None {
        Some(ConfigError::NotANumber(NumericVariable::RerankBatch))
    } else if setting_number(variables, NumericVariable::RenderDpi) is None {
        Some(ConfigError::NotANumber(NumericVariable::RenderDpi))
    } else if setting_number(variables, NumericVariable::JpegQuality) is None {
        Some(ConfigError::NotANumber(NumericVariable::JpegQuality))
    } else {
        range_fault(settings_of(variables))
    }
}

/// The models can be asked: there is a key for them, and they are those that are known.
pub open spec fn models_usable(settings: SettingsView) -> bool {
    &&& !placeholder_value(settings.nvidia_api_key)
    &&& settings.embed_model == EMBED_MODEL@
    &&& settings.rerank_model == RERANK_MODEL@
}

/// The vector database can be asked: it has an address, and there is a key for it.
pub open spec fn database_usable(settings: SettingsView) -> bool {
    settings.qdrant_url.len() > 0 && !placeholder_value(settings.qdrant_api_key)
}

/// Requests can name a contact.
pub open spec fn contact_known(settings: SettingsView) -> bool {
    trimmed(settings.contact_email).len() > 0 && holds_text(settings.contact_email, "@"@)
}

impl Settings {
    /// The settings that the environment variables make, if they can be used.
    pub fn load(variables: &TextMap<String>) -> (r: Result<Settings, ConfigError>)
        ensures
            match r {
                Ok(settings) => settings_fault(variables@) is None && settings@ == settings_of(
                    variables@,
                ),
                Err(error) => settings_fault(variables@) == Some(error),
            },
    {
        let max_pdf_mib: u64 = match numeric(variables, NumericVariable::MaxPdfMib, 200, 0xffff_ffff_ffff_ffff) {
            Ok(number) => number,
            Err(error) => {
                return Err(error);
            },
        };
        if max_pdf_mib > 0xffff_ffff_ffff_ffff / 1_048_576 {
            return Err(ConfigError::PdfLimitTooLarge);
        }
        let vector_size: u64 = match numeric(variables, NumericVariable::VectorSize, 2048, usize::MAX as u64) {
            Ok(number) => number,
            Err(error) => {
                return Err(error);
            },
        };
        let timeout_seconds: u64 = match numeric(variables, NumericVariable::Timeout, 60, 0xffff_ffff_ffff_ffff) {
            Ok(number) => number,
            Err(error) => {
                return Err(error);
            },
        };
        let download_workers: u64 = match numeric(variables, NumericVariable::DownloadWorkers, 4, usize::MAX as u64) {
            Ok(number) => number,
            Err(error) => {
                return Err(error);
            },
        };
        let embed_batch_size: u64 = match numeric(variables, NumericVariable::EmbedBatch, 4, usize::MAX as u64) {
            Ok(number) => number,
            Err(error) => {
                return Err(error);
            },
        };
        let rerank_batch_size: u64 = match numeric(variables, NumericVariable::RerankBatch, 32, usize::MAX as u64) {
            Ok(number) => number,
            Err(error) => {
                return Err(error);
            },
        };
        let render_dpi: u64 = match numeric(variables, NumericVariable::RenderDpi, 144, 0xffff) {
            Ok(number) => number,
            Err(error) => {
                return Err(error);
            },
        };
        let jpeg_quality: u64 = match numeric(variables, NumericVariable::JpegQuality, 85, 0xff) {
            Ok(number) => number,
            Err(error) => {
                return Err(error);
            },
        };
        let settings = Settings {
            nvidia_api_key: variable(variables, "NVIDIA_API_KEY", ""),
            embed_model: variable(variables, "NEMOTRON_EMBED_MODEL_ID", EMBED_MODEL),
            rerank_model: variable(variables, "NEMOTRON_RERANK_MODEL_ID", RERANK_MODEL),
            embed_url: variable(variables, "NVIDIA_EMBED_URL", "https://integrate.api.nvidia.com/v1/embeddings"),
            rerank_url: variable(variables, "NVIDIA_RERANK_URL", "https://ai.api.nvidia.com/v1/retrieval/nvidia/llama-nemotron-rerank-vl-1b-v2/reranking"),
            openalex_api_key: variable(variables, "OPENALEX_API_KEY", ""),
            semantic_scholar_api_key: variable(variables, "SEMANTIC_SCHOLAR_API_KEY", ""),
            contact_email: variable(variables, "CONTACT_EMAIL", ""),
            qdrant_url: trim_end_of(&variable(variables, "QDRANT_URL", "http://localhost:6333"), "/"),
            qdrant_api_key: variable(variables, "QDRANT_API_KEY", ""),
            qdrant_collection: variable(variables, "QDRANT_COLLECTION", "academic_literature_v2"),
            vector_size: vector_size as usize,
            timeout_seconds,
            download_workers: download_workers as usize,
            embed_batch_size: embed_batch_size as usize,
            rerank_batch_size: rerank_batch_size as usize,
            render_dpi: render_dpi as u16,
            jpeg_quality: jpeg_quality as u8,
            max_pdf_bytes: max_pdf_mib * 1_048_576,
        };
        assert(settings@ =~= settings_of(variables@));
        match settings.validate() {
            Ok(()) => Ok(settings),
            Err(error) => Err(error),
        }
    }

    /// Whether the models of NVIDIA Build can be used.
    pub fn require_nvidia(&self) -> (r: Result<(), ConfigError>)
        ensures
            r == (if placeholder_value(self@.nvidia_api_key) {
                Err::<(), ConfigError>(ConfigError::MissingNvidiaKey)
            } else if self@.embed_model != EMBED_MODEL@ {
                Err(ConfigError::WrongEmbedModel)
            } else if self@.rerank_model != RERANK_MODEL@ {
                Err(ConfigError::WrongRerankModel)
            } else {
                Ok(())
            }),
            r is Ok <==> models_usable(self@),
    {
        if placeholder(&self.nvidia_api_key) {
            return Err(ConfigError::MissingNvidiaKey);
        }
        if !same_text(&self.embed_model, EMBED_MODEL) {
            return Err(ConfigError::WrongEmbedModel);
        }
        if !same_text(&self.rerank_model, RERANK_MODEL) {
            return Err(ConfigError::WrongRerankModel);
        }
        Ok(())
    }

    /// Whether the vector database can be used.
    pub fn require_qdrant(&self) -> (r: Result<(), ConfigError>)
        ensures
            r == (if self@.qdrant_url.len() == 0 {
                Err::<(), ConfigError>(ConfigError::MissingQdrantUrl)
            } else if placeholder_value(self@.qdrant_api_key) {
                if holds_text(self@.qdrant_url, "localhost"@) || holds_text(
                    self@.qdrant_url,
                    "127.0.0.1"@,
                ) {
                    Err(ConfigError::MissingLocalQdrantKey)
                } else {
                    Err(ConfigError::MissingQdrantKey)
                }
            } else {
                Ok(())
            }),
            r is Ok <==> database_usable(self@),
    {
        if self.qdrant_url.as_str().is_empty() {
            return Err(ConfigError::MissingQdrantUrl);
        }
        if placeholder(&self.qdrant_api_key) {
            if contains(&self.qdrant_url, "localhost") || contains(&self.qdrant_url, "127.0.0.1") {
                return Err(ConfigError::MissingLocalQdrantKey);
            }
            return Err(ConfigError::MissingQdrantKey);
        }
        Ok(())
    }

    /// Whether requests can name a contact.
    pub fn require_contact_email(&self) -> (r: Result<(), ConfigError>)
        ensures
            r == (if trimmed(self@.contact_email).len() == 0 || !holds_text(
                self@.contact_email,
                "@"@,
            ) {
                Err::<(), ConfigError>(ConfigError::MissingContactEmail)
            } else {
                Ok(())
            }),
            r is Ok <==> contact_known(self@),
    {
        if is_blank(&self.contact_email) || !contains(&self.contact_email, "@") {
            return Err(ConfigError::MissingContactEmail);
        }
        Ok(())
    }

    /// How many seconds a model or a PDF may take: as long as other requests, and at
    /// least a minute.
    pub fn long_timeout(&self) -> (r: u64)
        ensures
            r == (if self@.timeout_seconds >= 60 {
                self@.timeout_seconds
            } else {
                60
            }),
            60 <= r && self@.timeout_seconds <= r,
            r == 60 || r == self@.timeout_seconds,
    {
        if self.timeout_seconds >= 60 {
            self.timeout_seconds
        } else {
            60
        }
    }

    /// Whether every number is in its range.
    pub fn validate(&self) -> (r: Result<(), ConfigError>)
        ensures
            match r {
                Ok(()) => range_fault(self@) is None,
                Err(error) => range_fault(self@) == Some(error),
            },
    {
        if self.vector_size != 2048 {
            return Err(ConfigError::VectorSize);
        }
        if self.timeout_seconds == 0 {
            return Err(ConfigError::NoTimeout);
        }
        if self.download_workers == 0 {
            return Err(ConfigError::NoDownloadWorkers);
        }
        if self.embed_batch_size == 0 {
            return Err(ConfigError::NoEmbedBatch);
        }
        if self.rerank_batch_size == 0 || self.rerank_batch_size > 1000 {
            return Err(ConfigError::RerankBatch);
        }
        if self.max_pdf_bytes == 0 {
            return Err(ConfigError::NoPdfLimit);
        }
        if self.render_dpi == 0 {
            return Err(ConfigError::NoRenderDpi);
        }
        if self.jpeg_quality < 1 || self.jpeg_quality > 100 {
            return Err(ConfigError::JpegQuality);
        }
        Ok(())
    }
}

} // verus!
