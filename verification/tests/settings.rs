//! Settings, and how often requests are made.

use litmine::config::{placeholder, ConfigError, NumericVariable, Settings};
use litmine::retry::{
    after_reply, download_policy, first_attempt, model_policy, source_policy, Reply, RetryAction,
    RetryState,
};
use litmine::table::TextMap;

fn variables(pairs: &[(&str, &str)]) -> TextMap<String> {
    let mut map = TextMap::new();
    for (name, value) in pairs {
        map.insert(name.to_string(), value.to_string());
    }
    map
}

fn loaded(pairs: &[(&str, &str)]) -> Settings {
    Settings::load(&variables(pairs)).unwrap()
}

#[test]
fn settings_have_defaults() {
    let settings = loaded(&[]);
    assert_eq!(settings.max_pdf_bytes, 200 * 1024 * 1024);
    assert_eq!(settings.vector_size, 2048);
    assert_eq!(settings.timeout_seconds, 60);
    assert_eq!(settings.long_timeout(), 60);
    assert_eq!(settings.download_workers, 4);
    assert_eq!(settings.embed_batch_size, 4);
    assert_eq!(settings.rerank_batch_size, 32);
    assert_eq!(settings.render_dpi, 144);
    assert_eq!(settings.jpeg_quality, 85);
    assert_eq!(settings.qdrant_url, "http://localhost:6333");
    assert_eq!(settings.qdrant_collection, "academic_literature_v2");
    assert_eq!(settings.embed_url, "https://integrate.api.nvidia.com/v1/embeddings");
    assert!(settings.nvidia_api_key.is_empty());
}

#[test]
fn settings_are_read_and_trimmed() {
    let settings = loaded(&[
        ("QDRANT_URL", " https://qdrant.example//"),
        ("MAX_PDF_MIB", "1"),
        ("CONTACT_EMAIL", " me@example.org "),
        ("PDF_JPEG_QUALITY", "100"),
    ]);
    assert_eq!(settings.qdrant_url, "https://qdrant.example");
    assert_eq!(settings.max_pdf_bytes, 1024 * 1024);
    assert_eq!(settings.contact_email, "me@example.org");
    assert_eq!(settings.jpeg_quality, 100);
    assert_eq!(loaded(&[("HTTP_TIMEOUT_SECONDS", "5")]).long_timeout(), 60);
    assert_eq!(loaded(&[("HTTP_TIMEOUT_SECONDS", "90")]).long_timeout(), 90);
}

#[test]
fn faulty_settings_are_named() {
    let fault = |name: &str, value: &str| Settings::load(&variables(&[(name, value)])).unwrap_err();
    assert!(matches!(
        fault("MAX_PDF_MIB", "many"),
        ConfigError::NotANumber(NumericVariable::MaxPdfMib)
    ));
    assert_eq!(
        fault("HTTP_TIMEOUT_SECONDS", "x").message(),
        "HTTP_TIMEOUT_SECONDS must be a valid positive number"
    );
    assert!(matches!(
        fault("MAX_PDF_MIB", "18446744073709551615"),
        ConfigError::PdfLimitTooLarge
    ));
    assert!(matches!(
        fault("QDRANT_VECTOR_SIZE", "1024"),
        ConfigError::VectorSize
    ));
    assert!(matches!(fault("HTTP_TIMEOUT_SECONDS", "0"), ConfigError::NoTimeout));
    assert!(matches!(fault("DOWNLOAD_WORKERS", "0"), ConfigError::NoDownloadWorkers));
    assert!(matches!(fault("NVIDIA_EMBED_BATCH_SIZE", "0"), ConfigError::NoEmbedBatch));
    assert!(matches!(fault("NVIDIA_RERANK_BATCH_SIZE", "1001"), ConfigError::RerankBatch));
    assert!(matches!(fault("MAX_PDF_MIB", "0"), ConfigError::NoPdfLimit));
    assert!(matches!(fault("PDF_RENDER_DPI", "0"), ConfigError::NoRenderDpi));
    assert!(matches!(fault("PDF_JPEG_QUALITY", "101"), ConfigError::JpegQuality));
    assert!(matches!(
        fault("PDF_JPEG_QUALITY", "256"),
        ConfigError::NotANumber(NumericVariable::JpegQuality)
    ));
}

#[test]
fn keys_are_required_where_they_are_used() {
    let bare = loaded(&[]);
    assert!(matches!(bare.require_nvidia(), Err(ConfigError::MissingNvidiaKey)));
    assert!(matches!(bare.require_qdrant(), Err(ConfigError::MissingLocalQdrantKey)));
    assert!(matches!(bare.require_contact_email(), Err(ConfigError::MissingContactEmail)));
    let remote = loaded(&[("QDRANT_URL", "https://qdrant.example")]);
    assert!(matches!(remote.require_qdrant(), Err(ConfigError::MissingQdrantKey)));
    let nowhere = loaded(&[("QDRANT_URL", "/")]);
    assert!(matches!(nowhere.require_qdrant(), Err(ConfigError::MissingQdrantUrl)));
    let wrong = loaded(&[("NVIDIA_API_KEY", "key"), ("NEMOTRON_EMBED_MODEL_ID", "other")]);
    assert!(matches!(wrong.require_nvidia(), Err(ConfigError::WrongEmbedModel)));
    let wrong = loaded(&[("NVIDIA_API_KEY", "key"), ("NEMOTRON_RERANK_MODEL_ID", "other")]);
    assert!(matches!(wrong.require_nvidia(), Err(ConfigError::WrongRerankModel)));
    let full = loaded(&[
        ("NVIDIA_API_KEY", "key"),
        ("QDRANT_API_KEY", "secret"),
        ("CONTACT_EMAIL", "me@example.org"),
    ]);
    assert!(full.require_nvidia().is_ok());
    assert!(full.require_qdrant().is_ok());
    assert!(full.require_contact_email().is_ok());
    assert!(placeholder("REPLACE-ME") && placeholder("") && !placeholder("key"));
}

#[test]
fn tables_keep_one_value_for_a_key() {
    let mut map = variables(&[("b", "1"), ("a", "2"), ("b", "3")]);
    assert_eq!(map.get("b").unwrap(), "3");
    assert!(map.get("c").is_none());
    map.extend(variables(&[("c", "4"), ("a", "5")]));
    let mut entries = map.into_entries();
    entries.sort();
    assert_eq!(
        entries,
        [
            ("a".to_owned(), "5".to_owned()),
            ("b".to_owned(), "3".to_owned()),
            ("c".to_owned(), "4".to_owned()),
        ]
    );
}

#[test]
fn overloaded_servers_are_asked_again() {
    let overloaded = Reply::Answered { status: 429, retry_after: Some("7".into()) };
    assert_eq!(
        after_reply(&model_policy(), &first_attempt(), &overloaded),
        RetryAction::Wait { seconds: 7, next: Some(RetryState { attempt: 1, delay: 2 }) }
    );
    let patient = Reply::Answered { status: 503, retry_after: Some("3600".into()) };
    assert_eq!(
        after_reply(&model_policy(), &first_attempt(), &patient),
        RetryAction::Wait { seconds: 60, next: Some(RetryState { attempt: 1, delay: 2 }) }
    );
    assert_eq!(
        after_reply(&download_policy(), &first_attempt(), &overloaded),
        RetryAction::Wait { seconds: 1, next: Some(RetryState { attempt: 1, delay: 2 }) }
    );
    let last = RetryState { attempt: 3, delay: 8 };
    assert_eq!(
        after_reply(&download_policy(), &last, &overloaded),
        RetryAction::Wait { seconds: 8, next: None }
    );
    assert_eq!(after_reply(&download_policy(), &last, &Reply::Failed), RetryAction::GiveUp);
}

#[test]
fn answers_are_taken_or_rejected() {
    let fine = Reply::Answered { status: 200, retry_after: None };
    let gone = Reply::Answered { status: 404, retry_after: None };
    assert_eq!(after_reply(&download_policy(), &first_attempt(), &fine), RetryAction::Accept);
    assert_eq!(after_reply(&download_policy(), &first_attempt(), &gone), RetryAction::Reject);
    assert_eq!(after_reply(&source_policy(), &first_attempt(), &gone), RetryAction::Accept);
    assert_eq!(after_reply(&model_policy(), &first_attempt(), &gone), RetryAction::Reject);
}

#[test]
fn attempts_and_waits_are_bounded() {
    for policy in [source_policy(), model_policy(), download_policy()] {
        let mut state = Some(first_attempt());
        let mut attempts = 0;
        while let Some(current) = state {
            attempts += 1;
            assert!(current.delay <= policy.longest_delay);
            state = match after_reply(
                &policy,
                &current,
                &Reply::Answered { status: 500, retry_after: None },
            ) {
                RetryAction::Wait { seconds, next } => {
                    assert!(seconds <= 60);
                    next
                }
                _ => panic!("a server in trouble is asked again"),
            };
        }
        assert_eq!(attempts, policy.attempts);
    }
}
