use rainbow_docs::installer::{install_precheck, InstallationChecker, InstallationStatus, InstallationWizard};
use rainbow_docs::stats::{document_stats_report, search_stats_report};
use rainbow_docs::embedding::{EmbeddingConfig, EmbeddingProvider};

#[test]
fn installation_status_and_installer() {
    let status = InstallationChecker::status_from(None, true);
    assert!(!status.is_installed);
    assert!(InstallationChecker::should_show_installer(&status));
    let marker = InstallationStatus {
        is_installed: false,
        config_exists: false,
        database_initialized: true,
        admin_created: true,
        install_time: Some(1),
    };
    let status = InstallationChecker::status_from(Some(marker.clone()), true);
    assert!(status.is_installed);
    assert!(!InstallationChecker::should_show_installer(&status));
    assert!(install_precheck(&status).is_some());
    let status = InstallationChecker::status_from(Some(marker), false);
    assert!(!status.is_installed);
    assert!(install_precheck(&status).is_none());
}

#[test]
fn wizard_steps() {
    let steps = InstallationWizard::get_steps();
    assert_eq!(steps.len(), 5);
    assert_eq!(steps[0].title, "环境检查");
    assert_eq!(steps[4].step, 5);
    assert!(steps.iter().all(|s| !s.completed));
    assert_eq!(InstallationWizard::find_step(&steps, 3), Some(2));
    assert_eq!(InstallationWizard::find_step(&steps, 9), None);
}

#[test]
fn sample_statistics() {
    let s = search_stats_report();
    assert_eq!(s.total_documents, 156);
    assert_eq!(s.most_searched_terms[0].term, "API documentation");
    assert_eq!(s.recent_searches.len(), 2);
    let d = document_stats_report();
    assert_eq!(d.total_spaces, 12);
    assert_eq!(d.most_active_spaces[1].space_name, "User Guides");
}

#[test]
fn embedding_provider_choice() {
    let mut c = EmbeddingConfig {
        provider: "openai".to_string(),
        api_key: String::new(),
        api_base_url: "https://api.openai.com/v1".to_string(),
        model: "text-embedding-3-small".to_string(),
        dimension: 1536,
    };
    assert_eq!(c.provider_for("hello").unwrap(), EmbeddingProvider::OpenAi);
    assert!(c.provider_for("   ").is_err());
    assert_eq!(c.requested_dimensions(), Some(1536));
    c.model = "text-embedding-ada-002".to_string();
    assert_eq!(c.requested_dimensions(), None);
    c.provider = "other".to_string();
    let e = c.provider_for("hello").unwrap_err();
    assert_eq!(e.public_message(), "Unsupported embedding provider: other");
}

#[test]
fn text_is_cleaned_for_embedding() {
    let text = "# Title\n\nSome **bold** and `code` text.\n```\nblock\n```\nEnd";
    assert_eq!(rainbow_docs::embedding::preprocess_text(text).unwrap(), "Title Some bold and text. End");
    let linked = "See [the docs](http://x) and ![pic](a.png) _now_";
    assert_eq!(rainbow_docs::embedding::preprocess_text(linked).unwrap(), "See and now");
}
