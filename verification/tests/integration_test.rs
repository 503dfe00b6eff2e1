//! Integration tests for the Hacker News reader library.

use hn_reader::{models, ui};

/// Test UI initialization and basic functionality
#[test]
fn test_ui_basic_functionality() {
    let ui = ui::Ui::new();

    assert_eq!(ui.selected_index, 0);
    assert_eq!(ui.current_page, 0);
}

/// Test pagination bounds
#[test]
fn test_pagination_bounds() {
    let mut ui = ui::Ui::new();

    assert_eq!(ui.current_page, 0);

    ui.current_page = 49;
    assert_eq!(ui.current_page, 49);

    ui.selected_index = 5;
    ui.current_page = 1;
    ui.selected_index = 0;
    assert_eq!(ui.selected_index, 0);
    assert_eq!(ui.current_page, 1);
}

/// Test Article model creation
#[test]
fn test_article_model() {
    let article = models::Article {
        object_id: "test_id".to_string(),
        title: "Test Title".to_string(),
        url: Some("https://example.com".to_string()),
        score: 100,
        created_at: "2023-01-01T12:00:00Z".to_string(),
    };

    assert_eq!(article.object_id, "test_id");
    assert_eq!(article.title, "Test Title");
    assert_eq!(article.url, Some("https://example.com".to_string()));
    assert_eq!(article.score, 100);
    assert_eq!(article.created_at, "2023-01-01T12:00:00Z");

    let article_no_url = models::Article {
        object_id: "test_id_2".to_string(),
        title: "Test Title 2".to_string(),
        url: None,
        score: 50,
        created_at: "2023-01-01T12:00:00Z".to_string(),
    };

    assert_eq!(article_no_url.url, None);
    assert_eq!(article_no_url.score, 50);
    assert_eq!(article_no_url.created_at, "2023-01-01T12:00:00Z");
}

/// Test ApiResponse model
#[test]
fn test_api_response_model() {
    let articles = vec![models::Article {
        object_id: "1".to_string(),
        title: "Article 1".to_string(),
        url: Some("https://example1.com".to_string()),
        score: 10,
        created_at: "2023-01-01T12:00:00Z".to_string(),
    }];

    let response = models::ApiResponse {
        hits: articles,
        nb_hits: 1,
        page: 0,
        nb_pages: 5,
        hits_per_page: 20,
    };

    assert_eq!(response.nb_hits, 1);
    assert_eq!(response.page, 0);
    assert_eq!(response.nb_pages, 5);
    assert_eq!(response.hits_per_page, 20);
    assert_eq!(response.hits.len(), 1);
    assert_eq!(response.hits[0].title, "Article 1");
    assert_eq!(response.hits[0].created_at, "2023-01-01T12:00:00Z");
}
