use hn_reader::models::{sort_by_score_desc, ApiResponse, Article};

#[test]
fn test_article_creation() {
    let article = Article {
        object_id: "123".to_string(),
        title: "Test Article".to_string(),
        url: Some("https://example.com".to_string()),
        score: 100,
        created_at: "2023-01-01T12:00:00Z".to_string(),
    };

    assert_eq!(article.object_id, "123");
    assert_eq!(article.title, "Test Article");
    assert_eq!(article.url, Some("https://example.com".to_string()));
    assert_eq!(article.score, 100);
    assert_eq!(article.created_at, "2023-01-01T12:00:00Z");
}

#[test]
fn test_article_without_url() {
    let article = Article {
        object_id: "456".to_string(),
        title: "Test Article Without URL".to_string(),
        url: None,
        score: 50,
        created_at: "2023-01-01T12:00:00Z".to_string(),
    };

    assert_eq!(article.object_id, "456");
    assert_eq!(article.title, "Test Article Without URL");
    assert_eq!(article.url, None);
    assert_eq!(article.score, 50);
    assert_eq!(article.created_at, "2023-01-01T12:00:00Z");
}

#[test]
fn test_api_response_creation() {
    let articles = vec![Article {
        object_id: "1".to_string(),
        title: "Article 1".to_string(),
        url: Some("https://example1.com".to_string()),
        score: 10,
        created_at: "2023-01-01T12:00:00Z".to_string(),
    }];

    let response = ApiResponse {
        hits: articles,
        nb_hits: 1,
        page: 0,
        nb_pages: 5,
        hits_per_page: 20,
    };

    assert_eq!(response.nb_hits, 1);
    assert_eq!(response.page, 0);
    assert_eq!(response.nb_pages, 5);
    assert_eq!(response.hits_per_page, 20);
    assert_eq!(response.hits.len(), 1);
    assert_eq!(response.hits[0].title, "Article 1");
}

#[test]
fn test_article_with_empty_fields() {
    let article = Article {
        object_id: "empty_title".to_string(),
        title: "".to_string(),
        url: None,
        score: 0,
        created_at: "2023-01-01T12:00:00Z".to_string(),
    };

    assert_eq!(article.object_id, "empty_title");
    assert_eq!(article.title, "");
    assert_eq!(article.url, None);
    assert_eq!(article.score, 0);
    assert_eq!(article.created_at, "2023-01-01T12:00:00Z");
}

#[test]
fn test_api_response_edge_cases() {
    let empty_response = ApiResponse {
        hits: vec![],
        nb_hits: 0,
        page: 0,
        nb_pages: 0,
        hits_per_page: 0,
    };

    assert_eq!(empty_response.hits.len(), 0);
    assert_eq!(empty_response.nb_hits, 0);
    assert_eq!(empty_response.nb_pages, 0);
    assert_eq!(empty_response.hits_per_page, 0);

    let max_response = ApiResponse {
        hits: vec![],
        nb_hits: u32::MAX,
        page: u32::MAX,
        nb_pages: u32::MAX,
        hits_per_page: u32::MAX,
    };

    assert_eq!(max_response.nb_hits, u32::MAX);
    assert_eq!(max_response.page, u32::MAX);
    assert_eq!(max_response.nb_pages, u32::MAX);
    assert_eq!(max_response.hits_per_page, u32::MAX);
}

fn story(id: &str, score: i32) -> Article {
    Article {
        object_id: id.to_string(),
        title: format!("Story {}", id),
        url: None,
        score,
        created_at: "2024-05-06T07:08:09Z".to_string(),
    }
}

#[test]
fn test_sort_by_score_highest_first() {
    let mut stories = vec![story("a", 5), story("b", 40), story("c", -3), story("d", 12)];
    sort_by_score_desc(&mut stories);
    let ids: Vec<&str> = stories.iter().map(|a| a.object_id.as_str()).collect();
    assert_eq!(ids, vec!["b", "d", "a", "c"]);
}

#[test]
fn test_sort_by_score_keeps_order_of_ties() {
    let mut stories = vec![
        story("a", 7),
        story("b", 9),
        story("c", 7),
        story("d", 9),
        story("e", 7),
    ];
    sort_by_score_desc(&mut stories);
    let ids: Vec<&str> = stories.iter().map(|a| a.object_id.as_str()).collect();
    assert_eq!(ids, vec!["b", "d", "a", "c", "e"]);
}

#[test]
fn test_sort_empty_and_single() {
    let mut none: Vec<Article> = vec![];
    sort_by_score_desc(&mut none);
    assert!(none.is_empty());
    let mut one = vec![story("x", i32::MIN)];
    sort_by_score_desc(&mut one);
    assert_eq!(one.len(), 1);
    assert_eq!(one[0].object_id, "x");
}
