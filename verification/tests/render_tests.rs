use hn_reader::models::Article;
use hn_reader::render::{
    article_line, comment_lines, comments_footer, loading_message, page_title, LineKind,
};
use hn_reader::ui::{FlatComment, Ui};

fn flat(depth: usize, author: &str, text: &str, created_at: &str) -> FlatComment {
    FlatComment {
        depth,
        author: author.to_string(),
        text: text.to_string(),
        created_at: created_at.to_string(),
    }
}

fn story(title: &str, score: i32) -> Article {
    Article {
        object_id: "9".to_string(),
        title: title.to_string(),
        url: None,
        score,
        created_at: "2023-01-01T12:00:00Z".to_string(),
    }
}

#[test]
fn test_loading_message() {
    assert_eq!(loading_message(0), "Loading page 1...");
    assert_eq!(loading_message(41), "Loading page 42...");
}

#[test]
fn test_page_title() {
    assert_eq!(page_title(0, 50), "Hacker News Top Stories \u{2014} Page 1 / 50");
    assert_eq!(page_title(49, 50), "Hacker News Top Stories \u{2014} Page 50 / 50");
}

#[test]
fn test_comments_footer() {
    assert_eq!(
        comments_footer(12),
        "Commands: \u{2191}\u{2193}/j k Scroll | Esc/Backspace Back | 12 comments"
    );
}

#[test]
fn test_article_line() {
    assert_eq!(
        article_line(21, &story("Rust 2.0", 314), true),
        "> 21. Rust 2.0 (Score: 314, Date: 01/01/2023)"
    );
    assert_eq!(
        article_line(3, &story("Down", -2), false),
        "  3. Down (Score: -2, Date: 01/01/2023)"
    );
}

#[test]
fn test_article_lines_number_across_pages() {
    let mut ui = Ui::new();
    ui.current_page = 2;
    ui.selected_index = 1;
    let lines = ui.article_lines(&[story("a", 1), story("b", 2)]);
    assert_eq!(
        lines,
        vec![
            "  41. a (Score: 1, Date: 01/01/2023)".to_string(),
            "> 42. b (Score: 2, Date: 01/01/2023)".to_string(),
        ]
    );
    assert!(Ui::new().article_lines(&[]).is_empty());
}

#[test]
fn test_comment_lines() {
    let comments = vec![
        flat(0, "alice", "first\r\nsecond\n", "2023-02-03T04:05:06Z"),
        flat(1, "bob", "", ""),
        flat(2, "", "[3 more replies hidden]", ""),
    ];
    let lines = comment_lines(&comments);
    let got: Vec<(LineKind, &str)> = lines.iter().map(|l| (l.kind, l.text.as_str())).collect();
    assert_eq!(
        got,
        vec![
            (LineKind::Header, "alice \u{2014} 02/03/2023"),
            (LineKind::Body, "first"),
            (LineKind::Body, "second"),
            (LineKind::Blank, ""),
            (LineKind::Header, "  bob \u{2014} "),
            (LineKind::Blank, ""),
            (LineKind::Hidden, "    [3 more replies hidden]"),
            (LineKind::Blank, ""),
        ]
    );
}
