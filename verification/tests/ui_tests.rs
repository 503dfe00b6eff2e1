use hn_reader::models::{Article, Comment};
use hn_reader::ui::{
    flatten_comments, parse_date, strip_html_tags, total_pages, FlatComment, Key, OpenTarget, Ui,
    ViewMode, MAX_COMMENT_DEPTH, MAX_PAGES,
};

fn article(url: Option<&str>) -> Article {
    Article {
        object_id: "1".to_string(),
        title: "Test".to_string(),
        url: url.map(|u| u.to_string()),
        score: 10,
        created_at: "2023-01-01T12:00:00Z".to_string(),
    }
}

fn comment(author: Option<&str>, text: Option<&str>, children: Vec<Comment>) -> Comment {
    Comment {
        author: author.map(|a| a.to_string()),
        text: text.map(|t| t.to_string()),
        created_at: Some("2023-01-01T12:00:00Z".to_string()),
        children,
    }
}

#[test]
fn test_ui_initialization() {
    let ui = Ui::new();

    assert_eq!(ui.selected_index, 0);
    assert_eq!(ui.current_page, 0);
}

#[test]
fn test_selected_index_bounds() {
    let mut ui = Ui::new();

    ui.selected_index = 0;
    let articles = vec![Article {
        object_id: "1".to_string(),
        title: "Test".to_string(),
        url: Some("https://example.com".to_string()),
        score: 10,
        created_at: "2023-01-01T12:00:00Z".to_string(),
    }];

    assert!(ui.selected_index < articles.len());
}

#[test]
fn test_new_ui_shows_story_list() {
    let ui = Ui::new();
    assert_eq!(ui.view_mode, ViewMode::Articles);
    assert!(ui.comments.is_empty());
    assert_eq!(ui.comment_scroll, 0);
    assert_eq!(ui.comment_title, "");
}

#[test]
fn test_strip_html_paragraphs_and_breaks() {
    assert_eq!(strip_html_tags("one<p>two</p>"), "one\ntwo");
    assert_eq!(strip_html_tags("a<br>b<br/>c<br />d"), "a\nb\nc\nd");
}

#[test]
fn test_strip_html_links_keep_text() {
    assert_eq!(
        strip_html_tags("see <a href=\"https://x.org\" rel=\"nofollow\">x.org</a> now"),
        "see x.org now"
    );
}

#[test]
fn test_strip_html_other_tags_and_entities() {
    assert_eq!(strip_html_tags("<i>it&#x27;s</i> &lt;b&gt; &amp; &quot;q&quot;"), "it's <b> & \"q\"");
    assert_eq!(strip_html_tags("a&#x2F;b &#34;c&#34; &#39;d&#39;"), "a/b \"c\" 'd'");
    // entities are decoded in order, so a doubly escaped one decodes twice
    assert_eq!(strip_html_tags("&amp;lt;"), "<");
}

#[test]
fn test_strip_html_unclosed_tag_kept() {
    assert_eq!(strip_html_tags("1 < 2 and more"), "1 < 2 and more");
    assert_eq!(strip_html_tags("x <a href"), "x <a href");
}

#[test]
fn test_strip_html_plain_text_unchanged() {
    let plain = "Nothing to see here: just text, 100% plain.";
    assert_eq!(strip_html_tags(plain), plain);
    assert_eq!(strip_html_tags(""), "");
}

#[test]
fn test_parse_date_formats() {
    assert_eq!(parse_date("2023-01-01T12:00:00Z"), "01/01/2023");
    assert_eq!(parse_date("2024-11-19"), "11/19/2024");
    assert_eq!(parse_date("2024-11-19-extra"), "11/19/2024");
}

#[test]
fn test_parse_date_unparsable_kept() {
    assert_eq!(parse_date("yesterday"), "yesterday");
    assert_eq!(parse_date("2024-11T10:00"), "2024-11T10:00");
    assert_eq!(parse_date(""), "");
}

#[test]
fn test_flatten_comments_preorder_and_defaults() {
    let thread = vec![
        comment(Some("alice"), Some("<p>hi</p>"), vec![comment(None, None, vec![])]),
        comment(Some("bob"), Some("yo"), vec![]),
    ];
    let flat: Vec<FlatComment> = flatten_comments(&thread, 0);
    assert_eq!(flat.len(), 3);
    assert_eq!((flat[0].depth, flat[0].author.as_str(), flat[0].text.as_str()), (0, "alice", "\nhi"));
    assert_eq!((flat[1].depth, flat[1].author.as_str(), flat[1].text.as_str()), (1, "[deleted]", "[deleted]"));
    assert_eq!((flat[2].depth, flat[2].author.as_str()), (0, "bob"));
    assert_eq!(flat[2].created_at, "2023-01-01T12:00:00Z");
}

#[test]
fn test_flatten_comments_missing_date_is_empty() {
    let c = Comment { author: Some("a".to_string()), text: Some("t".to_string()), created_at: None, children: vec![] };
    let flat = flatten_comments(&[c], 3);
    assert_eq!(flat.len(), 1);
    assert_eq!(flat[0].depth, 3);
    assert_eq!(flat[0].created_at, "");
}

#[test]
fn test_flatten_comments_hides_replies_past_limit() {
    let deep = comment(
        Some("limit"),
        Some("at the limit"),
        vec![comment(Some("r1"), Some("x"), vec![]), comment(Some("r2"), Some("y"), vec![])],
    );
    let flat = flatten_comments(&[deep], MAX_COMMENT_DEPTH);
    assert_eq!(flat.len(), 2);
    assert_eq!(flat[1].depth, MAX_COMMENT_DEPTH + 1);
    assert_eq!(flat[1].author, "");
    assert_eq!(flat[1].text, "[2 more replies hidden]");
    assert_eq!(flat[1].created_at, "");
}

#[test]
fn test_flatten_comments_depth_bounded() {
    let mut tree = comment(Some("leaf"), Some("leaf"), vec![comment(Some("x"), None, vec![])]);
    for i in 0..12 {
        tree = comment(Some(&format!("c{}", i)), Some("t"), vec![tree]);
    }
    let flat = flatten_comments(&[tree], 0);
    assert!(flat.iter().all(|f| f.depth <= MAX_COMMENT_DEPTH + 1));
    assert_eq!(flat.iter().filter(|f| f.depth == 0).count(), 1);
    assert_eq!(flat.len(), MAX_COMMENT_DEPTH + 2);
    assert_eq!(flat.last().unwrap().text, "[1 more replies hidden]");
}

#[test]
fn test_handle_key_selection_moves_within_list() {
    let mut ui = Ui::new();
    assert_eq!(ui.handle_key(Key::Up, 3, 5), '\0');
    assert_eq!(ui.selected_index, 0);
    assert_eq!(ui.handle_key(Key::Down, 3, 5), '\0');
    assert_eq!(ui.handle_key(Key::Down, 3, 5), '\0');
    assert_eq!(ui.selected_index, 2);
    assert_eq!(ui.handle_key(Key::Down, 3, 5), '\0');
    assert_eq!(ui.selected_index, 2);
    assert_eq!(ui.handle_key(Key::Up, 3, 5), '\0');
    assert_eq!(ui.selected_index, 1);
    // with no stories the selection stays put
    let mut empty = Ui::new();
    assert_eq!(empty.handle_key(Key::Down, 0, 5), '\0');
    assert_eq!(empty.selected_index, 0);
}

#[test]
fn test_handle_key_pages() {
    let mut ui = Ui::new();
    ui.selected_index = 4;
    assert_eq!(ui.handle_key(Key::Left, 10, 3), '\0');
    assert_eq!((ui.current_page, ui.selected_index), (0, 4));
    assert_eq!(ui.handle_key(Key::Right, 10, 3), 'n');
    assert_eq!((ui.current_page, ui.selected_index), (1, 0));
    assert_eq!(ui.handle_key(Key::Right, 10, 3), 'n');
    assert_eq!(ui.handle_key(Key::Right, 10, 3), '\0');
    assert_eq!(ui.current_page, 2);
    ui.selected_index = 7;
    assert_eq!(ui.handle_key(Key::Left, 10, 3), 'p');
    assert_eq!((ui.current_page, ui.selected_index), (1, 0));
    // with no pages there is nowhere to go
    let mut none = Ui::new();
    assert_eq!(none.handle_key(Key::Right, 10, 0), '\0');
    assert_eq!(none.current_page, 0);
}

#[test]
fn test_handle_key_commands() {
    let mut ui = Ui::new();
    assert_eq!(ui.handle_key(Key::Char('q'), 1, 1), 'q');
    assert_eq!(ui.handle_key(Key::Char('r'), 1, 1), 'r');
    assert_eq!(ui.handle_key(Key::Char('c'), 1, 1), 'c');
    assert_eq!(ui.handle_key(Key::Enter, 1, 1), 'l');
    assert_eq!(ui.handle_key(Key::Char('x'), 1, 1), '\0');
    assert_eq!(ui.handle_key(Key::Esc, 1, 1), '\0');
    assert_eq!(ui.handle_key(Key::Other, 1, 1), '\0');
    assert_eq!(ui.view_mode, ViewMode::Articles);
}

#[test]
fn test_handle_key_comment_view() {
    let mut ui = Ui::new();
    ui.view_mode = ViewMode::Comments;
    ui.comments = flatten_comments(&[comment(Some("a"), Some("b"), vec![])], 0);
    ui.comment_title = "A story".to_string();
    ui.selected_index = 3;
    ui.current_page = 2;
    assert_eq!(ui.handle_key(Key::Up, 10, 5), '\0');
    assert_eq!(ui.comment_scroll, 0);
    assert_eq!(ui.handle_key(Key::Down, 10, 5), '\0');
    assert_eq!(ui.handle_key(Key::Char('j'), 10, 5), '\0');
    assert_eq!(ui.comment_scroll, 2);
    assert_eq!(ui.handle_key(Key::Char('k'), 10, 5), '\0');
    assert_eq!(ui.comment_scroll, 1);
    assert_eq!(ui.handle_key(Key::PageDown, 10, 5), '\0');
    assert_eq!(ui.comment_scroll, 21);
    assert_eq!(ui.handle_key(Key::PageUp, 10, 5), '\0');
    assert_eq!(ui.comment_scroll, 1);
    assert_eq!(ui.handle_key(Key::PageUp, 10, 5), '\0');
    assert_eq!(ui.comment_scroll, 0);
    assert_eq!(ui.handle_key(Key::Right, 10, 5), '\0');
    assert_eq!(ui.handle_key(Key::Char('c'), 10, 5), '\0');
    assert_eq!(ui.handle_key(Key::Char('q'), 10, 5), 'q');
    assert_eq!((ui.selected_index, ui.current_page), (3, 2));
    assert_eq!(ui.comment_title, "A story");
    ui.comment_scroll = 6;
    assert_eq!(ui.handle_key(Key::Backspace, 10, 5), 'b');
    assert_eq!(ui.view_mode, ViewMode::Articles);
    assert!(ui.comments.is_empty());
    assert_eq!(ui.comment_scroll, 0);
    assert_eq!((ui.selected_index, ui.current_page), (3, 2));
}

#[test]
fn test_down_then_up_and_right_then_left_undo() {
    let mut ui = Ui::new();
    ui.selected_index = 2;
    ui.current_page = 1;
    ui.handle_key(Key::Down, 10, 4);
    ui.handle_key(Key::Up, 10, 4);
    assert_eq!((ui.selected_index, ui.current_page), (2, 1));
    ui.handle_key(Key::Right, 10, 4);
    ui.handle_key(Key::Left, 10, 4);
    assert_eq!((ui.selected_index, ui.current_page), (0, 1));
}

#[test]
fn test_open_target() {
    let mut ui = Ui::new();
    let articles = vec![article(Some("https://example.com")), article(None)];
    match ui.open_target(&articles) {
        OpenTarget::Url(u) => assert_eq!(u, "https://example.com"),
        other => panic!("unexpected {:?}", other),
    }
    ui.selected_index = 1;
    assert!(matches!(ui.open_target(&articles), OpenTarget::NoUrl));
    ui.selected_index = 2;
    assert!(matches!(ui.open_target(&articles), OpenTarget::NoSelection));
    assert!(matches!(Ui::new().open_target(&[]), OpenTarget::NoSelection));
}

#[test]
fn test_handle_key_letter_bindings() {
    let mut ui = Ui::new();
    assert_eq!(ui.handle_key(Key::Char('j'), 4, 3), '\0');
    assert_eq!(ui.handle_key(Key::Char('j'), 4, 3), '\0');
    assert_eq!(ui.selected_index, 2);
    assert_eq!(ui.handle_key(Key::Char('k'), 4, 3), '\0');
    assert_eq!(ui.selected_index, 1);
    assert_eq!(ui.handle_key(Key::Char('l'), 4, 3), 'n');
    assert_eq!((ui.current_page, ui.selected_index), (1, 0));
    assert_eq!(ui.handle_key(Key::Char('h'), 4, 3), 'p');
    assert_eq!(ui.current_page, 0);
    assert_eq!(ui.handle_key(Key::Char('h'), 4, 3), '\0');
}

#[test]
fn test_total_pages_capped() {
    assert_eq!(total_pages(0), 0);
    assert_eq!(total_pages(7), 7);
    assert_eq!(total_pages(50), 50);
    assert_eq!(total_pages(u32::MAX), MAX_PAGES);
    let mut ui = Ui::new();
    ui.current_page = 48;
    assert_eq!(ui.handle_key(Key::Right, 20, total_pages(900)), 'n');
    assert_eq!(ui.current_page, 49);
    assert_eq!(ui.handle_key(Key::Right, 20, total_pages(900)), '\0');
    assert_eq!(ui.current_page, 49);
}

#[test]
fn test_show_comments_then_back() {
    let mut ui = Ui::new();
    ui.selected_index = 3;
    ui.current_page = 2;
    ui.comment_scroll = 9;
    let thread = vec![comment(Some("ann"), Some("a &amp; b"), vec![comment(Some("ben"), None, vec![])])];
    ui.show_comments("Story title".to_string(), &thread);
    assert_eq!(ui.view_mode, ViewMode::Comments);
    assert_eq!(ui.comment_title, "Story title");
    assert_eq!(ui.comment_scroll, 0);
    assert_eq!(ui.comments.len(), 2);
    assert_eq!(ui.comments[0].text, "a & b");
    assert_eq!((ui.comments[1].depth, ui.comments[1].author.as_str()), (1, "ben"));
    assert_eq!(ui.handle_key(Key::Esc, 10, 5), 'b');
    assert_eq!(ui.view_mode, ViewMode::Articles);
    assert!(ui.comments.is_empty());
    assert_eq!((ui.selected_index, ui.current_page), (3, 2));
}
