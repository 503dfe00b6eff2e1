//! The reader's state and its rules: HTML cleanup of comment text, the
//! flattening of comment trees, date display, and how key presses move the
//! selection, the page and the comment view.
use vstd::prelude::*;
use crate::models::{Article, Comment};
use crate::text::{
    chars_of, decimal, find_chars, lacks, law_replace_absent_is_identity,
    law_strip_absent_is_identity, lemma_replace_past_prefix, lemma_split_step,
    lemma_strip_past_prefix, push_char, push_decimal, push_str_chars, replace_all, replace_chars,
    slice_chars, split_on, string_of, strip_tags, strip_tags_chars,
};

verus! {

// ---------------------------------------------------------------------
// Comment text
// ---------------------------------------------------------------------

/// Paragraph and line-break markup turned into line breaks.
pub open spec fn markup_to_breaks(s: Seq<char>) -> Seq<char> {
    let s = replace_all(s, seq!['<', 'p', '>'], seq!['\n']);
    let s = replace_all(s, seq!['<', '/', 'p', '>'], seq![]);
    let s = replace_all(s, seq!['<', 'b', 'r', '>'], seq!['\n']);
    let s = replace_all(s, seq!['<', 'b', 'r', '/', '>'], seq!['\n']);
    replace_all(s, seq!['<', 'b', 'r', ' ', '/', '>'], seq!['\n'])
}

/// Link markup removed, the link text kept.
pub open spec fn strip_links(s: Seq<char>) -> Seq<char> {
    replace_all(strip_tags(s, seq!['<', 'a', ' ']), seq!['<', '/', 'a', '>'], seq![])
}

/// The common HTML character references decoded, in this order.
pub open spec fn decode_entities(s: Seq<char>) -> Seq<char> {
    let s = replace_all(s, seq!['&', '#', 'x', '2', '7', ';'], seq!['\'']);
    let s = replace_all(s, seq!['&', '#', 'x', '2', 'F', ';'], seq!['/']);
    let s = replace_all(s, seq!['&', 'a', 'm', 'p', ';'], seq!['&']);
    let s = replace_all(s, seq!['&', 'l', 't', ';'], seq!['<']);
    let s = replace_all(s, seq!['&', 'g', 't', ';'], seq!['>']);
    let s = replace_all(s, seq!['&', 'q', 'u', 'o', 't', ';'], seq!['"']);
    let s = replace_all(s, seq!['&', '#', '3', '4', ';'], seq!['"']);
    replace_all(s, seq!['&', '#', '3', '9', ';'], seq!['\''])
}

/// The plain text of a comment's HTML: breaks for paragraphs and `<br>`,
/// links reduced to their text, every other tag removed, entities decoded.
pub open spec fn html_to_text(s: Seq<char>) -> Seq<char> {
    decode_entities(strip_tags(strip_links(markup_to_breaks(s)), seq!['<']))
}

/// One replacement step of `strip_html_tags`.
fn replace_step(s: Vec<char>, pat: Vec<char>, rep: Vec<char>) -> (res: Vec<char>)
    requires
        pat@.len() > 0,
    ensures
        res@ == replace_all(s@, pat@, rep@),
{
    replace_chars(&s, &pat, &rep)
}

/// The plain text of a comment given in HTML, as `html_to_text` describes.
pub fn strip_html_tags(input: &str) -> (res: String)
    ensures
        res@ == html_to_text(input@),
{
    let s = chars_of(input);
    let (pat, rep) = (vec!['<', 'p', '>'], vec!['\n']);
    assert(pat@ =~= seq!['<', 'p', '>'] && rep@ =~= seq!['\n']);
    let s = replace_step(s, pat, rep);
    let (pat, rep) = (vec!['<', '/', 'p', '>'], vec![]);
    assert(pat@ =~= seq!['<', '/', 'p', '>'] && rep@ =~= seq![]);
    let s = replace_step(s, pat, rep);
    let (pat, rep) = (vec!['<', 'b', 'r', '>'], vec!['\n']);
    assert(pat@ =~= seq!['<', 'b', 'r', '>'] && rep@ =~= seq!['\n']);
    let s = replace_step(s, pat, rep);
    let (pat, rep) = (vec!['<', 'b', 'r', '/', '>'], vec!['\n']);
    assert(pat@ =~= seq!['<', 'b', 'r', '/', '>'] && rep@ =~= seq!['\n']);
    let s = replace_step(s, pat, rep);
    let (pat, rep) = (vec!['<', 'b', 'r', ' ', '/', '>'], vec!['\n']);
    assert(pat@ =~= seq!['<', 'b', 'r', ' ', '/', '>'] && rep@ =~= seq!['\n']);
    let s = replace_step(s, pat, rep);
    assert(s@ == markup_to_breaks(input@));
    let open_link = vec!['<', 'a', ' '];
    assert(open_link@ =~= seq!['<', 'a', ' ']);
    let s = strip_tags_chars(s, &open_link);
    let (pat, rep) = (vec!['<', '/', 'a', '>'], vec![]);
    assert(pat@ =~= seq!['<', '/', 'a', '>'] && rep@ =~= seq![]);
    let s = replace_step(s, pat, rep);
    assert(s@ == strip_links(markup_to_breaks(input@)));
    let open_tag = vec!['<'];
    assert(open_tag@ =~= seq!['<']);
    let s = strip_tags_chars(s, &open_tag);
    let (pat, rep) = (vec!['&', '#', 'x', '2', '7', ';'], vec!['\'']);
    assert(pat@ =~= seq!['&', '#', 'x', '2', '7', ';'] && rep@ =~= seq!['\'']);
    let s = replace_step(s, pat, rep);
    let (pat, rep) = (vec!['&', '#', 'x', '2', 'F', ';'], vec!['/']);
    assert(pat@ =~= seq!['&', '#', 'x', '2', 'F', ';'] && rep@ =~= seq!['/']);
    let s = replace_step(s, pat, rep);
    let (pat, rep) = (vec!['&', 'a', 'm', 'p', ';'], vec!['&']);
    assert(pat@ =~= seq!['&', 'a', 'm', 'p', ';'] && rep@ =~= seq!['&']);
    let s = replace_step(s, pat, rep);
    let (pat, rep) = (vec!['&', 'l', 't', ';'], vec!['<']);
    assert(pat@ =~= seq!['&', 'l', 't', ';'] && rep@ =~= seq!['<']);
    let s = replace_step(s, pat, rep);
    let (pat, rep) = (vec!['&', 'g', 't', ';'], vec!['>']);
    assert(pat@ =~= seq!['&', 'g', 't', ';'] && rep@ =~= seq!['>']);
    let s = replace_step(s, pat, rep);
    let (pat, rep) = (vec!['&', 'q', 'u', 'o', 't', ';'], vec!['"']);
    assert(pat@ =~= seq!['&', 'q', 'u', 'o', 't', ';'] && rep@ =~= seq!['"']);
    let s = replace_step(s, pat, rep);
    let (pat, rep) = (vec!['&', '#', '3', '4', ';'], vec!['"']);
    assert(pat@ =~= seq!['&', '#', '3', '4', ';'] && rep@ =~= seq!['"']);
    let s = replace_step(s, pat, rep);
    let (pat, rep) = (vec!['&', '#', '3', '9', ';'], vec!['\'']);
    assert(pat@ =~= seq!['&', '#', '3', '9', ';'] && rep@ =~= seq!['\'']);
    let s = replace_step(s, pat, rep);
    string_of(&s)
}

// ---------------------------------------------------------------------
// Comment trees
// ---------------------------------------------------------------------

/// Below this depth the replies of a comment are listed; at it, they are
/// summarised by one line.
pub const MAX_COMMENT_DEPTH: usize = 8;

/// What the reader shows: the story list or one story's comments.
#[derive(Debug, Clone, Copy, PartialEq, Eq, Structural)]
pub enum ViewMode {
    Articles,
    Comments,
}

/// One comment of a thread, placed at its depth in the tree.
#[derive(Debug, Clone)]
pub struct FlatComment {
    pub depth: usize,
    pub author: String,
    pub text: String,
    pub created_at: String,
}

/// The content of a `FlatComment`.
pub ghost struct FlatEntry {
    pub depth: int,
    pub author: Seq<char>,
    pub text: Seq<char>,
    pub created_at: Seq<char>,
}

impl View for FlatComment {
    type V = FlatEntry;

    open spec fn view(&self) -> FlatEntry {
        FlatEntry {
            depth: self.depth as int,
            author: self.author@,
            text: self.text@,
            created_at: self.created_at@,
        }
    }
}

/// What stands for a missing author or text.
pub open spec fn deleted_marker() -> Seq<char> {
    "[deleted]"@
}

/// The entry for one comment at `depth`.
pub open spec fn comment_entry(c: Comment, depth: int) -> FlatEntry {
    FlatEntry {
        depth: depth,
        author: match c.author {
            Some(a) => a@,
            None => deleted_marker(),
        },
        text: match c.text {
            Some(t) => html_to_text(t@),
            None => deleted_marker(),
        },
        created_at: match c.created_at {
            Some(d) => d@,
            None => Seq::<char>::empty(),
        },
    }
}

/// The line that stands for `n` replies below the depth limit.
pub open spec fn hidden_entry(depth: int, n: nat) -> FlatEntry {
    FlatEntry {
        depth: depth,
        author: Seq::<char>::empty(),
        text: "["@ + decimal(n) + " more replies hidden]"@,
        created_at: Seq::<char>::empty(),
    }
}

/// What follows a comment at `depth`: its replies one level deeper while
/// `depth` is below the limit, else one summary line if it has replies.
pub open spec fn replies_entries(c: Comment, depth: int) -> Seq<FlatEntry>
    decreases c, 0int,
{
    if depth < MAX_COMMENT_DEPTH {
        flatten_spec(c.children@, depth + 1)
    } else if c.children@.len() > 0 {
        seq![hidden_entry(depth + 1, c.children@.len())]
    } else {
        Seq::empty()
    }
}

/// The comments of `cs` in pre-order (each comment, then its replies), each
/// placed at its depth, starting from `depth`.
pub open spec fn flatten_spec(cs: Seq<Comment>, depth: int) -> Seq<FlatEntry>
    decreases cs, 1int,
{
    if cs.len() == 0 {
        Seq::empty()
    } else {
        seq![comment_entry(cs[0], depth)] + replies_entries(cs[0], depth)
            + flatten_spec(cs.subrange(1, cs.len() as int), depth)
    }
}

/// The text of the line that stands for `n` hidden replies.
fn hidden_replies_text(n: usize) -> (res: String)
    ensures
        res@ == "["@ + decimal(n as nat) + " more replies hidden]"@,
{
    let mut res = String::from_str("[");
    push_decimal(&mut res, n as u64);
    res.append(" more replies hidden]");
    res
}

/// The entry of one comment at `depth`, as `comment_entry` describes.
fn flat_entry(comment: &Comment, depth: usize) -> (res: FlatComment)
    ensures
        res@ == comment_entry(*comment, depth as int),
{
    let author = match &comment.author {
        Some(a) => a.clone(),
        None => String::from_str("[deleted]"),
    };
    let text = match &comment.text {
        Some(t) => strip_html_tags(t.as_str()),
        None => String::from_str("[deleted]"),
    };
    let created_at = match &comment.created_at {
        Some(d) => d.clone(),
        None => String::new(),
    };
    FlatComment { depth, author, text, created_at }
}

/// The comments of a thread in reading order, each with its depth: every
/// comment is followed by its replies, one level deeper; replies below
/// `MAX_COMMENT_DEPTH` are summarised by a `[N more replies hidden]` line
/// with an empty author.
pub fn flatten_comments(comments: &[Comment], depth: usize) -> (res: Vec<FlatComment>)
    requires
        depth == usize::MAX ==> forall|i: int|
            0 <= i < comments@.len() ==> (#[trigger] comments@[i]).children@.len() == 0,
    ensures
        res@.map_values(|f: FlatComment| f@) == flatten_spec(comments@, depth as int),
    decreases comments@,
{
    let mut flat: Vec<FlatComment> = Vec::new();
    let mut i: usize = 0;
    assert(comments@.skip(0) =~= comments@);
    assert(flat@.map_values(|f: FlatComment| f@) + flatten_spec(comments@, depth as int)
        =~= flatten_spec(comments@, depth as int));
    while i < comments.len()
        invariant
            i <= comments@.len(),
            depth == usize::MAX ==> forall|j: int|
                0 <= j < comments@.len() ==> (#[trigger] comments@[j]).children@.len() == 0,
            flat@.map_values(|f: FlatComment| f@) + flatten_spec(comments@.skip(i as int), depth as int)
                == flatten_spec(comments@, depth as int),
        decreases comments@.len() - i,
    {
        let ghost t = comments@.skip(i as int);
        let ghost before = flat@.map_values(|f: FlatComment| f@);
        let comment = &comments[i];
        assert(t[0] == comments@[i as int]);
        assert(t.subrange(1, t.len() as int) =~= comments@.skip(i + 1));
        let entry = flat_entry(comment, depth);
        flat.push(entry);
        let ghost after_entry = flat@.map_values(|f: FlatComment| f@);
        assert(after_entry =~= before.push(comment_entry(*comment, depth as int)));
        let ghost replies: Seq<FlatEntry>;
        if depth < MAX_COMMENT_DEPTH {
            proof {
                assert(decreases_to!(comments@ => comments@[i as int].children@));
            }
            let mut sub = flatten_comments(comment.children.as_slice(), depth + 1);
            proof {
                replies = sub@.map_values(|f: FlatComment| f@);
            }
            let ghost pre = flat@;
            let ghost sub_view = sub@;
            flat.append(&mut sub);
            assert(flat@ =~= pre + sub_view);
            assert(flat@.map_values(|f: FlatComment| f@) =~= after_entry + replies);
        } else if comment.children.len() > 0 {
            let text = hidden_replies_text(comment.children.len());
            flat.push(FlatComment { depth: depth + 1, author: String::new(), text, created_at: String::new() });
            proof {
                replies = seq![hidden_entry(depth + 1, comment.children@.len())];
            }
            assert(flat@.map_values(|f: FlatComment| f@) =~= after_entry + replies);
        } else {
            proof {
                replies = Seq::empty();
            }
            assert(flat@.map_values(|f: FlatComment| f@) =~= after_entry + replies);
        }
        assert(replies == replies_entries(*comment, depth as int));
        assert(flatten_spec(t, depth as int) == seq![comment_entry(t[0], depth as int)]
            + replies_entries(t[0], depth as int) + flatten_spec(comments@.skip(i + 1), depth as int));
        assert(flat@.map_values(|f: FlatComment| f@) + flatten_spec(comments@.skip(i + 1), depth as int)
            =~= before + flatten_spec(t, depth as int));
        i += 1;
    }
    assert(comments@.skip(i as int) =~= Seq::<Comment>::empty());
    assert(flat@.map_values(|f: FlatComment| f@) + Seq::<FlatEntry>::empty()
        =~= flat@.map_values(|f: FlatComment| f@));
    flat
}

// ---------------------------------------------------------------------
// Dates
// ---------------------------------------------------------------------

/// The date of an ISO 8601 timestamp: what comes before the first `'T'`.
pub open spec fn date_part(s: Seq<char>) -> Seq<char> {
    split_on(s, 'T')[0]
}

/// A timestamp `YYYY-MM-DD...` shown as `MM/DD/YYYY`: the second, third and
/// first `'-'`-separated pieces of its date; a timestamp whose date has
/// fewer than three pieces is shown unchanged.
pub open spec fn readable_date(s: Seq<char>) -> Seq<char> {
    let parts = split_on(date_part(s), '-');
    if parts.len() >= 3 {
        parts[1] + seq!['/'] + parts[2] + seq!['/'] + parts[0]
    } else {
        s
    }
}

/// A timestamp made readable, as `readable_date` describes.
pub fn parse_date(date_str: &str) -> (res: String)
    ensures
        res@ == readable_date(date_str@),
{
    let s = chars_of(date_str);
    let t_mark = vec!['T'];
    let dash = vec!['-'];
    assert(t_mark@ =~= seq!['T'] && dash@ =~= seq!['-']);
    proof {
        lemma_split_step(s@, 'T', 0);
        assert(s@.skip(0) =~= s@);
    }
    let end = match find_chars(&s, &t_mark, 0) {
        Some(k) => k,
        None => s.len(),
    };
    let dp = slice_chars(&s, 0, end);
    assert(dp@ == date_part(s@)) by {
        assert(s@.subrange(0, s@.len() as int) =~= s@);
    }
    let ghost d = dp@;
    proof {
        lemma_split_step(d, '-', 0);
        assert(d.skip(0) =~= d);
    }
    match find_chars(&dp, &dash, 0) {
        None => String::from_str(date_str),
        Some(k1) => {
            proof {
                lemma_split_step(d, '-', k1 + 1);
            }
            match find_chars(&dp, &dash, k1 + 1) {
                None => String::from_str(date_str),
                Some(k2) => {
                    proof {
                        lemma_split_step(d, '-', k2 + 1);
                    }
                    let k3 = match find_chars(&dp, &dash, k2 + 1) {
                        Some(k) => k,
                        None => dp.len(),
                    };
                    assert(split_on(d.skip(k2 + 1), '-')[0] =~= d.subrange(k2 + 1, k3 as int));
                    let year = slice_chars(&dp, 0, k1);
                    let month = slice_chars(&dp, k1 + 1, k2);
                    let day = slice_chars(&dp, k2 + 1, k3);
                    let mut res = String::new();
                    push_str_chars(&mut res, &month);
                    push_char(&mut res, '/');
                    push_str_chars(&mut res, &day);
                    push_char(&mut res, '/');
                    push_str_chars(&mut res, &year);
                    res
                },
            }
        },
    }
}

// ---------------------------------------------------------------------
// Reader state and key handling
// ---------------------------------------------------------------------

/// A key press, as far as the reader tells keys apart.
#[derive(Debug, Clone, Copy, PartialEq, Eq, Structural)]
pub enum Key {
    Up,
    Down,
    Left,
    Right,
    Enter,
    Esc,
    Backspace,
    PageUp,
    PageDown,
    Char(char),
    Other,
}

/// The reader's state: the selected story on the current page, the page,
/// and the comment view with its scroll position.
pub struct Ui {
    pub selected_index: usize,
    pub current_page: u32,
    pub view_mode: ViewMode,
    pub comments: Vec<FlatComment>,
    pub comment_scroll: usize,
    pub comment_title: String,
}

/// The content of a `Ui`.
pub ghost struct UiState {
    pub selected_index: usize,
    pub current_page: u32,
    pub view_mode: ViewMode,
    pub comments: Seq<FlatComment>,
    pub comment_scroll: usize,
    pub comment_title: Seq<char>,
}

impl View for Ui {
    type V = UiState;

    open spec fn view(&self) -> UiState {
        UiState {
            selected_index: self.selected_index,
            current_page: self.current_page,
            view_mode: self.view_mode,
            comments: self.comments@,
            comment_scroll: self.comment_scroll,
            comment_title: self.comment_title@,
        }
    }
}

/// `a - b`, or 0 when `b > a`.
pub open spec fn saturating_sub_usize(a: usize, b: usize) -> usize {
    if a >= b {
        (a - b) as usize
    } else {
        0
    }
}

/// The state after a key press on the story list, and the command it gives:
/// Up/`k` and Down/`j` move the selection within the `len` stories,
/// Left/`h` and Right/`l` change page within `pages` pages (selecting the
/// first story, command `'p'` or `'n'`), `q`, `r`, `c` and Enter give `'q'`,
/// `'r'`, `'c'` and `'l'`; anything else gives `'\0'`.
pub open spec fn articles_step(s: UiState, key: Key, len: usize, pages: u32) -> (UiState, char) {
    match key {
        Key::Up | Key::Char('k') => (
            if s.selected_index > 0 {
                UiState { selected_index: (s.selected_index - 1) as usize, ..s }
            } else {
                s
            },
            '\0',
        ),
        Key::Down | Key::Char('j') => (
            if len > 0 && s.selected_index < len - 1 {
                UiState { selected_index: (s.selected_index + 1) as usize, ..s }
            } else {
                s
            },
            '\0',
        ),
        Key::Left | Key::Char('h') => if s.current_page > 0 {
            (UiState { current_page: (s.current_page - 1) as u32, selected_index: 0, ..s }, 'p')
        } else {
            (s, '\0')
        },
        Key::Right | Key::Char('l') => if pages > 0 && s.current_page < pages - 1 {
            (UiState { current_page: (s.current_page + 1) as u32, selected_index: 0, ..s }, 'n')
        } else {
            (s, '\0')
        },
        Key::Char('q') => (s, 'q'),
        Key::Char('r') => (s, 'r'),
        Key::Char('c') => (s, 'c'),
        Key::Enter => (s, 'l'),
        _ => (s, '\0'),
    }
}

/// The state after a key press in the comment view, and the command it
/// gives: Esc and Backspace go back to the story list (command `'b'`),
/// emptying the comments and their scroll position; Up/`k` and Down/`j`
/// scroll by one line, PageUp and PageDown by twenty, never above the top;
/// `q` gives `'q'`; anything else gives `'\0'`.
pub open spec fn comments_step(s: UiState, key: Key) -> (UiState, char) {
    match key {
        Key::Esc | Key::Backspace => (
            UiState {
                view_mode: ViewMode::Articles,
                comments: Seq::empty(),
                comment_scroll: 0,
                ..s
            },
            'b',
        ),
        Key::Up | Key::Char('k') => (
            UiState { comment_scroll: saturating_sub_usize(s.comment_scroll, 1), ..s },
            '\0',
        ),
        Key::Down | Key::Char('j') => (
            UiState { comment_scroll: (s.comment_scroll + 1) as usize, ..s },
            '\0',
        ),
        Key::PageUp => (
            UiState { comment_scroll: saturating_sub_usize(s.comment_scroll, 20), ..s },
            '\0',
        ),
        Key::PageDown => (
            UiState { comment_scroll: (s.comment_scroll + 20) as usize, ..s },
            '\0',
        ),
        Key::Char('q') => (s, 'q'),
        _ => (s, '\0'),
    }
}

/// The state after a key press, and the command it gives.
pub open spec fn step(s: UiState, key: Key, len: usize, pages: u32) -> (UiState, char) {
    match s.view_mode {
        ViewMode::Articles => articles_step(s, key, len, pages),
        ViewMode::Comments => comments_step(s, key),
    }
}

/// Whether the comment scroll position stays representable after `key`.
pub open spec fn scroll_fits(s: UiState, key: Key) -> bool {
    s.view_mode == ViewMode::Comments ==> match key {
        Key::Down | Key::Char('j') => s.comment_scroll < usize::MAX,
        Key::PageDown => s.comment_scroll <= usize::MAX - 20,
        _ => true,
    }
}

/// The most pages the search endpoint serves (20 stories each).
pub const MAX_PAGES: u32 = 50;

/// The number of pages the reader offers for a result of `nb_pages` pages:
/// all of them, up to `MAX_PAGES`.
pub open spec fn offered_pages(nb_pages: u32) -> u32 {
    if nb_pages < MAX_PAGES {
        nb_pages
    } else {
        MAX_PAGES
    }
}

/// The number of pages the reader offers, as `offered_pages` describes.
pub fn total_pages(nb_pages: u32) -> (res: u32)
    ensures
        res == offered_pages(nb_pages),
{
    if nb_pages < MAX_PAGES {
        nb_pages
    } else {
        MAX_PAGES
    }
}

impl Ui {
    /// A reader on the first story of the first page, showing the story list.
    pub fn new() -> (ui: Ui)
        ensures
            ui.selected_index == 0,
            ui.current_page == 0,
            ui.view_mode == ViewMode::Articles,
            ui.comments@.len() == 0,
            ui.comment_scroll == 0,
            ui.comment_title@.len() == 0,
    {
        Ui {
            selected_index: 0,
            current_page: 0,
            view_mode: ViewMode::Articles,
            comments: Vec::new(),
            comment_scroll: 0,
            comment_title: String::new(),
        }
    }

    /// Applies one key press, given the number of stories shown and the
    /// number of pages; returns the command for the caller (`'\0'` for none).
    pub fn handle_key(&mut self, key: Key, articles_len: usize, total_pages: u32) -> (cmd: char)
        requires
            scroll_fits(old(self)@, key),
        ensures
            (final(self)@, cmd) == step(old(self)@, key, articles_len, total_pages),
    {
        match self.view_mode {
            ViewMode::Articles => match key {
                Key::Up | Key::Char('k') => {
                    if self.selected_index > 0 {
                        self.selected_index -= 1;
                    }
                },
                Key::Down | Key::Char('j') => {
                    if articles_len > 0 && self.selected_index < articles_len - 1 {
                        self.selected_index += 1;
                    }
                },
                Key::Left | Key::Char('h') => {
                    if self.current_page > 0 {
                        self.current_page -= 1;
                        self.selected_index = 0;
                        return 'p';
                    }
                },
                Key::Right | Key::Char('l') => {
                    if self.current_page < total_pages.saturating_sub(1) {
                        self.current_page += 1;
                        self.selected_index = 0;
                        return 'n';
                    }
                },
                Key::Char('q') => return 'q',
                Key::Char('r') => return 'r',
                Key::Char('c') => return 'c',
                Key::Enter => return 'l',
                _ => {},
            },
            ViewMode::Comments => match key {
                Key::Esc | Key::Backspace => {
                    self.view_mode = ViewMode::Articles;
                    self.comments.clear();
                    self.comment_scroll = 0;
                    return 'b';
                },
                Key::Up | Key::Char('k') => {
                    self.comment_scroll = self.comment_scroll.saturating_sub(1);
                },
                Key::Down | Key::Char('j') => {
                    self.comment_scroll += 1;
                },
                Key::PageUp => {
                    self.comment_scroll = self.comment_scroll.saturating_sub(20);
                },
                Key::PageDown => {
                    self.comment_scroll += 20;
                },
                Key::Char('q') => return 'q',
                _ => {},
            },
        }
        '\0'
    }
}

impl Ui {
    /// Switches to the comment view of the story `title`, showing `thread`
    /// flattened from depth 0 and scrolled to the top; the story list's
    /// selection and page are kept for the way back.
    pub fn show_comments(&mut self, title: String, thread: &[Comment])
        ensures
            final(self).view_mode == ViewMode::Comments,
            final(self).comments@.map_values(|f: FlatComment| f@) == flatten_spec(thread@, 0),
            final(self).comment_scroll == 0,
            final(self).comment_title@ == title@,
            final(self).selected_index == old(self).selected_index,
            final(self).current_page == old(self).current_page,
    {
        self.comments = flatten_comments(thread, 0);
        self.comment_title = title;
        self.comment_scroll = 0;
        self.view_mode = ViewMode::Comments;
    }
}

/// What opening the selected story leads to.
#[derive(Debug, Clone)]
pub enum OpenTarget {
    /// The selected story's address.
    Url(String),
    /// The selected story has no address.
    NoUrl,
    /// No story is selected.
    NoSelection,
}

impl Ui {
    /// The address to open for the selected story among `articles`.
    pub fn open_target(&self, articles: &[Article]) -> (res: OpenTarget)
        ensures
            self.selected_index >= articles@.len() ==> (res is NoSelection),
            self.selected_index < articles@.len() ==> (match articles@[self.selected_index as int].url {
                Some(u) => (res matches OpenTarget::Url(v) && v@ == u@),
                None => (res is NoUrl),
            }),
    {
        if self.selected_index < articles.len() {
            match &articles[self.selected_index].url {
                Some(u) => OpenTarget::Url(u.clone()),
                None => OpenTarget::NoUrl,
            }
        } else {
            OpenTarget::NoSelection
        }
    }
}

// ---------------------------------------------------------------------
// Laws
// ---------------------------------------------------------------------

/// Law: text with no `'<'` and no `'&'` has no markup, and comes out of the
/// HTML cleanup unchanged.
pub proof fn law_plain_text_unchanged(s: Seq<char>)
    requires
        forall|k: int| 0 <= k < s.len() ==> s[k] != '<' && s[k] != '&',
    ensures
        html_to_text(s) == s,
{
    let lt = seq!['<'];
    assert(seq!['<', 'p', '>'][0] == '<');
    law_replace_absent_is_identity(s, seq!['<', 'p', '>'], seq!['\n']);
    assert(seq!['<', '/', 'p', '>'][0] == '<');
    law_replace_absent_is_identity(s, seq!['<', '/', 'p', '>'], seq![]);
    assert(seq!['<', 'b', 'r', '>'][0] == '<');
    law_replace_absent_is_identity(s, seq!['<', 'b', 'r', '>'], seq!['\n']);
    assert(seq!['<', 'b', 'r', '/', '>'][0] == '<');
    law_replace_absent_is_identity(s, seq!['<', 'b', 'r', '/', '>'], seq!['\n']);
    assert(seq!['<', 'b', 'r', ' ', '/', '>'][0] == '<');
    law_replace_absent_is_identity(s, seq!['<', 'b', 'r', ' ', '/', '>'], seq!['\n']);
    assert(markup_to_breaks(s) == s);
    assert(seq!['<', 'a', ' '][0] == '<');
    law_strip_absent_is_identity(s, seq!['<', 'a', ' ']);
    assert(seq!['<', '/', 'a', '>'][0] == '<');
    law_replace_absent_is_identity(s, seq!['<', '/', 'a', '>'], seq![]);
    assert(strip_links(s) == s);
    assert(lt[0] == '<');
    law_strip_absent_is_identity(s, lt);
    assert(seq!['&', '#', 'x', '2', '7', ';'][0] == '&');
    law_replace_absent_is_identity(s, seq!['&', '#', 'x', '2', '7', ';'], seq!['\'']);
    assert(seq!['&', '#', 'x', '2', 'F', ';'][0] == '&');
    law_replace_absent_is_identity(s, seq!['&', '#', 'x', '2', 'F', ';'], seq!['/']);
    assert(seq!['&', 'a', 'm', 'p', ';'][0] == '&');
    law_replace_absent_is_identity(s, seq!['&', 'a', 'm', 'p', ';'], seq!['&']);
    assert(seq!['&', 'l', 't', ';'][0] == '&');
    law_replace_absent_is_identity(s, seq!['&', 'l', 't', ';'], seq!['<']);
    assert(seq!['&', 'g', 't', ';'][0] == '&');
    law_replace_absent_is_identity(s, seq!['&', 'g', 't', ';'], seq!['>']);
    assert(seq!['&', 'q', 'u', 'o', 't', ';'][0] == '&');
    law_replace_absent_is_identity(s, seq!['&', 'q', 'u', 'o', 't', ';'], seq!['"']);
    assert(seq!['&', '#', '3', '4', ';'][0] == '&');
    law_replace_absent_is_identity(s, seq!['&', '#', '3', '4', ';'], seq!['"']);
    assert(seq!['&', '#', '3', '9', ';'][0] == '&');
    law_replace_absent_is_identity(s, seq!['&', '#', '3', '9', ';'], seq!['\'']);
}

/// Every entry of a thread flattened from `depth` lies at `depth` or deeper,
/// and, when `depth` is at most the limit, no deeper than one below it.
pub proof fn lemma_flatten_depths(cs: Seq<Comment>, depth: int)
    ensures
        forall|i: int|
            0 <= i < flatten_spec(cs, depth).len() ==> {
                &&& depth <= #[trigger] flatten_spec(cs, depth)[i].depth
                &&& depth <= MAX_COMMENT_DEPTH ==> flatten_spec(cs, depth)[i].depth
                    <= MAX_COMMENT_DEPTH + 1
            },
    decreases cs,
{
    if cs.len() > 0 {
        let c = cs[0];
        let head = seq![comment_entry(c, depth)];
        let replies = replies_entries(c, depth);
        let tail = cs.subrange(1, cs.len() as int);
        if depth < MAX_COMMENT_DEPTH {
            assert(decreases_to!(cs => c.children@));
            lemma_flatten_depths(c.children@, depth + 1);
        }
        lemma_flatten_depths(tail, depth);
        let whole = flatten_spec(cs, depth);
        assert(whole == head + replies + flatten_spec(tail, depth));
        assert forall|i: int| 0 <= i < whole.len() implies {
            &&& depth <= #[trigger] whole[i].depth
            &&& depth <= MAX_COMMENT_DEPTH ==> whole[i].depth <= MAX_COMMENT_DEPTH + 1
        } by {
            if i < head.len() {
            } else if i < head.len() + replies.len() {
                let k = i - head.len();
                assert(whole[i] == replies[k]);
                if depth < MAX_COMMENT_DEPTH {
                    assert(replies == flatten_spec(c.children@, depth + 1));
                    assert(depth + 1 <= flatten_spec(c.children@, depth + 1)[k].depth);
                } else {
                    assert(replies[k].depth == depth + 1);
                }
            } else {
                assert(whole[i] == flatten_spec(tail, depth)[i - head.len() - replies.len()]);
            }
        }
    }
}

/// Law: every entry of a thread flattened from `depth` (at most the limit)
/// lies at `depth` or deeper, and no deeper than one below the limit.
pub proof fn law_flatten_depth_bounded(cs: Seq<Comment>, depth: int)
    requires
        0 <= depth <= MAX_COMMENT_DEPTH,
    ensures
        forall|i: int|
            0 <= i < flatten_spec(cs, depth).len() ==> depth <= #[trigger] flatten_spec(cs, depth)[i].depth
                <= MAX_COMMENT_DEPTH + 1,
{
    lemma_flatten_depths(cs, depth);
}

/// Whether an entry lies at depth `d`.
pub open spec fn at_depth(d: int) -> spec_fn(FlatEntry) -> bool {
    |e: FlatEntry| e.depth == d
}

/// Law: the entries at the starting depth of a flattened thread are its
/// top-level comments, each once, in their order; replies and summary lines
/// all lie deeper.
pub proof fn law_flatten_keeps_top_level_order(cs: Seq<Comment>, depth: int)
    ensures
        flatten_spec(cs, depth).filter(at_depth(depth)) == cs.map_values(
            |c: Comment| comment_entry(c, depth),
        ),
    decreases cs.len(),
{
    let pred = at_depth(depth);
    if cs.len() == 0 {
        assert(Seq::<FlatEntry>::empty().filter(pred) =~= Seq::<FlatEntry>::empty()) by {
            reveal(Seq::filter);
        }
        assert(cs.map_values(|c: Comment| comment_entry(c, depth)) =~= Seq::<FlatEntry>::empty());
    } else {
        let c = cs[0];
        let head = seq![comment_entry(c, depth)];
        let replies = replies_entries(c, depth);
        let tail = cs.subrange(1, cs.len() as int);
        law_flatten_keeps_top_level_order(tail, depth);
        assert(replies.filter(pred) =~= Seq::<FlatEntry>::empty()) by {
            if depth < MAX_COMMENT_DEPTH {
                lemma_flatten_depths(c.children@, depth + 1);
            }
            assert forall|k: int| 0 <= k < replies.len() implies !pred(#[trigger] replies[k]) by {
                if depth < MAX_COMMENT_DEPTH {
                    assert(depth + 1 <= flatten_spec(c.children@, depth + 1)[k].depth);
                }
            }
            assert(replies.all(|e: FlatEntry| !pred(e)));
            replies.lemma_all_neg_filter_empty(pred);
        }
        assert(head.filter(pred) =~= head) by {
            Seq::<FlatEntry>::empty().lemma_filter_push(comment_entry(c, depth), pred);
            assert(Seq::<FlatEntry>::empty().push(comment_entry(c, depth)) =~= head);
            assert(Seq::<FlatEntry>::empty().filter(pred) =~= Seq::<FlatEntry>::empty()) by {
                reveal(Seq::filter);
            }
        }
        Seq::filter_distributes_over_add(head + replies, flatten_spec(tail, depth), pred);
        Seq::filter_distributes_over_add(head, replies, pred);
        assert(cs.map_values(|c: Comment| comment_entry(c, depth)) =~= head + tail.map_values(
            |c: Comment| comment_entry(c, depth),
        ));
        assert(flatten_spec(cs, depth).filter(pred) =~= head + tail.map_values(
            |c: Comment| comment_entry(c, depth),
        ));
    }
}

/// Law: a selection inside the story list (or on the first place of an
/// empty list) stays so, whatever the key.
pub proof fn law_selection_stays_in_bounds(s: UiState, key: Key, len: usize, pages: u32)
    requires
        s.selected_index == 0 || s.selected_index < len,
    ensures
        step(s, key, len, pages).0.selected_index == 0 || step(s, key, len, pages).0.selected_index
            < len,
{
}

/// Law: a page inside the page range (or the first page when there are no
/// pages) stays so, whatever the key.
pub proof fn law_page_stays_in_bounds(s: UiState, key: Key, len: usize, pages: u32)
    requires
        s.current_page < pages || (pages == 0 && s.current_page == 0),
    ensures
        step(s, key, len, pages).0.current_page < pages || (pages == 0
            && step(s, key, len, pages).0.current_page == 0),
{
}

/// Law: on a page the reader offers, no key leads past the last page it
/// offers, and so never past page `MAX_PAGES`.
pub proof fn law_never_past_last_page(s: UiState, key: Key, len: usize, nb_pages: u32)
    requires
        s.current_page < offered_pages(nb_pages),
    ensures
        step(s, key, len, offered_pages(nb_pages)).0.current_page < offered_pages(nb_pages),
        step(s, key, len, offered_pages(nb_pages)).0.current_page < MAX_PAGES,
{
    law_page_stays_in_bounds(s, key, len, offered_pages(nb_pages));
}

/// Law: a key that changes the page moves it by one, selects the first
/// story and gives `'p'` (back) or `'n'` (forward); no other key moves it.
pub proof fn law_page_change_resets_selection(s: UiState, key: Key, len: usize, pages: u32)
    ensures
        ({
            let (t, cmd) = step(s, key, len, pages);
            t.current_page != s.current_page ==> {
                &&& t.selected_index == 0
                &&& (cmd == 'p' && t.current_page + 1 == s.current_page) || (cmd == 'n'
                    && t.current_page == s.current_page + 1)
            }
        }),
{
}

/// Law: on the story list, Down followed by Up gives back the state it
/// started from, when Down moved the selection.
pub proof fn law_down_then_up(s: UiState, len: usize, pages: u32)
    requires
        s.view_mode == ViewMode::Articles,
        s.selected_index + 1 < len,
    ensures
        step(step(s, Key::Down, len, pages).0, Key::Up, len, pages).0 == s,
{
}

/// Law: on the story list, Right followed by Left comes back to the same
/// page, on its first story, when Right moved the page.
pub proof fn law_right_then_left(s: UiState, len: usize, pages: u32)
    requires
        s.view_mode == ViewMode::Articles,
        s.current_page + 1 < pages,
    ensures
        step(step(s, Key::Right, len, pages).0, Key::Left, len, pages).0 == (UiState {
            selected_index: 0,
            ..s
        }),
{
}

/// Law: in the comment view, scrolling down one line and back up gives back
/// the state it started from.
pub proof fn law_scroll_down_then_up(s: UiState, len: usize, pages: u32)
    requires
        s.view_mode == ViewMode::Comments,
        s.comment_scroll < usize::MAX,
    ensures
        step(step(s, Key::Down, len, pages).0, Key::Up, len, pages).0 == s,
{
}

/// Law: no key in the comment view moves the story list's selection or page,
/// or changes the comment title.
pub proof fn law_comments_keep_list_position(s: UiState, key: Key, len: usize, pages: u32)
    requires
        s.view_mode == ViewMode::Comments,
    ensures
        step(s, key, len, pages).0.selected_index == s.selected_index,
        step(s, key, len, pages).0.current_page == s.current_page,
        step(s, key, len, pages).0.comment_title == s.comment_title,
{
}

/// Law: `q` gives the quit command in either view and changes nothing.
pub proof fn law_quit_always_available(s: UiState, len: usize, pages: u32)
    ensures
        step(s, Key::Char('q'), len, pages) == (s, 'q'),
{
}

/// Law: going back from the comment view shows the story list again, with
/// no comments kept and the scroll position reset.
pub proof fn law_back_leaves_comments(s: UiState, key: Key, len: usize, pages: u32)
    requires
        s.view_mode == ViewMode::Comments,
        key == Key::Esc || key == Key::Backspace,
    ensures
        step(s, key, len, pages).1 == 'b',
        step(s, key, len, pages).0.view_mode == ViewMode::Articles,
        step(s, key, len, pages).0.comments.len() == 0,
        step(s, key, len, pages).0.comment_scroll == 0,
{
}

/// Law: in the comment view the only commands are `'b'` (exactly for Esc and
/// Backspace), `'q'` (exactly for `q`) and none; in particular Enter, `c`,
/// `r` and the page keys give no command there.
pub proof fn law_comment_view_commands(s: UiState, key: Key, len: usize, pages: u32)
    requires
        s.view_mode == ViewMode::Comments,
    ensures
        step(s, key, len, pages).1 == 'b' <==> (key == Key::Esc || key == Key::Backspace),
        step(s, key, len, pages).1 == 'q' <==> key == Key::Char('q'),
        step(s, key, len, pages).1 == 'b' || step(s, key, len, pages).1 == 'q' || step(
            s,
            key,
            len,
            pages,
        ).1 == '\0',
{
}

/// Law: the reader offers as many pages as the result has, but never more
/// than fifty: the offer is the smaller of the two.
pub proof fn law_offered_pages_is_min(nb_pages: u32)
    ensures
        offered_pages(nb_pages) <= nb_pages,
        offered_pages(nb_pages) <= 50,
        offered_pages(nb_pages) == nb_pages || offered_pages(nb_pages) == 50,
{
}

/// Law: whatever the depth, the first entry of a flattened thread is its
/// first comment at that depth, with the author (or `[deleted]`), the plain
/// text of its HTML (or `[deleted]`) and the date (or nothing) of that comment.
pub proof fn law_flatten_first_entry(cs: Seq<Comment>, depth: int)
    requires
        cs.len() > 0,
    ensures
        flatten_spec(cs, depth)[0].depth == depth,
        flatten_spec(cs, depth)[0].author == match cs[0].author {
            Some(a) => a@,
            None => "[deleted]"@,
        },
        flatten_spec(cs, depth)[0].text == match cs[0].text {
            Some(t) => html_to_text(t@),
            None => "[deleted]"@,
        },
        flatten_spec(cs, depth)[0].created_at == match cs[0].created_at {
            Some(d) => d@,
            None => Seq::<char>::empty(),
        },
{
}

/// Law: below the depth limit, a comment with replies is followed directly
/// by the flattening of its replies one level deeper; so, with
/// `law_flatten_first_entry`, every reply at every depth carries its own
/// author and the plain text of its own HTML.
pub proof fn law_flatten_replies_follow(cs: Seq<Comment>, depth: int)
    requires
        cs.len() > 0,
        depth < MAX_COMMENT_DEPTH,
    ensures
        flatten_spec(cs, depth).subrange(1, 1 + flatten_spec(cs[0].children@, depth + 1).len() as int)
            == flatten_spec(cs[0].children@, depth + 1),
{
    let f = flatten_spec(cs, depth);
    let r = flatten_spec(cs[0].children@, depth + 1);
    assert(replies_entries(cs[0], depth) == r);
    assert(f == seq![comment_entry(cs[0], depth)] + r + flatten_spec(
        cs.subrange(1, cs.len() as int),
        depth,
    ));
    assert(f.subrange(1, 1 + r.len() as int) =~= r);
}

/// The cleanup steps that follow the turning of paragraph openings into
/// line breaks.
pub open spec fn cleanup_after_paragraphs(s: Seq<char>) -> Seq<char> {
    let s = replace_all(s, seq!['<', '/', 'p', '>'], seq![]);
    let s = replace_all(s, seq!['<', 'b', 'r', '>'], seq!['\n']);
    let s = replace_all(s, seq!['<', 'b', 'r', '/', '>'], seq!['\n']);
    let s = replace_all(s, seq!['<', 'b', 'r', ' ', '/', '>'], seq!['\n']);
    decode_entities(strip_tags(strip_links(s), seq!['<']))
}

/// The HTML cleanup is the turning of every paragraph opening into a line
/// break, followed by the other steps.
pub proof fn lemma_html_to_text_split(s: Seq<char>)
    ensures
        html_to_text(s) == cleanup_after_paragraphs(replace_all(s, seq!['<', 'p', '>'], seq!['\n'])),
{
}

/// Text without `'<'` and `'&'` in front of `z` goes through the later
/// cleanup steps untouched.
pub proof fn lemma_cleanup_after_past_prefix(q: Seq<char>, z: Seq<char>)
    requires
        lacks(q, '<'),
        lacks(q, '&'),
    ensures
        cleanup_after_paragraphs(q + z) == q + cleanup_after_paragraphs(z),
{
    let p1 = seq!['<', '/', 'p', '>'];
    let p2 = seq!['<', 'b', 'r', '>'];
    let p3 = seq!['<', 'b', 'r', '/', '>'];
    let p4 = seq!['<', 'b', 'r', ' ', '/', '>'];
    let pa = seq!['<', 'a', ' '];
    let pe = seq!['<', '/', 'a', '>'];
    let lt = seq!['<'];
    assert(p1[0] == '<' && p2[0] == '<' && p3[0] == '<' && p4[0] == '<');
    assert(pa[0] == '<' && pe[0] == '<' && lt[0] == '<');
    let z1 = replace_all(z, p1, seq![]);
    lemma_replace_past_prefix(q, z, p1, seq![]);
    let z2 = replace_all(z1, p2, seq!['\n']);
    lemma_replace_past_prefix(q, z1, p2, seq!['\n']);
    let z3 = replace_all(z2, p3, seq!['\n']);
    lemma_replace_past_prefix(q, z2, p3, seq!['\n']);
    let z4 = replace_all(z3, p4, seq!['\n']);
    lemma_replace_past_prefix(q, z3, p4, seq!['\n']);
    let z5 = strip_tags(z4, pa);
    lemma_strip_past_prefix(q, z4, pa);
    let z6 = replace_all(z5, pe, seq![]);
    lemma_replace_past_prefix(q, z5, pe, seq![]);
    assert(strip_links(q + z4) == q + z6);
    let z7 = strip_tags(z6, lt);
    lemma_strip_past_prefix(q, z6, lt);
    let e1 = seq!['&', '#', 'x', '2', '7', ';'];
    let e2 = seq!['&', '#', 'x', '2', 'F', ';'];
    let e3 = seq!['&', 'a', 'm', 'p', ';'];
    let e4 = seq!['&', 'l', 't', ';'];
    let e5 = seq!['&', 'g', 't', ';'];
    let e6 = seq!['&', 'q', 'u', 'o', 't', ';'];
    let e7 = seq!['&', '#', '3', '4', ';'];
    let e8 = seq!['&', '#', '3', '9', ';'];
    assert(e1[0] == '&' && e2[0] == '&' && e3[0] == '&' && e4[0] == '&');
    assert(e5[0] == '&' && e6[0] == '&' && e7[0] == '&' && e8[0] == '&');
    let y1 = replace_all(z7, e1, seq!['\'']);
    lemma_replace_past_prefix(q, z7, e1, seq!['\'']);
    let y2 = replace_all(y1, e2, seq!['/']);
    lemma_replace_past_prefix(q, y1, e2, seq!['/']);
    let y3 = replace_all(y2, e3, seq!['&']);
    lemma_replace_past_prefix(q, y2, e3, seq!['&']);
    let y4 = replace_all(y3, e4, seq!['<']);
    lemma_replace_past_prefix(q, y3, e4, seq!['<']);
    let y5 = replace_all(y4, e5, seq!['>']);
    lemma_replace_past_prefix(q, y4, e5, seq!['>']);
    let y6 = replace_all(y5, e6, seq!['"']);
    lemma_replace_past_prefix(q, y5, e6, seq!['"']);
    let y7 = replace_all(y6, e7, seq!['"']);
    lemma_replace_past_prefix(q, y6, e7, seq!['"']);
    lemma_replace_past_prefix(q, y7, e8, seq!['\'']);
}

/// Law: plain text (no `'<'`, no `'&'`) in front of anything is kept as it
/// is, and what follows is cleaned up on its own.
pub proof fn law_plain_prefix_kept(p: Seq<char>, x: Seq<char>)
    requires
        lacks(p, '<'),
        lacks(p, '&'),
    ensures
        html_to_text(p + x) == p + html_to_text(x),
{
    let pp = seq!['<', 'p', '>'];
    assert(pp[0] == '<');
    lemma_html_to_text_split(p + x);
    lemma_html_to_text_split(x);
    lemma_replace_past_prefix(p, x, pp, seq!['\n']);
    lemma_cleanup_after_past_prefix(p, replace_all(x, pp, seq!['\n']));
}

/// Law: every paragraph opening becomes a line break: plain text, then
/// `<p>`, then anything, is cleaned up to that text, a line break, and the
/// cleanup of the rest (so each of several paragraphs starts a new line).
pub proof fn law_paragraph_becomes_break(p: Seq<char>, x: Seq<char>)
    requires
        lacks(p, '<'),
        lacks(p, '&'),
    ensures
        html_to_text(p + seq!['<', 'p', '>'] + x) == p + seq!['\n'] + html_to_text(x),
{
    let pp = seq!['<', 'p', '>'];
    let nl = seq!['\n'];
    assert(pp[0] == '<');
    let y = pp + x;
    assert(p + pp + x =~= p + y);
    lemma_html_to_text_split(p + y);
    lemma_html_to_text_split(x);
    lemma_replace_past_prefix(p, y, pp, nl);
    assert(y.take(3) =~= pp);
    assert(y.skip(3) =~= x);
    assert(replace_all(y, pp, nl) == nl + replace_all(x, pp, nl));
    let q = p + nl;
    assert(lacks(q, '<') && lacks(q, '&'));
    assert(p + replace_all(y, pp, nl) =~= q + replace_all(x, pp, nl));
    lemma_cleanup_after_past_prefix(q, replace_all(x, pp, nl));
    assert(q + html_to_text(x) =~= p + nl + html_to_text(x));
}

} // verus!
