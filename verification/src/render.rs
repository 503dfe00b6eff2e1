//! The text of the reader's screens: page titles, story lines and the lines
//! of a comment thread, each with what it is built from.
use vstd::prelude::*;
use crate::models::Article;
use crate::text::{
    chars_of, decimal, lines_of, push_char, push_decimal, push_signed_decimal, push_str_chars,
    lemma_find_absent, repeat_char, signed_decimal, text_lines,
};
use crate::ui::{parse_date, readable_date, FlatComment, FlatEntry, Ui};

verus! {

/// The message shown while page `page` (counted from 0) loads.
pub fn loading_message(page: u32) -> (res: String)
    requires
        page < u32::MAX,
    ensures
        res@ == "Loading page "@ + decimal((page + 1) as nat) + "..."@,
{
    let mut res = String::from_str("Loading page ");
    push_decimal(&mut res, (page + 1) as u64);
    res.append("...");
    res
}

/// The title of the story list on page `current_page` (counted from 0) of
/// `total_pages`.
pub fn page_title(current_page: u32, total_pages: u32) -> (res: String)
    requires
        current_page < u32::MAX,
    ensures
        res@ == "Hacker News Top Stories \u{2014} Page "@ + decimal((current_page + 1) as nat) + " / "@
            + decimal(total_pages as nat),
{
    let mut res = String::from_str("Hacker News Top Stories \u{2014} Page ");
    push_decimal(&mut res, (current_page + 1) as u64);
    res.append(" / ");
    push_decimal(&mut res, total_pages as u64);
    res
}

/// The footer of the comment view, with the number of entries.
pub fn comments_footer(total: usize) -> (res: String)
    ensures
        res@ == "Commands: \u{2191}\u{2193}/j k Scroll | Esc/Backspace Back | "@ + decimal(total as nat)
            + " comments"@,
{
    let mut res = String::from_str("Commands: \u{2191}\u{2193}/j k Scroll | Esc/Backspace Back | ");
    push_decimal(&mut res, total as u64);
    res.append(" comments");
    res
}

/// The line of the story list for `article` at position `global_index`
/// (counted from 1 over all pages), marked with `"> "` when selected.
pub open spec fn article_line_text(global_index: nat, article: Article, selected: bool) -> Seq<
    char,
> {
    (if selected {
        "> "@
    } else {
        "  "@
    }) + decimal(global_index) + ". "@ + article.title@ + " (Score: "@ + signed_decimal(
        article.score as int,
    ) + ", Date: "@ + readable_date(article.created_at@) + ")"@
}

/// The line of the story list for one story, as `article_line_text` describes.
pub fn article_line(global_index: usize, article: &Article, selected: bool) -> (res: String)
    ensures
        res@ == article_line_text(global_index as nat, *article, selected),
{
    let mut res = if selected {
        String::from_str("> ")
    } else {
        String::from_str("  ")
    };
    push_decimal(&mut res, global_index as u64);
    res.append(". ");
    res.append(article.title.as_str());
    res.append(" (Score: ");
    push_signed_decimal(&mut res, article.score);
    res.append(", Date: ");
    let date = parse_date(article.created_at.as_str());
    res.append(date.as_str());
    res.append(")");
    res
}

impl Ui {
    /// The lines of the story list: the story at position `i` of the page is
    /// numbered `20 * current_page + i + 1` and marked when it is selected.
    pub fn article_lines(&self, articles: &[Article]) -> (res: Vec<String>)
        requires
            self.current_page * 20 + articles@.len() <= usize::MAX,
        ensures
            res@.len() == articles@.len(),
            forall|i: int|
                0 <= i < articles@.len() ==> (#[trigger] res@[i])@ == article_line_text(
                    (self.current_page * 20 + i + 1) as nat,
                    articles@[i],
                    i == self.selected_index,
                ),
    {
        let page_offset: usize = (self.current_page as usize) * 20;
        let mut res: Vec<String> = Vec::new();
        for i in 0..articles.len()
            invariant
                page_offset == self.current_page * 20,
                self.current_page * 20 + articles@.len() <= usize::MAX,
                res@.len() == i,
                forall|j: int|
                    0 <= j < i ==> (#[trigger] res@[j])@ == article_line_text(
                        (self.current_page * 20 + j + 1) as nat,
                        articles@[j],
                        j == self.selected_index,
                    ),
        {
            let line = article_line(page_offset + i + 1, &articles[i], i == self.selected_index);
            res.push(line);
        }
        res
    }
}

/// How a line of the comment view is drawn.
#[derive(Debug, Clone, Copy, PartialEq, Eq, Structural)]
pub enum LineKind {
    /// The summary of replies below the depth limit.
    Hidden,
    /// A comment's author and date.
    Header,
    /// A line of a comment's text.
    Body,
    /// The empty line after each comment.
    Blank,
}

/// One line of the comment view.
#[derive(Debug, Clone)]
pub struct StyledLine {
    pub kind: LineKind,
    pub text: String,
}

/// The content of a `StyledLine`.
pub open spec fn line_view(l: StyledLine) -> (LineKind, Seq<char>) {
    (l.kind, l.text@)
}

/// Two spaces per level of depth.
pub open spec fn indent(depth: int) -> Seq<char> {
    repeat_char(' ', (2 * depth) as nat)
}

/// The lines for one entry of a thread, indented by its depth: a summary
/// line (an entry without author) followed by a blank line; or a header with
/// author and readable date, the lines of the text, and a blank line.
pub open spec fn entry_lines(e: FlatEntry) -> Seq<(LineKind, Seq<char>)> {
    let pad = indent(e.depth);
    if e.author.len() == 0 {
        seq![(LineKind::Hidden, pad + e.text), (LineKind::Blank, Seq::<char>::empty())]
    } else {
        let date = if e.created_at.len() > 0 {
            readable_date(e.created_at)
        } else {
            Seq::<char>::empty()
        };
        seq![(LineKind::Header, pad + e.author + " \u{2014} "@ + date)] + text_lines(e.text).map_values(
            |l: Seq<char>| (LineKind::Body, pad + l),
        ) + seq![(LineKind::Blank, Seq::<char>::empty())]
    }
}

/// The lines of the whole comment view, entry after entry.
pub open spec fn thread_lines(es: Seq<FlatEntry>) -> Seq<(LineKind, Seq<char>)>
    decreases es.len(),
{
    if es.len() == 0 {
        Seq::empty()
    } else {
        thread_lines(es.drop_last()) + entry_lines(es.last())
    }
}

/// The indentation for `depth`.
fn indent_string(depth: usize) -> (res: String)
    ensures
        res@ == indent(depth as int),
{
    let mut res = String::new();
    for i in 0..depth
        invariant
            res@ == repeat_char(' ', (2 * i) as nat),
    {
        push_char(&mut res, ' ');
        push_char(&mut res, ' ');
        assert(res@ =~= repeat_char(' ', (2 * (i + 1)) as nat));
    }
    res
}

/// `pad` followed by `rest`, as a new string.
fn joined(pad: &String, rest: &Vec<char>) -> (res: String)
    ensures
        res@ == pad@ + rest@,
{
    let mut res = pad.clone();
    push_str_chars(&mut res, rest);
    res
}

/// Appends the lines of one entry, as `entry_lines` describes.
fn push_entry_lines(out: &mut Vec<StyledLine>, c: &FlatComment)
    ensures
        final(out)@.map_values(|l: StyledLine| line_view(l)) == old(out)@.map_values(
            |l: StyledLine| line_view(l),
        ) + entry_lines(c@),
{
    let ghost before = out@.map_values(|l: StyledLine| line_view(l));
    let pad = indent_string(c.depth);
    if c.author.as_str().is_empty() {
        let text = chars_of(c.text.as_str());
        out.push(StyledLine { kind: LineKind::Hidden, text: joined(&pad, &text) });
        out.push(StyledLine { kind: LineKind::Blank, text: String::new() });
        assert(out@.map_values(|l: StyledLine| line_view(l)) =~= before + entry_lines(c@));
        return;
    }
    let date = if !c.created_at.as_str().is_empty() {
        parse_date(c.created_at.as_str())
    } else {
        String::new()
    };
    let mut header = pad.clone();
    header.append(c.author.as_str());
    header.append(" \u{2014} ");
    header.append(date.as_str());
    let ghost prev = out@;
    let ghost header_view = (LineKind::Header, header@);
    out.push(StyledLine { kind: LineKind::Header, text: header });
    assert(out@ =~= prev.push(StyledLine { kind: LineKind::Header, text: header }));
    let ghost with_header = out@.map_values(|l: StyledLine| line_view(l));
    assert(with_header =~= before.push(header_view));
    let text = chars_of(c.text.as_str());
    let lines = lines_of(&text);
    let ghost body = lines@.map_values(|l: Vec<char>| l@).map_values(
        |l: Seq<char>| (LineKind::Body, pad@ + l),
    );
    for k in 0..lines.len()
        invariant
            pad@ == indent(c.depth as int),
            body.len() == lines@.len(),
            forall|j: int| 0 <= j < lines@.len() ==> #[trigger] body[j] == (LineKind::Body, pad@ + lines@[j]@),
            out@.map_values(|l: StyledLine| line_view(l)) == with_header + body.take(k as int),
    {
        let ghost prev = out@;
        let line = joined(&pad, &lines[k]);
        assert(line_view(StyledLine { kind: LineKind::Body, text: line }) == body[k as int]);
        out.push(StyledLine { kind: LineKind::Body, text: line });
        assert(out@ =~= prev.push(StyledLine { kind: LineKind::Body, text: line }));
        assert(out@.map_values(|l: StyledLine| line_view(l)) =~= prev.map_values(|l: StyledLine| line_view(l)).push(body[k as int]));
        assert(body.take(k + 1) =~= body.take(k as int).push(body[k as int]));
        assert(out@.map_values(|l: StyledLine| line_view(l)) =~= with_header + body.take(k + 1));
    }
    let ghost prev2 = out@;
    let blank = StyledLine { kind: LineKind::Blank, text: String::new() };
    out.push(blank);
    assert(out@ =~= prev2.push(blank));
    assert(body.take(lines@.len() as int) =~= body);
    assert(prev2.map_values(|l: StyledLine| line_view(l)) == with_header + body);
    assert(out@.map_values(|l: StyledLine| line_view(l)) =~= prev2.map_values(|l: StyledLine| line_view(l)).push((LineKind::Blank, Seq::<char>::empty())));
    assert(body =~= text_lines(c.text@).map_values(|l: Seq<char>| (LineKind::Body, indent(c.depth as int) + l)));
    assert(header_view == (LineKind::Header, indent(c.depth as int) + c.author@ + " \u{2014} "@ + (if c.created_at@.len() > 0 {
        readable_date(c.created_at@)
    } else {
        Seq::<char>::empty()
    })));
    assert(out@.map_values(|l: StyledLine| line_view(l)) =~= before.push(header_view) + body + seq![(LineKind::Blank, Seq::<char>::empty())]);
    assert(out@.map_values(|l: StyledLine| line_view(l)) =~= before + entry_lines(c@));
}

/// The lines of the comment view for `comments`, as `thread_lines` describes.
pub fn comment_lines(comments: &[FlatComment]) -> (res: Vec<StyledLine>)
    ensures
        res@.map_values(|l: StyledLine| line_view(l)) == thread_lines(
            comments@.map_values(|c: FlatComment| c@),
        ),
{
    let mut out: Vec<StyledLine> = Vec::new();
    let ghost es = comments@.map_values(|c: FlatComment| c@);
    for i in 0..comments.len()
        invariant
            es == comments@.map_values(|c: FlatComment| c@),
            out@.map_values(|l: StyledLine| line_view(l)) == thread_lines(es.take(i as int)),
    {
        push_entry_lines(&mut out, &comments[i]);
        assert(es.take(i + 1).drop_last() =~= es.take(i as int));
    }
    assert(es.take(comments@.len() as int) =~= es);
    out
}

/// Law: an entry is laid out the same at every depth, each non-blank line
/// only shifted right by the indent of its depth: the same number of lines,
/// of the same kinds, with the same text after the indent.
pub proof fn law_entry_lines_shift_with_depth(e: FlatEntry)
    requires
        e.depth >= 0,
    ensures
        ({
            let flat = FlatEntry { depth: 0, ..e };
            &&& entry_lines(e).len() == entry_lines(flat).len()
            &&& forall|i: int|
                0 <= i < entry_lines(e).len() ==> (#[trigger] entry_lines(e)[i]).0 == entry_lines(
                    flat,
                )[i].0
            &&& forall|i: int|
                0 <= i < entry_lines(e).len() && entry_lines(flat)[i].0 != LineKind::Blank
                    ==> (#[trigger] entry_lines(e)[i]).1 == indent(e.depth) + entry_lines(flat)[i].1
        }),
{
    let flat = FlatEntry { depth: 0, ..e };
    assert(indent(0) =~= Seq::<char>::empty());
    let pad = indent(e.depth);
    if e.author.len() > 0 {
        let body = text_lines(e.text).map_values(|l: Seq<char>| (LineKind::Body, pad + l));
        let body0 = text_lines(e.text).map_values(|l: Seq<char>| (LineKind::Body, indent(0) + l));
        let a = entry_lines(e);
        let b = entry_lines(flat);
        assert forall|i: int| 0 <= i < a.len() implies (#[trigger] a[i]).0 == b[i].0 && (b[i].0
            != LineKind::Blank ==> a[i].1 == pad + b[i].1) by {
            if i == 0 {
                assert(a[0].1 =~= pad + b[0].1);
            } else if i <= body.len() {
                assert(a[i] == body[i - 1]);
                assert(b[i] == body0[i - 1]);
                assert(indent(0) + text_lines(e.text)[i - 1] =~= text_lines(e.text)[i - 1]);
            }
        }
    } else {
        let a = entry_lines(e);
        let b = entry_lines(flat);
        assert(a[0].1 =~= pad + b[0].1);
    }
}

/// Law: a comment whose text is one non-empty line (no line break) is shown,
/// at any depth, as its header, that one line indented by its depth, and a
/// blank line.
pub proof fn law_one_line_text_shown(e: FlatEntry)
    requires
        e.author.len() > 0,
        e.text.len() > 0,
        forall|k: int| 0 <= k < e.text.len() ==> e.text[k] != '\n',
    ensures
        entry_lines(e).len() == 3,
        entry_lines(e)[0].0 == LineKind::Header,
        entry_lines(e)[1] == (LineKind::Body, indent(e.depth) + e.text),
        entry_lines(e)[2].0 == LineKind::Blank,
{
    assert(seq!['\n'][0] == '\n');
    lemma_find_absent(e.text, seq!['\n'], 0);
    assert(text_lines(e.text) == seq![e.text]);
}

} // verus!
