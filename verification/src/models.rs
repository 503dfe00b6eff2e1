//! The records that the Hacker News search and items endpoints return, and
//! the ordering of stories by score.
use vstd::prelude::*;

verus! {

/// One story of a search result.
#[derive(Debug, Clone)]
pub struct Article {
    pub object_id: String,
    pub title: String,
    pub url: Option<String>,
    pub score: i32,
    pub created_at: String,
}

/// One page of search results.
#[derive(Debug, Clone)]
pub struct ApiResponse {
    pub hits: Vec<Article>,
    pub nb_hits: u32,
    pub page: u32,
    pub nb_pages: u32,
    pub hits_per_page: u32,
}

/// One comment of a discussion thread, with its replies.
#[derive(Debug)]
pub struct Comment {
    pub author: Option<String>,
    pub text: Option<String>,
    pub created_at: Option<String>,
    pub children: Vec<Comment>,
}

/// A story as the items endpoint returns it: its title and its comment tree.
#[derive(Debug)]
pub struct ItemResponse {
    pub title: Option<String>,
    pub children: Vec<Comment>,
}

/// No story is followed by one with a higher score.
pub open spec fn sorted_by_score_desc(s: Seq<Article>) -> bool {
    forall|i: int, j: int| 0 <= i < j < s.len() ==> s[i].score >= s[j].score
}

/// The stories of `s` whose score is `k`, in their order in `s`.
pub open spec fn with_score(s: Seq<Article>, k: i32) -> Seq<Article> {
    s.filter(score_is(k))
}

/// Whether a story's score is `k`.
pub open spec fn score_is(k: i32) -> spec_fn(Article) -> bool {
    |a: Article| a.score == k
}

/// Filtering by score commutes with inserting a story in front of a run of
/// lower-scored stories: the inserted story joins its own score's run last.
proof fn lemma_with_score_insert(a: Seq<Article>, p: int, x: Article, k: i32)
    requires
        0 <= p <= a.len(),
        forall|j: int| p <= j < a.len() ==> a[j].score < x.score,
    ensures
        with_score(a.insert(p, x), k) == if x.score == k {
            with_score(a, k).push(x)
        } else {
            with_score(a, k)
        },
{
    let pred = score_is(k);
    let front = a.take(p);
    let back = a.skip(p);
    assert(a.insert(p, x) =~= front + seq![x] + back);
    assert(a =~= front + back);
    Seq::filter_distributes_over_add(front + seq![x], back, pred);
    Seq::filter_distributes_over_add(front, seq![x], pred);
    Seq::filter_distributes_over_add(front, back, pred);
    assert(seq![x].filter(pred) == if x.score == k { seq![x] } else { Seq::<Article>::empty() }) by {
        Seq::<Article>::empty().lemma_filter_push(x, pred);
        assert(Seq::<Article>::empty().push(x) =~= seq![x]);
        assert(Seq::<Article>::empty().filter(pred) =~= Seq::<Article>::empty()) by {
            reveal(Seq::filter);
        }
    }
    if x.score == k {
        assert(back.all(|b: Article| !pred(b)));
        back.lemma_all_neg_filter_empty(pred);
        assert(back.filter(pred) =~= Seq::<Article>::empty());
        assert(front.filter(pred) + seq![x] + back.filter(pred) =~= (front.filter(pred) + back.filter(pred)).push(x));
    } else {
        assert(front.filter(pred) + Seq::<Article>::empty() + back.filter(pred) =~= front.filter(pred) + back.filter(pred));
    }
}

/// Orders stories by score, highest first; stories with equal scores keep
/// their relative order (a stable sort).
pub fn sort_by_score_desc(articles: &mut Vec<Article>)
    ensures
        final(articles)@.len() == old(articles)@.len(),
        sorted_by_score_desc(final(articles)@),
        forall|k: i32| with_score(final(articles)@, k) == #[trigger] with_score(old(articles)@, k),
        final(articles)@.to_multiset() == old(articles)@.to_multiset(),
{
    let mut rest: Vec<Article> = Vec::new();
    std::mem::swap(&mut rest, articles);
    let ghost orig = rest@;
    let ghost mut n: int = 0;
    assert(orig.skip(0) =~= orig);
    assert forall|k: i32| with_score(articles@, k) == #[trigger] with_score(orig.take(0), k) by {
        assert(articles@ =~= orig.take(0));
    }
    while rest.len() > 0
        invariant
            0 <= n <= orig.len(),
            rest@ == orig.skip(n),
            articles@.len() == n,
            sorted_by_score_desc(articles@),
            forall|k: i32| with_score(articles@, k) == #[trigger] with_score(orig.take(n), k),
        decreases rest.len(),
    {
        let x = rest.remove(0);
        assert(x == orig[n]);
        let mut p: usize = 0;
        while p < articles.len() && articles[p].score >= x.score
            invariant
                p <= articles@.len(),
                forall|j: int| 0 <= j < p ==> articles@[j].score >= x.score,
            decreases articles@.len() - p,
        {
            p += 1;
        }
        let ghost a = articles@;
        assert forall|j: int| p <= j < a.len() implies a[j].score < x.score by {
            assert(a[p as int].score < x.score);
            assert(a[p as int].score >= a[j].score);
        }
        assert forall|k: i32| with_score(a.insert(p as int, x), k) == #[trigger] with_score(orig.take(n + 1), k) by {
            lemma_with_score_insert(a, p as int, x, k);
            assert(orig.take(n + 1) =~= orig.take(n).push(x));
            orig.take(n).lemma_filter_push(x, score_is(k));
            assert(with_score(a, k) == with_score(orig.take(n), k));
        }
        articles.insert(p, x);
        assert(articles@ =~= a.insert(p as int, x));
        assert(rest@ =~= orig.skip(n + 1));
        proof {
            n = n + 1;
        }
    }
    assert(orig.take(n) =~= orig);
    proof {
        law_sort_keeps_stories(orig, articles@);
    }
}

/// A story occurs as often among the stories of its own score as in the
/// whole sequence.
proof fn lemma_count_within_score(s: Seq<Article>, a: Article)
    ensures
        with_score(s, a.score).to_multiset().count(a) == s.to_multiset().count(a),
    decreases s.len(),
{
    let pred = score_is(a.score);
    if s.len() == 0 {
        assert(s.filter(pred) =~= Seq::<Article>::empty()) by {
            reveal(Seq::filter);
        }
        s.to_multiset_ensures();
        s.filter(pred).to_multiset_ensures();
        assert(!s.contains(a) && !s.filter(pred).contains(a));
    } else {
        let t = s.drop_last();
        let x = s.last();
        assert(t.push(x) =~= s);
        lemma_count_within_score(t, a);
        t.lemma_filter_push(x, pred);
        t.to_multiset_ensures();
        t.filter(pred).to_multiset_ensures();
    }
}

/// Law: sorting keeps exactly the stories it was given: when every score's
/// stories are the same before and after, as the sort ensures, each story
/// occurs as many times after as before.
pub proof fn law_sort_keeps_stories(before: Seq<Article>, after: Seq<Article>)
    requires
        forall|k: i32| with_score(after, k) == #[trigger] with_score(before, k),
    ensures
        after.to_multiset() == before.to_multiset(),
{
    assert forall|a: Article| after.to_multiset().count(a) == before.to_multiset().count(a) by {
        lemma_count_within_score(after, a);
        lemma_count_within_score(before, a);
        assert(with_score(after, a.score) == with_score(before, a.score));
    }
    assert(after.to_multiset() =~= before.to_multiset());
}

} // verus!
