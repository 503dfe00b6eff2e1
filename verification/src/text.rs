//! Character-level text operations: searching, replacing, tag removal,
//! line splitting and decimal rendering, each with the mathematical
//! definition it is proved against.
use vstd::prelude::*;

verus! {

// ---------------------------------------------------------------------
// Definitions
// ---------------------------------------------------------------------

/// Whether `pat` occurs in `s` starting at index `i`.
pub open spec fn occurs_at(s: Seq<char>, i: int, pat: Seq<char>) -> bool {
    0 <= i && i + pat.len() <= s.len() && s.subrange(i, i + pat.len()) == pat
}

/// The first index `k >= i` at which `pat` occurs in `s`, for a non-empty
/// `pat` (an empty one is not looked for at the end of `s`).
pub open spec fn find_from(s: Seq<char>, pat: Seq<char>, i: int) -> Option<int>
    decreases s.len() - i,
{
    if i < 0 || i >= s.len() || i + pat.len() > s.len() {
        None
    } else if occurs_at(s, i, pat) {
        Some(i)
    } else {
        find_from(s, pat, i + 1)
    }
}

/// `s` with every non-overlapping occurrence of a non-empty `pat` replaced
/// by `rep`, occurrences taken from the left (the behaviour of
/// `str::replace` for a non-empty pattern; an empty `pat` leaves `s` as it is).
pub open spec fn replace_all(s: Seq<char>, pat: Seq<char>, rep: Seq<char>) -> Seq<char>
    decreases s.len(),
{
    if pat.len() == 0 || s.len() < pat.len() {
        s
    } else if s.take(pat.len() as int) == pat {
        rep + replace_all(s.skip(pat.len() as int), pat, rep)
    } else {
        seq![s[0]] + replace_all(s.skip(1), pat, rep)
    }
}

/// Repeatedly removes the first span that starts with `open` and ends at the
/// next `'>'`, until no `open` is left or the first one has no `'>'` after it.
pub open spec fn strip_tags(s: Seq<char>, open: Seq<char>) -> Seq<char>
    decreases s.len(),
{
    match find_from(s, open, 0) {
        None => s,
        Some(st) => match find_from(s, seq!['>'], st) {
            None => s,
            Some(e) => {
                proof {
                    lemma_find_from_bounds(s, open, 0);
                    lemma_find_from_bounds(s, seq!['>'], st);
                }
                strip_tags(s.take(st) + s.skip(e + 1), open)
            },
        },
    }
}

/// The decimal digit for `d` (`d < 10`).
pub open spec fn digit_char(d: nat) -> char {
    seq!['0', '1', '2', '3', '4', '5', '6', '7', '8', '9'][d as int]
}

/// The decimal representation of `n`, without leading zeros.
pub open spec fn decimal(n: nat) -> Seq<char>
    decreases n,
{
    if n < 10 {
        seq![digit_char(n)]
    } else {
        decimal(n / 10).push(digit_char(n % 10))
    }
}

/// The decimal representation of a signed integer, with a leading `'-'` when negative.
pub open spec fn signed_decimal(n: int) -> Seq<char> {
    if n < 0 {
        seq!['-'] + decimal((-n) as nat)
    } else {
        decimal(n as nat)
    }
}

/// `n` copies of `c`.
pub open spec fn repeat_char(c: char, n: nat) -> Seq<char> {
    Seq::new(n, |i: int| c)
}

/// `s` with one trailing `'\r'` removed, if it has one.
pub open spec fn trim_cr(s: Seq<char>) -> Seq<char> {
    if s.len() > 0 && s.last() == '\r' {
        s.drop_last()
    } else {
        s
    }
}

/// The lines of `s` (the behaviour of `str::lines`): pieces separated by
/// `'\n'`, a `'\r'` just before a `'\n'` dropped, and no empty last line
/// after a final line break.
pub open spec fn text_lines(s: Seq<char>) -> Seq<Seq<char>>
    decreases s.len(),
{
    if s.len() == 0 {
        seq![]
    } else {
        match find_from(s, seq!['\n'], 0) {
            None => seq![s],
            Some(k) => {
                proof {
                    lemma_find_from_bounds(s, seq!['\n'], 0);
                }
                seq![trim_cr(s.take(k))] + text_lines(s.skip(k + 1))
            },
        }
    }
}

/// The pieces of `s` separated by `c` (the behaviour of `str::split` with a
/// character): one more piece than there are separators.
pub open spec fn split_on(s: Seq<char>, c: char) -> Seq<Seq<char>>
    decreases s.len(),
{
    match find_from(s, seq![c], 0) {
        None => seq![s],
        Some(k) => {
            proof {
                lemma_find_from_bounds(s, seq![c], 0);
            }
            seq![s.take(k)] + split_on(s.skip(k + 1), c)
        },
    }
}

// ---------------------------------------------------------------------
// Lemmas
// ---------------------------------------------------------------------

/// What `find_from` returns is an occurrence at or after `i`, and the first one.
pub proof fn lemma_find_from_bounds(s: Seq<char>, pat: Seq<char>, i: int)
    requires
        0 <= i,
    ensures
        match find_from(s, pat, i) {
            Some(k) => {
                &&& i <= k
                &&& 0 <= k < s.len()
                &&& k + pat.len() <= s.len()
                &&& occurs_at(s, k, pat)
                &&& forall|j: int| i <= j < k ==> !occurs_at(s, j, pat)
            },
            None => forall|j: int| i <= j && 0 <= j < s.len() ==> !occurs_at(s, j, pat),
        },
    decreases s.len() - i,
{
    if i >= s.len() || i + pat.len() > s.len() {
    } else if occurs_at(s, i, pat) {
    } else {
        lemma_find_from_bounds(s, pat, i + 1);
    }
}

/// Searching a suffix of `s` is searching `s` from the suffix's start.
pub proof fn lemma_find_from_skip(s: Seq<char>, pat: Seq<char>, p: int, j: int)
    requires
        0 <= p <= s.len(),
        0 <= j,
    ensures
        find_from(s.skip(p), pat, j) == (match find_from(s, pat, p + j) {
            Some(k) => Some(k - p),
            None => None,
        }),
    decreases s.len() - p - j,
{
    let t = s.skip(p);
    if j >= t.len() || j + pat.len() > t.len() {
    } else {
        assert(t.subrange(j, j + pat.len()) =~= s.subrange(p + j, p + j + pat.len()));
        if occurs_at(t, j, pat) {
        } else {
            lemma_find_from_skip(s, pat, p, j + 1);
        }
    }
}

/// One step of splitting: the piece of `s` that starts at `start` ends at the
/// next separator, and the pieces after it are those of what follows it.
pub proof fn lemma_split_step(s: Seq<char>, c: char, start: int)
    requires
        0 <= start <= s.len(),
    ensures
        match find_from(s, seq![c], start) {
            Some(k) => {
                &&& start <= k < s.len()
                &&& split_on(s.skip(start), c) == seq![s.subrange(start, k)] + split_on(s.skip(k + 1), c)
            },
            None => split_on(s.skip(start), c) == seq![s.skip(start)],
        },
{
    lemma_find_from_skip(s, seq![c], start, 0);
    lemma_find_from_bounds(s, seq![c], start);
    let t = s.skip(start);
    match find_from(s, seq![c], start) {
        Some(k) => {
            assert(t.take(k - start) =~= s.subrange(start, k));
            assert(t.skip(k - start + 1) =~= s.skip(k + 1));
        },
        None => {},
    }
}

/// A single-character pattern occurs exactly where that character stands.
pub proof fn lemma_occurs_single(s: Seq<char>, j: int, c: char)
    requires
        0 <= j < s.len(),
    ensures
        occurs_at(s, j, seq![c]) <==> s[j] == c,
{
    assert(s.subrange(j, j + 1) =~= seq![s[j]]);
    assert(seq![s[j]][0] == s[j] && seq![c][0] == c);
    if s[j] == c {
        assert(seq![s[j]] =~= seq![c]);
    }
}

/// A pattern whose first character does not occur in `s` is found nowhere.
pub proof fn lemma_find_absent(s: Seq<char>, pat: Seq<char>, i: int)
    requires
        0 <= i,
        pat.len() > 0,
        forall|k: int| 0 <= k < s.len() ==> s[k] != pat[0],
    ensures
        find_from(s, pat, i) is None,
    decreases s.len() - i,
{
    if i >= s.len() || i + pat.len() > s.len() {
    } else {
        assert(s.subrange(i, i + pat.len())[0] == s[i]);
        lemma_find_absent(s, pat, i + 1);
    }
}

/// Law: replacing a pattern whose first character does not occur in `s`
/// leaves `s` unchanged.
pub proof fn law_replace_absent_is_identity(s: Seq<char>, pat: Seq<char>, rep: Seq<char>)
    requires
        pat.len() > 0,
        forall|k: int| 0 <= k < s.len() ==> s[k] != pat[0],
    ensures
        replace_all(s, pat, rep) == s,
    decreases s.len(),
{
    if s.len() < pat.len() {
    } else {
        assert(s.take(pat.len() as int)[0] == s[0]);
        law_replace_absent_is_identity(s.skip(1), pat, rep);
        assert(seq![s[0]] + s.skip(1) =~= s);
    }
}

/// Law: removing tags that open with a character that does not occur in `s`
/// leaves `s` unchanged.
pub proof fn law_strip_absent_is_identity(s: Seq<char>, open: Seq<char>)
    requires
        open.len() > 0,
        forall|k: int| 0 <= k < s.len() ==> s[k] != open[0],
    ensures
        strip_tags(s, open) == s,
{
    lemma_find_absent(s, open, 0);
}

/// Law: after tags opening with `'<'` are removed, no `'<'` is followed,
/// anywhere later, by a `'>'`: nothing that looks like a tag is left.
pub proof fn law_no_tag_left(s: Seq<char>)
    ensures
        forall|i: int, j: int|
            0 <= i < j < strip_tags(s, seq!['<']).len() && strip_tags(s, seq!['<'])[i] == '<'
                ==> strip_tags(s, seq!['<'])[j] != '>',
    decreases s.len(),
{
    lemma_find_from_bounds(s, seq!['<'], 0);
    match find_from(s, seq!['<'], 0) {
        None => {
            assert forall|i: int| 0 <= i < s.len() implies s[i] != '<' by {
                lemma_occurs_single(s, i, '<');
            }
            assert(strip_tags(s, seq!['<']) == s);
        },
        Some(st) => {
            lemma_find_from_bounds(s, seq!['>'], st);
            match find_from(s, seq!['>'], st) {
                None => {
                    assert forall|i: int, j: int| 0 <= i < j < s.len() && s[i] == '<' implies s[j] != '>' by {
                        lemma_occurs_single(s, i, '<');
                        lemma_occurs_single(s, j, '>');
                        assert(!(i < st));
                    }
                    assert(strip_tags(s, seq!['<']) == s);
                },
                Some(e) => {
                    law_no_tag_left(s.take(st) + s.skip(e + 1));
                    assert(strip_tags(s, seq!['<']) == strip_tags(s.take(st) + s.skip(e + 1), seq!['<']));
                },
            }
        },
    }
}

/// Whether `c` does not occur in `s`.
pub open spec fn lacks(s: Seq<char>, c: char) -> bool {
    forall|k: int| 0 <= k < s.len() ==> s[k] != c
}

/// No occurrence of `pat` starts inside a prefix `p` that lacks its first
/// character, so a search from inside `p` finds what a search from its end does.
pub proof fn lemma_find_from_past_prefix(p: Seq<char>, x: Seq<char>, pat: Seq<char>, i: int)
    requires
        pat.len() > 0,
        lacks(p, pat[0]),
        0 <= i <= p.len(),
    ensures
        find_from(p + x, pat, i) == find_from(p + x, pat, p.len() as int),
    decreases p.len() - i,
{
    let s = p + x;
    if i < p.len() {
        if i + pat.len() <= s.len() {
            assert(s.subrange(i, i + pat.len())[0] == s[i]);
            assert(!occurs_at(s, i, pat));
        }
        lemma_find_from_past_prefix(p, x, pat, i + 1);
        if i + pat.len() > s.len() {
            assert(p.len() + pat.len() > s.len());
        }
    }
}

/// Replacing in `p + x`, where `p` lacks the pattern's first character, leaves
/// `p` as it is and replaces in `x`.
pub proof fn lemma_replace_past_prefix(p: Seq<char>, x: Seq<char>, pat: Seq<char>, rep: Seq<char>)
    requires
        pat.len() > 0,
        lacks(p, pat[0]),
    ensures
        replace_all(p + x, pat, rep) == p + replace_all(x, pat, rep),
    decreases p.len(),
{
    let s = p + x;
    if p.len() == 0 {
        assert(s =~= x);
        assert(p + replace_all(x, pat, rep) =~= replace_all(x, pat, rep));
    } else if s.len() < pat.len() {
        assert(replace_all(x, pat, rep) == x);
    } else {
        assert(s.take(pat.len() as int)[0] == p[0]);
        assert(s.skip(1) =~= p.skip(1) + x);
        lemma_replace_past_prefix(p.skip(1), x, pat, rep);
        assert(seq![s[0]] + (p.skip(1) + replace_all(x, pat, rep)) =~= p + replace_all(x, pat, rep));
    }
}

/// Removing tags from `p + x`, where `p` lacks the tag's first character,
/// leaves `p` as it is and removes tags from `x`.
pub proof fn lemma_strip_past_prefix(p: Seq<char>, x: Seq<char>, open: Seq<char>)
    requires
        open.len() > 0,
        lacks(p, open[0]),
    ensures
        strip_tags(p + x, open) == p + strip_tags(x, open),
    decreases x.len(),
{
    let s = p + x;
    let n = p.len() as int;
    assert(s.skip(n) =~= x);
    lemma_find_from_past_prefix(p, x, open, 0);
    lemma_find_from_skip(s, open, n, 0);
    lemma_find_from_bounds(x, open, 0);
    match find_from(x, open, 0) {
        None => {},
        Some(st) => {
            lemma_find_from_skip(s, seq!['>'], n, st);
            lemma_find_from_bounds(x, seq!['>'], st);
            match find_from(x, seq!['>'], st) {
                None => {},
                Some(e) => {
                    let x2 = x.take(st) + x.skip(e + 1);
                    assert(s.take(n + st) + s.skip(n + e + 1) =~= p + x2);
                    lemma_strip_past_prefix(p, x2, open);
                },
            }
        },
    }
}

// ---------------------------------------------------------------------
// Executable operations
// ---------------------------------------------------------------------

/// Appends one character to a string (std `String::push`, whose
/// documentation says that it appends the given `char` to the end).
#[verifier::external_body]
pub(crate) fn push_char(s: &mut String, c: char)
    ensures
        final(s)@ == old(s)@.push(c),
{
    s.push(c);
}

/// The characters of `s`, in order.
pub fn chars_of(s: &str) -> (res: Vec<char>)
    ensures
        res@ == s@,
{
    let mut res: Vec<char> = Vec::new();
    for c in it: s.chars()
        invariant
            res@ == it.seq().take(it.index() as int),
    {
        res.push(c);
    }
    res
}

/// The string made of the characters of `v`, in order.
pub fn string_of(v: &Vec<char>) -> (res: String)
    ensures
        res@ == v@,
{
    let mut res = String::new();
    for i in 0..v.len()
        invariant
            res@ == v@.take(i as int),
    {
        push_char(&mut res, v[i]);
        assert(v@.take(i + 1) == v@.take(i as int).push(v@[i as int]));
    }
    assert(v@.take(v.len() as int) == v@);
    res
}

/// Appends the characters of `src` to `dst`.
pub fn push_chars(dst: &mut Vec<char>, src: &Vec<char>)
    ensures
        final(dst)@ == old(dst)@ + src@,
{
    let ghost start = dst@;
    for i in 0..src.len()
        invariant
            dst@ == start + src@.take(i as int),
    {
        dst.push(src[i]);
        assert(src@.take(i + 1) == src@.take(i as int).push(src@[i as int]));
    }
    assert(src@.take(src.len() as int) == src@);
}

/// Appends the characters of `src` to the string `dst`.
pub fn push_str_chars(dst: &mut String, src: &Vec<char>)
    ensures
        final(dst)@ == old(dst)@ + src@,
{
    let ghost start = dst@;
    for i in 0..src.len()
        invariant
            dst@ == start + src@.take(i as int),
    {
        push_char(dst, src[i]);
        assert(src@.take(i + 1) == src@.take(i as int).push(src@[i as int]));
    }
    assert(src@.take(src.len() as int) == src@);
}

/// Whether `pat` occurs in `s` at index `i`.
pub fn occurs_at_exec(s: &Vec<char>, i: usize, pat: &Vec<char>) -> (res: bool)
    ensures
        res == occurs_at(s@, i as int, pat@),
{
    if i > s.len() || pat.len() > s.len() - i {
        return false;
    }
    let mut j: usize = 0;
    while j < pat.len()
        invariant
            i + pat.len() <= s.len(),
            j <= pat.len(),
            forall|k: int| 0 <= k < j ==> s@[i + k] == pat@[k],
        decreases pat.len() - j,
    {
        if s[i + j] != pat[j] {
            assert(s@.subrange(i as int, i + pat.len())[j as int] != pat@[j as int]);
            return false;
        }
        j += 1;
    }
    assert(s@.subrange(i as int, i + pat.len()) =~= pat@);
    true
}

/// The first index at or after `start` at which `pat` occurs in `s`.
pub fn find_chars(s: &Vec<char>, pat: &Vec<char>, start: usize) -> (res: Option<usize>)
    ensures
        match res {
            Some(k) => find_from(s@, pat@, start as int) == Some(k as int),
            None => find_from(s@, pat@, start as int) is None,
        },
{
    let mut k: usize = start;
    while k < s.len() && pat.len() <= s.len() - k
        invariant
            start <= k,
            find_from(s@, pat@, start as int) == find_from(s@, pat@, k as int),
        decreases s.len() - k,
    {
        if occurs_at_exec(s, k, pat) {
            return Some(k);
        }
        k += 1;
    }
    None
}

/// `s` with every occurrence of `pat` replaced by `rep`, as `str::replace` does.
pub fn replace_chars(s: &Vec<char>, pat: &Vec<char>, rep: &Vec<char>) -> (res: Vec<char>)
    requires
        pat@.len() > 0,
    ensures
        res@ == replace_all(s@, pat@, rep@),
{
    let mut res: Vec<char> = Vec::new();
    let mut i: usize = 0;
    assert(s@.skip(0) =~= s@);
    assert(res@ + replace_all(s@, pat@, rep@) =~= replace_all(s@, pat@, rep@));
    while i < s.len()
        invariant
            i <= s.len(),
            pat@.len() > 0,
            res@ + replace_all(s@.skip(i as int), pat@, rep@) == replace_all(s@, pat@, rep@),
        decreases s.len() - i,
    {
        let ghost t = s@.skip(i as int);
        if occurs_at_exec(s, i, pat) {
            assert(t.take(pat@.len() as int) =~= pat@);
            assert(t.skip(pat@.len() as int) =~= s@.skip(i + pat@.len()));
            push_chars(&mut res, rep);
            i += pat.len();
        } else {
            proof {
                if t.len() >= pat@.len() {
                    assert(t.take(pat@.len() as int) != pat@) by {
                        assert(t.take(pat@.len() as int) =~= s@.subrange(i as int, i + pat@.len()));
                    }
                    assert(t.skip(1) =~= s@.skip(i + 1));
                } else {
                    assert(replace_all(t.skip(1), pat@, rep@) == t.skip(1));
                    assert(t =~= seq![t[0]] + t.skip(1));
                    assert(t.skip(1) =~= s@.skip(i + 1));
                }
            }
            res.push(s[i]);
            assert(res@ + replace_all(s@.skip(i + 1), pat@, rep@) =~= (res@.drop_last()) + (seq![t[0]] + replace_all(t.skip(1), pat@, rep@)));
            i += 1;
        }
    }
    assert(s@.skip(i as int) =~= Seq::<char>::empty());
    assert(res@ + Seq::<char>::empty() =~= res@);
    res
}

/// Removes tags that start with `open`, as `strip_tags` describes.
pub fn strip_tags_chars(s: Vec<char>, open: &Vec<char>) -> (res: Vec<char>)
    ensures
        res@ == strip_tags(s@, open@),
{
    let mut cur = s;
    loop
        invariant
            strip_tags(cur@, open@) == strip_tags(s@, open@),
        decreases cur@.len(),
    {
        proof {
            lemma_find_from_bounds(cur@, open@, 0);
        }
        match find_chars(&cur, open, 0) {
            None => {
                return cur;
            },
            Some(st) => {
                let gt = vec!['>'];
                proof {
                    lemma_find_from_bounds(cur@, seq!['>'], st as int);
                }
                assert(gt@ == seq!['>']);
                match find_chars(&cur, &gt, st) {
                    None => {
                        return cur;
                    },
                    Some(e) => {
                        let mut next: Vec<char> = Vec::new();
                        for j in 0..st
                            invariant
                                st < cur.len(),
                                next@ == cur@.take(j as int),
                        {
                            next.push(cur[j]);
                            assert(cur@.take(j + 1) == cur@.take(j as int).push(cur@[j as int]));
                        }
                        let mut j: usize = e + 1;
                        while j < cur.len()
                            invariant
                                st <= e < cur.len(),
                                e + 1 <= j <= cur.len(),
                                next@ == cur@.take(st as int) + cur@.subrange(e + 1, j as int),
                            decreases cur.len() - j,
                        {
                            next.push(cur[j]);
                            assert(cur@.subrange(e + 1, j + 1) == cur@.subrange(e + 1, j as int).push(cur@[j as int]));
                            j += 1;
                        }
                        assert(next@ =~= cur@.take(st as int) + cur@.skip(e + 1));
                        cur = next;
                    },
                }
            },
        }
    }
}

/// The characters of `s` from index `lo` up to (not including) `hi`.
pub fn slice_chars(s: &Vec<char>, lo: usize, hi: usize) -> (res: Vec<char>)
    requires
        lo <= hi <= s@.len(),
    ensures
        res@ == s@.subrange(lo as int, hi as int),
{
    let mut res: Vec<char> = Vec::new();
    let mut j: usize = lo;
    while j < hi
        invariant
            lo <= j <= hi <= s@.len(),
            res@ == s@.subrange(lo as int, j as int),
        decreases hi - j,
    {
        res.push(s[j]);
        assert(s@.subrange(lo as int, j + 1) == s@.subrange(lo as int, j as int).push(s@[j as int]));
        j += 1;
    }
    res
}

/// The decimal digit for `d < 10`.
fn digit_exec(d: u64) -> (c: char)
    requires
        d < 10,
    ensures
        c == digit_char(d as nat),
{
    let digits: [char; 10] = ['0', '1', '2', '3', '4', '5', '6', '7', '8', '9'];
    assert(digits@ == seq!['0', '1', '2', '3', '4', '5', '6', '7', '8', '9']);
    digits[d as usize]
}

/// Appends the decimal representation of `n` to `s`.
pub fn push_decimal(s: &mut String, n: u64)
    ensures
        final(s)@ == old(s)@ + decimal(n as nat),
    decreases n,
{
    let ghost start = s@;
    if n >= 10 {
        push_decimal(s, n / 10);
    }
    let d = digit_exec(n % 10);
    push_char(s, d);
    proof {
        if n >= 10 {
            assert(start + decimal(n as nat) =~= (start + decimal((n / 10) as nat)).push(d));
        } else {
            assert(start + decimal(n as nat) =~= start.push(d));
        }
    }
}

/// Appends the decimal representation of a signed `n` to `s`.
pub fn push_signed_decimal(s: &mut String, n: i32)
    ensures
        final(s)@ == old(s)@ + signed_decimal(n as int),
{
    if n < 0 {
        push_char(s, '-');
        let m: u64 = (0i64 - (n as i64)) as u64;
        push_decimal(s, m);
        assert(s@ =~= old(s)@ + signed_decimal(n as int));
    } else {
        push_decimal(s, n as u64);
    }
}

/// Appends `n` copies of `c` to `s`.
pub fn push_repeat(s: &mut String, c: char, n: usize)
    ensures
        final(s)@ == old(s)@ + repeat_char(c, n as nat),
{
    let ghost start = s@;
    for i in 0..n
        invariant
            s@ == start + repeat_char(c, i as nat),
    {
        push_char(s, c);
        assert(repeat_char(c, (i + 1) as nat) =~= repeat_char(c, i as nat).push(c));
    }
}

/// The lines of `s`, as `text_lines` describes (the behaviour of `str::lines`).
pub fn lines_of(s: &Vec<char>) -> (res: Vec<Vec<char>>)
    ensures
        res@.map_values(|l: Vec<char>| l@) == text_lines(s@),
{
    let nl = vec!['\n'];
    assert(nl@ == seq!['\n']);
    let mut out: Vec<Vec<char>> = Vec::new();
    let mut pos: usize = 0;
    assert(s@.skip(0) =~= s@);
    assert(out@.map_values(|l: Vec<char>| l@) + text_lines(s@) =~= text_lines(s@));
    while pos < s.len()
        invariant
            pos <= s@.len(),
            nl@ == seq!['\n'],
            out@.map_values(|l: Vec<char>| l@) + text_lines(s@.skip(pos as int)) == text_lines(s@),
        decreases s@.len() - pos,
    {
        let ghost t = s@.skip(pos as int);
        let ghost before = out@.map_values(|l: Vec<char>| l@);
        proof {
            lemma_find_from_skip(s@, seq!['\n'], pos as int, 0);
            lemma_find_from_bounds(s@, seq!['\n'], pos as int);
        }
        match find_chars(s, &nl, pos) {
            None => {
                let line = slice_chars(s, pos, s.len());
                assert(line@ =~= t);
                out.push(line);
                assert(out@.map_values(|l: Vec<char>| l@) =~= before.push(t));
                assert(s@.skip(s@.len() as int) =~= Seq::<char>::empty());
                assert(text_lines(t) == seq![t]);
                assert(out@.map_values(|l: Vec<char>| l@) + text_lines(Seq::<char>::empty()) =~= before + text_lines(t));
                pos = s.len();
            },
            Some(k) => {
                let raw = slice_chars(s, pos, k);
                let line = if k > pos && s[k - 1] == '\r' {
                    slice_chars(s, pos, k - 1)
                } else {
                    raw
                };
                let ghost kk = (k - pos) as int;
                assert(t.take(kk) =~= s@.subrange(pos as int, k as int));
                assert(line@ == trim_cr(t.take(kk)));
                assert(t.skip(kk + 1) =~= s@.skip(k + 1));
                assert(text_lines(t) == seq![trim_cr(t.take(kk))] + text_lines(t.skip(kk + 1)));
                out.push(line);
                assert(out@.map_values(|l: Vec<char>| l@) =~= before.push(line@));
                assert(out@.map_values(|l: Vec<char>| l@) + text_lines(s@.skip(k + 1)) =~= before + text_lines(t));
                pos = k + 1;
            },
        }
    }
    assert(s@.skip(pos as int) =~= Seq::<char>::empty());
    assert(out@.map_values(|l: Vec<char>| l@) + text_lines(Seq::<char>::empty()) =~= out@.map_values(|l: Vec<char>| l@));
    out
}

} // verus!
