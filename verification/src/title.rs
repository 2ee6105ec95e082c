//! Choice of a page title: an explicit title, the first Markdown heading, or
//! the first ten words of the content.
use vstd::prelude::*;

use crate::text::{
    chars_of, copy_range, find_char, find_char_from, is_white_space, lemma_find_char_from,
    starts_with, string_of, trim, trimmed, white_space,
};

verus! {

/// The parts of `s` between line feeds.
pub open spec fn split_lines(s: Seq<char>) -> Seq<Seq<char>>
    decreases s.len(),
{
    match find_char_from(s, 0, '\n') {
        None => seq![s],
        Some(i) => if 0 <= i < s.len() {
            seq![s.take(i)] + split_lines(s.skip(i + 1))
        } else {
            seq![s]
        },
    }
}

/// The heading text of a line `# heading`, once trimmed, where it is not empty.
pub open spec fn heading_of(line: Seq<char>) -> Option<Seq<char>> {
    let t = trim(line);
    if starts_with(t, seq!['#', ' ']) && trim(t.skip(2)).len() > 0 {
        Some(trim(t.skip(2)))
    } else {
        None
    }
}

/// The first heading among `lines`.
pub open spec fn first_heading(lines: Seq<Seq<char>>) -> Option<Seq<char>>
    decreases lines.len(),
{
    if lines.len() == 0 {
        None
    } else {
        match heading_of(lines[0]) {
            Some(h) => Some(h),
            None => first_heading(lines.drop_first()),
        }
    }
}

/// The length of the run of non-white-space characters that starts `s`.
pub open spec fn word_len(s: Seq<char>) -> nat
    decreases s.len(),
{
    if s.len() == 0 || is_white_space(s[0]) {
        0
    } else {
        1 + word_len(s.drop_first())
    }
}

/// The white-space separated words of `s` (`str::split_whitespace`).
pub open spec fn words(s: Seq<char>) -> Seq<Seq<char>>
    decreases s.len(),
{
    let t = crate::text::trim_start(s);
    if t.len() == 0 || t.len() > s.len() {
        seq![]
    } else {
        let n = word_len(t);
        if 0 < n <= t.len() {
            seq![t.take(n as int)] + words(t.skip(n as int))
        } else {
            seq![]
        }
    }
}

/// `parts` joined by single spaces.
pub open spec fn join_spaced(parts: Seq<Seq<char>>) -> Seq<char>
    decreases parts.len(),
{
    if parts.len() == 0 {
        seq![]
    } else if parts.len() == 1 {
        parts[0]
    } else {
        join_spaced(parts.drop_last()) + seq![' '] + parts.last()
    }
}

/// The first `n` parts, or all of them where there are fewer.
pub open spec fn first_n(parts: Seq<Seq<char>>, n: nat) -> Seq<Seq<char>> {
    if parts.len() <= n {
        parts
    } else {
        parts.take(n as int)
    }
}

/// What `choose_title` returns.
pub open spec fn title_for(explicit: Option<Seq<char>>, content: Seq<char>) -> Seq<char> {
    if explicit is Some && trim(explicit->0).len() > 0 {
        trim(explicit->0)
    } else {
        match first_heading(split_lines(content)) {
            Some(h) => h,
            None => join_spaced(first_n(words(content), 10)),
        }
    }
}

proof fn lemma_trim_start_shorter(s: Seq<char>)
    ensures
        crate::text::trim_start(s).len() <= s.len(),
        crate::text::trim_start(s) == s.skip(s.len() - crate::text::trim_start(s).len()),
    decreases s.len(),
{
    if s.len() > 0 && is_white_space(s[0]) {
        lemma_trim_start_shorter(s.drop_first());
        assert(s.drop_first().skip(s.drop_first().len() - crate::text::trim_start(
            s.drop_first(),
        ).len()) == s.skip(s.len() - crate::text::trim_start(s).len()));
    } else {
        assert(s.skip(0) == s);
    }
}

proof fn lemma_word_len(s: Seq<char>)
    ensures
        word_len(s) <= s.len(),
        forall|j: int| 0 <= j < word_len(s) ==> !is_white_space(#[trigger] s[j]),
        word_len(s) < s.len() ==> is_white_space(s[word_len(s) as int]),
    decreases s.len(),
{
    if s.len() > 0 && !is_white_space(s[0]) {
        lemma_word_len(s.drop_first());
        assert forall|j: int| 0 <= j < word_len(s) implies !is_white_space(#[trigger] s[j]) by {
            if j > 0 {
                assert(s[j] == s.drop_first()[j - 1]);
            }
        }
    }
}

proof fn lemma_word_len_exact(s: Seq<char>, n: int)
    requires
        0 <= n <= s.len(),
        forall|j: int| 0 <= j < n ==> !is_white_space(#[trigger] s[j]),
        n == s.len() || is_white_space(s[n]),
    ensures
        word_len(s) == n,
    decreases n,
{
    if n > 0 {
        lemma_word_len_exact(s.drop_first(), n - 1);
    }
}

/// The first at most `limit` words of `s[from..]`, and where the scan stopped.
fn collect_words(s: &[char], limit: usize) -> (r: Vec<Vec<char>>)
    ensures
        crate::pattern::chars_view(r@) == first_n(words(s@), limit as nat),
{
    let mut out: Vec<Vec<char>> = Vec::new();
    let mut i: usize = 0;
    assert(s@.skip(0) == s@);
    while out.len() < limit
        invariant
            0 <= i <= s.len(),
            out.len() <= limit,
            crate::pattern::chars_view(out@) + words(s@.skip(i as int)) == words(s@),
        decreases s.len() - i + limit - out.len(),
    {
        let ghost rest = s@.skip(i as int);
        let mut start = i;
        while start < s.len() && white_space(s[start])
            invariant
                i <= start <= s.len(),
                forall|j: int| i <= j < start ==> is_white_space(#[trigger] s@[j]),
            decreases s.len() - start,
        {
            start = start + 1;
        }
        proof {
            crate::text::lemma_trim_start_skip(rest, start - i);
            assert(rest.skip(start - i) == s@.skip(start as int));
        }
        if start == s.len() {
            proof {
                assert(crate::text::trim_start(rest).len() == 0) by {
                    assert(s@.skip(start as int).len() == 0);
                    assert(crate::text::trim_start(s@.skip(start as int)) == s@.skip(start as int));
                }
                assert(words(rest) == Seq::<Seq<char>>::empty());
                assert(crate::pattern::chars_view(out@) + words(rest) == crate::pattern::chars_view(out@));
                lemma_words_prefix(crate::pattern::chars_view(out@), words(s@), limit as nat);
            }
            return out;
        }
        let mut end = start;
        while end < s.len() && !white_space(s[end])
            invariant
                start <= end <= s.len(),
                forall|j: int| start <= j < end ==> !is_white_space(#[trigger] s@[j]),
            decreases s.len() - end,
        {
            end = end + 1;
        }
        let ghost t = s@.skip(start as int);
        proof {
            assert(crate::text::trim_start(rest) == t) by {
                assert(t.len() > 0 && !is_white_space(t[0]));
            }
            lemma_trim_start_shorter(rest);
            lemma_word_len_exact(t, end - start);
            assert(t.take(end - start) == s@.subrange(start as int, end as int));
            assert(t.skip(end - start) == s@.skip(end as int));
            assert(words(rest) == seq![t.take(end - start)] + words(t.skip(end - start)));
        }
        let w = copy_range(s, start, end);
        let ghost before = crate::pattern::chars_view(out@);
        out.push(w);
        proof {
            assert(crate::pattern::chars_view(out@) =~= before.push(w@));
            assert(before.push(w@) + words(s@.skip(end as int)) =~= before + (seq![w@] + words(
                s@.skip(end as int),
            )));
        }
        i = end;
    }
    proof {
        lemma_words_prefix(crate::pattern::chars_view(out@), words(s@), limit as nat);
    }
    out
}

proof fn lemma_words_prefix(done: Seq<Seq<char>>, all: Seq<Seq<char>>, limit: nat)
    requires
        done.len() <= limit,
        exists|rest: Seq<Seq<char>>| done + rest == all && (done.len() == limit || rest.len()
            == 0),
    ensures
        done == first_n(all, limit),
{
    let rest = choose|rest: Seq<Seq<char>>| done + rest == all && (done.len() == limit
        || rest.len() == 0);
    if rest.len() == 0 {
        assert(done == all);
    } else {
        assert(all.take(limit as int) =~= done);
    }
}

fn join_words(parts: &Vec<Vec<char>>) -> (r: Vec<char>)
    ensures
        r@ == join_spaced(crate::pattern::chars_view(parts@)),
{
    let ghost ps = crate::pattern::chars_view(parts@);
    let mut out: Vec<char> = Vec::new();
    let mut i: usize = 0;
    assert(ps.take(0) =~= Seq::<Seq<char>>::empty());
    while i < parts.len()
        invariant
            0 <= i <= parts.len(),
            ps == crate::pattern::chars_view(parts@),
            out@ == join_spaced(ps.take(i as int)),
        decreases parts.len() - i,
    {
        let ghost before = out@;
        if i > 0 {
            out.push(' ');
        }
        crate::text::append_chars(&mut out, parts[i].as_slice());
        proof {
            assert(ps[i as int] == parts@[i as int]@);
            assert(ps.take(i + 1).drop_last() == ps.take(i as int));
            if i == 0 {
                assert(out@ =~= ps[0]);
            } else {
                assert(out@ =~= before + seq![' '] + ps[i as int]);
            }
        }
        i = i + 1;
    }
    assert(ps.take(parts.len() as int) == ps);
    out
}

/// The heading of a line, as [`heading_of`].
fn heading_in(line: &[char]) -> (r: Option<Vec<char>>)
    ensures
        match r {
            Some(h) => heading_of(line@) == Some(h@),
            None => heading_of(line@) is None,
        },
{
    let t = trimmed(line);
    if crate::text::starts_with_chars(t.as_slice(), &['#', ' ']) {
        let rest = copy_range(t.as_slice(), 2, t.len());
        assert(rest@ == t@.skip(2));
        let h = trimmed(rest.as_slice());
        if h.len() > 0 {
            return Some(h);
        }
    }
    proof {
        assert(seq!['#', ' '] == seq!['#', ' ']);
    }
    None
}

/// The first heading of the lines of `s`.
fn find_heading(s: &[char]) -> (r: Option<Vec<char>>)
    ensures
        match r {
            Some(h) => first_heading(split_lines(s@)) == Some(h@),
            None => first_heading(split_lines(s@)) is None,
        },
{
    let mut i: usize = 0;
    assert(s@.skip(0) == s@);
    loop
        invariant
            0 <= i <= s.len(),
            first_heading(split_lines(s@)) == first_heading(split_lines(s@.skip(i as int))),
        decreases s.len() - i,
    {
        let ghost rest = s@.skip(i as int);
        let end = match find_char(s, i, '\n') {
            Some(e) => e,
            None => s.len(),
        };
        proof {
            lemma_find_char_from(s@, i as int, '\n');
            lemma_find_char_from(rest, 0, '\n');
            if end < s.len() {
                assert(rest[end - i] == '\n');
                lemma_find_first(rest, end - i);
            } else {
                assert forall|j: int| 0 <= j < rest.len() implies rest[j] != '\n' by {
                    assert(rest[j] == s@[i + j]);
                }
            }
        }
        let line = copy_range(s, i, end);
        proof {
            assert(line@ == rest.take(end - i));
            if end == s.len() {
                assert(rest.take(end - i) == rest);
            }
        }
        match heading_in(line.as_slice()) {
            Some(h) => {
                return Some(h);
            },
            None => {},
        }
        if end == s.len() {
            proof {
                assert(find_char_from(rest, 0, '\n') is None);
                assert(split_lines(rest) == seq![rest]);
                assert(heading_of(rest) is None);
                let one = seq![rest];
                assert(one[0] == rest);
                assert(one.drop_first() =~= Seq::<Seq<char>>::empty());
                assert(first_heading(one.drop_first()) is None);
                assert(first_heading(one) is None);
            }
            return None;
        }
        proof {
            assert(rest.skip(end - i + 1) == s@.skip(end + 1));
            assert(split_lines(rest) == seq![rest.take(end - i)] + split_lines(s@.skip(end + 1)));
            assert((seq![rest.take(end - i)] + split_lines(s@.skip(end + 1))).drop_first()
                == split_lines(s@.skip(end + 1)));
        }
        i = end + 1;
    }
}

proof fn lemma_find_first(s: Seq<char>, k: int)
    requires
        0 <= k < s.len(),
        s[k] == '\n',
        forall|j: int| 0 <= j < k ==> s[j] != '\n',
    ensures
        find_char_from(s, 0, '\n') == Some(k),
{
    lemma_find_char_from(s, 0, '\n');
    if let Some(q) = find_char_from(s, 0, '\n') {
        if q < k {
            assert(s[q] == '\n');
        }
    }
}

/// Select an explicit title, Markdown heading, or a bounded content prefix.
pub fn choose_title(explicit: Option<&str>, content: &str) -> (r: String)
    ensures
        r@ == title_for(
            match explicit {
                Some(t) => Some(t@),
                None => None,
            },
            content@,
        ),
{
    if let Some(t) = explicit {
        let tc = chars_of(t);
        let tt = trimmed(tc.as_slice());
        if tt.len() > 0 {
            return string_of(tt.as_slice());
        }
    }
    let cs = chars_of(content);
    match find_heading(cs.as_slice()) {
        Some(h) => string_of(h.as_slice()),
        None => {
            let ws = collect_words(cs.as_slice(), 10);
            let joined = join_words(&ws);
            string_of(joined.as_slice())
        },
    }
}

/// `l` is a Markdown heading line: trimmed, it is `# ` followed by text
/// that is not blank.
pub open spec fn is_heading_line(l: Seq<char>) -> bool {
    starts_with(trim(l), seq!['#', ' ']) && trim(trim(l).skip(2)).len() > 0
}

/// `p[i..j]` is a line of `p` ended by a line feed: it starts `p` or
/// follows a line feed, and `p[j]` is the first line feed after `i`.
pub open spec fn line_at(p: Seq<char>, i: int, j: int) -> bool {
    &&& 0 <= i <= j < p.len()
    &&& (i == 0 || p[i - 1] == '\n')
    &&& p[j] == '\n'
    &&& forall|k: int| i <= k < j ==> p[k] != '\n'
}

/// Every line of `p` ended by a line feed is not a heading line.
#[verifier::opaque]
pub open spec fn no_heading_lines(p: Seq<char>) -> bool {
    forall|i: int, j: int| #[trigger] line_at(p, i, j) ==> !is_heading_line(p.subrange(i, j))
}

proof fn lemma_first_char_at(s: Seq<char>, from: int, k: int, c: char)
    requires
        0 <= from <= k < s.len(),
        s[k] == c,
        forall|j: int| from <= j < k ==> s[j] != c,
    ensures
        find_char_from(s, from, c) == Some(k),
    decreases k - from,
{
    if from < k {
        lemma_first_char_at(s, from + 1, k, c);
    }
}

proof fn lemma_line_break_step(c: Seq<char>, i: int)
    requires
        0 <= i < c.len(),
        c[i] == '\n',
        forall|k: int| 0 <= k < i ==> c[k] != '\n',
    ensures
        heading_of(c.take(i)) is None ==> first_heading(split_lines(c)) == first_heading(
            split_lines(c.skip(i + 1)),
        ),
        heading_of(c.take(i)) matches Some(h) ==> first_heading(split_lines(c)) == Some(h),
{
    lemma_first_char_at(c, 0, i, '\n');
    let parts = seq![c.take(i)] + split_lines(c.skip(i + 1));
    assert(split_lines(c) == parts);
    assert(parts[0] == c.take(i));
    assert(parts.drop_first() =~= split_lines(c.skip(i + 1)));
}

proof fn lemma_last_line(c: Seq<char>)
    requires
        forall|k: int| 0 <= k < c.len() ==> c[k] != '\n',
    ensures
        first_heading(split_lines(c)) == heading_of(c),
{
    lemma_find_char_from(c, 0, '\n');
    assert(split_lines(c) == seq![c]);
    assert(seq![c][0] == c);
    assert(seq![c].drop_first() =~= Seq::<Seq<char>>::empty());
    assert(first_heading(Seq::<Seq<char>>::empty()) is None);
}

proof fn lemma_no_heading_rest(prefix: Seq<char>, i: int)
    requires
        no_heading_lines(prefix),
        0 <= i < prefix.len(),
        prefix[i] == '\n',
    ensures
        no_heading_lines(prefix.skip(i + 1)),
{
    reveal(no_heading_lines);
    let rest = prefix.skip(i + 1);
    assert forall|a: int, b: int| #[trigger] line_at(rest, a, b) implies !is_heading_line(
        rest.subrange(a, b),
    ) by {
        assert(prefix[b + i + 1] == rest[b]);
        if a > 0 {
            assert(prefix[a + i] == rest[a - 1]);
        }
        assert forall|k: int| a + i + 1 <= k < b + i + 1 implies prefix[k] != '\n' by {
            assert(prefix[k] == rest[k - i - 1]);
        }
        assert(line_at(prefix, a + i + 1, b + i + 1));
        assert(rest.subrange(a, b) =~= prefix.subrange(a + i + 1, b + i + 1));
    }
}

proof fn lemma_no_heading_first(prefix: Seq<char>, i: int)
    requires
        no_heading_lines(prefix),
        0 <= i < prefix.len(),
        prefix[i] == '\n',
        forall|k: int| 0 <= k < i ==> prefix[k] != '\n',
    ensures
        !is_heading_line(prefix.subrange(0, i)),
{
    reveal(no_heading_lines);
    assert(line_at(prefix, 0, i));
}

proof fn lemma_heading_after(prefix: Seq<char>, line: Seq<char>, suffix: Seq<char>)
    requires
        prefix.len() == 0 || prefix.last() == '\n',
        no_heading_lines(prefix),
        forall|k: int| 0 <= k < line.len() ==> line[k] != '\n',
        is_heading_line(line),
        suffix.len() == 0 || suffix[0] == '\n',
    ensures
        first_heading(split_lines(prefix + line + suffix)) == Some(trim(trim(line).skip(2))),
    decreases prefix.len(),
{
    let c = prefix + line + suffix;
    if prefix.len() == 0 {
        assert(c =~= line + suffix);
        if suffix.len() == 0 {
            assert(c =~= line);
            lemma_last_line(c);
        } else {
            assert(c[line.len() as int] == '\n');
            assert(c.take(line.len() as int) =~= line);
            lemma_line_break_step(c, line.len() as int);
        }
    } else {
        lemma_find_char_from(prefix, 0, '\n');
        let i = find_char_from(prefix, 0, '\n')->0;
        assert(prefix[prefix.len() - 1] == '\n');
        assert(c[i] == '\n');
        assert(c.take(i) =~= prefix.subrange(0, i));
        lemma_no_heading_first(prefix, i);
        lemma_line_break_step(c, i);
        let rest = prefix.skip(i + 1);
        assert(c.skip(i + 1) =~= rest + line + suffix);
        lemma_no_heading_rest(prefix, i);
        if rest.len() > 0 {
            assert(rest.last() == prefix.last());
        }
        lemma_heading_after(rest, line, suffix);
    }
}

/// With no explicit title, the title is the heading of the first heading
/// line: whatever lines without a heading come before it and whatever
/// follows it.
pub proof fn law_title_is_the_first_heading(
    explicit: Option<Seq<char>>,
    prefix: Seq<char>,
    line: Seq<char>,
    suffix: Seq<char>,
)
    requires
        !(explicit is Some && trim(explicit->0).len() > 0),
        prefix.len() == 0 || prefix.last() == '\n',
        no_heading_lines(prefix),
        forall|k: int| 0 <= k < line.len() ==> line[k] != '\n',
        is_heading_line(line),
        suffix.len() == 0 || suffix[0] == '\n',
    ensures
        title_for(explicit, prefix + line + suffix) == trim(trim(line).skip(2)),
{
    lemma_heading_after(prefix, line, suffix);
}

} // verus!
