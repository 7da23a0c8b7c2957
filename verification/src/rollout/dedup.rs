//! Text normalization and the ranking rules used when duplicate entries are merged.

use vstd::prelude::*;

use crate::rollout::types::EntryOrigin;
use crate::text::{char_is_whitespace, lines_spec, split_from, split_spec, without_cr, str_lines, starts_with, str_starts_with, str_trim_end, string_push, string_push_str, trim_end_spec};

verus! {

/// `s` with every CR LF pair replaced by LF, scanning left to right.
pub open spec fn replace_crlf(s: Seq<char>) -> Seq<char>
    decreases s.len(),
{
    if s.len() == 0 {
        s
    } else if s.len() >= 2 && s[0] == '\r' && s[1] == '\n' {
        seq!['\n'] + replace_crlf(s.skip(2))
    } else {
        seq![s[0]] + replace_crlf(s.drop_first())
    }
}

/// `s` with every CR replaced by LF.
pub open spec fn replace_cr(s: Seq<char>) -> Seq<char> {
    s.map_values(|c: char| if c == '\r' { '\n' } else { c })
}

/// `s` with every match of a non-empty `from`, scanning left to right
/// without overlaps, replaced by `to`.
pub open spec fn replace_all(s: Seq<char>, from: Seq<char>, to: Seq<char>) -> Seq<char>
    decreases s.len(),
{
    if s.len() == 0 || from.len() == 0 {
        s
    } else if s.len() >= from.len() && s.take(from.len() as int) == from {
        to + replace_all(s.skip(from.len() as int), from, to)
    } else {
        seq![s[0]] + replace_all(s.drop_first(), from, to)
    }
}

/// Calls `str::replace` with a text pattern: as std documents, every
/// non-overlapping match, left to right, is replaced.
#[verifier::external_body]
pub(crate) fn str_replace(s: &str, from: &str, to: &str) -> (r: String)
    requires
        from@.len() > 0,
    ensures
        r@ == replace_all(s@, from@, to@),
{
    s.replace(from, to)
}

proof fn lemma_replace_crlf(s: Seq<char>)
    ensures
        replace_all(s, seq!['\r', '\n'], seq!['\n']) == replace_crlf(s),
    decreases s.len(),
{
    let from = seq!['\r', '\n'];
    if s.len() > 0 {
        if s.len() >= 2 && s[0] == '\r' && s[1] == '\n' {
            assert(s.take(2) =~= from);
            lemma_replace_crlf(s.skip(2));
        } else {
            if s.len() >= 2 {
                assert(s.take(2)[0] == s[0] && s.take(2)[1] == s[1]);
                assert(s.take(2) != from);
            }
            lemma_replace_crlf(s.drop_first());
        }
    }
}

proof fn lemma_replace_cr(s: Seq<char>)
    ensures
        replace_all(s, seq!['\r'], seq!['\n']) == replace_cr(s),
    decreases s.len(),
{
    let from = seq!['\r'];
    if s.len() == 0 {
        assert(replace_cr(s) =~= s);
    } else {
        lemma_replace_cr(s.drop_first());
        if s[0] == '\r' {
            assert(s.take(1) =~= from);
            assert(s.skip(1) =~= s.drop_first());
        } else {
            assert(s.take(1)[0] == s[0]);
            assert(s.take(1) != from);
        }
        assert(replace_cr(s) =~= seq![if s[0] == '\r' { '\n' } else { s[0] }] + replace_cr(s.drop_first()));
    }
}

/// Calls `str::replace("\r\n", "\n")`.
pub(crate) fn replace_crlf_text(s: &str) -> (r: String)
    ensures
        r@ == replace_crlf(s@),
{
    proof {
        reveal_strlit("\r\n");
        reveal_strlit("\n");
        lemma_replace_crlf(s@);
    }
    assert("\r\n"@ =~= seq!['\r', '\n'] && "\n"@ =~= seq!['\n']);
    str_replace(s, "\r\n", "\n")
}

/// Calls `str::replace("\r", "\n")`.
pub(crate) fn replace_cr_text(s: &str) -> (r: String)
    ensures
        r@ == replace_cr(s@),
{
    proof {
        reveal_strlit("\r");
        reveal_strlit("\n");
        lemma_replace_cr(s@);
    }
    assert("\r"@ =~= seq!['\r'] && "\n"@ =~= seq!['\n']);
    str_replace(s, "\r", "\n")
}

/// Lines joined with LF.
pub open spec fn join_lines(lines: Seq<Seq<char>>) -> Seq<char>
    decreases lines.len(),
{
    if lines.len() == 0 {
        Seq::empty()
    } else if lines.len() == 1 {
        lines[0]
    } else {
        join_lines(lines.drop_last()) + seq!['\n'] + lines.last()
    }
}

/// Text in canonical form: CR LF and CR become LF, trailing whitespace is
/// removed from every line and from the end.
pub open spec fn normalize_text_spec(value: Seq<char>) -> Seq<char> {
    let lines = lines_spec(replace_cr(replace_crlf(value)));
    trim_end_spec(join_lines(lines.map_values(|l: Seq<char>| trim_end_spec(l))))
}

/// Whether `s` holds no `c`.
pub open spec fn lacks_char(s: Seq<char>, c: char) -> bool {
    forall|i: int| 0 <= i < s.len() ==> #[trigger] s[i] != c
}

/// Whether text is empty or ends in an LF or in a character that is no
/// whitespace.
pub open spec fn ends_clean(s: Seq<char>) -> bool {
    s.len() == 0 || s.last() == '\n' || !char_is_whitespace(s.last())
}

/// Whether no line of `s` ends in whitespace and `s` itself does not end
/// in whitespace.
pub open spec fn lines_trimmed(s: Seq<char>) -> bool {
    &&& forall|j: int| 0 <= j < s.len() && #[trigger] s[j] == '\n' ==> ends_clean(s.take(j))
    &&& s.len() > 0 ==> !char_is_whitespace(s.last())
}

proof fn lemma_trim_end(s: Seq<char>)
    ensures
        trim_end_spec(s).len() <= s.len(),
        trim_end_spec(s) == s.take(trim_end_spec(s).len() as int),
        trim_end_spec(s).len() > 0 ==> !char_is_whitespace(trim_end_spec(s).last()),
    decreases s.len(),
{
    if s.len() > 0 && char_is_whitespace(s.last()) {
        lemma_trim_end(s.drop_last());
        let t = trim_end_spec(s.drop_last());
        assert(s.drop_last().take(t.len() as int) =~= s.take(t.len() as int));
    } else {
        assert(s.take(s.len() as int) =~= s);
    }
}

proof fn lemma_split_pieces(s: Seq<char>, cur: Seq<char>)
    requires
        lacks_char(s, '\r'),
        lacks_char(cur, '\r'),
        lacks_char(cur, '\n'),
    ensures
        split_from(s, '\n', cur).len() >= 1,
        forall|k: int| 0 <= k < split_from(s, '\n', cur).len() ==> lacks_char(#[trigger] split_from(s, '\n', cur)[k], '\r')
            && lacks_char(split_from(s, '\n', cur)[k], '\n'),
    decreases s.len(),
{
    if s.len() == 0 {
    } else if s[0] == '\n' {
        lemma_split_pieces(s.drop_first(), Seq::empty());
        let rest = split_from(s.drop_first(), '\n', Seq::empty());
        assert(split_from(s, '\n', cur) == seq![cur] + rest);
        assert forall|k: int| 0 <= k < split_from(s, '\n', cur).len() implies lacks_char(#[trigger] split_from(s, '\n', cur)[k], '\r')
            && lacks_char(split_from(s, '\n', cur)[k], '\n') by {
            if k > 0 {
                assert(split_from(s, '\n', cur)[k] == rest[k - 1]);
            }
        }
    } else {
        let next = cur.push(s[0]);
        assert forall|i: int| 0 <= i < next.len() implies #[trigger] next[i] != '\r' && next[i] != '\n' by {
            if i < cur.len() {
                assert(next[i] == cur[i]);
            }
        }
        lemma_split_pieces(s.drop_first(), next);
    }
}

proof fn lemma_lines_clean(x: Seq<char>)
    requires
        lacks_char(x, '\r'),
    ensures
        forall|k: int| 0 <= k < lines_spec(x).len() ==> lacks_char(#[trigger] lines_spec(x)[k], '\r')
            && lacks_char(lines_spec(x)[k], '\n'),
{
    lemma_split_pieces(x, Seq::empty());
    let pieces = split_spec(x, '\n');
    let ended = pieces.drop_last().map_values(|p: Seq<char>| without_cr(p));
    assert forall|k: int| 0 <= k < lines_spec(x).len() implies lacks_char(#[trigger] lines_spec(x)[k], '\r')
        && lacks_char(lines_spec(x)[k], '\n') by {
        if k < pieces.len() - 1 {
            let p = pieces[k];
            assert(lines_spec(x)[k] == ended[k]);
            assert(ended[k] == without_cr(p));
            assert(lacks_char(p, '\r') && lacks_char(p, '\n'));
            if p.len() > 0 && p.last() == '\r' {
                assert forall|i: int| 0 <= i < p.drop_last().len() implies #[trigger] p.drop_last()[i] != '\r' && p.drop_last()[i] != '\n' by {
                    assert(p.drop_last()[i] == p[i]);
                }
            }
        } else {
            assert(lines_spec(x)[k] == pieces.last());
        }
    }
}

proof fn lemma_join_clean(ls: Seq<Seq<char>>)
    requires
        forall|k: int| 0 <= k < ls.len() ==> lacks_char(#[trigger] ls[k], '\r') && lacks_char(ls[k], '\n')
            && (ls[k].len() == 0 || !char_is_whitespace(ls[k].last())),
    ensures
        lacks_char(join_lines(ls), '\r'),
        ends_clean(join_lines(ls)),
        forall|j: int| 0 <= j < join_lines(ls).len() && #[trigger] join_lines(ls)[j] == '\n' ==> ends_clean(join_lines(ls).take(j)),
    decreases ls.len(),
{
    if ls.len() == 0 {
    } else if ls.len() == 1 {
        assert(join_lines(ls) == ls[0]);
        assert(lacks_char(ls[0], '\n'));
    } else {
        let pre = ls.drop_last();
        assert forall|k: int| 0 <= k < pre.len() implies lacks_char(#[trigger] pre[k], '\r') && lacks_char(pre[k], '\n')
            && (pre[k].len() == 0 || !char_is_whitespace(pre[k].last())) by {
            assert(pre[k] == ls[k]);
        }
        lemma_join_clean(pre);
        let jn = join_lines(pre);
        let last = ls.last();
        assert(lacks_char(last, '\r') && lacks_char(last, '\n') && (last.len() == 0 || !char_is_whitespace(last.last())));
        let r = join_lines(ls);
        assert(r == jn + seq!['\n'] + last);
        assert forall|j: int| 0 <= j < r.len() && #[trigger] r[j] == '\n' implies ends_clean(r.take(j)) by {
            if j < jn.len() {
                assert(r[j] == jn[j]);
                assert(r.take(j) =~= jn.take(j));
            } else if j == jn.len() {
                assert(r.take(j) =~= jn);
            } else {
                assert(r[j] == last[j - jn.len() - 1]);
            }
        }
        if last.len() > 0 {
            assert(r.last() == last.last());
        } else {
            assert(r.last() == '\n');
        }
        assert forall|i: int| 0 <= i < r.len() implies #[trigger] r[i] != '\r' by {
            if i < jn.len() {
                assert(r[i] == jn[i]);
            } else if i > jn.len() {
                assert(r[i] == last[i - jn.len() - 1]);
            }
        }
    }
}

/// Normalized text holds no carriage return, and neither it nor any of its
/// lines ends in whitespace.
proof fn lemma_normalized_clean(value: Seq<char>)
    ensures
        lacks_char(normalize_text_spec(value), '\r'),
        lines_trimmed(normalize_text_spec(value)),
{
    let x = replace_cr(replace_crlf(value));
    assert forall|i: int| 0 <= i < x.len() implies #[trigger] x[i] != '\r' by {}
    lemma_lines_clean(x);
    let lines = lines_spec(x);
    let trimmed = lines.map_values(|l: Seq<char>| trim_end_spec(l));
    assert forall|k: int| 0 <= k < trimmed.len() implies lacks_char(#[trigger] trimmed[k], '\r') && lacks_char(trimmed[k], '\n')
        && (trimmed[k].len() == 0 || !char_is_whitespace(trimmed[k].last())) by {
        let l = lines[k];
        lemma_trim_end(l);
        let t = trim_end_spec(l);
        assert(trimmed[k] == t);
        assert(lacks_char(l, '\r') && lacks_char(l, '\n'));
        assert forall|i: int| 0 <= i < t.len() implies #[trigger] t[i] != '\r' && t[i] != '\n' by {
            assert(t[i] == l[i]);
        }
    }
    lemma_join_clean(trimmed);
    let r = join_lines(trimmed);
    lemma_trim_end(r);
    let t = trim_end_spec(r);
    assert(t == normalize_text_spec(value));
    assert forall|j: int| 0 <= j < t.len() && #[trigger] t[j] == '\n' implies ends_clean(t.take(j)) by {
        assert(t[j] == r[j]);
        assert(t.take(j) =~= r.take(j));
    }
    assert forall|i: int| 0 <= i < t.len() implies #[trigger] t[i] != '\r' by {
        assert(t[i] == r[i]);
    }
}

proof fn lemma_join_prepend(a: Seq<char>, rest: Seq<Seq<char>>)
    requires
        rest.len() >= 1,
    ensures
        join_lines(seq![a] + rest) == a + seq!['\n'] + join_lines(rest),
    decreases rest.len(),
{
    let all = seq![a] + rest;
    assert(all.len() == rest.len() + 1);
    assert(all.last() == rest.last());
    assert(join_lines(all) == join_lines(all.drop_last()) + seq!['\n'] + all.last());
    if rest.len() == 1 {
        assert(all.drop_last() =~= seq![a]);
        assert(join_lines(seq![a]) == a);
        assert(join_lines(rest) == rest[0]);
        assert(rest.last() == rest[0]);
    } else {
        lemma_join_prepend(a, rest.drop_last());
        assert(all.drop_last() =~= seq![a] + rest.drop_last());
        assert(join_lines(rest) == join_lines(rest.drop_last()) + seq!['\n'] + rest.last());
        assert(a + seq!['\n'] + join_lines(rest.drop_last()) + seq!['\n'] + rest.last() =~= a + seq!['\n'] + (join_lines(
            rest.drop_last(),
        ) + seq!['\n'] + rest.last()));
    }
}

proof fn lemma_join_split(s: Seq<char>, cur: Seq<char>)
    ensures
        join_lines(split_from(s, '\n', cur)) == cur + s,
    decreases s.len(),
{
    if s.len() == 0 {
        assert(cur + s =~= cur);
    } else if s[0] == '\n' {
        lemma_join_split(s.drop_first(), Seq::empty());
        lemma_split_len(s.drop_first(), Seq::empty());
        lemma_join_prepend(cur, split_from(s.drop_first(), '\n', Seq::empty()));
        assert(cur + seq!['\n'] + (Seq::<char>::empty() + s.drop_first()) =~= cur + s);
    } else {
        lemma_join_split(s.drop_first(), cur.push(s[0]));
        assert(cur.push(s[0]) + s.drop_first() =~= cur + s);
    }
}

proof fn lemma_split_len(s: Seq<char>, cur: Seq<char>)
    ensures
        split_from(s, '\n', cur).len() >= 1,
        (cur.len() > 0 || s.len() > 0) && (s.len() == 0 || s.last() != '\n') ==> split_from(s, '\n', cur).last().len() > 0,
    decreases s.len(),
{
    if s.len() > 0 {
        if s[0] == '\n' {
            lemma_split_len(s.drop_first(), Seq::empty());
            if s.len() > 1 {
                assert(s.drop_first().last() == s.last());
            }
        } else {
            lemma_split_len(s.drop_first(), cur.push(s[0]));
            if s.len() > 1 {
                assert(s.drop_first().last() == s.last());
            }
        }
    }
}

/// Whether `t` has no LF, and every LF of `t + s` ends a line that is
/// empty or ends in no whitespace, as does `t + s` itself.
spec fn clean_rest(s: Seq<char>, cur: Seq<char>) -> bool {
    let t = cur + s;
    &&& lacks_char(cur, '\n')
    &&& forall|j: int| 0 <= j < t.len() && #[trigger] t[j] == '\n' ==> ends_clean(t.take(j))
    &&& t.len() > 0 ==> !char_is_whitespace(t.last())
}

proof fn lemma_split_trimmed(s: Seq<char>, cur: Seq<char>)
    requires
        clean_rest(s, cur),
    ensures
        forall|k: int| 0 <= k < split_from(s, '\n', cur).len() ==> trim_end_spec(#[trigger] split_from(s, '\n', cur)[k])
            == split_from(s, '\n', cur)[k],
    decreases s.len(),
{
    let t = cur + s;
    if s.len() == 0 {
        assert(t =~= cur);
        lemma_trim_fixed(cur);
        assert(split_from(s, '\n', cur) == seq![cur]);
    } else if s[0] == '\n' {
        let rest = s.drop_first();
        assert(t[cur.len() as int] == '\n');
        assert(t.take(cur.len() as int) =~= cur);
        if cur.len() > 0 {
            assert(cur.last() != '\n');
        }
        lemma_trim_fixed(cur);
        let u = Seq::<char>::empty() + rest;
        assert(u =~= rest);
        assert forall|j: int| 0 <= j < u.len() && #[trigger] u[j] == '\n' implies ends_clean(u.take(j)) by {
            assert(t[cur.len() + 1 + j] == u[j]);
            if j > 0 {
                assert(u.take(j).last() == u[j - 1]);
                assert(u[j - 1] == t[cur.len() + j]);
                assert(t.take(cur.len() + 1 + j).last() == t[cur.len() + j]);
                assert(ends_clean(t.take(cur.len() + 1 + j)));
            }
        }
        if u.len() > 0 {
            assert(u.last() == t.last());
        }
        lemma_split_trimmed(rest, Seq::empty());
        let tail = split_from(rest, '\n', Seq::empty());
        assert(split_from(s, '\n', cur) == seq![cur] + tail);
        assert forall|k: int| 0 <= k < split_from(s, '\n', cur).len() implies trim_end_spec(#[trigger] split_from(s, '\n', cur)[k])
            == split_from(s, '\n', cur)[k] by {
            if k > 0 {
                assert(split_from(s, '\n', cur)[k] == tail[k - 1]);
            }
        }
    } else {
        let next = cur.push(s[0]);
        assert(next + s.drop_first() =~= t);
        assert forall|i: int| 0 <= i < next.len() implies #[trigger] next[i] != '\n' by {
            if i < cur.len() {
                assert(next[i] == cur[i]);
            }
        }
        lemma_split_trimmed(s.drop_first(), next);
        assert(split_from(s, '\n', cur) == split_from(s.drop_first(), '\n', next));
    }
}

proof fn lemma_no_cr_fixed(s: Seq<char>)
    requires
        lacks_char(s, '\r'),
    ensures
        replace_crlf(s) == s,
        replace_cr(s) == s,
    decreases s.len(),
{
    if s.len() > 0 {
        assert(s[0] != '\r');
        assert forall|i: int| 0 <= i < s.drop_first().len() implies #[trigger] s.drop_first()[i] != '\r' by {
            assert(s.drop_first()[i] == s[i + 1]);
        }
        lemma_no_cr_fixed(s.drop_first());
        assert(seq![s[0]] + s.drop_first() =~= s);
    }
    assert(replace_cr(s) =~= s);
}

/// A line that is empty or ends in no whitespace is its own trimmed form.
proof fn lemma_trim_fixed(l: Seq<char>)
    requires
        l.len() == 0 || !char_is_whitespace(l.last()),
    ensures
        trim_end_spec(l) == l,
{
}

/// Turning CR LF and then CR into LF before normalizing changes nothing.
pub proof fn lemma_normalize_line_endings(value: Seq<char>)
    ensures
        normalize_text_spec(replace_cr(replace_crlf(value))) == normalize_text_spec(value),
{
    let x = replace_cr(replace_crlf(value));
    assert forall|i: int| 0 <= i < x.len() implies #[trigger] x[i] != '\r' by {}
    lemma_no_cr_fixed(x);
}

/// Normalizing normalized text changes nothing.
pub proof fn lemma_normalize_idempotent(value: Seq<char>)
    ensures
        normalize_text_spec(normalize_text_spec(value)) == normalize_text_spec(value),
{
    let r = normalize_text_spec(value);
    lemma_normalized_clean(value);
    lemma_no_cr_fixed(r);
    let x = replace_cr(replace_crlf(r));
    assert(x =~= r);
    let pieces = split_spec(r, '\n');
    lemma_split_len(r, Seq::empty());
    lemma_split_pieces(r, Seq::empty());
    lemma_join_split(r, Seq::empty());
    assert(Seq::<char>::empty() + r =~= r);
    let lines = lines_spec(r);
    if r.len() > 0 {
        assert(r.last() != '\n');
        assert(pieces.drop_last().map_values(|p: Seq<char>| without_cr(p)) =~= pieces.drop_last());
        assert(lines =~= pieces);
    } else {
        assert(pieces =~= seq![Seq::<char>::empty()]);
        assert(lines.len() == 0);
    }
    assert(clean_rest(r, Seq::empty()));
    lemma_split_trimmed(r, Seq::empty());
    let trimmed = lines.map_values(|l: Seq<char>| trim_end_spec(l));
    assert(trimmed =~= lines);
    lemma_trim_fixed(r);
}

/// Puts text in canonical form: CR LF and CR become LF, trailing whitespace
/// is removed from every line and from the end.
pub fn normalize_text(value: &str) -> (r: String)
    ensures
        r@ == normalize_text_spec(value@),
        lacks_char(r@, '\r'),
        lines_trimmed(r@),
{
    proof {
        lemma_normalized_clean(value@);
    }
    let crlf = replace_crlf_text(value);
    let lf = replace_cr_text(crlf.as_str());
    let lines = str_lines(lf.as_str());
    let ghost ls = lines@.map_values(|p: &str| p@);
    let ghost trimmed = ls.map_values(|l: Seq<char>| trim_end_spec(l));
    let mut joined = String::new();
    let mut i: usize = 0;
    while i < lines.len()
        invariant
            i <= lines@.len(),
            ls == lines@.map_values(|p: &str| p@),
            trimmed == ls.map_values(|l: Seq<char>| trim_end_spec(l)),
            joined@ == join_lines(trimmed.take(i as int)),
        decreases lines@.len() - i,
    {
        if i > 0 {
            string_push(&mut joined, '\n');
        }
        let t = str_trim_end(lines[i]);
        string_push_str(&mut joined, t);
        proof {
            assert(ls[i as int] == lines@[i as int]@);
            assert(trimmed.take(i + 1).drop_last() =~= trimmed.take(i as int));
            if i == 0 {
                assert(join_lines(trimmed.take(1)) == trimmed.take(1)[0]);
            }
        }
        i = i + 1;
    }
    assert(trimmed.take(lines@.len() as int) =~= trimmed);
    let out = str_trim_end(joined.as_str());
    out.to_string()
}

/// Whether one text continues the other, as streamed text does: both are
/// non-empty and one starts with the other.
pub open spec fn streaming_prefix_spec(left: Seq<char>, right: Seq<char>) -> bool {
    left.len() > 0 && right.len() > 0 && (starts_with(left, right) || starts_with(right, left))
}

/// Whether one text continues the other, as streamed text does.
pub fn is_streaming_prefix(left: &str, right: &str) -> (r: bool)
    ensures
        r == streaming_prefix_spec(left@, right@),
{
    !left.is_empty() && !right.is_empty() && (str_starts_with(left, right) || str_starts_with(right, left))
}

/// How much an origin is preferred when duplicates merge: completed items
/// first, then event presentations, then response items, then derived entries.
pub open spec fn origin_rank_spec(origin: EntryOrigin) -> u8 {
    match origin {
        EntryOrigin::ItemCompleted => 3,
        EntryOrigin::EventPresentation => 2,
        EntryOrigin::ResponseItem => 1,
        EntryOrigin::Derived => 0,
    }
}

/// How much an origin is preferred when duplicates merge.
pub fn origin_rank(origin: EntryOrigin) -> (r: u8)
    ensures
        r == origin_rank_spec(origin),
{
    match origin {
        EntryOrigin::ItemCompleted => 3,
        EntryOrigin::EventPresentation => 2,
        EntryOrigin::ResponseItem => 1,
        EntryOrigin::Derived => 0,
    }
}

/// Whether a metadata key holds an attachment count, which merges by maximum.
pub fn is_attachment_count(key: &str) -> (r: bool)
    ensures
        r == (key@ == "attachmentCount"@ || key@ == "imageAttachmentCount"@ || key@ == "audioAttachmentCount"@),
{
    crate::text::str_eq(key, "attachmentCount") || crate::text::str_eq(key, "imageAttachmentCount")
        || crate::text::str_eq(key, "audioAttachmentCount")
}

} // verus!
