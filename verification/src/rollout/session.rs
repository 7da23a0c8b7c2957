//! What a rollout says about its session: ids and times from the file name,
//! the title, plan fingerprints and the final session record.

use vstd::prelude::*;

use crate::model::{Completeness, EntryKind, EntryPresentation, IndexState, SessionParentRelation, SourceKind};
use crate::rollout::content::{concat, grapheme_clusters, truncate_graphemes};
use crate::rollout::dedup::{replace_cr, replace_crlf, replace_cr_text, replace_crlf_text};
use crate::rollout::types::{ParseContext, RootKind, SessionRecord};
use crate::rollout::entry::NormalizedEntry;
use crate::rollout::json::{json_get, str_member, string_option, JsonValue};
use crate::rollout::metadata::{payload_session_id, payload_session_id_spec, source_kind, source_kind_spec, source_parent, source_parent_spec};
use crate::time::{parse_rfc3339_micros, rfc3339_micros};
use crate::text::{
    char_is_whitespace, ends_with, hex_encode, lines_spec, sha256_hex, sha256_spec, starts_with, str_lines, str_starts_with,
    str_strip_prefix, str_strip_suffix, str_trim, str_trim_start, str_trim_start_matches, str_words, string_push, string_push_str,
    trim_end_spec, trim_start_set, trim_start_spec, words_from,
};
use crate::time::{format_rfc3339_auto, naive_datetime_micros, parse_naive_micros, rfc3339_auto_text};
use vstd::utf8::{decode_utf8, encode_utf8, encode_utf8_decode_utf8, encode_utf8_valid_utf8, is_char_boundary};
use vstd::string::StringSliceAdditionalSpecFns;

verus! {

/// The text between `rollout-` and the 37 bytes of `-<uuid>` in a rollout's
/// file name, if the name has that shape.
pub open spec fn filename_timestamp_text(name: Seq<char>) -> Option<Seq<char>> {
    if ends_with(name, ".jsonl"@) && starts_with(name.take(name.len() - ".jsonl"@.len()), "rollout-"@) {
        let stem = name.take(name.len() - ".jsonl"@.len()).skip("rollout-"@.len() as int);
        let b = encode_utf8(stem);
        if b.len() >= 37 && is_char_boundary(b, b.len() - 37) {
            Some(decode_utf8(b.take(b.len() - 37)))
        } else {
            None
        }
    } else {
        None
    }
}

/// The creation time a rollout's file name gives, with or without fractional
/// seconds.
pub open spec fn timestamp_from_filename_spec(name: Seq<char>) -> Option<i64> {
    match filename_timestamp_text(name) {
        Some(t) => match naive_datetime_micros(t, "%Y-%m-%dT%H-%M-%S%.f"@) {
            Some(m) => Some(m),
            None => naive_datetime_micros(t, "%Y-%m-%dT%H-%M-%S"@),
        },
        None => None,
    }
}

/// The creation time, in microseconds, written in a rollout's file name
/// `rollout-<time>-<uuid>.jsonl`.
pub fn timestamp_from_filename(file_name: &str) -> (r: Option<i64>)
    ensures
        r == timestamp_from_filename_spec(file_name@),
{
    let stem = match str_strip_suffix(file_name, ".jsonl") {
        Some(s) => s,
        None => return None,
    };
    let stem = match str_strip_prefix(stem, "rollout-") {
        Some(s) => s,
        None => return None,
    };
    proof {
        encode_utf8_valid_utf8(stem@);
        assert(stem.spec_bytes() == encode_utf8(stem@));
    }
    let ghost name = file_name@;
    let ghost spec_stem = name.take(name.len() - ".jsonl"@.len()).skip("rollout-"@.len() as int);
    assert(stem@ == spec_stem);
    let len = stem.as_bytes().len();
    assert(len == encode_utf8(spec_stem).len());
    if len < 37 {
        assert(filename_timestamp_text(name) is None);
        return None;
    }
    let k = len - 37;
    if !stem.is_char_boundary(k) {
        return None;
    }
    let (text, _) = stem.split_at(k);
    proof {
        encode_utf8_decode_utf8(text@);
    }
    match parse_naive_micros(text, "%Y-%m-%dT%H-%M-%S%.f") {
        Some(m) => Some(m),
        None => parse_naive_micros(text, "%Y-%m-%dT%H-%M-%S"),
    }
}

/// What `uuid::Uuid::parse_str` followed by `to_string` gives for a text:
/// the canonical hyphenated lowercase form, or nothing when the text is no UUID.
pub uninterp spec fn uuid_canonical(text: Seq<char>) -> Option<Seq<char>>;

/// Calls `uuid::Uuid::parse_str` and writes the id with `to_string`; claims
/// the result is the named canonical form.
#[verifier::external_body]
pub(crate) fn uuid_canonical_text(text: &str) -> (r: Option<String>)
    ensures
        r is None <==> uuid_canonical(text@) is None,
        r matches Some(s) ==> uuid_canonical(text@) == Some(s@),
{
    uuid::Uuid::parse_str(text).ok().map(|id| id.to_string())
}

/// A file name without `.jsonl`.
pub open spec fn filename_stem(name: Seq<char>) -> Seq<char> {
    if ends_with(name, ".jsonl"@) { name.take(name.len() - ".jsonl"@.len()) } else { name }
}

/// The session id a rollout's file name gives: the UUID in its last 36
/// bytes, else `s_` and the SHA-256 of its relative path.
pub open spec fn session_id_from_filename_spec(name: Seq<char>, relative_path: Seq<char>) -> Seq<char> {
    let b = encode_utf8(filename_stem(name));
    let from_uuid = if b.len() >= 36 { uuid_canonical(decode_utf8(b.skip(b.len() - 36))) } else { None };
    match from_uuid {
        Some(id) => id,
        None => "s_"@ + hex_encode(sha256_spec(encode_utf8(relative_path))),
    }
}

/// The session id of a rollout from its file name: the UUID at the end of
/// the name, else one derived from its relative path.
pub fn session_id_from_filename(file_name: &str, relative_path: &str) -> (r: String)
    requires
        encode_utf8(filename_stem(file_name@)).len() >= 36 ==> is_char_boundary(
            encode_utf8(filename_stem(file_name@)),
            encode_utf8(filename_stem(file_name@)).len() - 36,
        ),
    ensures
        r@ == session_id_from_filename_spec(file_name@, relative_path@),
{
    let stem = match str_strip_suffix(file_name, ".jsonl") {
        Some(s) => s,
        None => file_name,
    };
    proof {
        encode_utf8_valid_utf8(stem@);
        assert(stem@ == filename_stem(file_name@));
        assert(stem.spec_bytes() == encode_utf8(stem@));
    }
    let len = stem.as_bytes().len();
    if len >= 36 {
        let (_, candidate) = stem.split_at(len - 36);
        proof {
            encode_utf8_decode_utf8(candidate@);
        }
        if let Some(id) = uuid_canonical_text(candidate) {
            return id;
        }
    }
    let mut out = String::new();
    string_push_str(&mut out, "s_");
    let digest = sha256_hex(relative_path.as_bytes());
    string_push_str(&mut out, digest.as_str());
    out
}

/// The session id of the rollout described by `context`.
pub fn session_id_from_file(context: &ParseContext) -> (r: String)
    requires
        encode_utf8(filename_stem(context.file_name@)).len() >= 36 ==> is_char_boundary(
            encode_utf8(filename_stem(context.file_name@)),
            encode_utf8(filename_stem(context.file_name@)).len() - 36,
        ),
    ensures
        r@ == session_id_from_filename_spec(context.file_name@, context.relative_path@),
{
    session_id_from_filename(context.file_name.as_str(), context.relative_path.as_str())
}

/// Plan text with CR LF and CR turned into LF.
pub open spec fn normalize_plan_text_spec(text: Seq<char>) -> Seq<char> {
    replace_cr(replace_crlf(text))
}

/// Plan text with CR LF and CR turned into LF.
pub fn normalize_plan_text(text: &str) -> (r: String)
    ensures
        r@ == normalize_plan_text_spec(text@),
{
    let crlf = replace_crlf_text(text);
    replace_cr_text(crlf.as_str())
}

/// The fingerprint of a plan: the SHA-256 of its normalized, trimmed text,
/// when that text is not empty.
pub open spec fn plan_hash_spec(text: Seq<char>) -> Option<Seq<char>> {
    let plan = trim_end_spec(trim_start_spec(normalize_plan_text_spec(text)));
    if plan.len() == 0 { None } else { Some(hex_encode(sha256_spec(encode_utf8(plan)))) }
}

/// The fingerprint of a plan, when it has text.
pub fn normalized_plan_hash(text: &str) -> (r: Option<String>)
    ensures
        match plan_hash_spec(text@) {
            None => r is None,
            Some(h) => (r matches Some(s) && s@ == h),
        },
{
    let normalized = normalize_plan_text(text);
    let plan = str_trim(normalized.as_str());
    if plan.is_empty() {
        None
    } else {
        Some(sha256_hex(plan.as_bytes()))
    }
}

/// The words that open a message handing a plan to a fresh agent.
pub const PLAN_HANDOFF_PREFIX: &'static str = "A previous agent produced the plan below to accomplish the user's task. Implement the plan in a fresh context. Treat the plan as the source of user intent, re-read files as needed, and carry the work through implementation and verification.";

/// The fingerprint of the plan a handoff message carries: the message opens
/// with the handoff words and a blank line, and the plan follows.
pub open spec fn handoff_plan_hash_spec(text: Seq<char>) -> Option<Seq<char>> {
    let t = trim_end_spec(trim_start_spec(normalize_plan_text_spec(text)));
    if starts_with(t, PLAN_HANDOFF_PREFIX@) {
        let rest = t.skip(PLAN_HANDOFF_PREFIX@.len() as int);
        if starts_with(rest, "\n\n"@) {
            plan_hash_spec(rest.skip("\n\n"@.len() as int))
        } else {
            None
        }
    } else {
        None
    }
}

/// The fingerprint of the plan a handoff message carries, if it is one.
pub fn handoff_plan_hash(text: &str) -> (r: Option<String>)
    ensures
        match handoff_plan_hash_spec(text@) {
            None => r is None,
            Some(h) => (r matches Some(s) && s@ == h),
        },
{
    let normalized = normalize_plan_text(text);
    let trimmed = str_trim(normalized.as_str());
    let rest = match str_strip_prefix(trimmed, PLAN_HANDOFF_PREFIX) {
        Some(r) => r,
        None => return None,
    };
    let plan = match str_strip_prefix(rest, "\n\n") {
        Some(p) => p,
        None => return None,
    };
    normalized_plan_hash(plan)
}

/// The first line that is not blank, trimmed; empty when there is none.
pub open spec fn first_filled_line(lines: Seq<Seq<char>>) -> Seq<char>
    decreases lines.len(),
{
    if lines.len() == 0 {
        Seq::empty()
    } else if trim_end_spec(trim_start_spec(lines[0])).len() > 0 {
        trim_end_spec(trim_start_spec(lines[0]))
    } else {
        first_filled_line(lines.drop_first())
    }
}

/// Text without leading Markdown markers (`#`, `-`, `*`, `+`).
pub open spec fn strip_markers(s: Seq<char>) -> Seq<char>
    decreases s.len(),
{
    if s.len() > 0 && (s[0] == '#' || s[0] == '-' || s[0] == '*' || s[0] == '+') {
        strip_markers(s.drop_first())
    } else {
        s
    }
}

/// The Markdown markers a title drops from its start.
pub open spec fn markers() -> Seq<char> {
    seq!['#', '-', '*', '+']
}

proof fn lemma_strip_markers(s: Seq<char>)
    ensures
        trim_start_set(s, markers()) == strip_markers(s),
    decreases s.len(),
{
    let m = markers();
    if s.len() > 0 {
        let c = s[0];
        if c == '#' || c == '-' || c == '*' || c == '+' {
            if c == '#' {
                assert(m[0] == c);
            } else if c == '-' {
                assert(m[1] == c);
            } else if c == '*' {
                assert(m[2] == c);
            } else {
                assert(m[3] == c);
            }
            assert(m.contains(c));
        } else {
            assert(!m.contains(c));
        }
        lemma_strip_markers(s.drop_first());
    }
}

/// Words joined by single spaces.
pub open spec fn join_words(words: Seq<Seq<char>>) -> Seq<char>
    decreases words.len(),
{
    if words.len() == 0 {
        Seq::empty()
    } else if words.len() == 1 {
        words[0]
    } else {
        join_words(words.drop_last()) + seq![' '] + words.last()
    }
}

/// The most grapheme clusters a title keeps.
pub const TITLE_GRAPHEMES: usize = 80;

/// The title a user message gives its session: its first filled line without
/// Markdown markers, spaces collapsed, cut to 80 grapheme clusters.
pub open spec fn title_spec(text: Seq<char>) -> Seq<char> {
    let line = first_filled_line(lines_spec(text));
    let normalized = join_words(words_from(trim_start_spec(strip_markers(line)), Seq::empty()));
    let g = grapheme_clusters(normalized);
    concat(g.take(if 80 < g.len() { 80 } else { g.len() as int }))
}

proof fn lemma_split_over_piece(l: Seq<char>, t: Seq<char>, sep: char, cur: Seq<char>)
    requires
        !l.contains(sep),
    ensures
        crate::text::split_from(l + t, sep, cur) == crate::text::split_from(t, sep, cur + l),
    decreases l.len(),
{
    if l.len() > 0 {
        assert((l + t).drop_first() =~= l.drop_first() + t);
        assert((l + t)[0] == l[0]);
        assert(l[0] != sep) by {
            if l[0] == sep {
                assert(l.contains(sep));
            }
        }
        assert(!l.drop_first().contains(sep)) by {
            if l.drop_first().contains(sep) {
                let j = choose|j: int| 0 <= j < l.drop_first().len() && l.drop_first()[j] == sep;
                assert(l[j + 1] == sep);
            }
        }
        lemma_split_over_piece(l.drop_first(), t, sep, cur.push(l[0]));
        assert(cur.push(l[0]) + l.drop_first() =~= cur + l);
    } else {
        assert(l + t =~= t);
        assert(cur + l =~= cur);
    }
}

proof fn lemma_split_nonempty(t: Seq<char>, sep: char, cur: Seq<char>)
    ensures
        crate::text::split_from(t, sep, cur).len() >= 1,
    decreases t.len(),
{
    if t.len() > 0 {
        if t[0] == sep {
            lemma_split_nonempty(t.drop_first(), sep, Seq::empty());
        } else {
            lemma_split_nonempty(t.drop_first(), sep, cur.push(t[0]));
        }
    }
}

/// A line without a line feed, then a line feed, then more text: that
/// line (without a carriage return before the feed) and then the lines of
/// the rest.
proof fn lemma_lines_cons(l: Seq<char>, rest: Seq<char>)
    requires
        !l.contains('\n'),
    ensures
        lines_spec(l + "\n"@ + rest) == seq![crate::text::without_cr(l)] + lines_spec(rest),
{
    reveal_strlit("\n");
    let nl = "\n"@;
    assert(nl =~= seq!['\n']);
    let text = l + nl + rest;
    assert(text =~= l + (nl + rest));
    lemma_split_over_piece(l, nl + rest, '\n', Seq::empty());
    assert(Seq::<char>::empty() + l =~= l);
    assert((nl + rest)[0] == '\n');
    assert((nl + rest).drop_first() =~= rest);
    let tail = crate::text::split_spec(rest, '\n');
    let p = crate::text::split_spec(text, '\n');
    assert(p == seq![l] + tail);
    lemma_split_nonempty(rest, '\n', Seq::empty());
    assert(p.last() == tail.last());
    assert(p.drop_last() =~= seq![l] + tail.drop_last());
    let f = |q: Seq<char>| crate::text::without_cr(q);
    assert((seq![l] + tail.drop_last()).map_values(f) =~= seq![crate::text::without_cr(l)] + tail.drop_last().map_values(f));
    if tail.last().len() == 0 {
        assert(lines_spec(text) =~= seq![crate::text::without_cr(l)] + lines_spec(rest));
    } else {
        assert(lines_spec(text) =~= seq![crate::text::without_cr(l)] + lines_spec(rest));
    }
}

/// Blank lines before the first filled line of a user message do not
/// count: the title is that of the text after them.
pub proof fn law_title_skips_blank_lines(blank: Seq<char>, rest: Seq<char>)
    requires
        !blank.contains('\n'),
        !blank.contains('\r'),
        trim_end_spec(trim_start_spec(blank)).len() == 0,
    ensures
        title_spec(blank + "\n"@ + rest) == title_spec(rest),
{
    lemma_lines_cons(blank, rest);
    if blank.len() > 0 && blank.last() == '\r' {
        assert(blank.contains('\r'));
    }
    assert(crate::text::without_cr(blank) == blank);
    let ls = lines_spec(blank + "\n"@ + rest);
    assert(ls[0] == blank);
    assert(ls.drop_first() =~= lines_spec(rest));
    assert(first_filled_line(ls) == first_filled_line(lines_spec(rest)));
}

/// Whether `s` is words separated by single spaces: no whitespace at either
/// end, and every whitespace character a space followed by a character that
/// is not whitespace.
pub open spec fn single_spaced(s: Seq<char>) -> bool {
    &&& s.len() > 0 ==> !char_is_whitespace(s.last())
    &&& forall|i: int| 0 <= i < s.len() && char_is_whitespace(#[trigger] s[i]) ==> s[i] == ' ' && i + 1 < s.len() && !char_is_whitespace(s[i + 1])
}

/// Joining a first word and more words.
proof fn lemma_join_words_cons(a: Seq<char>, ws: Seq<Seq<char>>)
    ensures
        join_words(seq![a] + ws) == if ws.len() == 0 { a } else { a + seq![' '] + join_words(ws) },
    decreases ws.len(),
{
    assert(join_words(seq![a]) == a);
    if ws.len() == 0 {
        assert(seq![a] + ws =~= seq![a]);
    } else if ws.len() == 1 {
        assert((seq![a] + ws).drop_last() =~= seq![a]);
        assert((seq![a] + ws).last() == ws[0]);
        assert(join_words(ws) == ws[0]);
    } else {
        lemma_join_words_cons(a, ws.drop_last());
        assert((seq![a] + ws).drop_last() =~= seq![a] + ws.drop_last());
        assert((seq![a] + ws).last() == ws.last());
        assert(a + seq![' '] + join_words(ws) =~= a + seq![' '] + join_words(ws.drop_last()) + seq![' '] + ws.last());
    }
}

/// Text whose words are already separated by single spaces is its words
/// joined again.
proof fn lemma_words_rejoin(s: Seq<char>, cur: Seq<char>)
    requires
        single_spaced(s),
        forall|i: int| 0 <= i < cur.len() ==> !char_is_whitespace(#[trigger] cur[i]),
        cur.len() == 0 && s.len() > 0 ==> !char_is_whitespace(s[0]),
    ensures
        join_words(words_from(s, cur)) == cur + s,
    decreases s.len(),
{
    if s.len() == 0 {
        assert(cur + s =~= cur);
        if cur.len() > 0 {
            assert(join_words(seq![cur]) == cur);
        }
    } else {
        let t = s.drop_first();
        assert(single_spaced(t)) by {
            assert forall|i: int| 0 <= i < t.len() && char_is_whitespace(#[trigger] t[i]) implies t[i] == ' ' && i + 1 < t.len()
                && !char_is_whitespace(t[i + 1]) by {
                assert(t[i] == s[i + 1]);
            }
            if t.len() > 0 {
                assert(t.last() == s.last());
            }
        }
        if char_is_whitespace(s[0]) {
            assert(s[0] == ' ' && 1 < s.len() && !char_is_whitespace(s[1]));
            assert(t[0] == s[1]);
            lemma_words_rejoin(t, Seq::empty());
            assert(Seq::<char>::empty() + t =~= t);
            let w = words_from(t, Seq::empty());
            assert(w.len() > 0) by {
                if w.len() == 0 {
                    assert(join_words(w) =~= Seq::<char>::empty());
                }
            }
            lemma_join_words_cons(cur, w);
            assert(cur + seq![' '] + t =~= cur + s);
        } else {
            let c2 = cur.push(s[0]);
            assert forall|i: int| 0 <= i < c2.len() implies !char_is_whitespace(#[trigger] c2[i]) by {
                if i < cur.len() {
                    assert(c2[i] == cur[i]);
                }
            }
            lemma_words_rejoin(t, c2);
            assert(c2 + t =~= cur + s);
        }
    }
}

/// The title of a user message whose first line is already plain, with no
/// Markdown marker at its start, words separated by single spaces and at
/// most 80 grapheme clusters, is that line.
pub proof fn law_title_of_plain_line(line: Seq<char>, rest: Seq<char>)
    requires
        !line.contains('\n'),
        !line.contains('\r'),
        line.len() > 0,
        !char_is_whitespace(line[0]),
        line[0] != '#' && line[0] != '-' && line[0] != '*' && line[0] != '+',
        single_spaced(line),
        grapheme_clusters(line).len() <= 80,
        concat(grapheme_clusters(line)) == line,
    ensures
        title_spec(line + "\n"@ + rest) == line,
{
    lemma_lines_cons(line, rest);
    if line.last() == '\r' {
        assert(line.contains('\r'));
    }
    assert(crate::text::without_cr(line) == line);
    assert(trim_start_spec(line) == line);
    assert(trim_end_spec(line) == line);
    let ls = lines_spec(line + "\n"@ + rest);
    assert(ls[0] == line);
    assert(first_filled_line(ls) == line);
    assert(strip_markers(line) == line);
    lemma_words_rejoin(line, Seq::empty());
    assert(Seq::<char>::empty() + line =~= line);
    let g = grapheme_clusters(line);
    assert(g.take(g.len() as int) =~= g);
}

/// The title of a user message comes from its first line alone when that
/// line is not blank: whatever follows the line break leaves it unchanged.
pub proof fn law_title_ignores_later_lines(first: Seq<char>, rest: Seq<char>)
    requires
        !first.contains('\n'),
        !first.contains('\r'),
        trim_end_spec(trim_start_spec(first)).len() > 0,
    ensures
        title_spec(first + "\n"@ + rest) == title_spec(first),
{
    lemma_lines_cons(first, rest);
    if first.len() > 0 && first.last() == '\r' {
        assert(first.contains('\r'));
    }
    assert(crate::text::without_cr(first) == first);
    let ls = lines_spec(first + "\n"@ + rest);
    assert(ls[0] == first);
    assert(first_filled_line(ls) == trim_end_spec(trim_start_spec(first)));
    lemma_split_over_piece(first, Seq::empty(), '\n', Seq::empty());
    assert(first + Seq::<char>::empty() =~= first);
    assert(Seq::<char>::empty() + first =~= first);
    assert(crate::text::split_spec(first, '\n') =~= seq![first]);
    let ls1 = lines_spec(first);
    assert(ls1 =~= seq![first]);
    assert(first_filled_line(ls1) == trim_end_spec(trim_start_spec(first)));
}

/// The title a user message gives its session.
pub fn title_from_user_message(text: &str) -> (r: String)
    ensures
        r@ == title_spec(text@),
{
    let lines = str_lines(text);
    let ghost ls = lines@.map_values(|p: &str| p@);
    let mut first: &str = "";
    let mut i: usize = 0;
    let mut found = false;
    assert(ls.skip(0) =~= ls);
    while i < lines.len() && !found
        invariant
            i <= lines@.len(),
            ls == lines@.map_values(|p: &str| p@),
            found ==> first@ == first_filled_line(ls),
            !found ==> first_filled_line(ls) == first_filled_line(ls.skip(i as int)),
            !found ==> first@ == ""@,
        decreases lines@.len() - i,
    {
        let t = str_trim(lines[i]);
        proof {
            assert(ls.skip(i as int)[0] == lines@[i as int]@);
            assert(ls.skip(i as int).drop_first() =~= ls.skip(i + 1));
        }
        if !t.is_empty() {
            first = t;
            found = true;
        }
        i = i + 1;
    }
    if !found {
        assert(ls.skip(lines@.len() as int) =~= Seq::<Seq<char>>::empty());
        proof {
            reveal_strlit("");
        }
        assert(first@ =~= Seq::<char>::empty());
    }
    let marks = vec!['#', '-', '*', '+'];
    proof {
        assert(marks@ =~= markers());
        lemma_strip_markers(first@);
    }
    let stripped = str_trim_start(str_trim_start_matches(first, marks.as_slice()));
    let words = str_words(stripped);
    let ghost ws = words@.map_values(|p: &str| p@);
    let mut normalized = String::new();
    let mut k: usize = 0;
    while k < words.len()
        invariant
            k <= words@.len(),
            ws == words@.map_values(|p: &str| p@),
            normalized@ == join_words(ws.take(k as int)),
        decreases words@.len() - k,
    {
        if k > 0 {
            string_push(&mut normalized, ' ');
        }
        string_push_str(&mut normalized, words[k]);
        proof {
            assert(ws.take(k + 1).drop_last() =~= ws.take(k as int));
            assert(ws[k as int] == words@[k as int]@);
            if k == 0 {
                assert(join_words(ws.take(1)) == ws.take(1)[0]);
            }
        }
        k = k + 1;
    }
    assert(ws.take(words@.len() as int) =~= ws);
    truncate_graphemes(normalized.as_str(), TITLE_GRAPHEMES)
}

/// `a - b`, clamped to the range of `i64`.
pub open spec fn saturating_sub_spec(a: i64, b: i64) -> i64 {
    let d = a - b;
    if d > i64::MAX { i64::MAX } else if d < i64::MIN { i64::MIN } else { d as i64 }
}

/// `a - b`, clamped to the range of `i64`.
pub fn saturating_sub_i64(a: i64, b: i64) -> (r: i64)
    ensures
        r == saturating_sub_spec(a, b),
{
    let d = a as i128 - b as i128;
    if d > i64::MAX as i128 {
        i64::MAX
    } else if d < i64::MIN as i128 {
        i64::MIN
    } else {
        d as i64
    }
}

/// How long after its last update an active session still counts as live.
pub const LIVE_WINDOW_MICROS: i64 = 60000000;

/// What is learned about a session while its rollout is read.
#[derive(Debug)]
pub struct SessionBuilder {
    pub id: String,
    pub source: SourceKind,
    pub parent_thread_id: Option<String>,
    pub parent_relation: Option<SessionParentRelation>,
    pub proposed_plan_hash: Option<String>,
    pub proposed_plan_at_micros: Option<i64>,
    pub handoff_plan_hash: Option<String>,
    pub handoff_at_micros: Option<i64>,
    pub cwd: Option<String>,
    pub title: Option<String>,
    pub preview: Option<String>,
    pub created_at_micros: i64,
    pub updated_at_micros: i64,
    pub cli_version: Option<String>,
    pub provider: Option<String>,
    pub history_line: Option<u64>,
    pub git_branch: Option<String>,
    pub git_commit: Option<String>,
    pub entry_count: u64,
    pub diagnostic_count: u64,
    pub saw_user: bool,
    pub subagent_history_start_ordinal: Option<u64>,
    pub last_inter_agent_source_id: Option<String>,
}

/// The completeness of a parsed session: unsupported when nothing was
/// recognized, partial when reading stopped early, live when an active
/// rollout has an unfinished last line or changed within the last minute.
pub open spec fn completeness_spec(
    root_kind: RootKind,
    now_micros: i64,
    updated_at_micros: i64,
    recognized: u64,
    partial: bool,
    incomplete_tail: bool,
) -> Completeness {
    if recognized == 0 {
        Completeness::Unsupported
    } else if partial {
        Completeness::Partial
    } else if root_kind == RootKind::Active && (incomplete_tail
        || saturating_sub_spec(now_micros, updated_at_micros) <= LIVE_WINDOW_MICROS) {
        Completeness::Live
    } else {
        Completeness::Complete
    }
}

/// The title of a session whose user never wrote anything.
pub open spec fn fallback_title_spec(created_at_micros: i64) -> Seq<char> {
    "Untitled · "@ + match rfc3339_auto_text(created_at_micros) {
        Some(t) => t,
        None => "unknown time"@,
    }
}

/// The text of an optional string.
pub open spec fn text_of(s: Option<String>) -> Option<Seq<char>> {
    match s {
        Some(t) => Some(t@),
        None => None,
    }
}

/// The unsigned integer member `key`, when it is one.
pub open spec fn u64_member(v: JsonValue, key: Seq<char>) -> Option<u64> {
    match json_get(v, key) {
        Some(JsonValue::Number(n)) => n.as_u64,
        _ => None,
    }
}

fn u64_member_of(v: &JsonValue, key: &str) -> (r: Option<u64>)
    ensures
        r == u64_member(*v, key@),
{
    match v.get(key) {
        Some(m) => m.as_u64(),
        None => None,
    }
}

/// `text`, else `fallback`.
pub open spec fn or_text(text: Option<Seq<char>>, fallback: Option<Seq<char>>) -> Option<Seq<char>> {
    match text {
        Some(t) => Some(t),
        None => fallback,
    }
}

/// The parent a `session_meta` payload names: its `parent_thread_id`, else
/// the parent in its `source`.
pub open spec fn meta_parent(payload: JsonValue) -> Option<Seq<char>> {
    or_text(str_member(payload, "parent_thread_id"@), source_parent_spec(json_get(payload, "source"@)))
}

/// The creation time a `session_meta` record gives: its payload's RFC 3339
/// `timestamp`, else the record's.
pub open spec fn meta_time(payload: JsonValue, timestamp: Option<i64>) -> Option<i64> {
    let own = match str_member(payload, "timestamp"@) {
        Some(t) => rfc3339_micros(t),
        None => None,
    };
    match own {
        Some(t) => Some(t),
        None => timestamp,
    }
}

/// How a builder changes when it learns from a `session_meta` payload.
pub open spec fn metadata_applied(a: SessionBuilder, b: SessionBuilder, payload: JsonValue, timestamp: Option<i64>, line_no: u64) -> bool {
    &&& b.id@ == match payload_session_id_spec(payload) {
        Some(id) => id,
        None => a.id@,
    }
    &&& text_of(b.cwd) == or_text(str_member(payload, "cwd"@), text_of(a.cwd))
    &&& match meta_parent(payload) {
        Some(p) => text_of(b.parent_thread_id) == Some(p) && b.parent_relation == Some(SessionParentRelation::Parent),
        None => if a.parent_relation != Some(SessionParentRelation::Parent) && str_member(payload, "forked_from_id"@) is Some {
            text_of(b.parent_thread_id) == str_member(payload, "forked_from_id"@) && b.parent_relation == Some(SessionParentRelation::Fork)
        } else {
            b.parent_thread_id == a.parent_thread_id && b.parent_relation == a.parent_relation
        },
    }
    &&& text_of(b.cli_version) == or_text(str_member(payload, "cli_version"@), text_of(a.cli_version))
    &&& text_of(b.provider) == or_text(str_member(payload, "model_provider"@), text_of(a.provider))
    &&& b.subagent_history_start_ordinal == match u64_member(payload, "subagent_history_start_ordinal"@) {
        Some(v) => Some(v),
        None => a.subagent_history_start_ordinal,
    }
    &&& b.source == source_kind_spec(payload)
    &&& b.history_line == match u64_member(payload, "history_line"@) {
        Some(v) => Some(v),
        None => match a.history_line {
            Some(v) => Some(v),
            None => Some(line_no),
        },
    }
    &&& match meta_time(payload, timestamp) {
        Some(t) => b.created_at_micros == t && b.updated_at_micros == (if t > a.updated_at_micros { t } else { a.updated_at_micros }),
        None => b.created_at_micros == a.created_at_micros && b.updated_at_micros == a.updated_at_micros,
    }
    &&& match json_get(payload, "git"@) {
        Some(g) => text_of(b.git_branch) == str_member(g, "branch"@)
            && text_of(b.git_commit) == or_text(str_member(g, "commit_hash"@), str_member(g, "commit"@)),
        None => b.git_branch == a.git_branch && b.git_commit == a.git_commit,
    }
    &&& b.title == a.title && b.preview == a.preview && b.saw_user == a.saw_user
    &&& b.proposed_plan_hash == a.proposed_plan_hash && b.proposed_plan_at_micros == a.proposed_plan_at_micros
    &&& b.handoff_plan_hash == a.handoff_plan_hash && b.handoff_at_micros == a.handoff_at_micros
    &&& b.entry_count == a.entry_count && b.diagnostic_count == a.diagnostic_count
    &&& b.last_inter_agent_source_id == a.last_inter_agent_source_id
}

fn copy_opt_string(s: &Option<String>) -> (r: Option<String>)
    ensures
        r == *s,
{
    match s {
        Some(t) => Some(t.clone()),
        None => None,
    }
}

fn or_string(value: Option<String>, fallback: &Option<String>) -> (r: Option<String>)
    ensures
        text_of(r) == or_text(text_of(value), text_of(*fallback)),
{
    match value {
        Some(v) => Some(v),
        None => copy_opt_string(fallback),
    }
}

fn meta_parent_of(payload: &JsonValue) -> (r: Option<String>)
    ensures
        text_of(r) == meta_parent(*payload),
{
    match string_option(payload, "parent_thread_id") {
        Some(p) => Some(p),
        None => source_parent(payload.get("source")),
    }
}

fn meta_time_of(payload: &JsonValue, timestamp: Option<i64>) -> (r: Option<i64>)
    ensures
        r == meta_time(*payload, timestamp),
{
    let own = match payload.get("timestamp") {
        Some(t) => match t.as_str() {
            Some(text) => parse_rfc3339_micros(text),
            None => None,
        },
        None => None,
    };
    match own {
        Some(t) => Some(t),
        None => timestamp,
    }
}

impl SessionBuilder {
    /// A builder for a rollout read from the start: created when its file
    /// name says (else when the file was modified), updated when modified.
    pub fn new(context: &ParseContext, id: String) -> (r: Self)
        ensures
            r.id == id,
            r.source == SourceKind::Unknown,
            r.created_at_micros == match timestamp_from_filename_spec(context.file_name@) {
                Some(t) => t,
                None => context.modified_at_micros,
            },
            r.updated_at_micros == context.modified_at_micros,
            r.parent_thread_id is None && r.parent_relation is None && r.cwd is None,
            r.title is None && r.preview is None && !r.saw_user,
            r.proposed_plan_hash is None && r.handoff_plan_hash is None,
            r.entry_count == 0 && r.diagnostic_count == 0,
            r.history_line is None && r.subagent_history_start_ordinal is None,
            r.last_inter_agent_source_id is None,
    {
        let created = match timestamp_from_filename(context.file_name.as_str()) {
            Some(t) => t,
            None => context.modified_at_micros,
        };
        SessionBuilder {
            id,
            source: SourceKind::Unknown,
            parent_thread_id: None,
            parent_relation: None,
            proposed_plan_hash: None,
            proposed_plan_at_micros: None,
            handoff_plan_hash: None,
            handoff_at_micros: None,
            cwd: None,
            title: None,
            preview: None,
            created_at_micros: created,
            updated_at_micros: context.modified_at_micros,
            cli_version: None,
            provider: None,
            history_line: None,
            git_branch: None,
            git_commit: None,
            entry_count: 0,
            diagnostic_count: 0,
            saw_user: false,
            subagent_history_start_ordinal: None,
            last_inter_agent_source_id: None,
        }
    }

    /// A builder resuming from a stored record. A stored title that is not a
    /// fallback title shows the user already wrote.
    pub fn from_record(record: SessionRecord) -> (r: Self)
        ensures
            r.saw_user == !starts_with(record.title@, "Untitled · "@),
            r.saw_user ==> r.title == Some(record.title) && r.preview == Some(record.preview),
            !r.saw_user ==> r.title is None && r.preview is None,
            r.id == record.id && r.source == record.source,
            r.parent_thread_id == record.parent_thread_id && r.parent_relation == record.parent_relation,
            r.proposed_plan_hash == record.proposed_plan_hash && r.proposed_plan_at_micros == record.proposed_plan_at_micros,
            r.handoff_plan_hash == record.handoff_plan_hash && r.handoff_at_micros == record.handoff_at_micros,
            r.cwd == record.cwd && r.cli_version == record.cli_version && r.provider == record.provider,
            r.created_at_micros == record.created_at_micros && r.updated_at_micros == record.updated_at_micros,
            r.history_line == record.history_line && r.git_branch == record.git_branch && r.git_commit == record.git_commit,
            r.entry_count == record.entry_count && r.diagnostic_count == record.diagnostic_count,
            r.subagent_history_start_ordinal is None && r.last_inter_agent_source_id is None,
    {
        let saw_user = !str_starts_with(record.title.as_str(), "Untitled · ");
        let (title, preview) = if saw_user { (Some(record.title), Some(record.preview)) } else { (None, None) };
        SessionBuilder {
            id: record.id,
            source: record.source,
            parent_thread_id: record.parent_thread_id,
            parent_relation: record.parent_relation,
            proposed_plan_hash: record.proposed_plan_hash,
            proposed_plan_at_micros: record.proposed_plan_at_micros,
            handoff_plan_hash: record.handoff_plan_hash,
            handoff_at_micros: record.handoff_at_micros,
            cwd: record.cwd,
            title,
            preview,
            created_at_micros: record.created_at_micros,
            updated_at_micros: record.updated_at_micros,
            cli_version: record.cli_version,
            provider: record.provider,
            history_line: record.history_line,
            git_branch: record.git_branch,
            git_commit: record.git_commit,
            entry_count: record.entry_count,
            diagnostic_count: record.diagnostic_count,
            saw_user,
            subagent_history_start_ordinal: None,
            last_inter_agent_source_id: None,
        }
    }

    /// Learns from a `session_meta` payload: the session's id, directory,
    /// parent or fork origin, client version, provider, kind of front end,
    /// history position, creation time and git state. A payload's own
    /// timestamp wins over the record's.
    #[verifier::rlimit(40)]
    pub fn apply_metadata(&mut self, payload: &JsonValue, timestamp: Option<i64>, line_no: u64)
        ensures
            metadata_applied(*old(self), *final(self), *payload, timestamp, line_no),
    {
        let id = match payload_session_id(payload) {
            Some(id) => id,
            None => self.id.clone(),
        };
        let cwd = or_string(string_option(payload, "cwd"), &self.cwd);
        let parent = meta_parent_of(payload);
        let (parent_thread_id, parent_relation) = match parent {
            Some(p) => (Some(p), Some(SessionParentRelation::Parent)),
            None => if self.parent_relation != Some(SessionParentRelation::Parent) {
                match string_option(payload, "forked_from_id") {
                    Some(p) => (Some(p), Some(SessionParentRelation::Fork)),
                    None => (copy_opt_string(&self.parent_thread_id), self.parent_relation),
                }
            } else {
                (copy_opt_string(&self.parent_thread_id), self.parent_relation)
            },
        };
        let cli_version = or_string(string_option(payload, "cli_version"), &self.cli_version);
        let provider = or_string(string_option(payload, "model_provider"), &self.provider);
        let ordinal = match u64_member_of(payload, "subagent_history_start_ordinal") {
            Some(v) => Some(v),
            None => self.subagent_history_start_ordinal,
        };
        let history_line = match u64_member_of(payload, "history_line") {
            Some(v) => Some(v),
            None => match self.history_line {
                Some(v) => Some(v),
                None => Some(line_no),
            },
        };
        let (created, updated) = match meta_time_of(payload, timestamp) {
            Some(t) => (t, if t > self.updated_at_micros { t } else { self.updated_at_micros }),
            None => (self.created_at_micros, self.updated_at_micros),
        };
        let (git_branch, git_commit) = match payload.get("git") {
            Some(git) => (
                string_option(git, "branch"),
                match string_option(git, "commit_hash") {
                    Some(c) => Some(c),
                    None => string_option(git, "commit"),
                },
            ),
            None => (copy_opt_string(&self.git_branch), copy_opt_string(&self.git_commit)),
        };
        let source = source_kind(payload);
        self.id = id;
        self.cwd = cwd;
        self.parent_thread_id = parent_thread_id;
        self.parent_relation = parent_relation;
        self.cli_version = cli_version;
        self.provider = provider;
        self.subagent_history_start_ordinal = ordinal;
        self.source = source;
        self.history_line = history_line;
        self.created_at_micros = created;
        self.updated_at_micros = updated;
        self.git_branch = git_branch;
        self.git_commit = git_commit;
    }

    /// Whether an item at `ordinal` belongs to history inherited from the
    /// parent of a subagent session.
    pub fn is_inherited_ordinal(&self, ordinal: Option<u64>) -> (r: bool)
        ensures
            r == (ordinal matches Some(o) && self.subagent_history_start_ordinal matches Some(s) && o < s),
    {
        match (ordinal, self.subagent_history_start_ordinal) {
            (Some(o), Some(s)) => o < s,
            _ => false,
        }
    }

    /// Learns from one normalized entry: a plan's fingerprint, and from the
    /// first user message with text, the title, preview and any handed-off
    /// plan.
    pub fn observe_entry(&mut self, entry: &NormalizedEntry)
        ensures
            (entry.kind == EntryKind::Plan && plan_hash_spec(entry.primary_text@) is Some) ==> (
                final(self).proposed_plan_hash matches Some(h) && Some(h@) == plan_hash_spec(entry.primary_text@)
                && final(self).proposed_plan_at_micros == Some(match entry.timestamp_micros { Some(t) => t, None => old(self).updated_at_micros })),
            !(entry.kind == EntryKind::Plan && plan_hash_spec(entry.primary_text@) is Some) ==> (
                final(self).proposed_plan_hash == old(self).proposed_plan_hash
                && final(self).proposed_plan_at_micros == old(self).proposed_plan_at_micros),
            ({
                let first_user = !old(self).saw_user && entry.presentation == EntryPresentation::User
                    && trim_end_spec(trim_start_spec(entry.primary_text@)).len() > 0;
                &&& first_user ==> final(self).saw_user
                    && (final(self).title matches Some(t) && t@ == title_spec(entry.primary_text@))
                    && (final(self).preview matches Some(p) && p@ == concat(grapheme_clusters(entry.primary_text@).take(
                        if 160 < grapheme_clusters(entry.primary_text@).len() { 160 } else { grapheme_clusters(entry.primary_text@).len() as int })))
                &&& (first_user && handoff_plan_hash_spec(entry.primary_text@) is Some) ==> (
                    final(self).handoff_plan_hash matches Some(h) && Some(h@) == handoff_plan_hash_spec(entry.primary_text@)
                    && final(self).handoff_at_micros == Some(match entry.timestamp_micros { Some(t) => t, None => old(self).updated_at_micros }))
                &&& !(first_user && handoff_plan_hash_spec(entry.primary_text@) is Some) ==> (
                    final(self).handoff_plan_hash == old(self).handoff_plan_hash && final(self).handoff_at_micros == old(self).handoff_at_micros)
                &&& !first_user ==> final(self).saw_user == old(self).saw_user && final(self).title == old(self).title
                    && final(self).preview == old(self).preview
            }),
            final(self).id == old(self).id && final(self).updated_at_micros == old(self).updated_at_micros,
            final(self).created_at_micros == old(self).created_at_micros,
            final(self).source == old(self).source && final(self).cwd == old(self).cwd,
            final(self).parent_thread_id == old(self).parent_thread_id && final(self).parent_relation == old(self).parent_relation,
            final(self).cli_version == old(self).cli_version && final(self).provider == old(self).provider,
            final(self).history_line == old(self).history_line && final(self).git_branch == old(self).git_branch,
            final(self).git_commit == old(self).git_commit && final(self).entry_count == old(self).entry_count,
            final(self).diagnostic_count == old(self).diagnostic_count,
            final(self).subagent_history_start_ordinal == old(self).subagent_history_start_ordinal,
            final(self).last_inter_agent_source_id == old(self).last_inter_agent_source_id,
    {
        let primary_text = entry.primary_text.as_str();
        let timestamp_micros = entry.timestamp_micros;
        if entry.kind == EntryKind::Plan {
            if let Some(hash) = normalized_plan_hash(primary_text) {
                self.proposed_plan_hash = Some(hash);
                self.proposed_plan_at_micros = Some(match entry.timestamp_micros {
                    Some(t) => t,
                    None => self.updated_at_micros,
                });
            }
        }
        if !self.saw_user && entry.presentation == EntryPresentation::User && !str_trim(primary_text).is_empty() {
            if let Some(hash) = handoff_plan_hash(primary_text) {
                self.handoff_plan_hash = Some(hash);
                self.handoff_at_micros = Some(match entry.timestamp_micros {
                    Some(t) => t,
                    None => self.updated_at_micros,
                });
            }
            self.saw_user = true;
            self.title = Some(title_from_user_message(primary_text));
            self.preview = Some(truncate_graphemes(primary_text, 160));
        }
    }

    /// The session record once the rollout has been read: `recognized`
    /// records were understood, `partial` tells reading stopped early and
    /// `incomplete_tail` that the last line was unfinished.
    pub fn finish(self, context: &ParseContext, recognized: u64, partial: bool, incomplete_tail: bool) -> (r: SessionRecord)
        ensures
            r.completeness == completeness_spec(context.root_kind, context.now_micros, self.updated_at_micros,
                recognized, partial, incomplete_tail),
            r.title@ == match self.title {
                Some(t) => t@,
                None => fallback_title_spec(self.created_at_micros),
            },
            r.preview@ == match self.preview {
                Some(p) => p@,
                None => Seq::<char>::empty(),
            },
            r.archived == (context.root_kind == RootKind::Archived),
            r.index_state == (if partial { IndexState::Partial } else { IndexState::Ready }),
            r.id == self.id && r.source == self.source && r.parent_thread_id == self.parent_thread_id,
            r.parent_relation == self.parent_relation && r.cwd == self.cwd,
            r.proposed_plan_hash == self.proposed_plan_hash && r.proposed_plan_at_micros == self.proposed_plan_at_micros,
            r.handoff_plan_hash == self.handoff_plan_hash && r.handoff_at_micros == self.handoff_at_micros,
            r.created_at_micros == self.created_at_micros && r.updated_at_micros == self.updated_at_micros,
            r.cli_version == self.cli_version && r.provider == self.provider && r.history_line == self.history_line,
            r.git_branch == self.git_branch && r.git_commit == self.git_commit,
            r.entry_count == self.entry_count && r.diagnostic_count == self.diagnostic_count,
    {
        let completeness = if recognized == 0 {
            Completeness::Unsupported
        } else if partial {
            Completeness::Partial
        } else if context.root_kind == RootKind::Active && (incomplete_tail
            || saturating_sub_i64(context.now_micros, self.updated_at_micros) <= LIVE_WINDOW_MICROS) {
            Completeness::Live
        } else {
            Completeness::Complete
        };
        let title = match self.title {
            Some(t) => t,
            None => {
                let mut t = String::new();
                string_push_str(&mut t, "Untitled · ");
                match format_rfc3339_auto(self.created_at_micros) {
                    Some(time) => string_push_str(&mut t, time.as_str()),
                    None => string_push_str(&mut t, "unknown time"),
                }
                t
            },
        };
        let preview = match self.preview {
            Some(p) => p,
            None => String::new(),
        };
        SessionRecord {
            id: self.id,
            source: self.source,
            parent_thread_id: self.parent_thread_id,
            parent_relation: self.parent_relation,
            proposed_plan_hash: self.proposed_plan_hash,
            proposed_plan_at_micros: self.proposed_plan_at_micros,
            handoff_plan_hash: self.handoff_plan_hash,
            handoff_at_micros: self.handoff_at_micros,
            cwd: self.cwd,
            title,
            preview,
            created_at_micros: self.created_at_micros,
            updated_at_micros: self.updated_at_micros,
            archived: context.root_kind == RootKind::Archived,
            cli_version: self.cli_version,
            provider: self.provider,
            history_line: self.history_line,
            git_branch: self.git_branch,
            git_commit: self.git_commit,
            entry_count: self.entry_count,
            index_state: if partial { IndexState::Partial } else { IndexState::Ready },
            completeness,
            diagnostic_count: self.diagnostic_count,
        }
    }
}

} // verus!
