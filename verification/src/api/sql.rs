//! SQL filter fragments for listings, as text pieces and bound values that
//! a query builder replays in order.

use vstd::prelude::*;

use crate::api::entries::{ConversationDisplayType, EntryVisibility};
use crate::api::query::{validate_id, valid_id_spec, SessionsQuery, SessionsQueryView};
use crate::model::SourceKind;
use crate::text::string_push_str;
use crate::failure::ApiFailure;
use crate::search::ArchiveFilter;
use crate::text::str_eq;

verus! {

/// One piece of a query: literal SQL text, or a value bound to a placeholder.
#[derive(Clone, Debug, PartialEq, Eq)]
pub enum SqlPiece {
    Text(&'static str),
    Bind(String),
}

/// The text or bound value of a piece.
pub open spec fn piece_view(p: SqlPiece) -> (bool, Seq<char>) {
    match p {
        SqlPiece::Text(t) => (true, t@),
        SqlPiece::Bind(v) => (false, v@),
    }
}

/// The views of pieces.
pub open spec fn pieces_view(ps: Seq<SqlPiece>) -> Seq<(bool, Seq<char>)> {
    ps.map_values(|p: SqlPiece| piece_view(p))
}

/// The SQL condition that selects one display category.
pub open spec fn display_clause_spec(t: ConversationDisplayType) -> Seq<char> {
    match t {
        ConversationDisplayType::Received => "(e.kind = 'message' AND e.presentation = 'response')"@,
        ConversationDisplayType::Sent => "(e.kind = 'message' AND e.presentation = 'user')"@,
        ConversationDisplayType::RequestUserInput => "(e.kind = 'tool' AND e.tool_kind = 'requestUserInput')"@,
        ConversationDisplayType::Reasoning => "e.kind = 'reasoning'"@,
        ConversationDisplayType::Exec => "(e.kind = 'tool' AND e.tool_kind = 'command')"@,
        ConversationDisplayType::Plan => "e.kind = 'plan'"@,
        ConversationDisplayType::Patch => "(e.kind = 'tool' AND e.tool_kind = 'patch')"@,
        ConversationDisplayType::Mcp => "(e.kind = 'tool' AND e.tool_kind = 'mcp')"@,
        ConversationDisplayType::WebSearch => "(e.kind = 'tool' AND e.tool_kind = 'webSearch')"@,
        ConversationDisplayType::Function => "(e.kind = 'tool' AND e.tool_kind = 'function')"@,
        ConversationDisplayType::Dynamic => "(e.kind = 'tool' AND e.tool_kind = 'dynamic')"@,
        ConversationDisplayType::Terminal => "(e.kind = 'tool' AND e.tool_kind = 'terminal')"@,
        ConversationDisplayType::ViewImage => "(e.kind = 'tool' AND e.tool_kind = 'viewImage')"@,
        ConversationDisplayType::OtherTool => "(e.kind = 'tool' AND e.tool_kind = 'other')"@,
        ConversationDisplayType::Warning => "e.kind = 'warning'"@,
        ConversationDisplayType::Error => "e.kind = 'error'"@,
        ConversationDisplayType::Context => "e.kind = 'context'"@,
        ConversationDisplayType::Marker => "e.kind = 'marker'"@,
        ConversationDisplayType::TechnicalMessage => "(e.kind = 'message' AND e.presentation = 'technical')"@,
        ConversationDisplayType::InternalMessage => "(e.kind = 'message' AND e.presentation = 'internal')"@,
        ConversationDisplayType::Unknown => "e.kind = 'unknown'"@,
    }
}

/// The SQL condition that selects one display category.
pub fn display_clause(t: ConversationDisplayType) -> (r: &'static str)
    ensures
        r@ == display_clause_spec(t),
{
    match t {
        ConversationDisplayType::Received => "(e.kind = 'message' AND e.presentation = 'response')",
        ConversationDisplayType::Sent => "(e.kind = 'message' AND e.presentation = 'user')",
        ConversationDisplayType::RequestUserInput => "(e.kind = 'tool' AND e.tool_kind = 'requestUserInput')",
        ConversationDisplayType::Reasoning => "e.kind = 'reasoning'",
        ConversationDisplayType::Exec => "(e.kind = 'tool' AND e.tool_kind = 'command')",
        ConversationDisplayType::Plan => "e.kind = 'plan'",
        ConversationDisplayType::Patch => "(e.kind = 'tool' AND e.tool_kind = 'patch')",
        ConversationDisplayType::Mcp => "(e.kind = 'tool' AND e.tool_kind = 'mcp')",
        ConversationDisplayType::WebSearch => "(e.kind = 'tool' AND e.tool_kind = 'webSearch')",
        ConversationDisplayType::Function => "(e.kind = 'tool' AND e.tool_kind = 'function')",
        ConversationDisplayType::Dynamic => "(e.kind = 'tool' AND e.tool_kind = 'dynamic')",
        ConversationDisplayType::Terminal => "(e.kind = 'tool' AND e.tool_kind = 'terminal')",
        ConversationDisplayType::ViewImage => "(e.kind = 'tool' AND e.tool_kind = 'viewImage')",
        ConversationDisplayType::OtherTool => "(e.kind = 'tool' AND e.tool_kind = 'other')",
        ConversationDisplayType::Warning => "e.kind = 'warning'",
        ConversationDisplayType::Error => "e.kind = 'error'",
        ConversationDisplayType::Context => "e.kind = 'context'",
        ConversationDisplayType::Marker => "e.kind = 'marker'",
        ConversationDisplayType::TechnicalMessage => "(e.kind = 'message' AND e.presentation = 'technical')",
        ConversationDisplayType::InternalMessage => "(e.kind = 'message' AND e.presentation = 'internal')",
        ConversationDisplayType::Unknown => "e.kind = 'unknown'",
    }
}

/// The condition of the default visibility.
pub open spec fn default_visibility_sql() -> Seq<char> {
    " AND ((e.kind = 'message' AND e.presentation IN ('user', 'response')) OR e.kind = 'reasoning' OR (e.kind = 'tool' AND e.tool_kind IN ('command', 'requestUserInput')) OR e.kind IN ('warning', 'error'))"@
}

/// The pieces a list of display categories adds: the categories' conditions
/// joined by `OR` inside ` AND (` and `)`.
pub open spec fn categories_pieces(types: Seq<ConversationDisplayType>) -> Seq<(bool, Seq<char>)>
    decreases types.len(),
{
    if types.len() == 0 {
        Seq::empty()
    } else if types.len() == 1 {
        seq![(true, display_clause_spec(types[0]))]
    } else {
        categories_pieces(types.drop_last()) + seq![(true, " OR "@), (true, display_clause_spec(types.last()))]
    }
}

/// The pieces an entry visibility adds to a query.
pub open spec fn visibility_pieces(v: EntryVisibility) -> Seq<(bool, Seq<char>)> {
    match v {
        EntryVisibility::IncludeTechnical => Seq::empty(),
        EntryVisibility::Default => seq![(true, default_visibility_sql())],
        EntryVisibility::DisplayTypes(types) => seq![(true, " AND ("@)] + categories_pieces(types@) + seq![(true, ")"@)],
    }
}

/// Adds the condition of an entry visibility to a query.
pub fn push_entry_visibility(pieces: &mut Vec<SqlPiece>, visibility: &EntryVisibility)
    ensures
        pieces_view(final(pieces)@) == pieces_view(old(pieces)@) + visibility_pieces(*visibility),
{
    let ghost start = pieces_view(pieces@);
    match visibility {
        EntryVisibility::IncludeTechnical => {
            assert(pieces_view(pieces@) =~= start + Seq::<(bool, Seq<char>)>::empty());
        },
        EntryVisibility::Default => {
            pieces.push(SqlPiece::Text(" AND ((e.kind = 'message' AND e.presentation IN ('user', 'response')) OR e.kind = 'reasoning' OR (e.kind = 'tool' AND e.tool_kind IN ('command', 'requestUserInput')) OR e.kind IN ('warning', 'error'))"));
            assert(pieces_view(pieces@) =~= start + visibility_pieces(*visibility));
        },
        EntryVisibility::DisplayTypes(types) => {
            pieces.push(SqlPiece::Text(" AND ("));
            let mut i: usize = 0;
            while i < types.len()
                invariant
                    i <= types@.len(),
                    pieces_view(pieces@) == start + seq![(true, " AND ("@)] + categories_pieces(types@.take(i as int)),
                decreases types@.len() - i,
            {
                let ghost before = pieces_view(pieces@);
                if i > 0 {
                    pieces.push(SqlPiece::Text(" OR "));
                }
                pieces.push(SqlPiece::Text(display_clause(types[i])));
                proof {
                    assert(types@.take(i + 1).drop_last() =~= types@.take(i as int));
                    if i == 0 {
                        assert(categories_pieces(types@.take(1)) == seq![(true, display_clause_spec(types@[0]))]);
                        assert(pieces_view(pieces@) =~= before + seq![(true, display_clause_spec(types@[0]))]);
                    } else {
                        assert(pieces_view(pieces@) =~= before + seq![(true, " OR "@), (true, display_clause_spec(types@[i as int]))]);
                    }
                }
                i = i + 1;
            }
            let ghost before_close = pieces_view(pieces@);
            pieces.push(SqlPiece::Text(")"));
            assert(pieces_view(pieces@) =~= before_close + seq![(true, ")"@)]);
            assert(types@.take(types@.len() as int) =~= types@);
            assert(pieces_view(pieces@) =~= start + visibility_pieces(*visibility));
        },
    }
}

/// The bound source names of a listing filter, separated by commas.
pub open spec fn source_binds(sources: Seq<SourceKind>) -> Seq<(bool, Seq<char>)>
    decreases sources.len(),
{
    if sources.len() == 0 {
        Seq::empty()
    } else if sources.len() == 1 {
        seq![(false, sources[0].name_spec())]
    } else {
        source_binds(sources.drop_last()) + seq![(true, ","@), (false, sources.last().name_spec())]
    }
}

/// The pieces of the source and archive filters and the working directory.
pub open spec fn leading_filter_pieces(q: SessionsQueryView, archived: ArchiveFilter) -> Seq<(bool, Seq<char>)> {
    let sources = if q.source.len() > 0 {
        seq![(true, " AND s.source_kind IN ("@)] + source_binds(q.source) + seq![(true, ")"@)]
    } else {
        Seq::empty()
    };
    let archive = match archived {
        ArchiveFilter::Exclude => seq![(true, " AND s.archived=0"@)],
        ArchiveFilter::Only => seq![(true, " AND s.archived=1"@)],
        ArchiveFilter::Include => Seq::empty(),
    };
    let cwd = match q.cwd {
        Some(c) => seq![(true, " AND s.cwd="@), (false, c)],
        None => Seq::empty(),
    };
    sources + archive + cwd
}

/// The pieces of the parent filter: `root` asks for sessions without a parent.
pub open spec fn parent_filter_pieces(q: SessionsQueryView) -> Seq<(bool, Seq<char>)> {
    match q.parent {
        Some(p) => if p == "root"@ {
            seq![(true, " AND s.parent_thread_id IS NULL"@)]
        } else {
            seq![(true, " AND s.parent_thread_id="@), (false, p)]
        },
        None => Seq::empty(),
    }
}

/// Whether a listing's parent filter names an invalid session id.
pub open spec fn parent_filter_invalid(q: SessionsQueryView) -> bool {
    q.parent matches Some(p) && p != "root"@ && !valid_id_spec(p)
}

/// Adds a session listing's filters to a query; a parent that is no valid
/// id is refused after the other filters were added.
pub fn push_session_filters(pieces: &mut Vec<SqlPiece>, query: &SessionsQuery, archived: ArchiveFilter) -> (r: Result<(), ApiFailure>)
    ensures
        r is Err <==> parent_filter_invalid(query@),
        r matches Err(e) ==> e.is_invalid(),
        r is Ok ==> pieces_view(final(pieces)@) == pieces_view(old(pieces)@) + leading_filter_pieces(query@, archived)
            + parent_filter_pieces(query@),
        r is Err ==> pieces_view(final(pieces)@) == pieces_view(old(pieces)@) + leading_filter_pieces(query@, archived),
{
    let ghost start = pieces_view(pieces@);
    let q = query;
    if q.source.len() > 0 {
        pieces.push(SqlPiece::Text(" AND s.source_kind IN ("));
        let mut i: usize = 0;
        while i < q.source.len()
            invariant
                i <= q.source@.len(),
                pieces_view(pieces@) == start + seq![(true, " AND s.source_kind IN ("@)] + source_binds(q.source@.take(i as int)),
            decreases q.source@.len() - i,
        {
            let ghost before = pieces_view(pieces@);
            if i > 0 {
                pieces.push(SqlPiece::Text(","));
            }
            pieces.push(SqlPiece::Bind(q.source[i].as_str().to_string()));
            proof {
                assert(q.source@.take(i + 1).drop_last() =~= q.source@.take(i as int));
                if i == 0 {
                    assert(source_binds(q.source@.take(1)) == seq![(false, q.source@[0].name_spec())]);
                    assert(pieces_view(pieces@) =~= before + seq![(false, q.source@[0].name_spec())]);
                } else {
                    assert(pieces_view(pieces@) =~= before + seq![(true, ","@), (false, q.source@[i as int].name_spec())]);
                }
            }
            i = i + 1;
        }
        let ghost before_close = pieces_view(pieces@);
        pieces.push(SqlPiece::Text(")"));
        assert(pieces_view(pieces@) =~= before_close + seq![(true, ")"@)]);
        assert(q.source@.take(q.source@.len() as int) =~= q.source@);
    }
    let ghost sources_part: Seq<(bool, Seq<char>)> = if q.source@.len() > 0 {
        seq![(true, " AND s.source_kind IN ("@)] + source_binds(q.source@) + seq![(true, ")"@)]
    } else {
        Seq::empty()
    };
    assert(pieces_view(pieces@) =~= start + sources_part);
    let ghost after_sources = pieces_view(pieces@);
    let ghost archive_part: Seq<(bool, Seq<char>)> = match archived {
        ArchiveFilter::Exclude => seq![(true, " AND s.archived=0"@)],
        ArchiveFilter::Only => seq![(true, " AND s.archived=1"@)],
        ArchiveFilter::Include => Seq::empty(),
    };
    match archived {
        ArchiveFilter::Exclude => pieces.push(SqlPiece::Text(" AND s.archived=0")),
        ArchiveFilter::Only => pieces.push(SqlPiece::Text(" AND s.archived=1")),
        ArchiveFilter::Include => {},
    }
    assert(pieces_view(pieces@) =~= after_sources + archive_part);
    let ghost after_archive = pieces_view(pieces@);
    let ghost cwd_part: Seq<(bool, Seq<char>)> = match q.cwd@ {
        Some(c) => seq![(true, " AND s.cwd="@), (false, c@)],
        None => Seq::empty(),
    };
    if let Some(cwd) = &q.cwd {
        pieces.push(SqlPiece::Text(" AND s.cwd="));
        pieces.push(SqlPiece::Bind(cwd.clone()));
    }
    assert(pieces_view(pieces@) =~= after_archive + cwd_part);
    assert(leading_filter_pieces(query@, archived) == sources_part + archive_part + cwd_part);
    assert(pieces_view(pieces@) =~= start + leading_filter_pieces(query@, archived));
    let ghost lead = pieces_view(pieces@);
    if let Some(parent) = &q.parent {
        if str_eq(parent.as_str(), "root") {
            pieces.push(SqlPiece::Text(" AND s.parent_thread_id IS NULL"));
        } else {
            validate_id(parent.as_str())?;
            pieces.push(SqlPiece::Text(" AND s.parent_thread_id="));
            pieces.push(SqlPiece::Bind(parent.clone()));
        }
    }
    assert(pieces_view(pieces@) =~= lead + parent_filter_pieces(query@));
    Ok(())
}

/// The debug name of an archive filter.
pub open spec fn archive_name(a: ArchiveFilter) -> Seq<char> {
    match a {
        ArchiveFilter::Exclude => "Exclude"@,
        ArchiveFilter::Only => "Only"@,
        ArchiveFilter::Include => "Include"@,
    }
}

/// The names of the sources of kind `k`, in order.
pub open spec fn names_of_kind(sources: Seq<SourceKind>, k: SourceKind) -> Seq<Seq<char>>
    decreases sources.len(),
{
    if sources.len() == 0 {
        Seq::empty()
    } else if sources.last() == k {
        names_of_kind(sources.drop_last(), k).push(k.name_spec())
    } else {
        names_of_kind(sources.drop_last(), k)
    }
}

/// The kinds in the byte order of their names.
pub open spec fn kinds_by_name() -> Seq<SourceKind> {
    seq![SourceKind::AppServer, SourceKind::Cli, SourceKind::Exec, SourceKind::Review, SourceKind::Subagent,
        SourceKind::Unknown, SourceKind::Vscode]
}

/// The names of the sources whose kinds are the first `n` in name order.
pub open spec fn names_upto(sources: Seq<SourceKind>, n: int) -> Seq<Seq<char>>
    decreases n,
{
    if n <= 0 {
        Seq::empty()
    } else {
        names_upto(sources, n - 1) + names_of_kind(sources, kinds_by_name()[n - 1])
    }
}

/// The source names of a filter sorted by name.
pub open spec fn sorted_source_names(sources: Seq<SourceKind>) -> Seq<Seq<char>> {
    names_of_kind(sources, SourceKind::AppServer) + names_of_kind(sources, SourceKind::Cli)
        + names_of_kind(sources, SourceKind::Exec) + names_of_kind(sources, SourceKind::Review)
        + names_of_kind(sources, SourceKind::Subagent) + names_of_kind(sources, SourceKind::Unknown)
        + names_of_kind(sources, SourceKind::Vscode)
}

/// Names joined by commas.
pub open spec fn comma_join(names: Seq<Seq<char>>) -> Seq<char>
    decreases names.len(),
{
    if names.len() == 0 {
        Seq::empty()
    } else if names.len() == 1 {
        names[0]
    } else {
        comma_join(names.drop_last()) + ","@ + names.last()
    }
}

/// The canonical text of a listing's filters, which cursors are tied to.
pub open spec fn canonical_filters_spec(q: SessionsQueryView, archived: ArchiveFilter) -> Seq<char> {
    "source="@ + comma_join(sorted_source_names(q.source)) + ";archived="@ + archive_name(archived) + ";cwd="@
        + (match q.cwd { Some(c) => c, None => Seq::empty() }) + ";parent="@
        + (match q.parent { Some(p) => p, None => Seq::empty() })
}

/// The canonical text of a listing's filters: sources sorted by name, the
/// archive filter, the working directory and the parent.
pub fn canonical_session_filters(query: &SessionsQuery, archived: ArchiveFilter) -> (r: String)
    ensures
        r@ == canonical_filters_spec(query@, archived),
{
    let order: [SourceKind; 7] = [SourceKind::AppServer, SourceKind::Cli, SourceKind::Exec, SourceKind::Review,
        SourceKind::Subagent, SourceKind::Unknown, SourceKind::Vscode];
    let ghost names = sorted_source_names(query.source@);
    let mut joined = String::new();
    let mut any: bool = false;
    let ghost mut emitted: Seq<Seq<char>> = Seq::empty();
    let mut o: usize = 0;
    while o < 7
        invariant
            o <= 7,
            order@ == kinds_by_name(),
            joined@ == comma_join(emitted),
            any == (emitted.len() > 0),
            emitted == names_upto(query.source@, o as int),
        decreases 7 - o,
    {
        let kind = order[o];
        let ghost base = emitted;
        let mut i: usize = 0;
        while i < query.source.len()
            invariant
                i <= query.source@.len(),
                joined@ == comma_join(emitted),
                any == (emitted.len() > 0),
                emitted == base + names_of_kind(query.source@.take(i as int), kind),
            decreases query.source@.len() - i,
        {
            proof {
                assert(query.source@.take(i + 1).drop_last() =~= query.source@.take(i as int));
            }
            if query.source[i] == kind {
                if any {
                    string_push_str(&mut joined, ",");
                }
                string_push_str(&mut joined, kind.as_str());
                proof {
                    let old_emitted = emitted;
                    emitted = emitted.push(kind.name_spec());
                    assert(emitted.drop_last() =~= old_emitted);
                    if old_emitted.len() == 0 {
                        assert(comma_join(emitted) == emitted[0]);
                    }
                }
                any = true;
            }
            i = i + 1;
        }
        assert(query.source@.take(query.source@.len() as int) =~= query.source@);
        o = o + 1;
    }
    assert(names_upto(query.source@, 7) =~= names) by {
        reveal_with_fuel(names_upto, 8);
    }
    let mut out = String::new();
    string_push_str(&mut out, "source=");
    string_push_str(&mut out, joined.as_str());
    string_push_str(&mut out, ";archived=");
    string_push_str(&mut out, match archived {
        ArchiveFilter::Exclude => "Exclude",
        ArchiveFilter::Only => "Only",
        ArchiveFilter::Include => "Include",
    });
    string_push_str(&mut out, ";cwd=");
    match &query.cwd {
        Some(c) => string_push_str(&mut out, c.as_str()),
        None => {},
    }
    string_push_str(&mut out, ";parent=");
    match &query.parent {
        Some(p) => string_push_str(&mut out, p.as_str()),
        None => {},
    }
    proof {
        reveal_strlit("");
    }
    assert(out@ =~= canonical_filters_spec(query@, archived));
    out
}

} // verus!
