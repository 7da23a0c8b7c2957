//! Visibility filters of the transcript entries endpoint.

use vstd::prelude::*;

use crate::failure::ApiFailure;
use crate::text::{split_spec, str_eq, str_split_char, string_push_str};

verus! {

/// A conversation category the entries endpoint can be limited to.
#[derive(Clone, Copy, Debug, PartialEq, Eq, Structural)]
pub enum ConversationDisplayType {
    Received,
    Sent,
    RequestUserInput,
    Reasoning,
    Exec,
    Plan,
    Patch,
    Mcp,
    WebSearch,
    Function,
    Dynamic,
    Terminal,
    ViewImage,
    OtherTool,
    Warning,
    Error,
    Context,
    Marker,
    TechnicalMessage,
    InternalMessage,
    Unknown,
}

impl ConversationDisplayType {
    /// Position of this type in the canonical order.
    pub open spec fn rank_spec(self) -> int {
        match self {
            ConversationDisplayType::Received => 0,
            ConversationDisplayType::Sent => 1,
            ConversationDisplayType::RequestUserInput => 2,
            ConversationDisplayType::Reasoning => 3,
            ConversationDisplayType::Exec => 4,
            ConversationDisplayType::Plan => 5,
            ConversationDisplayType::Patch => 6,
            ConversationDisplayType::Mcp => 7,
            ConversationDisplayType::WebSearch => 8,
            ConversationDisplayType::Function => 9,
            ConversationDisplayType::Dynamic => 10,
            ConversationDisplayType::Terminal => 11,
            ConversationDisplayType::ViewImage => 12,
            ConversationDisplayType::OtherTool => 13,
            ConversationDisplayType::Warning => 14,
            ConversationDisplayType::Error => 15,
            ConversationDisplayType::Context => 16,
            ConversationDisplayType::Marker => 17,
            ConversationDisplayType::TechnicalMessage => 18,
            ConversationDisplayType::InternalMessage => 19,
            ConversationDisplayType::Unknown => 20,
        }
    }

    /// Position of this type in the canonical order.
    pub fn rank(self) -> (r: u8)
        ensures
            r == self.rank_spec(),
    {
        match self {
            ConversationDisplayType::Received => 0,
            ConversationDisplayType::Sent => 1,
            ConversationDisplayType::RequestUserInput => 2,
            ConversationDisplayType::Reasoning => 3,
            ConversationDisplayType::Exec => 4,
            ConversationDisplayType::Plan => 5,
            ConversationDisplayType::Patch => 6,
            ConversationDisplayType::Mcp => 7,
            ConversationDisplayType::WebSearch => 8,
            ConversationDisplayType::Function => 9,
            ConversationDisplayType::Dynamic => 10,
            ConversationDisplayType::Terminal => 11,
            ConversationDisplayType::ViewImage => 12,
            ConversationDisplayType::OtherTool => 13,
            ConversationDisplayType::Warning => 14,
            ConversationDisplayType::Error => 15,
            ConversationDisplayType::Context => 16,
            ConversationDisplayType::Marker => 17,
            ConversationDisplayType::TechnicalMessage => 18,
            ConversationDisplayType::InternalMessage => 19,
            ConversationDisplayType::Unknown => 20,
        }
    }

    /// The wire name of this value.
    pub open spec fn name_spec(self) -> Seq<char> {
        match self {
            ConversationDisplayType::Received => "received"@,
            ConversationDisplayType::Sent => "sent"@,
            ConversationDisplayType::RequestUserInput => "requestUserInput"@,
            ConversationDisplayType::Reasoning => "reasoning"@,
            ConversationDisplayType::Exec => "exec"@,
            ConversationDisplayType::Plan => "plan"@,
            ConversationDisplayType::Patch => "patch"@,
            ConversationDisplayType::Mcp => "mcp"@,
            ConversationDisplayType::WebSearch => "webSearch"@,
            ConversationDisplayType::Function => "function"@,
            ConversationDisplayType::Dynamic => "dynamic"@,
            ConversationDisplayType::Terminal => "terminal"@,
            ConversationDisplayType::ViewImage => "viewImage"@,
            ConversationDisplayType::OtherTool => "otherTool"@,
            ConversationDisplayType::Warning => "warning"@,
            ConversationDisplayType::Error => "error"@,
            ConversationDisplayType::Context => "context"@,
            ConversationDisplayType::Marker => "marker"@,
            ConversationDisplayType::TechnicalMessage => "technicalMessage"@,
            ConversationDisplayType::InternalMessage => "internalMessage"@,
            ConversationDisplayType::Unknown => "unknown"@,
        }
    }

    /// The wire name of this value.
    pub fn as_str(self) -> (r: &'static str)
        ensures
            r@ == self.name_spec(),
    {
        match self {
            ConversationDisplayType::Received => "received",
            ConversationDisplayType::Sent => "sent",
            ConversationDisplayType::RequestUserInput => "requestUserInput",
            ConversationDisplayType::Reasoning => "reasoning",
            ConversationDisplayType::Exec => "exec",
            ConversationDisplayType::Plan => "plan",
            ConversationDisplayType::Patch => "patch",
            ConversationDisplayType::Mcp => "mcp",
            ConversationDisplayType::WebSearch => "webSearch",
            ConversationDisplayType::Function => "function",
            ConversationDisplayType::Dynamic => "dynamic",
            ConversationDisplayType::Terminal => "terminal",
            ConversationDisplayType::ViewImage => "viewImage",
            ConversationDisplayType::OtherTool => "otherTool",
            ConversationDisplayType::Warning => "warning",
            ConversationDisplayType::Error => "error",
            ConversationDisplayType::Context => "context",
            ConversationDisplayType::Marker => "marker",
            ConversationDisplayType::TechnicalMessage => "technicalMessage",
            ConversationDisplayType::InternalMessage => "internalMessage",
            ConversationDisplayType::Unknown => "unknown",
        }
    }

    /// The value whose wire name is `value`, if any.
    pub open spec fn from_name_spec(value: Seq<char>) -> Option<Self> {
        if value == "received"@ {
            Some(ConversationDisplayType::Received)
        } else if value == "sent"@ {
            Some(ConversationDisplayType::Sent)
        } else if value == "requestUserInput"@ {
            Some(ConversationDisplayType::RequestUserInput)
        } else if value == "reasoning"@ {
            Some(ConversationDisplayType::Reasoning)
        } else if value == "exec"@ {
            Some(ConversationDisplayType::Exec)
        } else if value == "plan"@ {
            Some(ConversationDisplayType::Plan)
        } else if value == "patch"@ {
            Some(ConversationDisplayType::Patch)
        } else if value == "mcp"@ {
            Some(ConversationDisplayType::Mcp)
        } else if value == "webSearch"@ {
            Some(ConversationDisplayType::WebSearch)
        } else if value == "function"@ {
            Some(ConversationDisplayType::Function)
        } else if value == "dynamic"@ {
            Some(ConversationDisplayType::Dynamic)
        } else if value == "terminal"@ {
            Some(ConversationDisplayType::Terminal)
        } else if value == "viewImage"@ {
            Some(ConversationDisplayType::ViewImage)
        } else if value == "otherTool"@ {
            Some(ConversationDisplayType::OtherTool)
        } else if value == "warning"@ {
            Some(ConversationDisplayType::Warning)
        } else if value == "error"@ {
            Some(ConversationDisplayType::Error)
        } else if value == "context"@ {
            Some(ConversationDisplayType::Context)
        } else if value == "marker"@ {
            Some(ConversationDisplayType::Marker)
        } else if value == "technicalMessage"@ {
            Some(ConversationDisplayType::TechnicalMessage)
        } else if value == "internalMessage"@ {
            Some(ConversationDisplayType::InternalMessage)
        } else if value == "unknown"@ {
            Some(ConversationDisplayType::Unknown)
        } else {
            None
        }
    }

    /// The value whose wire name is `value`, if any.
    pub fn parse(value: &str) -> (r: Option<Self>)
        ensures
            r == Self::from_name_spec(value@),
            r matches Some(k) ==> k.name_spec() == value@,
            r is None ==> forall|k: Self| k.name_spec() != value@,
    {
        if str_eq(value, "received") {
            return Some(ConversationDisplayType::Received);
        }
        if str_eq(value, "sent") {
            return Some(ConversationDisplayType::Sent);
        }
        if str_eq(value, "requestUserInput") {
            return Some(ConversationDisplayType::RequestUserInput);
        }
        if str_eq(value, "reasoning") {
            return Some(ConversationDisplayType::Reasoning);
        }
        if str_eq(value, "exec") {
            return Some(ConversationDisplayType::Exec);
        }
        if str_eq(value, "plan") {
            return Some(ConversationDisplayType::Plan);
        }
        if str_eq(value, "patch") {
            return Some(ConversationDisplayType::Patch);
        }
        if str_eq(value, "mcp") {
            return Some(ConversationDisplayType::Mcp);
        }
        if str_eq(value, "webSearch") {
            return Some(ConversationDisplayType::WebSearch);
        }
        if str_eq(value, "function") {
            return Some(ConversationDisplayType::Function);
        }
        if str_eq(value, "dynamic") {
            return Some(ConversationDisplayType::Dynamic);
        }
        if str_eq(value, "terminal") {
            return Some(ConversationDisplayType::Terminal);
        }
        if str_eq(value, "viewImage") {
            return Some(ConversationDisplayType::ViewImage);
        }
        if str_eq(value, "otherTool") {
            return Some(ConversationDisplayType::OtherTool);
        }
        if str_eq(value, "warning") {
            return Some(ConversationDisplayType::Warning);
        }
        if str_eq(value, "error") {
            return Some(ConversationDisplayType::Error);
        }
        if str_eq(value, "context") {
            return Some(ConversationDisplayType::Context);
        }
        if str_eq(value, "marker") {
            return Some(ConversationDisplayType::Marker);
        }
        if str_eq(value, "technicalMessage") {
            return Some(ConversationDisplayType::TechnicalMessage);
        }
        if str_eq(value, "internalMessage") {
            return Some(ConversationDisplayType::InternalMessage);
        }
        if str_eq(value, "unknown") {
            return Some(ConversationDisplayType::Unknown);
        }
        proof {
            assert forall|k: Self| k.name_spec() != value@ by {
                match k {
                    ConversationDisplayType::Received => {},
                    ConversationDisplayType::Sent => {},
                    ConversationDisplayType::RequestUserInput => {},
                    ConversationDisplayType::Reasoning => {},
                    ConversationDisplayType::Exec => {},
                    ConversationDisplayType::Plan => {},
                    ConversationDisplayType::Patch => {},
                    ConversationDisplayType::Mcp => {},
                    ConversationDisplayType::WebSearch => {},
                    ConversationDisplayType::Function => {},
                    ConversationDisplayType::Dynamic => {},
                    ConversationDisplayType::Terminal => {},
                    ConversationDisplayType::ViewImage => {},
                    ConversationDisplayType::OtherTool => {},
                    ConversationDisplayType::Warning => {},
                    ConversationDisplayType::Error => {},
                    ConversationDisplayType::Context => {},
                    ConversationDisplayType::Marker => {},
                    ConversationDisplayType::TechnicalMessage => {},
                    ConversationDisplayType::InternalMessage => {},
                    ConversationDisplayType::Unknown => {},
                }
            }
        }
        None
    }
}

/// Each display type's wire name reads back as that type, and a name reads
/// as a type only when it is that type's wire name.
pub proof fn lemma_display_type_names(t: ConversationDisplayType, value: Seq<char>)
    ensures
        ConversationDisplayType::from_name_spec(t.name_spec()) == Some(t),
        ConversationDisplayType::from_name_spec(value) == Some(t) ==> value == t.name_spec(),
{
    reveal_strlit("received");
    assert("received"@.len() == 8 && "received"@[0] == 'r');
    reveal_strlit("sent");
    assert("sent"@.len() == 4 && "sent"@[0] == 's');
    reveal_strlit("requestUserInput");
    assert("requestUserInput"@.len() == 16 && "requestUserInput"@[0] == 'r');
    reveal_strlit("reasoning");
    assert("reasoning"@.len() == 9 && "reasoning"@[0] == 'r');
    reveal_strlit("exec");
    assert("exec"@.len() == 4 && "exec"@[0] == 'e');
    reveal_strlit("plan");
    assert("plan"@.len() == 4 && "plan"@[0] == 'p');
    reveal_strlit("patch");
    assert("patch"@.len() == 5 && "patch"@[0] == 'p');
    reveal_strlit("mcp");
    assert("mcp"@.len() == 3 && "mcp"@[0] == 'm');
    reveal_strlit("webSearch");
    assert("webSearch"@.len() == 9 && "webSearch"@[0] == 'w');
    reveal_strlit("function");
    assert("function"@.len() == 8 && "function"@[0] == 'f');
    reveal_strlit("dynamic");
    assert("dynamic"@.len() == 7 && "dynamic"@[0] == 'd');
    reveal_strlit("terminal");
    assert("terminal"@.len() == 8 && "terminal"@[0] == 't');
    reveal_strlit("viewImage");
    assert("viewImage"@.len() == 9 && "viewImage"@[0] == 'v');
    reveal_strlit("otherTool");
    assert("otherTool"@.len() == 9 && "otherTool"@[0] == 'o');
    reveal_strlit("warning");
    assert("warning"@.len() == 7 && "warning"@[0] == 'w');
    reveal_strlit("error");
    assert("error"@.len() == 5 && "error"@[0] == 'e');
    reveal_strlit("context");
    assert("context"@.len() == 7 && "context"@[0] == 'c');
    reveal_strlit("marker");
    assert("marker"@.len() == 6 && "marker"@[0] == 'm');
    reveal_strlit("technicalMessage");
    assert("technicalMessage"@.len() == 16 && "technicalMessage"@[0] == 't');
    reveal_strlit("internalMessage");
    assert("internalMessage"@.len() == 15 && "internalMessage"@[0] == 'i');
    reveal_strlit("unknown");
    assert("unknown"@.len() == 7 && "unknown"@[0] == 'u');
    match t {
        ConversationDisplayType::Received => {},
        ConversationDisplayType::Sent => {},
        ConversationDisplayType::RequestUserInput => {},
        ConversationDisplayType::Reasoning => {},
        ConversationDisplayType::Exec => {},
        ConversationDisplayType::Plan => {},
        ConversationDisplayType::Patch => {},
        ConversationDisplayType::Mcp => {},
        ConversationDisplayType::WebSearch => {},
        ConversationDisplayType::Function => {},
        ConversationDisplayType::Dynamic => {},
        ConversationDisplayType::Terminal => {},
        ConversationDisplayType::ViewImage => {},
        ConversationDisplayType::OtherTool => {},
        ConversationDisplayType::Warning => {},
        ConversationDisplayType::Error => {},
        ConversationDisplayType::Context => {},
        ConversationDisplayType::Marker => {},
        ConversationDisplayType::TechnicalMessage => {},
        ConversationDisplayType::InternalMessage => {},
        ConversationDisplayType::Unknown => {},
    }
}

/// Whether distinct types have distinct ranks.
pub proof fn lemma_rank_injective(a: ConversationDisplayType, b: ConversationDisplayType)
    ensures
        a.rank_spec() == b.rank_spec() ==> a == b,
{
}

/// Whether the ranks strictly increase along `s` (sorted, no repeats).
pub open spec fn strictly_ranked(s: Seq<ConversationDisplayType>) -> bool {
    forall|i: int, j: int| 0 <= i < j < s.len() ==> s[i].rank_spec() < s[j].rank_spec()
}

/// Which transcript entries a page shows.
pub enum EntryVisibility {
    /// User messages, responses, reasoning, commands, user-input requests,
    /// warnings and errors.
    Default,
    /// Every entry.
    IncludeTechnical,
    /// Only the listed categories, in canonical order without repeats.
    DisplayTypes(Vec<ConversationDisplayType>),
}

/// The visibility parameters of an entries request.
pub struct EntriesQuery {
    pub limit: Option<usize>,
    pub cursor: Option<String>,
    pub direction: Option<String>,
    pub around_entry_id: Option<String>,
    pub include_technical: Option<bool>,
    pub display_types: Option<String>,
}

/// The set of types named by comma-separated pieces, if every piece names one.
pub open spec fn parsed_types(pieces: Seq<Seq<char>>) -> Option<Set<ConversationDisplayType>>
    decreases pieces.len(),
{
    if pieces.len() == 0 {
        Some(Set::empty())
    } else {
        match (parsed_types(pieces.drop_last()), ConversationDisplayType::from_name_spec(pieces.last())) {
            (Some(set), Some(t)) => Some(set.insert(t)),
            _ => None,
        }
    }
}

/// Names of the listed types joined by commas.
pub open spec fn join_type_names(ts: Seq<ConversationDisplayType>) -> Seq<char>
    decreases ts.len(),
{
    if ts.len() == 0 {
        Seq::empty()
    } else if ts.len() == 1 {
        ts[0].name_spec()
    } else {
        join_type_names(ts.drop_last()) + ","@ + ts.last().name_spec()
    }
}

impl EntryVisibility {
    /// Well-formed display-type lists are in canonical order without repeats.
    pub open spec fn wf(&self) -> bool {
        match self {
            EntryVisibility::DisplayTypes(ts) => strictly_ranked(ts@),
            _ => true,
        }
    }

    /// The canonical filter text that cursors of this visibility are bound to.
    pub open spec fn cursor_filters_spec(&self, session_id: Seq<char>) -> Seq<char> {
        match self {
            EntryVisibility::Default => "session="@ + session_id + ";include_technical=false"@,
            EntryVisibility::IncludeTechnical => "session="@ + session_id
                + ";include_technical=true"@,
            EntryVisibility::DisplayTypes(ts) => "session="@ + session_id + ";display_types="@
                + join_type_names(ts@),
        }
    }

    /// The canonical filter text that cursors of this visibility are bound to.
    pub fn cursor_filters(&self, session_id: &str) -> (r: String)
        ensures
            r@ == self.cursor_filters_spec(session_id@),
    {
        let mut out = "session=".to_owned();
        string_push_str(&mut out, session_id);
        match self {
            EntryVisibility::Default => {
                string_push_str(&mut out, ";include_technical=false");
            },
            EntryVisibility::IncludeTechnical => {
                string_push_str(&mut out, ";include_technical=true");
            },
            EntryVisibility::DisplayTypes(types) => {
                string_push_str(&mut out, ";display_types=");
                let ghost head = out@;
                let mut i: usize = 0;
                while i < types.len()
                    invariant
                        i <= types@.len(),
                        out@ == head + join_type_names(types@.take(i as int)),
                    decreases types@.len() - i,
                {
                    proof {
                        assert(types@.take(i + 1).drop_last() =~= types@.take(i as int));
                    }
                    if i > 0 {
                        string_push_str(&mut out, ",");
                    }
                    string_push_str(&mut out, types[i].as_str());
                    proof {
                        if i == 0 {
                            assert(types@.take(1)[0] == types@[0]);
                        }
                    }
                    i = i + 1;
                }
                assert(types@.take(types@.len() as int) =~= types@);
                assert(out@ =~= head + join_type_names(types@));
            },
        }
        out
    }
}

/// Adds `t` to a ranked list unless present, keeping the order.
fn insert_ranked(list: &mut Vec<ConversationDisplayType>, t: ConversationDisplayType)
    requires
        strictly_ranked(old(list)@),
    ensures
        strictly_ranked(final(list)@),
        forall|x: ConversationDisplayType| #[trigger] final(list)@.contains(x) <==> (old(list)@.contains(x) || x == t),
{
    let ghost before = list@;
    let mut p: usize = 0;
    while p < list.len() && list[p].rank() < t.rank()
        invariant
            p <= list@.len(),
            list@ == before,
            forall|k: int| 0 <= k < p ==> (#[trigger] list@[k]).rank_spec() < t.rank_spec(),
        decreases list@.len() - p,
    {
        p = p + 1;
    }
    if p < list.len() && list[p].rank() == t.rank() {
        proof {
            lemma_rank_injective(list@[p as int], t);
            assert(list@[p as int] == t);
        }
        return;
    }
    list.insert(p, t);
    proof {
        assert forall|i: int, j: int| 0 <= i < j < list@.len() implies list@[i].rank_spec() < list@[j].rank_spec() by {
            if j < p {
            } else if i > p {
                assert(list@[i] == before[i - 1]);
                assert(list@[j] == before[j - 1]);
            } else if i == p {
                assert(before[j - 1].rank_spec() >= before[p as int].rank_spec());
            } else {
                if j == p {
                } else {
                    assert(list@[j] == before[j - 1]);
                }
            }
        }
        assert forall|x: ConversationDisplayType| #[trigger] list@.contains(x) <==> (before.contains(x) || x == t) by {
            if list@.contains(x) {
                let k = choose|k: int| 0 <= k < list@.len() && list@[k] == x;
                if k < p {
                    assert(before[k] == x);
                } else if k > p {
                    assert(before[k - 1] == x);
                }
            }
            if before.contains(x) {
                let k = choose|k: int| 0 <= k < before.len() && before[k] == x;
                if k < p {
                    assert(list@[k] == x);
                } else {
                    assert(list@[k + 1] == x);
                }
            }
            if x == t {
                assert(list@[p as int] == t);
            }
        }
    }
}

/// Chooses which entries to show from `displayTypes` and `includeTechnical`;
/// the two are mutually exclusive and every listed type must be known.
pub fn entry_visibility(query: &EntriesQuery) -> (r: Result<EntryVisibility, ApiFailure>)
    ensures
        r matches Err(e) ==> e.is_invalid(),
        r matches Ok(v) ==> v.wf(),
        match query.display_types {
            Some(value) => if query.include_technical is Some {
                r matches Err(e) && e.message@ == "displayTypes and includeTechnical are mutually exclusive"@
            } else if value@.len() == 0 {
                r matches Err(e) && e.message@ == "displayTypes must not be empty"@
            } else {
                match parsed_types(split_spec(value@, ',')) {
                    None => r matches Err(e) && first_unknown(split_spec(value@, ',')) is Some
                        && e.message@ == "unknown display type: "@ + first_unknown(split_spec(value@, ','))->0,
                    Some(set) => r matches Ok(EntryVisibility::DisplayTypes(ts)) && (forall|t: ConversationDisplayType| #[trigger] ts@.contains(t) <==> set.contains(t)),
                }
            },
            None => r matches Ok(v) && (if query.include_technical == Some(true) {
                v is IncludeTechnical
            } else {
                v is Default
            }),
        },
{
    if query.display_types.is_some() && query.include_technical.is_some() {
        return Err(ApiFailure::invalid_str("displayTypes and includeTechnical are mutually exclusive"));
    }
    if let Some(value) = &query.display_types {
        if value.as_str().is_empty() {
            return Err(ApiFailure::invalid_str("displayTypes must not be empty"));
        }
        let pieces = str_split_char(value.as_str(), ',');
        let ghost pv = pieces@.map_values(|p: &str| p@);
        let mut types: Vec<ConversationDisplayType> = Vec::new();
        let mut i: usize = 0;
        while i < pieces.len()
            invariant
                i <= pieces@.len(),
                pv == pieces@.map_values(|p: &str| p@),
                pv == split_spec(value@, ','),
                query.display_types == Some(*value),
                strictly_ranked(types@),
                parsed_types(pv.take(i as int)) matches Some(set) && (forall|t: ConversationDisplayType| #[trigger] types@.contains(t) <==> set.contains(t)),
                first_unknown(pv.take(i as int)) is None,
                query.include_technical is None,
                value@.len() != 0,
            decreases pieces@.len() - i,
        {
            proof {
                assert(pv.take(i + 1).drop_last() =~= pv.take(i as int));
                assert(pv.take(i + 1).last() == pieces@[i as int]@);
            }
            match ConversationDisplayType::parse(pieces[i]) {
                Some(t) => {
                    insert_ranked(&mut types, t);
                },
                None => {
                    proof {
                        assert(parsed_types(pv.take(i + 1)) is None);
                        lemma_parsed_types_stays_failed(pv, i + 1);
                        assert(first_unknown(pv.take(i + 1)) == Some(pieces@[i as int]@));
                        lemma_first_unknown_stays(pv, i + 1);
                    }
                    let mut message = String::new();
                    string_push_str(&mut message, "unknown display type: ");
                    string_push_str(&mut message, pieces[i]);
                    assert(message@ =~= "unknown display type: "@ + pieces@[i as int]@);
                    return Err(ApiFailure::invalid(message));
                },
            }
            i = i + 1;
        }
        assert(pv.take(pieces@.len() as int) =~= pv);
        return Ok(EntryVisibility::DisplayTypes(types));
    }
    if query.include_technical == Some(true) {
        Ok(EntryVisibility::IncludeTechnical)
    } else {
        Ok(EntryVisibility::Default)
    }
}

proof fn lemma_parsed_types_stays_failed(pieces: Seq<Seq<char>>, j: int)
    requires
        0 <= j <= pieces.len(),
        parsed_types(pieces.take(j)) is None,
    ensures
        parsed_types(pieces) is None,
    decreases pieces.len() - j,
{
    if j < pieces.len() {
        assert(pieces.take(j + 1).drop_last() =~= pieces.take(j));
        lemma_parsed_types_stays_failed(pieces, j + 1);
    } else {
        assert(pieces.take(j) =~= pieces);
    }
}


/// The first of the pieces that names no display type, if any.
pub open spec fn first_unknown(pieces: Seq<Seq<char>>) -> Option<Seq<char>>
    decreases pieces.len(),
{
    if pieces.len() == 0 {
        None
    } else {
        match first_unknown(pieces.drop_last()) {
            Some(x) => Some(x),
            None => if ConversationDisplayType::from_name_spec(pieces.last()) is None { Some(pieces.last()) } else { None },
        }
    }
}

proof fn lemma_first_unknown_stays(pieces: Seq<Seq<char>>, j: int)
    requires
        0 <= j <= pieces.len(),
        first_unknown(pieces.take(j)) is Some,
    ensures
        first_unknown(pieces) == first_unknown(pieces.take(j)),
    decreases pieces.len() - j,
{
    if j < pieces.len() {
        assert(pieces.take(j + 1).drop_last() =~= pieces.take(j));
        lemma_first_unknown_stays(pieces, j + 1);
    } else {
        assert(pieces.take(j) =~= pieces);
    }
}

} // verus!
