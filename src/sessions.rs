use vstd::prelude::*;
use vstd::string::StringExecFns;
use vstd::seq_lib::{to_multiset_insert, group_to_multiset_ensures};
use unicode_segmentation::UnicodeSegmentation;
use crate::text::{decimal, push_decimal};
use crate::item::Item;
use crate::seed::{is_seed, is_seed_message};
use crate::textorder::{
    lex_lt, text_lt, lemma_lex_asymmetric, lemma_lex_transitive, lemma_lex_total,
};

verus! {

/// Most rows the session list shows at once.
pub const MAX_POPUP_ROWS: usize = 8;

/// Summary of one saved session, as the session list shows it.
pub struct SessionMeta {
    pub path: String,
    pub timestamp: String,
    pub user_messages: usize,
    pub tool_calls: usize,
    pub first_message: String,
    pub provider_token: Option<String>,
    pub recorded_project_root: Option<String>,
}

/// The extended grapheme clusters of a text, in order.
pub uninterp spec fn graphemes_of(s: Seq<char>) -> Seq<Seq<char>>;

/// Relies on unicode_segmentation's `graphemes(true)`: the extended grapheme
/// clusters of `s`, in order.
#[verifier::external_body]
fn grapheme_clusters(s: &str) -> (r: Vec<String>)
    ensures
        r@.map_values(|g: String| g@) == graphemes_of(s@),
{
    s.graphemes(true).map(String::from).collect()
}

/// The extension of the last component of a path, if it has one.
pub uninterp spec fn extension_of(p: Seq<char>) -> Option<Seq<char>>;

/// Relies on std's `Path::extension`: the extension of the path's final
/// component, if there is one.
#[verifier::external_body]
fn path_extension(p: &str) -> (r: Option<String>)
    ensures
        (r is Some) == (extension_of(p@) is Some),
        r is Some ==> r->Some_0@ == extension_of(p@)->Some_0,
{
    std::path::Path::new(p).extension().and_then(|e| e.to_str()).map(String::from)
}

/// The clusters joined back into one text.
pub open spec fn concat(gs: Seq<Seq<char>>) -> Seq<char>
    decreases gs.len(),
{
    if gs.len() == 0 {
        Seq::empty()
    } else {
        concat(gs.drop_last()) + gs.last()
    }
}

/// The first `max` grapheme clusters of `s`, with an ellipsis when some were
/// left out.
pub open spec fn truncated(s: Seq<char>, max: nat) -> Seq<char> {
    let gs = graphemes_of(s);
    if gs.len() > max {
        concat(gs.take(max as int)) + "\u{2026}"@
    } else {
        concat(gs)
    }
}

/// Keeps at most `max` grapheme clusters of `s`, appending an ellipsis when
/// it had more.
pub fn truncate_graphemes(s: &str, max: usize) -> (r: String)
    ensures
        r@ == truncated(s@, max as nat),
{
    let gs = grapheme_clusters(s);
    let ghost g = graphemes_of(s@);
    let n = if gs.len() < max {
        gs.len()
    } else {
        max
    };
    let mut out = String::new();
    let mut i: usize = 0;
    while i < n
        invariant
            n <= gs@.len(),
            i <= n,
            gs@.map_values(|g: String| g@) == g,
            out@ == concat(g.take(i as int)),
        decreases n - i,
    {
        assert(g.take(i + 1).drop_last() =~= g.take(i as int));
        assert(g[i as int] == gs@[i as int]@);
        out.append(gs[i].as_str());
        i = i + 1;
    }
    if gs.len() > max {
        out.append("\u{2026}");
    } else {
        assert(g.take(n as int) =~= g);
    }
    out
}

/// Whether a path names a `.jsonl` file.
pub fn is_jsonl(path: &str) -> (r: bool)
    ensures
        r == (extension_of(path@) == Some("jsonl"@)),
{
    match path_extension(path) {
        Some(ext) => {
            let want = String::from_str("jsonl");
            ext == want
        },
        None => false,
    }
}

pub open spec fn header_showing_text(start: nat, end: nat, total: nat) -> Seq<char> {
    "Showing "@ + decimal(start) + "\u{2013}"@ + decimal(end) + " of "@ + decimal(total) + " lines"@
}

/// Header of the session viewer: the range of lines shown and their total.
pub fn format_header_showing(start: usize, end: usize, total: usize) -> (r: String)
    ensures
        r@ == header_showing_text(start as nat, end as nat, total as nat),
{
    let mut s = String::from_str("Showing ");
    push_decimal(&mut s, start);
    s.append("\u{2013}");
    push_decimal(&mut s, end);
    s.append(" of ");
    push_decimal(&mut s, total);
    s.append(" lines");
    s
}

/// No session is listed before a newer one.
pub open spec fn newest_first(s: Seq<SessionMeta>) -> bool {
    forall|i: int, j: int|
        0 <= i < j < s.len() ==> !lex_lt(#[trigger] s[i].timestamp@, #[trigger] s[j].timestamp@)
}

proof fn lemma_insert_keeps_order(out: Seq<SessionMeta>, pos: int, x: SessionMeta)
    requires
        newest_first(out),
        0 <= pos <= out.len(),
        forall|k: int| 0 <= k < pos ==> lex_lt(x.timestamp@, #[trigger] out[k].timestamp@),
        pos < out.len() ==> !lex_lt(x.timestamp@, out[pos].timestamp@),
    ensures
        newest_first(out.insert(pos, x)),
{
    let s = out.insert(pos, x);
    assert forall|i: int, j: int| 0 <= i < j < s.len() implies !lex_lt(
        #[trigger] s[i].timestamp@,
        #[trigger] s[j].timestamp@,
    ) by {
        if i < pos && j == pos {
            lemma_lex_asymmetric(x.timestamp@, out[i].timestamp@);
        } else if i == pos {
            let a = out[pos].timestamp@;
            let b = out[j - 1].timestamp@;
            lemma_lex_total(x.timestamp@, a);
            lemma_lex_transitive(a, x.timestamp@, b);
            if j - 1 > pos {
                assert(!lex_lt(out[pos].timestamp@, out[j - 1].timestamp@));
            } else {
                lemma_lex_asymmetric(a, a);
            }
        } else if i < pos && j > pos {
            assert(s[i] == out[i] && s[j] == out[j - 1]);
        } else if j < pos {
            assert(s[i] == out[i] && s[j] == out[j]);
        } else {
            assert(s[i] == out[i - 1] && s[j] == out[j - 1]);
        }
    }
}

/// Orders sessions newest first by timestamp, keeping the order of sessions
/// with equal timestamps.
pub fn load_sessions_from_codex_home(sessions: Vec<SessionMeta>) -> (r: Vec<SessionMeta>)
    ensures
        r@.to_multiset() == sessions@.to_multiset(),
        newest_first(r@),
{
    broadcast use group_to_multiset_ensures, vstd::multiset::group_multiset_axioms;

    let ghost all = sessions@;
    let mut rest = sessions;
    let mut out: Vec<SessionMeta> = Vec::new();
    assert(out@.to_multiset().add(rest@.to_multiset()) =~= all.to_multiset());
    while rest.len() > 0
        invariant
            out@.to_multiset().add(rest@.to_multiset()) == all.to_multiset(),
            newest_first(out@),
        decreases rest@.len(),
    {
        let ghost before = rest@;
        let x = rest.pop().unwrap();
        assert(before =~= rest@.push(x));
        let mut pos: usize = 0;
        while pos < out.len() && text_lt(x.timestamp.as_str(), out[pos].timestamp.as_str())
            invariant
                pos <= out@.len(),
                forall|k: int| 0 <= k < pos ==> lex_lt(x.timestamp@, #[trigger] out@[k].timestamp@),
            decreases out@.len() - pos,
        {
            pos = pos + 1;
        }
        let ghost old_out = out@;
        proof {
            lemma_insert_keeps_order(out@, pos as int, x);
            to_multiset_insert(out@, pos as int, x);
            rest@.to_multiset_ensures();
            assert(rest@.push(x).to_multiset() =~= rest@.to_multiset().insert(x));
            assert(before.to_multiset() =~= rest@.to_multiset().insert(x));
        }
        out.insert(pos, x);
        assert(out@.to_multiset() =~= old_out.to_multiset().insert(x));
        assert(out@.to_multiset().add(rest@.to_multiset()) =~= old_out.to_multiset().add(
            before.to_multiset(),
        ));
    }
    assert(rest@ =~= Seq::<SessionMeta>::empty());
    assert(out@.to_multiset().add(rest@.to_multiset()) =~= out@.to_multiset());
    out
}

/// Fields read from the first line of a saved session file.
pub struct SessionHeader {
    pub timestamp: String,
    pub provider_resume_token: Option<String>,
    pub recorded_project_root: Option<String>,
}

pub open spec fn newlines_to_spaces(s: Seq<char>) -> Seq<char> {
    s.map_values(|c: char| if c == '\n' { ' ' } else { c })
}

/// Relies on std's `str::replace`: every newline of `s` becomes a space.
#[verifier::external_body]
fn replace_newlines(s: &str) -> (r: String)
    ensures
        r@ == newlines_to_spaces(s@),
{
    s.replace('\n', " ")
}

/// The fragments of a message on one line, separated by spaces.
pub open spec fn joined_text(texts: Seq<String>) -> Seq<char>
    decreases texts.len(),
{
    if texts.len() == 0 {
        Seq::empty()
    } else {
        let acc = joined_text(texts.drop_last());
        let t = newlines_to_spaces(texts.last()@);
        if acc.len() == 0 {
            t
        } else {
            acc + " "@ + t
        }
    }
}

/// Counts gathered over the records of a session.
pub struct ScanSummary {
    pub user_messages: nat,
    pub tool_calls: nat,
    pub first_message: Seq<char>,
    pub state_token: Option<Seq<char>>,
}

/// Whether a record is a message from the user.
pub open spec fn is_user_message(it: Item) -> bool {
    match it {
        Item::Message { role: Some(r), .. } => r@ == "user"@,
        _ => false,
    }
}

/// User messages that are not seeds, tool calls, the first non-empty user
/// message, and the last resume token recorded by a state snapshot.
pub open spec fn scan(records: Seq<Item>) -> ScanSummary
    decreases records.len(),
{
    if records.len() == 0 {
        ScanSummary { user_messages: 0, tool_calls: 0, first_message: Seq::empty(), state_token: None }
    } else {
        let st = scan(records.drop_last());
        match records.last() {
            Item::State { provider_resume_token: Some(t) } => ScanSummary {
                state_token: Some(t@),
                ..st
            },
            Item::Message { texts, .. } => if is_user_message(records.last()) {
                let m = joined_text(texts@);
                if is_seed(m) {
                    st
                } else {
                    ScanSummary {
                        user_messages: st.user_messages + 1,
                        first_message: if st.first_message.len() == 0 && m.len() > 0 {
                            m
                        } else {
                            st.first_message
                        },
                        ..st
                    }
                }
            } else {
                st
            },
            Item::FunctionCall { .. } => ScanSummary { tool_calls: st.tool_calls + 1, ..st },
            _ => st,
        }
    }
}

fn join_message(texts: &Vec<String>) -> (r: String)
    ensures
        r@ == joined_text(texts@),
{
    let mut out = String::new();
    let mut i: usize = 0;
    while i < texts.len()
        invariant
            i <= texts@.len(),
            out@ == joined_text(texts@.take(i as int)),
        decreases texts@.len() - i,
    {
        assert(texts@.take(i + 1).drop_last() =~= texts@.take(i as int));
        let t = replace_newlines(texts[i].as_str());
        if !out.as_str().is_empty() {
            out.append(" ");
        }
        out.append(t.as_str());
        i = i + 1;
    }
    assert(texts@.take(i as int) =~= texts@);
    out
}

fn user_role(role: &Option<String>) -> (r: bool)
    ensures
        r == (role is Some && role->Some_0@ == "user"@),
{
    match role {
        Some(r) => {
            let user = String::from_str("user");
            *r == user
        },
        None => false,
    }
}

/// Summary of one saved session from its header and its records.
pub fn summarize_session(path: String, header: SessionHeader, records: &[Item]) -> (r: SessionMeta)
    ensures
        r.path == path,
        r.timestamp == header.timestamp,
        r.user_messages == scan(records@).user_messages,
        r.tool_calls == scan(records@).tool_calls,
        r.first_message@ == scan(records@).first_message,
        r.provider_token matches Some(t) ==> match header.provider_resume_token {
            Some(h) => t@ == h@,
            None => scan(records@).state_token == Some(t@),
        },
        r.provider_token is None <==> (header.provider_resume_token is None && scan(
            records@,
        ).state_token is None),
        r.recorded_project_root == header.recorded_project_root,
{
    let mut user_messages: usize = 0;
    let mut tool_calls: usize = 0;
    let mut first_message = String::new();
    let mut state_token: Option<String> = None;
    let mut i: usize = 0;
    while i < records.len()
        invariant
            i <= records@.len(),
            user_messages <= i,
            tool_calls <= i,
            user_messages == scan(records@.take(i as int)).user_messages,
            tool_calls == scan(records@.take(i as int)).tool_calls,
            first_message@ == scan(records@.take(i as int)).first_message,
            state_token is Some == scan(records@.take(i as int)).state_token is Some,
            state_token matches Some(t) ==> scan(records@.take(i as int)).state_token == Some(t@),
        decreases records@.len() - i,
    {
        assert(records@.take(i + 1).drop_last() =~= records@.take(i as int));
        assert(records@.take(i + 1).last() == records@[i as int]);
        match &records[i] {
            Item::State { provider_resume_token: Some(t) } => {
                state_token = Some(t.clone());
            },
            Item::Message { role, texts } => {
                if user_role(role) {
                    let m = join_message(texts);
                    if !is_seed_message(m.as_str()) {
                        user_messages = user_messages + 1;
                        if first_message.as_str().is_empty() && !m.as_str().is_empty() {
                            first_message = m;
                        }
                    }
                }
            },
            Item::FunctionCall { .. } => {
                tool_calls = tool_calls + 1;
            },
            _ => {},
        }
        i = i + 1;
    }
    assert(records@.take(i as int) =~= records@);
    let provider_token = match header.provider_resume_token {
        Some(t) => Some(t),
        None => state_token,
    };
    SessionMeta {
        path,
        timestamp: header.timestamp,
        user_messages,
        tool_calls,
        first_message,
        provider_token,
        recorded_project_root: header.recorded_project_root,
    }
}

/// An RFC 3339 timestamp as its UTC minute, written `YYYY-MM-DD HH:MM`, or
/// `None` when the text is not such a timestamp.
pub uninterp spec fn utc_minute_label(ts: Seq<char>) -> Option<Seq<char>>;

/// Relies on chrono's `DateTime::parse_from_rfc3339`, converted to `Utc` and
/// formatted as `%Y-%m-%d %H:%M`: the UTC minute of the timestamp, or `None`
/// when it does not parse.
#[verifier::external_body]
fn utc_minute(ts: &str) -> (r: Option<String>)
    ensures
        (r is Some) == (utc_minute_label(ts@) is Some),
        r is Some ==> r->Some_0@ == utc_minute_label(ts@)->Some_0,
{
    match chrono::DateTime::parse_from_rfc3339(ts) {
        Ok(dt) => Some(dt.with_timezone(&chrono::Utc).format("%Y-%m-%d %H:%M").to_string()),
        Err(_) => None,
    }
}

/// The text of a session's row in the list.
pub open spec fn label_text(m: SessionMeta) -> Seq<char> {
    let ts = match utc_minute_label(m.timestamp@) {
        Some(t) => t,
        None => m.timestamp@,
    };
    ts + " \u{b7} "@ + decimal(m.user_messages as nat) + " msgs/"@ + decimal(m.tool_calls as nat)
        + " tools \u{b7} "@ + truncated(m.first_message@, 50)
}

/// A session's row: when it started (as a UTC minute when the timestamp
/// parses), its user messages and tool calls, and its first message cut to
/// fifty grapheme clusters.
pub fn format_label(m: &SessionMeta) -> (r: String)
    ensures
        r@ == label_text(*m),
{
    let mut out = match utc_minute(m.timestamp.as_str()) {
        Some(t) => t,
        None => m.timestamp.clone(),
    };
    out.append(" \u{b7} ");
    push_decimal(&mut out, m.user_messages);
    out.append(" msgs/");
    push_decimal(&mut out, m.tool_calls);
    out.append(" tools \u{b7} ");
    let first = truncate_graphemes(m.first_message.as_str(), 50);
    out.append(first.as_str());
    out
}

/// Whether the session list shows a session: it has at least one user
/// message and, unless all sessions are shown, was recorded in `root`.
pub open spec fn is_listed(m: SessionMeta, show_all: bool, root: Seq<char>) -> bool {
    m.user_messages > 0 && (show_all || (m.recorded_project_root is Some
        && m.recorded_project_root->Some_0@ == root))
}

/// The listed sessions, in their given order.
pub open spec fn listed(all: Seq<SessionMeta>, show_all: bool, root: Seq<char>) -> Seq<SessionMeta>
    decreases all.len(),
{
    if all.len() == 0 {
        Seq::empty()
    } else if is_listed(all.last(), show_all, root) {
        listed(all.drop_last(), show_all, root).push(all.last())
    } else {
        listed(all.drop_last(), show_all, root)
    }
}

/// The selection after clamping it to a list of `len` rows.
pub open spec fn clamped(sel: Option<usize>, len: nat) -> Option<usize> {
    if len == 0 {
        None
    } else {
        match sel {
            Some(i) => if i < len {
                Some(i)
            } else {
                Some((len - 1) as usize)
            },
            None => Some(0),
        }
    }
}

/// The first row shown so that `sel` is visible in a window of `rows` rows.
pub open spec fn scrolled_to(top: nat, sel: Option<usize>, len: nat, rows: nat) -> nat {
    if len == 0 || rows == 0 {
        0
    } else {
        match sel {
            Some(i) => if i < top {
                i as nat
            } else if i >= top + rows {
                (i + 1 - rows) as nat
            } else {
                top
            },
            None => 0,
        }
    }
}

/// Index of the first session whose path is `p`, if any.
pub open spec fn first_with_path(items: Seq<SessionMeta>, p: Seq<char>) -> Option<int> {
    if exists|i: int| 0 <= i < items.len() && #[trigger] items[i].path@ == p {
        Some(
            choose|i: int|
                0 <= i < items.len() && #[trigger] items[i].path@ == p && forall|k: int|
                    0 <= k < i ==> #[trigger] items[k].path@ != p,
        )
    } else {
        None
    }
}

/// The list of saved sessions with its selection, scroll position, chosen
/// action and scope.
pub struct SessionsPopup {
    pub items: Vec<SessionMeta>,
    pub selected_idx: Option<usize>,
    pub scroll_top: usize,
    pub action_idx: usize,
    pub complete: bool,
    pub show_all: bool,
    pub project_root: String,
}

impl SessionsPopup {
    /// A list over `all` (sessions in display order), showing every session
    /// or only those of `project_root`.
    pub fn with_params(all: Vec<SessionMeta>, show_all: bool, project_root: String) -> (r: Self)
        ensures
            r.items@ == listed(all@, show_all, project_root@),
            r.selected_idx == clamped(None, r.items@.len()),
            r.scroll_top == 0,
            r.action_idx == 0,
            !r.complete,
            r.show_all == show_all,
            r.project_root@ == project_root@,
    {
        let mut s = SessionsPopup {
            items: Vec::new(),
            selected_idx: None,
            scroll_top: 0,
            action_idx: 0,
            complete: false,
            show_all,
            project_root,
        };
        s.refresh(all);
        s
    }

    /// Moves to the next of the four actions, wrapping around.
    pub fn toggle_mode(&mut self)
        ensures
            final(self).action_idx == (old(self).action_idx + 1) % 4,
            final(self).items == old(self).items,
            final(self).selected_idx == old(self).selected_idx,
            final(self).scroll_top == old(self).scroll_top,
            final(self).show_all == old(self).show_all,
            final(self).complete == old(self).complete,
    {
        self.action_idx = (self.action_idx % 4 + 1) % 4;
    }

    /// Replaces the rows with the listed sessions of `all` and clamps the
    /// selection to them.
    pub fn refresh(&mut self, all: Vec<SessionMeta>)
        ensures
            final(self).items@ == listed(all@, old(self).show_all, old(self).project_root@),
            final(self).selected_idx == clamped(old(self).selected_idx, final(self).items@.len()),
            final(self).scroll_top == (if final(self).items@.len() == 0 {
                0
            } else {
                old(self).scroll_top as nat
            }),
            final(self).action_idx == old(self).action_idx,
            final(self).complete == old(self).complete,
            final(self).show_all == old(self).show_all,
            final(self).project_root == old(self).project_root,
    {
        let ghost root = self.project_root@;
        let ghost show_all = self.show_all;
        let ghost whole = all@;
        let mut rest = all;
        let mut kept_rev: Vec<SessionMeta> = Vec::new();
        while rest.len() > 0
            invariant
                root == self.project_root@,
                show_all == self.show_all,
                listed(whole, show_all, root) == listed(rest@, show_all, root) + kept_rev@.reverse(),
            decreases rest@.len(),
        {
            let ghost before = rest@;
            let m = rest.pop().unwrap();
            assert(before.drop_last() =~= rest@);
            let keep = m.user_messages > 0 && (self.show_all || match &m.recorded_project_root {
                Some(r) => *r == self.project_root,
                None => false,
            });
            if keep {
                kept_rev.push(m);
                assert(kept_rev@.reverse() =~= seq![m] + kept_rev@.drop_last().reverse());
                assert(listed(rest@, show_all, root).push(m) + kept_rev@.drop_last().reverse()
                    =~= listed(rest@, show_all, root) + kept_rev@.reverse());
            }
        }
        assert(listed(rest@, show_all, root) =~= Seq::<SessionMeta>::empty());
        let mut out: Vec<SessionMeta> = Vec::new();
        while kept_rev.len() > 0
            invariant
                listed(whole, show_all, root) == out@ + kept_rev@.reverse(),
            decreases kept_rev@.len(),
        {
            let ghost before = kept_rev@;
            let m = kept_rev.pop().unwrap();
            proof {
                assert(before.drop_last() =~= kept_rev@);
                assert(before.reverse() =~= seq![m] + kept_rev@.reverse());
            }
            out.push(m);
            assert(out@ + kept_rev@.reverse() =~= out@.drop_last() + before.reverse());
        }
        assert(out@ + kept_rev@.reverse() =~= out@);
        self.items = out;
        self.clamp_selection();
    }

    fn clamp_selection(&mut self)
        ensures
            final(self).selected_idx == clamped(old(self).selected_idx, old(self).items@.len()),
            final(self).scroll_top == (if old(self).items@.len() == 0 {
                0
            } else {
                old(self).scroll_top as nat
            }),
            final(self).items == old(self).items,
            final(self).action_idx == old(self).action_idx,
            final(self).complete == old(self).complete,
            final(self).show_all == old(self).show_all,
            final(self).project_root == old(self).project_root,
    {
        let len = self.items.len();
        if len == 0 {
            self.selected_idx = None;
            self.scroll_top = 0;
        } else {
            self.selected_idx = match self.selected_idx {
                Some(i) => if i < len {
                    Some(i)
                } else {
                    Some(len - 1)
                },
                None => Some(0),
            };
        }
    }

    fn ensure_visible(&mut self, rows: usize)
        ensures
            final(self).scroll_top == scrolled_to(
                old(self).scroll_top as nat,
                old(self).selected_idx,
                old(self).items@.len(),
                rows as nat,
            ),
            final(self).selected_idx == old(self).selected_idx,
            final(self).items == old(self).items,
            final(self).action_idx == old(self).action_idx,
            final(self).complete == old(self).complete,
            final(self).show_all == old(self).show_all,
            final(self).project_root == old(self).project_root,
    {
        let len = self.items.len();
        if len == 0 || rows == 0 {
            self.scroll_top = 0;
            return;
        }
        match self.selected_idx {
            Some(i) => {
                if i < self.scroll_top {
                    self.scroll_top = i;
                } else if i - self.scroll_top >= rows {
                    self.scroll_top = i - rows + 1;
                }
            },
            None => {
                self.scroll_top = 0;
            },
        }
    }

    /// Selects the first session whose path is `path`, if there is one, and
    /// scrolls it into view.
    pub fn select_path(&mut self, path: &str)
        ensures
            first_with_path(old(self).items@, path@) is None ==> *final(self) == *old(self),
            first_with_path(old(self).items@, path@) matches Some(i) ==> {
                let len = old(self).items@.len();
                let rows = if len < MAX_POPUP_ROWS {
                    len
                } else {
                    MAX_POPUP_ROWS as nat
                };
                &&& final(self).selected_idx == Some(i as usize)
                &&& final(self).scroll_top == scrolled_to(
                    old(self).scroll_top as nat,
                    Some(i as usize),
                    len,
                    rows,
                )
                &&& final(self).items == old(self).items
                &&& final(self).action_idx == old(self).action_idx
                &&& final(self).show_all == old(self).show_all
            },
    {
        if self.items.len() == 0 {
            return;
        }
        let want = String::from_str(path);
        let mut i: usize = 0;
        while i < self.items.len()
            invariant
                i <= self.items@.len(),
                want@ == path@,
                *self == *old(self),
                forall|k: int| 0 <= k < i ==> #[trigger] self.items@[k].path@ != path@,
            decreases self.items@.len() - i,
        {
            if self.items[i].path == want {
                let ghost j = i as int;
                assert(first_with_path(self.items@, path@) == Some(j)) by {
                    let c = choose|x: int|
                        0 <= x < self.items@.len() && #[trigger] self.items@[x].path@ == path@
                            && forall|k: int| 0 <= k < x ==> #[trigger] self.items@[k].path@ != path@;
                    assert(0 <= j < self.items@.len() && self.items@[j].path@ == path@ && forall|
                        k: int,
                    | 0 <= k < j ==> #[trigger] self.items@[k].path@ != path@);
                    if c < j {
                        assert(self.items@[c].path@ != path@);
                    } else if c > j {
                        assert(self.items@[j].path@ != path@);
                    }
                };
                self.selected_idx = Some(i);
                let len = self.items.len();
                let rows = if len < MAX_POPUP_ROWS {
                    len
                } else {
                    MAX_POPUP_ROWS
                };
                self.ensure_visible(rows);
                return;
            }
            i = i + 1;
        }
        assert(!exists|x: int| 0 <= x < self.items@.len() && #[trigger] self.items@[x].path@ == path@);
    }
}

} // verus!
