//! The pure helpers of the browser modules: the hub URL, the peer list, the status panel sections,
//! the chat history window and the checked division of the error-handling demo.

use vstd::prelude::*;
use crate::text::{chars_of, range_equals, string_from_chars, string_from_range, trim, trim_bounds};

verus! {

/// `wss:` for a page served over `https:`, `ws:` otherwise.
pub open spec fn ws_scheme(protocol: Seq<char>) -> Seq<char> {
    if protocol == seq!['h', 't', 't', 'p', 's', ':'] {
        seq!['w', 's', 's', ':']
    } else {
        seq!['w', 's', ':']
    }
}

/// `<scheme>//<host>/ws`, the hub endpoint of the page's own origin.
pub open spec fn spec_websocket_url(protocol: Seq<char>, host: Seq<char>) -> Seq<char> {
    ws_scheme(protocol) + seq!['/', '/'] + host + seq!['/', 'w', 's']
}

/// The WebSocket URL of the hub on the page's origin, from `location.protocol` and `location.host`.
pub fn websocket_url(protocol: &str, host: &str) -> (r: String)
    ensures
        r@ == spec_websocket_url(protocol@, host@),
{
    let p = chars_of(protocol);
    let https: Vec<char> = vec!['h', 't', 't', 'p', 's', ':'];
    assert(https@ =~= seq!['h', 't', 't', 'p', 's', ':']);
    assert(p@.subrange(0, p@.len() as int) =~= p@);
    let mut r = if range_equals(&p, 0, p.len(), &https) {
        string_from_chars(&vec!['w', 's', 's', ':', '/', '/'])
    } else {
        string_from_chars(&vec!['w', 's', ':', '/', '/'])
    };
    r.append(host);
    let tail = string_from_chars(&vec!['/', 'w', 's']);
    r.append(tail.as_str());
    assert(r@ =~= spec_websocket_url(protocol@, host@));
    r
}

/// Whether an agent listed by the hub is connected.
#[derive(Clone, Copy, Debug, PartialEq, Eq, Structural)]
pub enum AgentConnectionState {
    Connected,
    Disconnected,
}

/// One agent of the hub's agent list.
pub struct AgentSummary {
    pub agent_id: String,
    pub state: AgentConnectionState,
}

/// A peer worth messaging: connected, and not this agent (whose id must already be known).
pub open spec fn is_other_connected(a: AgentSummary, own_id: Seq<char>) -> bool {
    a.state == AgentConnectionState::Connected && own_id.len() > 0 && a.agent_id@ != own_id
}

pub open spec fn summary_view(a: AgentSummary) -> (Seq<char>, AgentConnectionState) {
    (a.agent_id@, a.state)
}

/// The connected peers of a list-agents response, in order.
pub fn other_connected_agents(agents: &Vec<AgentSummary>, own_id: &str) -> (r: Vec<AgentSummary>)
    ensures
        r@.map_values(|a: AgentSummary| summary_view(a)) == agents@.filter(|a: AgentSummary| is_other_connected(a, own_id@)).map_values(
            |a: AgentSummary| summary_view(a),
        ),
{
    let own = chars_of(own_id);
    let mut r: Vec<AgentSummary> = Vec::new();
    let mut k: usize = 0;
    let ghost pred = |a: AgentSummary| is_other_connected(a, own_id@);
    assert(agents@.take(0) =~= Seq::<AgentSummary>::empty());
    while k < agents.len()
        invariant
            k <= agents.len(),
            own@ == own_id@,
            pred == (|a: AgentSummary| is_other_connected(a, own_id@)),
            r@.map_values(|a: AgentSummary| summary_view(a)) == agents@.take(k as int).filter(pred).map_values(
                |a: AgentSummary| summary_view(a),
            ),
        decreases agents.len() - k,
    {
        let a = &agents[k];
        let id = chars_of(a.agent_id.as_str());
        assert(id@.subrange(0, id@.len() as int) =~= id@);
        let keep = a.state == AgentConnectionState::Connected && own.len() > 0 && !range_equals(&id, 0, id.len(), &own);
        assert(keep == pred(agents@[k as int]));
        let ghost before = r@;
        proof {
            reveal_with_fuel(Seq::filter, 1);
            assert(agents@.take(k + 1).drop_last() =~= agents@.take(k as int));
        }
        if keep {
            r.push(AgentSummary { agent_id: a.agent_id.clone(), state: a.state });
            assert(r@.map_values(|a: AgentSummary| summary_view(a)) =~= before.map_values(|a: AgentSummary| summary_view(a)).push(
                summary_view(agents@[k as int]),
            ));
        }
        k = k + 1;
    }
    assert(agents@.take(agents.len() as int) =~= agents@);
    r
}

/// `[<module>] <message>`, a module's console and log-panel line.
pub open spec fn spec_log_line(module: Seq<char>, message: Seq<char>) -> Seq<char> {
    "["@ + module + "] "@ + message
}

/// The log panel's text after a line is added: the line alone on an empty panel, else on a new line.
pub open spec fn spec_appended_log(current: Seq<char>, line: Seq<char>) -> Seq<char> {
    if current.len() == 0 {
        line
    } else {
        current + "\n"@ + line
    }
}

pub fn log_line(module: &str, message: &str) -> (r: String)
    ensures
        r@ == spec_log_line(module@, message@),
{
    let mut r = String::from_str("[");
    r.append(module);
    r.append("] ");
    r.append(message);
    r
}

pub fn append_log(current: &str, line: &str) -> (r: String)
    ensures
        r@ == spec_appended_log(current@, line@),
{
    if current.is_empty() {
        String::from_str(line)
    } else {
        let mut r = String::from_str(current);
        r.append("\n");
        r.append(line);
        r
    }
}

/// Add a titled section to the status lines: a blank separator line, then the title.
pub fn push_section(lines: &mut Vec<String>, title: &str)
    ensures
        final(lines)@.len() == old(lines)@.len() + 2,
        forall|k: int| 0 <= k < old(lines)@.len() ==> #[trigger] final(lines)@[k] == old(lines)@[k],
        final(lines)@[old(lines)@.len() as int]@ == Seq::<char>::empty(),
        final(lines)@[old(lines)@.len() + 1int]@ == title@,
{
    lines.push(String::new());
    lines.push(String::from_str(title));
}

/// `value`, or `unknown` when it is empty.
pub fn string_or_unknown(value: String) -> (r: String)
    ensures
        value@.len() == 0 ==> r@ == seq!['u', 'n', 'k', 'n', 'o', 'w', 'n'],
        value@.len() > 0 ==> r@ == value@,
{
    if value.as_str().is_empty() {
        let r = string_from_chars(&vec!['u', 'n', 'k', 'n', 'o', 'w', 'n']);
        r
    } else {
        value
    }
}

/// One chat turn: a role and its content.
pub struct Turn {
    pub role: String,
    pub content: String,
}

/// How many turns of the transcript are resent as context.
pub const MAX_HISTORY_TURNS: usize = 8;

pub open spec fn turn_view(t: Turn) -> (Seq<char>, Seq<char>) {
    (t.role@, t.content@)
}

pub open spec fn turns_view(s: Seq<Turn>) -> Seq<(Seq<char>, Seq<char>)> {
    s.map_values(|t: Turn| turn_view(t))
}

/// Drop the oldest turns once the transcript outgrows the window: the last (at most)
/// [`MAX_HISTORY_TURNS`] turns remain, in order.
pub fn truncate_history(history: &mut Vec<Turn>)
    ensures
        turns_view(final(history)@) == turns_view(old(history)@).skip(
            if old(history)@.len() > MAX_HISTORY_TURNS { old(history)@.len() - MAX_HISTORY_TURNS } else { 0 },
        ),
{
    let excess = history.len().saturating_sub(MAX_HISTORY_TURNS);
    if excess == 0 {
        assert(turns_view(history@).skip(0) =~= turns_view(history@));
        return;
    }
    let ghost old_view = turns_view(history@);
    let mut kept: Vec<Turn> = Vec::new();
    let mut k = excess;
    while k < history.len()
        invariant
            excess <= k <= history.len(),
            old_view == turns_view(history@),
            turns_view(kept@) == old_view.subrange(excess as int, k as int),
        decreases history.len() - k,
    {
        let t = &history[k];
        let ghost before = kept@;
        kept.push(Turn { role: t.role.clone(), content: t.content.clone() });
        assert(turns_view(kept@) =~= turns_view(before).push(old_view[k as int]));
        k = k + 1;
        assert(turns_view(kept@) =~= old_view.subrange(excess as int, k as int));
    }
    *history = kept;
}

/// The prompt the chat input holds: its text trimmed, or nothing when that is blank.
pub fn queued_prompt(input: &str) -> (r: Option<String>)
    ensures
        r is None <==> trim(input@).len() == 0,
        r matches Some(p) ==> p@ == trim(input@),
{
    let v = chars_of(input);
    let (a, b) = trim_bounds(&v, 0, v.len());
    assert(v@.subrange(0, v@.len() as int) =~= v@);
    if a == b {
        None
    } else {
        Some(string_from_range(&v, a, b))
    }
}

/// The speaker label of a transcript turn: `you` for the user's turns, `llm1` for the model's.
pub fn turn_label(role: &str) -> (r: String)
    ensures
        r@ == (if role@ == "user"@ { "you"@ } else { "llm1"@ }),
{
    let v = chars_of(role);
    let user: Vec<char> = vec!['u', 's', 'e', 'r'];
    proof {
        reveal_strlit("user");
    }
    assert(user@ =~= "user"@);
    assert(v@.subrange(0, v@.len() as int) =~= v@);
    if range_equals(&v, 0, v.len(), &user) {
        String::from_str("you")
    } else {
        String::from_str("llm1")
    }
}

/// Polls (of 100 ms) after which an idle chat panel closes itself, about 30 minutes.
pub const CHAT_MAX_RUNTIME_POLLS: u32 = 18_000;

/// Why the chat loop ended.
#[derive(Clone, Copy, Debug, PartialEq, Eq, Structural)]
pub enum ChatStop {
    Requested,
    Runtime,
}

/// What the chat loop does on one poll.
#[derive(Clone, Copy, Debug, PartialEq, Eq, Structural)]
pub enum ChatStep {
    Stop(ChatStop),
    /// No prompt queued: wait one poll interval.
    Wait,
    /// Answer the prompt taken from the queue.
    Answer,
}

/// The chat loop's transcript and counters.
pub struct ChatSession {
    pub history: Vec<Turn>,
    pub answered: u32,
    pub total_polls: u32,
}

impl ChatSession {
    pub fn new() -> (r: ChatSession)
        ensures
            r.history@.len() == 0,
            r.answered == 0,
            r.total_polls == 0,
    {
        ChatSession { history: Vec::new(), answered: 0, total_polls: 0 }
    }

    /// Decide one poll: stop on request or after [`CHAT_MAX_RUNTIME_POLLS`] polls; otherwise count the
    /// poll and answer or wait.
    pub fn poll(&mut self, stop_requested: bool, has_prompt: bool) -> (step: ChatStep)
        ensures
            turns_view(final(self).history@) == turns_view(old(self).history@),
            final(self).answered == old(self).answered,
            stop_requested ==> step == ChatStep::Stop(ChatStop::Requested) && final(self).total_polls == old(
                self,
            ).total_polls,
            !stop_requested && old(self).total_polls >= CHAT_MAX_RUNTIME_POLLS ==> step == ChatStep::Stop(
                ChatStop::Runtime,
            ) && final(self).total_polls == old(self).total_polls,
            !stop_requested && old(self).total_polls < CHAT_MAX_RUNTIME_POLLS ==> final(self).total_polls == old(
                self,
            ).total_polls + 1 && step == (if has_prompt {
                ChatStep::Answer
            } else {
                ChatStep::Wait
            }),
    {
        if stop_requested {
            return ChatStep::Stop(ChatStop::Requested);
        }
        if self.total_polls >= CHAT_MAX_RUNTIME_POLLS {
            return ChatStep::Stop(ChatStop::Runtime);
        }
        self.total_polls = self.total_polls + 1;
        if has_prompt {
            ChatStep::Answer
        } else {
            ChatStep::Wait
        }
    }

    /// The user's prompt joins the transcript.
    pub fn prompted(&mut self, prompt: String)
        ensures
            turns_view(final(self).history@) == turns_view(old(self).history@).push(("user"@, prompt@)),
            final(self).answered == old(self).answered,
            final(self).total_polls == old(self).total_polls,
    {
        let ghost before = turns_view(self.history@);
        self.history.push(Turn { role: String::from_str("user"), content: prompt });
        assert(turns_view(self.history@) =~= before.push(("user"@, prompt@)));
    }

    /// The assistant's reply joins the transcript, which is then cut to its last
    /// [`MAX_HISTORY_TURNS`] turns, and the reply is counted.
    pub fn replied(&mut self, reply: String)
        ensures
            ({
                let grown = turns_view(old(self).history@).push(("assistant"@, reply@));
                turns_view(final(self).history@) == grown.skip(
                    if grown.len() > MAX_HISTORY_TURNS { grown.len() - MAX_HISTORY_TURNS } else { 0 },
                )
            }),
            final(self).answered == (if old(self).answered == u32::MAX { u32::MAX } else { (old(self).answered
                + 1) as u32 }),
            final(self).total_polls == old(self).total_polls,
    {
        let ghost before = turns_view(self.history@);
        self.history.push(Turn { role: String::from_str("assistant"), content: reply });
        assert(turns_view(self.history@) =~= before.push(("assistant"@, reply@)));
        truncate_history(&mut self.history);
        self.answered = self.answered.saturating_add(1);
    }
}

/// The quotient of the error-handling demo cannot be represented.
#[derive(Clone, Copy, Debug, PartialEq, Eq, Structural)]
pub struct DivideError;

/// Rust's truncating integer division (rounding toward zero).
pub open spec fn truncated_quotient(x: int, d: int) -> int {
    if x == 0 {
        0
    } else if x > 0 && d > 0 {
        x / d
    } else if x < 0 && d < 0 {
        (-x) / (-d)
    } else if x < 0 {
        -((-x) / d)
    } else {
        -(x / (-d))
    }
}

/// `num / den` rounded toward zero, or an error when the quotient is unrepresentable: a zero divisor,
/// or `i32::MIN / -1`.
pub fn checked_divide(num: i32, den: i32) -> (r: Result<i32, DivideError>)
    ensures
        r is Ok <==> den != 0 && !(num == i32::MIN && den == -1),
        r matches Ok(q) ==> q == truncated_quotient(num as int, den as int),
{
    proof {
        let x = num as int;
        let d = den as int;
        if d != 0 && !(num == i32::MIN && den == -1) {
            if x > 0 && d > 0 {
                assert(0 <= x / d <= x) by (nonlinear_arith)
                    requires
                        x > 0,
                        d > 0,
                ;
            } else if x < 0 && d < 0 {
                assert(0 <= (-x) / (-d) <= -x) by (nonlinear_arith)
                    requires
                        x < 0,
                        d < 0,
                ;
                if x == i32::MIN {
                    assert(-d >= 2);
                    assert((-x) / (-d) <= (-x) / 2) by (nonlinear_arith)
                        requires
                            -x > 0,
                            -d >= 2,
                    ;
                }
            } else if x < 0 && d > 0 {
                assert(0 <= (-x) / d <= -x) by (nonlinear_arith)
                    requires
                        x < 0,
                        d > 0,
                ;
            } else if x > 0 && d < 0 {
                assert(0 <= x / (-d) <= x) by (nonlinear_arith)
                    requires
                        x > 0,
                        d < 0,
                ;
            }
        }
    }
    match num.checked_div(den) {
        Some(q) => Ok(q),
        None => Err(DivideError),
    }
}

} // verus!
