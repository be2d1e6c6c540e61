//! The conversation core's decisions: how much of the chat history still
//! fits in front of a new message, and what one step of the model's reply
//! stream settles and whether another step follows.
use vstd::prelude::*;

use crate::text::{chars_of, string_of};

verus! {

/// The summed prompt length of the messages from `k` to the end.
pub open spec fn tail_len(lens: Seq<u64>, k: int) -> int
    decreases lens.len() - k,
{
    if k < 0 || k >= lens.len() {
        0
    } else {
        lens[k] + tail_len(lens, k + 1)
    }
}

/// Where the kept history starts: the history is walked from the newest
/// message back, each message kept while the preamble, the tool
/// descriptions and the kept messages together stay within
/// `max_prompt_len`; the first message that would overrun it ends the walk.
/// The kept messages are the longest suffix that fits (none when the
/// preamble and tools alone overrun). The running total is a `u64`; inputs
/// on which it would overflow before the walk ends are left out.
pub fn truncated_history_start(preamble_len: u64, tools_len: u64, message_lens: &Vec<u64>, max_prompt_len: u64) -> (keep_from: usize)
    requires
        preamble_len + tools_len <= u64::MAX,
        forall|k: int|
            0 <= k < message_lens@.len() && (k == message_lens@.len() - 1 || preamble_len + tools_len + tail_len(
                message_lens@,
                k + 1,
            ) <= max_prompt_len) ==> preamble_len + tools_len + #[trigger] tail_len(message_lens@, k) <= u64::MAX,
    ensures
        keep_from <= message_lens@.len(),
        keep_from < message_lens@.len() ==> preamble_len + tools_len + tail_len(message_lens@, keep_from as int)
            <= max_prompt_len,
        keep_from > 0 ==> preamble_len + tools_len + tail_len(message_lens@, keep_from - 1) > max_prompt_len,
{
    let n = message_lens.len();
    let mut current: u64 = preamble_len + tools_len;
    let mut keep: usize = n;
    while keep > 0
        invariant
            keep <= n == message_lens@.len(),
            current == preamble_len + tools_len + tail_len(message_lens@, keep as int),
            keep < n ==> current <= max_prompt_len,
            preamble_len + tools_len <= u64::MAX,
            forall|k: int|
                0 <= k < message_lens@.len() && (k == message_lens@.len() - 1 || preamble_len + tools_len
                    + tail_len(message_lens@, k + 1) <= max_prompt_len) ==> preamble_len + tools_len
                    + #[trigger] tail_len(message_lens@, k) <= u64::MAX,
        decreases keep,
    {
        let next = keep - 1;
        assert(preamble_len + tools_len + tail_len(message_lens@, next as int) <= u64::MAX);
        assert(tail_len(message_lens@, next as int) == message_lens@[next as int] + tail_len(message_lens@, keep as int));
        current = current + message_lens[next];
        if current <= max_prompt_len {
            keep = next;
        } else {
            return keep;
        }
    }
    keep
}

} // verus!

verus! {

/// One event of the model's reply stream for a step, as plain values: a
/// piece of text, a tool call, reasoning (ignored), the end of the reply, an
/// error event the model reported, or a failure of the stream itself.
#[derive(Debug, Clone, PartialEq, Eq)]
pub enum StreamEvent {
    Text(String),
    ToolCall { id: String, name: String, arguments: String },
    Reasoning,
    Final,
    Error(String),
    Failed(String),
}

/// What the host does with one stream event: hand the text to the sentence
/// splitter and speak what it returns, flush the splitter and speak the
/// rest, log a reported error, forward a stream failure to the listener, or
/// nothing.
#[derive(Debug, Clone, PartialEq, Eq)]
pub enum StreamAction {
    Speak(String),
    FlushSpeech,
    LogError(String),
    Forward(String),
    Nothing,
}

/// What the assistant produced in a step, in order: its collected text, or
/// a tool call.
#[derive(Debug, Clone, PartialEq, Eq)]
pub enum AssistantEvent {
    Text(String),
    ToolCall { id: String, name: String, arguments: String },
}

/// An assistant event as values: text as `(true, text, [], [])`, a tool call
/// as `(false, id, name, arguments)`.
pub open spec fn assistant_view(e: AssistantEvent) -> (bool, Seq<char>, Seq<char>, Seq<char>) {
    match e {
        AssistantEvent::Text(t) => (true, t@, Seq::empty(), Seq::empty()),
        AssistantEvent::ToolCall { id, name, arguments } => (false, id@, name@, arguments@),
    }
}

pub open spec fn assistant_views(v: Seq<AssistantEvent>) -> Seq<(bool, Seq<char>, Seq<char>, Seq<char>)> {
    v.map_values(|e: AssistantEvent| assistant_view(e))
}

/// Whether a step's events hold a tool call, which is what makes the
/// conversation take another step.
pub open spec fn calls_tool(v: Seq<(bool, Seq<char>, Seq<char>, Seq<char>)>) -> bool {
    exists|i: int| 0 <= i < v.len() && !(#[trigger] v[i]).0
}

/// Gathers one step's reply stream: the text so far, and the assistant
/// events in the order they are settled (tool calls as they arrive, the
/// collected text at the end of the reply).
pub struct StepCollector {
    text: Vec<char>,
    events: Vec<AssistantEvent>,
}

impl StepCollector {
    /// The text collected so far.
    pub closed spec fn collected(&self) -> Seq<char> {
        self.text@
    }

    /// The assistant events settled so far.
    pub closed spec fn gathered(&self) -> Seq<(bool, Seq<char>, Seq<char>, Seq<char>)> {
        assistant_views(self.events@)
    }

    pub fn new() -> (c: Self)
        ensures
            c.collected() == Seq::<char>::empty(),
            c.gathered() == Seq::<(bool, Seq<char>, Seq<char>, Seq<char>)>::empty(),
    {
        let c = StepCollector { text: Vec::new(), events: Vec::new() };
        assert(c.gathered() =~= Seq::<(bool, Seq<char>, Seq<char>, Seq<char>)>::empty());
        c
    }

    /// One stream event: text is collected and spoken; a tool call is
    /// settled as it comes; the end of the reply settles the collected text,
    /// when there is any, and flushes the speech; a reported error is
    /// logged and a stream failure forwarded; reasoning is ignored. The
    /// collected text is not cleared at the end of the reply.
    pub fn on_event(&mut self, event: StreamEvent) -> (action: StreamAction)
        ensures
            match event {
                StreamEvent::Text(t) => {
                    &&& final(self).collected() == old(self).collected() + t@
                    &&& final(self).gathered() == old(self).gathered()
                    &&& action matches StreamAction::Speak(s) && s@ == t@
                },
                StreamEvent::ToolCall { id, name, arguments } => {
                    &&& final(self).collected() == old(self).collected()
                    &&& final(self).gathered() == old(self).gathered().push((false, id@, name@, arguments@))
                    &&& action is Nothing
                },
                StreamEvent::Final => {
                    &&& final(self).collected() == old(self).collected()
                    &&& if old(self).collected().len() > 0 {
                        &&& final(self).gathered() == old(self).gathered().push(
                            (true, old(self).collected(), Seq::empty(), Seq::empty()),
                        )
                        &&& action is FlushSpeech
                    } else {
                        &&& final(self).gathered() == old(self).gathered()
                        &&& action is Nothing
                    }
                },
                StreamEvent::Error(e) => {
                    &&& final(self).collected() == old(self).collected()
                    &&& final(self).gathered() == old(self).gathered()
                    &&& action matches StreamAction::LogError(s) && s@ == e@
                },
                StreamEvent::Failed(e) => {
                    &&& final(self).collected() == old(self).collected()
                    &&& final(self).gathered() == old(self).gathered()
                    &&& action matches StreamAction::Forward(s) && s@ == e@
                },
                StreamEvent::Reasoning => {
                    &&& final(self).collected() == old(self).collected()
                    &&& final(self).gathered() == old(self).gathered()
                    &&& action is Nothing
                },
            },
    {
        let ghost before = self.events@;
        match event {
            StreamEvent::Text(t) => {
                let mut chars = chars_of(t.as_str());
                self.text.append(&mut chars);
                StreamAction::Speak(t)
            },
            StreamEvent::ToolCall { id, name, arguments } => {
                self.events.push(AssistantEvent::ToolCall { id, name, arguments });
                assert(assistant_views(self.events@) =~= assistant_views(before).push(assistant_view(self.events@.last())));
                StreamAction::Nothing
            },
            StreamEvent::Final => {
                if self.text.len() > 0 {
                    let text = string_of(self.text.as_slice());
                    self.events.push(AssistantEvent::Text(text));
                    assert(assistant_views(self.events@) =~= assistant_views(before).push(assistant_view(self.events@.last())));
                    StreamAction::FlushSpeech
                } else {
                    StreamAction::Nothing
                }
            },
            StreamEvent::Error(e) => StreamAction::LogError(e),
            StreamEvent::Failed(e) => StreamAction::Forward(e),
            StreamEvent::Reasoning => StreamAction::Nothing,
        }
    }

    /// The step's settled assistant events, for the history, and whether
    /// one of them is a tool call, in which case another step follows.
    pub fn finish(self) -> (r: (Vec<AssistantEvent>, bool))
        ensures
            assistant_views(r.0@) == self.gathered(),
            r.1 == calls_tool(self.gathered()),
    {
        let events = self.events;
        let mut i: usize = 0;
        let mut any = false;
        while i < events.len()
            invariant
                i <= events@.len(),
                any == exists|k: int| 0 <= k < i && !(#[trigger] assistant_views(events@)[k]).0,
            decreases events@.len() - i,
        {
            let is_call = match &events[i] {
                AssistantEvent::ToolCall { .. } => true,
                AssistantEvent::Text(_) => false,
            };
            proof {
                assert(assistant_views(events@)[i as int].0 == !is_call);
            }
            if is_call {
                any = true;
            }
            i += 1;
        }
        (events, any)
    }
}

} // verus!
