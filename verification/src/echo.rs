//! The echo language model: it answers with the user's own words, and with a
//! fixed prompt when the user said nothing.
use vstd::prelude::*;

verus! {

/// Why an utterance arrived empty.
#[derive(Debug, Clone, Copy, PartialEq, Eq, Structural)]
pub enum EmptyKind {
    /// The user pressed to talk and said nothing.
    Manual,
    /// The wake word was heard and nothing followed.
    Wake,
    /// The device spoke on its own and the reply was empty.
    AutoSpoke,
    /// Listening timed out in silence.
    Silence,
    /// Continuous listening carries on.
    Continuing,
}

/// The prompt for an empty utterance, graded by context and by how many
/// empty rounds came in a row (the first gets the gentler wording).
pub open spec fn prompt_for(kind: EmptyKind, count: u32) -> Option<Seq<char>> {
    match kind {
        EmptyKind::Manual => Some("请再说一遍，我没有听清。"@),
        EmptyKind::Wake => if count == 1 {
            Some("想让我帮你做什么呢？"@)
        } else {
            Some("你可以告诉我你的需求，比如播放音乐或设置提醒。"@)
        },
        EmptyKind::AutoSpoke => if count == 1 {
            Some("抱歉，我没听清，可以再说一次吗？"@)
        } else {
            Some("没能听清，请换个说法或说得慢一些。"@)
        },
        EmptyKind::Silence => if count == 1 {
            Some("我一直在听，你可以尽管说。"@)
        } else {
            Some("请开口告诉我你想做什么。"@)
        },
        EmptyKind::Continuing => None,
    }
}

/// The fixed prompt for an empty utterance; continuous listening waits
/// silently instead of prompting again and again.
pub fn empty_prompt(kind: EmptyKind, count: u32) -> (r: Option<&'static str>)
    ensures
        match r {
            Some(s) => prompt_for(kind, count) == Some(s@),
            None => prompt_for(kind, count) is None,
        },
{
    match kind {
        EmptyKind::Manual => Some("请再说一遍，我没有听清。"),
        EmptyKind::Wake => if count == 1 {
            Some("想让我帮你做什么呢？")
        } else {
            Some("你可以告诉我你的需求，比如播放音乐或设置提醒。")
        },
        EmptyKind::AutoSpoke => if count == 1 {
            Some("抱歉，我没听清，可以再说一次吗？")
        } else {
            Some("没能听清，请换个说法或说得慢一些。")
        },
        EmptyKind::Silence => if count == 1 {
            Some("我一直在听，你可以尽管说。")
        } else {
            Some("请开口告诉我你想做什么。")
        },
        EmptyKind::Continuing => None,
    }
}

/// Only the first empty round gets the gentler wording: for every context
/// that grades its prompt, each later round (any count but 1) gets the
/// plainer one, and the two differ; a press to talk always gets the same
/// prompt, and continuous listening never prompts.
pub proof fn lemma_gentle_only_first(count: u32)
    ensures
        prompt_for(EmptyKind::Wake, 1) == Some("想让我帮你做什么呢？"@),
        prompt_for(EmptyKind::AutoSpoke, 1) == Some("抱歉，我没听清，可以再说一次吗？"@),
        prompt_for(EmptyKind::Silence, 1) == Some("我一直在听，你可以尽管说。"@),
        count != 1 ==> prompt_for(EmptyKind::Wake, count) == Some("你可以告诉我你的需求，比如播放音乐或设置提醒。"@),
        count != 1 ==> prompt_for(EmptyKind::AutoSpoke, count) == Some("没能听清，请换个说法或说得慢一些。"@),
        count != 1 ==> prompt_for(EmptyKind::Silence, count) == Some("请开口告诉我你想做什么。"@),
        count != 1 ==> prompt_for(EmptyKind::Wake, count) != prompt_for(EmptyKind::Wake, 1),
        count != 1 ==> prompt_for(EmptyKind::AutoSpoke, count) != prompt_for(EmptyKind::AutoSpoke, 1),
        count != 1 ==> prompt_for(EmptyKind::Silence, count) != prompt_for(EmptyKind::Silence, 1),
        prompt_for(EmptyKind::Manual, count) == Some("请再说一遍，我没有听清。"@),
        prompt_for(EmptyKind::Continuing, count) is None,
{
    reveal_strlit("想让我帮你做什么呢？");
    reveal_strlit("你可以告诉我你的需求，比如播放音乐或设置提醒。");
    reveal_strlit("抱歉，我没听清，可以再说一次吗？");
    reveal_strlit("没能听清，请换个说法或说得慢一些。");
    reveal_strlit("我一直在听，你可以尽管说。");
    reveal_strlit("请开口告诉我你想做什么。");
    if count != 1 {
        assert("想让我帮你做什么呢？"@[0] != "你可以告诉我你的需求，比如播放音乐或设置提醒。"@[0]);
        assert("抱歉，我没听清，可以再说一次吗？"@[0] != "没能听清，请换个说法或说得慢一些。"@[0]);
        assert("我一直在听，你可以尽管说。"@[0] != "请开口告诉我你想做什么。"@[0]);
    }
}

/// The echo model.
#[derive(Debug, Default, Clone, Copy, PartialEq, Eq, Structural)]
pub struct Echo {}

impl Echo {
    pub fn new() -> (e: Self)
        ensures
            e == (Echo {}),
    {
        Echo {}
    }
}


/// One event of the echo model's reply stream.
#[derive(Debug, Clone, PartialEq, Eq)]
pub enum EchoEvent {
    /// A piece of the reply text.
    Text(String),
    /// The end of the reply, with the (nil) token usage.
    Final { prompt_tokens: u64, total_tokens: u64 },
}

/// The reply as plain values: each text piece, then the end (`None`).
pub open spec fn event_view(e: EchoEvent) -> Option<Seq<char>> {
    match e {
        EchoEvent::Text(s) => Some(s@),
        EchoEvent::Final { .. } => None,
    }
}

/// What the echo model answers: for an empty utterance its prompt (when
/// there is one), otherwise the text parts of the last message, in order;
/// either way followed by the end.
pub open spec fn echo_reply(empty: Option<(EmptyKind, u32)>, texts: Seq<Seq<char>>) -> Seq<Option<Seq<char>>> {
    match empty {
        Some((kind, count)) => match prompt_for(kind, count) {
            Some(p) => seq![Some(p), None],
            None => seq![None],
        },
        None => texts.map_values(|t: Seq<char>| Some(t)).push(None),
    }
}

/// The reply to an empty utterance is its context's prompt and then the
/// end (only the end where the context gives no prompt), whatever the last
/// message held; in particular a later empty round after the device spoke
/// is answered with the plainer wording. Any other request is echoed: each
/// text part of the last message in order, then the end.
pub proof fn lemma_reply_shape(kind: EmptyKind, count: u32, texts: Seq<Seq<char>>)
    ensures
        prompt_for(kind, count) matches Some(p) ==> echo_reply(Some((kind, count)), texts) == seq![Some(p), None::<Seq<char>>],
        prompt_for(kind, count) is None ==> echo_reply(Some((kind, count)), texts) == seq![None::<Seq<char>>],
        count != 1 ==> echo_reply(Some((EmptyKind::AutoSpoke, count)), texts) == seq![
            Some("没能听清，请换个说法或说得慢一些。"@),
            None::<Seq<char>>,
        ],
        echo_reply(None, texts).len() == texts.len() + 1,
        forall|i: int| 0 <= i < texts.len() ==> #[trigger] echo_reply(None, texts)[i] == Some(texts[i]),
        echo_reply(None, texts).last() is None,
{
    lemma_gentle_only_first(count);
}

impl Echo {
    /// The reply stream for one request: `empty` describes an empty
    /// utterance, `last_texts` are the text parts of the last message.
    pub fn reply(&self, empty: Option<(EmptyKind, u32)>, last_texts: &[String]) -> (r: Vec<EchoEvent>)
        ensures
            r@.map_values(|e: EchoEvent| event_view(e)) == echo_reply(
                empty,
                last_texts@.map_values(|s: String| s@),
            ),
            forall|i: int| 0 <= i < r@.len() ==> (#[trigger] r@[i] matches EchoEvent::Final { prompt_tokens, total_tokens } ==> prompt_tokens == 0 && total_tokens == 0),
    {
        let mut out: Vec<EchoEvent> = Vec::new();
        match empty {
            Some((kind, count)) => {
                match empty_prompt(kind, count) {
                    Some(prompt) => {
                        out.push(EchoEvent::Text(prompt.to_owned()));
                    },
                    None => {},
                }
                out.push(EchoEvent::Final { prompt_tokens: 0, total_tokens: 0 });
                proof {
                    let v = out@.map_values(|e: EchoEvent| event_view(e));
                    assert(v =~= echo_reply(empty, last_texts@.map_values(|s: String| s@)));
                }
                return out;
            },
            None => {},
        }
        let mut i: usize = 0;
        while i < last_texts.len()
            invariant
                i <= last_texts@.len(),
                out@.len() == i,
                forall|j: int| 0 <= j < i ==> #[trigger] out@[j] == EchoEvent::Text(last_texts@[j]),
            decreases last_texts@.len() - i,
        {
            out.push(EchoEvent::Text(last_texts[i].clone()));
            i += 1;
        }
        out.push(EchoEvent::Final { prompt_tokens: 0, total_tokens: 0 });
        proof {
            let v = out@.map_values(|e: EchoEvent| event_view(e));
            assert(v =~= echo_reply(empty, last_texts@.map_values(|s: String| s@)));
        }
        out
    }
}
} // verus!
