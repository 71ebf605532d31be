//! Local chat history: the rows the history shows and the turns a thread
//! contributes to a new request.

use vstd::prelude::*;

use crate::text::str_eq;
use crate::types::ChatMessage;

verus! {

/// A conversation thread (summary row for the history sidebar).
#[derive(Debug, Clone)]
pub struct ThreadRow {
    pub id: String,
    pub title: String,
    pub created: i64,
    pub updated: i64,
}

/// Whether a stored message is a conversational turn (user or assistant).
pub open spec fn is_turn(m: ChatMessage) -> bool {
    m.role@ == "user"@ || m.role@ == "assistant"@
}

/// The conversational turns of a thread, in order.
pub open spec fn chat_turns(s: Seq<ChatMessage>) -> Seq<ChatMessage>
    decreases s.len(),
{
    if s.len() == 0 {
        Seq::empty()
    } else if is_turn(s.last()) {
        chat_turns(s.drop_last()).push(s.last())
    } else {
        chat_turns(s.drop_last())
    }
}

/// Prior turns of a thread as chat messages, for building request context.
pub fn history_as_chat(messages: &Vec<ChatMessage>) -> (r: Vec<ChatMessage>)
    ensures
        r@ == chat_turns(messages@),
{
    let mut out: Vec<ChatMessage> = Vec::new();
    let mut i: usize = 0;
    while i < messages.len()
        invariant
            i <= messages@.len(),
            out@ == chat_turns(messages@.take(i as int)),
        decreases messages@.len() - i,
    {
        proof {
            assert(messages@.take(i + 1).drop_last() =~= messages@.take(i as int));
        }
        let m = &messages[i];
        if str_eq(m.role.as_str(), "user") || str_eq(m.role.as_str(), "assistant") {
            out.push(ChatMessage { role: m.role.clone(), content: m.content.clone() });
        }
        i = i + 1;
    }
    assert(messages@.take(messages@.len() as int) =~= messages@);
    out
}

} // verus!
