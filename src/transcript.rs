use vstd::prelude::*;
use vstd::string::StringExecFns;
use crate::item::Item;
use crate::seed::{is_seed, is_seed_message};
use crate::sessions::is_user_message;

verus! {

/// The fragments of a message run together.
pub open spec fn concat_texts(ts: Seq<String>) -> Seq<char>
    decreases ts.len(),
{
    if ts.len() == 0 {
        Seq::empty()
    } else {
        concat_texts(ts.drop_last()) + ts.last()@
    }
}

/// The transcript line of one record: `user: ...` or `assistant: ...` for a
/// non-empty message of those roles that is not a seed.
pub open spec fn chat_line(it: Item) -> Option<Seq<char>> {
    match it {
        Item::Message { role: Some(r), texts } => {
            let buf = concat_texts(texts@);
            if buf.len() == 0 {
                None
            } else if r@ == "user"@ {
                if is_seed(buf) {
                    None
                } else {
                    Some("user: "@ + buf)
                }
            } else if r@ == "assistant"@ {
                Some("assistant: "@ + buf)
            } else {
                None
            }
        },
        _ => None,
    }
}

/// The transcript lines of a list of records, in order.
pub open spec fn chat_lines(items: Seq<Item>) -> Seq<Seq<char>>
    decreases items.len(),
{
    if items.len() == 0 {
        Seq::empty()
    } else {
        match chat_line(items.last()) {
            Some(l) => chat_lines(items.drop_last()).push(l),
            None => chat_lines(items.drop_last()),
        }
    }
}

fn concat_message(ts: &Vec<String>) -> (r: String)
    ensures
        r@ == concat_texts(ts@),
{
    let mut out = String::new();
    let mut i: usize = 0;
    while i < ts.len()
        invariant
            i <= ts@.len(),
            out@ == concat_texts(ts@.take(i as int)),
        decreases ts@.len() - i,
    {
        assert(ts@.take(i + 1).drop_last() =~= ts@.take(i as int));
        out.append(ts[i].as_str());
        i = i + 1;
    }
    assert(ts@.take(i as int) =~= ts@);
    out
}

fn chat_line_of(it: &Item) -> (r: Option<String>)
    ensures
        (r is Some) == (chat_line(*it) is Some),
        r is Some ==> r->Some_0@ == chat_line(*it)->Some_0,
{
    match it {
        Item::Message { role: Some(r), texts } => {
            let buf = concat_message(texts);
            if buf.as_str().is_empty() {
                return None;
            }
            let user = String::from_str("user");
            let assistant = String::from_str("assistant");
            if *r == user {
                if is_seed_message(buf.as_str()) {
                    None
                } else {
                    let mut line = String::from_str("user: ");
                    line.append(buf.as_str());
                    Some(line)
                }
            } else if *r == assistant {
                let mut line = String::from_str("assistant: ");
                line.append(buf.as_str());
                Some(line)
            } else {
                None
            }
        },
        _ => None,
    }
}

/// Plain `user: ...` / `assistant: ...` lines for the messages of a
/// transcript, skipping empty messages, other roles, and seed messages.
pub fn render_user_assistant_lines(items: &[Item]) -> (r: Vec<String>)
    ensures
        r@.map_values(|s: String| s@) == chat_lines(items@),
{
    let mut out: Vec<String> = Vec::new();
    let mut i: usize = 0;
    while i < items.len()
        invariant
            i <= items@.len(),
            out@.map_values(|s: String| s@) == chat_lines(items@.take(i as int)),
        decreases items@.len() - i,
    {
        assert(items@.take(i + 1).drop_last() =~= items@.take(i as int));
        match chat_line_of(&items[i]) {
            Some(l) => {
                out.push(l);
                assert(out@.map_values(|s: String| s@) =~= chat_lines(items@.take(i as int)).push(
                    chat_line(items@[i as int])->Some_0,
                ));
            },
            None => {},
        }
        i = i + 1;
    }
    assert(items@.take(i as int) =~= items@);
    out
}

/// Whether a transcript holds at least one message from the user.
pub fn has_user_messages(items: &[Item]) -> (r: bool)
    ensures
        r == exists|i: int| 0 <= i < items@.len() && is_user_message(#[trigger] items@[i]),
{
    let user = String::from_str("user");
    let mut i: usize = 0;
    while i < items.len()
        invariant
            i <= items@.len(),
            user@ == "user"@,
            forall|k: int| 0 <= k < i ==> !is_user_message(#[trigger] items@[k]),
        decreases items@.len() - i,
    {
        match &items[i] {
            Item::Message { role: Some(r), .. } => {
                if *r == user {
                    assert(is_user_message(items@[i as int]));
                    return true;
                }
            },
            _ => {},
        }
        i = i + 1;
    }
    false
}

} // verus!
