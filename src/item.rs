use vstd::prelude::*;

verus! {

/// One record of a saved transcript, reduced to what replay reads.
pub enum Item {
    /// A chat message: its role and the text of each content fragment
    /// that carries text.
    Message { role: Option<String>, texts: Vec<String> },
    /// A reasoning note; it carries no replayable text.
    Reasoning,
    /// A tool invocation: its name and its arguments as serialized JSON text.
    FunctionCall { name: Option<String>, arguments: Option<String> },
    /// A tool result: the text of each output fragment when the output is an
    /// array, otherwise the single `output_text` string if there is one.
    FunctionCallOutput { fragments: Option<Vec<String>>, output_text: Option<String> },
    /// A local shell invocation; it carries no replayable text.
    LocalShellCall,
    /// A state snapshot, with the provider resume token it records, if any.
    State { provider_resume_token: Option<String> },
    /// Any other record (tool-event audit lines, unknown kinds).
    Other,
}

/// Sum of the character counts of a sequence of strings.
pub open spec fn text_len(ts: Seq<String>) -> nat
    decreases ts.len(),
{
    if ts.len() == 0 {
        0
    } else {
        text_len(ts.drop_last()) + ts.last()@.len()
    }
}

pub open spec fn opt_len(s: Option<String>) -> nat {
    match s {
        Some(t) => t@.len(),
        None => 0,
    }
}

/// Number of characters of replayable text that an item carries.
pub open spec fn item_chars(it: Item) -> nat {
    match it {
        Item::Message { texts, .. } => text_len(texts@),
        Item::FunctionCall { name, arguments } => opt_len(name) + opt_len(arguments),
        Item::FunctionCallOutput { fragments, output_text } => match fragments {
            Some(f) => text_len(f@),
            None => opt_len(output_text),
        },
        _ => 0,
    }
}

/// Whether an item is of a kind that may be replayed.
pub open spec fn is_replayable(it: Item) -> bool {
    match it {
        Item::Message { .. } | Item::Reasoning | Item::FunctionCall { .. }
        | Item::FunctionCallOutput { .. } | Item::LocalShellCall => true,
        _ => false,
    }
}

impl Item {
    /// Whether this item is of a kind that may be replayed.
    pub fn is_replayable(&self) -> (r: bool)
        ensures
            r == is_replayable(*self),
    {
        match self {
            Item::Message { .. } | Item::Reasoning | Item::FunctionCall { .. }
            | Item::FunctionCallOutput { .. } | Item::LocalShellCall => true,
            _ => false,
        }
    }
}

} // verus!
