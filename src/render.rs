use vstd::prelude::*;
use vstd::string::StringExecFns;
use crate::item::Item;

verus! {

/// Each string followed by a newline, all concatenated.
pub open spec fn lines_of(ts: Seq<String>) -> Seq<char>
    decreases ts.len(),
{
    if ts.len() == 0 {
        Seq::empty()
    } else {
        lines_of(ts.drop_last()) + ts.last()@ + "\n"@
    }
}

pub open spec fn text_or(s: Option<String>, default: Seq<char>) -> Seq<char> {
    match s {
        Some(t) => t@,
        None => default,
    }
}

/// The text an item contributes to a replay payload.
pub open spec fn item_body(it: Item) -> Seq<char> {
    match it {
        Item::Message { texts, .. } => lines_of(texts@),
        Item::FunctionCall { name, arguments } => "[tool:"@ + text_or(name, "tool"@) + "] "@
            + text_or(arguments, "{}"@) + "\n"@,
        Item::FunctionCallOutput { fragments, output_text } => match fragments {
            Some(f) => lines_of(f@),
            None => match output_text {
                Some(t) => t@ + "\n"@,
                None => Seq::empty(),
            },
        },
        _ => Seq::empty(),
    }
}

/// The text a sequence of items contributes to a replay payload.
pub open spec fn body_of(items: Seq<Item>) -> Seq<char>
    decreases items.len(),
{
    if items.len() == 0 {
        Seq::empty()
    } else {
        body_of(items.drop_last()) + item_body(items.last())
    }
}

fn push_lines(out: &mut String, ts: &Vec<String>)
    ensures
        final(out)@ == old(out)@ + lines_of(ts@),
{
    let mut i: usize = 0;
    while i < ts.len()
        invariant
            i <= ts@.len(),
            out@ == old(out)@ + lines_of(ts@.take(i as int)),
        decreases ts@.len() - i,
    {
        assert(ts@.take(i + 1).drop_last() =~= ts@.take(i as int));
        out.append(ts[i].as_str());
        out.append("\n");
        assert(out@ =~= old(out)@ + lines_of(ts@.take(i + 1)));
        i = i + 1;
    }
    assert(ts@.take(i as int) =~= ts@);
}

fn push_text_or(out: &mut String, s: &Option<String>, default: &str)
    ensures
        final(out)@ == old(out)@ + text_or(*s, default@),
{
    match s {
        Some(t) => out.append(t.as_str()),
        None => out.append(default),
    }
}

/// Appends the payload text of one item.
pub fn push_item_body(out: &mut String, it: &Item)
    ensures
        final(out)@ == old(out)@ + item_body(*it),
{
    match it {
        Item::Message { texts, .. } => push_lines(out, texts),
        Item::FunctionCall { name, arguments } => {
            out.append("[tool:");
            push_text_or(out, name, "tool");
            out.append("] ");
            push_text_or(out, arguments, "{}");
            out.append("\n");
            assert(out@ =~= old(out)@ + item_body(*it));
        },
        Item::FunctionCallOutput { fragments, output_text } => match fragments {
            Some(f) => push_lines(out, f),
            None => match output_text {
                Some(t) => {
                    out.append(t.as_str());
                    out.append("\n");
                    assert(out@ =~= old(out)@ + item_body(*it));
                },
                None => {
                    assert(out@ =~= old(out)@ + item_body(*it));
                },
            },
        },
        _ => {
            assert(out@ =~= old(out)@ + item_body(*it));
        },
    }
}

/// The payload text of `items[start..end]`.
pub fn render_range(items: &[Item], start: usize, end: usize) -> (r: String)
    requires
        start <= end <= items@.len(),
    ensures
        r@ == body_of(items@.subrange(start as int, end as int)),
{
    let mut out = String::new();
    let mut i: usize = start;
    while i < end
        invariant
            start <= i <= end <= items@.len(),
            out@ == body_of(items@.subrange(start as int, i as int)),
        decreases end - i,
    {
        assert(items@.subrange(start as int, i + 1).drop_last() =~= items@.subrange(
            start as int,
            i as int,
        ));
        push_item_body(&mut out, &items[i]);
        i = i + 1;
    }
    out
}

} // verus!
