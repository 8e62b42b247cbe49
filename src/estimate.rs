use vstd::prelude::*;
use crate::item::{Item, item_chars, opt_len, text_len};

verus! {

/// Total replayable characters of a sequence of items.
pub open spec fn chars_of(items: Seq<Item>) -> nat
    decreases items.len(),
{
    if items.len() == 0 {
        0
    } else {
        chars_of(items.drop_last()) + item_chars(items.last())
    }
}

/// Ceiling of a quarter.
pub open spec fn quarter_up(c: nat) -> nat {
    (c + 3) / 4
}

/// Estimated token cost of a sequence of items: a quarter of its characters,
/// rounded up.
pub open spec fn estimate(items: Seq<Item>) -> nat {
    quarter_up(chars_of(items))
}

pub proof fn lemma_text_len_append(a: Seq<String>, b: Seq<String>)
    ensures
        text_len(a + b) == text_len(a) + text_len(b),
    decreases b.len(),
{
    if b.len() == 0 {
        assert(a + b =~= a);
    } else {
        assert((a + b).drop_last() =~= a + b.drop_last());
        lemma_text_len_append(a, b.drop_last());
    }
}

pub proof fn lemma_chars_append(a: Seq<Item>, b: Seq<Item>)
    ensures
        chars_of(a + b) == chars_of(a) + chars_of(b),
    decreases b.len(),
{
    if b.len() == 0 {
        assert(a + b =~= a);
    } else {
        assert((a + b).drop_last() =~= a + b.drop_last());
        lemma_chars_append(a, b.drop_last());
    }
}

/// The characters of a sub-range never exceed those of the whole.
pub proof fn lemma_chars_subrange(items: Seq<Item>, s: int, e: int)
    requires
        0 <= s <= e <= items.len(),
    ensures
        chars_of(items.subrange(s, e)) <= chars_of(items),
{
    let a = items.subrange(0, s);
    let b = items.subrange(s, e);
    let c = items.subrange(e, items.len() as int);
    assert(items =~= a + b + c);
    lemma_chars_append(a + b, c);
    lemma_chars_append(a, b);
}

/// Splitting a range at `m` splits its characters.
pub proof fn lemma_chars_split(items: Seq<Item>, s: int, m: int, e: int)
    requires
        0 <= s <= m <= e <= items.len(),
    ensures
        chars_of(items.subrange(s, e)) == chars_of(items.subrange(s, m)) + chars_of(
            items.subrange(m, e),
        ),
{
    assert(items.subrange(s, e) =~= items.subrange(s, m) + items.subrange(m, e));
    lemma_chars_append(items.subrange(s, m), items.subrange(m, e));
}

/// Estimating a longer prefix of a fixed item list never gives less.
pub proof fn lemma_estimate_prefix_monotone(items: Seq<Item>, n: int, m: int)
    requires
        0 <= n <= m <= items.len(),
    ensures
        estimate(items.take(n)) <= estimate(items.take(m)),
{
    lemma_chars_split(items, 0, n, m);
    assert(items.take(n) =~= items.subrange(0, n));
    assert(items.take(m) =~= items.subrange(0, m));
}

/// Extending a range to the right never lowers its estimate.
pub proof fn lemma_estimate_extend(items: Seq<Item>, s: int, e: int, f: int)
    requires
        0 <= s <= e <= f <= items.len(),
    ensures
        estimate(items.subrange(s, e)) <= estimate(items.subrange(s, f)),
{
    lemma_chars_split(items, s, e, f);
}

/// Characters of a sequence of strings, or `None` when they do not fit in `usize`.
fn texts_chars(ts: &Vec<String>) -> (r: Option<usize>)
    ensures
        r == (if text_len(ts@) <= usize::MAX { Some(text_len(ts@) as usize) } else { None }),
{
    let mut acc: usize = 0;
    let mut i: usize = 0;
    while i < ts.len()
        invariant
            i <= ts@.len(),
            acc == text_len(ts@.take(i as int)),
        decreases ts@.len() - i,
    {
        proof {
            assert(ts@.take(i + 1).drop_last() =~= ts@.take(i as int));
            lemma_text_len_append(ts@.take(i + 1), ts@.skip(i + 1));
            assert(ts@ =~= ts@.take(i + 1) + ts@.skip(i + 1));
        }
        let c = ts[i].as_str().unicode_len();
        if c > usize::MAX - acc {
            return None;
        }
        acc = acc + c;
        i = i + 1;
    }
    assert(ts@.take(i as int) =~= ts@);
    Some(acc)
}

fn opt_chars(s: &Option<String>) -> (r: usize)
    ensures
        r == opt_len(*s),
{
    match s {
        Some(t) => t.as_str().unicode_len(),
        None => 0,
    }
}

/// Replayable characters of one item, or `None` when they do not fit in `usize`.
pub fn item_char_count(it: &Item) -> (r: Option<usize>)
    ensures
        r == (if item_chars(*it) <= usize::MAX { Some(item_chars(*it) as usize) } else { None }),
{
    match it {
        Item::Message { texts, .. } => texts_chars(texts),
        Item::FunctionCall { name, arguments } => {
            let a = opt_chars(name);
            let b = opt_chars(arguments);
            if b > usize::MAX - a {
                None
            } else {
                Some(a + b)
            }
        },
        Item::FunctionCallOutput { fragments, output_text } => match fragments {
            Some(f) => texts_chars(f),
            None => Some(opt_chars(output_text)),
        },
        _ => Some(0),
    }
}

/// Replayable characters of `items[start..end]`.
pub fn range_chars(items: &[Item], start: usize, end: usize) -> (r: usize)
    requires
        start <= end <= items@.len(),
        chars_of(items@) <= usize::MAX,
    ensures
        r == chars_of(items@.subrange(start as int, end as int)),
{
    proof {
        lemma_chars_subrange(items@, start as int, end as int);
    }
    let mut acc: usize = 0;
    let mut i: usize = start;
    while i < end
        invariant
            start <= i <= end <= items@.len(),
            acc == chars_of(items@.subrange(start as int, i as int)),
            chars_of(items@.subrange(start as int, end as int)) <= usize::MAX,
        decreases end - i,
    {
        proof {
            assert(items@.subrange(start as int, i + 1).drop_last() =~= items@.subrange(
                start as int,
                i as int,
            ));
            lemma_chars_split(items@, start as int, i + 1, end as int);
        }
        let c = match item_char_count(&items[i]) {
            Some(c) => c,
            None => 0,
        };
        acc = acc + c;
        i = i + 1;
    }
    acc
}

/// A quarter of `c`, rounded up.
pub fn quarter_ceil(c: usize) -> (r: usize)
    ensures
        r == quarter_up(c as nat),
{
    if c % 4 == 0 {
        c / 4
    } else {
        c / 4 + 1
    }
}

/// Estimated token cost of `items[start..end]`.
pub fn estimate_range(items: &[Item], start: usize, end: usize) -> (r: usize)
    requires
        start <= end <= items@.len(),
        chars_of(items@) <= usize::MAX,
    ensures
        r == estimate(items@.subrange(start as int, end as int)),
{
    quarter_ceil(range_chars(items, start, end))
}

/// Approximate token count of a list of items: total replayable characters
/// divided by four, rounded up.
pub fn approximate_tokens(items: &[Item]) -> (r: usize)
    requires
        chars_of(items@) <= usize::MAX,
    ensures
        r == estimate(items@),
{
    assert(items@.subrange(0, items@.len() as int) =~= items@);
    estimate_range(items, 0, items.len())
}

/// Whether the total replayable text of `items` can be counted in a `usize`.
pub fn fits_in_count(items: &[Item]) -> (r: bool)
    ensures
        r == (chars_of(items@) <= usize::MAX),
{
    let mut acc: usize = 0;
    let mut i: usize = 0;
    while i < items.len()
        invariant
            i <= items@.len(),
            acc == chars_of(items@.take(i as int)),
        decreases items@.len() - i,
    {
        assert(items@.take(i + 1).drop_last() =~= items@.take(i as int));
        let c = match item_char_count(&items[i]) {
            Some(c) => c,
            None => {
                proof {
                    lemma_chars_split(items@, 0, i as int, i + 1);
                    lemma_chars_subrange(items@, 0, i + 1);
                    assert(items@.subrange(i as int, i + 1) =~= seq![items@[i as int]]);
                    assert(seq![items@[i as int]].drop_last() =~= Seq::<Item>::empty());
                }
                return false;
            },
        };
        if c > usize::MAX - acc {
            proof {
                lemma_chars_subrange(items@, 0, i + 1);
                assert(items@.take(i + 1) =~= items@.subrange(0, i + 1));
            }
            return false;
        }
        acc = acc + c;
        i = i + 1;
    }
    assert(items@.take(i as int) =~= items@);
    true
}

} // verus!
