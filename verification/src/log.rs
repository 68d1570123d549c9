//! Append-only message log: an ordered sequence of coloured text entries.
//! Rendering shows the most recent entries that fit a fixed visible height.
use vstd::prelude::*;

use crate::object::Color;

verus! {

/// One log entry: a line of text and the colour it is shown in.
pub struct Message {
    pub text: String,
    pub color: Color,
}

/// The append-only ordered log; entries are never rewritten or removed.
pub struct Messages {
    pub entries: Vec<Message>,
}

impl Messages {
    pub fn new() -> (m: Messages)
        ensures
            m.entries@.len() == 0,
    {
        Messages { entries: Vec::new() }
    }

    /// Appends one entry; everything already logged stays in place.
    pub fn add(&mut self, text: String, color: Color)
        ensures
            final(self).entries@ == old(self).entries@.push(Message { text, color }),
    {
        self.entries.push(Message { text, color });
    }

    pub fn len(&self) -> (n: usize)
        ensures
            n == self.entries@.len(),
    {
        self.entries.len()
    }

    pub fn get(&self, i: usize) -> (m: &Message)
        requires
            i < self.entries@.len(),
        ensures
            *m == self.entries@[i as int],
    {
        &self.entries[i]
    }

    /// Index of the first entry of the visible window: with `height` lines of
    /// room, the window holds the most recent entries, oldest first.
    pub fn window_start(&self, height: usize) -> (s: usize)
        ensures
            self.entries@.len() <= height ==> s == 0,
            self.entries@.len() > height ==> s == self.entries@.len() - height,
    {
        if self.entries.len() > height {
            self.entries.len() - height
        } else {
            0
        }
    }
}

/// Exactly `n` entries were appended: the old log is an unchanged prefix.
pub open spec fn appended(pre: Seq<Message>, post: Seq<Message>, n: int) -> bool {
    post.len() == pre.len() + n && post.subrange(0, pre.len() as int) == pre
}

/// The entry has exactly this text and colour.
pub open spec fn msg_is(m: Message, text: Seq<char>, color: Color) -> bool {
    m.text@ == text && m.color == color
}

/// The old log is an unchanged prefix of the new one: entries are only ever
/// appended, never rewritten or removed.
pub open spec fn append_only(pre: Seq<Message>, post: Seq<Message>) -> bool {
    post.len() >= pre.len() && post.subrange(0, pre.len() as int) == pre
}

/// Append-only growth composes across any sequence of operations.
pub proof fn lemma_append_only_trans(a: Seq<Message>, b: Seq<Message>, c: Seq<Message>)
    requires
        append_only(a, b),
        append_only(b, c),
    ensures
        append_only(a, c),
{
    assert forall|i: int| 0 <= i < a.len() implies c[i] == a[i] by {
        assert(b.subrange(0, a.len() as int)[i] == b[i]);
        assert(c.subrange(0, b.len() as int)[i] == c[i]);
    }
    assert(c.subrange(0, a.len() as int) =~= a);
}

/// Appending never rewrites what was already logged.
pub proof fn lemma_appended_index(pre: Seq<Message>, post: Seq<Message>, n: int)
    requires
        appended(pre, post, n),
        n >= 0,
    ensures
        forall|i: int| 0 <= i < pre.len() ==> post[i] == pre[i],
{
    assert forall|i: int| 0 <= i < pre.len() implies post[i] == pre[i] by {
        assert(post.subrange(0, pre.len() as int)[i] == post[i]);
    }
}

/// Two appends in a row are one larger append.
pub proof fn lemma_appended_trans(
    a: Seq<Message>,
    b: Seq<Message>,
    c: Seq<Message>,
    n1: int,
    n2: int,
)
    requires
        appended(a, b, n1),
        appended(b, c, n2),
        n1 >= 0,
        n2 >= 0,
    ensures
        appended(a, c, n1 + n2),
{
    lemma_appended_index(a, b, n1);
    lemma_appended_index(b, c, n2);
    assert(c.subrange(0, a.len() as int) =~= a);
}

} // verus!
