//! The one-line text form of a pending filesystem tree, as used in error
//! messages: folders list their entries as `[name tree, ...]`, an unchanged
//! folder is `[empty]`, and a file shows its length in bytes as `(n)`, or
//! `()` when it is unchanged.
use vstd::prelude::*;

use crate::pending::{chars_to_string, str_chars, BrPendingFs};
use crate::pending_size::{items_size, lemma_items_size_elem, node_size};

verus! {

/// The decimal digit for `d` (below 10).
pub open spec fn digit_of(d: nat) -> char {
    if d == 0 {
        '0'
    } else if d == 1 {
        '1'
    } else if d == 2 {
        '2'
    } else if d == 3 {
        '3'
    } else if d == 4 {
        '4'
    } else if d == 5 {
        '5'
    } else if d == 6 {
        '6'
    } else if d == 7 {
        '7'
    } else if d == 8 {
        '8'
    } else {
        '9'
    }
}

/// `n` written in decimal, without leading zeros.
pub open spec fn decimal(n: nat) -> Seq<char>
    decreases n,
{
    if n < 10 {
        seq![digit_of(n)]
    } else {
        decimal(n / 10) + seq![digit_of(n % 10)]
    }
}

/// The text form of a tree.
pub open spec fn render(fs: BrPendingFs) -> Seq<char>
    decreases fs,
{
    match fs {
        BrPendingFs::Root(items) => seq!['['] + render_items(items@) + seq![']'],
        BrPendingFs::Folder(Some(items)) => seq!['['] + render_items(items@) + seq![']'],
        BrPendingFs::Folder(None) => seq!['[', 'e', 'm', 'p', 't', 'y', ']'],
        BrPendingFs::File(Some(content)) => seq!['('] + decimal(content@.len()) + seq![')'],
        BrPendingFs::File(None) => seq!['(', ')'],
    }
}

/// The entries of a folder, each as its name, a space and its tree, joined
/// by ", ".
pub open spec fn render_items(items: Seq<(String, BrPendingFs)>) -> Seq<char>
    decreases items,
{
    if items.len() == 0 {
        seq![]
    } else if items.len() == 1 {
        items[0].0@ + seq![' '] + render(items[0].1)
    } else {
        render_items(items.drop_last()) + seq![',', ' '] + items.last().0@ + seq![' '] + render(
            items.last().1,
        )
    }
}

fn digit_char(d: usize) -> (c: char)
    requires
        d < 10,
    ensures
        c == digit_of(d as nat),
{
    if d == 0 {
        '0'
    } else if d == 1 {
        '1'
    } else if d == 2 {
        '2'
    } else if d == 3 {
        '3'
    } else if d == 4 {
        '4'
    } else if d == 5 {
        '5'
    } else if d == 6 {
        '6'
    } else if d == 7 {
        '7'
    } else if d == 8 {
        '8'
    } else {
        '9'
    }
}

/// Appends `n` in decimal to `out`.
pub fn push_decimal(out: &mut Vec<char>, n: usize)
    ensures
        final(out)@ == old(out)@ + decimal(n as nat),
    decreases n,
{
    if n >= 10 {
        push_decimal(out, n / 10);
    }
    out.push(digit_char(n % 10));
    assert(final(out)@ =~= old(out)@ + decimal(n as nat));
}

fn push_chars(out: &mut Vec<char>, s: &str)
    ensures
        final(out)@ == old(out)@ + s@,
{
    let cs = str_chars(s);
    let mut i: usize = 0;
    let ghost base = out@;
    while i < cs.len()
        invariant
            0 <= i <= cs@.len(),
            cs@ == s@,
            out@ == base + cs@.take(i as int),
        decreases cs@.len() - i,
    {
        out.push(cs[i]);
        i = i + 1;
        assert(out@ =~= base + cs@.take(i as int));
    }
    assert(cs@.take(cs@.len() as int) =~= cs@);
}

fn render_items_into(items: &Vec<(String, BrPendingFs)>, out: &mut Vec<char>)
    ensures
        final(out)@ == old(out)@ + render_items(items@),
    decreases items_size(items@), 1nat,
{
    let ghost base = out@;
    let mut i: usize = 0;
    while i < items.len()
        invariant
            0 <= i <= items@.len(),
            out@ == base + render_items(items@.take(i as int)),
        decreases items@.len() - i,
    {
        let ghost before = out@;
        if i > 0 {
            out.push(',');
            out.push(' ');
        }
        push_chars(out, items[i].0.as_str());
        out.push(' ');
        proof {
            lemma_items_size_elem(items@, i as int);
        }
        render_into(&items[i].1, out);
        proof {
            let t = items@.take(i + 1);
            assert(t.drop_last() =~= items@.take(i as int));
            assert(t.last() == items@[i as int]);
            if i == 0 {
                assert(out@ =~= base + render_items(t));
            } else {
                assert(out@ =~= base + render_items(t));
            }
        }
        i = i + 1;
    }
    assert(items@.take(items@.len() as int) =~= items@);
}

/// Appends the text form of `fs` to `out`.
fn render_into(fs: &BrPendingFs, out: &mut Vec<char>)
    ensures
        final(out)@ == old(out)@ + render(*fs),
    decreases node_size(*fs), 0nat,
{
    let ghost base = out@;
    match fs {
        BrPendingFs::Root(items) => {
            out.push('[');
            render_items_into(items, out);
            out.push(']');
        },
        BrPendingFs::Folder(Some(items)) => {
            out.push('[');
            render_items_into(items, out);
            out.push(']');
        },
        BrPendingFs::Folder(None) => {
            push_chars(out, "[empty]");
            proof {
                reveal_strlit("[empty]");
            }
        },
        BrPendingFs::File(Some(content)) => {
            out.push('(');
            push_decimal(out, content.len());
            out.push(')');
        },
        BrPendingFs::File(None) => {
            out.push('(');
            out.push(')');
        },
    }
    assert(out@ =~= base + render(*fs));
}

impl BrPendingFs {
    /// The text form of this tree (see [`render`]).
    pub fn to_string(&self) -> (s: String)
        ensures
            s@ == render(*self),
    {
        let mut out: Vec<char> = Vec::new();
        render_into(self, &mut out);
        assert(out@ =~= render(*self));
        chars_to_string(&out)
    }
}

} // verus!
