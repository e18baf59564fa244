//! The debug console of the guest firmware: bytes that come in one by one and go out line by
//! line.

use vstd::prelude::*;

verus! {

/// The byte that ends a line.
pub const NEWLINE: u8 = 10;

/// The complete lines among `held` and the bytes of `data` from index `i` on, and what is left
/// over.
pub open spec fn split_lines(held: Seq<u8>, data: Seq<u8>, i: nat) -> (Seq<Seq<u8>>, Seq<u8>)
    decreases data.len() - i,
{
    if i >= data.len() {
        (Seq::empty(), held)
    } else if data[i as int] == NEWLINE {
        let (lines, rest) = split_lines(Seq::empty(), data, i + 1);
        (seq![held] + lines, rest)
    } else {
        split_lines(held.push(data[i as int]), data, i + 1)
    }
}

/// The lines with their ends, and then what is left over.
pub open spec fn joined(lines: Seq<Seq<u8>>, rest: Seq<u8>) -> Seq<u8>
    decreases lines.len(),
{
    if lines.len() == 0 {
        rest
    } else {
        lines[0] + seq![NEWLINE] + joined(lines.drop_first(), rest)
    }
}

/// The bytes of each line.
pub open spec fn line_views(lines: Seq<Vec<u8>>) -> Seq<Seq<u8>> {
    lines.map_values(|line: Vec<u8>| line@)
}

/// What the console holds until the end of a line comes.
#[derive(Debug)]
pub struct DebugConsole {
    held: Vec<u8>,
}

impl View for DebugConsole {
    type V = Seq<u8>;

    closed spec fn view(&self) -> Seq<u8> {
        self.held@
    }
}

impl DebugConsole {
    /// A console that holds nothing.
    pub fn new() -> (c: DebugConsole)
        ensures
            c@ == Seq::<u8>::empty(),
    {
        DebugConsole { held: Vec::new() }
    }

    /// Takes bytes, and hands out the lines that they complete.
    pub fn write_bytes(&mut self, data: &[u8]) -> (lines: Vec<Vec<u8>>)
        ensures
            (line_views(lines@), final(self)@) == split_lines(old(self)@, data@, 0),
    {
        let mut lines: Vec<Vec<u8>> = Vec::new();
        let mut i: usize = 0;
        let ghost whole = split_lines(self@, data@, 0);
        assert(line_views(lines@) =~= Seq::empty());
        assert(whole.0 =~= line_views(lines@) + whole.0);
        while i < data.len()
            invariant
                i <= data@.len(),
                whole == split_lines(old(self)@, data@, 0),
                whole.0 == line_views(lines@) + split_lines(self@, data@, i as nat).0,
                whole.1 == split_lines(self@, data@, i as nat).1,
            decreases data@.len() - i,
        {
            if data[i] == NEWLINE {
                let mut line: Vec<u8> = Vec::new();
                core::mem::swap(&mut line, &mut self.held);
                let ghost before = line_views(lines@);
                let ghost done = line@;
                lines.push(line);
                proof {
                    let rest = split_lines(Seq::empty(), data@, (i + 1) as nat).0;
                    assert(line_views(lines@) =~= before.push(done));
                    assert(before + (seq![done] + rest) =~= before.push(done) + rest);
                }
            } else {
                self.held.push(data[i]);
            }
            i = i + 1;
        }
        assert(line_views(lines@) + Seq::<Seq<u8>>::empty() =~= line_views(lines@));
        lines
    }
}

/// No byte is lost: the lines that went out, with their ends, and what is left over are what was
/// held and then came in.
pub proof fn console_loses_nothing(held: Seq<u8>, data: Seq<u8>, i: nat)
    requires
        i <= data.len(),
    ensures
        joined(split_lines(held, data, i).0, split_lines(held, data, i).1) == held + data.skip(
            i as int,
        ),
    decreases data.len() - i,
{
    if i >= data.len() {
        assert(held + data.skip(i as int) =~= held);
    } else if data[i as int] == NEWLINE {
        console_loses_nothing(Seq::empty(), data, i + 1);
        let (lines, rest) = split_lines(Seq::empty(), data, i + 1);
        assert((seq![held] + lines).drop_first() =~= lines);
        assert(held + seq![NEWLINE] + (Seq::<u8>::empty() + data.skip(i as int + 1)) =~= held + data.skip(
            i as int,
        ));
    } else {
        console_loses_nothing(held.push(data[i as int]), data, i + 1);
        assert(held.push(data[i as int]) + data.skip(i as int + 1) =~= held + data.skip(i as int));
    }
}

/// No line that goes out holds the end of a line, and what is left over does not either, where
/// what was held did not.
pub proof fn lines_hold_no_line_end(held: Seq<u8>, data: Seq<u8>, i: nat)
    requires
        !held.contains(NEWLINE),
    ensures
        !split_lines(held, data, i).1.contains(NEWLINE),
        forall|k: int|
            0 <= k < split_lines(held, data, i).0.len() ==> !(#[trigger] split_lines(
                held,
                data,
                i,
            ).0[k]).contains(NEWLINE),
    decreases data.len() - i,
{
    if i < data.len() {
        if data[i as int] == NEWLINE {
            lines_hold_no_line_end(Seq::empty(), data, i + 1);
            let rest = split_lines(Seq::empty(), data, i + 1).0;
            let lines = split_lines(held, data, i).0;
            assert forall|k: int| 0 <= k < lines.len() implies !(#[trigger] lines[k]).contains(
                NEWLINE,
            ) by {
                if k > 0 {
                    assert(lines[k] == rest[k - 1]);
                }
            }
        } else {
            assert forall|k: int| 0 <= k < held.push(data[i as int]).len() implies
                #[trigger] held.push(data[i as int])[k] != NEWLINE by {
                if k < held.len() {
                    assert(held.contains(held[k]));
                }
            }
            lines_hold_no_line_end(held.push(data[i as int]), data, i + 1);
        }
    }
}

/// How many of the first `n` bytes are line feeds.
pub open spec fn line_feeds(data: Seq<u8>, n: nat) -> nat
    decreases n,
{
    if n == 0 {
        0
    } else {
        line_feeds(data, (n - 1) as nat) + if data[n - 1] == 0x0a {
            1nat
        } else {
            0
        }
    }
}

/// A line goes out for each line feed that comes in, and for nothing else.
pub proof fn line_feeds_end_lines(held: Seq<u8>, data: Seq<u8>, i: nat)
    requires
        i <= data.len(),
    ensures
        split_lines(held, data, i).0.len() == line_feeds(data, data.len()) - line_feeds(data, i),
    decreases data.len() - i,
{
    if i < data.len() {
        line_feeds_end_lines(Seq::empty(), data, i + 1);
        line_feeds_end_lines(held.push(data[i as int]), data, i + 1);
    }
}

} // verus!
