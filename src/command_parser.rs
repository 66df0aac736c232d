//! Splits the commands that a host writes to the radio into lines: each command
//! ends with `\r\n`, and a line holds at most `LINE_CAPACITY` bytes.
use vstd::prelude::*;

use crate::read_replies::{ends_with_line_end, first_index_of};

verus! {

/// The most bytes that a line may take before its line feed.
pub const LINE_CAPACITY: usize = 1024;

/// Why a line is not a command.
#[derive(Clone, Copy, Debug, PartialEq, Eq, Structural)]
pub enum CommandsError {
    /// No line feed within `LINE_CAPACITY` bytes.
    LineTooLong,
    /// The line ends with a line feed that no carriage return precedes.
    IncorrectLineEnding,
}

/// How many bytes the next call of `next` consumes from `rest`, and what it returns.
pub open spec fn next_command(rest: Seq<u8>) -> (nat, Option<Result<Seq<u8>, CommandsError>>) {
    let i = first_index_of(rest, 0x0A);
    if i < rest.len() && i < LINE_CAPACITY {
        let line = rest.subrange(0, i as int + 1);
        if ends_with_line_end(line) {
            (i + 1, Some(Ok(line.subrange(0, line.len() - 2))))
        } else {
            (i + 1, Some(Err(CommandsError::IncorrectLineEnding)))
        }
    } else if rest.len() >= LINE_CAPACITY {
        (LINE_CAPACITY as nat, Some(Err(CommandsError::LineTooLong)))
    } else {
        (0, None)
    }
}

/// The result of `next` as values.
pub open spec fn command_value(r: Option<Result<Vec<u8>, CommandsError>>) -> Option<Result<Seq<u8>, CommandsError>> {
    match r {
        None => None,
        Some(Ok(line)) => Some(Ok(line@)),
        Some(Err(e)) => Some(Err(e)),
    }
}

/// The commands in a stream of bytes, one line at a time.
pub struct Commands {
    data: Vec<u8>,
    position: usize,
}

impl Commands {
    /// The bytes not yet split off.
    pub closed spec fn rest(&self) -> Seq<u8> {
        self.data@.subrange(self.position as int, self.data@.len() as int)
    }

    pub closed spec fn wf(&self) -> bool {
        self.position <= self.data@.len()
    }

    /// The commands in `reader`.
    pub fn in_stream(reader: &[u8]) -> (r: Commands)
        ensures
            r.wf(),
            r.rest() == reader@,
    {
        let r = Commands { data: vstd::slice::slice_to_vec(reader), position: 0 };
        assert(r.rest() =~= reader@);
        r
    }

    /// Appends bytes that arrived after the ones given so far.
    pub fn push_bytes(&mut self, data: &[u8])
        requires
            old(self).wf(),
        ensures
            final(self).wf(),
            final(self).rest() == old(self).rest() + data@,
    {
        let mut kept = vstd::slice::slice_to_vec(
            vstd::slice::slice_subrange(self.data.as_slice(), self.position, self.data.len()),
        );
        let mut more = vstd::slice::slice_to_vec(data);
        kept.append(&mut more);
        self.data = kept;
        self.position = 0;
        assert(self.rest() =~= old(self).rest() + data@);
    }

    /// How many bytes are not yet split off.
    pub fn buffered(&self) -> (r: usize)
        requires
            self.wf(),
        ensures
            r == self.rest().len(),
    {
        self.data.len() - self.position
    }

    /// Splits off the next `count` bytes as they are, if that many are buffered:
    /// the payload that follows an `AT+SEND` command.
    pub fn take_bytes(&mut self, count: usize) -> (r: Option<Vec<u8>>)
        requires
            old(self).wf(),
        ensures
            final(self).wf(),
            count <= old(self).rest().len() ==> (r matches Some(bytes) && bytes@ == old(
                self,
            ).rest().subrange(0, count as int) && final(self).rest() == old(self).rest().subrange(
                count as int,
                old(self).rest().len() as int,
            )),
            count > old(self).rest().len() ==> r is None && final(self).rest() == old(self).rest(),
    {
        if count > self.data.len() - self.position {
            return None;
        }
        let end = self.position + count;
        let bytes = vstd::slice::slice_to_vec(
            vstd::slice::slice_subrange(self.data.as_slice(), self.position, end),
        );
        let ghost rest = self.rest();
        self.position = end;
        assert(bytes@ =~= rest.subrange(0, count as int));
        assert(self.rest() =~= rest.subrange(count as int, rest.len() as int));
        Some(bytes)
    }

    /// The next command without its `\r\n`, an error for a line that is not a
    /// command, or `None` when no complete line is left.
    pub fn next(&mut self) -> (r: Option<Result<Vec<u8>, CommandsError>>)
        requires
            old(self).wf(),
        ensures
            final(self).wf(),
            command_value(r) == next_command(old(self).rest()).1,
            final(self).rest() == old(self).rest().subrange(
                next_command(old(self).rest()).0 as int,
                old(self).rest().len() as int,
            ),
    {
        let ghost rest = self.rest();
        let start = self.position;
        let end = self.data.len();
        let mut i: usize = start;
        while i < end && i - start < LINE_CAPACITY && self.data[i] != 0x0A
            invariant
                start <= i <= end,
                end == self.data@.len(),
                rest == self.data@.subrange(start as int, end as int),
                i - start <= LINE_CAPACITY,
                forall|k: int| start <= k < i ==> #[trigger] self.data@[k] != 0x0A,
            decreases end - i,
        {
            i = i + 1;
        }
        proof {
            lemma_first_index_bound(rest, 0x0A, (i - start) as nat);
        }
        if i < end && i - start < LINE_CAPACITY {
            let line = vstd::slice::slice_subrange(self.data.as_slice(), start, i + 1);
            assert(line@ =~= rest.subrange(0, i - start + 1));
            self.position = i + 1;
            assert(self.rest() =~= rest.subrange(i - start + 1, rest.len() as int));
            if line.len() >= 2 && line[line.len() - 2] == 0x0D {
                assert(line@.subrange(line@.len() - 2, line@.len() as int) =~= seq![0x0Du8, 0x0Au8]);
                let text = vstd::slice::slice_subrange(line, 0, line.len() - 2);
                return Some(Ok(vstd::slice::slice_to_vec(text)));
            }
            assert(!ends_with_line_end(line@)) by {
                if ends_with_line_end(line@) {
                    assert(line@.subrange(line@.len() - 2, line@.len() as int)[0] == 0x0D);
                }
            }
            return Some(Err(CommandsError::IncorrectLineEnding));
        }
        if end - start >= LINE_CAPACITY {
            self.position = start + LINE_CAPACITY;
            assert(self.rest() =~= rest.subrange(LINE_CAPACITY as int, rest.len() as int));
            return Some(Err(CommandsError::LineTooLong));
        }
        assert(rest.subrange(0, rest.len() as int) =~= rest);
        None
    }
}

/// Where the scan for a line feed stopped: at the first one, or before it.
pub proof fn lemma_first_index_bound(s: Seq<u8>, d: u8, scanned: nat)
    requires
        scanned <= s.len(),
        forall|k: int| 0 <= k < scanned ==> #[trigger] s[k] != d,
    ensures
        first_index_of(s, d) >= scanned,
        scanned < s.len() && s[scanned as int] == d ==> first_index_of(s, d) == scanned,
        first_index_of(s, d) <= s.len(),
        first_index_of(s, d) < s.len() ==> s[first_index_of(s, d) as int] == d,
    decreases s.len(),
{
    if s.len() > 0 {
        if s[0] != d {
            assert forall|k: int| 0 <= k < (if scanned > 0 { scanned - 1 } else { 0 }) implies #[trigger] s.drop_first()[k] != d by {
                assert(s[k + 1] != d);
            }
            lemma_first_index_bound(s.drop_first(), d, if scanned > 0 { (scanned - 1) as nat } else { 0 });
            if scanned < s.len() && s[scanned as int] == d && scanned > 0 {
                assert(s.drop_first()[scanned - 1] == d);
            }
        }
    }
}

} // verus!
