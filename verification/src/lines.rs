//! The executor's line framing: bytes from a child process's output
//! stream arrive in chunks cut at arbitrary points, and the splitter
//! turns them into the lines the child wrote, in order, each line handed
//! out as soon as its newline has arrived. A line ends at a newline byte;
//! a carriage return directly before the newline is not part of the line.

use vstd::prelude::*;

verus! {

/// A line with a trailing carriage return taken off; any other line as
/// it is.
pub open spec fn strip_cr(line: Seq<u8>) -> Seq<u8> {
    if line.len() > 0 && line.last() == 13u8 {
        line.drop_last()
    } else {
        line
    }
}

/// The bytes after the last newline of a stream: the still-unterminated
/// line.
pub open spec fn pending_of(s: Seq<u8>) -> Seq<u8>
    decreases s.len(),
{
    if s.len() == 0 {
        Seq::empty()
    } else if s.last() == 10u8 {
        Seq::empty()
    } else {
        pending_of(s.drop_last()).push(s.last())
    }
}

/// The complete lines of a byte stream, in order: one line per newline
/// byte, each with its newline (and a carriage return directly before
/// it) taken off.
pub open spec fn lines_of(s: Seq<u8>) -> Seq<Seq<u8>>
    decreases s.len(),
{
    if s.len() == 0 {
        Seq::empty()
    } else if s.last() == 10u8 {
        lines_of(s.drop_last()).push(strip_cr(pending_of(s.drop_last())))
    } else {
        lines_of(s.drop_last())
    }
}

/// Whether a byte sequence holds no newline.
pub open spec fn newline_free(s: Seq<u8>) -> bool {
    forall|i: int| 0 <= i < s.len() ==> s[i] != 10u8
}

/// What a stream leaves unterminated holds no newline.
pub proof fn lemma_pending_newline_free(s: Seq<u8>)
    ensures
        newline_free(pending_of(s)),
    decreases s.len(),
{
    if s.len() > 0 && s.last() != 10u8 {
        lemma_pending_newline_free(s.drop_last());
    }
}

/// A newline-free stream completes no line and stays pending whole.
pub proof fn lemma_newline_free_lines(s: Seq<u8>)
    requires
        newline_free(s),
    ensures
        lines_of(s) == Seq::<Seq<u8>>::empty(),
        pending_of(s) == s,
    decreases s.len(),
{
    if s.len() > 0 {
        assert(s.last() != 10u8);
        lemma_newline_free_lines(s.drop_last());
        assert(pending_of(s) =~= s);
    }
}

/// Law: the recovered lines do not depend on where the byte stream is
/// cut into chunks. Processing `s` and then `more` from the pending rest
/// yields exactly the lines and the pending rest of the whole stream.
pub proof fn lemma_lines_chunking(s: Seq<u8>, more: Seq<u8>)
    ensures
        lines_of(s + more) == lines_of(s) + lines_of(pending_of(s) + more),
        pending_of(s + more) == pending_of(pending_of(s) + more),
    decreases more.len(),
{
    if more.len() == 0 {
        lemma_pending_newline_free(s);
        lemma_newline_free_lines(pending_of(s));
        assert(s + more =~= s);
        assert(pending_of(s) + more =~= pending_of(s));
        assert(lines_of(s) + lines_of(pending_of(s)) =~= lines_of(s));
    } else {
        lemma_lines_chunking(s, more.drop_last());
        let whole = s + more;
        let rest = pending_of(s) + more;
        assert(whole.drop_last() =~= s + more.drop_last());
        assert(rest.drop_last() =~= pending_of(s) + more.drop_last());
        assert(whole.last() == more.last());
        assert(rest.last() == more.last());
        if more.last() == 10u8 {
            assert(lines_of(whole) == lines_of(s) + lines_of(rest)) by {
                assert(lines_of(whole) == lines_of(whole.drop_last()).push(
                    strip_cr(pending_of(whole.drop_last())),
                ));
                assert(lines_of(rest) == lines_of(rest.drop_last()).push(
                    strip_cr(pending_of(rest.drop_last())),
                ));
                assert(lines_of(s) + lines_of(rest.drop_last()).push(
                    strip_cr(pending_of(rest.drop_last())),
                ) =~= (lines_of(s) + lines_of(rest.drop_last())).push(
                    strip_cr(pending_of(rest.drop_last())),
                ));
            }
        }
    }
}

/// Splits a byte stream into lines incrementally: chunks go in as they
/// arrive, complete lines come out at once, and the unterminated rest
/// waits for the next chunk.
pub struct LineSplitter {
    pending: Vec<u8>,
}

impl LineSplitter {
    /// The bytes of the still-unterminated line.
    pub closed spec fn pending_view(&self) -> Seq<u8> {
        self.pending@
    }

    /// A splitter is well formed when nothing it holds back contains a
    /// newline; every operation keeps it so.
    pub open spec fn wf(&self) -> bool {
        newline_free(self.pending_view())
    }

    /// A fresh splitter with nothing pending.
    pub fn new() -> (r: Self)
        ensures
            r.wf(),
            r.pending_view() == Seq::<u8>::empty(),
    {
        LineSplitter { pending: Vec::new() }
    }

    /// Feeds one chunk: returns exactly the lines the chunk completes,
    /// in order, and keeps the unterminated rest pending.
    pub fn push_chunk(&mut self, chunk: &[u8]) -> (r: Vec<Vec<u8>>)
        requires
            old(self).wf(),
        ensures
            final(self).wf(),
            r.deep_view() == lines_of(old(self).pending_view() + chunk@),
            final(self).pending_view() == pending_of(old(self).pending_view() + chunk@),
    {
        let ghost base = old(self).pending@;
        let mut out: Vec<Vec<u8>> = Vec::new();
        let mut j: usize = 0;
        proof {
            lemma_newline_free_lines(base);
            assert(base + chunk@.take(0) =~= base);
        }
        while j < chunk.len()
            invariant
                j <= chunk@.len(),
                newline_free(self.pending@),
                out.deep_view() == lines_of(base + chunk@.take(j as int)),
                self.pending@ == pending_of(base + chunk@.take(j as int)),
            decreases chunk@.len() - j,
        {
            let ghost processed = base + chunk@.take(j as int);
            let b = chunk[j];
            proof {
                assert(base + chunk@.take(j as int + 1) =~= processed.push(chunk@[j as int]));
                assert(processed.push(b).drop_last() =~= processed);
                assert(processed.push(b).last() == b);
            }
            if b == 10u8 {
                let ghost lines_before = out.deep_view();
                let mut line: Vec<u8> = Vec::new();
                core::mem::swap(&mut line, &mut self.pending);
                proof {
                    assert(line@ == pending_of(processed));
                    assert(self.pending@ == Seq::<u8>::empty());
                }
                if line.len() > 0 && line[line.len() - 1] == 13u8 {
                    line.pop();
                    proof {
                        assert(line@ == pending_of(processed).drop_last());
                    }
                }
                proof {
                    assert(line@ == strip_cr(pending_of(processed)));
                }
                out.push(line);
                proof {
                    assert(out.deep_view() =~~= lines_before.push(
                        strip_cr(pending_of(processed)),
                    ));
                }
            } else {
                self.pending.push(b);
            }
            j += 1;
        }
        proof {
            assert(base + chunk@.take(chunk@.len() as int) =~= base + chunk@);
        }
        out
    }

    /// Ends the stream: the bytes of an unterminated final line, if any
    /// are pending.
    pub fn finish(self) -> (r: Option<Vec<u8>>)
        ensures
            match r {
                Some(line) => self.pending_view().len() > 0 && line@ == self.pending_view(),
                None => self.pending_view().len() == 0,
            },
    {
        if self.pending.len() == 0 {
            None
        } else {
            Some(self.pending)
        }
    }
}

} // verus!
