//! Log output in the form that the installer shows: every line begins with a word that tells
//! it to.

use vstd::prelude::*;

verus! {

/// Who reads the log.
#[derive(Debug, Clone, Copy, PartialEq, Eq, Structural)]
pub enum LogMode {
    Magisk,
    Standard,
}

/// What every line begins with: `ui_print` and a space.
pub open spec fn line_prefix() -> Seq<u8> {
    seq![
        0x75u8,
        0x69u8,
        0x5fu8,
        0x70u8,
        0x72u8,
        0x69u8,
        0x6eu8,
        0x74u8,
        0x20u8,
    ]
}

/// What is written for some bytes: the bytes themselves, with the prefix before each that
/// begins a line. The flag tells whether the first of them does.
pub open spec fn marked(at_line_start: bool, buf: Seq<u8>) -> Seq<u8>
    decreases buf.len(),
{
    if buf.len() == 0 {
        Seq::empty()
    } else {
        let rest = buf.drop_last();
        marked(at_line_start, rest) + (if ends_line(at_line_start, rest) {
            line_prefix()
        } else {
            Seq::empty()
        }) + seq![buf.last()]
    }
}

/// What is written next begins a line.
pub open spec fn ends_line(at_line_start: bool, buf: Seq<u8>) -> bool {
    if buf.len() == 0 {
        at_line_start
    } else {
        buf.last() == 0x0a
    }
}

/// Marks the lines that go through it.
#[derive(Debug)]
pub struct MagiskLineWriter {
    at_line_start: bool,
}

/// Makes a writer for every log record.
#[derive(Debug, Clone, Copy, PartialEq, Eq, Structural)]
pub struct MagiskMakeWriter;

impl MagiskMakeWriter {
    /// A writer that nothing was written to yet.
    pub fn make_writer(&self) -> (r: MagiskLineWriter)
        ensures
            r@,
    {
        MagiskLineWriter::new()
    }
}

fn push_prefix(out: &mut Vec<u8>)
    ensures
        final(out)@ == old(out)@ + line_prefix(),
{
    out.push(0x75);
    out.push(0x69);
    out.push(0x5f);
    out.push(0x70);
    out.push(0x72);
    out.push(0x69);
    out.push(0x6e);
    out.push(0x74);
    out.push(0x20);
    assert(out@ =~= old(out)@ + line_prefix());
}

impl MagiskLineWriter {
    /// The next byte begins a line.
    pub closed spec fn view(&self) -> bool {
        self.at_line_start
    }

    /// Nothing was written yet.
    pub fn new() -> (r: Self)
        ensures
            r@,
    {
        Self { at_line_start: true }
    }

    /// What is to be passed on for some bytes. All of them are taken.
    pub fn write(&mut self, buf: &[u8]) -> (out: Vec<u8>)
        ensures
            out@ == marked(old(self)@, buf@),
            final(self)@ == ends_line(old(self)@, buf@),
    {
        let mut out: Vec<u8> = Vec::new();
        let mut i: usize = 0;
        assert(buf@.take(0) =~= Seq::empty());
        while i < buf.len()
            invariant
                i <= buf.len(),
                out@ == marked(old(self)@, buf@.take(i as int)),
                self.at_line_start == ends_line(old(self)@, buf@.take(i as int)),
            decreases buf.len() - i,
        {
            let ghost before = out@;
            let ghost started = self.at_line_start;
            if self.at_line_start {
                push_prefix(&mut out);
            }
            out.push(buf[i]);
            self.at_line_start = buf[i] == 0x0a;
            proof {
                let next = buf@.take(i + 1);
                assert(next.drop_last() =~= buf@.take(i as int));
                assert(out@ =~= before + (if started {
                    line_prefix()
                } else {
                    Seq::empty()
                }) + seq![buf@[i as int]]);
            }
            i = i + 1;
        }
        assert(buf@.take(i as int) =~= buf@);
        out
    }
}

/// It makes no difference whether bytes are written at once or in parts.
pub proof fn law_write_in_parts(at_line_start: bool, a: Seq<u8>, b: Seq<u8>)
    ensures
        marked(at_line_start, a + b) == marked(at_line_start, a) + marked(
            ends_line(at_line_start, a),
            b,
        ),
        ends_line(at_line_start, a + b) == ends_line(ends_line(at_line_start, a), b),
    decreases b.len(),
{
    if b.len() == 0 {
        assert(a + b =~= a);
        assert(marked(at_line_start, a) + Seq::<u8>::empty() =~= marked(at_line_start, a));
    } else {
        law_write_in_parts(at_line_start, a, b.drop_last());
        assert((a + b).drop_last() =~= a + b.drop_last());
        let mid = ends_line(at_line_start, a);
        let prefix = if ends_line(mid, b.drop_last()) {
            line_prefix()
        } else {
            Seq::empty()
        };
        assert(marked(at_line_start, a + b) =~= marked(at_line_start, a) + (marked(
            mid,
            b.drop_last(),
        ) + prefix + seq![b.last()]));
    }
}

/// A line that holds no line break is written as the prefix, the line and the line break, and
/// what follows begins a line again.
pub proof fn law_line_is_marked(line: Seq<u8>)
    requires
        forall|i: int| 0 <= i < line.len() ==> #[trigger] line[i] != 0x0a,
    ensures
        marked(true, line.push(0x0a)) == line_prefix() + line.push(0x0a),
        ends_line(true, line.push(0x0a)),
{
    let whole = line.push(0x0a);
    assert(whole.drop_last() =~= line);
    if line.len() == 0 {
        assert(marked(true, line) =~= Seq::empty());
        assert(ends_line(true, line));
        assert(marked(true, whole) =~= line_prefix() + whole);
    } else {
        lemma_inner(line);
        assert(marked(true, whole) =~= line_prefix() + whole);
    }
}

/// What goes on with a line that was begun is written as it is, and only what follows a line
/// break begins a line.
pub proof fn law_rest_of_line_is_unmarked(line: Seq<u8>)
    requires
        forall|i: int| 0 <= i < line.len() ==> #[trigger] line[i] != 0x0a,
    ensures
        marked(false, line) == line,
        !ends_line(false, line),
        marked(false, line.push(0x0a)) == line.push(0x0a),
        ends_line(false, line.push(0x0a)),
    decreases line.len(),
{
    if line.len() > 0 {
        let rest = line.drop_last();
        assert forall|i: int| 0 <= i < rest.len() implies #[trigger] rest[i] != 0x0a by {
            assert(rest[i] == line[i]);
        }
        law_rest_of_line_is_unmarked(rest);
        assert(rest.push(line.last()) =~= line);
        assert(rest + Seq::<u8>::empty() + seq![line.last()] =~= line);
    } else {
        assert(marked(false, line) =~= line);
    }
    let whole = line.push(0x0a);
    assert(whole.drop_last() =~= line);
    assert(line + Seq::<u8>::empty() + seq![0x0au8] =~= whole);
}

proof fn lemma_inner(line: Seq<u8>)
    requires
        line.len() > 0,
        forall|i: int| 0 <= i < line.len() ==> #[trigger] line[i] != 0x0a,
    ensures
        marked(true, line) == line_prefix() + line,
    decreases line.len(),
{
    let rest = line.drop_last();
    if rest.len() == 0 {
        assert(marked(true, rest) =~= Seq::empty());
        assert(marked(true, line) =~= line_prefix() + line);
    } else {
        assert forall|i: int| 0 <= i < rest.len() implies #[trigger] rest[i] != 0x0a by {
            assert(rest[i] == line[i]);
        }
        lemma_inner(rest);
        assert(rest.last() != 0x0a);
        assert(marked(true, line) =~= line_prefix() + line);
    }
}

} // verus!
