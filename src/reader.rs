//! Rebuilds logical lines from the bytes of a child's standard output and
//! standard error, which arrive interleaved.
use vstd::prelude::*;
use crate::text::opt_view;

verus! {

/// The stream a byte or a line comes from.
#[derive(PartialEq, Eq, Structural, Clone, Copy, Debug)]
pub enum Source {
    Stdout,
    Stderr,
}

/// The prompt that ends without a newline: a colon after it ends the line.
pub open spec fn prompt() -> Seq<char> {
    "Enter password"@
}

/// One byte added to a stream's open line: the open line after it, and the
/// line it completes, if any. A line feed completes the line; a backspace is
/// dropped; a colon completes a line that begins with the prompt, colon
/// included; any other byte is appended.
pub open spec fn feed(acc: Seq<char>, c: u8) -> (Seq<char>, Option<Seq<char>>) {
    if c == 0x0a {
        (Seq::empty(), Some(acc))
    } else if c == 0x08 {
        (acc, None)
    } else if c == 0x3a && crate::text::is_prefix(prompt(), acc) {
        (Seq::empty(), Some(acc.push(c as char)))
    } else {
        (acc.push(c as char), None)
    }
}

/// The lines that the bytes `bs` complete, from the open line `acc`, and the
/// open line after them.
pub open spec fn feed_all(acc: Seq<char>, bs: Seq<u8>) -> (Seq<char>, Seq<Seq<char>>)
    decreases bs.len(),
{
    if bs.len() == 0 {
        (acc, Seq::empty())
    } else {
        let (acc1, lines) = feed_all(acc, bs.drop_last());
        let (acc2, l) = feed(acc1, bs.last());
        match l {
            Some(x) => (acc2, lines.push(x)),
            None => (acc2, lines),
        }
    }
}

/// What the reader holds: the open line of each stream, and which streams
/// have ended.
pub struct ReaderView {
    pub out: Seq<char>,
    pub err: Seq<char>,
    pub out_closed: bool,
    pub err_closed: bool,
}

pub open spec fn acc_of(v: ReaderView, s: Source) -> Seq<char> {
    match s {
        Source::Stdout => v.out,
        Source::Stderr => v.err,
    }
}

/// The reader after a byte `c` from `s`, and the line it completes.
pub open spec fn read_step(v: ReaderView, c: u8, s: Source) -> (ReaderView, Option<Seq<char>>) {
    let (acc, l) = feed(acc_of(v, s), c);
    match s {
        Source::Stdout => (ReaderView { out: acc, ..v }, l),
        Source::Stderr => (ReaderView { err: acc, ..v }, l),
    }
}

/// Relies on `String::from_iter`: the characters of `v` as a string.
#[verifier::external_body]
fn string_of(v: &Vec<char>) -> (r: String)
    ensures
        r@ == v@,
{
    String::from_iter(v.iter())
}

/// Reads the two output streams of a child byte by byte and hands out each
/// logical line; the end comes once both streams have ended.
pub struct OutputReader {
    out: Vec<char>,
    err: Vec<char>,
    eof: [bool; 2],
}

impl View for OutputReader {
    type V = ReaderView;

    closed spec fn view(&self) -> ReaderView {
        ReaderView { out: self.out@, err: self.err@, out_closed: self.eof@[0], err_closed: self.eof@[1] }
    }
}

fn feed_vec(acc: &mut Vec<char>, c: u8) -> (r: Option<String>)
    ensures
        (final(acc)@, opt_view(r)) == feed(old(acc)@, c),
{
    if c == 0x0a {
        let line = string_of(acc);
        *acc = Vec::new();
        Some(line)
    } else if c == 0x08 {
        None
    } else if c == 0x3a && starts_with_prompt(acc) {
        acc.push(c as char);
        let line = string_of(acc);
        *acc = Vec::new();
        Some(line)
    } else {
        acc.push(c as char);
        None
    }
}

fn starts_with_prompt(acc: &Vec<char>) -> (r: bool)
    ensures
        r == crate::text::is_prefix(prompt(), acc@),
{
    let p = "Enter password";
    let n = p.unicode_len();
    if n > acc.len() {
        return false;
    }
    let mut i: usize = 0;
    while i < n
        invariant
            i <= n <= acc@.len(),
            n == p@.len(),
            p@ == prompt(),
            forall|j: int| 0 <= j < i ==> acc@[j] == p@[j],
        decreases n - i,
    {
        if acc[i] != p.get_char(i) {
            assert(acc@.subrange(0, n as int)[i as int] != p@[i as int]);
            return false;
        }
        i += 1;
    }
    assert(acc@.subrange(0, n as int) =~= p@);
    true
}

impl OutputReader {
    pub fn new() -> (r: OutputReader)
        ensures
            r@ == (ReaderView { out: Seq::empty(), err: Seq::empty(), out_closed: false, err_closed: false }),
    {
        let r = OutputReader { out: Vec::new(), err: Vec::new(), eof: [false, false] };
        assert(r@.out =~= Seq::<char>::empty());
        assert(r@.err =~= Seq::<char>::empty());
        r
    }

    /// Whether the stream `s` may still give bytes.
    pub fn is_open(&self, s: Source) -> (r: bool)
        ensures
            r == match s {
                Source::Stdout => !self@.out_closed,
                Source::Stderr => !self@.err_closed,
            },
    {
        match s {
            Source::Stdout => !self.eof[0],
            Source::Stderr => !self.eof[1],
        }
    }

    /// Takes the byte `c` from `s`; returns the line it completes, if any.
    pub fn read(&mut self, c: u8, s: Source) -> (r: Option<String>)
        ensures
            (final(self)@, opt_view(r)) == read_step(old(self)@, c, s),
    {
        match s {
            Source::Stdout => feed_vec(&mut self.out, c),
            Source::Stderr => feed_vec(&mut self.err, c),
        }
    }

    /// Marks `s` as ended, after a read error or the end of the stream;
    /// returns whether both streams have now ended, which ends the output.
    pub fn close(&mut self, s: Source) -> (r: bool)
        ensures
            final(self)@.out == old(self)@.out,
            final(self)@.err == old(self)@.err,
            final(self)@.out_closed == (old(self)@.out_closed || s == Source::Stdout),
            final(self)@.err_closed == (old(self)@.err_closed || s == Source::Stderr),
            r == (final(self)@.out_closed && final(self)@.err_closed),
    {
        match s {
            Source::Stdout => self.eof[0] = true,
            Source::Stderr => self.eof[1] = true,
        }
        self.eof[0] && self.eof[1]
    }
}


/// The reader after the bytes `evs`, each with its stream, and the lines
/// completed on the way, each with its stream.
pub open spec fn read_all(v: ReaderView, evs: Seq<(u8, Source)>) -> (ReaderView, Seq<(Seq<char>, Source)>)
    decreases evs.len(),
{
    if evs.len() == 0 {
        (v, Seq::empty())
    } else {
        let (v1, ls) = read_all(v, evs.drop_last());
        let (v2, l) = read_step(v1, evs.last().0, evs.last().1);
        match l {
            Some(x) => (v2, ls.push((x, evs.last().1))),
            None => (v2, ls),
        }
    }
}

/// The bytes of `evs` that come from `s`, in order.
pub open spec fn bytes_from(evs: Seq<(u8, Source)>, s: Source) -> Seq<u8>
    decreases evs.len(),
{
    if evs.len() == 0 {
        Seq::empty()
    } else if evs.last().1 == s {
        bytes_from(evs.drop_last(), s).push(evs.last().0)
    } else {
        bytes_from(evs.drop_last(), s)
    }
}

/// The lines of `ls` that come from `s`, in order.
pub open spec fn lines_from(ls: Seq<(Seq<char>, Source)>, s: Source) -> Seq<Seq<char>>
    decreases ls.len(),
{
    if ls.len() == 0 {
        Seq::empty()
    } else if ls.last().1 == s {
        lines_from(ls.drop_last(), s).push(ls.last().0)
    } else {
        lines_from(ls.drop_last(), s)
    }
}

/// However the bytes of the two streams interleave, the lines of each stream
/// are those its own bytes give, in their order, and so is its open line.
pub proof fn lemma_streams_independent(v: ReaderView, evs: Seq<(u8, Source)>, s: Source)
    ensures
        lines_from(read_all(v, evs).1, s) == feed_all(acc_of(v, s), bytes_from(evs, s)).1,
        acc_of(read_all(v, evs).0, s) == feed_all(acc_of(v, s), bytes_from(evs, s)).0,
    decreases evs.len(),
{
    if evs.len() > 0 {
        let pre = evs.drop_last();
        let e = evs.last();
        lemma_streams_independent(v, pre, s);
        let (v1, ls) = read_all(v, pre);
        let (v2, l) = read_step(v1, e.0, e.1);
        if e.1 == s {
            let b = bytes_from(pre, s);
            assert(bytes_from(evs, s) == b.push(e.0));
            assert(b.push(e.0).drop_last() =~= b);
            match l {
                Some(x) => {
                    assert(ls.push((x, e.1)).drop_last() =~= ls);
                },
                None => {},
            }
        } else {
            match l {
                Some(x) => {
                    assert(ls.push((x, e.1)).drop_last() =~= ls);
                },
                None => {},
            }
        }
    }
}

/// Bytes that go into a line as they are: no line feed, backspace or colon.
pub open spec fn plain(b: Seq<u8>) -> bool {
    forall|i: int| 0 <= i < b.len() ==> #[trigger] b[i] != 0x0a && b[i] != 0x08 && b[i] != 0x3a
}

/// Each byte as the character of the same code.
pub open spec fn chars_of(b: Seq<u8>) -> Seq<char> {
    b.map_values(|c: u8| c as char)
}

/// The lines `ls`, each ended by a line feed, one after another.
pub open spec fn joined_lines(ls: Seq<Seq<u8>>) -> Seq<u8>
    decreases ls.len(),
{
    if ls.len() == 0 {
        Seq::empty()
    } else {
        joined_lines(ls.drop_last()) + ls.last().push(0x0a)
    }
}

proof fn lemma_feed_all_append(acc: Seq<char>, x: Seq<u8>, y: Seq<u8>)
    ensures
        feed_all(acc, x + y) == (
            feed_all(feed_all(acc, x).0, y).0,
            feed_all(acc, x).1 + feed_all(feed_all(acc, x).0, y).1,
        ),
    decreases y.len(),
{
    if y.len() == 0 {
        assert(x + y =~= x);
        assert(feed_all(acc, x).1 + Seq::<Seq<char>>::empty() =~= feed_all(acc, x).1);
    } else {
        assert((x + y).drop_last() =~= x + y.drop_last());
        assert((x + y).last() == y.last());
        lemma_feed_all_append(acc, x, y.drop_last());
        let a1 = feed_all(acc, x);
        let a2 = feed_all(a1.0, y.drop_last());
        let (a3, l) = feed(a2.0, y.last());
        match l {
            Some(t) => {
                assert(a1.1 + a2.1.push(t) =~= (a1.1 + a2.1).push(t));
            },
            None => {},
        }
    }
}

proof fn lemma_feed_plain(acc: Seq<char>, b: Seq<u8>)
    requires
        plain(b),
    ensures
        feed_all(acc, b) == (acc + chars_of(b), Seq::<Seq<char>>::empty()),
    decreases b.len(),
{
    if b.len() == 0 {
        assert(acc + chars_of(b) =~= acc);
    } else {
        let pre = b.drop_last();
        assert(plain(pre)) by {
            assert forall|i: int| 0 <= i < pre.len() implies #[trigger] pre[i] != 0x0a && pre[i] != 0x08
                && pre[i] != 0x3a by {
                assert(pre[i] == b[i]);
            }
        }
        lemma_feed_plain(acc, pre);
        let c = b[b.len() - 1];
        assert(c != 0x0a && c != 0x08 && c != 0x3a);
        assert(acc + chars_of(b) =~= (acc + chars_of(pre)).push(c as char));
    }
}

/// Plain lines, each ended by a line feed, come out as they went in.
proof fn lemma_feed_lines(ls: Seq<Seq<u8>>)
    requires
        forall|i: int| 0 <= i < ls.len() ==> plain(#[trigger] ls[i]),
    ensures
        feed_all(Seq::empty(), joined_lines(ls)) == (Seq::<char>::empty(), ls.map_values(|l: Seq<u8>| chars_of(l))),
    decreases ls.len(),
{
    if ls.len() == 0 {
        assert(ls.map_values(|l: Seq<u8>| chars_of(l)) =~= Seq::<Seq<char>>::empty());
    } else {
        let pre = ls.drop_last();
        let last = ls.last();
        assert(plain(ls[ls.len() - 1]));
        assert forall|i: int| 0 <= i < pre.len() implies plain(#[trigger] pre[i]) by {
            assert(pre[i] == ls[i]);
        }
        lemma_feed_lines(pre);
        let e = Seq::<char>::empty();
        let nl = seq![0x0au8];
        assert(joined_lines(ls) == joined_lines(pre) + last.push(0x0a));
        lemma_feed_all_append(e, joined_lines(pre), last.push(0x0a));
        lemma_feed_all_append(e, last, nl);
        assert(last + nl =~= last.push(0x0a));
        lemma_feed_plain(e, last);
        assert(e + chars_of(last) =~= chars_of(last));
        assert(nl.drop_last() =~= Seq::<u8>::empty());
        assert(nl.last() == 0x0au8);
        assert(feed_all(chars_of(last), Seq::<u8>::empty()) == (chars_of(last), Seq::<Seq<char>>::empty()));
        assert(feed_all(chars_of(last), nl) == (e, seq![chars_of(last)]));
        assert(Seq::<Seq<char>>::empty() + seq![chars_of(last)] =~= seq![chars_of(last)]);
        assert(feed_all(e, last.push(0x0a)) == (e, seq![chars_of(last)]));
        assert(pre.map_values(|l: Seq<u8>| chars_of(l)) + seq![chars_of(last)] =~= ls.map_values(
            |l: Seq<u8>| chars_of(l),
        ));
    }
}

/// However the two streams interleave, a stream whose bytes are plain lines,
/// each ended by a line feed, gives exactly those lines, in order, and
/// leaves no open line.
pub proof fn lemma_stream_lines(evs: Seq<(u8, Source)>, s: Source, ls: Seq<Seq<u8>>)
    requires
        bytes_from(evs, s) == joined_lines(ls),
        forall|i: int| 0 <= i < ls.len() ==> plain(#[trigger] ls[i]),
    ensures
        ({
            let fresh = ReaderView { out: Seq::empty(), err: Seq::empty(), out_closed: false, err_closed: false };
            &&& lines_from(read_all(fresh, evs).1, s) == ls.map_values(|l: Seq<u8>| chars_of(l))
            &&& acc_of(read_all(fresh, evs).0, s) == Seq::<char>::empty()
        }),
{
    let fresh = ReaderView { out: Seq::empty(), err: Seq::empty(), out_closed: false, err_closed: false };
    lemma_streams_independent(fresh, evs, s);
    lemma_feed_lines(ls);
}

} // verus!
