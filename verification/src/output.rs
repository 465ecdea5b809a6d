//! The output of a task in the plain user interface: bytes are cut into lines, and each
//! complete line is sent on, kept for later, or both.
use vstd::prelude::*;

verus! {

/// How a client handles the lines written to it.
#[derive(Debug, Clone, Copy, PartialEq, Eq, Structural)]
pub enum OutputClientBehavior {
    /// Every line sent to the client will get immediately sent to the sink
    Passthrough,
    /// Every line sent to the client will get immediately sent to the sink,
    /// but a buffer will be built up as well and returned when finish is called
    InMemoryBuffer,
    /// Every line sent to the client will get tracked in the buffer only being
    /// sent to the sink once finish is called.
    Grouped,
}

/// Where bytes go: the standard output or the standard error.
#[derive(Debug, Clone, Copy, PartialEq, Eq, Structural)]
pub enum Destination {
    Stdout,
    Stderr,
}

/// Bytes on their way to one of the destinations.
#[derive(Debug, Clone)]
pub struct SinkBytes {
    pub buffer: Vec<u8>,
    pub destination: Destination,
}

/// The bytes and destination of some sink bytes.
pub open spec fn sink_view(b: SinkBytes) -> (Seq<u8>, Destination) {
    (b.buffer@, b.destination)
}

/// The views of a list of sink bytes.
pub open spec fn sinks_view(s: Seq<SinkBytes>) -> Seq<(Seq<u8>, Destination)> {
    s.map_values(|b: SinkBytes| sink_view(b))
}

/// The newline byte.
pub const NEWLINE: u8 = 10;

/// The complete lines of `pending` followed by `buf`, each with its newline, and the bytes
/// left after the last newline.
pub open spec fn split_lines(pending: Seq<u8>, buf: Seq<u8>) -> (Seq<Seq<u8>>, Seq<u8>)
    decreases buf.len(),
{
    if buf.len() == 0 {
        (Seq::empty(), pending)
    } else {
        let p = pending.push(buf[0]);
        if buf[0] == NEWLINE {
            let (lines, rest) = split_lines(Seq::empty(), buf.drop_first());
            (seq![p] + lines, rest)
        } else {
            split_lines(p, buf.drop_first())
        }
    }
}

/// All the bytes of a list of pieces, one after another.
pub open spec fn concat(pieces: Seq<Seq<u8>>) -> Seq<u8>
    decreases pieces.len(),
{
    if pieces.len() == 0 {
        Seq::empty()
    } else {
        concat(pieces.drop_last()) + pieces.last()
    }
}

/// Cutting into lines loses no byte and adds none: the lines and what is left make up the
/// pending bytes and the new ones.
pub proof fn law_split_lines_keeps_bytes(pending: Seq<u8>, buf: Seq<u8>)
    ensures
        concat(split_lines(pending, buf).0) + split_lines(pending, buf).1 == pending + buf,
    decreases buf.len(),
{
    if buf.len() > 0 {
        let p = pending.push(buf[0]);
        assert(pending + buf =~= p + buf.drop_first());
        if buf[0] == NEWLINE {
            law_split_lines_keeps_bytes(Seq::empty(), buf.drop_first());
            let (lines, rest) = split_lines(Seq::<u8>::empty(), buf.drop_first());
            lemma_concat_prepend(p, lines);
            assert(Seq::<u8>::empty() + buf.drop_first() =~= buf.drop_first());
            assert(concat(seq![p] + lines) + rest =~= p + (concat(lines) + rest));
        } else {
            law_split_lines_keeps_bytes(p, buf.drop_first());
        }
    } else {
        assert(concat(Seq::<Seq<u8>>::empty()) + pending =~= pending + buf);
    }
}

/// Concatenating after a first piece puts that piece first.
proof fn lemma_concat_prepend(first: Seq<u8>, rest: Seq<Seq<u8>>)
    ensures
        concat(seq![first] + rest) == first + concat(rest),
    decreases rest.len(),
{
    if rest.len() == 0 {
        assert(seq![first] + rest =~= seq![first]);
        assert(seq![first].drop_last() =~= Seq::<Seq<u8>>::empty());
        assert(first + concat(rest) =~= first);
        assert(concat(Seq::<Seq<u8>>::empty()) == Seq::<u8>::empty());
        assert(concat(seq![first]) == concat(seq![first].drop_last()) + first);
        assert(Seq::<u8>::empty() + first =~= first);
    } else {
        lemma_concat_prepend(first, rest.drop_last());
        assert((seq![first] + rest).drop_last() =~= seq![first] + rest.drop_last());
        assert(first + concat(rest) =~= first + concat(rest.drop_last()) + rest.last());
    }
}

/// Every line ends with a newline, and holds no other.
pub proof fn law_lines_end_with_newline(pending: Seq<u8>, buf: Seq<u8>)
    requires
        !pending.contains(NEWLINE),
    ensures
        forall|i: int|
            0 <= i < split_lines(pending, buf).0.len() ==> {
                let line = #[trigger] split_lines(pending, buf).0[i];
                line.len() > 0 && line.last() == NEWLINE && !line.drop_last().contains(NEWLINE)
            },
        !split_lines(pending, buf).1.contains(NEWLINE),
    decreases buf.len(),
{
    if buf.len() > 0 {
        let p = pending.push(buf[0]);
        if buf[0] == NEWLINE {
            assert(!Seq::<u8>::empty().contains(NEWLINE));
            law_lines_end_with_newline(Seq::empty(), buf.drop_first());
            let (lines, rest) = split_lines(Seq::<u8>::empty(), buf.drop_first());
            assert(p.drop_last() =~= pending);
            assert forall|i: int| 0 <= i < (seq![p] + lines).len() implies {
                let line = #[trigger] (seq![p] + lines)[i];
                line.len() > 0 && line.last() == NEWLINE && !line.drop_last().contains(NEWLINE)
            } by {
                if i > 0 {
                    assert((seq![p] + lines)[i] == lines[i - 1]);
                }
            }
        } else {
            assert(!p.contains(NEWLINE)) by {
                if p.contains(NEWLINE) {
                    let k = choose|k: int| 0 <= k < p.len() && p[k] == NEWLINE;
                    if k < pending.len() {
                        assert(pending[k] == NEWLINE);
                    }
                }
            }
            law_lines_end_with_newline(p, buf.drop_first());
        }
    }
}

/// Cuts the bytes of `buf` into lines, after the bytes of `pending`: returns the complete
/// lines, and leaves in `pending` what follows the last newline.
pub fn take_lines(pending: &mut Vec<u8>, buf: &[u8]) -> (r: Vec<Vec<u8>>)
    ensures
        r@.map_values(|l: Vec<u8>| l@) == split_lines(old(pending)@, buf@).0,
        final(pending)@ == split_lines(old(pending)@, buf@).1,
{
    let ghost start = pending@;
    let mut ready: Vec<Vec<u8>> = Vec::new();
    let mut i: usize = 0;
    proof {
        assert(buf@.skip(0) =~= buf@);
        let (lines, rest) = split_lines(pending@, buf@);
        assert(ready@.map_values(|l: Vec<u8>| l@) + lines =~= lines);
    }
    while i < buf.len()
        invariant
            i <= buf.len(),
            ({
                let (lines, rest) = split_lines(pending@, buf@.skip(i as int));
                split_lines(start, buf@) == (ready@.map_values(|l: Vec<u8>| l@) + lines, rest)
            }),
        decreases buf.len() - i,
    {
        let b = buf[i];
        let ghost before_pending = pending@;
        let ghost before_ready = ready@.map_values(|l: Vec<u8>| l@);
        proof {
            assert(buf@.skip(i as int).drop_first() =~= buf@.skip(i + 1));
            assert(buf@.skip(i as int)[0] == b);
        }
        pending.push(b);
        if b == NEWLINE {
            let mut line: Vec<u8> = Vec::new();
            std::mem::swap(&mut line, pending);
            ready.push(line);
            proof {
                let (lines, rest) = split_lines(Seq::<u8>::empty(), buf@.skip(i + 1));
                assert(ready@.map_values(|l: Vec<u8>| l@) =~= before_ready.push(before_pending.push(b)));
                assert(before_ready + (seq![before_pending.push(b)] + lines) =~= before_ready.push(
                    before_pending.push(b),
                ) + lines);
                assert(pending@ =~= Seq::<u8>::empty());
            }
        }
        i = i + 1;
    }
    proof {
        assert(buf@.skip(i as int) =~= Seq::<u8>::empty());
        assert(ready@.map_values(|l: Vec<u8>| l@) + Seq::<Seq<u8>>::empty() =~= ready@.map_values(
            |l: Vec<u8>| l@,
        ));
    }
    ready
}

/// Whether a client with `behavior` keeps the lines for [`OutputClient::finish`].
pub open spec fn keeps(behavior: OutputClientBehavior) -> bool {
    behavior is InMemoryBuffer || behavior is Grouped
}

/// Whether a client with `behavior` sends the lines on at once.
pub open spec fn passes(behavior: OutputClientBehavior) -> bool {
    behavior is Passthrough || behavior is InMemoryBuffer
}

/// The lines of `lines`, with their destination, that a client with `behavior` sends on.
pub open spec fn sent(behavior: OutputClientBehavior, lines: Seq<Seq<u8>>, destination: Destination) -> Seq<(Seq<u8>, Destination)> {
    if passes(behavior) {
        lines.map_values(|l: Seq<u8>| (l, destination))
    } else {
        Seq::empty()
    }
}

/// The buffer of a client with `behavior` after it got `lines` for `destination`.
pub open spec fn kept(
    behavior: OutputClientBehavior,
    buffer: Option<Seq<(Seq<u8>, Destination)>>,
    lines: Seq<Seq<u8>>,
    destination: Destination,
) -> Option<Seq<(Seq<u8>, Destination)>> {
    match buffer {
        Some(b) => if keeps(behavior) {
            Some(b + lines.map_values(|l: Seq<u8>| (l, destination)))
        } else {
            buffer
        },
        None => None,
    }
}

/// The complete lines of a series of writes, in order, each with its destination.
pub open spec fn tagged(writes: Seq<(Seq<Seq<u8>>, Destination)>) -> Seq<(Seq<u8>, Destination)>
    decreases writes.len(),
{
    if writes.len() == 0 {
        Seq::empty()
    } else {
        let d = writes[0].1;
        writes[0].0.map_values(|l: Seq<u8>| (l, d)) + tagged(writes.drop_first())
    }
}

/// The buffer of a client with `behavior` after a series of writes, each given by its complete
/// lines and their destination.
pub open spec fn kept_after(
    behavior: OutputClientBehavior,
    buffer: Option<Seq<(Seq<u8>, Destination)>>,
    writes: Seq<(Seq<Seq<u8>>, Destination)>,
) -> Option<Seq<(Seq<u8>, Destination)>>
    decreases writes.len(),
{
    if writes.len() == 0 {
        buffer
    } else {
        kept_after(behavior, kept(behavior, buffer, writes[0].0, writes[0].1), writes.drop_first())
    }
}

/// The lines a client with `behavior` sends on over a series of writes, in order.
pub open spec fn sent_over(behavior: OutputClientBehavior, writes: Seq<(Seq<Seq<u8>>, Destination)>) -> Seq<
    (Seq<u8>, Destination),
>
    decreases writes.len(),
{
    if writes.len() == 0 {
        Seq::empty()
    } else {
        sent(behavior, writes[0].0, writes[0].1) + sent_over(behavior, writes.drop_first())
    }
}

/// Over any series of writes, a client that keeps lines keeps every line after those it held,
/// in the order written, and a client sends on every line or none.
pub proof fn law_writes_keep_and_send_in_order(
    behavior: OutputClientBehavior,
    buffer: Seq<(Seq<u8>, Destination)>,
    writes: Seq<(Seq<Seq<u8>>, Destination)>,
)
    ensures
        keeps(behavior) ==> kept_after(behavior, Some(buffer), writes) == Some(buffer + tagged(writes)),
        !keeps(behavior) ==> kept_after(behavior, None, writes) == None::<Seq<(Seq<u8>, Destination)>>,
        sent_over(behavior, writes) == (if passes(behavior) {
            tagged(writes)
        } else {
            Seq::<(Seq<u8>, Destination)>::empty()
        }),
    decreases writes.len(),
{
    if writes.len() > 0 {
        let d = writes[0].1;
        let first = writes[0].0.map_values(|l: Seq<u8>| (l, d));
        law_writes_keep_and_send_in_order(behavior, buffer + first, writes.drop_first());
        if keeps(behavior) {
            assert(buffer + first + tagged(writes.drop_first()) =~= buffer + tagged(writes));
        } else {
            law_writes_keep_and_send_in_order(behavior, buffer, writes.drop_first());
        }
        if !passes(behavior) {
            assert(Seq::<(Seq<u8>, Destination)>::empty() + Seq::<(Seq<u8>, Destination)>::empty() =~= Seq::<
                (Seq<u8>, Destination),
            >::empty());
        }
    } else {
        assert(buffer + Seq::<(Seq<u8>, Destination)>::empty() =~= buffer);
    }
}

/// A client that keeps lines and sends them on at once keeps, over any series of writes,
/// exactly the lines it sent, in the order it sent them; one that holds its lines back sends
/// none and keeps them all.
pub proof fn law_buffer_matches_what_was_sent(writes: Seq<(Seq<Seq<u8>>, Destination)>)
    ensures
        kept_after(OutputClientBehavior::InMemoryBuffer, Some(Seq::empty()), writes) == Some(
            sent_over(OutputClientBehavior::InMemoryBuffer, writes),
        ),
        sent_over(OutputClientBehavior::Grouped, writes) == Seq::<(Seq<u8>, Destination)>::empty(),
        kept_after(OutputClientBehavior::Grouped, Some(Seq::empty()), writes) == Some(tagged(writes)),
{
    let e = Seq::<(Seq<u8>, Destination)>::empty();
    law_writes_keep_and_send_in_order(OutputClientBehavior::InMemoryBuffer, e, writes);
    law_writes_keep_and_send_in_order(OutputClientBehavior::Grouped, e, writes);
    assert(e + tagged(writes) =~= tagged(writes));
}

/// The state of one writer of a task's output: its behavior, the lines it keeps, and for each
/// destination the bytes of the line not finished yet.
pub struct OutputClient {
    behavior: OutputClientBehavior,
    buffer: Option<Vec<SinkBytes>>,
    out_line: Vec<u8>,
    err_line: Vec<u8>,
}

impl OutputClient {
    /// How the client handles lines.
    pub closed spec fn behavior_spec(&self) -> OutputClientBehavior {
        self.behavior
    }

    /// The lines kept, with their destinations, when the client keeps lines.
    pub closed spec fn buffer_spec(&self) -> Option<Seq<(Seq<u8>, Destination)>> {
        match self.buffer {
            Some(b) => Some(sinks_view(b@)),
            None => None,
        }
    }

    /// The bytes of the unfinished line for `destination`.
    pub closed spec fn line_spec(&self, destination: Destination) -> Seq<u8> {
        match destination {
            Destination::Stdout => self.out_line@,
            Destination::Stderr => self.err_line@,
        }
    }

    /// Whether the client keeps a buffer exactly when its behavior keeps lines.
    pub closed spec fn wf(&self) -> bool {
        self.buffer is Some <==> keeps(self.behavior)
    }

    /// A client with `behavior`, with nothing written yet.
    pub fn new(behavior: OutputClientBehavior) -> (r: OutputClient)
        ensures
            r.wf(),
            r.behavior_spec() == behavior,
            r.buffer_spec() == (if keeps(behavior) {
                Some(Seq::<(Seq<u8>, Destination)>::empty())
            } else {
                None
            }),
            r.line_spec(Destination::Stdout) == Seq::<u8>::empty(),
            r.line_spec(Destination::Stderr) == Seq::<u8>::empty(),
    {
        let buffer = match behavior {
            OutputClientBehavior::Passthrough => None,
            OutputClientBehavior::InMemoryBuffer | OutputClientBehavior::Grouped => Some(Vec::new()),
        };
        let r = OutputClient { behavior, buffer, out_line: Vec::new(), err_line: Vec::new() };
        proof {
            if keeps(behavior) {
                assert(sinks_view(Seq::<SinkBytes>::empty()) =~= Seq::<(Seq<u8>, Destination)>::empty());
            }
        }
        r
    }

    /// Keeps `bytes` in the buffer.
    pub fn add_bytes_to_buffer(&mut self, bytes: SinkBytes)
        requires
            old(self).buffer_spec() is Some,
        ensures
            final(self).buffer_spec() == Some(old(self).buffer_spec()->0.push(sink_view(bytes))),
            final(self).behavior_spec() == old(self).behavior_spec(),
            final(self).line_spec(Destination::Stdout) == old(self).line_spec(Destination::Stdout),
            final(self).line_spec(Destination::Stderr) == old(self).line_spec(Destination::Stderr),
            final(self).wf() == old(self).wf(),
    {
        let ghost v = bytes;
        match self.buffer.as_mut() {
            Some(b) => {
                let ghost before = b@;
                b.push(bytes);
                proof {
                    assert(sinks_view(b@) =~= sinks_view(before).push(sink_view(v)));
                }
            },
            None => {},
        }
    }

    /// Handles a complete line: keeps it when the client keeps lines, and returns it when the
    /// client sends lines on at once.
    pub fn handle_bytes(&mut self, bytes: SinkBytes) -> (r: Option<SinkBytes>)
        requires
            old(self).wf(),
        ensures
            final(self).wf(),
            final(self).buffer_spec() == kept(
                old(self).behavior_spec(),
                old(self).buffer_spec(),
                seq![bytes.buffer@],
                bytes.destination,
            ),
            passes(old(self).behavior_spec()) ==> (r matches Some(b) && sink_view(b) == sink_view(bytes)),
            !passes(old(self).behavior_spec()) ==> r is None,
            final(self).behavior_spec() == old(self).behavior_spec(),
            final(self).line_spec(Destination::Stdout) == old(self).line_spec(Destination::Stdout),
            final(self).line_spec(Destination::Stderr) == old(self).line_spec(Destination::Stderr),
    {
        let keep = match self.behavior {
            OutputClientBehavior::InMemoryBuffer | OutputClientBehavior::Grouped => true,
            OutputClientBehavior::Passthrough => false,
        };
        let pass = match self.behavior {
            OutputClientBehavior::Passthrough | OutputClientBehavior::InMemoryBuffer => true,
            OutputClientBehavior::Grouped => false,
        };
        let ghost before = self.buffer_spec();
        if keep {
            let copy = SinkBytes { buffer: copy_bytes(&bytes.buffer), destination: bytes.destination };
            self.add_bytes_to_buffer(copy);
            proof {
                assert(seq![bytes.buffer@].map_values(|l: Seq<u8>| (l, bytes.destination)) =~= seq![
                    (bytes.buffer@, bytes.destination),
                ]);
            }
        }
        if pass {
            Some(bytes)
        } else {
            None
        }
    }

    /// Writes `buf` for `destination`: the complete lines are handled one by one, and what
    /// follows the last newline waits for the rest of its line. Returns the lines to send on.
    pub fn write(&mut self, destination: Destination, buf: &[u8]) -> (r: Vec<SinkBytes>)
        requires
            old(self).wf(),
        ensures
            final(self).wf(),
            ({
                let (lines, rest) = split_lines(old(self).line_spec(destination), buf@);
                &&& sinks_view(r@) == sent(old(self).behavior_spec(), lines, destination)
                &&& final(self).buffer_spec() == kept(old(self).behavior_spec(), old(self).buffer_spec(), lines, destination)
                &&& final(self).line_spec(destination) == rest
            }),
            final(self).behavior_spec() == old(self).behavior_spec(),
            destination is Stdout ==> final(self).line_spec(Destination::Stderr) == old(self).line_spec(Destination::Stderr),
            destination is Stderr ==> final(self).line_spec(Destination::Stdout) == old(self).line_spec(Destination::Stdout),
    {
        let ready = match destination {
            Destination::Stdout => take_lines(&mut self.out_line, buf),
            Destination::Stderr => take_lines(&mut self.err_line, buf),
        };
        let ghost lines = ready@.map_values(|l: Vec<u8>| l@);
        let ghost b0 = self.buffer_spec();
        let mut out: Vec<SinkBytes> = Vec::new();
        let mut i: usize = 0;
        let rest_lines = ready;
        proof {
            assert(sinks_view(out@) =~= sent(self.behavior_spec(), lines.take(0), destination));
            assert(lines.take(0) =~= Seq::<Seq<u8>>::empty());
            match b0 {
                Some(b) => {
                    assert(b + Seq::<Seq<u8>>::empty().map_values(|l: Seq<u8>| (l, destination)) =~= b);
                },
                None => {},
            }
        }
        while i < rest_lines.len()
            invariant
                i <= rest_lines.len(),
                self.wf(),
                rest_lines@.map_values(|l: Vec<u8>| l@) == lines,
                sinks_view(out@) == sent(self.behavior_spec(), lines.take(i as int), destination),
                self.buffer_spec() == kept(self.behavior_spec(), b0, lines.take(i as int), destination),
                self.behavior_spec() == old(self).behavior_spec(),
                self.line_spec(Destination::Stdout) == (if destination is Stdout {
                    split_lines(old(self).line_spec(destination), buf@).1
                } else {
                    old(self).line_spec(Destination::Stdout)
                }),
                self.line_spec(Destination::Stderr) == (if destination is Stderr {
                    split_lines(old(self).line_spec(destination), buf@).1
                } else {
                    old(self).line_spec(Destination::Stderr)
                }),
            decreases rest_lines.len() - i,
        {
            let line = copy_bytes(&rest_lines[i]);
            let ghost lv = line@;
            let ghost before_out = sinks_view(out@);
            let ghost before_buf = self.buffer_spec();
            let sent_bytes = self.handle_bytes(SinkBytes { buffer: line, destination });
            proof {
                assert(lines.take(i + 1) =~= lines.take(i as int).push(lv));
                assert(lines.take(i + 1).map_values(|l: Seq<u8>| (l, destination)) =~= lines.take(
                    i as int,
                ).map_values(|l: Seq<u8>| (l, destination)).push((lv, destination)));
                assert(seq![lv].map_values(|l: Seq<u8>| (l, destination)) =~= seq![(lv, destination)]);
                match before_buf {
                    Some(bb) => {
                        assert(bb + seq![(lv, destination)] =~= bb.push((lv, destination)));
                    },
                    None => {},
                }
                if keeps(self.behavior_spec()) {
                    match b0 {
                        Some(b) => {
                            assert(b + lines.take(i + 1).map_values(|l: Seq<u8>| (l, destination)) =~= (b
                                + lines.take(i as int).map_values(|l: Seq<u8>| (l, destination))).push(
                                (lv, destination),
                            ));
                        },
                        None => {},
                    }
                }
            }
            match sent_bytes {
                Some(s) => {
                    out.push(s);
                    proof {
                        assert(sinks_view(out@) =~= before_out.push((lv, destination)));
                    }
                },
                None => {},
            }
            i = i + 1;
        }
        proof {
            assert(lines.take(lines.len() as int) =~= lines);
        }
        out
    }

    /// Flushes the unfinished line for `destination`, if there is one: it is handled as a line.
    pub fn flush(&mut self, destination: Destination) -> (r: Option<SinkBytes>)
        requires
            old(self).wf(),
        ensures
            final(self).wf(),
            final(self).line_spec(destination) == Seq::<u8>::empty(),
            ({
                let line = old(self).line_spec(destination);
                if line.len() == 0 {
                    r is None && final(self).buffer_spec() == old(self).buffer_spec()
                } else {
                    &&& final(self).buffer_spec() == kept(old(self).behavior_spec(), old(self).buffer_spec(), seq![line], destination)
                    &&& (passes(old(self).behavior_spec()) ==> (r matches Some(b) && sink_view(b) == (line, destination)))
                    &&& (!passes(old(self).behavior_spec()) ==> r is None)
                }
            }),
            final(self).behavior_spec() == old(self).behavior_spec(),
            destination is Stdout ==> final(self).line_spec(Destination::Stderr) == old(self).line_spec(Destination::Stderr),
            destination is Stderr ==> final(self).line_spec(Destination::Stdout) == old(self).line_spec(Destination::Stdout),
    {
        let mut line: Vec<u8> = Vec::new();
        match destination {
            Destination::Stdout => std::mem::swap(&mut line, &mut self.out_line),
            Destination::Stderr => std::mem::swap(&mut line, &mut self.err_line),
        }
        if line.len() == 0 {
            None
        } else {
            self.handle_bytes(SinkBytes { buffer: line, destination })
        }
    }

    /// Ends the client: the bytes of all the lines kept, in order, when the client keeps lines.
    pub fn finish(self) -> (r: Option<Vec<u8>>)
        requires
            self.wf(),
        ensures
            match self.buffer_spec() {
                Some(b) => r matches Some(bytes) && bytes@ == concat(b.map_values(|p: (Seq<u8>, Destination)| p.0)),
                None => r is None,
            },
    {
        match self.buffer {
            Some(buffers) => {
                let ghost pieces = sinks_view(buffers@).map_values(|p: (Seq<u8>, Destination)| p.0);
                let mut bytes: Vec<u8> = Vec::new();
                let mut i: usize = 0;
                while i < buffers.len()
                    invariant
                        i <= buffers.len(),
                        pieces == sinks_view(buffers@).map_values(|p: (Seq<u8>, Destination)| p.0),
                        bytes@ == concat(pieces.take(i as int)),
                    decreases buffers.len() - i,
                {
                    let mut piece = copy_bytes(&buffers[i].buffer);
                    proof {
                        assert(pieces.take(i + 1).drop_last() =~= pieces.take(i as int));
                        assert(pieces.take(i + 1).last() == buffers@[i as int].buffer@);
                    }
                    bytes.append(&mut piece);
                    i = i + 1;
                }
                proof {
                    assert(pieces.take(buffers.len() as int) =~= pieces);
                }
                Some(bytes)
            },
            None => None,
        }
    }

    /// The lines that reach the sink when the client ends: for a client that holds its lines
    /// back until then, every kept line with its destination, in the order written; nothing
    /// for a client that sent its lines on at once.
    pub fn grouped_lines(&self) -> (r: Vec<SinkBytes>)
        requires
            self.wf(),
        ensures
            sinks_view(r@) == (if self.behavior_spec() is Grouped {
                self.buffer_spec()->0
            } else {
                Seq::<(Seq<u8>, Destination)>::empty()
            }),
    {
        let mut out: Vec<SinkBytes> = Vec::new();
        proof {
            assert(sinks_view(out@) =~= Seq::<(Seq<u8>, Destination)>::empty());
        }
        match self.behavior {
            OutputClientBehavior::Grouped => {},
            _ => {
                return out;
            },
        }
        match &self.buffer {
            Some(buffers) => {
                let mut i: usize = 0;
                while i < buffers.len()
                    invariant
                        i <= buffers.len(),
                        sinks_view(out@) == sinks_view(buffers@).take(i as int),
                    decreases buffers.len() - i,
                {
                    let line = SinkBytes { buffer: copy_bytes(&buffers[i].buffer), destination: buffers[i].destination };
                    let ghost before = out@;
                    out.push(line);
                    proof {
                        assert(out@ =~= before.push(line));
                        assert(sink_view(line) == sinks_view(buffers@)[i as int]);
                        assert(sinks_view(out@) =~= sinks_view(before).push(sink_view(line)));
                        assert(sinks_view(out@) =~= sinks_view(buffers@).take(i + 1));
                    }
                    i = i + 1;
                }
                proof {
                    assert(sinks_view(buffers@).take(buffers.len() as int) =~= sinks_view(buffers@));
                }
                out
            },
            None => out,
        }
    }

    /// The bytes of the unfinished line for `destination`.
    pub fn line_buffer(&self, destination: Destination) -> (r: &Vec<u8>)
        ensures
            r@ == self.line_spec(destination),
    {
        match destination {
            Destination::Stdout => &self.out_line,
            Destination::Stderr => &self.err_line,
        }
    }
}

/// The carriage return byte.
pub const CARRIAGE_RETURN: u8 = 13;

/// The chunks of `cur` followed by `buf`, each up to and with a carriage return, the last up to
/// the end when it is not empty.
pub open spec fn cr_chunks(cur: Seq<u8>, buf: Seq<u8>) -> Seq<Seq<u8>>
    decreases buf.len(),
{
    if buf.len() == 0 {
        if cur.len() > 0 {
            seq![cur]
        } else {
            Seq::empty()
        }
    } else {
        let p = cur.push(buf[0]);
        if buf[0] == CARRIAGE_RETURN {
            seq![p] + cr_chunks(Seq::empty(), buf.drop_first())
        } else {
            cr_chunks(p, buf.drop_first())
        }
    }
}

/// The bytes of `chunks` each after `prefix`, but for a chunk after the first that is just a
/// newline: the cursor is then at the start of the line already prefixed.
pub open spec fn with_prefix(prefix: Seq<u8>, chunks: Seq<Seq<u8>>) -> Seq<u8>
    decreases chunks.len(),
{
    if chunks.len() == 0 {
        Seq::empty()
    } else {
        let c = chunks.last();
        let head = if chunks.len() == 1 || c != seq![NEWLINE] {
            prefix
        } else {
            Seq::empty()
        };
        with_prefix(prefix, chunks.drop_last()) + head + c
    }
}

/// Cutting bytes into chunks keeps every byte, in order, and gives a chunk when there is a byte.
proof fn lemma_cr_chunks_keep_bytes(cur: Seq<u8>, buf: Seq<u8>)
    ensures
        cr_chunks(cur, buf).flatten() == cur + buf,
        cur.len() + buf.len() > 0 ==> cr_chunks(cur, buf).len() > 0,
    decreases buf.len(),
{
    if buf.len() == 0 {
        if cur.len() > 0 {
            assert(seq![cur].flatten() == cur + seq![cur].drop_first().flatten());
            assert(seq![cur].drop_first() =~= Seq::<Seq<u8>>::empty());
        }
        assert(cur + buf =~= cur);
    } else {
        let p = cur.push(buf[0]);
        lemma_cr_chunks_keep_bytes(if buf[0] == CARRIAGE_RETURN { Seq::empty() } else { p }, buf.drop_first());
        if buf[0] == CARRIAGE_RETURN {
            let rest = cr_chunks(Seq::empty(), buf.drop_first());
            let all = seq![p] + rest;
            assert(all.first() == p);
            assert(all.drop_first() =~= rest);
            assert(Seq::<u8>::empty() + buf.drop_first() =~= buf.drop_first());
        }
        assert(p + buf.drop_first() =~= cur + buf);
    }
}

/// Prefixing chunks with nothing gives their bytes.
proof fn lemma_no_prefix(chunks: Seq<Seq<u8>>)
    ensures
        with_prefix(Seq::empty(), chunks) == chunks.flatten(),
    decreases chunks.len(),
{
    if chunks.len() > 0 {
        lemma_no_prefix(chunks.drop_last());
        chunks.drop_last().lemma_flatten_push(chunks.last());
        assert(chunks.drop_last().push(chunks.last()) =~= chunks);
        assert(with_prefix(Seq::empty(), chunks.drop_last()) + Seq::<u8>::empty() + chunks.last() =~= chunks.drop_last().flatten()
            + chunks.last());
    }
}

/// The prefixed bytes of some chunks begin with the prefix.
proof fn lemma_prefix_first(prefix: Seq<u8>, chunks: Seq<Seq<u8>>)
    requires
        chunks.len() > 0,
    ensures
        with_prefix(prefix, chunks).len() >= prefix.len(),
        with_prefix(prefix, chunks).take(prefix.len() as int) == prefix,
    decreases chunks.len(),
{
    let c = chunks.last();
    let rest = chunks.drop_last();
    if chunks.len() == 1 {
        assert(with_prefix(prefix, rest) == Seq::<u8>::empty());
        assert((Seq::<u8>::empty() + prefix + c).take(prefix.len() as int) =~= prefix);
    } else {
        lemma_prefix_first(prefix, rest);
        let head = if c != seq![NEWLINE] { prefix } else { Seq::<u8>::empty() };
        let w = with_prefix(prefix, rest);
        assert((w + head + c).take(prefix.len() as int) =~= w.take(prefix.len() as int));
    }
}

/// What the prefixed writer passes on for some bytes: all of them, in order, when the prefix is
/// empty; and for bytes that are not empty, the prefix first, whatever the first chunk is, an
/// empty line too.
pub proof fn law_prefixed_output_starts_with_the_prefix(prefix: Seq<u8>, buf: Seq<u8>)
    ensures
        with_prefix(Seq::empty(), cr_chunks(Seq::empty(), buf)) == buf,
        buf.len() > 0 ==> ({
            let out = with_prefix(prefix, cr_chunks(Seq::empty(), buf));
            out.len() >= prefix.len() + buf.len() && out.take(prefix.len() as int) == prefix
        }),
{
    lemma_cr_chunks_keep_bytes(Seq::empty(), buf);
    lemma_no_prefix(cr_chunks(Seq::empty(), buf));
    assert(Seq::<u8>::empty() + buf =~= buf);
    if buf.len() > 0 {
        lemma_prefix_first(prefix, cr_chunks(Seq::empty(), buf));
        lemma_prefixed_len(prefix, cr_chunks(Seq::empty(), buf));
    }
}

/// The prefixed bytes of some chunks hold at least the first prefix and every byte.
proof fn lemma_prefixed_len(prefix: Seq<u8>, chunks: Seq<Seq<u8>>)
    requires
        chunks.len() > 0,
    ensures
        with_prefix(prefix, chunks).len() >= prefix.len() + chunks.flatten().len(),
    decreases chunks.len(),
{
    let c = chunks.last();
    let rest = chunks.drop_last();
    rest.lemma_flatten_push(c);
    assert(rest.push(c) =~= chunks);
    if chunks.len() == 1 {
        assert(rest.flatten() == Seq::<u8>::empty());
    } else {
        lemma_prefixed_len(prefix, rest);
    }
}

/// The first chunk is where the bytes begin, and it runs to a carriage return or to the end.
proof fn lemma_first_chunk(cur: Seq<u8>, buf: Seq<u8>)
    requires
        cur.len() + buf.len() > 0,
    ensures
        cr_chunks(cur, buf).len() > 0,
        ({
            let c0 = cr_chunks(cur, buf)[0];
            &&& c0.len() >= 1
            &&& c0.len() <= cur.len() + buf.len()
            &&& c0 == (cur + buf).take(c0.len() as int)
            &&& (c0.len() == cur.len() + buf.len() || c0[c0.len() - 1] == CARRIAGE_RETURN)
        }),
    decreases buf.len(),
{
    lemma_cr_chunks_keep_bytes(cur, buf);
    if buf.len() == 0 {
        assert(cur + buf =~= cur);
        assert(cur.take(cur.len() as int) =~= cur);
    } else {
        let p = cur.push(buf[0]);
        assert(p + buf.drop_first() =~= cur + buf);
        if buf[0] == CARRIAGE_RETURN {
            assert((seq![p] + cr_chunks(Seq::empty(), buf.drop_first()))[0] == p);
            assert((cur + buf).take(p.len() as int) =~= p);
        } else {
            lemma_first_chunk(p, buf.drop_first());
        }
    }
}

/// Chunks are cut after each carriage return, so bytes after one are cut as on their own.
proof fn lemma_chunks_after_cr(cur: Seq<u8>, a: Seq<u8>, b: Seq<u8>)
    requires
        a.len() > 0,
        a[a.len() - 1] == CARRIAGE_RETURN,
    ensures
        cr_chunks(cur, a + b) == cr_chunks(cur, a) + cr_chunks(Seq::empty(), b),
    decreases a.len(),
{
    let p = cur.push(a[0]);
    assert((a + b)[0] == a[0]);
    assert((a + b).drop_first() =~= a.drop_first() + b);
    if a.len() == 1 {
        assert(a.drop_first() =~= Seq::<u8>::empty());
        assert(a.drop_first() + b =~= b);
        assert(cr_chunks(Seq::<u8>::empty(), Seq::<u8>::empty()) =~= Seq::<Seq<u8>>::empty());
        assert(seq![p] + Seq::<Seq<u8>>::empty() =~= seq![p]);
    } else {
        assert(a.drop_first()[a.drop_first().len() - 1] == CARRIAGE_RETURN);
        if a[0] == CARRIAGE_RETURN {
            lemma_chunks_after_cr(Seq::empty(), a.drop_first(), b);
            assert(seq![p] + (cr_chunks(Seq::empty(), a.drop_first()) + cr_chunks(Seq::empty(), b)) =~= (seq![p]
                + cr_chunks(Seq::empty(), a.drop_first())) + cr_chunks(Seq::empty(), b));
        } else {
            lemma_chunks_after_cr(p, a.drop_first(), b);
        }
    }
}

/// Prefixing two runs of chunks one after the other, when the second does not begin with a lone
/// newline, gives the prefixed bytes of each, one after the other.
proof fn lemma_prefix_concat(prefix: Seq<u8>, xs: Seq<Seq<u8>>, ys: Seq<Seq<u8>>)
    requires
        xs.len() > 0,
        ys.len() == 0 || ys[0] != seq![NEWLINE],
    ensures
        with_prefix(prefix, xs + ys) == with_prefix(prefix, xs) + with_prefix(prefix, ys),
    decreases ys.len(),
{
    if ys.len() == 0 {
        assert(xs + ys =~= xs);
        assert(with_prefix(prefix, xs) + Seq::<u8>::empty() =~= with_prefix(prefix, xs));
    } else {
        let rest = ys.drop_last();
        assert((xs + ys).drop_last() =~= xs + rest);
        assert((xs + ys).last() == ys.last());
        if rest.len() > 0 {
            assert(rest[0] == ys[0]);
        }
        lemma_prefix_concat(prefix, xs, rest);
        if ys.len() == 1 {
            assert(ys.last() == ys[0]);
            assert(with_prefix(prefix, rest) == Seq::<u8>::empty());
        }
        let c = ys.last();
        let h = if c != seq![NEWLINE] { prefix } else { Seq::<u8>::empty() };
        assert(with_prefix(prefix, xs) + with_prefix(prefix, rest) + h + c =~= with_prefix(prefix, xs) + (
        with_prefix(prefix, rest) + h + c));
    }
}

/// After a carriage return the cursor is back at the start of the line, so what follows is
/// written after the prefix again, as if written alone; but a lone newline there ends the line
/// already prefixed and goes without a prefix.
pub proof fn law_prefix_again_after_carriage_return(prefix: Seq<u8>, a: Seq<u8>, b: Seq<u8>)
    requires
        a.len() > 0,
        a[a.len() - 1] == CARRIAGE_RETURN,
    ensures
        with_prefix(prefix, cr_chunks(Seq::empty(), a + b)) == with_prefix(prefix, cr_chunks(Seq::empty(), a)) + (
        if b == seq![NEWLINE] {
            b
        } else {
            with_prefix(prefix, cr_chunks(Seq::empty(), b))
        }),
{
    let e = Seq::<u8>::empty();
    lemma_chunks_after_cr(e, a, b);
    let xs = cr_chunks(e, a);
    let ys = cr_chunks(e, b);
    lemma_first_chunk(e, a);
    if b == seq![NEWLINE] {
        assert(b.drop_first() =~= Seq::<u8>::empty());
        assert(ys == seq![seq![NEWLINE]]) by {
            assert(b[0] == NEWLINE);
            assert(e.push(b[0]) =~= seq![NEWLINE]);
            assert(cr_chunks(e.push(b[0]), b.drop_first()) == seq![e.push(b[0])]);
            assert(ys == cr_chunks(e.push(b[0]), b.drop_first()));
        }
        assert(xs + ys == xs.push(seq![NEWLINE]));
        assert((xs + ys).drop_last() =~= xs);
        assert(with_prefix(prefix, xs) + e + seq![NEWLINE] =~= with_prefix(prefix, xs) + b);
    } else {
        if b.len() > 0 {
            lemma_first_chunk(e, b);
            let c0 = ys[0];
            if c0 == seq![NEWLINE] {
                assert(e + b =~= b);
                assert(c0[0] == b[0]);
                assert(b =~= seq![NEWLINE]);
            }
        } else {
            lemma_cr_chunks_keep_bytes(e, b);
            assert(ys.len() == 0);
        }
        lemma_prefix_concat(prefix, xs, ys);
    }
}

/// The chunks of `buf`, each up to and with a carriage return.
fn split_cr(buf: &[u8]) -> (r: Vec<Vec<u8>>)
    ensures
        r@.map_values(|c: Vec<u8>| c@) == cr_chunks(Seq::empty(), buf@),
{
    let mut chunks: Vec<Vec<u8>> = Vec::new();
    let mut cur: Vec<u8> = Vec::new();
    let mut i: usize = 0;
    proof {
        assert(buf@.skip(0) =~= buf@);
        assert(chunks@.map_values(|c: Vec<u8>| c@) + cr_chunks(cur@, buf@) =~= cr_chunks(cur@, buf@));
    }
    while i < buf.len()
        invariant
            i <= buf.len(),
            cr_chunks(Seq::empty(), buf@) == chunks@.map_values(|c: Vec<u8>| c@) + cr_chunks(cur@, buf@.skip(i as int)),
        decreases buf.len() - i,
    {
        let b = buf[i];
        let ghost before_cur = cur@;
        let ghost before = chunks@.map_values(|c: Vec<u8>| c@);
        proof {
            assert(buf@.skip(i as int).drop_first() =~= buf@.skip(i + 1));
            assert(buf@.skip(i as int)[0] == b);
        }
        cur.push(b);
        if b == CARRIAGE_RETURN {
            let mut chunk: Vec<u8> = Vec::new();
            std::mem::swap(&mut chunk, &mut cur);
            chunks.push(chunk);
            proof {
                let rest = cr_chunks(Seq::<u8>::empty(), buf@.skip(i + 1));
                assert(chunks@.map_values(|c: Vec<u8>| c@) =~= before.push(before_cur.push(b)));
                assert(before + (seq![before_cur.push(b)] + rest) =~= before.push(before_cur.push(b)) + rest);
                assert(cur@ =~= Seq::<u8>::empty());
            }
        }
        i = i + 1;
    }
    proof {
        assert(buf@.skip(i as int) =~= Seq::<u8>::empty());
    }
    if cur.len() > 0 {
        let ghost before = chunks@.map_values(|c: Vec<u8>| c@);
        let ghost last = cur@;
        chunks.push(cur);
        proof {
            assert(chunks@.map_values(|c: Vec<u8>| c@) =~= before + seq![last]);
        }
    } else {
        proof {
            assert(chunks@.map_values(|c: Vec<u8>| c@) + Seq::<Seq<u8>>::empty() =~= chunks@.map_values(
                |c: Vec<u8>| c@,
            ));
        }
    }
    chunks
}

/// The bytes a prefixed writer passes on for `buf`: each chunk up to a carriage return is
/// written after the prefix, so that a line redrawn from its start keeps its prefix. A newline
/// right after a carriage return gets no prefix of its own.
pub fn prefixed_bytes(prefix: &[u8], buf: &[u8]) -> (r: Vec<u8>)
    ensures
        r@ == with_prefix(prefix@, cr_chunks(Seq::empty(), buf@)),
{
    let chunks = split_cr(buf);
    let ghost cs = chunks@.map_values(|c: Vec<u8>| c@);
    let mut out: Vec<u8> = Vec::new();
    let mut i: usize = 0;
    while i < chunks.len()
        invariant
            i <= chunks.len(),
            cs == chunks@.map_values(|c: Vec<u8>| c@),
            out@ == with_prefix(prefix@, cs.take(i as int)),
        decreases chunks.len() - i,
    {
        proof {
            assert(cs.take(i + 1).drop_last() =~= cs.take(i as int));
            assert(cs.take(i + 1).last() == chunks@[i as int]@);
        }
        let is_newline = chunks[i].len() == 1 && chunks[i][0] == NEWLINE;
        proof {
            assert(is_newline <==> chunks@[i as int]@ == seq![NEWLINE]) by {
                if chunks@[i as int]@ == seq![NEWLINE] {
                    assert(chunks@[i as int]@[0] == NEWLINE);
                }
                if is_newline {
                    assert(chunks@[i as int]@ =~= seq![NEWLINE]);
                }
            }
        }
        if i == 0 || !is_newline {
            let mut p = copy_bytes_slice(prefix);
            out.append(&mut p);
        }
        let mut c = copy_bytes(&chunks[i]);
        out.append(&mut c);
        proof {
            assert(out@ =~= with_prefix(prefix@, cs.take(i + 1)));
        }
        i = i + 1;
    }
    proof {
        assert(cs.take(chunks.len() as int) =~= cs);
    }
    out
}

/// A copy of some bytes.
fn copy_bytes_slice(v: &[u8]) -> (r: Vec<u8>)
    ensures
        r@ == v@,
{
    let mut r: Vec<u8> = Vec::new();
    let mut i: usize = 0;
    while i < v.len()
        invariant
            i <= v.len(),
            r@ == v@.take(i as int),
        decreases v.len() - i,
    {
        r.push(v[i]);
        proof {
            assert(v@.take(i + 1) =~= v@.take(i as int).push(v@[i as int]));
        }
        i = i + 1;
    }
    proof {
        assert(v@.take(v.len() as int) =~= v@);
    }
    r
}

/// A copy of some bytes.
fn copy_bytes(v: &Vec<u8>) -> (r: Vec<u8>)
    ensures
        r@ == v@,
{
    let mut r: Vec<u8> = Vec::new();
    let mut i: usize = 0;
    while i < v.len()
        invariant
            i <= v.len(),
            r@ == v@.take(i as int),
        decreases v.len() - i,
    {
        r.push(v[i]);
        proof {
            assert(v@.take(i + 1) =~= v@.take(i as int).push(v@[i as int]));
        }
        i = i + 1;
    }
    proof {
        assert(v@.take(v.len() as int) =~= v@);
    }
    r
}

} // verus!
