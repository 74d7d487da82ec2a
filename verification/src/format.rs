//! The renderer contract and the plain-text renderer.  A renderer consumes
//! one frame group at a time, tagged with the originating offset, and must
//! also be told explicitly when an offset resolved to nothing, so a caller
//! can tell "resolved to nothing" from "never attempted".

use vstd::prelude::*;
use vstd::string::StringSliceAdditionalSpecFns;
use crate::frames::{FrameView, FunctionFrames};

verus! {

/// One notification received by a renderer.
pub enum RenderEvent {
    /// A group of resolved frames for one offset.
    Group { addr: u32, frames: Seq<FrameView> },
    /// No symbols were found for this offset.
    NoSymbols { addr: u32 },
}

/// A pluggable sink for resolved frames.  The events a formatter has
/// received are its abstract state: each call appends exactly one event,
/// so a group is rendered atomically and in order.
pub trait Formatter {
    /// The notifications received so far, oldest first.
    spec fn events(&self) -> Seq<RenderEvent>;

    /// Renders the frames resolved for the offset `addr` as one atomic
    /// group.  The group may hold any number of frames.
    fn write_frames(&mut self, addr: u32, frames: &FunctionFrames)
        ensures
            final(self).events() == old(self).events().push(
                RenderEvent::Group { addr, frames: frames@ },
            ),
    ;

    /// Reports that no symbols were found for the offset `addr`.
    fn write_no_frames(&mut self, addr: u32)
        ensures
            final(self).events() == old(self).events().push(RenderEvent::NoSymbols { addr }),
    ;
}

/// The decimal digits of `n`, most significant first.
pub open spec fn dec_digits(n: nat) -> Seq<u8>
    decreases n,
{
    if n < 10 {
        seq![(48 + n) as u8]
    } else {
        dec_digits(n / 10) + seq![(48 + n % 10) as u8]
    }
}

/// The lower-case hexadecimal byte of a digit below 16.
pub open spec fn hex_digit(d: nat) -> u8 {
    if d < 10 {
        (48 + d) as u8
    } else {
        (87 + d) as u8
    }
}

/// The lower-case hexadecimal digits of `n`, most significant first.
pub open spec fn hex_digits(n: nat) -> Seq<u8>
    decreases n,
{
    if n < 16 {
        seq![hex_digit(n)]
    } else {
        hex_digits(n / 16) + seq![hex_digit(n % 16)]
    }
}

/// Appends the bytes of a borrowed slice.
pub fn append_bytes(out: &mut Vec<u8>, bytes: &[u8])
    ensures
        final(out)@ == old(out)@ + bytes@,
{
    let mut i: usize = 0;
    while i < bytes.len()
        invariant
            i <= bytes@.len(),
            out@ == old(out)@ + bytes@.take(i as int),
        decreases bytes@.len() - i,
    {
        proof {
            assert((old(out)@ + bytes@.take(i as int)).push(bytes@[i as int]) =~= old(out)@
                + bytes@.take(i as int + 1));
        }
        out.push(bytes[i]);
        i = i + 1;
    }
    proof {
        assert(bytes@.take(bytes@.len() as int) =~= bytes@);
    }
}

/// Appends the bytes of a string literal.
pub fn append_str(out: &mut Vec<u8>, s: &str)
    ensures
        final(out)@ == old(out)@ + s.spec_bytes(),
{
    append_bytes(out, s.as_bytes());
}

/// Appends the decimal digits of `n`.
pub fn push_dec(n: u64, out: &mut Vec<u8>)
    ensures
        final(out)@ == old(out)@ + dec_digits(n as nat),
    decreases n,
{
    if n < 10 {
        out.push(48 + n as u8);
        proof {
            assert(out@ =~= old(out)@ + dec_digits(n as nat));
        }
    } else {
        push_dec(n / 10, out);
        out.push(48 + (n % 10) as u8);
        proof {
            assert(out@ =~= old(out)@ + dec_digits(n as nat));
        }
    }
}

/// Appends the lower-case hexadecimal digits of `n`.
pub fn push_hex(n: u32, out: &mut Vec<u8>)
    ensures
        final(out)@ == old(out)@ + hex_digits(n as nat),
    decreases n,
{
    let d: u32 = n % 16;
    let digit: u8 = if d < 10 {
        48 + d as u8
    } else {
        87 + d as u8
    };
    if n < 16 {
        out.push(digit);
        proof {
            assert(out@ =~= old(out)@ + hex_digits(n as nat));
        }
    } else {
        push_hex(n / 16, out);
        out.push(digit);
        proof {
            assert(out@ =~= old(out)@ + hex_digits(n as nat));
        }
    }
}

/// A text field with its fallback: the field's bytes where present, the
/// sentinel otherwise.
pub open spec fn opt_bytes(o: Option<Seq<u8>>, fallback: Seq<u8>) -> Seq<u8> {
    match o {
        Some(s) => s,
        None => fallback,
    }
}

/// A line number rendered in decimal, or the `??` sentinel.
pub open spec fn line_text(line: Option<u32>) -> Seq<u8> {
    match line {
        Some(l) => dec_digits(l as nat),
        None => "??".spec_bytes(),
    }
}

/// One plain-text frame line: function, file and line, with sentinels for
/// what is missing.
pub open spec fn text_frame_line(f: FrameView) -> Seq<u8> {
    "     ".spec_bytes() + opt_bytes(f.function, "<unknown>".spec_bytes()) + " at ".spec_bytes()
        + opt_bytes(f.file, "??".spec_bytes()) + ":".spec_bytes() + line_text(f.line)
        + "\n".spec_bytes()
}

/// The frame lines of a group, in order.
pub open spec fn text_frame_lines(frames: Seq<FrameView>) -> Seq<u8>
    decreases frames.len(),
{
    if frames.len() == 0 {
        Seq::empty()
    } else {
        text_frame_line(frames[0]) + text_frame_lines(frames.drop_first())
    }
}

/// One plain-text group: a header with the offset in hexadecimal and the
/// frame count, then one line per frame.
pub open spec fn text_group(addr: u32, frames: Seq<FrameView>) -> Seq<u8> {
    "0x".spec_bytes() + hex_digits(addr as nat) + " - ".spec_bytes() + dec_digits(frames.len())
        + " frames:\n".spec_bytes() + text_frame_lines(frames)
}

/// The plain-text notice for an offset without symbols.
pub open spec fn text_no_symbols(addr: u32) -> Seq<u8> {
    hex_digits(addr as nat) + " - no frames found\n".spec_bytes()
}

/// The plain-text rendering of one event.
pub open spec fn text_event(e: RenderEvent) -> Seq<u8> {
    match e {
        RenderEvent::Group { addr, frames } => text_group(addr, frames),
        RenderEvent::NoSymbols { addr } => text_no_symbols(addr),
    }
}

/// The plain-text rendering of a whole event run.
pub open spec fn text_events(es: Seq<RenderEvent>) -> Seq<u8>
    decreases es.len(),
{
    if es.len() == 0 {
        Seq::empty()
    } else {
        text_events(es.drop_last()) + text_event(es.last())
    }
}

/// The plain-text renderer: one header line per offset, then one line per
/// resolved frame, collected into an owned byte buffer.
pub struct DefaultFormatter {
    out: Vec<u8>,
    events: Ghost<Seq<RenderEvent>>,
}

impl DefaultFormatter {
    /// The buffer always holds exactly the rendering of the received
    /// events.
    #[verifier::type_invariant]
    closed spec fn wf(&self) -> bool {
        self.out@ == text_events(self.events@)
    }

    /// An empty renderer.
    pub fn new() -> (r: Self)
        ensures
            r.events() == Seq::<RenderEvent>::empty(),
    {
        DefaultFormatter { out: Vec::new(), events: Ghost(Seq::empty()) }
    }

    /// The rendered text: exactly the rendering of the received events.
    pub fn output(self) -> (r: Vec<u8>)
        ensures
            r@ == text_events(self.events()),
    {
        proof {
            use_type_invariant(&self);
        }
        self.out
    }
}

impl Formatter for DefaultFormatter {
    closed spec fn events(&self) -> Seq<RenderEvent> {
        self.events@
    }

    #[verifier::rlimit(50)]
    fn write_frames(&mut self, addr: u32, frames: &FunctionFrames) {
        proof {
            use_type_invariant(&*self);
        }
        let mut taken = DefaultFormatter { out: Vec::new(), events: Ghost(Seq::empty()) };
        core::mem::swap(self, &mut taken);
        let DefaultFormatter { out: mut out, events: evs_g } = taken;
        let ghost evs = evs_g@;
        let ghost start = out@;
        let ghost fv = frames@;
        append_str(&mut out, "0x");
        push_hex(addr, &mut out);
        append_str(&mut out, " - ");
        push_dec(frames.frames.len() as u64, &mut out);
        append_str(&mut out, " frames:\n");
        proof {
            assert(fv.skip(0) =~= fv);
            lemma_text_frame_lines_skip_all(fv);
            assert(out@ + text_frame_lines(fv.skip(0)) =~= start + text_group(addr, fv));
        }
        let mut i: usize = 0;
        while i < frames.frames.len()
            invariant
                i <= fv.len(),
                fv == frames@,
                out@ + text_frame_lines(fv.skip(i as int)) == start + text_group(addr, fv),
            decreases fv.len() - i,
        {
            let ghost line_start = out@;
            proof {
                assert(fv.skip(i as int)[0] == fv[i as int]);
                assert(fv.skip(i as int).drop_first() =~= fv.skip(i as int + 1));
            }
            append_str(&mut out, "     ");
            match &frames.frames[i].function {
                Some(f) => append_bytes(&mut out, f.as_slice()),
                None => append_str(&mut out, "<unknown>"),
            }
            append_str(&mut out, " at ");
            match &frames.frames[i].file {
                Some(f) => append_bytes(&mut out, f.as_slice()),
                None => append_str(&mut out, "??"),
            }
            append_str(&mut out, ":");
            match frames.frames[i].line {
                Some(l) => push_dec(l as u64, &mut out),
                None => append_str(&mut out, "??"),
            }
            append_str(&mut out, "\n");
            proof {
                assert(frames.frames@[i as int]@ == fv[i as int]);
                assert(out@ =~= line_start + text_frame_line(fv[i as int]));
                assert((line_start + text_frame_line(fv[i as int])) + text_frame_lines(
                    fv.skip(i as int + 1),
                ) =~= line_start + (text_frame_line(fv[i as int]) + text_frame_lines(
                    fv.skip(i as int + 1),
                )));
            }
            i = i + 1;
        }
        let ghost ev = RenderEvent::Group { addr, frames: fv };
        proof {
            assert(fv.skip(fv.len() as int) =~= Seq::<FrameView>::empty());
            assert(out@ + Seq::<u8>::empty() =~= out@);
            assert(evs.push(ev).drop_last() =~= evs);
            assert(evs.push(ev).last() == ev);
        }
        *self = DefaultFormatter { out, events: Ghost(evs.push(ev)) };
    }

    fn write_no_frames(&mut self, addr: u32) {
        proof {
            use_type_invariant(&*self);
        }
        let mut taken = DefaultFormatter { out: Vec::new(), events: Ghost(Seq::empty()) };
        core::mem::swap(self, &mut taken);
        let DefaultFormatter { out: mut out, events: evs_g } = taken;
        let ghost evs = evs_g@;
        push_hex(addr, &mut out);
        append_str(&mut out, " - no frames found\n");
        let ghost ev = RenderEvent::NoSymbols { addr };
        proof {
            assert(out@ =~= text_events(evs) + text_no_symbols(addr));
            assert(evs.push(ev).drop_last() =~= evs);
            assert(evs.push(ev).last() == ev);
        }
        *self = DefaultFormatter { out, events: Ghost(evs.push(ev)) };
    }
}

/// Rendering no frames appends nothing.
proof fn lemma_text_frame_lines_skip_all(frames: Seq<FrameView>)
    ensures
        text_frame_lines(frames.skip(frames.len() as int)) == Seq::<u8>::empty(),
{
    assert(frames.skip(frames.len() as int) =~= Seq::<FrameView>::empty());
}

} // verus!
