//! The HTML renderer: each resolved frame becomes a list item, and source
//! paths that follow a known convention are rewritten into permalinks — a
//! toolchain-internal path embeds a build commit hash and in-tree path, and
//! a known project name found as a path segment links against that
//! project's default branch.  Anything else is shown verbatim.

use vstd::prelude::*;
use vstd::string::StringSliceAdditionalSpecFns;
use crate::format::{
    append_bytes, append_str, hex_digits, line_text, opt_bytes, push_dec, push_hex, Formatter,
    RenderEvent,
};
use crate::frames::{FrameView, FunctionFrames};

verus! {

/// A path with every backslash turned into a forward slash.
pub open spec fn normalize_path(s: Seq<u8>) -> Seq<u8> {
    s.map(|k: int, b: u8| if b == 92 { 47u8 } else { b })
}

/// The position of the first `b` in `s` at or after `from`, or the length
/// of `s` if there is none.
pub open spec fn find_byte(s: Seq<u8>, from: int, b: u8) -> int
    decreases s.len() - from,
{
    if from < 0 || from >= s.len() {
        s.len() as int
    } else if s[from] == b {
        from
    } else {
        find_byte(s, from + 1, b)
    }
}

/// `find_byte` stays between `from` and the length of `s`, lands on `b`
/// when it is inside the stream, and skips nothing.
pub proof fn lemma_find_byte(s: Seq<u8>, from: int, b: u8)
    requires
        0 <= from <= s.len(),
    ensures
        from <= find_byte(s, from, b) <= s.len(),
        find_byte(s, from, b) < s.len() ==> s[find_byte(s, from, b)] == b,
        forall|k: int| from <= k < find_byte(s, from, b) ==> s[k] != b,
    decreases s.len() - from,
{
    if from < s.len() && s[from] != b {
        lemma_find_byte(s, from + 1, b);
    }
}

/// The in-tree path after the first `deno` path segment, or `None` when no
/// segment equals `deno`.
pub open spec fn deno_tail(s: Seq<u8>, from: int) -> Option<Seq<u8>>
    decreases s.len() - from,
        via deno_tail_dec
{
    if from < 0 || from > s.len() {
        None
    } else {
        let e = find_byte(s, from, 47);
        if s.subrange(from, e) == "deno".spec_bytes() {
            Some(
                if e < s.len() {
                    s.subrange(e + 1, s.len() as int)
                } else {
                    Seq::empty()
                },
            )
        } else if e >= s.len() {
            None
        } else {
            deno_tail(s, e + 1)
        }
    }
}

#[via_fn]
proof fn deno_tail_dec(s: Seq<u8>, from: int) {
    if 0 <= from <= s.len() {
        lemma_find_byte(s, from, 47);
    }
}

/// The permalink for a toolchain-internal source path `/rustc/<hash>/<path>`:
/// the commit hash and in-tree path are spliced into an anchor against the
/// upstream repository, with the line number as a fragment.
pub open spec fn rustc_link(f: Seq<u8>, l: Seq<u8>) -> Seq<u8> {
    let h_end = find_byte(f, 7, 47);
    let hash = f.subrange(7, h_end);
    let path = if h_end < f.len() {
        f.subrange(h_end + 1, f.len() as int)
    } else {
        "??".spec_bytes()
    };
    "<a target='_blank' href='https://github.com/rust-lang/rust/tree/".spec_bytes() + hash
        + "/".spec_bytes() + path + "#L".spec_bytes() + l + "'>".spec_bytes() + path
        + "</a>".spec_bytes()
}

/// The permalink for a path that contains a `deno` segment: the rest of the
/// path is linked against the project's default branch.
pub open spec fn deno_link(path: Seq<u8>, l: Seq<u8>) -> Seq<u8> {
    "<a target='_blank' href='https://github.com/denoland/deno/blob/main/".spec_bytes() + path
        + "#L".spec_bytes() + l + "'>".spec_bytes() + path + "</a>".spec_bytes()
}

/// What `maybe_link_source` produces: the normalized path rewritten into a
/// permalink when it follows a known convention, else shown verbatim with
/// its line number.
#[verifier::opaque]
pub open spec fn link_source(file: Seq<u8>, line: Option<u32>) -> Seq<u8> {
    let f = normalize_path(file);
    let l = line_text(line);
    if f.len() >= 7 && f.subrange(0, 7) == "/rustc/".spec_bytes() {
        rustc_link(f, l)
    } else {
        match deno_tail(f, 0) {
            Some(path) => deno_link(path, l),
            None => f + ":".spec_bytes() + l,
        }
    }
}

/// Replaces every backslash with a forward slash.
fn normalize(file: &[u8]) -> (r: Vec<u8>)
    ensures
        r@ == normalize_path(file@),
{
    let mut r: Vec<u8> = Vec::new();
    let mut i: usize = 0;
    while i < file.len()
        invariant
            i <= file@.len(),
            r@ =~= normalize_path(file@).take(i as int),
        decreases file@.len() - i,
    {
        let b = file[i];
        if b == 92 {
            r.push(47);
        } else {
            r.push(b);
        }
        i = i + 1;
    }
    proof {
        assert(normalize_path(file@).take(file@.len() as int) =~= normalize_path(file@));
    }
    r
}

/// The position of the first `b` in `v` at or after `from`, or the length
/// of `v`.
fn find_in(v: &Vec<u8>, from: usize, b: u8) -> (e: usize)
    requires
        from <= v@.len(),
    ensures
        e as int == find_byte(v@, from as int, b),
        from <= e <= v@.len(),
{
    let mut j: usize = from;
    while j < v.len()
        invariant
            from <= j <= v@.len(),
            find_byte(v@, from as int, b) == find_byte(v@, j as int, b),
        decreases v@.len() - j,
    {
        if v[j] == b {
            return j;
        }
        j = j + 1;
    }
    v.len()
}

/// Whether the bytes of `v` between `start` and `end` equal `expected`.
fn range_eq(v: &Vec<u8>, start: usize, end: usize, expected: &[u8]) -> (r: bool)
    requires
        start <= end <= v@.len(),
    ensures
        r == (v@.subrange(start as int, end as int) == expected@),
{
    if end - start != expected.len() {
        proof {
            assert(v@.subrange(start as int, end as int).len() != expected@.len());
        }
        return false;
    }
    let mut k: usize = 0;
    while k < expected.len()
        invariant
            k <= expected@.len(),
            end - start == expected@.len(),
            start <= end <= v@.len(),
            forall|j: int| 0 <= j < k ==> v@[start + j] == expected@[j],
        decreases expected@.len() - k,
    {
        if v[start + k] != expected[k] {
            proof {
                assert(v@.subrange(start as int, end as int)[k as int] != expected@[k as int]);
            }
            return false;
        }
        k = k + 1;
    }
    proof {
        assert(v@.subrange(start as int, end as int) =~= expected@);
    }
    true
}

/// Appends the bytes of `v` between `start` and `end`.
fn append_range(out: &mut Vec<u8>, v: &Vec<u8>, start: usize, end: usize)
    requires
        start <= end <= v@.len(),
    ensures
        final(out)@ == old(out)@ + v@.subrange(start as int, end as int),
{
    let mut k: usize = start;
    while k < end
        invariant
            start <= k <= end <= v@.len(),
            out@ =~= old(out)@ + v@.subrange(start as int, k as int),
        decreases end - k,
    {
        out.push(v[k]);
        proof {
            assert(out@ =~= old(out)@ + v@.subrange(start as int, k as int + 1));
        }
        k = k + 1;
    }
}

/// Renders a source location: a permalink when the (normalized) path
/// follows a known convention, else the path shown verbatim with its line
/// number (`??` when the line is unknown).
pub fn maybe_link_source(file: &[u8], line: Option<u32>) -> (r: Vec<u8>)
    ensures
        r@ == link_source(file@, line),
{
    proof {
        reveal(link_source);
    }
    let f = normalize(file);
    let mut lt: Vec<u8> = Vec::new();
    match line {
        Some(l) => push_dec(l as u64, &mut lt),
        None => append_str(&mut lt, "??"),
    }
    proof {
        assert(lt@ =~= line_text(line));
    }
    if f.len() >= 7 && range_eq(&f, 0, 7, "/rustc/".as_bytes()) {
        proof {
            lemma_find_byte(f@, 7, 47);
        }
        let h_end = find_in(&f, 7, 47);
        let mut out: Vec<u8> = Vec::new();
        append_str(&mut out, "<a target='_blank' href='https://github.com/rust-lang/rust/tree/");
        append_range(&mut out, &f, 7, h_end);
        append_str(&mut out, "/");
        if h_end < f.len() {
            append_range(&mut out, &f, h_end + 1, f.len());
        } else {
            append_str(&mut out, "??");
        }
        append_str(&mut out, "#L");
        append_bytes(&mut out, lt.as_slice());
        append_str(&mut out, "'>");
        if h_end < f.len() {
            append_range(&mut out, &f, h_end + 1, f.len());
        } else {
            append_str(&mut out, "??");
        }
        append_str(&mut out, "</a>");
        proof {
            assert(out@ =~= rustc_link(f@, lt@));
        }
        return out;
    }
    let mut from: usize = 0;
    loop
        invariant
            from <= f@.len(),
            f@ == normalize_path(file@),
            lt@ == line_text(line),
            deno_tail(f@, 0) == deno_tail(f@, from as int),
            !(f@.len() >= 7 && f@.subrange(0, 7) == "/rustc/".spec_bytes()),
        decreases f@.len() - from,
    {
        proof {
            lemma_find_byte(f@, from as int, 47);
        }
        let e = find_in(&f, from, 47);
        if range_eq(&f, from, e, "deno".as_bytes()) {
            let mut out: Vec<u8> = Vec::new();
            append_str(
                &mut out,
                "<a target='_blank' href='https://github.com/denoland/deno/blob/main/",
            );
            if e < f.len() {
                append_range(&mut out, &f, e + 1, f.len());
            }
            append_str(&mut out, "#L");
            append_bytes(&mut out, lt.as_slice());
            append_str(&mut out, "'>");
            if e < f.len() {
                append_range(&mut out, &f, e + 1, f.len());
            }
            append_str(&mut out, "</a>");
            proof {
                reveal(link_source);
                let ghost path = deno_tail(f@, 0)->Some_0;
                if e < f.len() {
                    assert(out@ =~= deno_link(path, lt@));
                } else {
                    assert(path =~= Seq::<u8>::empty());
                    assert(out@ =~= deno_link(path, lt@));
                }
            }
            return out;
        } else if e >= f.len() {
            let mut out = f;
            append_str(&mut out, ":");
            append_bytes(&mut out, lt.as_slice());
            proof {
                reveal(link_source);
                assert(out@ =~= normalize_path(file@) + ":".spec_bytes() + line_text(line));
            }
            return out;
        }
        from = e + 1;
    }
}

/// One HTML frame line: a list item with the function name and the
/// (possibly permalinked) source location.
pub open spec fn html_frame_line(f: FrameView) -> Seq<u8> {
    "     <li>".spec_bytes() + opt_bytes(f.function, "<unknown>".spec_bytes()) + " at ".spec_bytes()
        + link_source(opt_bytes(f.file, "??".spec_bytes()), f.line) + "</li>\n".spec_bytes()
}

/// The HTML lines of a frame group, in order.
pub open spec fn html_frame_lines(frames: Seq<FrameView>) -> Seq<u8>
    decreases frames.len(),
{
    if frames.len() == 0 {
        Seq::empty()
    } else {
        html_frame_line(frames[0]) + html_frame_lines(frames.drop_first())
    }
}

/// The HTML notice for an offset without symbols.
pub open spec fn html_no_symbols(addr: u32) -> Seq<u8> {
    "     <li>0x".spec_bytes() + hex_digits(addr as nat) + " - no frames found</li>\n".spec_bytes()
}

/// The HTML rendering of one event.
pub open spec fn html_event(e: RenderEvent) -> Seq<u8> {
    match e {
        RenderEvent::Group { addr, frames } => html_frame_lines(frames),
        RenderEvent::NoSymbols { addr } => html_no_symbols(addr),
    }
}

/// The HTML rendering of a whole event run.
pub open spec fn html_events(es: Seq<RenderEvent>) -> Seq<u8>
    decreases es.len(),
{
    if es.len() == 0 {
        Seq::empty()
    } else {
        html_events(es.drop_last()) + html_event(es.last())
    }
}

/// The HTML renderer: one list item per resolved frame, with permalinked
/// source locations, collected into an owned byte buffer.
pub struct HtmlFormatter {
    out: Vec<u8>,
    events: Ghost<Seq<RenderEvent>>,
}

impl HtmlFormatter {
    /// The buffer always holds exactly the rendering of the received
    /// events.
    #[verifier::type_invariant]
    closed spec fn wf(&self) -> bool {
        self.out@ == html_events(self.events@)
    }

    /// An empty renderer.
    pub fn new() -> (r: Self)
        ensures
            r.events() == Seq::<RenderEvent>::empty(),
    {
        HtmlFormatter { out: Vec::new(), events: Ghost(Seq::empty()) }
    }

    /// The rendered text: exactly the rendering of the received events.
    pub fn output(self) -> (r: Vec<u8>)
        ensures
            r@ == html_events(self.events()),
    {
        proof {
            use_type_invariant(&self);
        }
        self.out
    }
}

impl Formatter for HtmlFormatter {
    closed spec fn events(&self) -> Seq<RenderEvent> {
        self.events@
    }

    #[verifier::rlimit(50)]
    fn write_frames(&mut self, addr: u32, frames: &FunctionFrames) {
        proof {
            use_type_invariant(&*self);
        }
        let mut taken = HtmlFormatter { out: Vec::new(), events: Ghost(Seq::empty()) };
        core::mem::swap(self, &mut taken);
        let HtmlFormatter { out: mut out, events: evs_g } = taken;
        let ghost evs = evs_g@;
        let ghost start = out@;
        let ghost fv = frames@;
        proof {
            assert(fv.skip(0) =~= fv);
        }
        let mut i: usize = 0;
        while i < frames.frames.len()
            invariant
                i <= fv.len(),
                fv == frames@,
                out@ + html_frame_lines(fv.skip(i as int)) == start + html_frame_lines(fv),
            decreases fv.len() - i,
        {
            let ghost line_start = out@;
            proof {
                assert(fv.skip(i as int)[0] == fv[i as int]);
                assert(fv.skip(i as int).drop_first() =~= fv.skip(i as int + 1));
            }
            append_str(&mut out, "     <li>");
            match &frames.frames[i].function {
                Some(f) => append_bytes(&mut out, f.as_slice()),
                None => append_str(&mut out, "<unknown>"),
            }
            append_str(&mut out, " at ");
            let link = match &frames.frames[i].file {
                Some(f) => maybe_link_source(f.as_slice(), frames.frames[i].line),
                None => maybe_link_source("??".as_bytes(), frames.frames[i].line),
            };
            append_bytes(&mut out, link.as_slice());
            append_str(&mut out, "</li>\n");
            proof {
                assert(frames.frames@[i as int]@ == fv[i as int]);
                assert(out@ =~= line_start + html_frame_line(fv[i as int]));
                assert((line_start + html_frame_line(fv[i as int])) + html_frame_lines(
                    fv.skip(i as int + 1),
                ) =~= line_start + (html_frame_line(fv[i as int]) + html_frame_lines(
                    fv.skip(i as int + 1),
                )));
            }
            i = i + 1;
        }
        let ghost ev = RenderEvent::Group { addr, frames: fv };
        proof {
            assert(fv.skip(fv.len() as int) =~= Seq::<FrameView>::empty());
            assert(out@ + Seq::<u8>::empty() =~= out@);
            assert(evs.push(ev).drop_last() =~= evs);
            assert(evs.push(ev).last() == ev);
        }
        *self = HtmlFormatter { out, events: Ghost(evs.push(ev)) };
    }

    fn write_no_frames(&mut self, addr: u32) {
        proof {
            use_type_invariant(&*self);
        }
        let mut taken = HtmlFormatter { out: Vec::new(), events: Ghost(Seq::empty()) };
        core::mem::swap(self, &mut taken);
        let HtmlFormatter { out: mut out, events: evs_g } = taken;
        let ghost evs = evs_g@;
        append_str(&mut out, "     <li>0x");
        push_hex(addr, &mut out);
        append_str(&mut out, " - no frames found</li>\n");
        let ghost ev = RenderEvent::NoSymbols { addr };
        proof {
            assert(out@ =~= html_events(evs) + html_no_symbols(addr));
            assert(evs.push(ev).drop_last() =~= evs);
            assert(evs.push(ev).last() == ev);
        }
        *self = HtmlFormatter { out, events: Ghost(evs.push(ev)) };
    }
}

} // verus!
