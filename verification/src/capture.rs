//! The trace-token builder: module-relative stack offsets, innermost frame
//! first, are each encoded with the codec and concatenated into one opaque,
//! URL-safe token with no delimiter.  The per-frame policy of the stack
//! walker also lives here: a frame whose owning module cannot be identified,
//! or whose offset does not fit the signed 32-bit range, is skipped rather
//! than emitted as a garbage offset.

use vstd::prelude::*;
use crate::error::CodecError;
use crate::vlq::{
    decode_run, decode_seq, encode_vlq, lemma_decode_encoded_at, values_view, vlq_encode,
};

verus! {

/// The token built from a sequence of offsets: the encoded form of each,
/// concatenated in order.
pub open spec fn build_spec(offsets: Seq<int>) -> Seq<u8>
    decreases offsets.len(),
{
    if offsets.len() == 0 {
        Seq::empty()
    } else {
        encode_vlq(offsets[0]) + build_spec(offsets.drop_first())
    }
}

/// Building a token is compositional: the token of two offset runs laid end
/// to end is the two tokens laid end to end.
pub proof fn lemma_build_append(a: Seq<int>, b: Seq<int>)
    ensures
        build_spec(a + b) == build_spec(a) + build_spec(b),
    decreases a.len(),
{
    if a.len() == 0 {
        assert(a + b =~= b);
        assert(build_spec(a) + build_spec(b) =~= build_spec(b));
    } else {
        assert((a + b).drop_first() =~= a.drop_first() + b);
        lemma_build_append(a.drop_first(), b);
        assert(encode_vlq(a[0]) + (build_spec(a.drop_first()) + build_spec(b)) =~= (encode_vlq(
            a[0],
        ) + build_spec(a.drop_first())) + build_spec(b));
    }
}

/// Builds the trace token for a sequence of module-relative offsets,
/// innermost frame first.  Deterministic: equal inputs give equal tokens.
pub fn build_trace(offsets: &[i32]) -> (token: Vec<u8>)
    requires
        forall|k: int| 0 <= k < offsets@.len() ==> #[trigger] offsets@[k] != i32::MIN,
    ensures
        token@ == build_spec(values_view(offsets@)),
{
    let ghost vv = values_view(offsets@);
    let mut token: Vec<u8> = Vec::new();
    proof {
        assert(vv.skip(0) =~= vv);
        assert(token@ + build_spec(vv) =~= build_spec(vv));
    }
    let mut k: usize = 0;
    while k < offsets.len()
        invariant
            k <= offsets@.len(),
            vv == values_view(offsets@),
            forall|j: int| 0 <= j < offsets@.len() ==> #[trigger] offsets@[j] != i32::MIN,
            token@ + build_spec(vv.skip(k as int)) == build_spec(vv),
        decreases offsets@.len() - k,
    {
        proof {
            assert(vv.skip(k as int)[0] == vv[k as int]);
            assert(vv.skip(k as int).drop_first() =~= vv.skip(k as int + 1));
        }
        let ghost before = token@;
        vlq_encode(offsets[k], &mut token);
        proof {
            assert(before + (encode_vlq(vv[k as int]) + build_spec(vv.skip(k as int + 1))) =~= (
            before + encode_vlq(vv[k as int])) + build_spec(vv.skip(k as int + 1)));
        }
        k = k + 1;
    }
    proof {
        assert(vv.skip(vv.len() as int) =~= Seq::empty());
        assert(token@ + Seq::<u8>::empty() =~= token@);
    }
    token
}

/// The module-relative offset of a captured instruction pointer, or `None`
/// if the offset would fall outside the signed 32-bit range that a token
/// can carry.
pub fn frame_offset(ip: u64, module_base: u64) -> (r: Option<i32>)
    ensures
        match r {
            Some(off) => module_base <= ip && ip - module_base <= 0x7fff_ffff && off == ip
                - module_base,
            None => ip < module_base || ip - module_base > 0x7fff_ffff,
        },
{
    if ip >= module_base && ip - module_base <= 0x7fff_ffff {
        Some((ip - module_base) as i32)
    } else {
        None
    }
}

/// Builds a trace token one walked frame at a time, applying the per-frame
/// skip policy: a frame is appended only when its module was identified and
/// its offset fits the supported range.
pub struct TraceBuilder {
    token: Vec<u8>,
    offsets: Ghost<Seq<int>>,
}

impl TraceBuilder {
    /// The offsets appended so far, innermost frame first.
    pub closed spec fn offsets(&self) -> Seq<int> {
        self.offsets@
    }

    /// The builder's token is always exactly the built form of its offsets,
    /// each of which lies in the supported range.
    pub closed spec fn wf(&self) -> bool {
        &&& self.token@ == build_spec(self.offsets@)
        &&& forall|k: int|
            0 <= k < self.offsets@.len() ==> 0 <= #[trigger] self.offsets@[k] <= 0x7fff_ffff
    }

    /// An empty builder: no frames, an empty token.
    pub fn new() -> (r: Self)
        ensures
            r.wf(),
            r.offsets() == Seq::<int>::empty(),
    {
        let r = TraceBuilder { token: Vec::new(), offsets: Ghost(Seq::empty()) };
        proof {
            assert(build_spec(Seq::empty()) == Seq::<u8>::empty());
        }
        r
    }

    /// Appends one walked frame.  A frame whose module lookup failed
    /// (`module_base` is `None`), or whose offset does not fit the signed
    /// 32-bit range, is skipped and the token is left unchanged; the walk
    /// itself goes on.  Returns whether the frame was appended.
    pub fn push_frame(&mut self, ip: u64, module_base: Option<u64>) -> (added: bool)
        requires
            old(self).wf(),
        ensures
            final(self).wf(),
            match module_base {
                Some(base) => if base <= ip && ip - base <= 0x7fff_ffff {
                    added && final(self).offsets() == old(self).offsets().push((ip - base) as int)
                } else {
                    !added && final(self).offsets() == old(self).offsets()
                },
                None => !added && final(self).offsets() == old(self).offsets(),
            },
    {
        match module_base {
            None => false,
            Some(base) => {
                match frame_offset(ip, base) {
                    None => false,
                    Some(off) => {
                        let ghost olds = self.offsets@;
                        vlq_encode(off, &mut self.token);
                        proof {
                            self.offsets@ = olds.push(off as int);
                            lemma_build_append(olds, seq![off as int]);
                            assert(olds + seq![off as int] =~= olds.push(off as int));
                            assert(seq![off as int].drop_first() =~= Seq::<int>::empty());
                            assert(build_spec(seq![off as int]) == encode_vlq(off as int)
                                + build_spec(Seq::<int>::empty()));
                            assert(encode_vlq(off as int) + Seq::<u8>::empty() =~= encode_vlq(
                                off as int,
                            ));
                        }
                        true
                    },
                }
            },
        }
    }

    /// The finished token.
    pub fn token(self) -> (t: Vec<u8>)
        requires
            self.wf(),
        ensures
            t@ == build_spec(self.offsets()),
    {
        self.token
    }
}

/// A token built from offsets decodes back to exactly those offsets: the
/// full stream, in order, with normal termination.  Stated for a built
/// token standing at any position that reaches the end of a stream.
pub proof fn lemma_decode_of_built(offsets: Seq<int>, s: Seq<u8>, pos: int)
    requires
        forall|k: int| 0 <= k < offsets.len() ==> -0x8000_0000 < #[trigger] offsets[k] <= 0x7fff_ffff,
        0 <= pos <= s.len(),
        s.subrange(pos, s.len() as int) == build_spec(offsets),
    ensures
        decode_run(s, pos) == (offsets, None::<CodecError>),
    decreases offsets.len(),
{
    if offsets.len() == 0 {
        assert(offsets =~= Seq::<int>::empty());
        assert(pos == s.len());
    } else {
        let x = offsets[0];
        let ex = encode_vlq(x);
        let rest = offsets.drop_first();
        let whole = s.subrange(pos, s.len() as int);
        assert(whole == ex + build_spec(rest));
        let end = pos + ex.len() as int;
        assert(s.subrange(pos, end) =~= ex) by {
            assert(forall|k: int| 0 <= k < ex.len() ==> #[trigger] whole[k] == ex[k]);
            assert(forall|k: int|
                0 <= k < ex.len() ==> #[trigger] s.subrange(pos, end)[k] == whole[k]);
        };
        lemma_decode_encoded_at(x, s, pos);
        assert(s.subrange(end, s.len() as int) =~= build_spec(rest)) by {
            assert(forall|k: int|
                0 <= k < s.len() - end ==> #[trigger] s.subrange(end, s.len() as int)[k] == whole[k
                    + ex.len()]);
        };
        lemma_decode_of_built(rest, s, end);
        crate::vlq::lemma_decode_vlq_bounds(s, pos);
        assert(decode_run(s, pos) == (seq![x] + decode_run(s, end).0, decode_run(s, end).1));
        assert(seq![x] + rest =~= offsets);
    }
}

/// End to end: decoding the token built from a sequence of offsets yields
/// exactly that sequence.
pub proof fn trace_round_trip(offsets: Seq<int>)
    requires
        forall|k: int| 0 <= k < offsets.len() ==> -0x8000_0000 < #[trigger] offsets[k] <= 0x7fff_ffff,
    ensures
        decode_seq(build_spec(offsets)) == Ok::<Seq<int>, CodecError>(offsets),
{
    let s = build_spec(offsets);
    assert(s.subrange(0, s.len() as int) =~= s);
    lemma_decode_of_built(offsets, s, 0);
}

} // verus!
