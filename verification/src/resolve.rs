//! The resolution pipeline: a trace token is decoded one offset at a time;
//! each offset is looked up in the debug-symbol database and the outcome —
//! a frame group or an explicit "no symbols found" notice — is handed to
//! the caller's renderer, in token order.  A codec error or a database
//! failure aborts the remainder of the token; everything rendered up to
//! that point stays rendered.  The database outcomes are pinned to their
//! names over the database bytes, so the contract says exactly when each
//! result is returned and exactly what was rendered.

use vstd::prelude::*;
use crate::error::{CodecError, Error};
use crate::format::{Formatter, RenderEvent};
use crate::frames::{opt_frames_view, FrameView, FunctionFrames};
use crate::symbols::{find_frames, frames_of, load_database, open_context, open_of};
use crate::vlq::{decode_run, vlq_decode};

verus! {

/// The event a renderer receives for one offset, given what the resolver
/// returned for it.
pub open spec fn event_view(addr: u32, found: Option<Seq<FrameView>>) -> RenderEvent {
    match found {
        Some(frames) => RenderEvent::Group { addr, frames },
        None => RenderEvent::NoSymbols { addr },
    }
}

/// The address a decoded offset is looked up under: its two's-complement
/// 32-bit image.
pub open spec fn addr_of(v: int) -> u32 {
    (if v >= 0 {
        v
    } else {
        v + 0x1_0000_0000
    }) as u32
}

/// The database's answer for one decoded offset.
pub open spec fn query_of(db: Seq<u8>, v: int) -> Result<Option<Seq<FrameView>>, ()> {
    frames_of(db, addr_of(v))
}

/// Whether the database answers the first `n` offsets without failing.
pub open spec fn queries_ok_upto(db: Seq<u8>, values: Seq<int>, n: int) -> bool {
    forall|k: int| 0 <= k < n ==> (#[trigger] query_of(db, values[k])) is Ok
}

/// The database's answers for the first `n` offsets, where they succeed.
pub open spec fn found_upto(db: Seq<u8>, values: Seq<int>, n: int) -> Seq<
    Option<Seq<FrameView>>,
> {
    Seq::new(n as nat, |k: int| query_of(db, values[k])->Ok_0)
}

/// The run of events a renderer receives for decoded values `values` and
/// per-offset resolver outcomes `found`.
pub open spec fn events_for(values: Seq<int>, found: Seq<Option<Seq<FrameView>>>) -> Seq<
    RenderEvent,
> {
    Seq::new(values.len(), |k: int| event_view(addr_of(values[k]), found[k]))
}

/// Passes one resolver outcome on to the renderer: the frame group when
/// one was found, the explicit no-symbols notification otherwise — never
/// silence, so a caller can tell "resolved to nothing" from "never
/// attempted".
pub fn dispatch_frames<F: Formatter>(formatter: &mut F, addr: u32, found: Option<FunctionFrames>)
    ensures
        final(formatter).events() == old(formatter).events().push(
            event_view(addr, opt_frames_view(found)),
        ),
{
    match found {
        Some(ff) => formatter.write_frames(addr, &ff),
        None => formatter.write_no_frames(addr),
    }
}

/// Resolves a trace token against a debug-symbol database read from `db`,
/// streaming one notification per decoded offset into `formatter`, in
/// token order.
///
/// `Ok` is returned exactly when the open phase succeeds, the token is a
/// whole number of valid tokens, and the database answers every offset;
/// the renderer then received exactly one event per offset, in order,
/// each tagged with its offset's 32-bit address — a group exactly where
/// the database holds symbols, the no-symbols notice where it holds none.
/// A codec error is returned exactly when the stream itself fails so,
/// after every complete token was resolved and rendered.  A database
/// error is the open phase's failure — nothing rendered — or the first
/// failing query, with exactly the offsets before it rendered; the rest
/// of the token is abandoned, with no retry.
pub fn symbolize<F: Formatter>(db: &[u8], input: &[u8], formatter: &mut F) -> (r: Result<
    (),
    Error,
>)
    ensures
        ({
            let (values, status) = decode_run(input@, 0);
            let n = values.len() as int;
            match r {
                Ok(()) => {
                    &&& open_of(db@) == Ok::<(), Seq<char>>(())
                    &&& status is None
                    &&& queries_ok_upto(db@, values, n)
                    &&& final(formatter).events() == old(formatter).events() + events_for(
                        values,
                        found_upto(db@, values, n),
                    )
                },
                Err(Error::Codec(e)) => {
                    &&& open_of(db@) == Ok::<(), Seq<char>>(())
                    &&& status == Some(e)
                    &&& queries_ok_upto(db@, values, n)
                    &&& final(formatter).events() == old(formatter).events() + events_for(
                        values,
                        found_upto(db@, values, n),
                    )
                },
                Err(Error::Symbols(t)) => {
                    ||| {
                        &&& open_of(db@) == Err::<(), Seq<char>>(t@)
                        &&& final(formatter).events() == old(formatter).events()
                    }
                    ||| {
                        &&& open_of(db@) == Ok::<(), Seq<char>>(())
                        &&& exists|j: int|
                            {
                                &&& 0 <= j < n
                                &&& queries_ok_upto(db@, values, j)
                                &&& (#[trigger] query_of(db@, values[j])) is Err
                                &&& final(formatter).events() == old(formatter).events()
                                    + events_for(values.take(j), found_upto(db@, values, j))
                            }
                    }
                },
            }
        }),
{
    let ghost s = input@;
    let database = match load_database(db) {
        Ok(d) => d,
        Err(text) => {
            return Err(Error::Symbols(text));
        },
    };
    let session = match open_context(&database) {
        Ok(c) => c,
        Err(text) => {
            return Err(Error::Symbols(text));
        },
    };
    let mut pos: usize = 0;
    let ghost mut done: Seq<int> = Seq::empty();
    proof {
        assert(events_for(done, found_upto(db@, done, 0)) =~= Seq::<RenderEvent>::empty());
        assert(formatter.events() =~= old(formatter).events() + events_for(
            done,
            found_upto(db@, done, 0),
        ));
    }
    loop
        invariant
            pos <= s.len(),
            s == input@,
            session.src() == db@,
            open_of(db@) == Ok::<(), Seq<char>>(()),
            decode_run(s, 0).0 == done + decode_run(s, pos as int).0,
            decode_run(s, 0).1 == decode_run(s, pos as int).1,
            queries_ok_upto(db@, done, done.len() as int),
            formatter.events() == old(formatter).events() + events_for(
                done,
                found_upto(db@, done, done.len() as int),
            ),
        decreases s.len() - pos,
    {
        let ghost values = decode_run(s, 0).0;
        if pos >= input.len() {
            proof {
                assert(decode_run(s, pos as int) == (Seq::<int>::empty(), None::<CodecError>));
                assert(values =~= done);
            }
            return Ok(());
        }
        let (value, end) = match vlq_decode(input, pos) {
            Ok(ve) => ve,
            Err(e) => {
                proof {
                    assert(decode_run(s, pos as int) == (Seq::<int>::empty(), Some(e)));
                    assert(values =~= done);
                }
                return Err(Error::Codec(e));
            },
        };
        let addr = value as u32;
        proof {
            assert(value >= 0 ==> value as u32 == value as int) by (bit_vector);
            assert(value < 0 ==> value as u32 == value as int + 0x1_0000_0000) by (bit_vector);
            assert(addr == addr_of(value as int));
            let (rest, status) = decode_run(s, end as int);
            assert(decode_run(s, pos as int) == (seq![value as int] + rest, status));
            assert(values[done.len() as int] == value as int);
        }
        let found = match find_frames(&session, addr) {
            Ok(f) => f,
            Err(text) => {
                proof {
                    let j = done.len() as int;
                    assert(values.take(j) =~= done);
                    assert(queries_ok_upto(db@, values, j)) by {
                        assert(forall|k: int| 0 <= k < j ==> values[k] == done[k]);
                    };
                    assert(found_upto(db@, values, j) =~= found_upto(db@, done, j));
                    assert(query_of(db@, values[j]) is Err);
                }
                return Err(Error::Symbols(text));
            },
        };
        let ghost fv_opt = opt_frames_view(found);
        dispatch_frames(formatter, addr, found);
        proof {
            let old_done = done;
            let n0 = old_done.len() as int;
            done = done.push(value as int);
            assert(old_done + (seq![value as int] + decode_run(s, end as int).0) =~= done
                + decode_run(s, end as int).0);
            assert(queries_ok_upto(db@, done, n0 + 1)) by {
                assert(forall|k: int| 0 <= k < n0 ==> done[k] == old_done[k]);
                assert(query_of(db@, done[n0]) == Ok::<Option<Seq<FrameView>>, ()>(fv_opt));
            };
            assert(events_for(done, found_upto(db@, done, n0 + 1)) =~= events_for(
                old_done,
                found_upto(db@, old_done, n0),
            ).push(event_view(addr, fv_opt))) by {
                assert(forall|k: int| 0 <= k < n0 ==> done[k] == old_done[k]);
                assert(query_of(db@, done[n0])->Ok_0 == fv_opt);
            };
        }
        pos = end;
    }
}

} // verus!
