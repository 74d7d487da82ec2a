//! The trusted boundary to the debug-symbol database.  The `pdb_addr2line`
//! crate (over `pdb2`) parses the database and answers per-address queries;
//! these declarations and wrappers are the only statements about it that
//! are taken on trust, and each says no more than that crate's source and
//! documentation show.
//!
//! The database is handed over as an in-memory byte slice, and the parse
//! reads nothing but those bytes, so whether each stage succeeds — and
//! what a query returns — is a function of the bytes alone.  Those
//! outcomes are given uninterpreted names over the byte sequence
//! (`pdb_open_of`, `context_data_of`, `context_of`, `frames_of`), which
//! the wrappers' contracts apply; the pipeline's own contract can then
//! tie its result to the named outcomes exactly.  Each session value
//! carries, as a ghost field, the bytes it came from; the values are only
//! ever built here, beside the calls that parsed them, so the ghost
//! source is always the true origin of the handle.

use vstd::prelude::*;
use crate::frames::{opt_frames_view, Frame, FrameView, FunctionFrames};

verus! {

/// Whether `pdb::PDB::open` accepts the database bytes, or the display
/// text of its failure.  A function of the bytes alone: the parse reads
/// nothing else.
pub uninterp spec fn pdb_open_of(db: Seq<u8>) -> Result<(), Seq<char>>;

/// Whether `ContextPdbData::try_from_pdb` parses the streams of an
/// accepted database, or the display text of its failure.  Meaningful
/// where `pdb_open_of` is `Ok`.
pub uninterp spec fn context_data_of(db: Seq<u8>) -> Result<(), Seq<char>>;

/// Whether `ContextPdbData::make_context` builds the query context over
/// the parsed streams, or the display text of its failure.  Meaningful
/// where the two earlier stages are `Ok`.
pub uninterp spec fn context_of(db: Seq<u8>) -> Result<(), Seq<char>>;

/// What `Context::find_frames` answers for one module-relative address
/// against the given database bytes: the resolved frames (`Ok(Some)`),
/// the explicit empty outcome (`Ok(None)`), or a failure.  Whether the
/// query fails, and the frames where it succeeds, are functions of the
/// bytes and the address; a failure's display text is not — the crate
/// caches failed computations and replaces the stored error, so the text
/// depends on the session's earlier queries and carries no name.
pub uninterp spec fn frames_of(db: Seq<u8>, probe: u32) -> Result<Option<Seq<FrameView>>, ()>;

/// Whether the whole open phase — accept the bytes, parse the streams,
/// build the context — succeeds, or the display text of its first
/// failing stage.
pub open spec fn open_of(db: Seq<u8>) -> Result<(), Seq<char>> {
    match pdb_open_of(db) {
        Err(t) => Err(t),
        Ok(_) => match context_data_of(db) {
            Err(t) => Err(t),
            Ok(_) => context_of(db),
        },
    }
}

#[verifier::external_type_specification]
#[verifier::external_body]
#[verifier::reject_recursive_types(T)]
pub struct ExCursor<T>(std::io::Cursor<T>);

#[verifier::external_type_specification]
#[verifier::external_body]
#[verifier::reject_recursive_types(S)]
pub struct ExPdb<'s, S>(pdb_addr2line::pdb::PDB<'s, S>);

#[verifier::external_type_specification]
#[verifier::external_body]
pub struct ExContext<'a, 's>(pdb_addr2line::Context<'a, 's>);

/// The parsed streams of one debug-symbol database, owned for the length
/// of a resolution session.  Held opaquely: `ContextPdbData`'s declaration
/// carries a trait bound that cannot be restated here, so the value lives
/// in a hidden field instead.
#[verifier::external_body]
pub struct SymbolData<'s> {
    data: pdb_addr2line::ContextPdbData<'s, 's, std::io::Cursor<&'s [u8]>>,
}

/// An accepted database file, together with the bytes it was parsed from.
pub struct OpenedPdb<'s> {
    pdb: pdb_addr2line::pdb::PDB<'s, std::io::Cursor<&'s [u8]>>,
    src: Ghost<Seq<u8>>,
}

impl<'s> OpenedPdb<'s> {
    /// The database bytes this handle was parsed from.
    pub closed spec fn src(&self) -> Seq<u8> {
        self.src@
    }
}

/// A database with its streams parsed, ready to answer queries for one
/// resolution session, together with the bytes it was parsed from.
pub struct SymbolDatabase<'s> {
    data: SymbolData<'s>,
    src: Ghost<Seq<u8>>,
}

impl<'s> SymbolDatabase<'s> {
    /// The database bytes this handle was parsed from.
    pub closed spec fn src(&self) -> Seq<u8> {
        self.src@
    }
}

/// The per-session query context, together with the bytes it was built
/// from.
pub struct SymbolContext<'a, 's> {
    ctx: pdb_addr2line::Context<'a, 's>,
    src: Ghost<Seq<u8>>,
}

impl<'a, 's> SymbolContext<'a, 's> {
    /// The database bytes this context was built from.
    pub closed spec fn src(&self) -> Seq<u8> {
        self.src@
    }
}

/// Relies on `pdb::PDB::open`: parses the header of a debug-symbol
/// database read from an in-memory byte-seekable source.  Its outcome is
/// a function of the bytes alone, named `pdb_open_of`; a failure is
/// reported as its display text.
#[verifier::external_body]
fn open_pdb<'s>(db: &'s [u8]) -> (r: Result<
    pdb_addr2line::pdb::PDB<'s, std::io::Cursor<&'s [u8]>>,
    String,
>)
    ensures
        match r {
            Ok(_) => pdb_open_of(db@) == Ok::<(), Seq<char>>(()),
            Err(t) => pdb_open_of(db@) == Err::<(), Seq<char>>(t@),
        },
{
    match pdb_addr2line::pdb::PDB::open(std::io::Cursor::new(db)) {
        Ok(pdb) => Ok(pdb),
        Err(e) => Err(e.to_string()),
    }
}

/// Relies on `pdb_addr2line::ContextPdbData::try_from_pdb`: parses the
/// database streams, taking ownership of the opened file.  Its outcome is
/// a function of the bytes the file was parsed from, named
/// `context_data_of`; a failure is reported as its display text.
#[verifier::external_body]
fn context_data_from_pdb<'s>(opened: OpenedPdb<'s>) -> (r: Result<SymbolData<'s>, String>)
    ensures
        match r {
            Ok(_) => context_data_of(opened.src()) == Ok::<(), Seq<char>>(()),
            Err(t) => context_data_of(opened.src()) == Err::<(), Seq<char>>(t@),
        },
{
    match pdb_addr2line::ContextPdbData::try_from_pdb(opened.pdb) {
        Ok(data) => Ok(SymbolData { data }),
        Err(e) => Err(e.to_string()),
    }
}

/// Relies on `pdb_addr2line::ContextPdbData::make_context`: builds the
/// per-session query context, which borrows the parsed streams.  Its
/// outcome is a function of the database bytes, named `context_of`; a
/// failure is reported as its display text.
#[verifier::external_body]
fn make_context<'a, 's>(database: &'a SymbolDatabase<'s>) -> (r: Result<
    pdb_addr2line::Context<'a, 's>,
    String,
>)
    ensures
        match r {
            Ok(_) => context_of(database.src()) == Ok::<(), Seq<char>>(()),
            Err(t) => context_of(database.src()) == Err::<(), Seq<char>>(t@),
        },
{
    match database.data.data.make_context() {
        Ok(context) => Ok(context),
        Err(e) => Err(e.to_string()),
    }
}

/// Relies on `pdb_addr2line::Context::find_frames`: yields the frames for
/// a module-relative address, innermost-inlined first — `Ok(Some)` when
/// the address lies in a known function (its documentation promises at
/// least one frame then), `Ok(None)` when it lies in no known function.
/// The answer is a function of the database bytes and the address, named
/// `frames_of`.  A failure is reported as its display text, which is not
/// tied to the name: the crate rewrites cached errors, so the text of a
/// repeated failure differs between calls of one session.
#[verifier::external_body]
pub(crate) fn find_frames<'a, 's>(session: &SymbolContext<'a, 's>, probe: u32) -> (r: Result<
    Option<FunctionFrames>,
    String,
>)
    ensures
        match r {
            Ok(found) => {
                &&& frames_of(session.src(), probe) == Ok::<Option<Seq<FrameView>>, ()>(
                    opt_frames_view(found),
                )
                &&& found matches Some(ff) ==> ff@.len() >= 1
            },
            Err(_) => frames_of(session.src(), probe) == Err::<Option<Seq<FrameView>>, ()>(()),
        },
{
    match session.ctx.find_frames(probe) {
        Ok(Some(ff)) => Ok(Some(FunctionFrames {
            frames: ff.frames.into_iter().map(|fr: pdb_addr2line::Frame<'_>| Frame {
                function: fr.function.map(String::into_bytes),
                file: fr.file.map(|c| c.into_owned().into_bytes()),
                line: fr.line,
            }).collect(),
        })),
        Ok(None) => Ok(None),
        Err(e) => Err(e.to_string()),
    }
}

/// Opens and parses a database: the first two stages of the open phase.
/// On failure the open phase as a whole fails with the same text.
pub(crate) fn load_database<'s>(db: &'s [u8]) -> (r: Result<SymbolDatabase<'s>, String>)
    ensures
        match r {
            Ok(d) => {
                &&& d.src() == db@
                &&& pdb_open_of(db@) == Ok::<(), Seq<char>>(())
                &&& context_data_of(db@) == Ok::<(), Seq<char>>(())
            },
            Err(t) => open_of(db@) == Err::<(), Seq<char>>(t@),
        },
{
    let pdb = match open_pdb(db) {
        Ok(p) => p,
        Err(t) => {
            return Err(t);
        },
    };
    let opened = OpenedPdb { pdb, src: Ghost(db@) };
    match context_data_from_pdb(opened) {
        Ok(data) => Ok(SymbolDatabase { data, src: Ghost(db@) }),
        Err(t) => Err(t),
    }
}

/// Builds the query context over a parsed database: the last stage of the
/// open phase.
pub(crate) fn open_context<'a, 's>(database: &'a SymbolDatabase<'s>) -> (r: Result<
    SymbolContext<'a, 's>,
    String,
>)
    ensures
        match r {
            Ok(session) => {
                &&& session.src() == database.src()
                &&& context_of(database.src()) == Ok::<(), Seq<char>>(())
            },
            Err(t) => context_of(database.src()) == Err::<(), Seq<char>>(t@),
        },
{
    match make_context(database) {
        Ok(ctx) => Ok(SymbolContext { ctx, src: Ghost(database.src()) }),
        Err(t) => Err(t),
    }
}

} // verus!
