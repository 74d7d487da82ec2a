//! The shape of resolved frame data handed to renderers.  One decoded
//! offset resolves to zero or more logical frames: inlining expands one
//! physical return address into several entries, innermost first.

use vstd::prelude::*;

verus! {

/// One resolved logical frame: function name, source file path and line
/// number, each optional.  Text is carried as plain bytes.
pub struct Frame {
    pub function: Option<Vec<u8>>,
    pub file: Option<Vec<u8>>,
    pub line: Option<u32>,
}

/// The view of a frame: its text fields as byte sequences.
pub struct FrameView {
    pub function: Option<Seq<u8>>,
    pub file: Option<Seq<u8>>,
    pub line: Option<u32>,
}

/// The view of an optional byte buffer.
pub open spec fn opt_view(o: Option<Vec<u8>>) -> Option<Seq<u8>> {
    match o {
        Some(v) => Some(v@),
        None => None,
    }
}

impl View for Frame {
    type V = FrameView;

    open spec fn view(&self) -> FrameView {
        FrameView {
            function: opt_view(self.function),
            file: opt_view(self.file),
            line: self.line,
        }
    }
}

/// The frames resolved for one offset, ordered innermost-inlined first.
pub struct FunctionFrames {
    pub frames: Vec<Frame>,
}

impl View for FunctionFrames {
    type V = Seq<FrameView>;

    open spec fn view(&self) -> Seq<FrameView> {
        self.frames@.map(|k: int, f: Frame| f@)
    }
}

/// The view of one optional frame group.
pub open spec fn opt_frames_view(found: Option<FunctionFrames>) -> Option<Seq<FrameView>> {
    match found {
        Some(ff) => Some(ff@),
        None => None,
    }
}

} // verus!
