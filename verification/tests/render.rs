//! Tests of the renderers, the source-link rewriting, the error texts and
//! the resolution pipeline's error paths.

use resym::capture::frame_offset;
use resym::{
    maybe_link_source, symbolize, CodecError, DefaultFormatter, Error, Formatter, Frame,
    FunctionFrames, HtmlFormatter,
};

fn frame(function: &str, file: &str, line: Option<u32>) -> Frame {
    Frame {
        function: Some(function.as_bytes().to_vec()),
        file: Some(file.as_bytes().to_vec()),
        line,
    }
}

#[test]
fn default_formatter_group_text() {
    let mut fmt = DefaultFormatter::new();
    let group = FunctionFrames { frames: vec![frame("main", "src/main.rs", Some(7))] };
    fmt.write_frames(0x2a, &group);
    fmt.write_no_frames(0xff);
    let text = String::from_utf8(fmt.output()).unwrap();
    assert_eq!(
        text,
        "0x2a - 1 frames:\n     main at src/main.rs:7\nff - no frames found\n"
    );
}

#[test]
fn default_formatter_sentinels() {
    let mut fmt = DefaultFormatter::new();
    let group = FunctionFrames {
        frames: vec![Frame { function: None, file: None, line: None }],
    };
    fmt.write_frames(0, &group);
    let text = String::from_utf8(fmt.output()).unwrap();
    assert_eq!(text, "0x0 - 1 frames:\n     <unknown> at ??:??\n");
}

#[test]
fn default_formatter_inlined_frames_one_group() {
    // one offset may expand to several logical frames; the group stays atomic
    let mut fmt = DefaultFormatter::new();
    let group = FunctionFrames {
        frames: vec![
            frame("inner", "a.rs", Some(1)),
            frame("middle", "b.rs", Some(2)),
            frame("outer", "c.rs", None),
        ],
    };
    fmt.write_frames(0x10, &group);
    let text = String::from_utf8(fmt.output()).unwrap();
    assert_eq!(
        text,
        "0x10 - 3 frames:\n     inner at a.rs:1\n     middle at b.rs:2\n     outer at c.rs:??\n"
    );
}

#[test]
fn default_formatter_empty_group() {
    // a resolver may return an explicit empty group
    let mut fmt = DefaultFormatter::new();
    fmt.write_frames(5, &FunctionFrames { frames: vec![] });
    let text = String::from_utf8(fmt.output()).unwrap();
    assert_eq!(text, "0x5 - 0 frames:\n");
}

#[test]
fn formatter_keeps_group_order() {
    // three offsets, three notifications, in the same order (the middle one
    // resolved to nothing and is still reported)
    let mut fmt = DefaultFormatter::new();
    fmt.write_frames(1, &FunctionFrames { frames: vec![frame("a", "a.rs", Some(1))] });
    fmt.write_no_frames(2);
    fmt.write_frames(3, &FunctionFrames { frames: vec![frame("c", "c.rs", Some(3))] });
    let text = String::from_utf8(fmt.output()).unwrap();
    assert_eq!(
        text,
        "0x1 - 1 frames:\n     a at a.rs:1\n2 - no frames found\n0x3 - 1 frames:\n     c at c.rs:3\n"
    );
}

#[test]
fn link_source_rustc_path() {
    let out = maybe_link_source(b"/rustc/abc123/library/core/src/lib.rs", Some(10));
    assert_eq!(
        String::from_utf8(out).unwrap(),
        "<a target='_blank' href='https://github.com/rust-lang/rust/tree/abc123/library/core/src/lib.rs#L10'>library/core/src/lib.rs</a>"
    );
}

#[test]
fn link_source_rustc_path_without_tree_path() {
    let out = maybe_link_source(b"/rustc/abc123", None);
    assert_eq!(
        String::from_utf8(out).unwrap(),
        "<a target='_blank' href='https://github.com/rust-lang/rust/tree/abc123/??#L??'>??</a>"
    );
}

#[test]
fn link_source_deno_path_with_backslashes() {
    let out = maybe_link_source(b"C:\\code\\deno\\cli\\main.rs", Some(3));
    assert_eq!(
        String::from_utf8(out).unwrap(),
        "<a target='_blank' href='https://github.com/denoland/deno/blob/main/cli/main.rs#L3'>cli/main.rs</a>"
    );
}

#[test]
fn link_source_deno_as_last_segment() {
    let out = maybe_link_source(b"home/deno", Some(1));
    assert_eq!(
        String::from_utf8(out).unwrap(),
        "<a target='_blank' href='https://github.com/denoland/deno/blob/main/#L1'></a>"
    );
}

#[test]
fn link_source_verbatim() {
    let out = maybe_link_source(b"foo/bar.rs", Some(3));
    assert_eq!(String::from_utf8(out).unwrap(), "foo/bar.rs:3");
    let out = maybe_link_source(b"denominator/x.rs", None);
    assert_eq!(String::from_utf8(out).unwrap(), "denominator/x.rs:??");
}

#[test]
fn html_formatter_lines() {
    let mut fmt = HtmlFormatter::new();
    let group = FunctionFrames {
        frames: vec![frame("main", "src/main.rs", Some(7)), frame("start", "rt.rs", None)],
    };
    fmt.write_frames(0x2a, &group);
    fmt.write_no_frames(0x30);
    let text = String::from_utf8(fmt.output()).unwrap();
    assert_eq!(
        text,
        "     <li>main at src/main.rs:7</li>\n     <li>start at rt.rs:??</li>\n     <li>0x30 - no frames found</li>\n"
    );
}

#[test]
fn error_messages() {
    assert_eq!(
        Error::Codec(CodecError::EndOfStream).message(),
        "CodecError: unexpected end of stream"
    );
    assert_eq!(Error::Codec(CodecError::InvalidDigit).message(), "CodecError: invalid digit");
    assert_eq!(
        Error::Symbols("boom".to_string()).message(),
        "SymbolDatabaseError: boom"
    );
}

#[test]
fn frame_offset_policy() {
    assert_eq!(frame_offset(0x1000, 0x400), Some(0xc00));
    assert_eq!(frame_offset(0x400, 0x1000), None);
    assert_eq!(frame_offset(u64::MAX, 0), None);
    assert_eq!(frame_offset(0x8000_0000, 1), Some(i32::MAX));
}

#[test]
fn symbolize_rejects_garbage_database() {
    let mut fmt = DefaultFormatter::new();
    let r = symbolize(b"not a pdb", b"A", &mut fmt);
    match r {
        Err(Error::Symbols(_)) => {},
        _ => panic!("a garbage database must fail as a symbol-database error"),
    }
    // nothing was rendered before the database failed to open
    assert_eq!(fmt.output(), Vec::<u8>::new());
}
