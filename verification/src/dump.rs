//! Writing a graph out, as text or as a picture.

use vstd::prelude::*;

use crate::error::{ErrorView, GraphError};

verus! {

/// What a graph is written out as.
#[derive(Debug, Clone, Copy, PartialEq, Eq, Structural, Hash)]
pub enum GraphDumpFormat {
    Svg,
    Png,
    Dot,
}

/// How much is written out of every node.
#[derive(Debug, Clone, Copy, PartialEq, Eq, Structural, Hash)]
pub enum GraphDumpVerbosity {
    Clean,
    Verbose,
}

/// The flag by which the driver is asked for all it knows of the nodes
/// (`CU_GRAPH_DEBUG_DOT_FLAGS_VERBOSE`).
pub const DOT_FLAGS_VERBOSE: u32 = 1;

/// Whether a character has the Unicode property `White_Space`.
pub open spec fn is_white_space(c: char) -> bool {
    ||| '\u{9}' <= c <= '\u{d}'
    ||| c == '\u{20}'
    ||| c == '\u{85}'
    ||| c == '\u{a0}'
    ||| c == '\u{1680}'
    ||| '\u{2000}' <= c <= '\u{200a}'
    ||| c == '\u{2028}'
    ||| c == '\u{2029}'
    ||| c == '\u{202f}'
    ||| c == '\u{205f}'
    ||| c == '\u{3000}'
}

/// A text without the white space at its two ends.
pub open spec fn trimmed(s: Seq<char>) -> Seq<char>
    decreases s.len(),
{
    if s.len() > 0 && is_white_space(s.first()) {
        trimmed(s.skip(1))
    } else if s.len() > 0 && is_white_space(s.last()) {
        trimmed(s.drop_last())
    } else {
        s
    }
}

/// `str::trim` hands back the text without the white space at its two ends, where white space is
/// what has the Unicode property of that name.
pub assume_specification[ str::trim ](s: &str) -> (r: &str)
    ensures
        r@ == trimmed(s@),
;

/// How a graph is written out: the driver writes it to `path` under `flags`, and where a picture
/// is asked for, `dot` is run on that file with `picture` as its first argument and what it
/// prints is the picture.
#[derive(Debug, PartialEq, Eq)]
pub struct GraphDump {
    pub graph: u64,
    pub path: String,
    pub flags: u32,
    pub picture: Option<&'static str>,
}

/// The file that the driver writes to: the one asked for, or one beside the picture.
pub open spec fn dot_path(out: Seq<char>, format: GraphDumpFormat) -> Seq<char> {
    if format is Dot {
        trimmed(out)
    } else {
        out + ".dot"@
    }
}

/// The argument by which `dot` is told what to draw.
pub open spec fn picture_argument(format: GraphDumpFormat) -> Option<&'static str> {
    match format {
        GraphDumpFormat::Png => Some("-Tpng"),
        GraphDumpFormat::Svg => Some("-Tsvg"),
        GraphDumpFormat::Dot => None,
    }
}

/// Plans how to write the graph with the handle `graph` to `out`.
pub fn plan_dump(
    graph: u64,
    out: &str,
    format: GraphDumpFormat,
    verbosity: GraphDumpVerbosity,
) -> (r: GraphDump)
    ensures
        r.graph == graph,
        r.path@ == dot_path(out@, format),
        r.flags == (if verbosity is Verbose {
            DOT_FLAGS_VERBOSE
        } else {
            0
        }),
        r.picture == picture_argument(format),
{
    let path: String = match format {
        GraphDumpFormat::Dot => out.trim().to_owned(),
        _ => {
            let mut path: String = out.to_owned();
            path.append(".dot");
            path
        },
    };
    let flags: u32 = match verbosity {
        GraphDumpVerbosity::Verbose => DOT_FLAGS_VERBOSE,
        GraphDumpVerbosity::Clean => 0,
    };
    let picture: Option<&'static str> = match format {
        GraphDumpFormat::Png => Some("-Tpng"),
        GraphDumpFormat::Svg => Some("-Tsvg"),
        GraphDumpFormat::Dot => None,
    };
    GraphDump { graph, path, flags, picture }
}

/// What is written to the file asked for, once `dot` has run: the picture that it printed, unless
/// it failed.
pub fn picture(success: bool, printed: Vec<u8>) -> (r: Result<Vec<u8>, GraphError>)
    ensures
        r is Ok <==> success,
        r matches Ok(picture) ==> picture@ == printed@,
        r matches Err(e) ==> e@ == ErrorView::PictureNotDrawn,
{
    if success {
        Ok(printed)
    } else {
        Err(GraphError::PictureNotDrawn)
    }
}

} // verus!
