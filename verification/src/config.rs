//! The resolved configuration a report runs under: which inputs to process
//! and which of the four counts to display.

use vstd::prelude::*;

verus! {

/// An ordered list of input identifiers (`-` denotes standard input) and
/// one display flag per count field.
#[derive(Debug)]
pub struct Config {
    pub files: Vec<String>,
    pub lines: bool,
    pub words: bool,
    pub bytes: bool,
    pub chars: bool,
}

impl Config {
    /// Resolve a configuration from the flags the invoker gave. When no
    /// count was requested at all, the display set defaults to lines,
    /// words, and bytes; otherwise the flags are kept exactly as given.
    pub fn new(files: Vec<String>, lines: bool, words: bool, bytes: bool, chars: bool) -> (c:
        Config)
        ensures
            c.files == files,
            c.chars == chars,
            (lines || words || bytes || chars) ==> c.lines == lines && c.words == words && c.bytes
                == bytes,
            !(lines || words || bytes || chars) ==> c.lines && c.words && c.bytes,
    {
        if !lines && !words && !bytes && !chars {
            Config { files, lines: true, words: true, bytes: true, chars: false }
        } else {
            Config { files, lines, words, bytes, chars }
        }
    }
}

} // verus!
