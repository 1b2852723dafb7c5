//! Line-ending policy: which terminator byte sequence a file is expected
//! to use, either fixed or auto-detected from the content itself.

use vstd::prelude::*;

verus! {

/// The Unix terminator, a single line feed.
pub open spec fn unix_ending() -> Seq<u8> {
    seq![10u8]
}

/// The Windows terminator, a carriage return followed by a line feed.
pub open spec fn windows_ending() -> Seq<u8> {
    seq![13u8, 10u8]
}

/// Whether the Windows terminator occurs anywhere in `s`.
pub open spec fn contains_crlf(s: Seq<u8>) -> bool {
    exists|i: int| 0 <= i && i + 2 <= s.len() && #[trigger] s[i] == 13u8 && s[i + 1] == 10u8
}

/// The terminator that auto-detection resolves for `s`: Windows if the
/// Windows sequence occurs anywhere in the content, Unix otherwise.
pub open spec fn detected_ending(s: Seq<u8>) -> Seq<u8> {
    if contains_crlf(s) {
        windows_ending()
    } else {
        unix_ending()
    }
}

/// Which terminator a policy resolves to for a given piece of content.
pub open spec fn resolved_ending(policy: LineEnding, s: Seq<u8>) -> Seq<u8> {
    match policy {
        LineEnding::Auto => detected_ending(s),
        LineEnding::Unix => unix_ending(),
        LineEnding::Windows => windows_ending(),
    }
}

/// The line-ending policy: fixed to Unix or Windows, or resolved per file
/// by scanning the content.
#[derive(Debug, Clone, Copy, PartialEq, Eq, Structural)]
pub enum LineEnding {
    Auto,
    Unix,
    Windows,
}

/// Scans `content` for the Windows terminator; resolves Windows if it occurs
/// anywhere (not only at line ends), Unix otherwise.
pub fn detect_line_ending(content: &[u8]) -> (r: Vec<u8>)
    ensures
        r@ == detected_ending(content@),
{
    let n = content.len();
    let mut i: usize = 0;
    while i < n && i + 1 < n
        invariant
            n == content@.len(),
            i <= n,
            forall|j: int| 0 <= j && j + 2 <= i + 1 && j + 2 <= n ==> !(#[trigger] content@[j]
                == 13u8 && content@[j + 1] == 10u8),
        decreases n - i,
    {
        if content[i] == 13u8 && content[i + 1] == 10u8 {
            assert(contains_crlf(content@));
            let mut w: Vec<u8> = Vec::new();
            w.push(13u8);
            w.push(10u8);
            assert(w@ =~= windows_ending());
            return w;
        }
        i += 1;
    }
    assert(!contains_crlf(content@));
    let mut u: Vec<u8> = Vec::new();
    u.push(10u8);
    assert(u@ =~= unix_ending());
    u
}

impl LineEnding {
    /// The terminator this policy resolves to for `content`.
    pub fn get_ending(&self, content: &[u8]) -> (r: Vec<u8>)
        ensures
            r@ == resolved_ending(*self, content@),
    {
        match self {
            LineEnding::Auto => detect_line_ending(content),
            LineEnding::Unix => {
                let mut u: Vec<u8> = Vec::new();
                u.push(10u8);
                assert(u@ =~= unix_ending());
                u
            },
            LineEnding::Windows => {
                let mut w: Vec<u8> = Vec::new();
                w.push(13u8);
                w.push(10u8);
                assert(w@ =~= windows_ending());
                w
            },
        }
    }
}

} // verus!
