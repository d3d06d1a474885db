//! The OSC 8 hyperlink envelope.

use vstd::prelude::*;
use vstd::string::*;

verus! {

/// The introducer of a hyperlink command: `ESC ] 8 ; ;`.
pub open spec fn link_intro() -> Seq<char> {
    seq!['\x1b', ']', '8', ';', ';']
}

/// The string terminator `BEL`.
pub open spec fn bel() -> Seq<char> {
    seq!['\x07']
}

/// The envelope that shows `text` and links it to `url`:
/// `ESC ] 8 ; ; url BEL text ESC ] 8 ; ; BEL`.
pub open spec fn hyperlink(url: Seq<char>, text: Seq<char>) -> Seq<char> {
    link_intro() + url + bel() + text + link_intro() + bel()
}

/// Wraps `text` in a hyperlink to `url`.
pub fn make_hyperlink(url: &str, text: &str) -> (out: String)
    ensures
        out@ == hyperlink(url@, text@),
{
    proof {
        reveal_strlit("\x1b]8;;");
        reveal_strlit("\x07");
    }
    let mut out = String::from_str("\x1b]8;;");
    assert(out@ =~= link_intro());
    out.append(url);
    out.append("\x07");
    out.append(text);
    out.append("\x1b]8;;");
    out.append("\x07");
    assert("\x07"@ =~= bel());
    out
}

} // verus!
