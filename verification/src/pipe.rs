//! The sandbox pipe protocol: every message in either direction is one JSON
//! value per line, terminated with a carriage return before the newline.
//! Framing appends the terminator; reading strips it.  The JSON text itself
//! is opaque here — the host only frames and unframes it.

use vstd::prelude::*;

verus! {

/// A message as it goes onto the pipe.
pub open spec fn frame_spec(s: Seq<char>) -> Seq<char> {
    s + seq!['\r', '\n']
}

/// A pipe line with its terminator stripped; text without the terminator is
/// handed back as it came.
pub open spec fn unframe_spec(s: Seq<char>) -> Seq<char> {
    if s.len() >= 2 && s[s.len() - 2] == '\r' && s[s.len() - 1] == '\n' {
        s.take(s.len() - 2)
    } else {
        s
    }
}

/// Frames one message for the pipe.
pub fn frame_message(s: &str) -> (r: String)
    ensures
        r@ == frame_spec(s@),
{
    let mut r = s.to_owned();
    r.append("\r\n");
    proof {
        reveal_strlit("\r\n");
        assert(("\r\n")@ =~= seq!['\r', '\n']);
        assert(r@ =~= frame_spec(s@));
    }
    r
}

/// Strips the terminator from one pipe line.
pub fn unframe_message(s: &str) -> (r: String)
    ensures
        r@ == unframe_spec(s@),
{
    let n = s.unicode_len();
    if n >= 2 && s.get_char(n - 2) == '\r' && s.get_char(n - 1) == '\n' {
        let r = s.substring_char(0, n - 2).to_owned();
        proof {
            assert(s@.subrange(0, n as int - 2) =~= s@.take(s@.len() - 2));
        }
        r
    } else {
        s.to_owned()
    }
}

/// A message framed for the pipe and read back is the message itself.
pub proof fn lemma_frame_round_trip(s: Seq<char>)
    ensures
        unframe_spec(frame_spec(s)) == s,
{
    let f = frame_spec(s);
    assert(f[f.len() - 2] == '\r');
    assert(f[f.len() - 1] == '\n');
    assert(f.take(f.len() - 2) =~= s);
}

} // verus!
