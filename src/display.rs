//! Text helpers for the list display: fixed-width names, security labels,
//! signal bars and the activity line.
use vstd::prelude::*;

use crate::app::{App, BgStatus};
use crate::text::{chars_of, contains_seq, contains_str, string_of};

verus! {

/// `s` followed by spaces up to `width` characters.
pub open spec fn pad_to(s: Seq<char>, width: nat) -> Seq<char> {
    if s.len() >= width {
        s
    } else {
        s + Seq::new((width - s.len()) as nat, |i: int| ' ')
    }
}

/// A name fitted to `width` characters: padded with spaces when short, cut to
/// `width - 1` characters and an ellipsis when long.
pub open spec fn fitted(s: Seq<char>, width: nat) -> Seq<char> {
    if s.len() <= width {
        pad_to(s, width)
    } else {
        s.subrange(0, width - 1).push('…')
    }
}

fn pad_chars(v: &mut Vec<char>, width: usize)
    ensures
        final(v)@ == pad_to(old(v)@, width as nat),
{
    let ghost start = v@;
    while v.len() < width
        invariant
            v@.len() >= start.len(),
            start.len() >= width ==> v@.len() == start.len(),
            start.len() < width ==> v@.len() <= width,
            v@ == start + Seq::new((v@.len() - start.len()) as nat, |i: int| ' '),
            start == old(v)@,
        decreases width - v@.len(),
    {
        v.push(' ');
        assert(v@ =~= start + Seq::new((v@.len() - start.len()) as nat, |i: int| ' '));
    }
    proof {
        if start.len() >= width {
            assert(v@ =~= start);
        } else {
            assert(v@ =~= pad_to(start, width as nat));
        }
    }
}

/// Fits `s` to `max_len` characters for a column of that width.
pub fn truncate_pad(s: &str, max_len: usize) -> (r: String)
    requires
        max_len > 0 || s@.len() == 0,
    ensures
        r@ == fitted(s@, max_len as nat),
{
    let mut cs = chars_of(s);
    if cs.len() <= max_len {
        pad_chars(&mut cs, max_len);
        string_of(cs.as_slice())
    } else {
        let mut out: Vec<char> = Vec::new();
        let mut i: usize = 0;
        while i < max_len - 1
            invariant
                i <= max_len - 1,
                max_len < cs@.len(),
                out@ == cs@.subrange(0, i as int),
            decreases max_len - 1 - i,
        {
            out.push(cs[i]);
            i = i + 1;
            assert(out@ =~= cs@.subrange(0, i as int));
        }
        out.push('…');
        string_of(out.as_slice())
    }
}

/// The security label shown: WPA3 where WPA2 and WPA3 are both offered,
/// Enterprise for 802.1X, else the descriptor as it is.
pub open spec fn security_label(sec: Seq<char>) -> Seq<char> {
    if contains_seq(sec, "WPA3"@) && contains_seq(sec, "WPA2"@) {
        "WPA3"@
    } else if contains_seq(sec, "802.1X"@) {
        "Enterprise"@
    } else {
        sec
    }
}

/// The label for a security descriptor.
pub fn simplify_security(sec: &str) -> (r: String)
    ensures
        r@ == security_label(sec@),
{
    let cs = chars_of(sec);
    if contains_str(cs.as_slice(), "WPA3") && contains_str(cs.as_slice(), "WPA2") {
        "WPA3".to_owned()
    } else if contains_str(cs.as_slice(), "802.1X") {
        "Enterprise".to_owned()
    } else {
        sec.to_owned()
    }
}

/// Four bars for 80 and above, three from 60, two from 40, one from 20.
pub open spec fn bars_for(signal: u8) -> Seq<char> {
    if 80 <= signal && signal <= 100 {
        "▂▄▆█"@
    } else if 60 <= signal && signal <= 79 {
        "▂▄▆ "@
    } else if 40 <= signal && signal <= 59 {
        "▂▄  "@
    } else if 20 <= signal && signal <= 39 {
        "▂   "@
    } else {
        "    "@
    }
}

/// The signal-strength bars for a signal from 0 to 100.
pub fn signal_bars(signal: u8) -> (r: &'static str)
    ensures
        r@ == bars_for(signal),
{
    if 80 <= signal && signal <= 100 {
        "▂▄▆█"
    } else if 60 <= signal && signal <= 79 {
        "▂▄▆ "
    } else if 40 <= signal && signal <= 59 {
        "▂▄  "
    } else if 20 <= signal && signal <= 39 {
        "▂   "
    } else {
        "    "
    }
}

/// The spinner glyph of a phase.
pub open spec fn spinner_glyph(frame: usize) -> Seq<char> {
    if frame == 0 {
        "◐"@
    } else if frame == 1 {
        "◓"@
    } else if frame == 2 {
        "◑"@
    } else {
        "◒"@
    }
}

/// The activity line: the spinner and the operation in flight, or nothing
/// when idle.
pub open spec fn activity_text(s: App) -> Option<Seq<char>> {
    match s.bg_status {
        BgStatus::Idle => None,
        BgStatus::Scanning => Some(spinner_glyph(s.spinner_frame) + " Scanning..."@),
        BgStatus::Connecting => Some(spinner_glyph(s.spinner_frame) + " Connecting..."@),
        BgStatus::Disconnecting => Some(spinner_glyph(s.spinner_frame) + " Disconnecting..."@),
        BgStatus::Forgetting => Some(spinner_glyph(s.spinner_frame) + " Forgetting..."@),
    }
}

fn spinner_chars(frame: usize) -> (r: Vec<char>)
    ensures
        r@ == spinner_glyph(frame),
{
    if frame == 0 {
        chars_of("◐")
    } else if frame == 1 {
        chars_of("◓")
    } else if frame == 2 {
        chars_of("◑")
    } else {
        chars_of("◒")
    }
}

/// The activity line for the status bar.
pub fn bg_status_text(app: &App) -> (r: Option<String>)
    ensures
        match activity_text(*app) {
            Some(t) => r is Some && r->0@ == t,
            None => r is None,
        },
{
    let label: &str = match app.bg_status {
        BgStatus::Idle => {
            return None;
        },
        BgStatus::Scanning => " Scanning...",
        BgStatus::Connecting => " Connecting...",
        BgStatus::Disconnecting => " Disconnecting...",
        BgStatus::Forgetting => " Forgetting...",
    };
    let mut v = spinner_chars(app.spinner_frame);
    let mut rest = chars_of(label);
    v.append(&mut rest);
    Some(string_of(v.as_slice()))
}

} // verus!
