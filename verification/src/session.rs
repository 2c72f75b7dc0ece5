//! What you did, and what you thought of it: the rules of the interaction capture and the
//! shape of a feedback record. Writing either to disk is the program's part.
//!
//! A capture has a cap, and the cap is a refusal, not a silent truncation: past it the
//! capture records one notice saying so and then nothing more. A feedback record is shaped
//! as a lesson with its confidence stated rather than implied.
use vstd::prelude::*;

use crate::strings::{decimal_nat, glue, show_u64, show_usize, views};

verus! {

/// Whether a character is whitespace in Unicode's sense (the property `White_Space`):
/// the controls from tab to carriage return, the space, next line, the no-break space,
/// the Ogham space mark, the spaces from en quad to hair space, the line and paragraph
/// separators, the narrow no-break space, the medium mathematical space and the
/// ideographic space.
pub open spec fn is_white_space(c: char) -> bool {
    let u = c as int;
    ||| 0x09 <= u <= 0x0D
    ||| u == 0x20
    ||| u == 0x85
    ||| u == 0xA0
    ||| u == 0x1680
    ||| 0x2000 <= u <= 0x200A
    ||| u == 0x2028
    ||| u == 0x2029
    ||| u == 0x202F
    ||| u == 0x205F
    ||| u == 0x3000
}

/// A text without its leading run of whitespace.
pub open spec fn without_leading(s: Seq<char>) -> Seq<char>
    decreases s.len(),
{
    if s.len() > 0 && is_white_space(s[0]) {
        without_leading(s.drop_first())
    } else {
        s
    }
}

/// A text without its trailing run of whitespace.
pub open spec fn without_trailing(s: Seq<char>) -> Seq<char>
    decreases s.len(),
{
    if s.len() > 0 && is_white_space(s.last()) {
        without_trailing(s.drop_last())
    } else {
        s
    }
}

/// What leading and trailing whitespace removed from a text leaves.
pub open spec fn trimmed(s: Seq<char>) -> Seq<char> {
    without_trailing(without_leading(s))
}

/// `str::trim`: the text with its leading and trailing whitespace removed, whitespace
/// being what Unicode's `White_Space` property names (see [`is_white_space`]). Claimed:
/// the result is exactly [`trimmed`] of the text.
#[verifier::external_body]
fn trim(s: &str) -> (r: &str)
    ensures
        r@ == trimmed(s@),
{
    s.trim()
}

/// The kind a capture's refusal notice is recorded under.
pub fn refused_kind() -> (r: &'static str)
    ensures
        r@ == "capture.refused"@,
{
    "capture.refused"
}

/// How many interactions a capture holds before it refuses more.
pub const CAPTURE_CAP: usize = 20_000;

/// What a capture does with one more interaction.
#[derive(Clone, Copy, Debug, PartialEq, Eq, Structural)]
pub enum Admission {
    /// Keep it.
    Record,
    /// The cap is reached: keep a notice of the refusal in its place, once.
    Refuse,
    /// Keep nothing: the capture is not recording, or has already refused.
    Ignore,
}

/// The state of an interaction capture.
#[derive(Clone, Copy, Debug, PartialEq, Eq, Structural)]
pub struct Capture {
    pub recording: bool,
    /// Set when the capture reached its cap and refused further recording.
    pub refused: bool,
    pub cap: usize,
}

/// What a capture holding `held` interactions does with one more.
pub open spec fn admission(c: Capture, held: int) -> Admission {
    if !c.recording {
        Admission::Ignore
    } else if held >= c.cap {
        if c.refused {
            Admission::Ignore
        } else {
            Admission::Refuse
        }
    } else {
        Admission::Record
    }
}

/// What the refusal notice says.
pub open spec fn refusal_text(cap: nat) -> Seq<char> {
    "capture reached its cap of "@ + decimal_nat(cap)
        + " events and refused further recording rather than dropping events silently"@
}

/// Whether a capture holding `held` entries is within its bounds: no more than its cap,
/// or its cap and the one notice of its refusal.
pub open spec fn held_within(c: Capture, held: int) -> bool {
    held <= c.cap || (held == c.cap + 1 && c.refused)
}

/// A capture keeps within its cap and its one refusal notice whatever it is offered: an
/// entry it keeps, recorded or the notice, leaves it within its bounds, and once it has
/// refused it keeps nothing more.
pub proof fn law_a_capture_stays_within_its_cap(c: Capture, held: int)
    requires
        0 <= held,
        held_within(c, held),
    ensures
        ({
            let r = admission(c, held);
            let after = Capture { refused: c.refused || r == Admission::Refuse, ..c };
            held_within(after, if r == Admission::Ignore { held } else { held + 1 })
        }),
        c.refused ==> admission(c, held) != Admission::Refuse,
{
}

impl Capture {
    /// A new capture, recording, up to the standard cap.
    pub fn new() -> (r: Capture)
        ensures
            r == (Capture { recording: true, refused: false, cap: CAPTURE_CAP }),
    {
        Capture { recording: true, refused: false, cap: CAPTURE_CAP }
    }

    /// Decide what to do with one more interaction while the capture holds `held` (see
    /// [`admission`]); a refusal is remembered, so it is made once.
    pub fn decide(&mut self, held: usize) -> (r: Admission)
        ensures
            r == admission(*old(self), held as int),
            *final(self) == (Capture { refused: old(self).refused || r == Admission::Refuse, ..*old(self) }),
    {
        if !self.recording {
            return Admission::Ignore;
        }
        if held >= self.cap {
            if self.refused {
                return Admission::Ignore;
            }
            self.refused = true;
            return Admission::Refuse;
        }
        Admission::Record
    }
}

/// The notice a capture keeps when it refuses.
pub fn refusal_detail(cap: usize) -> (r: String)
    ensures
        r@ == refusal_text(cap as nat),
{
    let head = glue(String::new(), "capture reached its cap of ");
    let head = glue(head, show_usize(cap).as_str());
    glue(head, " events and refused further recording rather than dropping events silently")
}

/// The evidence lines of a feedback record, one bullet each, in order.
pub open spec fn evidence_text(extra: Seq<Seq<char>>) -> Seq<char>
    decreases extra.len(),
{
    if extra.len() == 0 {
        Seq::empty()
    } else {
        evidence_text(extra.drop_last()) + "- "@ + extra.last() + "\n"@
    }
}

/// A feedback record from `stage`'s playtest: the session, build, time captured and count
/// of interactions; the observation; the evidence offered, or a line saying none was; and
/// the limits of one playtest, at tentative confidence.
pub open spec fn feedback_text(
    stage: Seq<char>,
    session: Seq<char>,
    build: Seq<char>,
    captured_ms: nat,
    count: nat,
    observation: Seq<char>,
    extra: Seq<Seq<char>>,
) -> Seq<char> {
    "# Playtest feedback — "@ + stage + "\n\n"@ + "- **session**: `"@ + session + "`\n"@ + "- **build**: `"@
        + build + "`\n"@ + "- **captured**: "@ + decimal_nat(captured_ms) + " (unix ms)\n"@
        + "- **interactions recorded**: "@ + decimal_nat(count) + " in this session\n"@
        + "- **capture file**: `playtest/"@ + stage + "/sessions/"@ + session + ".jsonl`\n"@
        + "- **confidence**: `tentative`\n\n"@ + "## Observation\n\n"@ + observation
        + "\n\n## Supporting evidence\n\n"@ + (if extra.len() == 0 {
        "- None offered with this record.\n"@
    } else {
        evidence_text(extra)
    }) + "\n## Applicability and limitations\n\n"@ + "- Conditions: this playtest only, on this build.\n"@
        + "- Limitations: a single session, with no baseline to compare against.\n"@
        + "- A claim with one playtest behind it must not read like one with ten.\n"@
}

/// Write out a feedback record (see [`feedback_text`]) with the observation `text`
/// trimmed of surrounding whitespace.
pub fn feedback(
    stage: &str,
    session: &str,
    build: &str,
    captured_ms: u64,
    count: usize,
    text: &str,
    extra: &Vec<String>,
) -> (r: String)
    ensures
        r@ == feedback_text(
            stage@,
            session@,
            build@,
            captured_ms as nat,
            count as nat,
            trimmed(text@),
            views(extra@),
        ),
{
    let body = glue(String::new(), "# Playtest feedback — ");
    let body = glue(glue(body, stage), "\n\n");
    let body = glue(glue(glue(body, "- **session**: `"), session), "`\n");
    let body = glue(glue(glue(body, "- **build**: `"), build), "`\n");
    let body = glue(glue(glue(body, "- **captured**: "), show_u64(captured_ms).as_str()), " (unix ms)\n");
    let body = glue(
        glue(glue(body, "- **interactions recorded**: "), show_usize(count).as_str()),
        " in this session\n",
    );
    let body = glue(glue(glue(glue(glue(body, "- **capture file**: `playtest/"), stage), "/sessions/"), session), ".jsonl`\n");
    let body = glue(body, "- **confidence**: `tentative`\n\n");
    let body = glue(body, "## Observation\n\n");
    let body = glue(body, trim(text));
    let mut body = glue(body, "\n\n## Supporting evidence\n\n");
    let ghost head = body@;
    if extra.len() == 0 {
        body = glue(body, "- None offered with this record.\n");
    } else {
        let mut i: usize = 0;
        while i < extra.len()
            invariant
                i <= extra@.len(),
                body@ == head + evidence_text(views(extra@).take(i as int)),
            decreases extra@.len() - i,
        {
            proof {
                assert(views(extra@).take(i as int + 1).drop_last() =~= views(extra@).take(i as int));
            }
            body = glue(glue(glue(body, "- "), extra[i].as_str()), "\n");
            i += 1;
        }
        proof {
            assert(views(extra@).take(extra@.len() as int) =~= views(extra@));
        }
    }
    let body = glue(body, "\n## Applicability and limitations\n\n");
    let body = glue(body, "- Conditions: this playtest only, on this build.\n");
    let body = glue(body, "- Limitations: a single session, with no baseline to compare against.\n");
    glue(body, "- A claim with one playtest behind it must not read like one with ten.\n")
}

} // verus!
