//! When recording stands still, and why.
use crate::exclude::PrivateHit;
use vstd::prelude::*;

verus! {

/// Why recording stands still.
#[derive(Debug, Clone, Copy, PartialEq, Eq, Structural)]
pub enum PauseReason {
    Disarmed,
    Locked,
    Idle,
    Overlay,
    Excluded,
    Portal,
    PrivateBrowsing,
    TitlePattern,
}

impl PauseReason {
    /// The name of the reason.
    pub open spec fn name(self) -> Seq<char> {
        match self {
            PauseReason::Disarmed => "disarmed"@,
            PauseReason::Locked => "locked"@,
            PauseReason::Idle => "idle"@,
            PauseReason::Overlay => "overlay"@,
            PauseReason::Excluded => "excluded"@,
            PauseReason::Portal => "portal"@,
            PauseReason::PrivateBrowsing => "private-browsing"@,
            PauseReason::TitlePattern => "title-pattern"@,
        }
    }

    /// The name of the reason.
    pub fn as_str(&self) -> (r: &'static str)
        ensures
            r@ == self.name(),
    {
        match self {
            PauseReason::Disarmed => "disarmed",
            PauseReason::Locked => "locked",
            PauseReason::Idle => "idle",
            PauseReason::Overlay => "overlay",
            PauseReason::Excluded => "excluded",
            PauseReason::Portal => "portal",
            PauseReason::PrivateBrowsing => "private-browsing",
            PauseReason::TitlePattern => "title-pattern",
        }
    }
}

/// What recording depends on.
#[derive(Debug, Clone)]
pub struct PauseInput {
    pub armed: bool,
    pub locked: bool,
    pub idle_ms: u64,
    pub idle_limit_ms: u64,
    pub overlay_open: bool,
    pub excluded: Option<String>,
    pub portal_active: bool,
    pub private_browsing: Option<PrivateHit>,
    pub title_pause: Option<String>,
}

impl Default for PauseInput {
    fn default() -> (r: Self)
        ensures
            !r.armed && !r.locked && r.idle_ms == 0 && r.idle_limit_ms == 0 && !r.overlay_open,
            r.excluded is None && !r.portal_active && r.private_browsing is None && r.title_pause is None,
    {
        PauseInput {
            armed: false,
            locked: false,
            idle_ms: 0,
            idle_limit_ms: 0,
            overlay_open: false,
            excluded: None,
            portal_active: false,
            private_browsing: None,
            title_pause: None,
        }
    }
}

/// There has been no input for too long; a limit of zero is no limit.
pub open spec fn too_idle(idle_ms: u64, limit: u64) -> bool {
    limit > 0 && idle_ms >= limit
}

/// Why recording stands still; the first reason of several.
pub open spec fn reason_for(i: PauseInput) -> Option<PauseReason> {
    if !i.armed {
        Some(PauseReason::Disarmed)
    } else if i.locked {
        Some(PauseReason::Locked)
    } else if i.overlay_open {
        Some(PauseReason::Overlay)
    } else if i.portal_active {
        Some(PauseReason::Portal)
    } else if i.excluded is Some {
        Some(PauseReason::Excluded)
    } else if i.private_browsing is Some {
        Some(PauseReason::PrivateBrowsing)
    } else if i.title_pause is Some {
        Some(PauseReason::TitlePattern)
    } else if too_idle(i.idle_ms, i.idle_limit_ms) {
        Some(PauseReason::Idle)
    } else {
        None
    }
}

/// Why recording stands still; the first reason of several.
pub fn evaluate(input: &PauseInput) -> (r: Option<PauseReason>)
    ensures
        r == reason_for(*input),
{
    if !input.armed {
        return Some(PauseReason::Disarmed);
    }
    if input.locked {
        return Some(PauseReason::Locked);
    }
    if input.overlay_open {
        return Some(PauseReason::Overlay);
    }
    if input.portal_active {
        return Some(PauseReason::Portal);
    }
    if input.excluded.is_some() {
        return Some(PauseReason::Excluded);
    }
    if input.private_browsing.is_some() {
        return Some(PauseReason::PrivateBrowsing);
    }
    if input.title_pause.is_some() {
        return Some(PauseReason::TitlePattern);
    }
    if input.idle_limit_ms > 0 && input.idle_ms >= input.idle_limit_ms {
        return Some(PauseReason::Idle);
    }
    None
}

/// Recording goes on only where every single thing that can forbid it does not;
/// where it is disarmed, that is the reason given, whatever else holds.
pub proof fn law_recording_needs_every_leave(i: PauseInput)
    ensures
        reason_for(i) is None <==> {
            &&& i.armed
            &&& !i.locked
            &&& !i.overlay_open
            &&& !i.portal_active
            &&& i.excluded is None
            &&& i.private_browsing is None
            &&& i.title_pause is None
            &&& !too_idle(i.idle_ms, i.idle_limit_ms)
        },
        !i.armed ==> reason_for(i) == Some(PauseReason::Disarmed),
        reason_for(i) == Some(PauseReason::Idle) ==> i.armed && !i.locked && !i.overlay_open && !i.portal_active,
{
}

/// An armed daemon records, a locked or disarmed one does not.
pub fn self_test() -> (r: Result<(), String>)
    ensures
        r is Ok,
{
    let mut i = PauseInput::default();
    i.armed = true;
    i.idle_limit_ms = 120_000;
    if evaluate(&i).is_some() {
        return Err("idle machine should record".to_string());
    }
    i.locked = true;
    if evaluate(&i) != Some(PauseReason::Locked) {
        return Err("lock must force 0 fps".to_string());
    }
    i.locked = false;
    i.armed = false;
    if evaluate(&i) != Some(PauseReason::Disarmed) {
        return Err("disarm must force 0 fps".to_string());
    }
    Ok(())
}

/// Of several reasons the weightiest is given: a switch that is off before a
/// locked screen, that before the overlay, then a shared screen, an excluded
/// window, private browsing and a title, and a lack of input last of all.
pub proof fn law_the_weightiest_reason_is_given(i: PauseInput)
    ensures
        i.armed && i.locked ==> reason_for(i) == Some(PauseReason::Locked),
        i.armed && !i.locked && i.overlay_open ==> reason_for(i) == Some(PauseReason::Overlay),
        i.armed && !i.locked && !i.overlay_open && i.portal_active ==> reason_for(i) == Some(PauseReason::Portal),
        i.armed && !i.locked && !i.overlay_open && !i.portal_active ==> {
            &&& i.excluded is Some ==> reason_for(i) == Some(PauseReason::Excluded)
            &&& i.excluded is None && i.private_browsing is Some ==> reason_for(i) == Some(PauseReason::PrivateBrowsing)
            &&& i.excluded is None && i.private_browsing is None && i.title_pause is Some ==> reason_for(i) == Some(
                PauseReason::TitlePattern,
            )
            &&& i.excluded is None && i.private_browsing is None && i.title_pause is None ==> (reason_for(i) == Some(
                PauseReason::Idle,
            ) <==> i.idle_limit_ms > 0 && i.idle_ms >= i.idle_limit_ms)
        },
        i.idle_limit_ms == 0 ==> reason_for(i) != Some(PauseReason::Idle),
{
}

/// Each reason has a name of its own.
pub proof fn law_reasons_have_names(a: PauseReason, b: PauseReason)
    ensures
        a.name() == b.name() ==> a == b,
        a.name().len() > 0,
        PauseReason::Disarmed.name() == "disarmed"@,
        PauseReason::Locked.name() == "locked"@,
        PauseReason::Idle.name() == "idle"@,
        PauseReason::Overlay.name() == "overlay"@,
        PauseReason::Excluded.name() == "excluded"@,
        PauseReason::Portal.name() == "portal"@,
        PauseReason::PrivateBrowsing.name() == "private-browsing"@,
        PauseReason::TitlePattern.name() == "title-pattern"@,
{
    reveal_strlit("disarmed");
    reveal_strlit("locked");
    reveal_strlit("idle");
    reveal_strlit("overlay");
    reveal_strlit("excluded");
    reveal_strlit("portal");
    reveal_strlit("private-browsing");
    reveal_strlit("title-pattern");
    assert("disarmed"@.len() != "locked"@.len());
    assert("disarmed"@.len() != "idle"@.len());
    assert("disarmed"@.len() != "overlay"@.len());
    assert("disarmed"@[0] != "excluded"@[0]);
    assert("disarmed"@.len() != "portal"@.len());
    assert("disarmed"@.len() != "private-browsing"@.len());
    assert("disarmed"@.len() != "title-pattern"@.len());
    assert("locked"@.len() != "idle"@.len());
    assert("locked"@.len() != "overlay"@.len());
    assert("locked"@.len() != "excluded"@.len());
    assert("locked"@[0] != "portal"@[0]);
    assert("locked"@.len() != "private-browsing"@.len());
    assert("locked"@.len() != "title-pattern"@.len());
    assert("idle"@.len() != "overlay"@.len());
    assert("idle"@.len() != "excluded"@.len());
    assert("idle"@.len() != "portal"@.len());
    assert("idle"@.len() != "private-browsing"@.len());
    assert("idle"@.len() != "title-pattern"@.len());
    assert("overlay"@.len() != "excluded"@.len());
    assert("overlay"@.len() != "portal"@.len());
    assert("overlay"@.len() != "private-browsing"@.len());
    assert("overlay"@.len() != "title-pattern"@.len());
    assert("excluded"@.len() != "portal"@.len());
    assert("excluded"@.len() != "private-browsing"@.len());
    assert("excluded"@.len() != "title-pattern"@.len());
    assert("portal"@.len() != "private-browsing"@.len());
    assert("portal"@.len() != "title-pattern"@.len());
    assert("private-browsing"@.len() != "title-pattern"@.len());
}

} // verus!
